//! The boundary to the token-handling crates: declarations of their types,
//! names for the results of the outside calls the pipeline makes, and thin
//! wrappers around those calls.
//!
//! Every wrapper that creates tokens runs under proc-macro2's
//! `fallback::force`/`unforce` window, and the entry parse re-lexes the
//! input's printed text inside that window. So every token value the
//! pipeline holds is backed by proc-macro2's own fallback implementation,
//! never by the compiler's: printing and extending never mix the two
//! backings (mixing aborts in proc-macro2), and, with the span-locations
//! feature off, as built here, fallback spans carry no data, which makes
//! each pinned call a function of its arguments alone — that is what lets
//! its result be named. The pinning flag is a process-global atomic, not
//! thread-isolated; macro expansion runs serially, so no concurrent caller
//! is affected, and the windows never nest.

use vstd::prelude::*;

use crate::comment::MetaView;

verus! {

#[verifier::external_type_specification]
#[verifier::external_body]
pub struct ExTokenStream(proc_macro2::TokenStream);

#[verifier::external_type_specification]
#[verifier::external_body]
pub struct ExLexError(proc_macro2::LexError);

#[verifier::external_type_specification]
#[verifier::external_body]
pub struct ExItemFn(syn::ItemFn);

#[verifier::external_type_specification]
#[verifier::external_body]
pub struct ExAttribute(syn::Attribute);

#[verifier::external_type_specification]
#[verifier::external_body]
pub struct ExFnArg(syn::FnArg);

#[verifier::external_type_specification]
#[verifier::external_body]
pub struct ExSynError(syn::Error);

/// The printed source text of a token stream, as its `Display` gives it;
/// printing reads only the token structure, never the spans.
pub uninterp spec fn spec_tokens_source(t: proc_macro2::TokenStream) -> Seq<char>;

/// Whether the pinned `syn::parse_str::<syn::ItemFn>` accepts a text as a
/// function item; with the lexer pinned, acceptance is a function of the
/// text alone.
pub uninterp spec fn spec_item_parses(s: Seq<char>) -> bool;

/// The function item the pinned `syn::parse_str::<syn::ItemFn>` parses an
/// accepted text into; under the pinned fallback the parsed value's spans
/// carry no data, so the value is a function of the text alone. The error
/// of a rejected text is deliberately left unnamed.
pub uninterp spec fn spec_parsed_item(s: Seq<char>) -> syn::ItemFn;

/// What the `attrs` field of a `syn::ItemFn` holds, in source order.
pub uninterp spec fn spec_item_attrs(f: syn::ItemFn) -> Seq<syn::Attribute>;

/// What [`attr_meta_view`] reads of one attribute: the name and text of a
/// `name = "literal"` pair, or `Other`; a pure function of the attribute.
pub uninterp spec fn spec_attr_view(a: syn::Attribute) -> MetaView;

/// The text of the declaration's name, as `syn::Ident::to_string` prints it.
pub uninterp spec fn spec_fn_name(f: syn::ItemFn) -> Seq<char>;

/// The printed source of the declaration's visibility qualifier; printing
/// ignores spans, so this is a function of the declaration alone.
pub uninterp spec fn spec_fn_vis(f: syn::ItemFn) -> Seq<char>;

/// What the `sig.inputs` field of a `syn::ItemFn` holds, in order.
pub uninterp spec fn spec_fn_args(f: syn::ItemFn) -> Seq<syn::FnArg>;

/// The declaration with its `sig.inputs` field replaced by the given
/// parameters. The separator commas this creates carry the pinned
/// fallback's data-free spans, so the result is a function of the
/// declaration and the parameters alone.
pub uninterp spec fn spec_with_args(f: syn::ItemFn, args: Seq<syn::FnArg>) -> syn::ItemFn;

/// The printed source of the whole declaration, body included; printing
/// ignores spans.
pub uninterp spec fn spec_fn_source(f: syn::ItemFn) -> Seq<char>;

/// Whether the pinned `syn::parse_str::<syn::FnArg>` accepts a text as one
/// function parameter; with the lexer pinned, a function of the text alone.
pub uninterp spec fn spec_arg_parses(s: Seq<char>) -> bool;

/// The parameter the pinned `syn::parse_str::<syn::FnArg>` parses an
/// accepted text into; under the pinned fallback its spans carry no data,
/// so the value is a function of the text alone. The error of a rejected
/// text is deliberately left unnamed.
pub uninterp spec fn spec_parsed_arg(s: Seq<char>) -> syn::FnArg;

/// What proc-macro2's fallback lexer returns for a text: tokens or a lexing
/// error; with span-locations off that lexer keeps no source map, so the
/// result is a function of the text alone.
pub uninterp spec fn spec_lex(s: Seq<char>) -> Result<
    proc_macro2::TokenStream,
    proc_macro2::LexError,
>;

/// Relies on `String: FromIterator<char>`: collecting characters yields the
/// string of exactly those characters, in order.
#[verifier::external_body]
pub(crate) fn chars_to_string(v: &Vec<char>) -> (r: String)
    ensures
        r@ == v@,
{
    v.iter().collect()
}

/// Relies on `syn::parse_str::<syn::ItemFn>` over the input's printed text,
/// pinned to the fallback lexer: re-lexing the text normalizes every token
/// of the parsed item to the fallback backing, and the pinned lexer returns
/// `Err` on every malformed text and panics on none. Acceptance and the
/// parsed item are the named functions of the printed text; a lexing
/// failure of the text surfaces as the parse error.
#[verifier::external_body]
pub(crate) fn parse_item_fn(item: proc_macro2::TokenStream) -> (r: Result<
    syn::ItemFn,
    syn::Error,
>)
    ensures
        (r is Ok) == spec_item_parses(spec_tokens_source(item)),
        r matches Ok(f) ==> f == spec_parsed_item(spec_tokens_source(item)),
{
    let src = item.to_string();
    proc_macro2::fallback::force();
    let r = syn::parse_str::<syn::ItemFn>(&src);
    proc_macro2::fallback::unforce();
    r
}

/// Relies on the `attrs` field of `syn::ItemFn`: hands out the declaration's
/// attributes, in source order; cloning keeps each token's backing.
#[verifier::external_body]
pub(crate) fn item_attrs(f: &syn::ItemFn) -> (r: Vec<syn::Attribute>)
    ensures
        r@ == spec_item_attrs(*f),
{
    f.attrs.clone()
}

/// Relies on `syn::Meta`, `syn::Expr` and `syn::Lit`: tells the attribute
/// shapes apart and moves out the name and the string literal's text of a
/// `name = "literal"` attribute; every other shape becomes `Other`. A pure
/// function of the attribute, named [`spec_attr_view`].
#[verifier::external_body]
pub(crate) fn attr_meta_view(a: &syn::Attribute) -> (r: MetaView)
    ensures
        r == spec_attr_view(*a),
{
    match &a.meta {
        syn::Meta::NameValue(nv) => match (nv.path.get_ident(), &nv.value) {
            (Some(ident), syn::Expr::Lit(el)) => match &el.lit {
                syn::Lit::Str(s) => MetaView::NameValueStr {
                    name: ident.to_string(),
                    value: s.value(),
                },
                _ => MetaView::Other,
            },
            _ => MetaView::Other,
        },
        _ => MetaView::Other,
    }
}

/// Relies on `syn::Ident::to_string`: the text of the declaration's name.
#[verifier::external_body]
pub(crate) fn fn_ident_string(f: &syn::ItemFn) -> (r: String)
    ensures
        r@ == spec_fn_name(*f),
{
    f.sig.ident.to_string()
}

/// Relies on `quote::ToTokens` for `syn::Visibility`: the source text of the
/// declaration's visibility qualifier (empty for inherited visibility).
/// Printing assembles a fresh stream, so it runs inside the pinned window:
/// the fresh stream then shares the stored tokens' fallback backing.
#[verifier::external_body]
pub(crate) fn fn_vis_source(f: &syn::ItemFn) -> (r: String)
    ensures
        r@ == spec_fn_vis(*f),
{
    proc_macro2::fallback::force();
    let r = quote::ToTokens::to_token_stream(&f.vis).to_string();
    proc_macro2::fallback::unforce();
    r
}

/// Relies on the `sig.inputs` field of `syn::ItemFn`: hands out the
/// declaration's parameters, in order; cloning keeps each token's backing.
#[verifier::external_body]
pub(crate) fn fn_args(f: &syn::ItemFn) -> (r: Vec<syn::FnArg>)
    ensures
        r@ == spec_fn_args(*f),
{
    f.sig.inputs.iter().cloned().collect()
}

/// Relies on the `sig.inputs` field of `syn::ItemFn`: replaces the
/// declaration's parameters with the given ones, in order, leaving every
/// other part of the declaration as it was — [`spec_with_args`] names the
/// declaration so rewritten. Rebuilding the list creates separator commas,
/// so it runs inside the pinned window to keep their backing fallback.
#[verifier::external_body]
pub(crate) fn set_fn_args(f: &mut syn::ItemFn, args: Vec<syn::FnArg>)
    ensures
        *final(f) == spec_with_args(*old(f), args@),
{
    proc_macro2::fallback::force();
    f.sig.inputs = args.into_iter().collect();
    proc_macro2::fallback::unforce();
}

/// Relies on `syn::parse_str::<syn::FnArg>`, pinned to the fallback lexer:
/// parses source text as one function parameter; it succeeds exactly on the
/// texts [`spec_arg_parses`] accepts, with the value [`spec_parsed_arg`],
/// and the pinned lexer returns `Err` on every malformed text and panics on
/// none.
#[verifier::external_body]
pub(crate) fn parse_fn_arg(src: &str) -> (r: Result<syn::FnArg, syn::Error>)
    ensures
        (r is Ok) == spec_arg_parses(src@),
        r matches Ok(a) ==> a == spec_parsed_arg(src@),
{
    proc_macro2::fallback::force();
    let r = syn::parse_str::<syn::FnArg>(src);
    proc_macro2::fallback::unforce();
    r
}

/// Relies on `quote::ToTokens` for `syn::ItemFn`: the source text of the
/// declaration, body included. Printing assembles a fresh stream, so it
/// runs inside the pinned window: the fresh stream then shares the stored
/// tokens' fallback backing.
#[verifier::external_body]
pub(crate) fn item_fn_source(f: &syn::ItemFn) -> (r: String)
    ensures
        r@ == spec_fn_source(*f),
{
    proc_macro2::fallback::force();
    let r = quote::ToTokens::to_token_stream(f).to_string();
    proc_macro2::fallback::unforce();
    r
}

/// Relies on `str::parse::<proc_macro2::TokenStream>`, pinned to
/// proc-macro2's own lexer rather than the compiler's: the compiler's lexer
/// documents that some errors may panic instead of returning `LexError`,
/// while the fallback lexer returns `Err` on every malformed input and
/// panics on none, and reads no ambient state — so its outcome is the
/// function of the text named [`spec_lex`].
#[verifier::external_body]
pub(crate) fn parse_tokens(src: &str) -> (r: Result<
    proc_macro2::TokenStream,
    proc_macro2::LexError,
>)
    ensures
        r == spec_lex(src@),
{
    proc_macro2::fallback::force();
    let r = src.parse::<proc_macro2::TokenStream>();
    proc_macro2::fallback::unforce();
    r
}

} // verus!
