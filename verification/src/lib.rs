//! Doc-comment driven code generation for API operations: a verified core
//! that splits a declaration's doc comment into a summary and a description
//! and rewrites the declaration so that the two texts flow into an aide
//! `OperationInput` implementation and an infallible axum extractor.
//!
//! The pipeline takes a function declaration as a token stream, reads its
//! doc-comment attributes, splits them with [`comment::split`], and emits
//! four declarations: a zero-field companion type named after the function,
//! an implementation of the metadata-provider capability carrying the two
//! texts, an implementation of the request-extractor capability that never
//! fails, and the original declaration with the companion type inserted as
//! an ignored first parameter.

pub mod bridge;
pub mod capability;
pub mod comment;
pub mod text;
pub mod transform;

use vstd::prelude::*;

verus! {

/// Why a transformation was rejected; every failure is fatal to the single
/// transformation in which it occurs, and nothing is emitted for it.
#[derive(Debug)]
pub enum ExpandError {
    /// The input does not parse as a function-like declaration.
    ItemParse(syn::Error),
    /// The synthesized companion parameter does not parse as a parameter.
    ArgParse(syn::Error),
    /// The rendered replacement fragment does not lex as a token stream.
    OutputLex(proc_macro2::LexError),
}

/// Whether the input's printed text parses as a function item.
pub open spec fn item_parses(item: proc_macro2::TokenStream) -> bool {
    bridge::spec_item_parses(bridge::spec_tokens_source(item))
}

/// The function item the input's printed text parses into, when it parses.
pub open spec fn parsed_item_of(item: proc_macro2::TokenStream) -> syn::ItemFn {
    bridge::spec_parsed_item(bridge::spec_tokens_source(item))
}

/// The pipeline's projection of a declaration's attributes, in order.
pub open spec fn attr_views_of(attrs: Seq<syn::Attribute>) -> Seq<comment::MetaView> {
    attrs.map(|i: int, a: syn::Attribute| bridge::spec_attr_view(a))
}

/// The doc fragments the pipeline reads from a parsed declaration.
pub open spec fn doc_fragments_of(f: syn::ItemFn) -> Seq<Seq<char>> {
    comment::spec_doc_fragments(attr_views_of(bridge::spec_item_attrs(f)))
}

/// The source text of the companion parameter synthesized for a parsed
/// declaration: an ignored binding of the companion type.
pub open spec fn companion_arg_text(f: syn::ItemFn) -> Seq<char> {
    transform::spec_companion_arg(transform::spec_companion_name(bridge::spec_fn_name(f)))
}

/// The source text of the whole replacement fragment for the parsed
/// declaration `f` and its rewritten form: companion type declaration,
/// metadata-provider implementation carrying the split doc comment,
/// request-extractor implementation, rewritten declaration.
pub open spec fn expansion_source(f: syn::ItemFn, rewritten: syn::ItemFn) -> Seq<char> {
    transform::spec_expansion(
        bridge::spec_fn_vis(f),
        transform::spec_companion_name(bridge::spec_fn_name(f)),
        comment::spec_summary(doc_fragments_of(f)),
        comment::spec_description(doc_fragments_of(f)),
        bridge::spec_fn_source(rewritten),
    )
}

/// Holds when `r` is the outcome of lexing the replacement fragment built
/// from the parsed declaration `f` and the parsed companion parameter
/// `arg`: the lexed tokens on success, that lexing error otherwise.
pub open spec fn expansion_outcome(
    f: syn::ItemFn,
    arg: syn::FnArg,
    r: Result<proc_macro2::TokenStream, ExpandError>,
) -> bool {
    let rewritten = bridge::spec_with_args(f, bridge::spec_fn_args(f).insert(0, arg));
    match bridge::spec_lex(expansion_source(f, rewritten)) {
        Ok(t) => r == Ok::<proc_macro2::TokenStream, ExpandError>(t),
        Err(e) => r == Err::<proc_macro2::TokenStream, ExpandError>(ExpandError::OutputLex(e)),
    }
}

/// Transforms one function declaration: splits its doc comment into a
/// summary and a description and emits the replacement source fragment —
/// companion type, metadata-provider implementation, request-extractor
/// implementation, and the declaration itself with the companion type as an
/// ignored first parameter. The transformation is all-or-nothing: on any
/// failure an error is returned and no fragment is produced.
///
/// The contract pins each outcome to the named outside results: failure
/// with [`ExpandError::ItemParse`] exactly when the input's printed text
/// does not parse as a function item; failure with
/// [`ExpandError::ArgParse`] exactly when the synthesized companion
/// parameter text does not parse; otherwise the result is the lexing
/// outcome of the rendered fragment, built from the parsed item and the
/// parsed companion parameter, both named functions of their texts.
pub fn aidecomment(item: proc_macro2::TokenStream) -> (r: Result<
    proc_macro2::TokenStream,
    ExpandError,
>)
    ensures
        (r matches Err(ExpandError::ItemParse(_))) <==> !item_parses(item),
        item_parses(item) ==> ((r matches Err(ExpandError::ArgParse(_)))
            <==> !bridge::spec_arg_parses(companion_arg_text(parsed_item_of(item)))),
        item_parses(item) && bridge::spec_arg_parses(companion_arg_text(parsed_item_of(item)))
            ==> expansion_outcome(
            parsed_item_of(item),
            bridge::spec_parsed_arg(companion_arg_text(parsed_item_of(item))),
            r,
        ),
{
    let mut f = match bridge::parse_item_fn(item) {
        Ok(f) => f,
        Err(e) => {
            return Err(ExpandError::ItemParse(e));
        },
    };
    let ghost f0 = f;
    let attrs = bridge::item_attrs(&f);
    let mut views: Vec<comment::MetaView> = Vec::new();
    let mut i: usize = 0;
    while i < attrs.len()
        invariant
            i <= attrs@.len(),
            views@.len() == i,
            forall|j: int| 0 <= j < i ==> views@[j] == bridge::spec_attr_view(attrs@[j]),
        decreases attrs@.len() - i,
    {
        views.push(bridge::attr_meta_view(&attrs[i]));
        i = i + 1;
    }
    proof {
        assert(views@ =~= attr_views_of(attrs@));
    }
    let fragments = comment::filter_doc_fragments(&views);
    let parts = comment::split(&fragments);
    let name = bridge::fn_ident_string(&f);
    let vis = bridge::fn_vis_source(&f);
    let comp = transform::companion_name(name.as_str());
    let arg_src = transform::companion_arg_source(comp.as_str());
    let arg = match bridge::parse_fn_arg(arg_src.as_str()) {
        Ok(a) => a,
        Err(e) => {
            return Err(ExpandError::ArgParse(e));
        },
    };
    let ghost arg0 = arg;
    let mut args = bridge::fn_args(&f);
    transform::insert_companion_arg(&mut args, arg);
    bridge::set_fn_args(&mut f, args);
    let ghost rewritten = bridge::spec_with_args(f0, bridge::spec_fn_args(f0).insert(0, arg0));
    let fn_src = bridge::item_fn_source(&f);
    let out_src = transform::render_expansion(
        vis.as_str(),
        comp.as_str(),
        parts.0.as_str(),
        parts.1.as_str(),
        fn_src.as_str(),
    );
    proof {
        assert(out_src@ == expansion_source(f0, rewritten));
    }
    let res: Result<proc_macro2::TokenStream, ExpandError> = match bridge::parse_tokens(
        out_src.as_str(),
    ) {
        Ok(tokens) => Ok(tokens),
        Err(e) => Err(ExpandError::OutputLex(e)),
    };
    proof {
        assert(expansion_outcome(f0, arg0, res));
    }
    res
}

} // verus!
