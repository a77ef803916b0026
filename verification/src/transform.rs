//! The declaration transformer: derives the companion type's name, renders
//! the companion type declaration and the two capability implementations as
//! source text, and inserts the companion parameter at the front of the
//! declaration's parameter list.

use vstd::prelude::*;

use crate::bridge;
use crate::text::is_ws_char;

verus! {

/// The companion type's name: the declaration's name followed by a fixed
/// suffix. The suffix is a documented reservation; a user identifier of the
/// same spelling in the same scope collides with the generated type.
pub open spec fn spec_companion_name(fn_name: Seq<char>) -> Seq<char> {
    fn_name + "_AideComment"@
}

/// Derives the companion type's name from the declaration's name.
pub fn companion_name(fn_name: &str) -> (r: String)
    ensures
        r@ == spec_companion_name(fn_name@),
{
    let mut r = fn_name.to_owned();
    r.append("_AideComment");
    r
}

/// How one character appears inside a generated string literal: quote,
/// backslash, newline, carriage return, tab and the null character are
/// escaped; every other character stands for itself.
pub open spec fn escape_char(c: char) -> Seq<char> {
    if c == '"' {
        seq!['\\', '"']
    } else if c == '\\' {
        seq!['\\', '\\']
    } else if c == '\n' {
        seq!['\\', 'n']
    } else if c == '\r' {
        seq!['\\', 'r']
    } else if c == '\t' {
        seq!['\\', 't']
    } else if c == '\0' {
        seq!['\\', '0']
    } else {
        seq![c]
    }
}

/// The text as it appears between the quotes of a generated string literal.
pub open spec fn escape_text(s: Seq<char>) -> Seq<char>
    decreases s.len(),
{
    if s.len() == 0 {
        Seq::empty()
    } else {
        escape_char(s[0]) + escape_text(s.drop_first())
    }
}

proof fn lemma_escape_text_push(s: Seq<char>, c: char)
    ensures
        escape_text(s.push(c)) == escape_text(s) + escape_char(c),
    decreases s.len(),
{
    let p = s.push(c);
    if s.len() == 0 {
        assert(p.len() == 1);
        assert(p[0] == c);
        assert(p.drop_first() =~= Seq::<char>::empty());
        assert(escape_text(p.drop_first()) == Seq::<char>::empty());
        assert(escape_text(s) == Seq::<char>::empty());
        assert(escape_char(c) + Seq::<char>::empty() =~= escape_char(c));
        assert(Seq::<char>::empty() + escape_char(c) =~= escape_char(c));
    } else {
        assert(p[0] == s[0]);
        assert(p.drop_first() =~= s.drop_first().push(c));
        lemma_escape_text_push(s.drop_first(), c);
        assert(escape_char(s[0]) + (escape_text(s.drop_first()) + escape_char(c)) =~= (escape_char(
            s[0],
        ) + escape_text(s.drop_first())) + escape_char(c));
    }
}

/// Escapes a text for embedding in a generated string literal.
pub fn escape_string(s: &str) -> (r: String)
    ensures
        r@ == escape_text(s@),
{
    let cs = crate::text::str_to_chars(s);
    let mut out: Vec<char> = Vec::new();
    let mut i: usize = 0;
    while i < cs.len()
        invariant
            i <= cs@.len(),
            cs@ == s@,
            out@ == escape_text(s@.take(i as int)),
        decreases cs@.len() - i,
    {
        let c = cs[i];
        if c == '"' {
            out.push('\\');
            out.push('"');
        } else if c == '\\' {
            out.push('\\');
            out.push('\\');
        } else if c == '\n' {
            out.push('\\');
            out.push('n');
        } else if c == '\r' {
            out.push('\\');
            out.push('r');
        } else if c == '\t' {
            out.push('\\');
            out.push('t');
        } else if c == '\0' {
            out.push('\\');
            out.push('0');
        } else {
            out.push(c);
        }
        proof {
            assert(s@.take(i + 1) =~= s@.take(i as int).push(s@[i as int]));
            lemma_escape_text_push(s@.take(i as int), s@[i as int]);
            assert(out@ =~= escape_text(s@.take(i as int)) + escape_char(s@[i as int]));
        }
        i = i + 1;
    }
    proof {
        assert(s@.take(s@.len() as int) =~= s@);
    }
    bridge::chars_to_string(&out)
}

/// The source text of the companion parameter that is inserted at position
/// zero: an ignored binding of the companion type.
pub open spec fn spec_companion_arg(comp: Seq<char>) -> Seq<char> {
    "_: "@ + comp
}

/// Renders the companion parameter's source text.
pub fn companion_arg_source(comp: &str) -> (r: String)
    ensures
        r@ == spec_companion_arg(comp@),
{
    let mut r = "_: ".to_owned();
    r.append(comp);
    r
}

/// The companion type's declaration: a zero-field type with the same
/// visibility as the target declaration.
pub open spec fn spec_struct_decl(vis: Seq<char>, comp: Seq<char>) -> Seq<char> {
    vis + " struct "@ + comp + " ;\n"@
}

/// The metadata-provider implementation: on invocation it sets the
/// operation's summary and description to the two split texts. Both fields
/// are always set, even when the text is empty: an empty summary yields a
/// present-but-empty summary field, not an absent one.
pub open spec fn spec_operation_impl(comp: Seq<char>, summary: Seq<char>, description: Seq<
    char,
>) -> Seq<char> {
    "impl ::aide::OperationInput for "@ + comp
        + " { fn operation_input(_ctx: &mut ::aide::gen::GenContext, operation: &mut ::aide::openapi::Operation) { operation.summary = Some(\""@
        + escape_text(summary) + "\".to_owned()); operation.description = Some(\""@ + escape_text(
        description,
    ) + "\".to_owned()); } }\n"@
}

/// The request-extractor implementation: it unconditionally succeeds with
/// the companion type's singleton value and declares its failure type as
/// uninhabitable.
pub open spec fn spec_extractor_impl(comp: Seq<char>) -> Seq<char> {
    "#[::axum::async_trait] impl<S> ::axum::extract::FromRequestParts<S> for "@ + comp
        + " { type Rejection = ::std::convert::Infallible; async fn from_request_parts(_parts: &mut ::axum::http::request::Parts, _state: &S) -> Result<Self, Self::Rejection> { Ok("@
        + comp + ") } }\n"@
}

/// The whole emitted fragment: companion type declaration, metadata-provider
/// implementation, request-extractor implementation, then the rewritten
/// declaration. The companion type is declared before every use of it.
pub open spec fn spec_expansion(
    vis: Seq<char>,
    comp: Seq<char>,
    summary: Seq<char>,
    description: Seq<char>,
    fn_src: Seq<char>,
) -> Seq<char> {
    spec_struct_decl(vis, comp) + spec_operation_impl(comp, summary, description)
        + spec_extractor_impl(comp) + fn_src
}

/// Renders the whole emitted fragment as source text.
pub fn render_expansion(
    vis: &str,
    comp: &str,
    summary: &str,
    description: &str,
    fn_src: &str,
) -> (r: String)
    ensures
        r@ == spec_expansion(vis@, comp@, summary@, description@, fn_src@),
{
    let escaped_summary = escape_string(summary);
    let escaped_description = escape_string(description);
    let mut r = vis.to_owned();
    r.append(" struct ");
    r.append(comp);
    r.append(" ;\n");
    r.append("impl ::aide::OperationInput for ");
    r.append(comp);
    r.append(
        " { fn operation_input(_ctx: &mut ::aide::gen::GenContext, operation: &mut ::aide::openapi::Operation) { operation.summary = Some(\"",
    );
    r.append(escaped_summary.as_str());
    r.append("\".to_owned()); operation.description = Some(\"");
    r.append(escaped_description.as_str());
    r.append("\".to_owned()); } }\n");
    r.append("#[::axum::async_trait] impl<S> ::axum::extract::FromRequestParts<S> for ");
    r.append(comp);
    r.append(
        " { type Rejection = ::std::convert::Infallible; async fn from_request_parts(_parts: &mut ::axum::http::request::Parts, _state: &S) -> Result<Self, Self::Rejection> { Ok(",
    );
    r.append(comp);
    r.append(") } }\n");
    r.append(fn_src);
    r
}

/// Inserts the companion parameter at position zero of a parameter list; the
/// original parameters keep their order and shift right by one.
pub fn insert_companion_arg(args: &mut Vec<syn::FnArg>, companion: syn::FnArg)
    ensures
        final(args)@ == old(args)@.insert(0, companion),
        final(args)@.len() == old(args)@.len() + 1,
        final(args)@[0] == companion,
        forall|i: int| 0 <= i < old(args)@.len() ==> final(args)@[i + 1] == old(args)@[i],
{
    proof {
        args@.insert_ensures(0, companion);
    }
    args.insert(0, companion);
}

/// Law: inserting the companion parameter at position zero of a parameter
/// list of length `n` yields a list of length `n + 1` whose first element is
/// the companion parameter and whose elements at positions `1 ..= n` are the
/// original parameters, in their original order.
pub proof fn lemma_parameter_shift<T>(params: Seq<T>, companion: T)
    ensures
        params.insert(0, companion).len() == params.len() + 1,
        params.insert(0, companion)[0] == companion,
        forall|i: int|
            0 <= i < params.len() ==> #[trigger] params.insert(0, companion)[i + 1] == params[i],
{
    params.insert_ensures(0, companion);
}

} // verus!
