//! The comment extractor and splitter: filters a declaration's attribute
//! metadata down to plain string doc fragments and splits the resulting doc
//! block into a summary (the leading run of non-blank lines, concatenated
//! with no separator) and a description (everything after the first blank
//! line, joined with newlines), both trimmed.

use vstd::prelude::*;

use crate::bridge;
use crate::text::{
    concat_all, concat_prefix, first_blank, first_blank_index, is_blank, join_nl, join_suffix,
    lines_of, split_lines, str_to_chars, trim, trim_chars, lemma_first_blank_at,
    lemma_join_nl_push, lemma_trim_idempotent,
};

verus! {

/// What the splitter reads of one attribute of the declaration: a
/// `name = "literal"` pair with a single-segment name, or any other shape,
/// which is ignored.
pub enum MetaView {
    NameValueStr { name: String, value: String },
    Other,
}

/// The doc lines an attribute contributes: the literal's text when the
/// attribute is a string name-value pair named `doc`, nothing otherwise.
pub open spec fn frag_contrib(a: MetaView) -> Seq<Seq<char>> {
    match a {
        MetaView::NameValueStr { name, value } => if name@ == "doc"@ {
            seq![value@]
        } else {
            Seq::empty()
        },
        MetaView::Other => Seq::empty(),
    }
}

/// The doc fragments of an attribute sequence, in order.
pub open spec fn spec_doc_fragments(attrs: Seq<MetaView>) -> Seq<Seq<char>>
    decreases attrs.len(),
{
    if attrs.len() == 0 {
        Seq::empty()
    } else {
        frag_contrib(attrs[0]) + spec_doc_fragments(attrs.drop_first())
    }
}

proof fn lemma_doc_fragments_push(attrs: Seq<MetaView>, x: MetaView)
    ensures
        spec_doc_fragments(attrs.push(x)) == spec_doc_fragments(attrs) + frag_contrib(x),
    decreases attrs.len(),
{
    let p = attrs.push(x);
    if attrs.len() == 0 {
        assert(p.len() == 1);
        assert(p[0] == x);
        assert(p.drop_first() =~= Seq::<MetaView>::empty());
        assert(spec_doc_fragments(p.drop_first()) == Seq::<Seq<char>>::empty());
        assert(spec_doc_fragments(attrs) == Seq::<Seq<char>>::empty());
        assert(frag_contrib(x) + Seq::<Seq<char>>::empty() =~~= frag_contrib(x));
        assert(Seq::<Seq<char>>::empty() + frag_contrib(x) =~~= frag_contrib(x));
    } else {
        assert(p[0] == attrs[0]);
        assert(p.drop_first() =~= attrs.drop_first().push(x));
        lemma_doc_fragments_push(attrs.drop_first(), x);
        assert(frag_contrib(attrs[0]) + (spec_doc_fragments(attrs.drop_first()) + frag_contrib(x))
            =~~= (frag_contrib(attrs[0]) + spec_doc_fragments(attrs.drop_first())) + frag_contrib(
            x,
        ));
    }
}

/// Keeps, in order, the texts of the attributes that are plain string doc
/// comments; every other attribute shape is silently ignored.
pub fn filter_doc_fragments(attrs: &Vec<MetaView>) -> (r: Vec<String>)
    ensures
        r.deep_view() == spec_doc_fragments(attrs@),
{
    let doc_name: String = "doc".to_owned();
    let mut r: Vec<String> = Vec::new();
    let mut i: usize = 0;
    proof {
        assert(attrs@.take(0) =~= Seq::<MetaView>::empty());
        assert(r.deep_view() =~~= Seq::<Seq<char>>::empty());
    }
    while i < attrs.len()
        invariant
            i <= attrs@.len(),
            doc_name@ == "doc"@,
            r.deep_view() == spec_doc_fragments(attrs@.take(i as int)),
        decreases attrs@.len() - i,
    {
        let ghost before = r.deep_view();
        match &attrs[i] {
            MetaView::NameValueStr { name, value } => {
                if name.eq(&doc_name) {
                    r.push(value.clone());
                    proof {
                        assert(r.deep_view() =~~= before.push(value@));
                        assert(before + frag_contrib(attrs@[i as int]) =~~= before.push(value@));
                    }
                } else {
                    proof {
                        assert(before + frag_contrib(attrs@[i as int]) =~~= before);
                    }
                }
            },
            MetaView::Other => {
                proof {
                    assert(before + frag_contrib(attrs@[i as int]) =~~= before);
                }
            },
        }
        proof {
            assert(attrs@.take(i + 1) =~= attrs@.take(i as int).push(attrs@[i as int]));
            lemma_doc_fragments_push(attrs@.take(i as int), attrs@[i as int]);
        }
        i = i + 1;
    }
    proof {
        assert(attrs@.take(attrs@.len() as int) =~= attrs@);
    }
    r
}

/// The doc block's lines: the fragments joined with newlines, then split
/// back into lines.
pub open spec fn doc_lines(fragments: Seq<Seq<char>>) -> Seq<Seq<char>> {
    split_lines(join_nl(fragments))
}

/// The summary: the lines before the first blank line, concatenated with no
/// separator, trimmed.
pub open spec fn spec_summary(fragments: Seq<Seq<char>>) -> Seq<char> {
    let lines = doc_lines(fragments);
    trim(concat_all(lines.take(first_blank(lines))))
}

/// The description: the lines from the first blank line onward, joined with
/// newlines, trimmed.
pub open spec fn spec_description(fragments: Seq<Seq<char>>) -> Seq<char> {
    let lines = doc_lines(fragments);
    trim(join_nl(lines.skip(first_blank(lines))))
}

/// Joins the fragments into the doc block.
fn join_fragments(fragments: &Vec<String>) -> (r: Vec<char>)
    ensures
        r@ == join_nl(fragments.deep_view()),
{
    let ghost dv = fragments.deep_view();
    let mut r: Vec<char> = Vec::new();
    let mut i: usize = 0;
    proof {
        assert(dv.take(0) =~~= Seq::<Seq<char>>::empty());
    }
    while i < fragments.len()
        invariant
            i <= fragments@.len(),
            dv == fragments.deep_view(),
            r@ == join_nl(dv.take(i as int)),
        decreases fragments@.len() - i,
    {
        if i > 0 {
            r.push('\n');
        }
        let mut cs = str_to_chars(fragments[i].as_str());
        r.append(&mut cs);
        proof {
            assert(dv.take(i + 1) =~~= dv.take(i as int).push(dv[i as int]));
            lemma_join_nl_push(dv.take(i as int), dv[i as int]);
            assert(fragments@[i as int]@ == dv[i as int]);
        }
        i = i + 1;
    }
    proof {
        assert(dv.take(dv.len() as int) =~~= dv);
    }
    r
}

/// Splits a sequence of doc fragments into `(summary, description)`.
///
/// The doc block is the fragments joined with newlines. The summary is the
/// run of non-blank lines at its start, concatenated with no separator and
/// trimmed; the description is everything from the first blank line on,
/// joined with newlines and trimmed. Absence of fragments is not an error:
/// both parts are then empty.
pub fn split(fragments: &Vec<String>) -> (r: (String, String))
    ensures
        r.0@ == spec_summary(fragments.deep_view()),
        r.1@ == spec_description(fragments.deep_view()),
{
    let block = join_fragments(fragments);
    let lines = lines_of(&block);
    let k = first_blank_index(&lines);
    let raw_summary = concat_prefix(&lines, k);
    let raw_description = join_suffix(&lines, k);
    let summary = trim_chars(&raw_summary);
    let description = trim_chars(&raw_description);
    (bridge::chars_to_string(&summary), bridge::chars_to_string(&description))
}

/// Law: the splitter is deterministic; equal fragment sequences give equal
/// summaries and equal descriptions.
pub proof fn lemma_split_deterministic(f1: Seq<Seq<char>>, f2: Seq<Seq<char>>)
    requires
        f1 == f2,
    ensures
        spec_summary(f1) == spec_summary(f2),
        spec_description(f1) == spec_description(f2),
{
}

/// Law: when no line of the doc block is blank, the description is empty and
/// the summary is the concatenation of all lines, trimmed.
pub proof fn lemma_no_blank_line(fragments: Seq<Seq<char>>)
    requires
        forall|i: int|
            0 <= i < doc_lines(fragments).len() ==> !is_blank(#[trigger] doc_lines(fragments)[i]),
    ensures
        spec_description(fragments) == Seq::<char>::empty(),
        spec_summary(fragments) == trim(concat_all(doc_lines(fragments))),
{
    let lines = doc_lines(fragments);
    lemma_first_blank_at(lines, lines.len() as int);
    assert(lines.take(lines.len() as int) =~~= lines);
    assert(lines.skip(lines.len() as int) =~~= Seq::<Seq<char>>::empty());
    assert(join_nl(Seq::<Seq<char>>::empty()) == Seq::<char>::empty());
    assert(trim(Seq::<char>::empty()) == Seq::<char>::empty());
}

/// Law: when the first line of the doc block is blank, the summary is empty.
pub proof fn lemma_leading_blank(fragments: Seq<Seq<char>>)
    requires
        doc_lines(fragments).len() > 0,
        is_blank(doc_lines(fragments)[0]),
    ensures
        spec_summary(fragments) == Seq::<char>::empty(),
{
    let lines = doc_lines(fragments);
    lemma_first_blank_at(lines, 0);
    assert(lines.take(0) =~~= Seq::<Seq<char>>::empty());
    assert(concat_all(Seq::<Seq<char>>::empty()) == Seq::<char>::empty());
    assert(trim(Seq::<char>::empty()) == Seq::<char>::empty());
}

/// Law: the summary is already trimmed; trimming it again is a no-op.
pub proof fn lemma_trim_summary_noop(fragments: Seq<Seq<char>>)
    ensures
        trim(spec_summary(fragments)) == spec_summary(fragments),
{
    let lines = doc_lines(fragments);
    lemma_trim_idempotent(concat_all(lines.take(first_blank(lines))));
}

/// Law: the description is already trimmed; trimming it again is a no-op.
pub proof fn lemma_trim_description_noop(fragments: Seq<Seq<char>>)
    ensures
        trim(spec_description(fragments)) == spec_description(fragments),
{
    let lines = doc_lines(fragments);
    lemma_trim_idempotent(join_nl(lines.skip(first_blank(lines))));
}

} // verus!
