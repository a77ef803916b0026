//! Character-sequence utilities shared by the comment splitter and the
//! declaration transformer: whitespace classification, trimming, line
//! splitting, and joining/concatenation of line sequences.

use vstd::prelude::*;

verus! {

/// A character with the Unicode `White_Space` property, the class that
/// `str::trim` removes at both ends of a string.
pub open spec fn is_ws_char(c: char) -> bool {
    ||| c == ' '
    ||| c == '\t'
    ||| c == '\n'
    ||| c == '\u{b}'
    ||| c == '\u{c}'
    ||| c == '\r'
    ||| c == '\u{85}'
    ||| c == '\u{a0}'
    ||| c == '\u{1680}'
    ||| c == '\u{2000}'
    ||| c == '\u{2001}'
    ||| c == '\u{2002}'
    ||| c == '\u{2003}'
    ||| c == '\u{2004}'
    ||| c == '\u{2005}'
    ||| c == '\u{2006}'
    ||| c == '\u{2007}'
    ||| c == '\u{2008}'
    ||| c == '\u{2009}'
    ||| c == '\u{200a}'
    ||| c == '\u{2028}'
    ||| c == '\u{2029}'
    ||| c == '\u{202f}'
    ||| c == '\u{205f}'
    ||| c == '\u{3000}'
}

/// Runtime check for [`is_ws_char`].
pub fn is_ws(c: char) -> (b: bool)
    ensures
        b == is_ws_char(c),
{
    c == ' ' || c == '\t' || c == '\n' || c == '\u{b}' || c == '\u{c}' || c == '\r'
        || c == '\u{85}' || c == '\u{a0}' || c == '\u{1680}' || c == '\u{2000}' || c == '\u{2001}'
        || c == '\u{2002}' || c == '\u{2003}' || c == '\u{2004}' || c == '\u{2005}'
        || c == '\u{2006}' || c == '\u{2007}' || c == '\u{2008}' || c == '\u{2009}'
        || c == '\u{200a}' || c == '\u{2028}' || c == '\u{2029}' || c == '\u{202f}'
        || c == '\u{205f}' || c == '\u{3000}'
}

/// The sequence with all leading whitespace removed.
pub open spec fn trim_start(s: Seq<char>) -> Seq<char>
    decreases s.len(),
{
    if s.len() > 0 && is_ws_char(s[0]) {
        trim_start(s.drop_first())
    } else {
        s
    }
}

/// The sequence with all trailing whitespace removed.
pub open spec fn trim_end(s: Seq<char>) -> Seq<char>
    decreases s.len(),
{
    if s.len() > 0 && is_ws_char(s.last()) {
        trim_end(s.drop_last())
    } else {
        s
    }
}

/// The sequence with whitespace removed at both ends, as `str::trim` does.
pub open spec fn trim(s: Seq<char>) -> Seq<char> {
    trim_end(trim_start(s))
}

/// A line is blank when every character in it is whitespace, which is
/// exactly when its trimmed content is empty (see
/// [`lemma_blank_iff_trim_empty`]).
pub open spec fn is_blank(s: Seq<char>) -> bool {
    forall|i: int| 0 <= i < s.len() ==> is_ws_char(s[i])
}

proof fn lemma_trim_start_skip(s: Seq<char>, i: int)
    requires
        0 <= i <= s.len(),
        forall|j: int| 0 <= j < i ==> is_ws_char(s[j]),
    ensures
        trim_start(s) == trim_start(s.skip(i)),
    decreases i,
{
    if i > 0 {
        assert(s.drop_first() =~= s.skip(1));
        lemma_trim_start_skip(s.skip(1), i - 1);
        assert(s.skip(1).skip(i - 1) =~= s.skip(i));
    } else {
        assert(s.skip(0) =~= s);
    }
}

proof fn lemma_trim_start_exact(s: Seq<char>, a: int)
    requires
        0 <= a <= s.len(),
        forall|j: int| 0 <= j < a ==> is_ws_char(s[j]),
        a == s.len() || !is_ws_char(s[a]),
    ensures
        trim_start(s) == s.skip(a),
{
    lemma_trim_start_skip(s, a);
}

proof fn lemma_trim_end_take(s: Seq<char>, b: int)
    requires
        0 <= b <= s.len(),
        forall|j: int| b <= j < s.len() ==> is_ws_char(s[j]),
        b == 0 || !is_ws_char(s[b - 1]),
    ensures
        trim_end(s) == s.take(b),
    decreases s.len(),
{
    if s.len() > b {
        assert(is_ws_char(s.last()));
        assert(s.drop_last() =~= s.take(s.len() - 1));
        lemma_trim_end_take(s.take(s.len() - 1), b);
        assert(s.take(s.len() - 1).take(b) =~= s.take(b));
    } else {
        assert(s.take(b) =~= s);
    }
}

proof fn lemma_trim_start_head(s: Seq<char>)
    ensures
        trim_start(s).len() == 0 || !is_ws_char(trim_start(s)[0]),
    decreases s.len(),
{
    if s.len() > 0 && is_ws_char(s[0]) {
        lemma_trim_start_head(s.drop_first());
    }
}

proof fn lemma_trim_end_last(s: Seq<char>)
    ensures
        trim_end(s).len() == 0 || !is_ws_char(trim_end(s).last()),
    decreases s.len(),
{
    if s.len() > 0 && is_ws_char(s.last()) {
        lemma_trim_end_last(s.drop_last());
    }
}

proof fn lemma_trim_end_prefix(s: Seq<char>)
    ensures
        trim_end(s).len() <= s.len(),
        trim_end(s) == s.take(trim_end(s).len() as int),
    decreases s.len(),
{
    if s.len() > 0 && is_ws_char(s.last()) {
        lemma_trim_end_prefix(s.drop_last());
        assert(s.drop_last().take(trim_end(s).len() as int) =~= s.take(
            trim_end(s).len() as int,
        ));
    } else {
        assert(s.take(s.len() as int) =~= s);
    }
}

/// Law: trimming is idempotent; trimming an already trimmed sequence is a
/// no-op.
pub proof fn lemma_trim_idempotent(s: Seq<char>)
    ensures
        trim(trim(s)) == trim(s),
{
    let t = trim_start(s);
    let u = trim_end(t);
    lemma_trim_start_head(s);
    lemma_trim_end_prefix(t);
    lemma_trim_end_last(t);
    if u.len() == 0 {
        assert(trim_start(u) == u);
        assert(trim_end(u) == u);
    } else {
        assert(u[0] == t[0]);
        assert(trim_start(u) == u);
        assert(trim_end(u) == u);
    }
}

proof fn lemma_trim_end_empty_blank(s: Seq<char>)
    requires
        trim_end(s).len() == 0,
    ensures
        is_blank(s),
    decreases s.len(),
{
    if s.len() > 0 && is_ws_char(s.last()) {
        lemma_trim_end_empty_blank(s.drop_last());
        assert forall|i: int| 0 <= i < s.len() implies is_ws_char(s[i]) by {
            if i < s.len() - 1 {
                assert(s[i] == s.drop_last()[i]);
            }
        }
    }
}

/// A sequence is blank exactly when its trimmed content is empty.
pub proof fn lemma_blank_iff_trim_empty(s: Seq<char>)
    ensures
        is_blank(s) <==> trim(s).len() == 0,
    decreases s.len(),
{
    if s.len() == 0 {
    } else if is_ws_char(s[0]) {
        let rest = s.drop_first();
        lemma_blank_iff_trim_empty(rest);
        assert(trim_start(s) == trim_start(rest));
        if is_blank(rest) {
            assert forall|i: int| 0 <= i < s.len() implies is_ws_char(s[i]) by {
                if i > 0 {
                    assert(s[i] == rest[i - 1]);
                }
            }
        }
        if is_blank(s) {
            assert forall|i: int| 0 <= i < rest.len() implies is_ws_char(rest[i]) by {
                assert(rest[i] == s[i + 1]);
            }
        }
        assert(is_blank(s) <==> is_blank(rest));
    } else {
        assert(!is_blank(s));
        assert(trim_start(s) == s);
        if trim_end(s).len() == 0 {
            lemma_trim_end_empty_blank(s);
            assert(is_ws_char(s[0]));
        }
    }
}

/// Runtime trimming of a character vector, matching `str::trim`.
pub fn trim_chars(v: &Vec<char>) -> (r: Vec<char>)
    ensures
        r@ == trim(v@),
{
    let mut a: usize = 0;
    while a < v.len() && is_ws(v[a])
        invariant
            a <= v.len(),
            forall|j: int| 0 <= j < a ==> is_ws_char(v@[j]),
        decreases v.len() - a,
    {
        a = a + 1;
    }
    proof {
        lemma_trim_start_exact(v@, a as int);
    }
    let mut b: usize = v.len();
    while b > a && is_ws(v[b - 1])
        invariant
            a <= b <= v.len(),
            forall|j: int| b <= j < v.len() ==> is_ws_char(v@[j]),
        decreases b,
    {
        b = b - 1;
    }
    proof {
        lemma_trim_end_take(v@.skip(a as int), b - a);
        assert(v@.skip(a as int).take(b - a) =~= v@.subrange(a as int, b as int));
    }
    let mut r: Vec<char> = Vec::new();
    let mut i: usize = a;
    while i < b
        invariant
            a <= i <= b <= v.len(),
            r@ == v@.subrange(a as int, i as int),
        decreases b - i,
    {
        r.push(v[i]);
        proof {
            assert(v@.subrange(a as int, i + 1) =~= v@.subrange(a as int, i as int).push(
                v@[i as int],
            ));
        }
        i = i + 1;
    }
    r
}

/// The line sequence with `c` prepended to its first line (or as a new
/// single-character line if there are no lines yet).
pub open spec fn prepend_first(c: char, lines: Seq<Seq<char>>) -> Seq<Seq<char>> {
    if lines.len() == 0 {
        seq![seq![c]]
    } else {
        lines.update(0, seq![c] + lines[0])
    }
}

/// The lines of `s`, as `str::lines` produces them: split at `\n` or `\r\n`,
/// terminators removed, and no final empty line for a trailing terminator.
pub open spec fn split_lines(s: Seq<char>) -> Seq<Seq<char>>
    decreases s.len(),
{
    if s.len() == 0 {
        Seq::empty()
    } else if s[0] == '\n' {
        seq![Seq::<char>::empty()] + split_lines(s.drop_first())
    } else if s[0] == '\r' && s.len() >= 2 && s[1] == '\n' {
        seq![Seq::<char>::empty()] + split_lines(s.skip(2))
    } else {
        prepend_first(s[0], split_lines(s.drop_first()))
    }
}

/// `s` with a single trailing carriage return removed, if one is there.
pub open spec fn strip_cr(s: Seq<char>) -> Seq<char> {
    if s.len() > 0 && s.last() == '\r' {
        s.drop_last()
    } else {
        s
    }
}

/// Splitting a text that starts with a newline-terminated line yields that
/// line (with a trailing carriage return stripped) followed by the lines of
/// the rest.
pub proof fn lemma_split_lines_step(cur: Seq<char>, rest: Seq<char>)
    requires
        forall|j: int| 0 <= j < cur.len() ==> cur[j] != '\n',
    ensures
        split_lines(cur + seq!['\n'] + rest) == seq![strip_cr(cur)] + split_lines(rest),
    decreases cur.len(),
{
    let s = cur + seq!['\n'] + rest;
    if cur.len() == 0 {
        assert(s[0] == '\n');
        assert(s.drop_first() =~= rest);
        assert(strip_cr(cur) =~= Seq::<char>::empty());
    } else {
        let c = cur[0];
        let cur2 = cur.drop_first();
        assert(s[0] == c);
        assert(c != '\n');
        if c == '\r' && cur.len() == 1 {
            assert(s.len() >= 2 && s[1] == '\n');
            assert(s.skip(2) =~= rest);
            assert(strip_cr(cur) =~= Seq::<char>::empty());
        } else if c == '\r' {
            assert(s[1] == cur[1]);
            assert(cur[1] != '\n');
            assert(s.drop_first() =~= cur2 + seq!['\n'] + rest);
            lemma_split_lines_step(cur2, rest);
            assert(cur2.len() > 0);
            assert(seq![c] + strip_cr(cur2) =~= strip_cr(cur));
            assert(prepend_first(c, seq![strip_cr(cur2)] + split_lines(rest)) =~= seq![strip_cr(
                cur,
            )] + split_lines(rest));
        } else {
            assert(!(s[0] == '\r' && s.len() >= 2 && s[1] == '\n'));
            assert(s.drop_first() =~= cur2 + seq!['\n'] + rest);
            lemma_split_lines_step(cur2, rest);
            if cur2.len() == 0 {
                assert(strip_cr(cur2) =~= Seq::<char>::empty());
                assert(seq![c] + strip_cr(cur2) =~= cur);
                assert(strip_cr(cur) == cur);
                assert(prepend_first(c, seq![strip_cr(cur2)] + split_lines(rest)) =~= seq![
                    strip_cr(cur),
                ] + split_lines(rest));
            } else {
                assert(seq![c] + strip_cr(cur2) =~= strip_cr(cur));
                assert(prepend_first(c, seq![strip_cr(cur2)] + split_lines(rest)) =~= seq![
                    strip_cr(cur),
                ] + split_lines(rest));
            }
        }
    }
}

/// A text without newlines is a single line (or no line at all, if empty).
pub proof fn lemma_split_lines_tail(cur: Seq<char>)
    requires
        forall|j: int| 0 <= j < cur.len() ==> cur[j] != '\n',
    ensures
        split_lines(cur) == if cur.len() == 0 {
            Seq::<Seq<char>>::empty()
        } else {
            seq![cur]
        },
    decreases cur.len(),
{
    if cur.len() > 0 {
        let c = cur[0];
        let cur2 = cur.drop_first();
        assert(c != '\n');
        if c == '\r' && cur.len() >= 2 {
            assert(cur[1] != '\n');
        }
        lemma_split_lines_tail(cur2);
        if cur2.len() == 0 {
            assert(prepend_first(c, split_lines(cur2)) =~~= seq![cur]);
        } else {
            assert(prepend_first(c, seq![cur2]) =~~= seq![cur]);
        }
    }
}

/// The runtime line splitter; its result views as [`split_lines`].
pub fn lines_of(block: &Vec<char>) -> (r: Vec<Vec<char>>)
    ensures
        r.deep_view() == split_lines(block@),
{
    let mut lines: Vec<Vec<char>> = Vec::new();
    let mut cur: Vec<char> = Vec::new();
    let mut i: usize = 0;
    proof {
        assert(cur@ + block@.skip(0) =~= block@);
        assert(lines.deep_view() =~~= Seq::<Seq<char>>::empty());
        assert(Seq::<Seq<char>>::empty() + split_lines(block@) =~= split_lines(block@));
    }
    while i < block.len()
        invariant
            i <= block.len(),
            forall|j: int| 0 <= j < cur@.len() ==> cur@[j] != '\n',
            split_lines(block@) == lines.deep_view() + split_lines(cur@ + block@.skip(i as int)),
        decreases block.len() - i,
    {
        let c = block[i];
        proof {
            assert(cur@ + block@.skip(i as int) =~= (cur@ + seq![c]) + block@.skip(i + 1));
        }
        if c == '\n' {
            let ghost prev = cur@;
            if cur.len() > 0 && cur[cur.len() - 1] == '\r' {
                cur.pop();
            }
            proof {
                assert(cur@ =~= strip_cr(prev));
                assert(prev + seq!['\n'] + block@.skip(i + 1) =~= (prev + seq!['\n']) + block@.skip(
                    i + 1,
                ));
                lemma_split_lines_step(prev, block@.skip(i + 1));
            }
            let ghost old_lines = lines.deep_view();
            lines.push(cur);
            proof {
                assert(lines.deep_view() =~~= old_lines.push(strip_cr(prev)));
                assert(old_lines + (seq![strip_cr(prev)] + split_lines(block@.skip(i + 1)))
                    =~= lines.deep_view() + split_lines(block@.skip(i + 1)));
                assert(Seq::<char>::empty() + block@.skip(i + 1) =~= block@.skip(i + 1));
            }
            cur = Vec::new();
        } else {
            let ghost prev2 = cur@;
            cur.push(c);
            proof {
                assert(cur@ =~= prev2 + seq![c]);
                assert(cur@ + block@.skip(i + 1) =~= (prev2 + seq![c]) + block@.skip(i + 1));
            }
        }
        i = i + 1;
    }
    proof {
        assert(cur@ + block@.skip(block@.len() as int) =~= cur@);
        lemma_split_lines_tail(cur@);
    }
    if cur.len() > 0 {
        let ghost old_lines = lines.deep_view();
        let ghost last = cur@;
        lines.push(cur);
        proof {
            assert(lines.deep_view() =~~= old_lines.push(last));
            assert(old_lines + seq![last] =~= old_lines.push(last));
        }
    }
    proof {
        assert(lines.deep_view() =~~= split_lines(block@));
    }
    lines
}

/// The parts joined with a newline between adjacent parts.
pub open spec fn join_nl(parts: Seq<Seq<char>>) -> Seq<char>
    decreases parts.len(),
{
    if parts.len() == 0 {
        Seq::empty()
    } else if parts.len() == 1 {
        parts[0]
    } else {
        parts[0] + seq!['\n'] + join_nl(parts.drop_first())
    }
}

/// The parts concatenated directly, with no separator.
pub open spec fn concat_all(parts: Seq<Seq<char>>) -> Seq<char>
    decreases parts.len(),
{
    if parts.len() == 0 {
        Seq::empty()
    } else {
        parts[0] + concat_all(parts.drop_first())
    }
}

/// The position of the first blank line, or the number of lines when none is
/// blank.
pub open spec fn first_blank(lines: Seq<Seq<char>>) -> int
    decreases lines.len(),
{
    if lines.len() == 0 {
        0int
    } else if is_blank(lines[0]) {
        0int
    } else {
        1 + first_blank(lines.drop_first())
    }
}

pub proof fn lemma_join_nl_push(parts: Seq<Seq<char>>, x: Seq<char>)
    ensures
        join_nl(parts.push(x)) == if parts.len() == 0 {
            x
        } else {
            join_nl(parts) + seq!['\n'] + x
        },
    decreases parts.len(),
{
    let p = parts.push(x);
    if parts.len() == 0 {
        assert(p.len() == 1);
        assert(p[0] == x);
    } else {
        assert(p[0] == parts[0]);
        assert(p.drop_first() =~~= parts.drop_first().push(x));
        lemma_join_nl_push(parts.drop_first(), x);
        if parts.len() == 1 {
            assert(join_nl(parts) == parts[0]);
        }
    }
}

pub proof fn lemma_concat_all_push(parts: Seq<Seq<char>>, x: Seq<char>)
    ensures
        concat_all(parts.push(x)) == concat_all(parts) + x,
    decreases parts.len(),
{
    let p = parts.push(x);
    if parts.len() == 0 {
        assert(p.drop_first() =~~= Seq::<Seq<char>>::empty());
        assert(concat_all(parts) + x =~= x);
        assert(p[0] + concat_all(p.drop_first()) =~= x);
    } else {
        assert(p[0] == parts[0]);
        assert(p.drop_first() =~~= parts.drop_first().push(x));
        lemma_concat_all_push(parts.drop_first(), x);
        assert(parts[0] + (concat_all(parts.drop_first()) + x) =~= (parts[0] + concat_all(
            parts.drop_first(),
        )) + x);
    }
}

pub proof fn lemma_first_blank_at(lines: Seq<Seq<char>>, i: int)
    requires
        0 <= i <= lines.len(),
        forall|j: int| 0 <= j < i ==> !is_blank(lines[j]),
        i == lines.len() || is_blank(lines[i]),
    ensures
        first_blank(lines) == i,
    decreases i,
{
    if i > 0 {
        lemma_first_blank_at(lines.drop_first(), i - 1);
    }
}

/// The characters of a string slice, in order.
pub fn str_to_chars(s: &str) -> (r: Vec<char>)
    ensures
        r@ == s@,
{
    let n = s.unicode_len();
    let mut r: Vec<char> = Vec::new();
    let mut i: usize = 0;
    while i < n
        invariant
            i <= n,
            n == s@.len(),
            r@ == s@.take(i as int),
        decreases n - i,
    {
        let c = s.get_char(i);
        r.push(c);
        proof {
            assert(s@.take(i + 1) =~= s@.take(i as int).push(s@[i as int]));
        }
        i = i + 1;
    }
    proof {
        assert(s@.take(n as int) =~= s@);
    }
    r
}

/// The concatenation, with no separator, of the first `k` lines.
pub fn concat_prefix(lines: &Vec<Vec<char>>, k: usize) -> (r: Vec<char>)
    requires
        k <= lines@.len(),
    ensures
        r@ == concat_all(lines.deep_view().take(k as int)),
{
    let ghost dv = lines.deep_view();
    let mut r: Vec<char> = Vec::new();
    let mut i: usize = 0;
    proof {
        assert(dv.take(0) =~~= Seq::<Seq<char>>::empty());
    }
    while i < k
        invariant
            i <= k <= lines@.len(),
            dv == lines.deep_view(),
            r@ == concat_all(dv.take(i as int)),
        decreases k - i,
    {
        let line = &lines[i];
        r.extend_from_slice(line.as_slice());
        proof {
            assert(dv.take(i + 1) =~~= dv.take(i as int).push(dv[i as int]));
            lemma_concat_all_push(dv.take(i as int), dv[i as int]);
            assert(line@ =~= dv[i as int]);
        }
        i = i + 1;
    }
    r
}

/// The lines from `k` onward, joined with a newline between adjacent lines.
pub fn join_suffix(lines: &Vec<Vec<char>>, k: usize) -> (r: Vec<char>)
    requires
        k <= lines@.len(),
    ensures
        r@ == join_nl(lines.deep_view().skip(k as int)),
{
    let ghost dv = lines.deep_view();
    let mut r: Vec<char> = Vec::new();
    let mut i: usize = k;
    proof {
        assert(dv.subrange(k as int, k as int) =~~= Seq::<Seq<char>>::empty());
    }
    while i < lines.len()
        invariant
            k <= i <= lines@.len(),
            dv == lines.deep_view(),
            r@ == join_nl(dv.subrange(k as int, i as int)),
        decreases lines@.len() - i,
    {
        if i > k {
            r.push('\n');
        }
        let line = &lines[i];
        r.extend_from_slice(line.as_slice());
        proof {
            assert(dv.subrange(k as int, i + 1) =~~= dv.subrange(k as int, i as int).push(
                dv[i as int],
            ));
            lemma_join_nl_push(dv.subrange(k as int, i as int), dv[i as int]);
            assert(line@ =~= dv[i as int]);
        }
        i = i + 1;
    }
    proof {
        assert(dv.subrange(k as int, dv.len() as int) =~~= dv.skip(k as int));
    }
    r
}

/// The position of the first blank line of `lines`, or their number when none
/// is blank.
pub fn first_blank_index(lines: &Vec<Vec<char>>) -> (k: usize)
    ensures
        k as int == first_blank(lines.deep_view()),
        k <= lines@.len(),
{
    let ghost dv = lines.deep_view();
    let mut i: usize = 0;
    while i < lines.len()
        invariant
            i <= lines@.len(),
            dv == lines.deep_view(),
            forall|j: int| 0 <= j < i ==> !is_blank(dv[j]),
        decreases lines@.len() - i,
    {
        if is_blank_line(&lines[i]) {
            proof {
                assert(lines[i as int]@ =~= dv[i as int]);
                lemma_first_blank_at(dv, i as int);
            }
            return i;
        }
        proof {
            assert(lines[i as int]@ =~= dv[i as int]);
        }
        i = i + 1;
    }
    proof {
        lemma_first_blank_at(dv, dv.len() as int);
    }
    i
}

/// Runtime check for [`is_blank`].
pub fn is_blank_line(v: &Vec<char>) -> (b: bool)
    ensures
        b == is_blank(v@),
{
    let mut i: usize = 0;
    while i < v.len()
        invariant
            i <= v.len(),
            forall|j: int| 0 <= j < i ==> is_ws_char(v@[j]),
        decreases v.len() - i,
    {
        if !is_ws(v[i]) {
            return false;
        }
        i = i + 1;
    }
    true
}

} // verus!
