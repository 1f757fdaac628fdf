//! Comments of Verilog source text: where they are and what they say.
//!
//! A line comment runs from `//` to the end of its line (the newline is not
//! part of it); a block comment runs from `/*` to the first `*/` after it.
//! A `/*` that is never closed does not start a comment. The source is read
//! from left to right, and text inside a comment never starts another one.
use vstd::prelude::*;

use vstd::utf8::encode_utf8;

use crate::parser::ast::{Comment, SpecComment, copy_comment};
use crate::parser::chars::{
    char_width, chars_of, lemma_encode_utf8_prefix, lemma_encode_utf8_step, trim, trimmed_substring,
};
use crate::parser::verilog::{parse, parse_source};

verus! {

/// Position of the first newline at or after `k`, or the end of `s`.
pub open spec fn line_end(s: Seq<char>, k: int) -> int
    decreases s.len() - k,
{
    if k >= s.len() {
        s.len() as int
    } else if s[k] == '\n' {
        k
    } else {
        line_end(s, k + 1)
    }
}

/// Position of the first `*/` at or after `k`.
pub open spec fn block_close(s: Seq<char>, k: int) -> Option<int>
    decreases s.len() - k,
{
    if k + 1 >= s.len() {
        None
    } else if s[k] == '*' && s[k + 1] == '/' {
        Some(k)
    } else {
        block_close(s, k + 1)
    }
}

/// Where the comment that starts at `i` ends (exclusive), if one starts there.
pub open spec fn comment_end(s: Seq<char>, i: int) -> Option<int> {
    if 0 <= i && i + 1 < s.len() && s[i] == '/' && s[i + 1] == '/' {
        Some(line_end(s, i + 2))
    } else if 0 <= i && i + 1 < s.len() && s[i] == '/' && s[i + 1] == '*' {
        match block_close(s, i + 2) {
            Some(j) => Some(j + 2),
            None => None,
        }
    } else {
        None
    }
}

/// The comment that occupies `s[i..e]`.
pub open spec fn comment_value(s: Seq<char>, i: int, e: int) -> SpecComment {
    if s[i + 1] == '/' {
        SpecComment::Line(trim(s.subrange(i + 2, e)))
    } else {
        SpecComment::Block(trim(s.subrange(i + 2, e - 2)))
    }
}

/// The comments of `s` from position `pos` on, as (start, end, comment).
pub open spec fn scan(s: Seq<char>, pos: int) -> Seq<(int, int, SpecComment)>
    decreases s.len() - pos,
{
    if pos < 0 || pos >= s.len() {
        Seq::empty()
    } else {
        match comment_end(s, pos) {
            Some(e) => if pos < e <= s.len() {
                seq![(pos, e, comment_value(s, pos, e))] + scan(s, e)
            } else {
                Seq::empty()
            },
            None => scan(s, pos + 1),
        }
    }
}

/// All comments of `s`, in the order in which they occur.
pub open spec fn comment_spans(s: Seq<char>) -> Seq<(int, int, SpecComment)> {
    scan(s, 0)
}

pub proof fn lemma_line_end(s: Seq<char>, k: int)
    requires
        0 <= k <= s.len(),
    ensures
        k <= line_end(s, k) <= s.len(),
        line_end(s, k) < s.len() ==> s[line_end(s, k)] == '\n',
        forall|j: int| k <= j < line_end(s, k) ==> s[j] != '\n',
    decreases s.len() - k,
{
    if k < s.len() && s[k] != '\n' {
        lemma_line_end(s, k + 1);
    }
}

pub proof fn lemma_block_close(s: Seq<char>, k: int)
    requires
        0 <= k,
    ensures
        block_close(s, k) matches Some(j) ==> k <= j && j + 1 < s.len() && s[j] == '*' && s[j + 1]
            == '/',
    decreases s.len() - k,
{
    if k + 1 < s.len() && !(s[k] == '*' && s[k + 1] == '/') {
        lemma_block_close(s, k + 1);
    }
}

/// A comment that starts at `i` ends after `i + 1` and within `s`.
pub proof fn lemma_comment_end(s: Seq<char>, i: int)
    requires
        0 <= i,
    ensures
        comment_end(s, i) matches Some(e) ==> i + 2 <= e <= s.len(),
{
    if i + 1 < s.len() && s[i] == '/' && s[i + 1] == '/' {
        lemma_line_end(s, i + 2);
    } else if i + 1 < s.len() && s[i] == '/' && s[i + 1] == '*' {
        lemma_block_close(s, i + 2);
    }
}

/// Executable `line_end`.
fn find_line_end(chars: &Vec<char>, k: usize) -> (r: usize)
    requires
        k <= chars@.len(),
    ensures
        r == line_end(chars@, k as int),
{
    let mut j = k;
    while j < chars.len() && chars[j] != '\n'
        invariant
            k <= j <= chars@.len(),
            line_end(chars@, j as int) == line_end(chars@, k as int),
        decreases chars@.len() - j,
    {
        j = j + 1;
    }
    j
}

/// Executable `block_close`.
fn find_block_close(chars: &Vec<char>, k: usize) -> (r: Option<usize>)
    requires
        k <= chars@.len(),
    ensures
        r is None <==> block_close(chars@, k as int) is None,
        r matches Some(j) ==> block_close(chars@, k as int) == Some(j as int),
{
    let mut j = k;
    while j < chars.len() && j + 1 < chars.len()
        invariant
            k <= j <= chars@.len(),
            block_close(chars@, j as int) == block_close(chars@, k as int),
        decreases chars@.len() - j,
    {
        if chars[j] == '*' && chars[j + 1] == '/' {
            return Some(j);
        }
        j = j + 1;
    }
    None
}

/// Executable `comment_end`: where the comment that starts at `i` ends.
pub fn comment_end_at(chars: &Vec<char>, i: usize) -> (r: Option<usize>)
    requires
        i <= chars@.len(),
    ensures
        r is None <==> comment_end(chars@, i as int) is None,
        r matches Some(e) ==> comment_end(chars@, i as int) == Some(e as int),
        r matches Some(e) ==> i + 2 <= e <= chars@.len(),
{
    proof {
        lemma_comment_end(chars@, i as int);
    }
    if i < chars.len() && i + 1 < chars.len() && chars[i] == '/' && chars[i + 1] == '/' {
        Some(find_line_end(chars, i + 2))
    } else if i < chars.len() && i + 1 < chars.len() && chars[i] == '/' && chars[i + 1] == '*' {
        match find_block_close(chars, i + 2) {
            Some(j) => Some(j + 2),
            None => None,
        }
    } else {
        None
    }
}

/// Model of a scanned comment entry.
pub open spec fn span_view(t: (usize, usize, Comment)) -> (int, int, SpecComment) {
    (t.0 as int, t.1 as int, t.2@)
}

pub open spec fn spans_view(v: Seq<(usize, usize, Comment)>) -> Seq<(int, int, SpecComment)> {
    v.map_values(|t: (usize, usize, Comment)| span_view(t))
}

/// Executable `comment_value`.
pub(crate) fn comment_at(chars: &Vec<char>, i: usize, e: usize) -> (c: Comment)
    requires
        i + 2 <= e <= chars@.len(),
        comment_end(chars@, i as int) == Some(e as int),
    ensures
        c@ == comment_value(chars@, i as int, e as int),
{
    if chars[i + 1] == '/' {
        Comment::Line(trimmed_substring(chars, i + 2, e))
    } else {
        proof {
            lemma_block_close(chars@, i + 2);
        }
        Comment::Block(trimmed_substring(chars, i + 2, e - 2))
    }
}

/// All comments of the text, as (start, end, comment) with character
/// positions, in the order in which they occur.
pub fn scan_comments(chars: &Vec<char>) -> (r: Vec<(usize, usize, Comment)>)
    ensures
        spans_view(r@) == comment_spans(chars@),
{
    let mut r: Vec<(usize, usize, Comment)> = Vec::new();
    let mut pos: usize = 0;
    while pos < chars.len()
        invariant
            pos <= chars@.len(),
            comment_spans(chars@) == spans_view(r@) + scan(chars@, pos as int),
        decreases chars@.len() - pos,
    {
        match comment_end_at(chars, pos) {
            Some(e) => {
                let c = comment_at(chars, pos, e);
                proof {
                    let item = (pos as int, e as int, comment_value(chars@, pos as int, e as int));
                    assert(scan(chars@, pos as int) == seq![item] + scan(chars@, e as int));
                    assert(spans_view(r@.push((pos, e, c))) =~= spans_view(r@).push(item));
                    assert(spans_view(r@) + scan(chars@, pos as int) =~= spans_view(r@).push(item)
                        + scan(chars@, e as int));
                }
                r.push((pos, e, c));
                pos = e;
            },
            None => {
                pos = pos + 1;
            },
        }
    }
    proof {
        assert(spans_view(r@) + scan(chars@, pos as int) =~= spans_view(r@));
    }
    r
}


/// Whether `t` starts with `/*` and ends with `*/`.
pub open spec fn is_block_delimited(t: Seq<char>) -> bool {
    &&& t.len() >= 2
    &&& t[0] == '/'
    &&& t[1] == '*'
    &&& t[t.len() - 2] == '*'
    &&& t[t.len() - 1] == '/'
}

/// The comment that the text of a comment token stands for.
pub open spec fn comment_of_text(t: Seq<char>) -> SpecComment {
    if t.len() >= 2 && t[0] == '/' && t[1] == '/' {
        SpecComment::Line(trim(t.subrange(2, t.len() as int)))
    } else if is_block_delimited(t) {
        SpecComment::Block(trim(t.subrange(2, t.len() - 2)))
    } else {
        SpecComment::Line(trim(t))
    }
}

/// Parse a comment token into a Comment AST node: `//` text becomes a line
/// comment, `/* */` text a block comment, both without their delimiters and
/// surrounding whitespace; any other text becomes a line comment of itself,
/// trimmed.
pub fn parse_comment_text(text: &str) -> (c: Comment)
    requires
        is_block_delimited(text@) ==> text@.len() >= 4,
    ensures
        c@ == comment_of_text(text@),
{
    let t = chars_of(text);
    let n = t.len();
    if n >= 2 && t[0] == '/' && t[1] == '/' {
        Comment::Line(trimmed_substring(&t, 2, n))
    } else if n >= 2 && t[0] == '/' && t[1] == '*' && t[n - 2] == '*' && t[n - 1] == '/' {
        Comment::Block(trimmed_substring(&t, 2, n - 2))
    } else {
        assert(t@.subrange(0, n as int) =~= t@);
        Comment::Line(trimmed_substring(&t, 0, n))
    }
}

/// Well-formedness of what `scan` finds from `pos` on: each entry is a comment
/// of `s` that starts at or after `pos`, and entries come in order without
/// overlapping.
pub open spec fn spans_wf(s: Seq<char>, cs: Seq<(int, int, SpecComment)>, pos: int) -> bool {
    &&& forall|k: int|
        0 <= k < cs.len() ==> {
            let (a, e, c) = #[trigger] cs[k];
            &&& pos <= a < e <= s.len()
            &&& comment_end(s, a) == Some(e)
            &&& c == comment_value(s, a, e)
        }
    &&& forall|k: int| 0 <= k < cs.len() - 1 ==> (#[trigger] cs[k]).1 <= cs[k + 1].0
}

pub proof fn lemma_scan_wf(s: Seq<char>, pos: int)
    requires
        0 <= pos,
    ensures
        spans_wf(s, scan(s, pos), pos),
    decreases s.len() - pos,
{
    if pos < s.len() {
        lemma_comment_end(s, pos);
        match comment_end(s, pos) {
            Some(e) => {
                lemma_scan_wf(s, e);
                let rest = scan(s, e);
                let all = scan(s, pos);
                assert(all == seq![(pos, e, comment_value(s, pos, e))] + rest);
                assert forall|k: int| 0 <= k < all.len() - 1 implies (#[trigger] all[k]).1 <= all[k
                    + 1].0 by {
                    if k > 0 {
                        assert(all[k] == rest[k - 1]);
                        assert(all[k + 1] == rest[k]);
                    } else {
                        assert(all[1] == rest[0]);
                    }
                }
                assert forall|k: int| 0 <= k < all.len() implies {
                    let (a, e2, c) = #[trigger] all[k];
                    &&& pos <= a < e2 <= s.len()
                    &&& comment_end(s, a) == Some(e2)
                    &&& c == comment_value(s, a, e2)
                } by {
                    if k > 0 {
                        assert(all[k] == rest[k - 1]);
                    }
                }
            },
            None => {
                lemma_scan_wf(s, pos + 1);
            },
        }
    }
}

/// The comments of a text are found in order: each one starts after the one
/// before it ends, and each lies within the text.
pub proof fn lemma_comment_spans_ordered(s: Seq<char>, k: int)
    requires
        0 <= k < comment_spans(s).len(),
    ensures
        0 <= comment_spans(s)[k].0 < comment_spans(s)[k].1 <= s.len(),
        k + 1 < comment_spans(s).len() ==> comment_spans(s)[k].1 <= comment_spans(s)[k + 1].0,
{
    lemma_scan_wf(s, 0);
    let cs = comment_spans(s);
    let _ = cs[k];
}

/// The comment found at each span is what `parse_comment_text` makes of the
/// span's text.
pub proof fn lemma_comment_text_agrees(s: Seq<char>, k: int)
    requires
        0 <= k < comment_spans(s).len(),
    ensures
        ({
            let (a, e, c) = comment_spans(s)[k];
            &&& !is_block_delimited(s.subrange(a, e)) || e - a >= 4
            &&& comment_of_text(s.subrange(a, e)) == c
        }),
{
    lemma_scan_wf(s, 0);
    let cs = comment_spans(s);
    let (a, e, c) = cs[k];
    let t = s.subrange(a, e);
    if s[a + 1] == '/' {
        lemma_line_end(s, a + 2);
        assert(t.subrange(2, t.len() as int) =~= s.subrange(a + 2, e));
    } else {
        lemma_block_close(s, a + 2);
        assert(t.subrange(2, t.len() - 2) =~= s.subrange(a + 2, e - 2));
    }
}


/// The byte offset of character position `i` in `s`: the length of the
/// UTF-8 encoding of the characters before it.
pub open spec fn byte_offset(s: Seq<char>, i: int) -> int {
    encode_utf8(s.take(i)).len() as int
}

/// A comment span with its positions counted in bytes.
pub open spec fn span_in_bytes(s: Seq<char>, t: (int, int, SpecComment)) -> (int, int, SpecComment) {
    (byte_offset(s, t.0), byte_offset(s, t.1), t.2)
}

/// What `extract_comments` finds in a source text: its comments with byte
/// positions when the text parses, and nothing when it does not.
pub open spec fn extracted_comments(s: Seq<char>) -> Seq<(int, int, SpecComment)> {
    if parse_source(s) is Ok {
        comment_spans(s).map_values(|t: (int, int, SpecComment)| span_in_bytes(s, t))
    } else {
        Seq::empty()
    }
}

/// The byte offset of position `target`, counted on from position `p` whose
/// byte offset is `b`.
fn advance(chars: &Vec<char>, p: usize, b: usize, target: usize) -> (r: usize)
    requires
        p <= target <= chars@.len(),
        b == byte_offset(chars@, p as int),
        encode_utf8(chars@).len() <= usize::MAX,
    ensures
        r == byte_offset(chars@, target as int),
{
    let mut q = p;
    let mut c = b;
    while q < target
        invariant
            p <= q <= target <= chars@.len(),
            c == byte_offset(chars@, q as int),
            encode_utf8(chars@).len() <= usize::MAX,
        decreases target - q,
    {
        proof {
            lemma_encode_utf8_prefix(chars@, q + 1, chars@.len() as int);
            lemma_encode_utf8_step(chars@, q as int);
            assert(chars@.take(chars@.len() as int) =~= chars@);
        }
        c = c + char_width(chars[q]);
        q = q + 1;
    }
    c
}

/// Extract all unique comments from source text.
///
/// Returns the comments of a source that parses, sorted by their start
/// position, each entry as (start_byte, end_byte, Comment); a source that
/// does not parse gives none.
pub fn extract_comments(source: &str) -> (r: Vec<(usize, usize, Comment)>)
    ensures
        spans_view(r@) == extracted_comments(source@),
{
    let mut r: Vec<(usize, usize, Comment)> = Vec::new();
    if parse(source).is_err() {
        proof {
            assert(spans_view(r@) =~= Seq::<(int, int, SpecComment)>::empty());
        }
        return r;
    }
    let bytes = source.as_bytes();
    let total = bytes.len();
    let chars = chars_of(source);
    let spans = scan_comments(&chars);
    let ghost s = chars@;
    let ghost cs = comment_spans(s);
    let ghost want = cs.map_values(|t: (int, int, SpecComment)| span_in_bytes(s, t));
    proof {
        lemma_scan_wf(s, 0);
        // The source's byte length is a `usize`, so no byte offset overflows.
        assert(encode_utf8(s).len() == total);
    }
    let mut p: usize = 0;
    let mut b: usize = 0;
    let mut k: usize = 0;
    while k < spans.len()
        invariant
            s == chars@,
            cs == comment_spans(s),
            want == cs.map_values(|t: (int, int, SpecComment)| span_in_bytes(s, t)),
            spans_view(spans@) == cs,
            spans_wf(s, cs, 0),
            encode_utf8(s).len() <= usize::MAX,
            k <= spans@.len(),
            p <= s.len(),
            b == byte_offset(s, p as int),
            k < spans@.len() ==> p <= cs[k as int].0,
            spans_view(r@) == want.take(k as int),
        decreases spans@.len() - k,
    {
        let (a, e, ref c) = spans[k];
        proof {
            assert(cs[k as int] == span_view(spans@[k as int]));
        }
        let ba = advance(&chars, p, b, a);
        let be = advance(&chars, a, ba, e);
        let ghost old_r = r@;
        r.push((ba, be, copy_comment(c)));
        proof {
            assert(spans_view(r@) =~= spans_view(old_r).push(want[k as int]));
            assert(want.take(k + 1) =~= want.take(k as int).push(want[k as int]));
        }
        p = e;
        b = be;
        k = k + 1;
    }
    proof {
        assert(want.take(want.len() as int) =~= want);
    }
    r
}


/// The comments that `extract_comments` finds come in order: each starts at a
/// larger byte position than the one before, after that one ends, and each
/// ends after it starts. So no comment is reported twice.
pub proof fn lemma_extracted_sorted(s: Seq<char>, k: int)
    requires
        0 <= k < extracted_comments(s).len(),
    ensures
        extracted_comments(s)[k].0 < extracted_comments(s)[k].1,
        k + 1 < extracted_comments(s).len() ==> extracted_comments(s)[k].1
            <= extracted_comments(s)[k + 1].0,
        k + 1 < extracted_comments(s).len() ==> extracted_comments(s)[k].0
            < extracted_comments(s)[k + 1].0,
{
    lemma_scan_wf(s, 0);
    let cs = comment_spans(s);
    let (a, e, c) = cs[k];
    lemma_encode_utf8_prefix(s, a, e);
    if k + 1 < cs.len() {
        let (a2, e2, c2) = cs[k + 1];
        lemma_encode_utf8_prefix(s, e, a2);
    }
}

/// Writing a comment's text between `//`, or between `/*` and `*/`, and
/// reading it back with `parse_comment_text` gives the same comment, when the
/// text has no surrounding whitespace.
pub proof fn lemma_comment_text_round_trip(t: Seq<char>)
    requires
        trim(t) == t,
    ensures
        comment_of_text(seq!['/', '/'] + t) == SpecComment::Line(t),
        is_block_delimited(seq!['/', '*'] + t + seq!['*', '/']),
        (seq!['/', '*'] + t + seq!['*', '/']).len() >= 4,
        comment_of_text(seq!['/', '*'] + t + seq!['*', '/']) == SpecComment::Block(t),
{
    let l = seq!['/', '/'] + t;
    assert(l.subrange(2, l.len() as int) =~= t);
    let b = seq!['/', '*'] + t + seq!['*', '/'];
    assert(b.subrange(2, b.len() - 2) =~= t);
    assert(b[1] == '*');
}

} // verus!
