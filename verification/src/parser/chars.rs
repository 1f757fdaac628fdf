//! Character classes and small text utilities shared by the lexer and parser.
use vstd::prelude::*;
use vstd::utf8::{char_is_scalar, encode_scalar, encode_utf8};

verus! {

/// Whitespace as Rust's `char::is_whitespace` defines it (Unicode White_Space).
pub open spec fn is_ws(c: char) -> bool {
    ||| ('\u{9}' <= c && c <= '\u{d}')
    ||| c == ' '
    ||| c == '\u{85}'
    ||| c == '\u{a0}'
    ||| c == '\u{1680}'
    ||| ('\u{2000}' <= c && c <= '\u{200a}')
    ||| c == '\u{2028}'
    ||| c == '\u{2029}'
    ||| c == '\u{202f}'
    ||| c == '\u{205f}'
    ||| c == '\u{3000}'
}

/// Executable whitespace test.
pub fn is_whitespace(c: char) -> (b: bool)
    ensures
        b == is_ws(c),
{
    ('\u{9}' <= c && c <= '\u{d}') || c == ' ' || c == '\u{85}' || c == '\u{a0}' || c == '\u{1680}'
        || ('\u{2000}' <= c && c <= '\u{200a}') || c == '\u{2028}' || c == '\u{2029}' || c
        == '\u{202f}' || c == '\u{205f}' || c == '\u{3000}'
}


/// The characters of `s`, in order.
pub fn chars_of(s: &str) -> (v: Vec<char>)
    ensures
        v@ == s@,
{
    broadcast use vstd::string::group_string_axioms;
    let mut v: Vec<char> = Vec::new();
    for c in it: s.chars()
        invariant
            v@ == it.seq().take(it.index()),
    {
        v.push(c);
    }
    v
}


/// Characters that may begin an identifier.
pub open spec fn is_ident_start(c: char) -> bool {
    ('a' <= c && c <= 'z') || ('A' <= c && c <= 'Z') || c == '_'
}

/// Characters that may continue an identifier.
pub open spec fn is_ident_char(c: char) -> bool {
    is_ident_start(c) || ('0' <= c && c <= '9') || c == '$'
}

pub fn ident_start(c: char) -> (b: bool)
    ensures
        b == is_ident_start(c),
{
    ('a' <= c && c <= 'z') || ('A' <= c && c <= 'Z') || c == '_'
}

pub fn ident_char(c: char) -> (b: bool)
    ensures
        b == is_ident_char(c),
{
    ('a' <= c && c <= 'z') || ('A' <= c && c <= 'Z') || c == '_' || ('0' <= c && c <= '9') || c
        == '$'
}

/// An identifier: a start character followed by identifier characters.
pub open spec fn is_identifier(t: Seq<char>) -> bool {
    &&& t.len() > 0
    &&& is_ident_start(t[0])
    &&& forall|k: int| 0 < k < t.len() ==> #[trigger] is_ident_char(t[k])
}

/// Every character of `s` in `[a, b)` is whitespace.
pub open spec fn all_ws(s: Seq<char>, a: int, b: int) -> bool {
    forall|k: int| a <= k < b ==> #[trigger] is_ws(s[k])
}

/// Number of leading whitespace characters of `t`.
pub open spec fn ws_prefix_len(t: Seq<char>) -> nat
    decreases t.len(),
{
    if t.len() == 0 {
        0
    } else if is_ws(t[0]) {
        1 + ws_prefix_len(t.drop_first())
    } else {
        0
    }
}

/// Length of `t` once its trailing whitespace is removed.
pub open spec fn ws_trimmed_end(t: Seq<char>) -> nat
    decreases t.len(),
{
    if t.len() == 0 {
        0
    } else if is_ws(t.last()) {
        ws_trimmed_end(t.drop_last())
    } else {
        t.len()
    }
}

/// `t` without leading and trailing whitespace, as `str::trim` gives it.
pub open spec fn trim(t: Seq<char>) -> Seq<char> {
    if ws_prefix_len(t) < ws_trimmed_end(t) {
        t.subrange(ws_prefix_len(t) as int, ws_trimmed_end(t) as int)
    } else {
        Seq::empty()
    }
}


pub proof fn lemma_ws_prefix_len(t: Seq<char>, k: int)
    requires
        0 <= k <= t.len(),
        forall|j: int| 0 <= j < k ==> #[trigger] is_ws(t[j]),
        k == t.len() || !is_ws(t[k]),
    ensures
        ws_prefix_len(t) == k,
    decreases k,
{
    if k > 0 {
        let u = t.drop_first();
        assert forall|j: int| 0 <= j < k - 1 implies #[trigger] is_ws(u[j]) by {
            assert(u[j] == t[j + 1]);
        }
        if k < t.len() {
            assert(u[k - 1] == t[k]);
        }
        lemma_ws_prefix_len(u, k - 1);
    }
}

pub proof fn lemma_ws_trimmed_end(t: Seq<char>, k: int)
    requires
        0 <= k <= t.len(),
        forall|j: int| k <= j < t.len() ==> #[trigger] is_ws(t[j]),
        k == 0 || !is_ws(t[k - 1]),
    ensures
        ws_trimmed_end(t) == k,
    decreases t.len(),
{
    if t.len() > k {
        let u = t.drop_last();
        assert forall|j: int| k <= j < u.len() implies #[trigger] is_ws(u[j]) by {
            assert(u[j] == t[j]);
        }
        if k > 0 {
            assert(u[k - 1] == t[k - 1]);
        }
        assert(is_ws(t[t.len() - 1]));
        lemma_ws_trimmed_end(u, k);
    }
}

/// Bounds of `chars[a..b]` once leading and trailing whitespace is removed.
pub fn trim_bounds(chars: &Vec<char>, a: usize, b: usize) -> (r: (usize, usize))
    requires
        a <= b <= chars@.len(),
    ensures
        a <= r.0 <= r.1 <= b,
        chars@.subrange(r.0 as int, r.1 as int) == trim(chars@.subrange(a as int, b as int)),
{
    let ghost t = chars@.subrange(a as int, b as int);
    let mut i = a;
    while i < b && is_whitespace(chars[i])
        invariant
            a <= i <= b <= chars@.len(),
            forall|j: int| a <= j < i ==> #[trigger] is_ws(chars@[j]),
        decreases b - i,
    {
        i = i + 1;
    }
    let mut j = b;
    while j > i && is_whitespace(chars[j - 1])
        invariant
            a <= i <= j <= b <= chars@.len(),
            forall|k: int| j <= k < b ==> #[trigger] is_ws(chars@[k]),
        decreases j,
    {
        j = j - 1;
    }
    proof {
        assert forall|k: int| 0 <= k < i - a implies #[trigger] is_ws(t[k]) by {
            assert(t[k] == chars@[a + k]);
        }
        if i < b {
            assert(t[i - a] == chars@[i as int]);
        }
        lemma_ws_prefix_len(t, i - a);
        if i == b {
            assert forall|k: int| 0 <= k < t.len() implies #[trigger] is_ws(t[k]) by {
                assert(t[k] == chars@[a + k]);
            }
            lemma_ws_trimmed_end(t, 0);
        } else {
            assert(!is_ws(chars@[i as int]));
            assert(j > i);
            assert forall|k: int| j - a <= k < t.len() implies #[trigger] is_ws(t[k]) by {
                assert(t[k] == chars@[a + k]);
            }
            assert(t[j - a - 1] == chars@[j - 1]);
            lemma_ws_trimmed_end(t, j - a);
        }
        assert(chars@.subrange(i as int, j as int) =~= trim(t).subrange(0, trim(t).len() as int));
    }
    (i, j)
}

/// Whether `chars[a..b]` spells `lit`.
pub fn range_eq(chars: &Vec<char>, a: usize, b: usize, lit: &str) -> (r: bool)
    requires
        a <= b <= chars@.len(),
    ensures
        r == (chars@.subrange(a as int, b as int) == lit@),
{
    let l = chars_of(lit);
    if b - a != l.len() {
        return false;
    }
    let mut k: usize = 0;
    while k < l.len()
        invariant
            a <= b <= chars@.len(),
            b - a == l@.len(),
            l@ == lit@,
            k <= l@.len(),
            forall|j: int| 0 <= j < k ==> chars@[a + j] == l@[j],
        decreases l@.len() - k,
    {
        if chars[a + k] != l[k] {
            assert(chars@.subrange(a as int, b as int)[k as int] != lit@[k as int]);
            return false;
        }
        k = k + 1;
    }
    assert(chars@.subrange(a as int, b as int) =~= lit@);
    true
}

/// Whether the text `s` equals `lit`.
pub fn str_eq(s: &str, lit: &str) -> (r: bool)
    ensures
        r == (s@ == lit@),
{
    let v = chars_of(s);
    let r = range_eq(&v, 0, v.len(), lit);
    assert(v@.subrange(0, v@.len() as int) =~= v@);
    r
}

/// Number of bytes that the UTF-8 encoding of `c` takes.
pub fn char_width(c: char) -> (w: usize)
    ensures
        w == encode_scalar(c as u32).len(),
{
    proof {
        char_is_scalar(c);
    }
    let u = c as u32;
    if u < 0x80 {
        1
    } else if u < 0x800 {
        2
    } else if u < 0x10000 {
        3
    } else {
        4
    }
}

/// The UTF-8 encoding of two texts one after the other is the encoding of
/// the first followed by that of the second.
pub proof fn lemma_encode_utf8_concat(a: Seq<char>, b: Seq<char>)
    ensures
        encode_utf8(a + b) == encode_utf8(a) + encode_utf8(b),
    decreases a.len(),
{
    if a.len() == 0 {
        assert(a + b =~= b);
        assert(encode_utf8(a) + encode_utf8(b) =~= encode_utf8(b));
    } else {
        lemma_encode_utf8_concat(a.drop_first(), b);
        assert((a + b).drop_first() =~= a.drop_first() + b);
        assert((a + b)[0] == a[0]);
        assert(encode_utf8(a + b) =~= encode_utf8(a) + encode_utf8(b));
    }
}

/// Each character takes at least one byte, so a longer prefix encodes to at
/// least that many more bytes.
pub proof fn lemma_encode_utf8_prefix(t: Seq<char>, i: int, j: int)
    requires
        0 <= i <= j <= t.len(),
    ensures
        encode_utf8(t.take(i)).len() + (j - i) <= encode_utf8(t.take(j)).len(),
    decreases j - i,
{
    if i < j {
        lemma_encode_utf8_prefix(t, i, j - 1);
        lemma_encode_utf8_step(t, j - 1);
    }
}

/// Adding the character at `i` to a prefix adds its encoding.
pub proof fn lemma_encode_utf8_step(t: Seq<char>, i: int)
    requires
        0 <= i < t.len(),
    ensures
        encode_utf8(t.take(i + 1)).len() == encode_utf8(t.take(i)).len() + encode_scalar(
            t[i] as u32,
        ).len(),
        encode_scalar(t[i] as u32).len() >= 1,
{
    assert(t.take(i + 1) =~= t.take(i) + seq![t[i]]);
    lemma_encode_utf8_concat(t.take(i), seq![t[i]]);
    let one = seq![t[i]];
    assert(one.drop_first() =~= Seq::<char>::empty());
    assert(encode_utf8(one) =~= encode_scalar(t[i] as u32) + encode_utf8(Seq::<char>::empty()));
}

/// `String::from_iter` over a slice of characters: the string that holds
/// exactly those characters, in order.
#[verifier::external_body]
fn string_from_chars(cs: &[char]) -> (r: String)
    ensures
        r@ == cs@,
{
    String::from_iter(cs)
}

/// The text of `chars[a..b]`.
pub fn substring(chars: &Vec<char>, a: usize, b: usize) -> (r: String)
    requires
        a <= b <= chars@.len(),
    ensures
        r@ == chars@.subrange(a as int, b as int),
{
    let cs = chars.as_slice();
    string_from_chars(&cs[a..b])
}

/// The text of `chars[a..b]` without leading and trailing whitespace.
pub fn trimmed_substring(chars: &Vec<char>, a: usize, b: usize) -> (r: String)
    requires
        a <= b <= chars@.len(),
    ensures
        r@ == trim(chars@.subrange(a as int, b as int)),
{
    let (i, j) = trim_bounds(chars, a, b);
    substring(chars, i, j)
}

/// The code points of Unicode's White_Space property, which Rust's
/// `char::is_whitespace` tests: tab, line feed, vertical tab, form feed and
/// carriage return; space; next line; no-break space; ogham space mark; the
/// eleven spaces from en quad to hair space; line separator; paragraph
/// separator; narrow no-break space; medium mathematical space; ideographic
/// space.
pub open spec fn unicode_white_space() -> Set<u32> {
    set![
        9u32, 10u32, 11u32, 12u32, 13u32, 32u32, 0x85u32, 0xa0u32, 0x1680u32, 0x2000u32,
        0x2001u32, 0x2002u32, 0x2003u32, 0x2004u32, 0x2005u32, 0x2006u32, 0x2007u32, 0x2008u32,
        0x2009u32, 0x200au32, 0x2028u32, 0x2029u32, 0x202fu32, 0x205fu32, 0x3000u32,
    ]
}

/// A character is whitespace exactly when its code point has the Unicode
/// White_Space property.
pub proof fn lemma_whitespace_is_unicode_white_space(c: char)
    ensures
        is_ws(c) <==> unicode_white_space().contains(c as u32),
{
    let x = c as u32;
    if is_ws(c) {
        if '\u{2000}' <= c && c <= '\u{200a}' {
            assert(0x2000 <= x <= 0x200a);
            assert(x == 0x2000 || x == 0x2001 || x == 0x2002 || x == 0x2003 || x == 0x2004 || x
                == 0x2005 || x == 0x2006 || x == 0x2007 || x == 0x2008 || x == 0x2009 || x
                == 0x200a);
        }
        if '\u{9}' <= c && c <= '\u{d}' {
            assert(x == 9 || x == 10 || x == 11 || x == 12 || x == 13);
        }
    }
}

} // verus!
