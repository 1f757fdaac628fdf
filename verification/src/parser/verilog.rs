//! The Verilog module-header grammar, as a specification over characters and
//! as the executable parser proved to follow it.
//!
//! ```text
//! file        := {module_def | word | char}
//! module_def  := "module" name ["#" "(" {param [sep]} ")"]
//!                ["(" {port_item [sep]} ")"] [";"] ... "endmodule"
//! sep         := "," | ";"
//! param       := ["parameter" | "localparam"] {param_type} {dimension} name ["=" value]
//! port_item   := direction {port_type} {dimension} name {dimension}
//!              | name {dimension}          (shares the previous declaration's header)
//! direction   := "input" | "output" | "inout" | "ref"
//!              | ("const" | "input" | "output" | "inout") "ref"
//! dimension   := "[" msb [":" lsb] "]"
//! ```
//!
//! Trivia (whitespace and comments) may stand between any two tokens. A
//! parameter value runs up to the first `,`, `;` or `)` outside brackets and
//! strings; comments inside it are kept, trailing trivia is not. The body of
//! a module is skipped up to the word `endmodule`. Text outside modules is
//! skipped word by word.
use vstd::prelude::*;

use crate::parser::ast::{
    Comment, copy_comment, copy_dims, direction_keyword, type_keyword, Dimension, Module, Parameter, Port, PortDirection, PortType, SpecComment,
    SpecDimension, SpecModule, SpecParameter, SpecPort, comments_view, dims_view, modules_view,
    params_view, ports_view,
};
use crate::parser::chars::{
    all_ws, chars_of, ident_char, ident_start, is_ident_char, is_ident_start, is_whitespace, is_ws,
    range_eq, str_eq, substring, trim, trimmed_substring,
};
use crate::parser::lexer::{
    comment_at, comment_end, comment_end_at, comment_spans, comment_value, lemma_scan_wf,
    scan_comments, span_view, spans_view, spans_wf,
};

verus! {

/// What the parser expected where it stopped.
#[derive(Debug, Clone, Copy, PartialEq, Eq, Structural)]
pub enum Expected {
    /// The name after `module`
    ModuleName,
    /// A port direction keyword
    PortDirection,
    /// The name of a port
    PortName,
    /// The name of a parameter
    ParameterName,
    /// This punctuation character
    Symbol(char),
    /// The `]` that closes a dimension
    ClosingBracket,
    /// The `endmodule` that closes a module
    EndModule,
}

/// Errors that can occur during parsing.
#[derive(Debug, Clone, Copy, PartialEq, Eq, Structural)]
pub enum ParseError {
    /// The text does not follow the grammar: at character `offset` the parser
    /// expected `expected`.
    Parse { offset: usize, expected: Expected },
}

// ---------------------------------------------------------------------------
// Tokens
// ---------------------------------------------------------------------------

/// The position after the whitespace and comments that start at `i`.
pub open spec fn skip_trivia(s: Seq<char>, i: int) -> int
    decreases s.len() - i,
{
    if i < 0 || i >= s.len() {
        i
    } else if is_ws(s[i]) {
        skip_trivia(s, i + 1)
    } else {
        match comment_end(s, i) {
            Some(e) => if i < e <= s.len() {
                skip_trivia(s, e)
            } else {
                i
            },
            None => i,
        }
    }
}

/// The first position at or after `k` that does not hold an identifier character.
pub open spec fn ident_end(s: Seq<char>, k: int) -> int
    decreases s.len() - k,
{
    if k < 0 || k >= s.len() {
        k
    } else if is_ident_char(s[k]) {
        ident_end(s, k + 1)
    } else {
        k
    }
}

/// A word (identifier or keyword) starts at `i`.
pub open spec fn is_word(s: Seq<char>, i: int) -> bool {
    0 <= i < s.len() && is_ident_start(s[i])
}

/// Where the word that starts at `i` ends.
pub open spec fn word_end(s: Seq<char>, i: int) -> int {
    ident_end(s, i + 1)
}

/// The word that starts at `i`.
pub open spec fn word(s: Seq<char>, i: int) -> Seq<char> {
    s.subrange(i, word_end(s, i))
}

/// The word `kw` starts at `i`.
pub open spec fn kw_at(s: Seq<char>, i: int, kw: Seq<char>) -> bool {
    is_word(s, i) && word(s, i) == kw
}

/// The first position at or after `k` that holds `c`, or the end of `s`.
pub open spec fn find_char(s: Seq<char>, k: int, c: char) -> int
    decreases s.len() - k,
{
    if k < 0 || k >= s.len() {
        s.len() as int
    } else if s[k] == c {
        k
    } else {
        find_char(s, k + 1, c)
    }
}

/// The character `c` stands at `i`.
pub open spec fn char_at(s: Seq<char>, i: int, c: char) -> bool {
    0 <= i < s.len() && s[i] == c
}

// ---------------------------------------------------------------------------
// Keywords
// ---------------------------------------------------------------------------

/// The words that can begin a port direction.
pub open spec fn is_direction_word(w: Seq<char>) -> bool {
    w == "input"@ || w == "output"@ || w == "inout"@ || w == "ref"@ || w == "const"@
}

/// The direction texts that `parse_direction` accepts.
pub open spec fn is_direction_text(t: Seq<char>) -> bool {
    t == "input"@ || t == "output"@ || t == "inout"@ || t == "ref"@ || t == "const ref"@ || t
        == "output ref"@ || t == "inout ref"@ || t == "input ref"@
}

/// The direction that a direction text names.
pub open spec fn direction_of(t: Seq<char>) -> PortDirection {
    if t == "input"@ {
        PortDirection::Input
    } else if t == "output"@ {
        PortDirection::Output
    } else if t == "inout"@ {
        PortDirection::Inout
    } else if t == "ref"@ {
        PortDirection::Ref
    } else if t == "const ref"@ {
        PortDirection::ConstRef
    } else if t == "output ref"@ {
        PortDirection::OutputRef
    } else if t == "inout ref"@ {
        PortDirection::InoutRef
    } else {
        PortDirection::Ref
    }
}

/// The port type keywords.
pub open spec fn is_type_text(t: Seq<char>) -> bool {
    t == "wire"@ || t == "reg"@ || t == "logic"@ || t == "wand"@ || t == "tri"@ || t == "triand"@
        || t == "trior"@ || t == "tri0"@ || t == "tri1"@ || t == "supply0"@ || t == "supply1"@ || t
        == "integer"@ || t == "time"@ || t == "signed"@ || t == "unsigned"@ || t == "packed"@
}

/// The port type that a keyword names.
pub open spec fn type_of(t: Seq<char>) -> PortType {
    if t == "wire"@ {
        PortType::Wire
    } else if t == "reg"@ {
        PortType::Reg
    } else if t == "logic"@ {
        PortType::Logic
    } else if t == "wand"@ {
        PortType::Wand
    } else if t == "tri"@ {
        PortType::Tri
    } else if t == "triand"@ {
        PortType::Triand
    } else if t == "trior"@ {
        PortType::Trior
    } else if t == "tri0"@ {
        PortType::Tri0
    } else if t == "tri1"@ {
        PortType::Tri1
    } else if t == "supply0"@ {
        PortType::Supply0
    } else if t == "supply1"@ {
        PortType::Supply1
    } else if t == "integer"@ {
        PortType::Integer
    } else if t == "time"@ {
        PortType::Time
    } else if t == "signed"@ {
        PortType::Signed
    } else if t == "unsigned"@ {
        PortType::Unsigned
    } else {
        PortType::Packed
    }
}

/// The type keywords that a parameter declaration may carry.
pub open spec fn is_param_type_text(t: Seq<char>) -> bool {
    t == "int"@ || t == "integer"@ || t == "bit"@ || t == "logic"@ || t == "reg"@ || t
        == "signed"@ || t == "unsigned"@ || t == "byte"@ || t == "shortint"@ || t == "longint"@
        || t == "time"@ || t == "real"@ || t == "realtime"@ || t == "shortreal"@ || t
        == "string"@
}

// ---------------------------------------------------------------------------
// Grammar
// ---------------------------------------------------------------------------

/// A failure: where the parser stopped and what it expected there.
pub type SpecFailure = (int, Expected);

/// The dimension whose brackets enclose `s[a..b]`: the text before the first
/// `:` is the msb, the text after it the lsb, both trimmed.
pub open spec fn dimension_of(s: Seq<char>, a: int, b: int) -> SpecDimension {
    let c = find_char(s, a, ':');
    if c < b {
        SpecDimension { msb: trim(s.subrange(a, c)), lsb: trim(s.subrange(c + 1, b)) }
    } else {
        SpecDimension { msb: trim(s.subrange(a, b)), lsb: Seq::empty() }
    }
}

/// The dimensions that follow from `k` on, the position right after the last
/// `]` (or `k` when there are none), and the position after the dimensions
/// and the trivia that follows them.
pub open spec fn parse_dims(s: Seq<char>, k: int) -> Result<(Seq<SpecDimension>, int, int), SpecFailure>
    decreases s.len() - k,
{
    if char_at(s, k, '[') {
        let c = find_char(s, k + 1, ']');
        if c < s.len() {
            let n = skip_trivia(s, c + 1);
            if k < n <= s.len() {
                match parse_dims(s, n) {
                    Ok((ds, e, q)) => Ok(
                        (
                            seq![dimension_of(s, k + 1, c)] + ds,
                            if ds.len() == 0 {
                                c + 1
                            } else {
                                e
                            },
                            q,
                        ),
                    ),
                    Err(e) => Err(e),
                }
            } else {
                Err((k, Expected::ClosingBracket))
            }
        } else {
            Err((k, Expected::ClosingBracket))
        }
    } else {
        Ok((Seq::empty(), k, k))
    }
}

/// The last of the port type keywords that follow from `k` on (or `cur` if
/// there are none), and the position after them.
pub open spec fn parse_port_types(s: Seq<char>, k: int, cur: Option<PortType>) -> (
    Option<PortType>,
    int,
)
    decreases s.len() - k,
{
    if is_word(s, k) && is_type_text(word(s, k)) {
        let n = skip_trivia(s, word_end(s, k));
        if k < n <= s.len() {
            parse_port_types(s, n, Some(type_of(word(s, k))))
        } else {
            (cur, k)
        }
    } else {
        (cur, k)
    }
}

/// The last of the parameter type keywords that follow from `k` on (or `cur`
/// if there are none), and the position after them.
pub open spec fn parse_param_types(s: Seq<char>, k: int, cur: Option<Seq<char>>) -> (
    Option<Seq<char>>,
    int,
)
    decreases s.len() - k,
{
    if is_word(s, k) && is_param_type_text(word(s, k)) {
        let n = skip_trivia(s, word_end(s, k));
        if k < n <= s.len() {
            parse_param_types(s, n, Some(word(s, k)))
        } else {
            (cur, k)
        }
    } else {
        (cur, k)
    }
}

/// How many of the comments `cs[0..n]` remain once those that start at or
/// after `start` are dropped from the end.
pub open spec fn before_count(cs: Seq<(int, int, SpecComment)>, start: int, n: int) -> int
    decreases n,
{
    if n <= 0 || n > cs.len() {
        0
    } else if cs[n - 1].0 >= start {
        before_count(cs, start, n - 1)
    } else {
        n
    }
}

/// Where the run of comments that ends with `cs[m - 1]` right before `cur`
/// begins: going back from `m`, each comment starts at or after `lo` and is
/// followed by nothing but whitespace up to the comment after it (or `cur`).
pub open spec fn run_start(
    cs: Seq<(int, int, SpecComment)>,
    s: Seq<char>,
    lo: int,
    cur: int,
    m: int,
) -> int
    decreases m,
{
    if m <= 0 || m > cs.len() {
        0
    } else {
        let (a, e, c) = cs[m - 1];
        if lo <= a && 0 <= e <= cur && all_ws(s, e, cur) {
            run_start(cs, s, lo, a, m - 1)
        } else {
            m
        }
    }
}

/// The texts of the comments `cs[a..b]`, in source order.
pub open spec fn comments_in(cs: Seq<(int, int, SpecComment)>, a: int, b: int) -> Seq<SpecComment> {
    if 0 <= a <= b <= cs.len() {
        cs.subrange(a, b).map_values(|t: (int, int, SpecComment)| t.2)
    } else {
        Seq::empty()
    }
}

/// The comments that lead up to a declaration that starts at `start`: the
/// longest run of comments that ends right before it, in source order, in
/// which only whitespace stands between one comment and the next and between
/// the last and `start`, and which starts at or after `lo`.
pub open spec fn leading_comments(
    cs: Seq<(int, int, SpecComment)>,
    s: Seq<char>,
    lo: int,
    start: int,
) -> Seq<SpecComment> {
    let n = before_count(cs, start, cs.len() as int);
    comments_in(cs, run_start(cs, s, lo, start, n), n)
}

/// The comments that start at or after `a` and before `b`.
pub open spec fn comments_between(cs: Seq<(int, int, SpecComment)>, a: int, b: int) -> Seq<
    SpecComment,
> {
    comments_in(cs, before_count(cs, a, cs.len() as int), before_count(cs, b, cs.len() as int))
}

/// From `j` on, skip whitespace other than newlines, and `,` and `;`.
pub open spec fn skip_inline_gap(s: Seq<char>, j: int) -> int
    decreases s.len() - j,
{
    if j < 0 || j >= s.len() {
        j
    } else if (is_ws(s[j]) && s[j] != '\n') || s[j] == ',' || s[j] == ';' {
        skip_inline_gap(s, j + 1)
    } else {
        j
    }
}

/// The comment that stands on the same line after a declaration that ends at
/// `e`, with only separators and whitespace before it, and where it ends.
pub open spec fn inline_comment_after(s: Seq<char>, e: int) -> Option<(SpecComment, int)> {
    let j = skip_inline_gap(s, e);
    match comment_end(s, j) {
        Some(ce) => if 0 <= j < ce <= s.len() {
            Some((comment_value(s, j, ce), ce))
        } else {
            None
        },
        None => None,
    }
}

/// The comments after a port (and its inline comment), which ends at `claim`,
/// up to the next entry at `n`: all of them when `n` closes the list,
/// otherwise those before the next port's leading comments.
pub open spec fn trailing_comments(
    cs: Seq<(int, int, SpecComment)>,
    s: Seq<char>,
    claim: int,
    n: int,
) -> Seq<SpecComment> {
    let r0 = before_count(cs, claim, cs.len() as int);
    let nb = before_count(cs, n, cs.len() as int);
    if char_at(s, n, ')') {
        comments_in(cs, r0, nb)
    } else {
        comments_in(cs, r0, run_start(cs, s, claim, n, nb))
    }
}

/// The direction text of the port whose first word starts at `i`, and the
/// position after it.
pub open spec fn parse_direction_words(s: Seq<char>, i: int) -> Result<(Seq<char>, int), SpecFailure> {
    if !(is_word(s, i) && is_direction_word(word(s, i))) {
        Err((i, Expected::PortDirection))
    } else {
        let w = word(s, i);
        let j = skip_trivia(s, word_end(s, i));
        if w != "ref"@ && kw_at(s, j, "ref"@) {
            Ok((w + " ref"@, skip_trivia(s, word_end(s, j))))
        } else if w == "const"@ {
            Err((j, Expected::PortDirection))
        } else {
            Ok((w, j))
        }
    }
}

/// What a port declaration states for every name it declares: direction,
/// type and the dimensions written before the first name.
pub type PortHeader = (PortDirection, Option<PortType>, Seq<SpecDimension>);

/// A port as its declaration states it, before comments are attached.
pub open spec fn bare_port(
    name: Seq<char>,
    direction: PortDirection,
    port_type: Option<PortType>,
    dimensions: Seq<SpecDimension>,
) -> SpecPort {
    SpecPort {
        name,
        direction,
        port_type,
        dimensions,
        leading_comments: Seq::empty(),
        inline_comment: None,
        trailing_comments: Seq::empty(),
    }
}

/// The port declaration that starts at `i`: the port (without comments), the
/// header that later names of the same declaration share, the position right
/// after its last token, and the position after the trivia that follows.
pub open spec fn parse_port(s: Seq<char>, i: int) -> Result<(SpecPort, PortHeader, int, int), SpecFailure> {
    match parse_direction_words(s, i) {
        Err(e) => Err(e),
        Ok((dtext, k)) => {
            let (ptype, k2) = parse_port_types(s, k, None);
            match parse_dims(s, k2) {
                Err(e) => Err(e),
                Ok((ds1, e1, k3)) => if !is_word(s, k3) {
                    Err((k3, Expected::PortName))
                } else {
                    let k4 = skip_trivia(s, word_end(s, k3));
                    match parse_dims(s, k4) {
                        Err(e) => Err(e),
                        Ok((ds2, e2, k5)) => Ok(
                            (
                                bare_port(word(s, k3), direction_of(dtext), ptype, ds1 + ds2),
                                (direction_of(dtext), ptype, ds1),
                                if ds2.len() == 0 {
                                    word_end(s, k3)
                                } else {
                                    e2
                                },
                                k5,
                            ),
                        ),
                    }
                },
            }
        },
    }
}

/// A further name of a port declaration, at `i`: it takes the declaration's
/// header and adds the dimensions written after it. Also gives the position
/// right after its last token and the position after the trivia that follows.
pub open spec fn parse_continued_port(s: Seq<char>, i: int, h: PortHeader) -> Result<
    (SpecPort, int, int),
    SpecFailure,
> {
    if !is_word(s, i) {
        Err((i, Expected::PortName))
    } else {
        let k = skip_trivia(s, word_end(s, i));
        match parse_dims(s, k) {
            Err(e) => Err(e),
            Ok((ds, e, q)) => Ok(
                (
                    bare_port(word(s, i), h.0, h.1, h.2 + ds),
                    if ds.len() == 0 {
                        word_end(s, i)
                    } else {
                        e
                    },
                    q,
                ),
            ),
        }
    }
}

/// One entry of a port list at `i`: a declaration, or (after one) a further
/// name that shares the header `prev`.
pub open spec fn parse_port_item(s: Seq<char>, i: int, prev: Option<PortHeader>) -> Result<
    (SpecPort, PortHeader, int, int),
    SpecFailure,
> {
    if is_word(s, i) && is_direction_word(word(s, i)) {
        parse_port(s, i)
    } else if prev is Some && is_word(s, i) {
        match parse_continued_port(s, i, prev->0) {
            Ok((p, e, q)) => Ok((p, prev->0, e, q)),
            Err(e) => Err(e),
        }
    } else {
        Err((i, Expected::PortDirection))
    }
}

/// The position after an optional `,` or `;` separator at `q`.
pub open spec fn skip_separator(s: Seq<char>, q: int) -> int {
    if char_at(s, q, ',') || char_at(s, q, ';') {
        skip_trivia(s, q + 1)
    } else {
        q
    }
}

/// A port with its comments attached: the run of comments (from `lo` on)
/// before its start `i`, the comment on its line after its end `e`, and the
/// comments between those and the next entry at `n`.
pub open spec fn with_comments(
    p: SpecPort,
    cs: Seq<(int, int, SpecComment)>,
    s: Seq<char>,
    lo: int,
    i: int,
    e: int,
    n: int,
) -> SpecPort {
    let claim = match inline_comment_after(s, e) {
        Some((c, ce)) => ce,
        None => e,
    };
    SpecPort {
        name: p.name,
        direction: p.direction,
        port_type: p.port_type,
        dimensions: p.dimensions,
        leading_comments: leading_comments(cs, s, lo, i),
        inline_comment: match inline_comment_after(s, e) {
            Some((c, ce)) => Some(c),
            None => None,
        },
        trailing_comments: trailing_comments(cs, s, claim, n),
    }
}

/// Where the text that a port ending at `e` claims ends: after its inline
/// comment if it has one.
pub open spec fn claimed_end(s: Seq<char>, e: int) -> int {
    match inline_comment_after(s, e) {
        Some((c, ce)) => ce,
        None => e,
    }
}

/// The entries of a port list from `i` on, up to and including its `)`.
/// Entries may be separated by `,` or `;`, or by nothing. Comments are
/// attached from `lo` on.
pub open spec fn parse_ports(
    s: Seq<char>,
    cs: Seq<(int, int, SpecComment)>,
    i: int,
    prev: Option<PortHeader>,
    lo: int,
) -> Result<(Seq<SpecPort>, int), SpecFailure>
    decreases s.len() - i,
{
    if char_at(s, i, ')') {
        Ok((Seq::empty(), i + 1))
    } else {
        match parse_port_item(s, i, prev) {
            Err(e) => Err(e),
            Ok((p, h, e, q)) => {
                let n = skip_separator(s, q);
                if i < n <= s.len() {
                    let port = with_comments(p, cs, s, lo, i, e, n);
                    match parse_ports(s, cs, n, Some(h), claimed_end(s, e)) {
                        Ok((ps, r)) => Ok((seq![port] + ps, r)),
                        Err(e) => Err(e),
                    }
                } else {
                    Err((q, Expected::PortDirection))
                }
            },
        }
    }
}

/// A port list whose `(` ends at `lo` and whose first entry is at `i`.
pub open spec fn parse_port_list(
    s: Seq<char>,
    cs: Seq<(int, int, SpecComment)>,
    i: int,
    lo: int,
) -> Result<(Seq<SpecPort>, int), SpecFailure> {
    parse_ports(s, cs, i, None, lo)
}

/// Where the string literal whose opening quote precedes `k` ends.
pub open spec fn string_end(s: Seq<char>, k: int) -> int
    decreases s.len() - k,
{
    if k < 0 || k >= s.len() {
        s.len() as int
    } else if s[k] == '\\' {
        if k + 1 < s.len() {
            string_end(s, k + 2)
        } else {
            s.len() as int
        }
    } else if s[k] == '"' {
        k + 1
    } else {
        string_end(s, k + 1)
    }
}

/// A parameter value scanned up to `k` at bracket depth `depth`, whose last
/// character other than whitespace or comment ends at `last`: the end of
/// that last character, and the position where the value stops, which is a
/// `,`, `;` or `)` outside brackets and strings, or the end of the text.
pub open spec fn value_scan(s: Seq<char>, k: int, depth: nat, last: int) -> (int, int)
    decreases s.len() - k,
{
    if k < 0 || k >= s.len() {
        (last, k)
    } else if depth == 0 && (s[k] == ',' || s[k] == ')' || s[k] == ';') {
        (last, k)
    } else if is_ws(s[k]) {
        value_scan(s, k + 1, depth, last)
    } else if comment_end(s, k) is Some && k < comment_end(s, k)->0 <= s.len() {
        value_scan(s, comment_end(s, k)->0, depth, last)
    } else if s[k] == '"' {
        let q = string_end(s, k + 1);
        if k < q <= s.len() {
            value_scan(s, q, depth, q)
        } else {
            (last, k)
        }
    } else if s[k] == '(' || s[k] == '[' || s[k] == '{' {
        value_scan(s, k + 1, depth + 1, k + 1)
    } else if s[k] == ')' || s[k] == ']' || s[k] == '}' {
        value_scan(s, k + 1, if depth > 0 { (depth - 1) as nat } else { 0 }, k + 1)
    } else {
        value_scan(s, k + 1, depth, k + 1)
    }
}

/// The parameter declaration that starts at `i` (without comments), and the
/// position after it.
pub open spec fn parse_param(s: Seq<char>, i: int) -> Result<(SpecParameter, int), SpecFailure> {
    let k0 = if kw_at(s, i, "parameter"@) || kw_at(s, i, "localparam"@) {
        skip_trivia(s, word_end(s, i))
    } else {
        i
    };
    let (ptype, k1) = parse_param_types(s, k0, None);
    match parse_dims(s, k1) {
        Err(e) => Err(e),
        Ok((ds, e, k2)) => if !is_word(s, k2) {
            Err((k2, Expected::ParameterName))
        } else {
            let k3 = skip_trivia(s, word_end(s, k2));
            let (value, k4) = if char_at(s, k3, '=') {
                let v0 = skip_trivia(s, k3 + 1);
                let (last, stop) = value_scan(s, v0, 0, v0);
                (trim(s.subrange(v0, last)), stop)
            } else {
                (Seq::empty(), k3)
            };
            Ok(
                (
                    SpecParameter {
                        name: word(s, k2),
                        value: value,
                        param_type: ptype,
                        dimensions: ds,
                        leading_comments: Seq::empty(),
                    },
                    k4,
                ),
            )
        },
    }
}

/// A parameter with the run of comments (from `lo` on) before its start `i`.
pub open spec fn param_with_comments(
    p: SpecParameter,
    cs: Seq<(int, int, SpecComment)>,
    s: Seq<char>,
    lo: int,
    i: int,
) -> SpecParameter {
    SpecParameter {
        name: p.name,
        value: p.value,
        param_type: p.param_type,
        dimensions: p.dimensions,
        leading_comments: leading_comments(cs, s, lo, i),
    }
}

/// The parameters from `i` on, up to and including the closing `)`.
/// Entries may be separated by `,` or `;`, or by nothing. Comments are
/// attached from `lo` on.
pub open spec fn parse_params(
    s: Seq<char>,
    cs: Seq<(int, int, SpecComment)>,
    i: int,
    lo: int,
) -> Result<(Seq<SpecParameter>, int), SpecFailure>
    decreases s.len() - i,
{
    if char_at(s, i, ')') {
        Ok((Seq::empty(), i + 1))
    } else {
        match parse_param(s, i) {
            Err(e) => Err(e),
            Ok((p, q)) => {
                let n = skip_separator(s, q);
                if i < n <= s.len() {
                    match parse_params(s, cs, n, q) {
                        Ok((ps, r)) => Ok((seq![param_with_comments(p, cs, s, lo, i)] + ps, r)),
                        Err(e) => Err(e),
                    }
                } else {
                    Err((q, Expected::ParameterName))
                }
            },
        }
    }
}

/// A parameter list whose `(` ends at `lo` and whose first entry is at `i`.
pub open spec fn parse_param_list(
    s: Seq<char>,
    cs: Seq<(int, int, SpecComment)>,
    i: int,
    lo: int,
) -> Result<(Seq<SpecParameter>, int), SpecFailure> {
    parse_params(s, cs, i, lo)
}

/// Where the `endmodule` that closes a body starting at `i` begins.
pub open spec fn find_endmodule(s: Seq<char>, i: int) -> Option<int>
    decreases s.len() - i,
{
    if i < 0 || i >= s.len() {
        None
    } else if kw_at(s, i, "endmodule"@) {
        Some(i)
    } else {
        let n = if is_word(s, i) {
            skip_trivia(s, word_end(s, i))
        } else {
            skip_trivia(s, i + 1)
        };
        if i < n <= s.len() {
            find_endmodule(s, n)
        } else {
            None
        }
    }
}

/// The module definition whose `module` keyword starts at `i`, and the
/// position after its `endmodule`. Its header comments are the run of
/// comments right before `module`; its body comments are those between the
/// end of its header (after the `;` if there is one) and `endmodule`.
#[verifier::opaque]
pub open spec fn parse_module(
    s: Seq<char>,
    cs: Seq<(int, int, SpecComment)>,
    i: int,
) -> Result<(SpecModule, int), SpecFailure> {
    let p = skip_trivia(s, word_end(s, i));
    if !is_word(s, p) {
        Err((p, Expected::ModuleName))
    } else {
        let p2 = skip_trivia(s, word_end(s, p));
        let params: Result<(Seq<SpecParameter>, int, int), SpecFailure> = if char_at(s, p2, '#') {
            let p3 = skip_trivia(s, p2 + 1);
            if char_at(s, p3, '(') {
                match parse_param_list(s, cs, skip_trivia(s, p3 + 1), p3 + 1) {
                    Ok((ps, q)) => Ok((ps, skip_trivia(s, q), q)),
                    Err(e) => Err(e),
                }
            } else {
                Err((p3, Expected::Symbol('(')))
            }
        } else {
            Ok((Seq::empty(), p2, word_end(s, p)))
        };
        match params {
            Err(e) => Err(e),
            Ok((params, p4, raw4)) => {
                let ports: Result<(Seq<SpecPort>, int, int), SpecFailure> = if char_at(
                    s,
                    p4,
                    '(',
                ) {
                    match parse_port_list(s, cs, skip_trivia(s, p4 + 1), p4 + 1) {
                        Ok((ps, q)) => Ok((ps, skip_trivia(s, q), q)),
                        Err(e) => Err(e),
                    }
                } else {
                    Ok((Seq::empty(), p4, raw4))
                };
                match ports {
                    Err(e) => Err(e),
                    Ok((ports, p5, raw5)) => {
                        let (body_start, body) = if char_at(s, p5, ';') {
                            (p5 + 1, skip_trivia(s, p5 + 1))
                        } else {
                            (raw5, p5)
                        };
                        match find_endmodule(s, body) {
                            None => Err((s.len() as int, Expected::EndModule)),
                            Some(k) => Ok(
                                (
                                    SpecModule {
                                        name: word(s, p),
                                        parameters: params,
                                        ports: ports,
                                        header_comments: leading_comments(cs, s, 0, i),
                                        body_comments: comments_between(cs, body_start, k),
                                    },
                                    word_end(s, k),
                                ),
                            ),
                        }
                    },
                }
            },
        }
    }
}

/// The modules defined from position `i` on.
pub open spec fn parse_items(
    s: Seq<char>,
    cs: Seq<(int, int, SpecComment)>,
    i: int,
) -> Result<Seq<SpecModule>, SpecFailure>
    decreases s.len() - i,
{
    if i < 0 || i >= s.len() {
        Ok(Seq::empty())
    } else if kw_at(s, i, "module"@) {
        match parse_module(s, cs, i) {
            Err(e) => Err(e),
            Ok((m, e)) => {
                let n = skip_trivia(s, e);
                if i < n <= s.len() {
                    match parse_items(s, cs, n) {
                        Ok(ms) => Ok(seq![m] + ms),
                        Err(e) => Err(e),
                    }
                } else {
                    Ok(seq![m])
                }
            },
        }
    } else {
        let n = if is_word(s, i) {
            skip_trivia(s, word_end(s, i))
        } else {
            skip_trivia(s, i + 1)
        };
        if i < n <= s.len() {
            parse_items(s, cs, n)
        } else {
            Ok(Seq::empty())
        }
    }
}

/// The modules that a source text defines, or where and why it fails to parse.
pub open spec fn parse_source(s: Seq<char>) -> Result<Seq<SpecModule>, SpecFailure> {
    parse_items(s, comment_spans(s), skip_trivia(s, 0))
}


// ---------------------------------------------------------------------------
// Facts about the token functions
// ---------------------------------------------------------------------------

pub proof fn lemma_skip_trivia(s: Seq<char>, i: int)
    requires
        0 <= i <= s.len(),
    ensures
        i <= skip_trivia(s, i) <= s.len(),
    decreases s.len() - i,
{
    if i < s.len() {
        if is_ws(s[i]) {
            lemma_skip_trivia(s, i + 1);
        } else {
            match comment_end(s, i) {
                Some(e) => if i < e <= s.len() {
                    lemma_skip_trivia(s, e);
                },
                None => {},
            }
        }
    }
}

pub proof fn lemma_ident_end(s: Seq<char>, k: int)
    requires
        0 <= k <= s.len(),
    ensures
        k <= ident_end(s, k) <= s.len(),
        forall|j: int| k <= j < ident_end(s, k) ==> is_ident_char(#[trigger] s[j]),
    decreases s.len() - k,
{
    if k < s.len() && is_ident_char(s[k]) {
        lemma_ident_end(s, k + 1);
    }
}

pub proof fn lemma_find_char(s: Seq<char>, k: int, c: char)
    requires
        0 <= k <= s.len(),
    ensures
        k <= find_char(s, k, c) <= s.len(),
        find_char(s, k, c) < s.len() ==> s[find_char(s, k, c)] == c,
    decreases s.len() - k,
{
    if k < s.len() && s[k] != c {
        lemma_find_char(s, k + 1, c);
    }
}

/// A word is an identifier.
pub proof fn lemma_word_is_identifier(s: Seq<char>, i: int)
    requires
        is_word(s, i),
    ensures
        crate::parser::chars::is_identifier(word(s, i)),
        i < word_end(s, i) <= s.len(),
{
    lemma_ident_end(s, i + 1);
    let w = word(s, i);
    assert forall|k: int| 0 < k < w.len() implies #[trigger] is_ident_char(w[k]) by {
        assert(w[k] == s[i + k]);
    }
}

proof fn lemma_direction_text(w: Seq<char>)
    requires
        is_direction_word(w),
    ensures
        w != "ref"@ ==> is_direction_text(w + " ref"@),
        w != "const"@ ==> is_direction_text(w),
{
    reveal_strlit("input");
    reveal_strlit("output");
    reveal_strlit("inout");
    reveal_strlit("ref");
    reveal_strlit("const");
    reveal_strlit(" ref");
    reveal_strlit("input ref");
    reveal_strlit("output ref");
    reveal_strlit("inout ref");
    reveal_strlit("const ref");
    if w == "input"@ {
        assert(w + " ref"@ =~= "input ref"@);
    } else if w == "output"@ {
        assert(w + " ref"@ =~= "output ref"@);
    } else if w == "inout"@ {
        assert(w + " ref"@ =~= "inout ref"@);
    } else if w == "const"@ {
        assert(w + " ref"@ =~= "const ref"@);
    }
}

pub open spec fn fail_view(e: (usize, Expected)) -> SpecFailure {
    (e.0 as int, e.1)
}

/// Parse port direction.
pub fn parse_direction(text: &str) -> (d: PortDirection)
    requires
        is_direction_text(text@),
    ensures
        d == direction_of(text@),
{
    if str_eq(text, "input") {
        PortDirection::Input
    } else if str_eq(text, "output") {
        PortDirection::Output
    } else if str_eq(text, "inout") {
        PortDirection::Inout
    } else if str_eq(text, "ref") {
        PortDirection::Ref
    } else if str_eq(text, "const ref") {
        PortDirection::ConstRef
    } else if str_eq(text, "output ref") {
        PortDirection::OutputRef
    } else if str_eq(text, "inout ref") {
        PortDirection::InoutRef
    } else {
        PortDirection::Ref
    }
}

/// Parse port type.
pub fn parse_port_type(text: &str) -> (t: PortType)
    requires
        is_type_text(text@),
    ensures
        t == type_of(text@),
{
    if str_eq(text, "wire") {
        PortType::Wire
    } else if str_eq(text, "reg") {
        PortType::Reg
    } else if str_eq(text, "logic") {
        PortType::Logic
    } else if str_eq(text, "wand") {
        PortType::Wand
    } else if str_eq(text, "tri") {
        PortType::Tri
    } else if str_eq(text, "triand") {
        PortType::Triand
    } else if str_eq(text, "trior") {
        PortType::Trior
    } else if str_eq(text, "tri0") {
        PortType::Tri0
    } else if str_eq(text, "tri1") {
        PortType::Tri1
    } else if str_eq(text, "supply0") {
        PortType::Supply0
    } else if str_eq(text, "supply1") {
        PortType::Supply1
    } else if str_eq(text, "integer") {
        PortType::Integer
    } else if str_eq(text, "time") {
        PortType::Time
    } else if str_eq(text, "signed") {
        PortType::Signed
    } else if str_eq(text, "unsigned") {
        PortType::Unsigned
    } else {
        PortType::Packed
    }
}

/// An executable port header: direction, type and leading dimensions.
type Header = (PortDirection, Option<PortType>, Vec<Dimension>);

pub open spec fn header_view(h: &(PortDirection, Option<PortType>, Vec<Dimension>)) -> PortHeader {
    (h.0, h.1, dims_view(h.2@))
}

/// The grammar's state: the source's characters and its comments.
pub struct VerilogParser {
    chars: Vec<char>,
    comments: Vec<(usize, usize, Comment)>,
}

impl VerilogParser {
    #[verifier::type_invariant]
    spec fn wf(self) -> bool {
        spans_view(self.comments@) == comment_spans(self.chars@)
    }

    /// The source text.
    pub closed spec fn source(&self) -> Seq<char> {
        self.chars@
    }

    /// The comments of the source.
    pub closed spec fn spans(&self) -> Seq<(int, int, SpecComment)> {
        spans_view(self.comments@)
    }

    /// A parser over `source`.
    pub fn new(source: &str) -> (p: Self)
        ensures
            p.source() == source@,
    {
        let chars = chars_of(source);
        let comments = scan_comments(&chars);
        VerilogParser { chars, comments }
    }

    /// Skip whitespace and comments from `i` on.
    fn skip(&self, i: usize) -> (r: usize)
        requires
            i <= self.source().len(),
        ensures
            r == skip_trivia(self.source(), i as int),
            i <= r <= self.source().len(),
    {
        proof {
            lemma_skip_trivia(self.chars@, i as int);
        }
        let mut j = i;
        loop
            invariant
                i <= j <= self.chars@.len(),
                skip_trivia(self.chars@, j as int) == skip_trivia(self.chars@, i as int),
            decreases self.chars@.len() - j,
        {
            if j >= self.chars.len() {
                return j;
            }
            if is_whitespace(self.chars[j]) {
                j = j + 1;
            } else {
                match comment_end_at(&self.chars, j) {
                    Some(e) => {
                        j = e;
                    },
                    None => {
                        return j;
                    },
                }
            }
        }
    }

    fn is_word_at(&self, i: usize) -> (b: bool)
        ensures
            b == is_word(self.source(), i as int),
    {
        i < self.chars.len() && ident_start(self.chars[i])
    }

    fn word_end(&self, i: usize) -> (r: usize)
        requires
            is_word(self.source(), i as int),
        ensures
            r == word_end(self.source(), i as int),
            i < r <= self.source().len(),
    {
        proof {
            lemma_ident_end(self.chars@, i + 1);
        }
        let n = self.chars.len();
        assert(i < n);
        let mut j = i + 1;
        while j < self.chars.len() && ident_char(self.chars[j])
            invariant
                i < j <= self.chars@.len(),
                ident_end(self.chars@, j as int) == ident_end(self.chars@, i + 1),
            decreases self.chars@.len() - j,
        {
            j = j + 1;
        }
        j
    }

    fn kw(&self, i: usize, kw: &str) -> (b: bool)
        ensures
            b == kw_at(self.source(), i as int, kw@),
    {
        if self.is_word_at(i) {
            let e = self.word_end(i);
            range_eq(&self.chars, i, e, kw)
        } else {
            false
        }
    }

    fn char_is(&self, i: usize, c: char) -> (b: bool)
        ensures
            b == char_at(self.source(), i as int, c),
            b ==> i < usize::MAX,
    {
        i < self.chars.len() && self.chars[i] == c
    }

    fn find(&self, k: usize, c: char) -> (r: usize)
        requires
            k <= self.source().len(),
        ensures
            r == find_char(self.source(), k as int, c),
            k <= r <= self.source().len(),
    {
        proof {
            lemma_find_char(self.chars@, k as int, c);
        }
        let mut j = k;
        while j < self.chars.len() && self.chars[j] != c
            invariant
                k <= j <= self.chars@.len(),
                find_char(self.chars@, j as int, c) == find_char(self.chars@, k as int, c),
            decreases self.chars@.len() - j,
        {
            j = j + 1;
        }
        j
    }

    /// Parse a dimension: the text between its brackets is `source[a..b]`.
    fn parse_dimension(&self, a: usize, b: usize) -> (d: Dimension)
        requires
            a <= b <= self.source().len(),
        ensures
            d@ == dimension_of(self.source(), a as int, b as int),
    {
        let c = self.find(a, ':');
        if c < b {
            Dimension {
                msb: trimmed_substring(&self.chars, a, c),
                lsb: trimmed_substring(&self.chars, c + 1, b),
            }
        } else {
            Dimension { msb: trimmed_substring(&self.chars, a, b), lsb: String::new() }
        }
    }

    fn parse_dims(&self, k: usize) -> (r: Result<(Vec<Dimension>, usize, usize), (usize, Expected)>)
        requires
            k <= self.source().len(),
        ensures
            match r {
                Ok((v, e, q)) => parse_dims(self.source(), k as int) == Ok::<
                    (Seq<SpecDimension>, int, int),
                    SpecFailure,
                >((dims_view(v@), e as int, q as int)) && k <= e <= q <= self.source().len(),
                Err(e) => parse_dims(self.source(), k as int) == Err::<
                    (Seq<SpecDimension>, int, int),
                    SpecFailure,
                >(fail_view(e)),
            },
    {
        let ghost s = self.chars@;
        let mut acc: Vec<Dimension> = Vec::new();
        let mut j = k;
        let mut last = k;
        loop
            invariant
                s == self.chars@,
                k <= last <= j <= s.len(),
                acc@.len() == 0 ==> last == k,
                parse_dims(s, k as int) == match parse_dims(s, j as int) {
                    Ok((ds, e, q)) => Ok(
                        (
                            dims_view(acc@) + ds,
                            if ds.len() == 0 {
                                last as int
                            } else {
                                e
                            },
                            q,
                        ),
                    ),
                    Err(e) => Err::<(Seq<SpecDimension>, int, int), SpecFailure>(e),
                },
            decreases s.len() - j,
        {
            if self.char_is(j, '[') {
                let len = self.chars.len();
                assert(j < len);
                let c = self.find(j + 1, ']');
                if c < self.chars.len() {
                    let n = self.skip(c + 1);
                    let d = self.parse_dimension(j + 1, c);
                    proof {
                        let ghost dv = dims_view(acc@);
                        assert(dims_view(acc@.push(d)) =~= dv.push(d@));
                        match parse_dims(s, n as int) {
                            Ok((ds, e, q)) => {
                                assert(dv + (seq![d@] + ds) =~= dv.push(d@) + ds);
                            },
                            Err(e) => {},
                        }
                    }
                    acc.push(d);
                    last = c + 1;
                    j = n;
                } else {
                    return Err((j, Expected::ClosingBracket));
                }
            } else {
                proof {
                    assert(dims_view(acc@) + Seq::<SpecDimension>::empty() =~= dims_view(acc@));
                }
                return Ok((acc, last, j));
            }
        }
    }

    fn is_type_word(&self, i: usize, e: usize) -> (b: bool)
        requires
            i <= e <= self.source().len(),
        ensures
            b == is_type_text(self.source().subrange(i as int, e as int)),
    {
        let c = &self.chars;
        range_eq(c, i, e, "wire") || range_eq(c, i, e, "reg") || range_eq(c, i, e, "logic")
            || range_eq(c, i, e, "wand") || range_eq(c, i, e, "tri") || range_eq(c, i, e, "triand")
            || range_eq(c, i, e, "trior") || range_eq(c, i, e, "tri0") || range_eq(c, i, e, "tri1")
            || range_eq(c, i, e, "supply0") || range_eq(c, i, e, "supply1") || range_eq(
            c,
            i,
            e,
            "integer",
        ) || range_eq(c, i, e, "time") || range_eq(c, i, e, "signed") || range_eq(
            c,
            i,
            e,
            "unsigned",
        ) || range_eq(c, i, e, "packed")
    }

    fn is_param_type_word(&self, i: usize, e: usize) -> (b: bool)
        requires
            i <= e <= self.source().len(),
        ensures
            b == is_param_type_text(self.source().subrange(i as int, e as int)),
    {
        let c = &self.chars;
        range_eq(c, i, e, "int") || range_eq(c, i, e, "integer") || range_eq(c, i, e, "bit")
            || range_eq(c, i, e, "logic") || range_eq(c, i, e, "reg") || range_eq(c, i, e, "signed")
            || range_eq(c, i, e, "unsigned") || range_eq(c, i, e, "byte") || range_eq(
            c,
            i,
            e,
            "shortint",
        ) || range_eq(c, i, e, "longint") || range_eq(c, i, e, "time") || range_eq(c, i, e, "real")
            || range_eq(c, i, e, "realtime") || range_eq(c, i, e, "shortreal") || range_eq(
            c,
            i,
            e,
            "string",
        )
    }

    fn parse_port_types(&self, k: usize) -> (r: (Option<PortType>, usize))
        requires
            k <= self.source().len(),
        ensures
            parse_port_types(self.source(), k as int, None) == (r.0, r.1 as int),
            k <= r.1 <= self.source().len(),
    {
        let ghost s = self.chars@;
        let mut cur: Option<PortType> = None;
        let mut j = k;
        while self.is_word_at(j) && self.is_type_word(j, self.word_end(j))
            invariant
                s == self.chars@,
                k <= j <= s.len(),
                parse_port_types(s, k as int, None) == parse_port_types(s, j as int, cur),
            decreases s.len() - j,
        {
            let e = self.word_end(j);
            let text = substring(&self.chars, j, e);
            let t = parse_port_type(text.as_str());
            let n = self.skip(e);
            cur = Some(t);
            j = n;
        }
        (cur, j)
    }

    fn parse_param_types(&self, k: usize) -> (r: (Option<String>, usize))
        requires
            k <= self.source().len(),
        ensures
            parse_param_types(self.source(), k as int, None) == (
                match r.0 {
                    Some(t) => Some(t@),
                    None => None,
                },
                r.1 as int,
            ),
            k <= r.1 <= self.source().len(),
    {
        let ghost s = self.chars@;
        let mut cur: Option<String> = None;
        let mut j = k;
        while self.is_word_at(j) && self.is_param_type_word(j, self.word_end(j))
            invariant
                s == self.chars@,
                k <= j <= s.len(),
                parse_param_types(s, k as int, None) == parse_param_types(
                    s,
                    j as int,
                    match cur {
                        Some(t) => Some(t@),
                        None => None,
                    },
                ),
            decreases s.len() - j,
        {
            let e = self.word_end(j);
            let text = substring(&self.chars, j, e);
            let n = self.skip(e);
            cur = Some(text);
            j = n;
        }
        (cur, j)
    }

    /// Whether `source[a..b]` is all whitespace.
    fn gap_is_blank(&self, a: usize, b: usize) -> (r: bool)
        requires
            a <= b <= self.source().len(),
        ensures
            r == all_ws(self.source(), a as int, b as int),
    {
        let mut k = a;
        while k < b
            invariant
                a <= k <= b <= self.chars@.len(),
                all_ws(self.chars@, a as int, k as int),
            decreases b - k,
        {
            if !is_whitespace(self.chars[k]) {
                return false;
            }
            k = k + 1;
        }
        true
    }

    /// How many comments remain once those that start at or after `start` are
    /// dropped from the end.
    fn count_before(&self, start: usize) -> (r: usize)
        ensures
            r == before_count(self.spans(), start as int, self.spans().len() as int),
            r <= self.spans().len(),
    {
        proof {
            use_type_invariant(self);
            lemma_scan_wf(self.chars@, 0);
        }
        let ghost cs = self.spans();
        let mut n = self.comments.len();
        while n > 0 && self.comments[n - 1].0 >= start
            invariant
                cs == self.spans(),
                cs.len() == self.comments@.len(),
                n <= cs.len(),
                before_count(cs, start as int, n as int) == before_count(
                    cs,
                    start as int,
                    cs.len() as int,
                ),
            decreases n,
        {
            proof {
                assert(cs[n - 1] == span_view(self.comments@[n - 1]));
            }
            n = n - 1;
        }
        proof {
            if n > 0 {
                assert(cs[n - 1] == span_view(self.comments@[n - 1]));
            }
        }
        n
    }

    /// Where the run of comments that ends with comment `m - 1` before `cur`
    /// begins (see `run_start`).
    fn run_begin(&self, lo: usize, cur: usize, m: usize) -> (r: usize)
        requires
            m <= self.spans().len(),
            cur <= self.source().len(),
        ensures
            r == run_start(self.spans(), self.source(), lo as int, cur as int, m as int),
            r <= m,
    {
        proof {
            use_type_invariant(self);
            lemma_scan_wf(self.chars@, 0);
        }
        let ghost cs = self.spans();
        let ghost s = self.source();
        let mut k = m;
        let mut c = cur;
        loop
            invariant
                cs == self.spans(),
                s == self.source(),
                spans_wf(s, cs, 0),
                cs.len() == self.comments@.len(),
                k <= m <= cs.len(),
                c <= s.len(),
                run_start(cs, s, lo as int, c as int, k as int) == run_start(
                    cs,
                    s,
                    lo as int,
                    cur as int,
                    m as int,
                ),
            decreases k,
        {
            if k == 0 {
                return 0;
            }
            let a = self.comments[k - 1].0;
            let e = self.comments[k - 1].1;
            proof {
                assert(cs[k - 1] == span_view(self.comments@[k - 1]));
                let _ = cs[k - 1];
            }
            if lo <= a && e <= c && self.gap_is_blank(e, c) {
                c = a;
                k = k - 1;
            } else {
                return k;
            }
        }
    }

    /// The comments `a..b` of the source, in order.
    fn comments_range(&self, a: usize, b: usize) -> (r: Vec<Comment>)
        ensures
            comments_view(r@) == comments_in(self.spans(), a as int, b as int),
    {
        proof {
            use_type_invariant(self);
            lemma_scan_wf(self.chars@, 0);
        }
        let ghost cs = self.spans();
        let mut r: Vec<Comment> = Vec::new();
        if !(a <= b && b <= self.comments.len()) {
            proof {
                assert(comments_view(r@) =~= Seq::<SpecComment>::empty());
            }
            return r;
        }
        let ghost want = cs.subrange(a as int, b as int).map_values(
            |t: (int, int, SpecComment)| t.2,
        );
        let mut k = a;
        while k < b
            invariant
                cs == self.spans(),
                cs.len() == self.comments@.len(),
                a <= k <= b <= cs.len(),
                want == cs.subrange(a as int, b as int).map_values(
                    |t: (int, int, SpecComment)| t.2,
                ),
                comments_view(r@) == want.take(k - a),
            decreases b - k,
        {
            let c = copy_comment(&self.comments[k].2);
            let ghost old_r = r@;
            r.push(c);
            proof {
                assert(cs[k as int] == span_view(self.comments@[k as int]));
                assert(comments_view(r@) =~= comments_view(old_r).push(c@));
                assert(want.take(k + 1 - a) =~= want.take(k - a).push(want[k - a]));
            }
            k = k + 1;
        }
        proof {
            assert(want.take(b - a) =~= want);
        }
        r
    }

    /// Find the leading comments of a declaration that starts at `start`: the
    /// run of comments, from `lo` on, that comes immediately before it with
    /// only whitespace between them.
    fn find_leading_comments(&self, lo: usize, start: usize) -> (r: Vec<Comment>)
        requires
            start <= self.source().len(),
        ensures
            comments_view(r@) == leading_comments(
                self.spans(),
                self.source(),
                lo as int,
                start as int,
            ),
    {
        let n = self.count_before(start);
        let m = self.run_begin(lo, start, n);
        self.comments_range(m, n)
    }

    /// The comments that start at or after `a` and before `b`.
    fn comments_between(&self, a: usize, b: usize) -> (r: Vec<Comment>)
        ensures
            comments_view(r@) == comments_between(self.spans(), a as int, b as int),
    {
        let r0 = self.count_before(a);
        let r1 = self.count_before(b);
        self.comments_range(r0, r1)
    }

    /// The comment on the same line after a declaration that ends at `e`.
    fn inline_after(&self, e: usize) -> (r: Option<(Comment, usize)>)
        requires
            e <= self.source().len(),
        ensures
            match r {
                Some((c, ce)) => inline_comment_after(self.source(), e as int) == Some(
                    (c@, ce as int),
                ) && e <= ce <= self.source().len(),
                None => inline_comment_after(self.source(), e as int) is None,
            },
    {
        let ghost s = self.chars@;
        let mut j = e;
        while j < self.chars.len() && ((is_whitespace(self.chars[j]) && self.chars[j] != '\n')
            || self.chars[j] == ',' || self.chars[j] == ';')
            invariant
                s == self.chars@,
                e <= j <= s.len(),
                skip_inline_gap(s, j as int) == skip_inline_gap(s, e as int),
            decreases s.len() - j,
        {
            j = j + 1;
        }
        match comment_end_at(&self.chars, j) {
            Some(ce) => Some((comment_at(&self.chars, j, ce), ce)),
            None => None,
        }
    }

    /// The comments after a port that claims the text up to `claim`, up to
    /// the next entry at `n` (see `trailing_comments`).
    fn trailing_after(&self, claim: usize, n: usize) -> (r: Vec<Comment>)
        requires
            n <= self.source().len(),
        ensures
            comments_view(r@) == trailing_comments(
                self.spans(),
                self.source(),
                claim as int,
                n as int,
            ),
    {
        let r0 = self.count_before(claim);
        let nb = self.count_before(n);
        let m = if self.char_is(n, ')') {
            nb
        } else {
            self.run_begin(claim, n, nb)
        };
        self.comments_range(r0, m)
    }

    /// Parse port direction keyword(s) at `i`: their text and the position after them.
    fn parse_direction_words(&self, i: usize) -> (r: Result<(String, usize), (usize, Expected)>)
        requires
            i <= self.source().len(),
        ensures
            match r {
                Ok((t, q)) => parse_direction_words(self.source(), i as int) == Ok::<
                    (Seq<char>, int),
                    SpecFailure,
                >((t@, q as int)) && i < q <= self.source().len() && is_direction_text(t@),
                Err(e) => parse_direction_words(self.source(), i as int) == Err::<
                    (Seq<char>, int),
                    SpecFailure,
                >(fail_view(e)),
            },
    {
        if !self.is_word_at(i) {
            return Err((i, Expected::PortDirection));
        }
        let e1 = self.word_end(i);
        let c = &self.chars;
        if !self.is_direction_word_at(i, e1) {
            return Err((i, Expected::PortDirection));
        }
        proof {
            lemma_direction_text(self.chars@.subrange(i as int, e1 as int));
        }
        let j = self.skip(e1);
        let is_ref = range_eq(c, i, e1, "ref");
        if !is_ref && self.kw(j, "ref") {
            let mut t = substring(c, i, e1);
            t.append(" ref");
            let e2 = self.word_end(j);
            let q = self.skip(e2);
            Ok((t, q))
        } else if range_eq(c, i, e1, "const") {
            Err((j, Expected::PortDirection))
        } else {
            Ok((substring(c, i, e1), j))
        }
    }

    fn is_direction_word_at(&self, i: usize, e: usize) -> (b: bool)
        requires
            i <= e <= self.source().len(),
        ensures
            b == is_direction_word(self.source().subrange(i as int, e as int)),
    {
        let c = &self.chars;
        range_eq(c, i, e, "input") || range_eq(c, i, e, "output") || range_eq(c, i, e, "inout")
            || range_eq(c, i, e, "ref") || range_eq(c, i, e, "const")
    }

    /// Parse a single port declaration from its direction keyword at `i` on:
    /// the port (without comments), its header, the position right after its
    /// last token and the position after the trivia that follows.
    fn parse_port_decl(&self, i: usize) -> (r: Result<(Port, Header, usize, usize), (usize, Expected)>)
        requires
            i <= self.source().len(),
        ensures
            match r {
                Ok((p, h, e, q)) => parse_port(self.source(), i as int) == Ok::<
                    (SpecPort, PortHeader, int, int),
                    SpecFailure,
                >((p@, header_view(&h), e as int, q as int)) && i < e <= q <= self.source().len(),
                Err(e) => parse_port(self.source(), i as int) == Err::<
                    (SpecPort, PortHeader, int, int),
                    SpecFailure,
                >(fail_view(e)),
            },
    {
        let (dtext, k) = match self.parse_direction_words(i) {
            Ok(x) => x,
            Err(e) => {
                return Err(e);
            },
        };
        let direction = parse_direction(dtext.as_str());
        let (port_type, k2) = self.parse_port_types(k);
        let (mut dims, _e1, k3) = match self.parse_dims(k2) {
            Ok(x) => x,
            Err(e) => {
                return Err(e);
            },
        };
        if !self.is_word_at(k3) {
            return Err((k3, Expected::PortName));
        }
        let we = self.word_end(k3);
        let name = substring(&self.chars, k3, we);
        let k4 = self.skip(we);
        let (mut dims2, e2, k5) = match self.parse_dims(k4) {
            Ok(x) => x,
            Err(e) => {
                return Err(e);
            },
        };
        let end = if dims2.len() == 0 {
            we
        } else {
            e2
        };
        let header_dims = copy_dims(&dims);
        let ghost d1 = dims@;
        let ghost d2 = dims2@;
        dims.append(&mut dims2);
        let port = Port {
            name,
            direction,
            port_type,
            dimensions: dims,
            leading_comments: Vec::new(),
            inline_comment: None,
            trailing_comments: Vec::new(),
        };
        proof {
            assert(dims_view(d1 + d2) =~= dims_view(d1) + dims_view(d2));
            assert(comments_view(Seq::<Comment>::empty()) =~= Seq::<SpecComment>::empty());
        }
        Ok((port, (direction, port_type, header_dims), end, k5))
    }

    /// Parse a further name of the declaration whose header is `h`.
    fn parse_continued_port(&self, i: usize, h: &Header) -> (r: Result<
        (Port, usize, usize),
        (usize, Expected),
    >)
        requires
            i <= self.source().len(),
        ensures
            match r {
                Ok((p, e, q)) => parse_continued_port(self.source(), i as int, header_view(h))
                    == Ok::<(SpecPort, int, int), SpecFailure>((p@, e as int, q as int)) && i < e
                    <= q <= self.source().len(),
                Err(e) => parse_continued_port(self.source(), i as int, header_view(h)) == Err::<
                    (SpecPort, int, int),
                    SpecFailure,
                >(fail_view(e)),
            },
    {
        if !self.is_word_at(i) {
            return Err((i, Expected::PortName));
        }
        let we = self.word_end(i);
        let name = substring(&self.chars, i, we);
        let k = self.skip(we);
        let (mut extra, e, q) = match self.parse_dims(k) {
            Ok(x) => x,
            Err(e) => {
                return Err(e);
            },
        };
        let end = if extra.len() == 0 {
            we
        } else {
            e
        };
        let mut dims = copy_dims(&h.2);
        let ghost d1 = dims@;
        let ghost d2 = extra@;
        dims.append(&mut extra);
        let port = Port {
            name,
            direction: h.0,
            port_type: h.1,
            dimensions: dims,
            leading_comments: Vec::new(),
            inline_comment: None,
            trailing_comments: Vec::new(),
        };
        proof {
            assert(dims_view(d1 + d2) =~= dims_view(d1) + dims_view(d2));
            assert(comments_view(Seq::<Comment>::empty()) =~= Seq::<SpecComment>::empty());
        }
        Ok((port, end, q))
    }

    fn skip_separator(&self, q: usize) -> (n: usize)
        requires
            q <= self.source().len(),
        ensures
            n == skip_separator(self.source(), q as int),
            q <= n <= self.source().len(),
    {
        if self.char_is(q, ',') || self.char_is(q, ';') {
            self.skip(q + 1)
        } else {
            q
        }
    }

    /// Parse the port list whose `(` ends at `lo` and whose first entry is at
    /// `i`, up to and including its `)`, attaching comments to the ports.
    fn parse_port_list(&self, i: usize, lo: usize) -> (r: Result<
        (Vec<Port>, usize),
        (usize, Expected),
    >)
        requires
            i <= self.source().len(),
        ensures
            match r {
                Ok((v, q)) => parse_port_list(self.source(), self.spans(), i as int, lo as int)
                    == Ok::<(Seq<SpecPort>, int), SpecFailure>((ports_view(v@), q as int)) && i
                    < q <= self.source().len(),
                Err(e) => parse_port_list(self.source(), self.spans(), i as int, lo as int)
                    == Err::<(Seq<SpecPort>, int), SpecFailure>(fail_view(e)),
            },
    {
        let ghost s = self.chars@;
        let ghost cs = self.spans();
        let mut acc: Vec<Port> = Vec::new();
        let mut prev: Option<Header> = None;
        let mut j = i;
        let mut from = lo;
        loop
            invariant
                s == self.source(),
                cs == self.spans(),
                i <= j <= s.len(),
                parse_port_list(s, cs, i as int, lo as int) == match parse_ports(
                    s,
                    cs,
                    j as int,
                    match prev {
                        Some(h) => Some(header_view(&h)),
                        None => None,
                    },
                    from as int,
                ) {
                    Ok((ps, q)) => Ok((ports_view(acc@) + ps, q)),
                    Err(e) => Err::<(Seq<SpecPort>, int), SpecFailure>(e),
                },
            decreases s.len() - j,
        {
            if self.char_is(j, ')') {
                proof {
                    assert(ports_view(acc@) + Seq::<SpecPort>::empty() =~= ports_view(acc@));
                }
                return Ok((acc, j + 1));
            }
            let is_decl = self.is_word_at(j) && self.is_direction_word_at(j, self.word_end(j));
            let (mut p, h, e, q) = if is_decl {
                match self.parse_port_decl(j) {
                    Ok(x) => x,
                    Err(e) => {
                        return Err(e);
                    },
                }
            } else {
                match &prev {
                    Some(ph) => {
                        if !self.is_word_at(j) {
                            return Err((j, Expected::PortDirection));
                        }
                        let (p, e, q) = match self.parse_continued_port(j, ph) {
                            Ok(x) => x,
                            Err(e) => {
                                return Err(e);
                            },
                        };
                        (p, (ph.0, ph.1, copy_dims(&ph.2)), e, q)
                    },
                    None => {
                        return Err((j, Expected::PortDirection));
                    },
                }
            };
            let n = self.skip_separator(q);
            let ghost bare = p@;
            let (inline, claim) = match self.inline_after(e) {
                Some((c, ce)) => (Some(c), ce),
                None => (None, e),
            };
            p.leading_comments = self.find_leading_comments(from, j);
            p.inline_comment = inline;
            p.trailing_comments = self.trailing_after(claim, n);
            let ghost pv = p@;
            proof {
                assert(pv == with_comments(bare, cs, s, from as int, j as int, e as int, n as int));
                assert(claim as int == claimed_end(s, e as int));
            }
            let ghost av = ports_view(acc@);
            acc.push(p);
            proof {
                assert(ports_view(acc@) =~= av.push(pv));
                match parse_ports(s, cs, n as int, Some(header_view(&h)), claim as int) {
                    Ok((ps, r)) => {
                        assert(av + (seq![pv] + ps) =~= av.push(pv) + ps);
                    },
                    Err(e) => {},
                }
            }
            prev = Some(h);
            from = claim;
            j = n;
        }
    }

    fn string_end(&self, k: usize) -> (r: usize)
        requires
            k <= self.source().len(),
        ensures
            r == string_end(self.source(), k as int),
            k <= r <= self.source().len(),
    {
        let ghost s = self.chars@;
        let len = self.chars.len();
        let mut j = k;
        while j < len
            invariant
                s == self.chars@,
                len == s.len(),
                k <= j <= len,
                string_end(s, j as int) == string_end(s, k as int),
            decreases len - j,
        {
            if self.chars[j] == '\\' {
                if j + 1 < len {
                    j = j + 2;
                } else {
                    return len;
                }
            } else if self.chars[j] == '"' {
                return j + 1;
            } else {
                j = j + 1;
            }
        }
        len
    }

    /// Scan a parameter value from `k`: where its text ends and where it stops.
    fn value_scan(&self, k: usize) -> (r: (usize, usize))
        requires
            k <= self.source().len(),
        ensures
            value_scan(self.source(), k as int, 0, k as int) == (r.0 as int, r.1 as int),
            k <= r.0 <= r.1 <= self.source().len(),
    {
        let ghost s = self.chars@;
        let len = self.chars.len();
        let mut j = k;
        let mut depth: usize = 0;
        let mut last = k;
        while j < len
            invariant
                s == self.chars@,
                len == s.len(),
                k <= last <= j <= len,
                depth <= j,
                value_scan(s, j as int, depth as nat, last as int) == value_scan(
                    s,
                    k as int,
                    0,
                    k as int,
                ),
            decreases len - j,
        {
            let c = self.chars[j];
            if depth == 0 && (c == ',' || c == ')' || c == ';') {
                return (last, j);
            }
            if is_whitespace(c) {
                j = j + 1;
            } else {
                match comment_end_at(&self.chars, j) {
                    Some(e) => {
                        j = e;
                    },
                    None => {
                        if c == '"' {
                            let q = self.string_end(j + 1);
                            j = q;
                            last = q;
                        } else if c == '(' || c == '[' || c == '{' {
                            depth = depth + 1;
                            j = j + 1;
                            last = j;
                        } else if c == ')' || c == ']' || c == '}' {
                            if depth > 0 {
                                depth = depth - 1;
                            }
                            j = j + 1;
                            last = j;
                        } else {
                            j = j + 1;
                            last = j;
                        }
                    },
                }
            }
        }
        (last, j)
    }

    /// Parse a single parameter declaration that starts at `i` (without its
    /// comments).
    fn parse_parameter(&self, i: usize) -> (r: Result<(Parameter, usize), (usize, Expected)>)
        requires
            i <= self.source().len(),
        ensures
            match r {
                Ok((p, q)) => parse_param(self.source(), i as int) == Ok::<
                    (SpecParameter, int),
                    SpecFailure,
                >((p@, q as int)) && i < q <= self.source().len(),
                Err(e) => parse_param(self.source(), i as int) == Err::<
                    (SpecParameter, int),
                    SpecFailure,
                >(fail_view(e)),
            },
    {
        let k0 = if self.kw(i, "parameter") || self.kw(i, "localparam") {
            self.skip(self.word_end(i))
        } else {
            i
        };
        let (param_type, k1) = self.parse_param_types(k0);
        let (dims, _e, k2) = match self.parse_dims(k1) {
            Ok(x) => x,
            Err(e) => {
                return Err(e);
            },
        };
        if !self.is_word_at(k2) {
            return Err((k2, Expected::ParameterName));
        }
        let e = self.word_end(k2);
        let name = substring(&self.chars, k2, e);
        let k3 = self.skip(e);
        let (value, k4) = if self.char_is(k3, '=') {
            let v0 = self.skip(k3 + 1);
            let (last, stop) = self.value_scan(v0);
            (trimmed_substring(&self.chars, v0, last), stop)
        } else {
            (String::new(), k3)
        };
        let param = Parameter {
            name,
            value,
            param_type,
            dimensions: dims,
            leading_comments: Vec::new(),
        };
        proof {
            assert(comments_view(Seq::<Comment>::empty()) =~= Seq::<SpecComment>::empty());
        }
        Ok((param, k4))
    }

    /// Parse the parameter list whose `(` ends at `lo` and whose first entry
    /// is at `i`, up to and including its `)`, attaching leading comments.
    fn parse_parameter_list(&self, i: usize, lo: usize) -> (r: Result<
        (Vec<Parameter>, usize),
        (usize, Expected),
    >)
        requires
            i <= self.source().len(),
        ensures
            match r {
                Ok((v, q)) => parse_param_list(self.source(), self.spans(), i as int, lo as int)
                    == Ok::<(Seq<SpecParameter>, int), SpecFailure>((params_view(v@), q as int))
                    && i < q <= self.source().len(),
                Err(e) => parse_param_list(self.source(), self.spans(), i as int, lo as int)
                    == Err::<(Seq<SpecParameter>, int), SpecFailure>(fail_view(e)),
            },
    {
        let ghost s = self.chars@;
        let ghost cs = self.spans();
        let mut acc: Vec<Parameter> = Vec::new();
        let mut j = i;
        let mut from = lo;
        loop
            invariant
                s == self.source(),
                cs == self.spans(),
                i <= j <= s.len(),
                parse_param_list(s, cs, i as int, lo as int) == match parse_params(
                    s,
                    cs,
                    j as int,
                    from as int,
                ) {
                    Ok((ps, q)) => Ok((params_view(acc@) + ps, q)),
                    Err(e) => Err::<(Seq<SpecParameter>, int), SpecFailure>(e),
                },
            decreases s.len() - j,
        {
            if self.char_is(j, ')') {
                proof {
                    assert(params_view(acc@) + Seq::<SpecParameter>::empty() =~= params_view(
                        acc@,
                    ));
                }
                return Ok((acc, j + 1));
            }
            let (mut p, q) = match self.parse_parameter(j) {
                Ok(x) => x,
                Err(e) => {
                    return Err(e);
                },
            };
            let n = self.skip_separator(q);
            let ghost bare = p@;
            p.leading_comments = self.find_leading_comments(from, j);
            let ghost pv = p@;
            proof {
                assert(pv == param_with_comments(bare, cs, s, from as int, j as int));
            }
            let ghost av = params_view(acc@);
            acc.push(p);
            proof {
                assert(params_view(acc@) =~= av.push(pv));
                match parse_params(s, cs, n as int, q as int) {
                    Ok((ps, r)) => {
                        assert(av + (seq![pv] + ps) =~= av.push(pv) + ps);
                    },
                    Err(e) => {},
                }
            }
            from = q;
            j = n;
        }
    }

    /// Skip a module body from `i` on: where its `endmodule` begins.
    fn find_endmodule(&self, i: usize) -> (r: Option<usize>)
        requires
            i <= self.source().len(),
        ensures
            r is None <==> find_endmodule(self.source(), i as int) is None,
            r matches Some(k) ==> find_endmodule(self.source(), i as int) == Some(k as int) && i
                <= k && kw_at(self.source(), k as int, "endmodule"@),
    {
        let ghost s = self.chars@;
        let mut j = i;
        while j < self.chars.len()
            invariant
                s == self.chars@,
                i <= j <= s.len(),
                find_endmodule(s, j as int) == find_endmodule(s, i as int),
            decreases s.len() - j,
        {
            if self.kw(j, "endmodule") {
                return Some(j);
            }
            let n = if self.is_word_at(j) {
                self.skip(self.word_end(j))
            } else {
                self.skip(j + 1)
            };
            j = n;
        }
        None
    }

    /// Parse a complete module definition whose `module` keyword starts at `i`.
    fn parse_module_def(&self, i: usize) -> (r: Result<(Module, usize), (usize, Expected)>)
        requires
            kw_at(self.source(), i as int, "module"@),
        ensures
            match r {
                Ok((m, q)) => parse_module(self.source(), self.spans(), i as int) == Ok::<
                    (SpecModule, int),
                    SpecFailure,
                >((m@, q as int)) && i < q <= self.source().len(),
                Err(e) => parse_module(self.source(), self.spans(), i as int) == Err::<
                    (SpecModule, int),
                    SpecFailure,
                >(fail_view(e)),
            },
    {
        reveal(parse_module);
        let p = self.skip(self.word_end(i));
        if !self.is_word_at(p) {
            return Err((p, Expected::ModuleName));
        }
        let pe = self.word_end(p);
        let name = substring(&self.chars, p, pe);
        let p2 = self.skip(pe);
        let (parameters, p4, raw4) = if self.char_is(p2, '#') {
            let p3 = self.skip(p2 + 1);
            if self.char_is(p3, '(') {
                match self.parse_parameter_list(self.skip(p3 + 1), p3 + 1) {
                    Ok((ps, q)) => (ps, self.skip(q), q),
                    Err(e) => {
                        return Err(e);
                    },
                }
            } else {
                return Err((p3, Expected::Symbol('(')));
            }
        } else {
            let v = Vec::new();
            proof {
                assert(params_view(v@) =~= Seq::<SpecParameter>::empty());
            }
            (v, p2, pe)
        };
        let (ports, p5, raw5) = if self.char_is(p4, '(') {
            match self.parse_port_list(self.skip(p4 + 1), p4 + 1) {
                Ok((ps, q)) => (ps, self.skip(q), q),
                Err(e) => {
                    return Err(e);
                },
            }
        } else {
            let v = Vec::new();
            proof {
                assert(ports_view(v@) =~= Seq::<SpecPort>::empty());
            }
            (v, p4, raw4)
        };
        let (body_start, body) = if self.char_is(p5, ';') {
            (p5 + 1, self.skip(p5 + 1))
        } else {
            (raw5, p5)
        };
        match self.find_endmodule(body) {
            None => Err((self.chars.len(), Expected::EndModule)),
            Some(k) => {
                let header_comments = self.find_leading_comments(0, i);
                let body_comments = self.comments_between(body_start, k);
                let end = self.word_end(k);
                let m = Module { name, parameters, ports, header_comments, body_comments };
                Ok((m, end))
            },
        }
    }

    /// Parse the whole source: the modules it defines, in order.
    pub fn parse_modules(&self) -> (r: Result<Vec<Module>, ParseError>)
        ensures
            match r {
                Ok(ms) => parse_source(self.source()) == Ok::<Seq<SpecModule>, SpecFailure>(
                    modules_view(ms@),
                ),
                Err(ParseError::Parse { offset, expected }) => parse_source(self.source()) == Err::<
                    Seq<SpecModule>,
                    SpecFailure,
                >((offset as int, expected)),
            },
    {
        proof {
            use_type_invariant(self);
        }
        let ghost s = self.chars@;
        let ghost cs = self.spans();
        let mut acc: Vec<Module> = Vec::new();
        let mut j = self.skip(0);
        while j < self.chars.len()
            invariant
                s == self.source(),
                cs == self.spans(),
                cs == comment_spans(s),
                j <= s.len(),
                parse_source(s) == match parse_items(s, cs, j as int) {
                    Ok(ms) => Ok(modules_view(acc@) + ms),
                    Err(e) => Err::<Seq<SpecModule>, SpecFailure>(e),
                },
            decreases s.len() - j,
        {
            if self.kw(j, "module") {
                let (m, e) = match self.parse_module_def(j) {
                    Ok(x) => x,
                    Err((offset, expected)) => {
                        return Err(ParseError::Parse { offset, expected });
                    },
                };
                let n = self.skip(e);
                let ghost mv = m@;
                let ghost av = modules_view(acc@);
                acc.push(m);
                proof {
                    assert(modules_view(acc@) =~= av.push(mv));
                    match parse_items(s, cs, n as int) {
                        Ok(ms) => {
                            assert(av + (seq![mv] + ms) =~= av.push(mv) + ms);
                        },
                        Err(e) => {},
                    }
                }
                j = n;
            } else {
                let n = if self.is_word_at(j) {
                    self.skip(self.word_end(j))
                } else {
                    self.skip(j + 1)
                };
                j = n;
            }
        }
        proof {
            assert(modules_view(acc@) + Seq::<SpecModule>::empty() =~= modules_view(acc@));
        }
        Ok(acc)
    }
}


/// Parse the entire source: the modules it defines, in the order in which
/// they occur, or the position at which it departs from the grammar.
pub fn parse(input: &str) -> (r: Result<Vec<Module>, ParseError>)
    ensures
        match r {
            Ok(ms) => parse_source(input@) == Ok::<Seq<SpecModule>, SpecFailure>(modules_view(ms@)),
            Err(ParseError::Parse { offset, expected }) => parse_source(input@) == Err::<
                Seq<SpecModule>,
                SpecFailure,
            >((offset as int, expected)),
        },
{
    let p = VerilogParser::new(input);
    p.parse_modules()
}


// ---------------------------------------------------------------------------
// Laws
// ---------------------------------------------------------------------------

/// `parse_direction` accepts the keyword(s) of every direction and gives that
/// direction back.
pub proof fn lemma_direction_round_trip(d: PortDirection)
    ensures
        is_direction_text(direction_keyword(d)),
        direction_of(direction_keyword(d)) == d,
{
    broadcast use vstd::string::group_string_axioms;

    reveal_strlit("input");
    reveal_strlit("output");
    reveal_strlit("inout");
    reveal_strlit("ref");
    reveal_strlit("const ref");
    reveal_strlit("output ref");
    reveal_strlit("inout ref");
    reveal_strlit("input ref");
    // Distinct keywords differ in length or at one of these positions.
    assert("input"@.len() == 5);
    assert("input"@[2] == 'p');
    assert("output"@.len() == 6);
    assert("inout"@.len() == 5);
    assert("inout"@[2] == 'o');
    assert("ref"@.len() == 3);
    assert("const ref"@.len() == 9);
    assert("const ref"@[0] == 'c');
    assert("output ref"@.len() == 10);
    assert("inout ref"@.len() == 9);
    assert("inout ref"@[2] == 'o');
    assert("inout ref"@[0] == 'i');
    assert("input ref"@.len() == 9);
    assert("input ref"@[2] == 'p');
    assert("input ref"@[0] == 'i');
    match d {
        PortDirection::Input => {},
        PortDirection::Output => {},
        PortDirection::Inout => {},
        PortDirection::Ref => {},
        PortDirection::ConstRef => {},
        PortDirection::OutputRef => {},
        PortDirection::InoutRef => {},
    }
}

/// `parse_port_type` accepts the keyword of every port type and gives that
/// type back; and every keyword it accepts is the keyword of the type it gives.
pub proof fn lemma_type_round_trip(t: PortType, w: Seq<char>)
    ensures
        is_type_text(type_keyword(t)),
        type_of(type_keyword(t)) == t,
        is_type_text(w) ==> type_keyword(type_of(w)) == w,
{
    broadcast use vstd::string::group_string_axioms;

    reveal_strlit("wire");
    reveal_strlit("reg");
    reveal_strlit("logic");
    reveal_strlit("wand");
    reveal_strlit("tri");
    reveal_strlit("triand");
    reveal_strlit("trior");
    reveal_strlit("tri0");
    reveal_strlit("tri1");
    reveal_strlit("supply0");
    reveal_strlit("supply1");
    reveal_strlit("integer");
    reveal_strlit("time");
    reveal_strlit("signed");
    reveal_strlit("unsigned");
    reveal_strlit("packed");
    // Distinct keywords differ in length or at one of these positions.
    assert("wire"@.len() == 4);
    assert("wire"@[1] == 'i');
    assert("wire"@[0] == 'w');
    assert("reg"@.len() == 3);
    assert("reg"@[0] == 'r');
    assert("logic"@.len() == 5);
    assert("logic"@[0] == 'l');
    assert("wand"@.len() == 4);
    assert("wand"@[1] == 'a');
    assert("wand"@[0] == 'w');
    assert("tri"@.len() == 3);
    assert("tri"@[0] == 't');
    assert("triand"@.len() == 6);
    assert("triand"@[0] == 't');
    assert("trior"@.len() == 5);
    assert("trior"@[0] == 't');
    assert("tri0"@.len() == 4);
    assert("tri0"@[3] == '0');
    assert("tri0"@[1] == 'r');
    assert("tri0"@[0] == 't');
    assert("tri1"@.len() == 4);
    assert("tri1"@[3] == '1');
    assert("tri1"@[1] == 'r');
    assert("tri1"@[0] == 't');
    assert("supply0"@.len() == 7);
    assert("supply0"@[6] == '0');
    assert("supply0"@[0] == 's');
    assert("supply1"@.len() == 7);
    assert("supply1"@[6] == '1');
    assert("supply1"@[0] == 's');
    assert("integer"@.len() == 7);
    assert("integer"@[0] == 'i');
    assert("time"@.len() == 4);
    assert("time"@[1] == 'i');
    assert("time"@[0] == 't');
    assert("signed"@.len() == 6);
    assert("signed"@[0] == 's');
    assert("unsigned"@.len() == 8);
    assert("packed"@.len() == 6);
    assert("packed"@[0] == 'p');
    match t {
        PortType::Wire => {},
        PortType::Reg => {},
        PortType::Logic => {},
        PortType::Wand => {},
        PortType::Tri => {},
        PortType::Triand => {},
        PortType::Trior => {},
        PortType::Tri0 => {},
        PortType::Tri1 => {},
        PortType::Supply0 => {},
        PortType::Supply1 => {},
        PortType::Integer => {},
        PortType::Time => {},
        PortType::Signed => {},
        PortType::Unsigned => {},
        PortType::Packed => {},
    }
}

} // verus!
