//! Properties of what the grammar accepts and produces.
use vstd::prelude::*;

use crate::parser::ast::{SpecComment, SpecModule, SpecParameter, SpecPort};
use crate::parser::chars::{all_ws, is_identifier, is_ws};
use crate::parser::lexer::{comment_end, comment_spans, comment_value, lemma_scan_wf, spans_wf};
use crate::parser::verilog::{
    Expected, PortHeader, SpecFailure, before_count, char_at, claimed_end, inline_comment_after,
    is_word, kw_at, leading_comments, lemma_word_is_identifier, param_with_comments, parse_dims,
    parse_direction_words, parse_items, parse_module, parse_param, parse_param_list,
    parse_param_types, parse_params, parse_port, parse_port_item, parse_port_types, parse_ports,
    parse_source, run_start, skip_inline_gap, skip_separator, skip_trivia, with_comments, word_end,
};

verus! {

/// The comment `cs[k]` starts at or after `lo` and is followed by nothing but
/// whitespace up to `cur`.
pub open spec fn in_run(
    cs: Seq<(int, int, SpecComment)>,
    s: Seq<char>,
    lo: int,
    k: int,
    cur: int,
) -> bool {
    &&& lo <= cs[k].0
    &&& 0 <= cs[k].1 <= cur
    &&& all_ws(s, cs[k].1, cur)
}

/// Where the gap after `cs[k]` ends, in a run that ends before `start` with
/// comment `n - 1`: at the next comment, or at `start` for the last.
pub open spec fn gap_end(cs: Seq<(int, int, SpecComment)>, start: int, k: int, n: int) -> int {
    if k + 1 < n {
        cs[k + 1].0
    } else {
        start
    }
}

proof fn lemma_run_start(
    cs: Seq<(int, int, SpecComment)>,
    s: Seq<char>,
    lo: int,
    cur: int,
    m: int,
)
    requires
        0 <= m <= cs.len(),
    ensures
        0 <= run_start(cs, s, lo, cur, m) <= m,
        forall|k: int|
            run_start(cs, s, lo, cur, m) <= k < m ==> #[trigger] in_run(
                cs,
                s,
                lo,
                k,
                gap_end(cs, cur, k, m),
            ),
        run_start(cs, s, lo, cur, m) > 0 ==> !in_run(
            cs,
            s,
            lo,
            run_start(cs, s, lo, cur, m) - 1,
            gap_end(cs, cur, run_start(cs, s, lo, cur, m) - 1, m),
        ),
    decreases m,
{
    if m > 0 {
        let (a, e, c) = cs[m - 1];
        if lo <= a && 0 <= e <= cur && all_ws(s, e, cur) {
            lemma_run_start(cs, s, lo, a, m - 1);
            let r = run_start(cs, s, lo, cur, m);
            assert forall|k: int| r <= k < m implies #[trigger] in_run(
                cs,
                s,
                lo,
                k,
                gap_end(cs, cur, k, m),
            ) by {
                if k < m - 1 {
                    assert(gap_end(cs, a, k, m - 1) == gap_end(cs, cur, k, m));
                }
            }
            if r > 0 {
                assert(gap_end(cs, a, r - 1, m - 1) == gap_end(cs, cur, r - 1, m));
            }
        }
    }
}

proof fn lemma_spans_sorted(s: Seq<char>, cs: Seq<(int, int, SpecComment)>, j: int, k: int)
    requires
        spans_wf(s, cs, 0),
        0 <= j < k < cs.len(),
    ensures
        cs[j].1 <= cs[k].0,
    decreases k - j,
{
    let _ = cs[k - 1];
    if j < k - 1 {
        lemma_spans_sorted(s, cs, j, k - 1);
        let _ = cs[j];
    }
}

proof fn lemma_before_count(s: Seq<char>, cs: Seq<(int, int, SpecComment)>, start: int, n: int)
    requires
        spans_wf(s, cs, 0),
        0 <= n <= cs.len(),
    ensures
        0 <= before_count(cs, start, n) <= n,
        forall|k: int| 0 <= k < before_count(cs, start, n) ==> #[trigger] cs[k].0 < start,
        forall|k: int| before_count(cs, start, n) <= k < n ==> #[trigger] cs[k].0 >= start,
    decreases n,
{
    if n > 0 {
        if cs[n - 1].0 >= start {
            lemma_before_count(s, cs, start, n - 1);
        } else {
            assert forall|k: int| 0 <= k < n implies #[trigger] cs[k].0 < start by {
                if k < n - 1 {
                    lemma_spans_sorted(s, cs, k, n - 1);
                    let _ = cs[k];
                }
            }
        }
    }
}

/// The leading comments of a declaration at `start` are the longest run of
/// comments that ends right before it, in source order: with `n` the number
/// of comments that start before `start` and `m` where the run begins, they
/// are the comments `m..n`; each starts at or after `lo` and is followed by
/// only whitespace up to the next comment (the last, up to `start`); and the
/// comment before the run, if any, is not.
pub proof fn lemma_leading_run(s: Seq<char>, lo: int, start: int)
    ensures
        ({
            let cs = comment_spans(s);
            let n = before_count(cs, start, cs.len() as int);
            let m = run_start(cs, s, lo, start, n);
            &&& 0 <= m <= n <= cs.len()
            &&& leading_comments(cs, s, lo, start) == cs.subrange(m, n).map_values(
                |t: (int, int, SpecComment)| t.2,
            )
            &&& forall|k: int| 0 <= k < n ==> #[trigger] cs[k].0 < start
            &&& forall|k: int| n <= k < cs.len() ==> #[trigger] cs[k].0 >= start
            &&& forall|k: int|
                m <= k < n ==> #[trigger] in_run(cs, s, lo, k, gap_end(cs, start, k, n))
            &&& m > 0 ==> !in_run(cs, s, lo, m - 1, gap_end(cs, start, m - 1, n))
        }),
{
    let cs = comment_spans(s);
    lemma_scan_wf(s, 0);
    lemma_before_count(s, cs, start, cs.len() as int);
    let n = before_count(cs, start, cs.len() as int);
    lemma_run_start(cs, s, lo, start, n);
}

/// The inline comment after a declaration that ends at `e` starts where the
/// blanks, `,` and `;` after `e` end, on the same line: no newline stands
/// between `e` and it.
pub proof fn lemma_inline_comment(s: Seq<char>, e: int)
    requires
        0 <= e <= s.len(),
    ensures
        ({
            let j = skip_inline_gap(s, e);
            &&& e <= j <= s.len()
            &&& forall|k: int| e <= k < j ==> #[trigger] s[k] != '\n'
            &&& inline_comment_after(s, e) matches Some((c, ce)) ==> comment_end(s, j) == Some(ce)
                && c == comment_value(s, j, ce) && j < ce
        }),
    decreases s.len() - e,
{
    if e < s.len() && ((is_ws(s[e]) && s[e] != '\n') || s[e] == ',' || s[e] == ';') {
        lemma_inline_comment(s, e + 1);
    }
}

/// A parsed port is named by an identifier.
pub open spec fn port_wf(p: SpecPort) -> bool {
    is_identifier(p.name)
}

/// A parsed parameter is named by an identifier.
pub open spec fn param_wf(p: SpecParameter) -> bool {
    is_identifier(p.name)
}

/// A parsed module: its name, and those of its ports and parameters, are
/// identifiers.
pub open spec fn module_wf(m: SpecModule) -> bool {
    &&& is_identifier(m.name)
    &&& forall|i: int| 0 <= i < m.ports.len() ==> #[trigger] port_wf(m.ports[i])
    &&& forall|i: int| 0 <= i < m.parameters.len() ==> #[trigger] param_wf(m.parameters[i])
}

proof fn lemma_port_wf(s: Seq<char>, i: int)
    ensures
        parse_port(s, i) matches Ok((p, h, e, q)) ==> port_wf(p),
{
    if let Ok((dtext, k)) = parse_direction_words(s, i) {
        let (ptype, k2) = parse_port_types(s, k, None);
        if let Ok((ds1, e1, k3)) = parse_dims(s, k2) {
            if is_word(s, k3) {
                lemma_word_is_identifier(s, k3);
            }
        }
    }
}

proof fn lemma_port_item_wf(s: Seq<char>, i: int, prev: Option<PortHeader>)
    ensures
        parse_port_item(s, i, prev) matches Ok((p, h, e, q)) ==> port_wf(p),
{
    lemma_port_wf(s, i);
    if is_word(s, i) {
        lemma_word_is_identifier(s, i);
    }
}

proof fn lemma_ports_wf(
    s: Seq<char>,
    cs: Seq<(int, int, SpecComment)>,
    i: int,
    prev: Option<PortHeader>,
    lo: int,
)
    ensures
        parse_ports(s, cs, i, prev, lo) matches Ok((ps, q)) ==> forall|k: int|
            0 <= k < ps.len() ==> #[trigger] port_wf(ps[k]),
    decreases s.len() - i,
{
    if !char_at(s, i, ')') {
        lemma_port_item_wf(s, i, prev);
        if let Ok((p, h, e, q)) = parse_port_item(s, i, prev) {
            let n = skip_separator(s, q);
            if i < n <= s.len() {
                let lo2 = claimed_end(s, e);
                lemma_ports_wf(s, cs, n, Some(h), lo2);
                if let Ok((ps, r)) = parse_ports(s, cs, n, Some(h), lo2) {
                    let all = seq![with_comments(p, cs, s, lo, i, e, n)] + ps;
                    assert forall|k: int| 0 <= k < all.len() implies #[trigger] port_wf(all[k]) by {
                        if k > 0 {
                            assert(all[k] == ps[k - 1]);
                        }
                    }
                }
            }
        }
    }
}

proof fn lemma_param_wf(s: Seq<char>, i: int)
    ensures
        parse_param(s, i) matches Ok((p, q)) ==> param_wf(p),
{
    let k0 = if kw_at(s, i, "parameter"@) || kw_at(s, i, "localparam"@) {
        skip_trivia(s, word_end(s, i))
    } else {
        i
    };
    let (ptype, k1) = parse_param_types(s, k0, None);
    if let Ok((ds, e, k2)) = parse_dims(s, k1) {
        if is_word(s, k2) {
            lemma_word_is_identifier(s, k2);
        }
    }
}

proof fn lemma_params_wf(s: Seq<char>, cs: Seq<(int, int, SpecComment)>, i: int, lo: int)
    ensures
        parse_params(s, cs, i, lo) matches Ok((ps, q)) ==> forall|k: int|
            0 <= k < ps.len() ==> #[trigger] param_wf(ps[k]),
    decreases s.len() - i,
{
    if !char_at(s, i, ')') {
        lemma_param_wf(s, i);
        if let Ok((p, q)) = parse_param(s, i) {
            let n = skip_separator(s, q);
            if i < n <= s.len() {
                lemma_params_wf(s, cs, n, q);
                if let Ok((ps, r)) = parse_params(s, cs, n, q) {
                    let all = seq![param_with_comments(p, cs, s, lo, i)] + ps;
                    assert forall|k: int| 0 <= k < all.len() implies #[trigger] param_wf(all[k]) by {
                        if k > 0 {
                            assert(all[k] == ps[k - 1]);
                        }
                    }
                }
            }
        }
    }
}

proof fn lemma_module_wf(s: Seq<char>, cs: Seq<(int, int, SpecComment)>, i: int)
    ensures
        parse_module(s, cs, i) matches Ok((m, q)) ==> module_wf(m),
{
    reveal(parse_module);
    let p = skip_trivia(s, word_end(s, i));
    if is_word(s, p) {
        lemma_word_is_identifier(s, p);
        let p2 = skip_trivia(s, word_end(s, p));
        let p3 = skip_trivia(s, p2 + 1);
        let i1 = skip_trivia(s, p3 + 1);
        lemma_params_wf(s, cs, i1, p3 + 1);
        let params: Result<(Seq<SpecParameter>, int, int), SpecFailure> = if char_at(s, p2, '#') {
            if char_at(s, p3, '(') {
                match parse_param_list(s, cs, i1, p3 + 1) {
                    Ok((ps, q)) => Ok((ps, skip_trivia(s, q), q)),
                    Err(e) => Err(e),
                }
            } else {
                Err((p3, Expected::Symbol('(')))
            }
        } else {
            Ok((Seq::empty(), p2, word_end(s, p)))
        };
        if let Ok((params, p4, raw4)) = params {
            lemma_ports_wf(s, cs, skip_trivia(s, p4 + 1), None, p4 + 1);
        }
    }
}

proof fn lemma_items_wf(s: Seq<char>, cs: Seq<(int, int, SpecComment)>, i: int)
    ensures
        parse_items(s, cs, i) matches Ok(ms) ==> forall|k: int|
            0 <= k < ms.len() ==> #[trigger] module_wf(ms[k]),
    decreases s.len() - i,
{
    if 0 <= i < s.len() {
        if kw_at(s, i, "module"@) {
            lemma_module_wf(s, cs, i);
            if let Ok((m, e)) = parse_module(s, cs, i) {
                let n = skip_trivia(s, e);
                if i < n <= s.len() {
                    lemma_items_wf(s, cs, n);
                    if let Ok(ms) = parse_items(s, cs, n) {
                        let all = seq![m] + ms;
                        assert forall|k: int| 0 <= k < all.len() implies #[trigger] module_wf(
                            all[k],
                        ) by {
                            if k > 0 {
                                assert(all[k] == ms[k - 1]);
                            }
                        }
                    }
                }
            }
        } else {
            let n = if is_word(s, i) {
                skip_trivia(s, word_end(s, i))
            } else {
                skip_trivia(s, i + 1)
            };
            if i < n <= s.len() {
                lemma_items_wf(s, cs, n);
            }
        }
    }
}

/// Every module that a source defines is named by an identifier, and so are
/// its ports and parameters.
pub proof fn lemma_parsed_modules_wf(s: Seq<char>)
    ensures
        parse_source(s) matches Ok(ms) ==> forall|k: int|
            0 <= k < ms.len() ==> #[trigger] module_wf(ms[k]),
{
    lemma_items_wf(s, comment_spans(s), skip_trivia(s, 0));
}

proof fn lemma_items_without_modules(s: Seq<char>, cs: Seq<(int, int, SpecComment)>, i: int)
    requires
        forall|j: int| !#[trigger] kw_at(s, j, "module"@),
    ensures
        parse_items(s, cs, i) == Ok::<Seq<SpecModule>, SpecFailure>(Seq::empty()),
    decreases s.len() - i,
{
    if 0 <= i < s.len() {
        assert(!kw_at(s, i, "module"@));
        let n = if is_word(s, i) {
            skip_trivia(s, word_end(s, i))
        } else {
            skip_trivia(s, i + 1)
        };
        if i < n <= s.len() {
            lemma_items_without_modules(s, cs, n);
        }
    }
}

/// A source in which the word `module` never occurs defines no module and
/// parses without error, whatever else it holds (comments, directives, other
/// text).
pub proof fn lemma_no_module_keyword(s: Seq<char>)
    requires
        forall|j: int| !#[trigger] kw_at(s, j, "module"@),
    ensures
        parse_source(s) == Ok::<Seq<SpecModule>, SpecFailure>(Seq::empty()),
{
    lemma_items_without_modules(s, comment_spans(s), skip_trivia(s, 0));
}

} // verus!
