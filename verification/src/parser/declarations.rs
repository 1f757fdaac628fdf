//! What the grammar makes of port and parameter declarations, stated over
//! the text of the declaration.
use vstd::prelude::*;

use crate::parser::ast::{PortDirection, PortType, SpecDimension, SpecParameter};
use crate::parser::chars::{
    all_ws, is_ident_char, is_ident_start, is_identifier, is_ws, lemma_ws_prefix_len,
    lemma_ws_trimmed_end, trim, ws_prefix_len, ws_trimmed_end,
};
use crate::parser::lexer::comment_end;
use crate::parser::verilog::{
    SpecFailure, char_at, dimension_of, direction_of, find_char, ident_end, is_direction_word,
    is_type_text, parse_direction_words, parse_port_types, is_param_type_text, is_word, kw_at, parse_continued_port,
    parse_dims, parse_param, parse_param_types, parse_port, skip_trivia, value_scan, word,
    word_end,
};

verus! {

proof fn lemma_ident_end_at(s: Seq<char>, k: int, b: int)
    requires
        0 <= k <= b <= s.len(),
        forall|j: int| k <= j < b ==> #[trigger] is_ident_char(s[j]),
        b == s.len() || !is_ident_char(s[b]),
    ensures
        ident_end(s, k) == b,
    decreases b - k,
{
    if k < b {
        lemma_ident_end_at(s, k + 1, b);
    }
}

/// The word of `s[a..b]`, an identifier that no identifier character follows.
proof fn lemma_word_at(s: Seq<char>, a: int, b: int)
    requires
        0 <= a < b <= s.len(),
        is_identifier(s.subrange(a, b)),
        b == s.len() || !is_ident_char(s[b]),
    ensures
        is_word(s, a),
        word_end(s, a) == b,
        word(s, a) == s.subrange(a, b),
{
    let w = s.subrange(a, b);
    assert(s[a] == w[0]);
    assert forall|j: int| a + 1 <= j < b implies #[trigger] is_ident_char(s[j]) by {
        assert(s[j] == w[j - a]);
    }
    lemma_ident_end_at(s, a + 1, b);
}

/// A single whitespace character before a token that is no comment is skipped.
proof fn lemma_skip_one(s: Seq<char>, p: int)
    requires
        0 <= p,
        p + 1 < s.len(),
        is_ws(s[p]),
        !is_ws(s[p + 1]),
        s[p + 1] != '/',
    ensures
        skip_trivia(s, p) == p + 1,
{
    assert(comment_end(s, p + 1) is None);
    assert(skip_trivia(s, p + 1) == p + 1);
}

/// Characters that a parameter value may hold without opening a bracket,
/// a string or a comment, or ending the value.
pub open spec fn is_plain_value_char(c: char) -> bool {
    &&& !is_ws(c)
    &&& c != '/' && c != '"'
    &&& c != '(' && c != ')' && c != '[' && c != ']' && c != '{' && c != '}'
    &&& c != ',' && c != ';'
}

proof fn lemma_plain_value_scan(s: Seq<char>, k: int, f: int, last: int)
    requires
        0 <= k <= f < s.len(),
        forall|j: int| k <= j < f ==> #[trigger] is_plain_value_char(s[j]),
        s[f] == ',' || s[f] == ')' || s[f] == ';',
    ensures
        value_scan(s, k, 0, last) == (if k < f { f } else { last }, f),
    decreases f - k,
{
    if k < f {
        assert(is_plain_value_char(s[k]));
        assert(comment_end(s, k) is None);
        lemma_plain_value_scan(s, k + 1, f, k + 1);
    }
}

/// Whitespace between tokens is passed over: from any point of a run of
/// whitespace, the next token is found where it is found from the end of
/// the run.
pub proof fn lemma_whitespace_run_skipped(s: Seq<char>, i: int, j: int)
    requires
        0 <= i <= j <= s.len(),
        all_ws(s, i, j),
    ensures
        skip_trivia(s, i) == skip_trivia(s, j),
    decreases j - i,
{
    if i < j {
        assert(is_ws(s[i]));
        lemma_whitespace_run_skipped(s, i + 1, j);
    }
}

/// The type keywords that a parameter declaration may carry before its name.
pub open spec fn is_documented_param_type(t: Seq<char>) -> bool {
    t == "int"@ || t == "bit"@ || t == "logic"@ || t == "signed"@ || t == "unsigned"@
}

proof fn lemma_documented_type_word(t: Seq<char>)
    requires
        is_documented_param_type(t),
    ensures
        is_identifier(t),
        is_param_type_text(t),
{
    reveal_strlit("int");
    reveal_strlit("bit");
    reveal_strlit("logic");
    reveal_strlit("signed");
    reveal_strlit("unsigned");
    assert forall|k: int| 0 < k < t.len() implies #[trigger] is_ident_char(t[k]) by {
        if t == "unsigned"@ {
            assert(k == 1 || k == 2 || k == 3 || k == 4 || k == 5 || k == 6 || k == 7);
        } else if t == "signed"@ {
            assert(k == 1 || k == 2 || k == 3 || k == 4 || k == 5);
        } else if t == "logic"@ {
            assert(k == 1 || k == 2 || k == 3 || k == 4);
        } else {
            assert(k == 1 || k == 2);
        }
    }
}

/// A typed parameter declaration `parameter T N = V`, with `T` one of the
/// type keywords `int`, `bit`, `logic`, `signed` or `unsigned`, a name `N`
/// that is no type keyword, and a value `V` of plain characters ended by
/// `,`, `)` or `;`, is one parameter named `N`, of type `T`, with value `V`
/// and no dimensions; it ends where the value ends.
pub proof fn lemma_typed_parameter(
    s: Seq<char>,
    i: int,
    t: Seq<char>,
    n: Seq<char>,
    v: Seq<char>,
)
    requires
        0 <= i,
        i + ("parameter "@ + t + " "@ + n + " = "@ + v).len() < s.len(),
        s.subrange(i, i + ("parameter "@ + t + " "@ + n + " = "@ + v).len())
            == "parameter "@ + t + " "@ + n + " = "@ + v,
        is_documented_param_type(t),
        is_identifier(n),
        !is_param_type_text(n),
        v.len() > 0,
        forall|k: int| 0 <= k < v.len() ==> #[trigger] is_plain_value_char(v[k]),
        ({
            let f = i + ("parameter "@ + t + " "@ + n + " = "@ + v).len();
            s[f] == ',' || s[f] == ')' || s[f] == ';'
        }),
    ensures
        parse_param(s, i) == Ok::<(SpecParameter, int), SpecFailure>(
            (
                SpecParameter {
                    name: n,
                    value: v,
                    param_type: Some(t),
                    dimensions: Seq::empty(),
                    leading_comments: Seq::empty(),
                },
                i + ("parameter "@ + t + " "@ + n + " = "@ + v).len(),
            ),
        ),
{
    reveal_strlit("parameter ");
    reveal_strlit("parameter");
    reveal_strlit(" ");
    reveal_strlit(" = ");
    lemma_documented_type_word(t);
    let lit = "parameter "@ + t + " "@ + n + " = "@ + v;
    let f = i + lit.len();
    let a = i + 10;
    let b = a + t.len();
    let c = b + 1;
    let d = c + n.len();
    let g = d + 3;
    assert(f == g + v.len());
    assert forall|k: int| 0 <= k < lit.len() implies #[trigger] s[i + k] == lit[k] by {
        assert(s.subrange(i, f)[k] == s[i + k]);
    }
    assert forall|k: int| 0 <= k < t.len() implies #[trigger] s[a + k] == t[k] by {
        assert(s[i + (10 + k)] == lit[10 + k]);
    }
    assert forall|k: int| 0 <= k < n.len() implies #[trigger] s[c + k] == n[k] by {
        assert(s[i + (c - i + k)] == lit[c - i + k]);
    }
    assert forall|k: int| 0 <= k < v.len() implies #[trigger] s[g + k] == v[k] by {
        assert(s[i + (g - i + k)] == lit[g - i + k]);
    }
    assert(s[i + 9] == ' ') by {
        assert(s[i + 9] == lit[9]);
    }
    assert(s[b] == ' ') by {
        assert(s[i + (b - i)] == lit[b - i]);
    }
    assert(s[d] == ' ') by {
        assert(s[i + (d - i)] == lit[d - i]);
    }
    assert(s[d + 1] == '=') by {
        assert(s[i + (d + 1 - i)] == lit[d + 1 - i]);
    }
    assert(s[d + 2] == ' ') by {
        assert(s[i + (d + 2 - i)] == lit[d + 2 - i]);
    }
    // `parameter`
    assert(s.subrange(i, i + 9) =~= "parameter"@) by {
        assert forall|k: int| 0 <= k < 9 implies s.subrange(i, i + 9)[k] == "parameter"@[k] by {
            assert(s[i + k] == lit[k]);
        }
    }
    lemma_word_at(s, i, i + 9);
    assert(kw_at(s, i, "parameter"@));
    assert(s[a] == t[0]);
    lemma_skip_one(s, i + 9);
    // the type keyword
    assert(s.subrange(a, b) =~= t) by {
        assert forall|k: int| 0 <= k < t.len() implies s.subrange(a, b)[k] == t[k] by {
            assert(s[a + k] == t[k]);
        }
    }
    lemma_word_at(s, a, b);
    assert(s[c] == n[0]) by {
        assert(s[c + 0] == n[0]);
    }
    lemma_skip_one(s, b);
    // the name
    assert(s.subrange(c, d) =~= n) by {
        assert forall|k: int| 0 <= k < n.len() implies s.subrange(c, d)[k] == n[k] by {
            assert(s[c + k] == n[k]);
        }
    }
    lemma_word_at(s, c, d);
    assert(parse_param_types(s, c, Some(t)) == (Some(t), c));
    assert(parse_param_types(s, a, None) == (Some(t), c));
    assert(!char_at(s, c, '['));
    assert(parse_dims(s, c) == Ok::<(Seq<SpecDimension>, int, int), SpecFailure>(
        (Seq::empty(), c, c),
    ));
    lemma_skip_one(s, d);
    assert(char_at(s, d + 1, '='));
    // the value
    assert(s[g] == v[0]) by {
        assert(s[g + 0] == v[0]);
    }
    assert(is_plain_value_char(v[0]));
    lemma_skip_one(s, d + 2);
    assert forall|j: int| g <= j < f implies #[trigger] is_plain_value_char(s[j]) by {
        assert(s[g + (j - g)] == v[j - g]);
    }
    lemma_plain_value_scan(s, g, f, g);
    assert(s.subrange(g, f) =~= v) by {
        assert forall|k: int| 0 <= k < v.len() implies s.subrange(g, f)[k] == v[k] by {
            assert(s[g + k] == v[k]);
        }
    }
    assert(is_plain_value_char(v[v.len() - 1]));
    lemma_ws_prefix_len(v, 0);
    lemma_ws_trimmed_end(v, v.len() as int);
    assert(trim(v) =~= v);
}

/// The first name of a port declaration is read as every further name of
/// it is: it takes the declaration's direction, type and the dimensions
/// written before it (`h`), and adds the dimensions written after it. So a
/// port keeps every dimension of its declaration, those before its name
/// followed by those after it.
pub proof fn lemma_port_keeps_all_dimensions(s: Seq<char>, i: int)
    ensures
        parse_port(s, i) matches Ok((p, h, e, q)) ==> exists|k1: int, k: int|
            #![trigger parse_dims(s, k1), word(s, k)]
            {
                &&& parse_dims(s, k1) matches Ok((ds1, _e1, k1_end)) && ds1 == h.2 && k1_end == k
                &&& is_word(s, k) && p.name == word(s, k)
                &&& p.direction == h.0 && p.port_type == h.1
                &&& parse_dims(s, skip_trivia(s, word_end(s, k))) matches Ok((ds2, _e2, q2))
                    && p.dimensions == h.2 + ds2 && q2 == q
                &&& parse_continued_port(s, k, h) == Ok::<_, SpecFailure>((p, e, q))
            },
{
    if let Ok((p, h, e, q)) = parse_port(s, i) {
        let k = parse_direction_words(s, i)->Ok_0.1;
        let k2 = parse_port_types(s, k, None).1;
        let k3 = parse_dims(s, k2)->Ok_0.2;
        assert(parse_dims(s, k2) matches Ok((x, _y, z)) && x == h.2 && z == k3);
        assert(word(s, k3) == p.name);
    }
}

/// Dimensions as Verilog writes them: `[msb:lsb]` for each, one after the
/// other.
pub open spec fn written_dims(ds: Seq<SpecDimension>) -> Seq<char> {
    ds.map_values(|d: SpecDimension| "["@ + d.msb + ":"@ + d.lsb + "]"@).flatten()
}

/// A bound without whitespace, `:` or `]`.
pub open spec fn is_plain_bound(t: Seq<char>) -> bool {
    forall|j: int| 0 <= j < t.len() ==> !is_ws(#[trigger] t[j]) && t[j] != ':' && t[j] != ']'
}

proof fn lemma_find_char_at(s: Seq<char>, k: int, c: int, x: char)
    requires
        0 <= k <= c < s.len(),
        forall|j: int| k <= j < c ==> #[trigger] s[j] != x,
        s[c] == x,
    ensures
        find_char(s, k, x) == c,
    decreases c - k,
{
    if k < c {
        lemma_find_char_at(s, k + 1, c, x);
    }
}

proof fn lemma_trim_plain(t: Seq<char>)
    requires
        is_plain_bound(t),
    ensures
        trim(t) == t,
{
    if t.len() > 0 {
        assert(!is_ws(t[0]));
        assert(!is_ws(t[t.len() - 1]));
        lemma_ws_prefix_len(t, 0);
        lemma_ws_trimmed_end(t, t.len() as int);
        assert(t.subrange(0, t.len() as int) =~= t);
    } else {
        assert(ws_prefix_len(t) == 0);
        assert(ws_trimmed_end(t) == 0);
        assert(trim(t) =~= t);
    }
}

/// Dimensions written one after the other as `[msb:lsb]`, with bounds free
/// of whitespace, `:` and `]`, and not followed (directly or after trivia)
/// by a further `[`, are read back as the same dimensions; `parse_dims` then
/// gives the end of the written text and, when there are dimensions, the
/// position after the trivia that follows it.
pub proof fn lemma_dims_read_back(s: Seq<char>, k: int, ds: Seq<SpecDimension>)
    requires
        0 <= k,
        k + written_dims(ds).len() <= s.len(),
        s.subrange(k, k + written_dims(ds).len()) == written_dims(ds),
        forall|i: int|
            0 <= i < ds.len() ==> is_plain_bound(#[trigger] ds[i].msb) && is_plain_bound(
                ds[i].lsb,
            ),
        !char_at(s, k + written_dims(ds).len(), '['),
        !char_at(s, skip_trivia(s, k + written_dims(ds).len()), '['),
    ensures
        parse_dims(s, k) == Ok::<(Seq<SpecDimension>, int, int), SpecFailure>(
            (
                ds,
                k + written_dims(ds).len(),
                if ds.len() == 0 {
                    k
                } else {
                    skip_trivia(s, k + written_dims(ds).len())
                },
            ),
        ),
    decreases ds.len(),
{
    reveal_strlit("[");
    reveal_strlit(":");
    reveal_strlit("]");
    let texts = ds.map_values(|d: SpecDimension| "["@ + d.msb + ":"@ + d.lsb + "]"@);
    let f = k + written_dims(ds).len();
    if ds.len() == 0 {
        assert(written_dims(ds) =~= Seq::<char>::empty());
        assert(!char_at(s, k, '['));
        assert(ds =~= Seq::<SpecDimension>::empty());
    } else {
        let d = ds[0];
        let m = d.msb;
        let l = d.lsb;
        let g = "["@ + m + ":"@ + l + "]"@;
        let rest = ds.drop_first();
        assert(texts.drop_first() =~= rest.map_values(
            |d: SpecDimension| "["@ + d.msb + ":"@ + d.lsb + "]"@,
        ));
        assert(written_dims(ds) == g + written_dims(rest));
        let c = k + g.len() - 1;
        let cc = k + 1 + m.len();
        let w = written_dims(ds);
        assert forall|j: int| 0 <= j < w.len() implies #[trigger] s[k + j] == w[j] by {
            assert(s.subrange(k, f)[j] == s[k + j]);
        }
        assert(is_plain_bound(m) && is_plain_bound(l));
        assert(s[k] == '[') by {
            assert(s[k + 0] == w[0]);
        }
        assert(s[c] == ']') by {
            assert(s[k + (g.len() - 1)] == w[g.len() - 1]);
        }
        assert(s[cc] == ':') by {
            assert(s[k + (1 + m.len())] == w[(1 + m.len()) as int]);
        }
        assert forall|j: int| k + 1 <= j < cc implies #[trigger] s[j] == m[j - k - 1] by {
            assert(s[k + (j - k)] == w[j - k]);
        }
        assert forall|j: int| cc + 1 <= j < c implies #[trigger] s[j] == l[j - cc - 1] by {
            assert(s[k + (j - k)] == w[j - k]);
        }
        assert forall|j: int| k + 1 <= j < c implies #[trigger] s[j] != ']' by {
            if j < cc {
                assert(s[j] == m[j - k - 1]);
            } else if j > cc {
                assert(s[j] == l[j - cc - 1]);
            }
        }
        assert forall|j: int| k + 1 <= j < cc implies #[trigger] s[j] != ':' by {
            assert(s[j] == m[j - k - 1]);
        }
        lemma_find_char_at(s, k + 1, c, ']');
        lemma_find_char_at(s, k + 1, cc, ':');
        assert(s.subrange(k + 1, cc) =~= m);
        assert(s.subrange(cc + 1, c) =~= l);
        lemma_trim_plain(m);
        lemma_trim_plain(l);
        assert(dimension_of(s, k + 1, c) == d);
        // what follows the first dimension
        let k2 = c + 1;
        let wr = written_dims(rest);
        assert(f == k2 + wr.len());
        assert(s.subrange(k2, f) =~= wr) by {
            assert forall|j: int| 0 <= j < wr.len() implies s.subrange(k2, f)[j] == wr[j] by {
                assert(s[k + (g.len() + j)] == w[g.len() + j]);
            }
        }
        if rest.len() > 0 {
            let rt = rest.map_values(|d: SpecDimension| "["@ + d.msb + ":"@ + d.lsb + "]"@);
            assert(wr == rt.first() + rt.drop_first().flatten());
            assert(wr.len() > 0);
            assert(s[k2] == wr[0]) by {
                assert(s[k + (g.len() + 0)] == w[(g.len() + 0) as int]);
            }
            assert(s[k2] == '[');
            assert(comment_end(s, k2) is None);
            assert(skip_trivia(s, k2) == k2);
        } else {
            assert(wr =~= Seq::<char>::empty());
        }
        crate::parser::verilog::lemma_skip_trivia(s, k2);
        assert forall|i: int| 0 <= i < rest.len() implies is_plain_bound(#[trigger] rest[i].msb)
            && is_plain_bound(rest[i].lsb) by {
            assert(rest[i] == ds[i + 1]);
            assert(is_plain_bound(ds[i + 1].msb) && is_plain_bound(ds[i + 1].lsb));
        }
        if rest.len() > 0 {
            lemma_dims_read_back(s, k2, rest);
        } else {
            assert(rest =~= Seq::<SpecDimension>::empty());
            assert(parse_dims(s, skip_trivia(s, k2)) == Ok::<
                (Seq<SpecDimension>, int, int),
                SpecFailure,
            >((rest, skip_trivia(s, k2), skip_trivia(s, k2))));
        }
        assert(seq![d] + rest =~= ds);
        assert(char_at(s, k, '['));
        assert(find_char(s, k + 1, ']') == c);
        assert(c < s.len());
        assert(k < k2 <= s.len());
        assert(parse_dims(s, k) == Ok::<(Seq<SpecDimension>, int, int), SpecFailure>(
            (seq![dimension_of(s, k + 1, c)] + rest, f, skip_trivia(s, f)),
        ));
    }
}

/// A port declaration written `input P N U`, where `P` and `U` are lists of
/// dimensions written as `[msb:lsb]` (either may be empty) and `N` is a name
/// that is neither a direction nor a type keyword, followed by `,`, `)` or
/// `;`, declares one input port named `N`, without a type, whose dimensions
/// are those of `P` followed by those of `U`; the names after it in the same
/// declaration share `P`.
pub proof fn lemma_port_declaration_text(
    s: Seq<char>,
    i: int,
    ds1: Seq<SpecDimension>,
    n: Seq<char>,
    ds2: Seq<SpecDimension>,
)
    requires
        0 <= i,
        i + ("input "@ + written_dims(ds1) + " "@ + n + " "@ + written_dims(ds2)).len() < s.len(),
        s.subrange(
            i,
            i + ("input "@ + written_dims(ds1) + " "@ + n + " "@ + written_dims(ds2)).len(),
        ) == "input "@ + written_dims(ds1) + " "@ + n + " "@ + written_dims(ds2),
        forall|k: int|
            0 <= k < ds1.len() ==> is_plain_bound(#[trigger] ds1[k].msb) && is_plain_bound(
                ds1[k].lsb,
            ),
        forall|k: int|
            0 <= k < ds2.len() ==> is_plain_bound(#[trigger] ds2[k].msb) && is_plain_bound(
                ds2[k].lsb,
            ),
        is_identifier(n),
        !is_direction_word(n),
        !is_type_text(n),
        ({
            let f = i + ("input "@ + written_dims(ds1) + " "@ + n + " "@ + written_dims(ds2)).len();
            s[f] == ',' || s[f] == ')' || s[f] == ';'
        }),
    ensures
        parse_port(s, i) matches Ok((p, h, _e, q)) && p.name == n && p.direction
            == PortDirection::Input && p.port_type is None && p.dimensions == ds1 + ds2 && h == (
            PortDirection::Input,
            None::<PortType>,
            ds1,
        ) && q == i + ("input "@ + written_dims(ds1) + " "@ + n + " "@ + written_dims(ds2)).len(),
{
    reveal_strlit("input ");
    reveal_strlit("input");
    reveal_strlit(" ");
    reveal_strlit("ref");
    reveal_strlit("const");
    let w1 = written_dims(ds1);
    let w2 = written_dims(ds2);
    let lit = "input "@ + w1 + " "@ + n + " "@ + w2;
    let f = i + lit.len();
    let p1 = i + 6;
    let f1 = p1 + w1.len();
    let p3 = f1 + 1;
    let p4 = p3 + n.len();
    let p5 = p4 + 1;
    assert(f == p5 + w2.len());
    assert forall|k: int| 0 <= k < lit.len() implies #[trigger] s[i + k] == lit[k] by {
        assert(s.subrange(i, f)[k] == s[i + k]);
    }
    assert(s.subrange(i, i + 5) =~= "input"@) by {
        assert forall|k: int| 0 <= k < 5 implies s.subrange(i, i + 5)[k] == "input"@[k] by {
            assert(s[i + k] == lit[k]);
        }
    }
    assert(s[i + 5] == ' ') by {
        assert(s[i + 5] == lit[5]);
    }
    assert(s[f1] == ' ') by {
        assert(s[i + (f1 - i)] == lit[f1 - i]);
    }
    assert(s[p4] == ' ') by {
        assert(s[i + (p4 - i)] == lit[p4 - i]);
    }
    assert(s.subrange(p1, f1) =~= w1) by {
        assert forall|k: int| 0 <= k < w1.len() implies s.subrange(p1, f1)[k] == w1[k] by {
            assert(s[i + (6 + k)] == lit[6 + k]);
        }
    }
    assert(s.subrange(p3, p4) =~= n) by {
        assert forall|k: int| 0 <= k < n.len() implies s.subrange(p3, p4)[k] == n[k] by {
            assert(s[i + (p3 - i + k)] == lit[p3 - i + k]);
        }
    }
    assert(s.subrange(p5, f) =~= w2) by {
        assert forall|k: int| 0 <= k < w2.len() implies s.subrange(p5, f)[k] == w2[k] by {
            assert(s[i + (p5 - i + k)] == lit[p5 - i + k]);
        }
    }
    assert(s[p3] == n[0]) by {
        assert(s.subrange(p3, p4)[0] == s[p3]);
    }
    // the direction
    lemma_word_at(s, i, i + 5);
    assert(is_direction_word(word(s, i)));
    lemma_word_at(s, p3, p4);
    assert(!is_ident_start('['));
    if w1.len() > 0 {
        assert(s[p1] == w1[0]) by {
            assert(s.subrange(p1, f1)[0] == s[p1]);
        }
        let t1 = ds1.map_values(|d: SpecDimension| "["@ + d.msb + ":"@ + d.lsb + "]"@);
        assert(ds1.len() > 0) by {
            if ds1.len() == 0 {
                assert(t1 =~= Seq::<Seq<char>>::empty());
            }
        }
        reveal_strlit("[");
        assert(w1 == t1.first() + t1.drop_first().flatten());
        assert(s[p1] == '[');
        lemma_skip_one(s, i + 5);
    } else {
        assert(ds1.len() == 0) by {
            if ds1.len() > 0 {
                let t1 = ds1.map_values(|d: SpecDimension| "["@ + d.msb + ":"@ + d.lsb + "]"@);
                reveal_strlit("[");
                assert(w1 == t1.first() + t1.drop_first().flatten());
            }
        }
        assert(ds1 =~= Seq::<SpecDimension>::empty());
        lemma_skip_one(s, i + 6);
        assert(skip_trivia(s, i + 5) == skip_trivia(s, i + 6));
    }
    let j = skip_trivia(s, i + 5);
    assert(j == (if w1.len() > 0 { p1 } else { p3 }));
    assert(!kw_at(s, j, "ref"@));
    assert(parse_direction_words(s, i) == Ok::<(Seq<char>, int), SpecFailure>(("input"@, j)));
    assert(parse_port_types(s, j, None) == (None::<PortType>, j));
    // the dimensions before the name
    lemma_skip_one(s, f1);
    if w1.len() > 0 {
        lemma_dims_read_back(s, p1, ds1);
    } else {
        assert(!char_at(s, p3, '['));
    }
    assert(parse_dims(s, j) matches Ok((x, _y, z)) && x == ds1 && z == p3);
    // the dimensions after the name
    assert(s[p5] == '[' || s[p5] == ',' || s[p5] == ')' || s[p5] == ';') by {
        if w2.len() > 0 {
            let t2 = ds2.map_values(|d: SpecDimension| "["@ + d.msb + ":"@ + d.lsb + "]"@);
            assert(ds2.len() > 0) by {
                if ds2.len() == 0 {
                    assert(t2 =~= Seq::<Seq<char>>::empty());
                }
            }
            reveal_strlit("[");
            assert(w2 == t2.first() + t2.drop_first().flatten());
            assert(s[p5] == w2[0]) by {
                assert(s.subrange(p5, f)[0] == s[p5]);
            }
        }
    }
    lemma_skip_one(s, p4);
    assert(comment_end(s, f) is None);
    assert(skip_trivia(s, f) == f);
    if w2.len() > 0 {
        lemma_dims_read_back(s, p5, ds2);
    } else {
        assert(ds2.len() == 0) by {
            if ds2.len() > 0 {
                let t2 = ds2.map_values(|d: SpecDimension| "["@ + d.msb + ":"@ + d.lsb + "]"@);
                reveal_strlit("[");
                assert(w2 == t2.first() + t2.drop_first().flatten());
            }
        }
        assert(ds2 =~= Seq::<SpecDimension>::empty());
    }
    assert(parse_dims(s, p5) matches Ok((x, _y, z)) && x == ds2 && z == f);
    assert(direction_of("input"@) == PortDirection::Input);
}

} // verus!
