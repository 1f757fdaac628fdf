//! Module conversion: Verilog Module AST -> VHDL entity + architecture stub.
use vstd::prelude::*;

use crate::converter::port::{port_to_vhdl, port_vhdl};
use crate::parser::ast::{
    Comment, Module, Parameter, SpecComment, SpecModule, SpecParameter, SpecPort, comments_view,
};
use crate::parser::ast::join;
use crate::parser::chars::str_eq;

verus! {

/// One `-- text` line per comment, each indented and ended by a newline.
pub open spec fn comment_block(cs: Seq<SpecComment>) -> Seq<char>
    decreases cs.len(),
{
    if cs.len() == 0 {
        Seq::empty()
    } else {
        comment_block(cs.drop_last()) + "        -- "@ + cs.last().text() + "\n"@
    }
}

/// The VHDL type of a generic.
///
/// An untyped parameter is an `integer`. A typed one without dimensions is a
/// `std_logic` when its type is `bit` or `logic`, else an `integer`. A typed
/// one with dimensions is a vector over its first dimension: `signed`,
/// `unsigned`, or otherwise `std_logic_vector`.
pub open spec fn param_vhdl_type(p: SpecParameter) -> Seq<char> {
    match p.param_type {
        None => "integer"@,
        Some(t) => if p.dimensions.len() == 0 {
            if t == "int"@ {
                "integer"@
            } else if t == "bit"@ || t == "logic"@ {
                "std_logic"@
            } else {
                "integer"@
            }
        } else {
            let d = p.dimensions[0];
            let range = d.msb + " downto "@ + d.lsb;
            if t == "signed"@ {
                "signed("@ + range + ")"@
            } else if t == "unsigned"@ {
                "unsigned("@ + range + ")"@
            } else {
                "std_logic_vector("@ + range + ")"@
            }
        },
    }
}

/// A generic declaration: its comments, then `name : type := value`.
pub open spec fn param_vhdl(p: SpecParameter) -> Seq<char> {
    comment_block(p.leading_comments) + p.name + " : "@ + param_vhdl_type(p) + " := "@ + p.value
}

/// `;` and a newline between entries, a newline after the last.
pub open spec fn line_end(n: int, len: int) -> Seq<char> {
    if n < len {
        ";\n"@
    } else {
        "\n"@
    }
}

/// The first `n` generic lines of an entity.
pub open spec fn generic_lines(ps: Seq<SpecParameter>, n: int) -> Seq<char>
    decreases n,
{
    if n <= 0 || n > ps.len() {
        Seq::empty()
    } else {
        generic_lines(ps, n - 1) + "        "@ + param_vhdl(ps[n - 1]) + line_end(n, ps.len() as int)
    }
}

/// The first `n` port lines of an entity, each after its comments.
pub open spec fn port_lines(ps: Seq<SpecPort>, n: int) -> Seq<char>
    decreases n,
{
    if n <= 0 || n > ps.len() {
        Seq::empty()
    } else {
        port_lines(ps, n - 1) + comment_block(ps[n - 1].leading_comments) + "        "@ + port_vhdl(
            ps[n - 1],
        ) + line_end(n, ps.len() as int)
    }
}

/// The `generic ( ... );` clause, present when the module has parameters.
pub open spec fn generic_clause(m: SpecModule) -> Seq<char> {
    if m.parameters.len() > 0 {
        "    generic (\n"@ + generic_lines(m.parameters, m.parameters.len() as int) + "    );\n"@
    } else {
        Seq::empty()
    }
}

/// The VHDL entity declaration of a module.
pub open spec fn entity_text(m: SpecModule) -> Seq<char> {
    "entity "@ + m.name + " is\n"@ + generic_clause(m) + "    port (\n"@ + port_lines(
        m.ports,
        m.ports.len() as int,
    ) + "    );\n"@ + "end entity "@ + m.name + ";\n"@
}

/// The library and use clauses.
pub open spec fn library_text() -> Seq<char> {
    "library ieee;\nuse ieee.std_logic_1164.all;\nuse ieee.numeric_std.all;"@
}

/// The architecture stub of a module.
pub open spec fn architecture_text(m: SpecModule) -> Seq<char> {
    "architecture rtl of "@ + m.name + " is\nbegin\n    -- Internal logic stub\nend architecture rtl;\n"@
}

/// The complete VHDL text of a module: library clauses, a blank line, the
/// entity, a blank line and the architecture stub.
pub open spec fn module_vhdl(m: SpecModule) -> Seq<char> {
    library_text() + "\n"@ + "\n"@ + entity_text(m) + "\n"@ + architecture_text(m)
}

fn comment_lines(cs: &Vec<Comment>) -> (r: String)
    ensures
        r@ == comment_block(comments_view(cs@)),
{
    let ghost cv = comments_view(cs@);
    let mut r = String::new();
    let mut i: usize = 0;
    while i < cs.len()
        invariant
            i <= cs@.len(),
            cv == comments_view(cs@),
            r@ == comment_block(cv.take(i as int)),
        decreases cs@.len() - i,
    {
        r.append("        -- ");
        let t = cs[i].display();
        r.append(t.as_str());
        r.append("\n");
        proof {
            assert(cv.take(i + 1).drop_last() =~= cv.take(i as int));
        }
        i = i + 1;
    }
    proof {
        assert(cv.take(cv.len() as int) =~= cv);
    }
    r
}

/// Convert a Verilog parameter to a VHDL generic declaration.
fn param_to_vhdl(param: &Parameter) -> (r: String)
    ensures
        r@ == param_vhdl(param@),
{
    let comment = comment_lines(&param.leading_comments);
    let vhdl_type = match &param.param_type {
        None => "integer".to_owned(),
        Some(ptype) => {
            if param.dimensions.len() == 0 {
                if str_eq(ptype.as_str(), "int") {
                    "integer".to_owned()
                } else if str_eq(ptype.as_str(), "bit") || str_eq(ptype.as_str(), "logic") {
                    "std_logic".to_owned()
                } else {
                    "integer".to_owned()
                }
            } else {
                // Typed parameter with dimensions -> vector type over the first dimension
                let d = &param.dimensions[0];
                let mut r = if str_eq(ptype.as_str(), "signed") {
                    "signed(".to_owned()
                } else if str_eq(ptype.as_str(), "unsigned") {
                    "unsigned(".to_owned()
                } else {
                    "std_logic_vector(".to_owned()
                };
                r.append(d.msb.as_str());
                r.append(" downto ");
                r.append(d.lsb.as_str());
                r.append(")");
                r
            }
        },
    };
    let mut r = comment;
    r.append(param.name.as_str());
    r.append(" : ");
    r.append(vhdl_type.as_str());
    r.append(" := ");
    r.append(param.value.as_str());
    r
}

/// Generate the VHDL library and use clauses.
pub fn library_clauses() -> (r: String)
    ensures
        r@ == library_text(),
{
    "library ieee;\nuse ieee.std_logic_1164.all;\nuse ieee.numeric_std.all;".to_owned()
}

/// Generate just the entity declaration (no library/use, no architecture stub).
pub fn entity_only(module: &Module) -> (r: String)
    ensures
        r@ == entity_text(module@),
{
    let ghost m = module@;
    let mut output = "entity ".to_owned();
    output.append(module.name.as_str());
    output.append(" is\n");
    let ghost head = output@;
    // Generics (from parameters)
    if module.parameters.len() > 0 {
        output.append("    generic (\n");
        let n = module.parameters.len();
        let mut i: usize = 0;
        while i < n
            invariant
                n == module.parameters@.len(),
                m == module@,
                i <= n,
                output@ == head + "    generic (\n"@ + generic_lines(m.parameters, i as int),
            decreases n - i,
        {
            let decl = param_to_vhdl(&module.parameters[i]);
            output.append("        ");
            output.append(decl.as_str());
            if i < n - 1 {
                output.append(";\n");
            } else {
                output.append("\n");
            }
            proof {
                assert(m.parameters[i as int] == module.parameters@[i as int]@);
            }
            i = i + 1;
        }
        output.append("    );\n");
    }
    assert(output@ == head + generic_clause(m));
    let ghost head2 = output@;
    // Port declarations
    output.append("    port (\n");
    let n = module.ports.len();
    let mut i: usize = 0;
    while i < n
        invariant
            n == module.ports@.len(),
            m == module@,
            i <= n,
            output@ == head2 + "    port (\n"@ + port_lines(m.ports, i as int),
        decreases n - i,
    {
        let port = &module.ports[i];
        let comment = comment_lines(&port.leading_comments);
        let decl = port_to_vhdl(port);
        output.append(comment.as_str());
        output.append("        ");
        output.append(decl.as_str());
        if i < n - 1 {
            output.append(";\n");
        } else {
            output.append("\n");
        }
        proof {
            assert(m.ports[i as int] == module.ports@[i as int]@);
        }
        i = i + 1;
    }
    output.append("    );\n");
    output.append("end entity ");
    output.append(module.name.as_str());
    output.append(";\n");
    output
}

/// Convert a complete Verilog Module AST to a VHDL entity + architecture stub.
pub fn module_to_vhdl(module: &Module) -> (r: String)
    ensures
        r@ == module_vhdl(module@),
{
    let mut output = library_clauses();
    output.append("\n");
    // Blank line before entity
    output.append("\n");
    let entity = entity_only(module);
    output.append(entity.as_str());
    // Architecture stub
    output.append("\n");
    output.append("architecture rtl of ");
    output.append(module.name.as_str());
    output.append(" is\nbegin\n    -- Internal logic stub\nend architecture rtl;\n");
    output
}


proof fn lemma_port_lines_prefix_joined(ps: Seq<SpecPort>, n: int)
    requires
        1 <= n <= ps.len(),
        forall|i: int| 0 <= i < ps.len() ==> (#[trigger] ps[i]).leading_comments.len() == 0,
    ensures
        port_lines(ps, n) == join(
            ps.map_values(|p: SpecPort| "        "@ + port_vhdl(p)).take(n),
            ";\n"@,
        ) + line_end(n, ps.len() as int),
    decreases n,
{
    let items = ps.map_values(|p: SpecPort| "        "@ + port_vhdl(p));
    assert(comment_block(ps[n - 1].leading_comments) =~= Seq::<char>::empty());
    if n == 1 {
        assert(items.take(1) =~= seq![items[0]]);
        assert(port_lines(ps, 0) =~= Seq::<char>::empty());
    } else {
        lemma_port_lines_prefix_joined(ps, n - 1);
        assert(items.take(n).drop_last() =~= items.take(n - 1));
        assert(items.take(n).last() == items[n - 1]);
    }
}

/// When no port has leading comments, the port lines of an entity are the
/// port declarations, each indented by eight spaces, in order, joined by
/// `;` and a newline, and followed by a newline.
pub proof fn lemma_port_lines_joined(ps: Seq<SpecPort>)
    requires
        ps.len() >= 1,
        forall|i: int| 0 <= i < ps.len() ==> (#[trigger] ps[i]).leading_comments.len() == 0,
    ensures
        port_lines(ps, ps.len() as int) == join(
            ps.map_values(|p: SpecPort| "        "@ + port_vhdl(p)),
            ";\n"@,
        ) + "\n"@,
{
    lemma_port_lines_prefix_joined(ps, ps.len() as int);
    let items = ps.map_values(|p: SpecPort| "        "@ + port_vhdl(p));
    assert(items.take(ps.len() as int) =~= items);
}

proof fn lemma_generic_lines_prefix_joined(ps: Seq<SpecParameter>, n: int)
    requires
        1 <= n <= ps.len(),
    ensures
        generic_lines(ps, n) == join(
            ps.map_values(|p: SpecParameter| "        "@ + param_vhdl(p)).take(n),
            ";\n"@,
        ) + line_end(n, ps.len() as int),
    decreases n,
{
    let items = ps.map_values(|p: SpecParameter| "        "@ + param_vhdl(p));
    if n == 1 {
        assert(items.take(1) =~= seq![items[0]]);
        assert(generic_lines(ps, 0) =~= Seq::<char>::empty());
    } else {
        lemma_generic_lines_prefix_joined(ps, n - 1);
        assert(items.take(n).drop_last() =~= items.take(n - 1));
        assert(items.take(n).last() == items[n - 1]);
    }
}

/// The generic lines of an entity are the generic declarations, each
/// indented by eight spaces, in order, joined by `;` and a newline, and
/// followed by a newline.
pub proof fn lemma_generic_lines_joined(ps: Seq<SpecParameter>)
    requires
        ps.len() >= 1,
    ensures
        generic_lines(ps, ps.len() as int) == join(
            ps.map_values(|p: SpecParameter| "        "@ + param_vhdl(p)),
            ";\n"@,
        ) + "\n"@,
{
    lemma_generic_lines_prefix_joined(ps, ps.len() as int);
    let items = ps.map_values(|p: SpecParameter| "        "@ + param_vhdl(p));
    assert(items.take(ps.len() as int) =~= items);
}

proof fn lemma_port_lines_extend(ps: Seq<SpecPort>, k: int, n: int)
    requires
        0 <= k <= n <= ps.len(),
    ensures
        port_lines(ps, n) == port_lines(ps, k) + port_lines(ps, n).subrange(
            port_lines(ps, k).len() as int,
            port_lines(ps, n).len() as int,
        ),
    decreases n - k,
{
    if k < n {
        lemma_port_lines_extend(ps, k, n - 1);
        assert(port_lines(ps, n) =~= port_lines(ps, k) + port_lines(ps, n).subrange(
            port_lines(ps, k).len() as int,
            port_lines(ps, n).len() as int,
        ));
    } else {
        assert(port_lines(ps, n) =~= port_lines(ps, k) + port_lines(ps, n).subrange(
            port_lines(ps, k).len() as int,
            port_lines(ps, n).len() as int,
        ));
    }
}

proof fn lemma_port_line_in_lines(ps: Seq<SpecPort>, i: int) -> (r: (Seq<char>, Seq<char>))
    requires
        0 <= i < ps.len(),
    ensures
        port_lines(ps, ps.len() as int) == r.0 + (comment_block(ps[i].leading_comments)
            + ("        "@ + port_vhdl(ps[i]))) + r.1,
{
    let n = ps.len() as int;
    lemma_port_lines_extend(ps, i + 1, n);
    let all = port_lines(ps, n);
    let rest = all.subrange(port_lines(ps, i + 1).len() as int, all.len() as int);
    let line = comment_block(ps[i].leading_comments) + ("        "@ + port_vhdl(ps[i]));
    let le = line_end(i + 1, n);
    assert(port_lines(ps, i + 1) =~= port_lines(ps, i) + line + le);
    assert(all =~= port_lines(ps, i) + line + (le + rest));
    (port_lines(ps, i), le + rest)
}

/// In the entity of a module, each port's leading comments stand as `-- `
/// lines, indented by eight spaces and in order, directly before the port's
/// declaration line.
pub proof fn lemma_port_comments_before_declaration(m: SpecModule, i: int)
    requires
        0 <= i < m.ports.len(),
    ensures
        exists|pre: Seq<char>, post: Seq<char>|
            entity_text(m) == pre + (comment_block(m.ports[i].leading_comments) + ("        "@
                + port_vhdl(m.ports[i]))) + post,
{
    let ps = m.ports;
    let (a, b) = lemma_port_line_in_lines(ps, i);
    let line = comment_block(ps[i].leading_comments) + ("        "@ + port_vhdl(ps[i]));
    let all = port_lines(ps, ps.len() as int);
    let head = "entity "@ + m.name + " is\n"@ + generic_clause(m) + "    port (\n"@;
    let tail = "    );\n"@ + "end entity "@ + m.name + ";\n"@;
    assert(entity_text(m) =~= head + all + tail);
    assert(head + all + tail =~= (head + a) + line + (b + tail));
}

/// A generic declaration is its comment lines followed by the declaration
/// that the same parameter without comments gives; without comments there is
/// no prefix.
pub proof fn lemma_param_comment_prefix(p: SpecParameter)
    ensures
        param_vhdl(p) == comment_block(p.leading_comments) + param_vhdl(
            SpecParameter {
                name: p.name,
                value: p.value,
                param_type: p.param_type,
                dimensions: p.dimensions,
                leading_comments: Seq::empty(),
            },
        ),
        comment_block(Seq::empty()) == Seq::<char>::empty(),
{
    let q = SpecParameter {
        name: p.name,
        value: p.value,
        param_type: p.param_type,
        dimensions: p.dimensions,
        leading_comments: Seq::empty(),
    };
    assert(comment_block(Seq::<SpecComment>::empty()) =~= Seq::<char>::empty());
    assert(param_vhdl(p) =~= comment_block(p.leading_comments) + param_vhdl(q));
}

/// The VHDL type of a generic, case by case: an untyped parameter is an
/// `integer`; a typed one without dimensions is a `std_logic` when its type
/// is `bit` or `logic` and an `integer` otherwise; a typed one with
/// dimensions spans its first dimension, `msb downto lsb`, as a `signed`,
/// an `unsigned` or otherwise a `std_logic_vector`.
pub proof fn lemma_generic_type_cases(p: SpecParameter)
    ensures
        p.param_type is None ==> param_vhdl_type(p) == "integer"@,
        p.param_type == Some("bit"@) && p.dimensions.len() == 0 ==> param_vhdl_type(p)
            == "std_logic"@,
        p.param_type == Some("logic"@) && p.dimensions.len() == 0 ==> param_vhdl_type(p)
            == "std_logic"@,
        p.param_type matches Some(t) && t != "bit"@ && t != "logic"@ && p.dimensions.len() == 0
            ==> param_vhdl_type(p) == "integer"@,
        p.param_type == Some("signed"@) && p.dimensions.len() > 0 ==> param_vhdl_type(p)
            == "signed("@ + p.dimensions[0].msb + " downto "@ + p.dimensions[0].lsb + ")"@,
        p.param_type == Some("unsigned"@) && p.dimensions.len() > 0 ==> param_vhdl_type(p)
            == "unsigned("@ + p.dimensions[0].msb + " downto "@ + p.dimensions[0].lsb + ")"@,
        p.param_type matches Some(t) && t != "signed"@ && t != "unsigned"@ && p.dimensions.len()
            > 0 ==> param_vhdl_type(p) == "std_logic_vector("@ + p.dimensions[0].msb
            + " downto "@ + p.dimensions[0].lsb + ")"@,
{
    reveal_strlit("int");
    reveal_strlit("bit");
    reveal_strlit("logic");
    assert("bit"@[0] != "int"@[0]);
    assert("logic"@.len() != "int"@.len());
    reveal_strlit("signed");
    reveal_strlit("unsigned");
    assert("signed"@.len() != "unsigned"@.len());
}

} // verus!
