//! Conversion of parsed Verilog modules into VHDL text.
pub mod module_conv;
pub mod port;
pub mod verilog_type;

pub use module_conv::{entity_only, module_to_vhdl};
pub use port::port_to_vhdl;
pub use verilog_type::VhdlType;

use vstd::prelude::*;

use crate::converter::module_conv::{architecture_text, entity_text, library_text, module_vhdl};
use crate::parser::ast::{Module, SpecModule, modules_view};

verus! {

/// The VHDL text of a sequence of modules: each module's text followed by a
/// newline.
pub open spec fn vhdl_text(ms: Seq<SpecModule>) -> Seq<char>
    decreases ms.len(),
{
    if ms.len() == 0 {
        Seq::empty()
    } else {
        vhdl_text(ms.drop_last()) + module_vhdl(ms.last()) + "\n"@
    }
}

/// The entity declarations of a sequence of modules, each followed by a
/// newline.
pub open spec fn entity_only_text(ms: Seq<SpecModule>) -> Seq<char>
    decreases ms.len(),
{
    if ms.len() == 0 {
        Seq::empty()
    } else {
        entity_only_text(ms.drop_last()) + entity_text(ms.last()) + "\n"@
    }
}

/// Convert one or more Verilog Modules to VHDL text.
pub fn convert_to_vhdl(modules: &[Module]) -> (r: String)
    ensures
        r@ == vhdl_text(modules_view(modules@)),
{
    let ghost mv = modules_view(modules@);
    let mut output = String::new();
    let mut i: usize = 0;
    while i < modules.len()
        invariant
            i <= modules@.len(),
            mv == modules_view(modules@),
            output@ == vhdl_text(mv.take(i as int)),
        decreases modules@.len() - i,
    {
        let text = module_conv::module_to_vhdl(&modules[i]);
        output.append(text.as_str());
        output.append("\n");
        proof {
            assert(mv.take(i + 1).drop_last() =~= mv.take(i as int));
        }
        i = i + 1;
    }
    proof {
        assert(mv.take(mv.len() as int) =~= mv);
    }
    output
}

/// Convert one or more Verilog Modules to VHDL entity-only text
/// (no library/use clauses, no architecture stub).
pub fn convert_to_entity_only(modules: &[Module]) -> (r: String)
    ensures
        r@ == entity_only_text(modules_view(modules@)),
{
    let ghost mv = modules_view(modules@);
    let mut output = String::new();
    let mut i: usize = 0;
    while i < modules.len()
        invariant
            i <= modules@.len(),
            mv == modules_view(modules@),
            output@ == entity_only_text(mv.take(i as int)),
        decreases modules@.len() - i,
    {
        let text = module_conv::entity_only(&modules[i]);
        output.append(text.as_str());
        output.append("\n");
        proof {
            assert(mv.take(i + 1).drop_last() =~= mv.take(i as int));
        }
        i = i + 1;
    }
    proof {
        assert(mv.take(mv.len() as int) =~= mv);
    }
    output
}

/// Converting two lists of modules one after the other gives the same text
/// as converting them together.
pub proof fn lemma_vhdl_text_concat(a: Seq<SpecModule>, b: Seq<SpecModule>)
    ensures
        vhdl_text(a + b) == vhdl_text(a) + vhdl_text(b),
    decreases b.len(),
{
    if b.len() == 0 {
        assert(a + b =~= a);
        assert(vhdl_text(a) + vhdl_text(b) =~= vhdl_text(a));
    } else {
        lemma_vhdl_text_concat(a, b.drop_last());
        assert((a + b).drop_last() =~= a + b.drop_last());
        assert((a + b).last() == b.last());
        assert(vhdl_text(a + b) =~= vhdl_text(a) + vhdl_text(b));
    }
}

/// The same holds of the entity-only conversion.
pub proof fn lemma_entity_only_text_concat(a: Seq<SpecModule>, b: Seq<SpecModule>)
    ensures
        entity_only_text(a + b) == entity_only_text(a) + entity_only_text(b),
    decreases b.len(),
{
    if b.len() == 0 {
        assert(a + b =~= a);
        assert(entity_only_text(a) + entity_only_text(b) =~= entity_only_text(a));
    } else {
        lemma_entity_only_text_concat(a, b.drop_last());
        assert((a + b).drop_last() =~= a + b.drop_last());
        assert((a + b).last() == b.last());
        assert(entity_only_text(a + b) =~= entity_only_text(a) + entity_only_text(b));
    }
}

/// The full conversion of one module is the entity-only conversion of it,
/// with the library clauses and a blank line before it and the architecture
/// stub and a newline after it.
pub proof fn lemma_full_wraps_entity_only(m: SpecModule)
    ensures
        vhdl_text(seq![m]) == library_text() + "\n"@ + "\n"@ + entity_only_text(seq![m])
            + architecture_text(m) + "\n"@,
{
    let one = seq![m];
    assert(one.drop_last() =~= Seq::<SpecModule>::empty());
    assert(vhdl_text(one.drop_last()) =~= Seq::<char>::empty());
    assert(entity_only_text(one.drop_last()) =~= Seq::<char>::empty());
    assert(one.last() == m);
    assert(vhdl_text(one) =~= library_text() + "\n"@ + "\n"@ + entity_only_text(one)
        + architecture_text(m) + "\n"@);
}

} // verus!
