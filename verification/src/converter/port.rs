//! Port conversion: Verilog Port -> VHDL port declaration string.
use vstd::prelude::*;

use crate::converter::verilog_type::{VhdlType, vhdl_type_of, vhdl_type_text};
use crate::parser::ast::{Port, PortDirection, SpecPort};

verus! {

/// The VHDL direction of a Verilog direction: references keep the direction
/// of data flow (`ref` and `const ref` read, `output ref` writes).
pub open spec fn direction_vhdl(d: PortDirection) -> Seq<char> {
    match d {
        PortDirection::Input => "in"@,
        PortDirection::Output => "out"@,
        PortDirection::Inout => "inout"@,
        PortDirection::Ref => "in"@,
        PortDirection::ConstRef => "in"@,
        PortDirection::OutputRef => "out"@,
        PortDirection::InoutRef => "inout"@,
    }
}

/// `name: direction type`
pub open spec fn port_vhdl(p: SpecPort) -> Seq<char> {
    p.name + ": "@ + direction_vhdl(p.direction) + " "@ + vhdl_type_text(
        vhdl_type_of(p.port_type, p.dimensions),
    )
}

/// Map Verilog port direction to VHDL direction.
pub fn direction_to_vhdl(direction: &PortDirection) -> (r: &'static str)
    ensures
        r@ == direction_vhdl(*direction),
{
    match direction {
        PortDirection::Input => "in",
        PortDirection::Output => "out",
        PortDirection::Inout => "inout",
        PortDirection::Ref | PortDirection::ConstRef => "in",
        PortDirection::OutputRef => "out",
        PortDirection::InoutRef => "inout",
    }
}

/// Convert a single Verilog port to a VHDL port declaration string.
pub fn port_to_vhdl(port: &Port) -> (r: String)
    ensures
        r@ == port_vhdl(port@),
{
    let vhdl_dir = direction_to_vhdl(&port.direction);
    let vhdl_type = VhdlType::from_port(port.port_type.as_ref(), port.dimensions.as_slice());
    let type_str = vhdl_type.to_vhdl_string();
    let mut r = port.name.clone();
    r.append(": ");
    r.append(vhdl_dir);
    r.append(" ");
    r.append(type_str.as_str());
    r
}

} // verus!
