//! Verilog type -> VHDL type mapping.
use vstd::prelude::*;

use crate::parser::ast::{Dimension, PortType, SpecDimension, dims_view};
use crate::parser::chars::chars_of;

verus! {

/// Represents a VHDL type that can be used in port declarations.
#[derive(Debug, Clone)]
pub enum VhdlType {
    /// std_logic (scalar)
    StdLogic,
    /// std_logic_vector(N-1 downto 0)
    StdLogicVector(Dimension),
    /// std_logic_vector(N downto M) for multi-dim or non-zero-based
    StdLogicVectorRange(String, String),
    /// signed(N-1 downto 0)
    Signed(Dimension),
    /// signed(N downto M)
    SignedRange(String, String),
    /// unsigned(N-1 downto 0)
    Unsigned(Dimension),
    /// unsigned(N downto M)
    UnsignedRange(String, String),
    /// integer (for parameters)
    Integer,
}

/// Model of a [`VhdlType`].
pub enum SpecVhdlType {
    StdLogic,
    StdLogicVector(SpecDimension),
    StdLogicVectorRange(Seq<char>, Seq<char>),
    Signed(SpecDimension),
    SignedRange(Seq<char>, Seq<char>),
    Unsigned(SpecDimension),
    UnsignedRange(Seq<char>, Seq<char>),
    Integer,
}

impl View for VhdlType {
    type V = SpecVhdlType;

    open spec fn view(&self) -> SpecVhdlType {
        match self {
            VhdlType::StdLogic => SpecVhdlType::StdLogic,
            VhdlType::StdLogicVector(d) => SpecVhdlType::StdLogicVector(d@),
            VhdlType::StdLogicVectorRange(m, l) => SpecVhdlType::StdLogicVectorRange(m@, l@),
            VhdlType::Signed(d) => SpecVhdlType::Signed(d@),
            VhdlType::SignedRange(m, l) => SpecVhdlType::SignedRange(m@, l@),
            VhdlType::Unsigned(d) => SpecVhdlType::Unsigned(d@),
            VhdlType::UnsignedRange(m, l) => SpecVhdlType::UnsignedRange(m@, l@),
            VhdlType::Integer => SpecVhdlType::Integer,
        }
    }
}

/// The text `0`.
pub open spec fn zero_text() -> Seq<char> {
    seq!['0']
}

/// The VHDL type of a port with this Verilog type and these dimensions.
///
/// A port without dimensions is a `std_logic`. Otherwise the first dimension
/// gives the range, and `signed` / `unsigned` ports keep their signedness;
/// every other type becomes a `std_logic_vector`. A range whose lsb is `0` is
/// kept as a dimension, any other as its two bounds.
pub open spec fn vhdl_type_of(port_type: Option<PortType>, dims: Seq<SpecDimension>) -> SpecVhdlType {
    if dims.len() == 0 {
        SpecVhdlType::StdLogic
    } else {
        let d = dims[0];
        let is_signed = port_type == Some(PortType::Signed);
        let is_unsigned = port_type == Some(PortType::Unsigned);
        if d.lsb == zero_text() {
            let z = SpecDimension { msb: d.msb, lsb: zero_text() };
            if is_signed {
                SpecVhdlType::Signed(z)
            } else if is_unsigned {
                SpecVhdlType::Unsigned(z)
            } else {
                SpecVhdlType::StdLogicVector(z)
            }
        } else {
            if is_signed {
                SpecVhdlType::SignedRange(d.msb, d.lsb)
            } else if is_unsigned {
                SpecVhdlType::UnsignedRange(d.msb, d.lsb)
            } else {
                SpecVhdlType::StdLogicVectorRange(d.msb, d.lsb)
            }
        }
    }
}

/// `name(msb downto lsb)`
pub open spec fn range_text(name: Seq<char>, msb: Seq<char>, lsb: Seq<char>) -> Seq<char> {
    name + "("@ + msb + " downto "@ + lsb + ")"@
}

/// The VHDL text of a type.
pub open spec fn vhdl_type_text(t: SpecVhdlType) -> Seq<char> {
    match t {
        SpecVhdlType::StdLogic => "std_logic"@,
        SpecVhdlType::StdLogicVector(d) => range_text("std_logic_vector"@, d.msb, d.lsb),
        SpecVhdlType::StdLogicVectorRange(m, l) => range_text("std_logic_vector"@, m, l),
        SpecVhdlType::Signed(d) => range_text("signed"@, d.msb, d.lsb),
        SpecVhdlType::SignedRange(m, l) => range_text("signed"@, m, l),
        SpecVhdlType::Unsigned(d) => range_text("unsigned"@, d.msb, d.lsb),
        SpecVhdlType::UnsignedRange(m, l) => range_text("unsigned"@, m, l),
        SpecVhdlType::Integer => "integer"@,
    }
}

/// Whether the text is `0`.
fn is_zero(s: &String) -> (b: bool)
    ensures
        b == (s@ == zero_text()),
{
    let v = chars_of(s.as_str());
    if v.len() == 1 && v[0] == '0' {
        assert(v@ =~= zero_text());
        true
    } else {
        assert(v@.len() != 1 ==> v@ != zero_text());
        false
    }
}

/// `name(msb downto lsb)`
fn range_string(name: &str, msb: &String, lsb: &String) -> (r: String)
    ensures
        r@ == range_text(name@, msb@, lsb@),
{
    let mut r = name.to_owned();
    r.append("(");
    r.append(msb.as_str());
    r.append(" downto ");
    r.append(lsb.as_str());
    r.append(")");
    r
}

impl VhdlType {
    /// Convert a Verilog port_type + dimensions to a VHDL type.
    pub fn from_port(port_type: Option<&PortType>, dimensions: &[Dimension]) -> (t: Self)
        ensures
            t@ == vhdl_type_of(
                match port_type {
                    Some(p) => Some(*p),
                    None => None,
                },
                dims_view(dimensions@),
            ),
    {
        // If no dimensions, it's a scalar -> std_logic
        if dimensions.len() == 0 {
            return VhdlType::StdLogic;
        }
        let (is_signed, is_unsigned) = match port_type {
            Some(PortType::Signed) => (true, false),
            Some(PortType::Unsigned) => (false, true),
            _ => (false, false),
        };
        // The first dimension gives the outermost range.
        let first = &dimensions[0];
        assert(dims_view(dimensions@)[0] == first@);
        if is_zero(&first.lsb) {
            let z = Dimension { msb: first.msb.clone(), lsb: "0".to_owned() };
            proof {
                reveal_strlit("0");
                assert("0"@ =~= zero_text());
            }
            if is_signed {
                VhdlType::Signed(z)
            } else if is_unsigned {
                VhdlType::Unsigned(z)
            } else {
                VhdlType::StdLogicVector(z)
            }
        } else {
            if is_signed {
                VhdlType::SignedRange(first.msb.clone(), first.lsb.clone())
            } else if is_unsigned {
                VhdlType::UnsignedRange(first.msb.clone(), first.lsb.clone())
            } else {
                VhdlType::StdLogicVectorRange(first.msb.clone(), first.lsb.clone())
            }
        }
    }

    /// Convert to VHDL type string.
    pub fn to_vhdl_string(&self) -> (r: String)
        ensures
            r@ == vhdl_type_text(self@),
    {
        match self {
            VhdlType::StdLogic => "std_logic".to_owned(),
            VhdlType::StdLogicVector(d) => range_string("std_logic_vector", &d.msb, &d.lsb),
            VhdlType::StdLogicVectorRange(m, l) => range_string("std_logic_vector", m, l),
            VhdlType::Signed(d) => range_string("signed", &d.msb, &d.lsb),
            VhdlType::SignedRange(m, l) => range_string("signed", m, l),
            VhdlType::Unsigned(d) => range_string("unsigned", &d.msb, &d.lsb),
            VhdlType::UnsignedRange(m, l) => range_string("unsigned", m, l),
            VhdlType::Integer => "integer".to_owned(),
        }
    }
}


/// The name of the VHDL vector type that a Verilog port type maps to.
pub open spec fn vector_kind(t: Option<PortType>) -> Seq<char> {
    if t == Some(PortType::Signed) {
        "signed"@
    } else if t == Some(PortType::Unsigned) {
        "unsigned"@
    } else {
        "std_logic_vector"@
    }
}

/// A port is a scalar `std_logic` exactly when it has no dimensions; a vector
/// port's VHDL type spans its first dimension, `msb downto lsb`, and is
/// `signed` or `unsigned` exactly when its Verilog type is.
pub proof fn lemma_vhdl_type_shape(t: Option<PortType>, ds: Seq<SpecDimension>)
    ensures
        (vhdl_type_of(t, ds) is StdLogic) <==> ds.len() == 0,
        ds.len() == 0 ==> vhdl_type_text(vhdl_type_of(t, ds)) == "std_logic"@,
        ds.len() > 0 ==> vhdl_type_text(vhdl_type_of(t, ds)) == range_text(
            vector_kind(t),
            ds[0].msb,
            ds[0].lsb,
        ),
{
}

} // verus!
