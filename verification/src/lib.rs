//! Conversion of Verilog / SystemVerilog module headers into VHDL entity
//! declarations.
pub mod parser;

pub mod converter;
