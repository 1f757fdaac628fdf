//! Lexing and parsing of Verilog module definitions.
pub mod ast;
pub mod chars;
pub mod declarations;
pub mod lexer;
pub mod properties;
pub mod verilog;

pub use ast::{Comment, Dimension, Module, Parameter, Port, PortDirection, PortType, Span};
pub use lexer::{extract_comments, parse_comment_text};
pub use verilog::{parse, Expected, ParseError, VerilogParser};
