use verilog2vhdl::parser::{parse, Comment, Expected, ParseError, PortDirection, PortType};

fn fails_at(input: &str, offset: usize, expected: Expected) {
    match parse(input) {
        Err(ParseError::Parse { offset: o, expected: e }) => {
            assert_eq!((o, e), (offset, expected), "input: {:?}", input);
        }
        Ok(ms) => panic!("expected an error for {:?}, got {} module(s)", input, ms.len()),
    }
}

#[test]
fn test_shared_declaration_names() {
    let ms = parse("module m(input wire [7:0] a, b, output c, d [3:0]); endmodule").unwrap();
    let ps = &ms[0].ports;
    assert_eq!(ps.len(), 4);
    assert_eq!(ps[1].name, "b");
    assert_eq!(ps[1].direction, PortDirection::Input);
    assert_eq!(ps[1].port_type, Some(PortType::Wire));
    assert_eq!(ps[1].dimensions.len(), 1);
    assert_eq!(ps[1].dimensions[0].msb, "7");
    assert_eq!(ps[3].name, "d");
    assert_eq!(ps[3].direction, PortDirection::Output);
    assert_eq!(ps[3].port_type, None);
    assert_eq!(ps[3].dimensions.len(), 1);
    assert_eq!(ps[3].dimensions[0].msb, "3");
}

#[test]
fn test_separators_are_optional() {
    let ms = parse("module m(input a input b; output c,) endmodule").unwrap();
    let names: Vec<&str> = ms[0].ports.iter().map(|p| p.name.as_str()).collect();
    assert_eq!(names, vec!["a", "b", "c"]);
}

#[test]
fn test_header_without_ports_or_semicolon() {
    let ms = parse("module top; endmodule\nmodule bare endmodule").unwrap();
    assert_eq!(ms.len(), 2);
    assert_eq!(ms[0].name, "top");
    assert!(ms[0].ports.is_empty());
    assert_eq!(ms[1].name, "bare");
}

#[test]
fn test_parameter_values() {
    let input = "module p #(parameter A = {4{1'b0}}, B = \"x,y\"; localparam int C = (1, 2) /* tail */, D = 8 /* mid */ + 1 // end\n, parameter logic [3:0] E = 4'hF, F)(); endmodule";
    let ms = parse(input).unwrap();
    let ps = &ms[0].parameters;
    assert_eq!(ps.len(), 6);
    assert_eq!(ps[0].value, "{4{1'b0}}");
    assert_eq!(ps[1].value, "\"x,y\"");
    assert_eq!(ps[2].name, "C");
    assert_eq!(ps[2].param_type.as_deref(), Some("int"));
    assert_eq!(ps[2].value, "(1, 2)");
    assert_eq!(ps[3].value, "8 /* mid */ + 1");
    assert_eq!(ps[4].param_type.as_deref(), Some("logic"));
    assert_eq!(ps[4].dimensions[0].msb, "3");
    assert_eq!(ps[4].value, "4'hF");
    assert_eq!(ps[5].name, "F");
    assert_eq!(ps[5].value, "");
}

#[test]
fn test_dimension_forms() {
    let ms = parse("module d(input [ WIDTH - 1 : 0 ] a, input [7] b, input [0:7] c); endmodule").unwrap();
    let ps = &ms[0].ports;
    assert_eq!(ps[0].dimensions[0].msb, "WIDTH - 1");
    assert_eq!(ps[0].dimensions[0].lsb, "0");
    assert_eq!(ps[1].dimensions[0].msb, "7");
    assert_eq!(ps[1].dimensions[0].lsb, "");
    assert_eq!(ps[2].dimensions[0].msb, "0");
    assert_eq!(ps[2].dimensions[0].lsb, "7");
}

#[test]
fn test_directions_and_types() {
    let ms = parse("module r(const ref a, input ref b, inout ref c, output ref d, ref e, input wire signed f); endmodule").unwrap();
    let ps = &ms[0].ports;
    assert_eq!(ps[0].direction, PortDirection::ConstRef);
    assert_eq!(ps[1].direction, PortDirection::Ref);
    assert_eq!(ps[2].direction, PortDirection::InoutRef);
    assert_eq!(ps[3].direction, PortDirection::OutputRef);
    assert_eq!(ps[4].direction, PortDirection::Ref);
    assert_eq!(ps[5].port_type, Some(PortType::Signed));
}

#[test]
fn test_leading_comment_run_and_inline() {
    let input = "module c(\n  // one\n  // two\n  input a, // after a\n  input b,\n  /* far */ input c\n); endmodule";
    let ms = parse(input).unwrap();
    let ps = &ms[0].ports;
    assert_eq!(ps[0].leading_comments.len(), 2);
    assert!(matches!(&ps[0].leading_comments[0], Comment::Line(t) if t == "one"));
    assert!(matches!(&ps[0].leading_comments[1], Comment::Line(t) if t == "two"));
    assert!(matches!(&ps[0].inline_comment, Some(Comment::Line(t)) if t == "after a"));
    assert!(ps[1].leading_comments.is_empty());
    assert!(ps[1].inline_comment.is_none());
    assert_eq!(ps[2].leading_comments.len(), 1);
    assert!(matches!(&ps[2].leading_comments[0], Comment::Block(t) if t == "far"));
}

#[test]
fn test_leading_run_in_source_order() {
    let ms = parse("module m(\n// a\n// b\ninput x\n); endmodule").unwrap();
    let p = &ms[0].ports[0];
    assert_eq!(p.leading_comments.len(), 2);
    assert!(matches!(&p.leading_comments[0], Comment::Line(t) if t == "a"));
    assert!(matches!(&p.leading_comments[1], Comment::Line(t) if t == "b"));
}

#[test]
fn test_inline_comment_after_port() {
    let ms = parse("module m(\n    input a, // note\n    input b\n); endmodule").unwrap();
    let a = &ms[0].ports[0];
    let b = &ms[0].ports[1];
    assert_eq!(a.name, "a");
    assert!(matches!(&a.inline_comment, Some(Comment::Line(t)) if t == "note"));
    assert!(b.leading_comments.is_empty());
    assert!(b.inline_comment.is_none());
}

#[test]
fn test_trailing_comments() {
    let input = "module m(\n input a // x\n // y\n , input b // z\n // w\n); endmodule";
    let ms = parse(input).unwrap();
    let a = &ms[0].ports[0];
    let b = &ms[0].ports[1];
    assert!(matches!(&a.inline_comment, Some(Comment::Line(t)) if t == "x"));
    assert_eq!(a.trailing_comments.len(), 1);
    assert!(matches!(&a.trailing_comments[0], Comment::Line(t) if t == "y"));
    assert!(b.leading_comments.is_empty());
    assert!(matches!(&b.inline_comment, Some(Comment::Line(t)) if t == "z"));
    assert_eq!(b.trailing_comments.len(), 1);
    assert!(matches!(&b.trailing_comments[0], Comment::Line(t) if t == "w"));
}

#[test]
fn test_header_and_body_comments() {
    let input = "// file\n\n/* top */\n// header\nmodule m(input a);\n  // inside\n  wire w; /* more */\nendmodule";
    let ms = parse(input).unwrap();
    let m = &ms[0];
    assert_eq!(m.header_comments.len(), 3);
    assert!(matches!(&m.header_comments[0], Comment::Line(t) if t == "file"));
    assert!(matches!(&m.header_comments[1], Comment::Block(t) if t == "top"));
    assert!(matches!(&m.header_comments[2], Comment::Line(t) if t == "header"));
    assert_eq!(m.body_comments.len(), 2);
    assert!(matches!(&m.body_comments[0], Comment::Line(t) if t == "inside"));
    assert!(matches!(&m.body_comments[1], Comment::Block(t) if t == "more"));
}

#[test]
fn test_parameter_leading_comment() {
    let ms = parse("module q #(\n  // width\n  parameter W = 8\n)(); endmodule").unwrap();
    assert!(matches!(&ms[0].parameters[0].leading_comments[0], Comment::Line(t) if t == "width"));
}

#[test]
fn test_text_without_modules() {
    let ms = parse("`timescale 1ns/1ps\n// only a comment\n`define W 8\n").unwrap();
    assert!(ms.is_empty());
    assert!(parse("").unwrap().is_empty());
}

#[test]
fn test_body_is_skipped() {
    let input = "module b(input a); wire x; // endmodule in a comment\n assign x = a; endmodule module c(); endmodule";
    let ms = parse(input).unwrap();
    assert_eq!(ms.len(), 2);
    assert_eq!(ms[1].name, "c");
}

#[test]
fn test_error_module_name() {
    fails_at("module (input a); endmodule", 7, Expected::ModuleName);
}

#[test]
fn test_error_port_direction() {
    fails_at("module m(wire a); endmodule", 9, Expected::PortDirection);
    fails_at("module m(a, b); endmodule", 9, Expected::PortDirection);
    fails_at("module m(const a); endmodule", 15, Expected::PortDirection);
}

#[test]
fn test_error_port_name() {
    fails_at("module m(input [3:0] ); endmodule", 21, Expected::PortName);
}

#[test]
fn test_error_parameter_name() {
    fails_at("module m #(= 3)(); endmodule", 11, Expected::ParameterName);
}

#[test]
fn test_error_symbol() {
    fails_at("module m # input a; endmodule", 11, Expected::Symbol('('));
}

#[test]
fn test_error_closing_bracket() {
    fails_at("module m(input [3:0 a); endmodule", 15, Expected::ClosingBracket);
}

#[test]
fn test_error_end_module() {
    let input = "module m(input a);";
    fails_at(input, input.chars().count(), Expected::EndModule);
}
