use verilog2vhdl::converter::{
    convert_to_entity_only, convert_to_vhdl, entity_only, module_to_vhdl, port_to_vhdl, VhdlType,
};
use verilog2vhdl::parser::{parse, Comment, Dimension, Module, Parameter, Port, PortDirection, PortType};

fn dim(msb: &str, lsb: &str) -> Dimension {
    Dimension { msb: msb.to_string(), lsb: lsb.to_string() }
}

fn port(name: &str, direction: PortDirection, port_type: Option<PortType>, dims: Vec<Dimension>) -> Port {
    Port {
        name: name.to_string(),
        direction,
        port_type,
        dimensions: dims,
        leading_comments: Vec::new(),
        inline_comment: None,
        trailing_comments: Vec::new(),
    }
}

#[test]
fn test_readme_simple_adder() {
    let input = "module adder(\n    input wire clk,\n    input wire rst_n,\n    input wire [7:0] a,\n    input wire [7:0] b,\n    output reg [7:0] sum\n);\n    // internal logic ...\nendmodule\n";
    let modules = parse(input).unwrap();
    let expected = "library ieee;\nuse ieee.std_logic_1164.all;\nuse ieee.numeric_std.all;\n\nentity adder is\n    port (\n        clk: in std_logic;\n        rst_n: in std_logic;\n        a: in std_logic_vector(7 downto 0);\n        b: in std_logic_vector(7 downto 0);\n        sum: out std_logic_vector(7 downto 0)\n    );\nend entity adder;\n\narchitecture rtl of adder is\nbegin\n    -- Internal logic stub\nend architecture rtl;\n\n";
    assert_eq!(convert_to_vhdl(&modules), expected);
}

#[test]
fn test_readme_fifo_generics() {
    let input = "module fifo #(\n    parameter DATA_WIDTH = 8,\n    parameter ADDR_SIZE = 4\n)(\n    input wire clk,\n    input wire [DATA_WIDTH-1:0] data_in,\n    output wire [ADDR_SIZE-1:0] count\n);\nendmodule\n";
    let modules = parse(input).unwrap();
    let expected = "entity fifo is\n    generic (\n        DATA_WIDTH : integer := 8;\n        ADDR_SIZE : integer := 4\n    );\n    port (\n        clk: in std_logic;\n        data_in: in std_logic_vector(DATA_WIDTH-1 downto 0);\n        count: out std_logic_vector(ADDR_SIZE-1 downto 0)\n    );\nend entity fifo;\n";
    assert_eq!(entity_only(&modules[0]), expected);
    assert_eq!(convert_to_entity_only(&modules), format!("{}\n", expected));
}

#[test]
fn test_readme_signed_unsigned() {
    let input = "module signed_mul #(\n    parameter WIDTH = 16\n)(\n    input signed [WIDTH-1:0] a,\n    input unsigned [WIDTH-1:0] b,\n    output signed [WIDTH-1:0] result\n);\nendmodule\n";
    let modules = parse(input).unwrap();
    let out = entity_only(&modules[0]);
    assert!(out.contains("        a: in signed(WIDTH-1 downto 0);\n"));
    assert!(out.contains("        b: in unsigned(WIDTH-1 downto 0);\n"));
    assert!(out.contains("        result: out signed(WIDTH-1 downto 0)\n"));
    assert!(out.contains("        WIDTH : integer := 16\n"));
}

#[test]
fn test_from_port_scalar() {
    let t = VhdlType::from_port(Some(&PortType::Wire), &[]);
    assert_eq!(t.to_vhdl_string(), "std_logic");
}

#[test]
fn test_from_port_zero_based() {
    let t = VhdlType::from_port(None, &[dim("7", "0")]);
    assert!(matches!(&t, VhdlType::StdLogicVector(d) if d.msb == "7" && d.lsb == "0"));
    assert_eq!(t.to_vhdl_string(), "std_logic_vector(7 downto 0)");
}

#[test]
fn test_from_port_ranges() {
    let t = VhdlType::from_port(Some(&PortType::Logic), &[dim("15", "8")]);
    assert!(matches!(&t, VhdlType::StdLogicVectorRange(m, l) if m == "15" && l == "8"));
    assert_eq!(t.to_vhdl_string(), "std_logic_vector(15 downto 8)");
    let s = VhdlType::from_port(Some(&PortType::Signed), &[dim("7", "1")]);
    assert_eq!(s.to_vhdl_string(), "signed(7 downto 1)");
    let u = VhdlType::from_port(Some(&PortType::Unsigned), &[dim("N", "2")]);
    assert_eq!(u.to_vhdl_string(), "unsigned(N downto 2)");
}

#[test]
fn test_from_port_multidim_uses_first() {
    let t = VhdlType::from_port(Some(&PortType::Unsigned), &[dim("W-1", "0"), dim("3", "0")]);
    assert_eq!(t.to_vhdl_string(), "unsigned(W-1 downto 0)");
}

#[test]
fn test_integer_text() {
    assert_eq!(VhdlType::Integer.to_vhdl_string(), "integer");
}

#[test]
fn test_port_to_vhdl_directions() {
    let cases = [
        (PortDirection::Input, "in"),
        (PortDirection::Output, "out"),
        (PortDirection::Inout, "inout"),
        (PortDirection::Ref, "in"),
        (PortDirection::ConstRef, "in"),
        (PortDirection::OutputRef, "out"),
        (PortDirection::InoutRef, "inout"),
    ];
    for (d, text) in cases {
        let p = port("x", d, None, Vec::new());
        assert_eq!(port_to_vhdl(&p), format!("x: {} std_logic", text));
    }
}

#[test]
fn test_port_comments_and_param_types() {
    let mut p = port("clk", PortDirection::Input, None, Vec::new());
    p.leading_comments.push(Comment::Line("Clock".to_string()));
    let params = vec![
        Parameter {
            name: "A".to_string(),
            value: "1".to_string(),
            param_type: Some("bit".to_string()),
            dimensions: Vec::new(),
            leading_comments: Vec::new(),
        },
        Parameter {
            name: "B".to_string(),
            value: "8'hFF".to_string(),
            param_type: Some("logic".to_string()),
            dimensions: vec![dim("7", "0")],
            leading_comments: vec![Comment::Block("mask".to_string())],
        },
        Parameter {
            name: "C".to_string(),
            value: "-3".to_string(),
            param_type: Some("signed".to_string()),
            dimensions: vec![dim("3", "0")],
            leading_comments: Vec::new(),
        },
        Parameter {
            name: "D".to_string(),
            value: "5".to_string(),
            param_type: Some("int".to_string()),
            dimensions: Vec::new(),
            leading_comments: Vec::new(),
        },
    ];
    let m = Module {
        name: "m".to_string(),
        parameters: params,
        ports: vec![p],
        header_comments: Vec::new(),
        body_comments: Vec::new(),
    };
    let expected = "entity m is\n    generic (\n        A : std_logic := 1;\n                -- mask\nB : std_logic_vector(7 downto 0) := 8'hFF;\n        C : signed(3 downto 0) := -3;\n        D : integer := 5\n    );\n    port (\n        -- Clock\n        clk: in std_logic\n    );\nend entity m;\n";
    assert_eq!(entity_only(&m), expected);
    let full = module_to_vhdl(&m);
    assert!(full.starts_with("library ieee;\nuse ieee.std_logic_1164.all;\nuse ieee.numeric_std.all;\n\nentity m is\n"));
    assert!(full.ends_with("end entity m;\n\narchitecture rtl of m is\nbegin\n    -- Internal logic stub\nend architecture rtl;\n"));
}

#[test]
fn test_empty_module_list() {
    assert_eq!(convert_to_vhdl(&[]), "");
    assert_eq!(convert_to_entity_only(&[]), "");
}

#[test]
fn test_two_modules_concatenate() {
    let ms = parse("module a(input x); endmodule module b(output y); endmodule").unwrap();
    let both = convert_to_vhdl(&ms);
    let first = convert_to_vhdl(&ms[..1]);
    let second = convert_to_vhdl(&ms[1..]);
    assert_eq!(both, format!("{}{}", first, second));
    let e_both = convert_to_entity_only(&ms);
    assert_eq!(e_both, format!("{}{}", convert_to_entity_only(&ms[..1]), convert_to_entity_only(&ms[1..])));
}

#[test]
fn test_full_wraps_entity_only() {
    let ms = parse("module w(input [3:0] d); endmodule").unwrap();
    let full = convert_to_vhdl(&ms);
    let ent = convert_to_entity_only(&ms);
    let expected = format!(
        "library ieee;\nuse ieee.std_logic_1164.all;\nuse ieee.numeric_std.all;\n\n{}architecture rtl of w is\nbegin\n    -- Internal logic stub\nend architecture rtl;\n\n",
        ent
    );
    assert_eq!(full, expected);
}

#[test]
fn test_leading_run_becomes_comment_lines() {
    let ms = parse("module m(\n// a\n// b\ninput clk,\n/* c */ output q\n); endmodule").unwrap();
    let text = entity_only(&ms[0]);
    let expected = "entity m is\n    port (\n        -- a\n        -- b\n        clk: in std_logic;\n        -- c\n        q: out std_logic\n    );\nend entity m;\n";
    assert_eq!(text, expected);
}

#[test]
fn test_inline_comment_not_emitted_as_leading() {
    let ms = parse("module m(\n    input a, // note\n    input b\n); endmodule").unwrap();
    let text = entity_only(&ms[0]);
    assert_eq!(text, "entity m is\n    port (\n        a: in std_logic;\n        b: in std_logic\n    );\nend entity m;\n");
}
