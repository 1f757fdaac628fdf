use verilog2vhdl::parser::{parse, Comment, Dimension, PortDirection, PortType};

#[test]
fn test_direction_display() {
    assert_eq!(PortDirection::Input.display(), "input");
    assert_eq!(PortDirection::ConstRef.display(), "const ref");
    assert_eq!(PortDirection::OutputRef.display(), "output ref");
    assert_eq!(PortDirection::InoutRef.display(), "inout ref");
}

#[test]
fn test_type_display() {
    assert_eq!(PortType::Supply0.display(), "supply0");
    assert_eq!(PortType::Unsigned.display(), "unsigned");
}

#[test]
fn test_dimension_and_comment_display() {
    let d = Dimension { msb: "W-1".to_string(), lsb: "0".to_string() };
    assert_eq!(d.display(), "[W-1:0]");
    assert_eq!(Comment::Line("x".to_string()).display(), "x");
    assert_eq!(Comment::Block("y z".to_string()).display(), "y z");
}

#[test]
fn test_port_and_module_display() {
    let ms = parse("module m(input wire [7:0] a, output b); endmodule").unwrap();
    assert_eq!(ms[0].ports[0].display(), "input a[7:0] wire");
    assert_eq!(ms[0].ports[1].display(), "output b");
    assert_eq!(ms[0].display(), "module m(input a[7:0] wire, output b)\n");
}
