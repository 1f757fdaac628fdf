use verilog2vhdl::parser::{extract_comments, parse, parse_comment_text, Comment, PortDirection, PortType};

#[test]
fn test_direction_keywords_read_back() {
    let all = [
        PortDirection::Input,
        PortDirection::Output,
        PortDirection::Inout,
        PortDirection::Ref,
        PortDirection::ConstRef,
        PortDirection::OutputRef,
        PortDirection::InoutRef,
    ];
    for d in all {
        let src = format!("module m({} x); endmodule", d.display());
        let ms = parse(&src).unwrap();
        assert_eq!(ms[0].ports[0].direction, d, "{}", src);
    }
}

#[test]
fn test_type_keywords_read_back() {
    let all = [
        PortType::Wire,
        PortType::Reg,
        PortType::Logic,
        PortType::Wand,
        PortType::Tri,
        PortType::Triand,
        PortType::Trior,
        PortType::Tri0,
        PortType::Tri1,
        PortType::Supply0,
        PortType::Supply1,
        PortType::Integer,
        PortType::Time,
        PortType::Signed,
        PortType::Unsigned,
        PortType::Packed,
    ];
    for t in all {
        let src = format!("module m(input {} x); endmodule", t.display());
        let ms = parse(&src).unwrap();
        assert_eq!(ms[0].ports[0].port_type, Some(t), "{}", src);
    }
}

#[test]
fn test_scanned_comments_agree_with_parse_comment_text() {
    let source = "// a line \nmodule m(/* b */ input x); /*c*/ endmodule // end";
    let comments = extract_comments(source);
    assert_eq!(comments.len(), 4);
    for (start, end, c) in &comments {
        let again = parse_comment_text(&source[*start..*end]);
        match (c, again) {
            (Comment::Line(a), Comment::Line(b)) => assert_eq!(a, &b),
            (Comment::Block(a), Comment::Block(b)) => assert_eq!(a, &b),
            _ => panic!("comment kinds differ"),
        }
    }
}

#[test]
fn test_comment_text_round_trip() {
    for t in ["x", "two words", "", "a/*b"] {
        assert!(matches!(parse_comment_text(&format!("//{}", t)), Comment::Line(ref s) if s == t));
        assert!(matches!(parse_comment_text(&format!("/*{}*/", t)), Comment::Block(ref s) if s == t));
    }
}

#[test]
fn test_parsed_names_are_identifiers() {
    let ms = parse("module _m$1 #(parameter W_2 = 1)(input a$b, output [1:0] c_d); endmodule").unwrap();
    assert_eq!(ms[0].name, "_m$1");
    assert_eq!(ms[0].parameters[0].name, "W_2");
    assert_eq!(ms[0].ports[0].name, "a$b");
    assert_eq!(ms[0].ports[1].name, "c_d");
}

#[test]
fn test_leading_comment_run_is_maximal() {
    let ms = parse("module m(\n/* x */ /* y */\n// z\ninput a); endmodule").unwrap();
    let cs = &ms[0].ports[0].leading_comments;
    assert_eq!(cs.len(), 3);
    assert!(matches!(&cs[0], Comment::Block(t) if t == "x"));
    assert!(matches!(&cs[1], Comment::Block(t) if t == "y"));
    assert!(matches!(&cs[2], Comment::Line(t) if t == "z"));
}
