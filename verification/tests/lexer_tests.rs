use verilog2vhdl::parser::{extract_comments, parse_comment_text, Comment};

#[test]
fn test_extract_line_comments() {
    let source = "// top comment\nmodule foo(input // inline comment\na); endmodule";
    let comments = extract_comments(source);
    assert!(comments.len() >= 2);
    assert!(matches!(&comments[0].2, Comment::Line(text) if text == "top comment"));
}

#[test]
fn test_extract_block_comments() {
    let source = "/* block */\nmodule foo(input a); /* inline */ endmodule";
    let comments = extract_comments(source);
    assert!(comments.len() >= 2);
    assert!(matches!(&comments[0].2, Comment::Block(text) if text == "block"));
}

#[test]
fn test_extract_multiline_block_comment() {
    let source = "/* multi\nline\ncomment */\nmodule foo(input a); endmodule";
    let comments = extract_comments(source);
    assert!(!comments.is_empty());
    assert!(matches!(&comments[0].2, Comment::Block(text) if text.contains("multi")));
}

#[test]
fn test_comments_sorted_by_position() {
    let source = "// first\nmodule foo(\n    // second\n    input a,  // third\n    output b  // fourth\n); endmodule";
    let comments = extract_comments(source);
    assert!(comments.len() >= 4);
    assert!(comments[0].0 < comments[1].0);
    assert!(comments[1].0 < comments[2].0);
    assert!(comments[2].0 < comments[3].0);
}

#[test]
fn test_no_comments() {
    let source = "module foo(input a, output b); endmodule";
    let comments = extract_comments(source);
    assert!(comments.is_empty());
}

#[test]
fn test_deduplication() {
    // A comment before a port appears at multiple grammar levels.
    // Should only appear once.
    let source = "module foo(\n    // port comment\n    input a\n); endmodule";
    let comments = extract_comments(source);
    let port_comment_count = comments
        .iter()
        .filter(|(_, _, c)| matches!(c, Comment::Line(text) if text.contains("port comment")))
        .count();
    assert_eq!(port_comment_count, 1);
}

#[test]
fn test_empty_source() {
    let comments = extract_comments("");
    assert!(comments.is_empty());
}

#[test]
fn test_comment_positions_exact() {
    let source = "// a\nmodule m(); /* b */ endmodule";
    let comments = extract_comments(source);
    assert_eq!(comments.len(), 2);
    assert_eq!((comments[0].0, comments[0].1), (0, 4));
    assert_eq!((comments[1].0, comments[1].1), (17, 24));
    assert!(matches!(&comments[1].2, Comment::Block(t) if t == "b"));
}

#[test]
fn test_comment_positions_are_bytes() {
    // "é" takes two bytes: the block comment after it starts at byte 8, not 7.
    let source = "// é\nmodule m(); /* x */ endmodule";
    let comments = extract_comments(source);
    assert_eq!(comments.len(), 2);
    assert_eq!((comments[0].0, comments[0].1), (0, 5));
    assert_eq!(comments[1].0, 18);
    assert!(matches!(&comments[0].2, Comment::Line(t) if t == "é"));
}

#[test]
fn test_unparsable_source_has_no_comments() {
    let comments = extract_comments("// c\nmodule m(input a); // no endmodule");
    assert!(comments.is_empty());
}

#[test]
fn test_unclosed_block_is_not_a_comment() {
    let comments = extract_comments("/* open\nmodule m(); endmodule");
    assert!(comments.is_empty());
}

#[test]
fn test_parse_comment_text_forms() {
    assert!(matches!(parse_comment_text("//  hello "), Comment::Line(t) if t == "hello"));
    assert!(matches!(parse_comment_text("/* block  */"), Comment::Block(t) if t == "block"));
    assert!(matches!(parse_comment_text("/**/"), Comment::Block(t) if t.is_empty()));
    assert!(matches!(parse_comment_text("  plain  "), Comment::Line(t) if t == "plain"));
    assert!(matches!(parse_comment_text("//"), Comment::Line(t) if t.is_empty()));
}
