# verilog2vhdl

Converts the module headers of Verilog / SystemVerilog sources into VHDL
entity declarations (with library clauses and an architecture stub), as a
library verified with Verus and a small command-line front end.

## Layout

- `src/parser/chars.rs` – character classes, trimming, text helpers.
- `src/parser/lexer.rs` – where comments are and what they say; `extract_comments`,
  `parse_comment_text`.
- `src/parser/verilog.rs` – the module-header grammar as a specification over
  characters, and the parser (`parse`) proved to follow it.
- `src/parser/properties.rs` – properties of parsed modules and of comment attachment.
- `src/parser/ast.rs` – the syntax tree, its models and its textual rendering.
- `src/converter/` – VHDL text of types, ports, entities and whole files.
- `app/main.rs` – command line: `verilog2vhdl [-o OUTPUT] [-e] [INPUT | -]`.

## Grammar

A source is read as text outside modules (skipped word by word) and module
definitions:

    module name [#( params )] [( ports )] [;] ... endmodule

Parameters are `[parameter|localparam] {type} {[dim]} name [= value]`; ports
are `direction {type} {[dim]} name {[dim]}`, and a bare `name {[dim]}` after a
declaration shares its direction, type and leading dimensions. Entries may be
separated by `,` or `;`. Whitespace and comments may stand between any two
tokens.

Comments are attached as follows:

- leading comments of a port or parameter: the longest run of comments before
  it in which only whitespace separates each comment from the next and the last
  one from the declaration, in source order;
- inline comment of a port: the first comment that starts on the line of the
  port's last token, after it, with only blanks, `,` or `;` in between; it
  leads no other port;
- trailing comments of a port: the comments after its inline comment (or after
  the port itself) up to the next entry, except those that lead the next port;
- header comments of a module: the run of comments right before `module`;
- body comments of a module: the comments between the end of the header and
  `endmodule`.
