# regex_syntax

A parser for regular expressions, written and proved in Verus. It turns a
pattern into an abstract syntax tree with exact source positions, or into an
error that says what is wrong and where.

- `src/ast.rs` and `src/ast/`: the tree, its mathematical views, and what the
  parser does to its nodes
- `src/chars.rs`, `src/text.rs`: sets of characters, positions in a text
- `src/grammar.rs` and `src/grammar/`: what the tree of a text is, rule by rule
- `src/parser.rs` and `src/parser/`: the parser, which is proved to return what
  the grammar says
- `src/laws.rs` and `src/laws/`: what holds of all patterns
- `tests/`: the parser on concrete patterns

```rust
use regex_syntax::{Parser, ParserBuilder};

let tree = Parser::new().parse("a|b*").unwrap();
let verbose = ParserBuilder::new().ignore_space(true).build();
let with_comments = verbose.parse_with_comments("a # the first letter").unwrap();
```
