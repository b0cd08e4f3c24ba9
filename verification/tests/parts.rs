//! The parts of the library on their own.

use std::ops::Range;

use either::Either;
use regex_syntax::ast::{
    Alternation, Ast, Class, ClassAsciiKind, ClassPerl, ClassPerlKind, ClassSetBinaryOpKind,
    ClassSetItem, ClassSetOp, ClassSetUnion, Concat, Error, ErrorKind, Flag, Flags, FlagsItem,
    FlagsItemKind, Group, GroupKind, HexLiteralKind, Literal, LiteralKind, Position,
    RepetitionKind, Span,
};
use regex_syntax::chars::{is_capture_char, is_hex, is_punct, is_whitespace, CharSet};
use regex_syntax::parser::nest::{error_if_nested, error_if_nested_class, error_if_nested_class_op};
use regex_syntax::parser::{ClassState, Parser, ParserBuilder, ParserI};
use regex_syntax::primitive::Primitive;
use regex_syntax::text::char_len_utf8;

fn parser(pattern: &str) -> ParserI {
    ParserI::new(Parser::new(), pattern)
}

fn parser_verbose(pattern: &str) -> ParserI {
    ParserI::new(ParserBuilder::new().ignore_space(true).build(), pattern)
}

fn span(range: Range<usize>) -> Span {
    let start = Position::new(range.start, 1, range.start + 1);
    let end = Position::new(range.end, 1, range.end + 1);
    Span::new(start, end)
}

fn literal(c: char, at: usize) -> Literal {
    Literal { span: span(at..at + 1), kind: LiteralKind::Verbatim, c }
}

fn concat(range: Range<usize>, chars: &str) -> Concat {
    let start = range.start;
    Concat {
        span: span(range),
        asts: chars.chars().enumerate().map(|(i, c)| Ast::Literal(literal(c, start + i))).collect(),
    }
}

fn union(range: Range<usize>, chars: &str) -> ClassSetUnion {
    let mut union = ClassSetUnion { span: span(range.start..range.start), items: vec![] };
    for (i, c) in chars.chars().enumerate() {
        union.push(ClassSetItem::Literal(literal(c, range.start + i)));
    }
    union
}

#[test]
fn character_sets() {
    for n in 0..0x110000u32 {
        if let Some(c) = std::char::from_u32(n) {
            assert_eq!(is_whitespace(c), c.is_whitespace());
            assert_eq!(is_hex(c), c.is_ascii_hexdigit());
            assert_eq!(is_punct(c), r"\.+*?()|[]{}^$#&-~".contains(c));
            assert_eq!(is_capture_char(c, true), c == '_' || c.is_ascii_alphabetic());
            assert_eq!(is_capture_char(c, false), c == '_' || c.is_ascii_alphanumeric());
            assert_eq!(char_len_utf8(c), c.len_utf8());
            assert_eq!(CharSet::Octal.contains(c), c.is_digit(8));
            assert_eq!(CharSet::Decimal.contains(c), c.is_ascii_digit());
            assert_eq!(CharSet::Except('x').contains(c), c != 'x');
        }
    }
}

#[test]
fn builder_defaults() {
    let by_new = format!("{:?}", ParserBuilder::new());
    let by_default = format!("{:?}", ParserBuilder::default());
    assert_eq!(by_new, by_default);
    // Verbose mode is off.
    assert_eq!(Parser::new().parse(" "), Ok(Ast::Literal(literal(' ', 0))));
    // Octal literals are not supported.
    assert!(Parser::new().parse(r"\141").is_err());
    // Later settings replace earlier ones, and settings can be chained.
    let mut builder = ParserBuilder::new();
    builder.octal(true).ignore_space(true).nest_limit(7).ignore_space(false);
    let parser = builder.build();
    assert_eq!(parser.parse(" "), Ok(Ast::Literal(literal(' ', 0))));
    assert!(parser.parse(r"\141").is_ok());
    assert!(parser.parse("((((((a))))))").is_ok());
    assert!(parser.parse("(((((((a)))))))").is_err());
}

#[test]
fn parsers_can_be_used_again() {
    let parser = ParserBuilder::new().ignore_space(true).build();
    let first = parser.parse_with_comments("a # one");
    assert!(parser.parse("(a # two\n [b").is_err());
    assert_eq!(parser.parse_with_comments("a # one"), first);

    let mut parser = ParserI::new(parser, "(?-x)a # one");
    let first = parser.parse_with_comments();
    assert_eq!(parser.parse_with_comments(), first);
    let mut parser = parser_verbose("(a|[b # one");
    let first = parser.parse();
    assert!(first.is_err());
    assert_eq!(parser.parse(), first);
    parser.reset();
    assert_eq!(parser.pos(), Position::new(0, 1, 1));
}

#[test]
fn state_after_a_parse() {
    // The parser stays where the error was found.
    let mut p = parser("a(?x: b\n ) )c");
    assert!(p.parse().is_err());
    assert_eq!(p.pos(), Position::new(11, 2, 4));
    assert!(!p.ignore_space());
    let mut p = parser("(?x) a\n )c");
    assert!(p.parse().is_err());
    assert_eq!(p.char(), ')');
    assert!(p.ignore_space());
    let mut p = parser("(?x: a{3x}");
    assert!(p.parse().is_err());
    assert_eq!(p.char(), 'x');
    assert!(p.ignore_space());

    // What is still open stays open.
    let mut p = parser("[a[b&&c");
    assert!(p.parse_set_class().is_err());
    assert!(p.at_end());
    let unclosed = Error { span: span(2..3), kind: ErrorKind::ClassUnclosed };
    assert_eq!(p.unclosed_class_error(), unclosed);
    match p.pop_class_op(ClassSetOp::Union(union(6..6, "c"))) {
        ClassSetOp::BinaryOp(op) => assert_eq!(op.span, span(3..7)),
        other => panic!("{:?}", other),
    }
    assert_eq!(p.unclosed_class_error(), unclosed);
    let mut p = parser("(a[b[c");
    assert!(p.parse().is_err());
    let unclosed = Error { span: span(4..5), kind: ErrorKind::ClassUnclosed };
    assert_eq!(p.unclosed_class_error(), unclosed);
    let mut p = parser("(a|b{c}");
    assert!(p.parse().is_err());
    assert_eq!(
        p.pop_group_end(concat(7..7, "")),
        Err(Error { span: span(0..1), kind: ErrorKind::GroupUnclosed })
    );

    // A parse that succeeds leaves nothing open.
    let mut p = parser("(?x) (a|[b]) # c");
    assert!(p.parse().is_ok());
    assert!(p.at_end());
    assert!(p.ignore_space());
    assert_eq!(p.pop_group_end(concat(16..16, "")), Ok(Ast::Empty(span(16..16))));
    let mut p = parser("(?x: a ) b");
    assert!(p.parse().is_ok());
    assert!(!p.ignore_space());
}

#[test]
fn parse_is_parse_with_comments_without_comments() {
    for pattern in ["", "a|b*", "(?x) a # b", "[a", "(?i)[^a-z&&\\d]{2,}?"] {
        let tree = Parser::new().parse(pattern);
        let with_comments = Parser::new().parse_with_comments(pattern);
        assert_eq!(tree, with_comments.map(|x| x.ast));
    }
}

#[test]
fn moving() {
    let mut p = parser("aé\n☃");
    assert_eq!((p.offset(), p.line(), p.column()), (0, 1, 1));
    assert_eq!(p.char(), 'a');
    assert_eq!(p.char_at(0), 'a');
    assert_eq!(p.char_at(1), 'é');
    assert_eq!(p.char_at(3), '\n');
    assert_eq!(p.char_at(4), '☃');
    assert_eq!(p.char_of(3), '☃');
    assert!(!p.is_eof());
    assert_eq!(p.peek(), Some('é'));
    assert_eq!(p.span(), span(0..0));
    assert_eq!(p.span_char(), span(0..1));
    assert!(p.bump());
    assert_eq!(p.span_char().end, Position::new(3, 1, 3));
    assert!(p.bump());
    assert_eq!(p.char(), '\n');
    assert_eq!(p.span_char().end, Position::new(4, 2, 1));
    assert!(p.bump());
    assert_eq!((p.offset(), p.line(), p.column()), (4, 2, 1));
    assert_eq!(p.peek(), None);
    // At the last character the next bump returns false.
    assert!(p.is_eof());
    assert!(!p.at_end());
    assert!(!p.bump());
    assert!(p.is_eof());
    assert!(p.at_end());
    assert_eq!(p.pos(), Position::new(7, 2, 2));
    assert!(!p.bump());
    assert_eq!(p.pos(), Position::new(7, 2, 2));
    assert_eq!(p.peek(), None);
    assert_eq!(p.substring(1, 3), "é\n");
}

#[test]
fn moving_over_prefixes() {
    let mut p = parser("?P<n>");
    assert!(!p.bump_if("?<"));
    assert_eq!(p.offset(), 0);
    assert!(p.bump_if("?P<"));
    assert_eq!(p.offset(), 3);
    assert!(p.bump_if(""));
    assert!(!p.bump_if("n>n"));
    assert!(p.bump_if("n>"));
    assert!(p.is_eof());
    for (pattern, end) in [("?=a", 2), ("?!a", 2), ("?<=a", 3), ("?<!a", 3)] {
        let mut p = parser(pattern);
        assert!(p.is_lookaround_prefix());
        assert_eq!(p.offset(), end);
    }
    for pattern in ["", "?", "?<a", "?:a", "a?="] {
        let mut p = parser(pattern);
        assert!(!p.is_lookaround_prefix());
        assert_eq!(p.offset(), 0);
    }
}

#[test]
fn moving_over_space() {
    let mut p = parser(" a");
    p.bump_space();
    assert_eq!(p.offset(), 0);
    assert!(!p.ignore_space());
    let mut p = parser_verbose("\u{2003} # one\n#two\n \u{85}a b");
    assert!(p.ignore_space());
    p.bump_space();
    assert_eq!(p.char(), 'a');
    assert_eq!(p.line(), 3);
    assert!(p.bump_and_bump_space());
    assert_eq!(p.char(), 'b');
    assert!(!p.bump_and_bump_space());
    assert!(!p.bump_and_bump_space());
    let mut p = parser("  12");
    p.bump_while(CharSet::Whitespace);
    assert_eq!(p.offset(), 2);
    p.bump_while(CharSet::Decimal);
    assert!(p.is_eof());
}

#[test]
fn numbers() {
    let p = parser("0fFFFFffff100000000");
    assert_eq!(p.number(0, 0, 10), Some(0));
    assert_eq!(p.number(0, 2, 16), Some(15));
    assert_eq!(p.number(2, 10, 16), Some(u32::MAX));
    assert_eq!(p.number(10, 19, 16), None);
    assert_eq!(p.number(10, 19, 8), Some(0o100000000));
    assert_eq!(p.scalar(0, 2), Some('\u{F}'));
    assert_eq!(p.scalar(2, 10), None);
    let mut p = parser(" 17 x");
    assert_eq!(p.parse_decimal(), Ok(17));
    assert_eq!(p.char(), 'x');
    assert_eq!(HexLiteralKind::X.digits(), 2);
    assert_eq!(HexLiteralKind::UnicodeShort.digits(), 4);
    assert_eq!(HexLiteralKind::UnicodeLong.digits(), 8);
}

#[test]
fn literals_by_number() {
    let p = ParserI::new(ParserBuilder::new().octal(true).build(), "141");
    let mut p = p;
    assert_eq!(
        p.parse_octal(),
        Literal { span: span(0..3), kind: LiteralKind::Octal, c: 'a' }
    );
    let kind = HexLiteralKind::UnicodeShort;
    assert_eq!(
        parser("0061").parse_hex_digits(kind),
        Ok(Literal { span: span(0..4), kind: LiteralKind::HexFixed(kind), c: 'a' })
    );
    assert_eq!(
        parser("{61}").parse_hex_brace(kind),
        Ok(Literal { span: span(1..4), kind: LiteralKind::HexBrace(kind), c: 'a' })
    );
    assert_eq!(
        parser("u{61}").parse_hex(),
        Ok(Literal { span: span(2..5), kind: LiteralKind::HexBrace(kind), c: 'a' })
    );
    assert_eq!(
        parser("W").parse_perl_class(),
        ClassPerl { span: span(0..1), kind: ClassPerlKind::Word, negated: true }
    );
}

#[test]
fn spans_and_unions() {
    assert_eq!(Span::splat(Position::new(3, 1, 4)), span(3..3));
    assert_eq!(span(1..2).with_end(Position::new(5, 1, 6)), span(1..5));
    let union = union(1..1, "abc");
    assert_eq!(union.span, span(1..4));
    assert_eq!(union.items.len(), 3);
    assert_eq!(*ClassSetOp::Union(union).span(), span(1..4));
}

#[test]
fn flags_and_their_states() {
    let item = |at: usize, kind: FlagsItemKind| FlagsItem { span: span(at..at + 1), kind };
    let mut flags = Flags { span: span(0..0), items: vec![] };
    assert_eq!(flags.add_item(item(0, FlagsItemKind::Flag(Flag::CaseInsensitive))), None);
    assert_eq!(flags.add_item(item(1, FlagsItemKind::Negation)), None);
    assert_eq!(flags.add_item(item(2, FlagsItemKind::Flag(Flag::IgnoreWhitespace))), None);
    assert_eq!(flags.add_item(item(3, FlagsItemKind::Negation)), Some(1));
    assert_eq!(flags.add_item(item(3, FlagsItemKind::Flag(Flag::CaseInsensitive))), Some(0));
    assert_eq!(flags.items.len(), 3);
    assert_eq!(flags.flag_state(Flag::CaseInsensitive), Some(true));
    assert_eq!(flags.flag_state(Flag::IgnoreWhitespace), Some(false));
    assert_eq!(flags.flag_state(Flag::Unicode), None);
}

#[test]
fn concatenations_and_alternations_as_trees() {
    assert_eq!(concat(2..2, "").into_ast(), Ast::Empty(span(2..2)));
    assert_eq!(concat(2..3, "a").into_ast(), Ast::Literal(literal('a', 2)));
    assert_eq!(concat(2..4, "ab").into_ast(), Ast::Concat(concat(2..4, "ab")));
    let alt = |asts: Vec<Ast>| Alternation { span: span(0..9), asts };
    assert_eq!(alt(vec![]).into_ast(), Ast::Empty(span(0..9)));
    assert_eq!(alt(vec![Ast::Dot(span(1..2))]).into_ast(), Ast::Dot(span(1..2)));
    let two = || vec![Ast::Dot(span(1..2)), Ast::Dot(span(3..4))];
    assert_eq!(alt(two()).into_ast(), Ast::Alternation(alt(two())));
}

#[test]
fn names_of_ascii_classes() {
    let names = [
        ("alnum", ClassAsciiKind::Alnum),
        ("alpha", ClassAsciiKind::Alpha),
        ("ascii", ClassAsciiKind::Ascii),
        ("blank", ClassAsciiKind::Blank),
        ("cntrl", ClassAsciiKind::Cntrl),
        ("digit", ClassAsciiKind::Digit),
        ("graph", ClassAsciiKind::Graph),
        ("lower", ClassAsciiKind::Lower),
        ("print", ClassAsciiKind::Print),
        ("punct", ClassAsciiKind::Punct),
        ("space", ClassAsciiKind::Space),
        ("upper", ClassAsciiKind::Upper),
        ("word", ClassAsciiKind::Word),
        ("xdigit", ClassAsciiKind::Xdigit),
    ];
    for (name, kind) in names {
        assert_eq!(ClassAsciiKind::from_name(name), Some(kind));
        let mut p = parser(&format!("[:^{}:]", name));
        let class = p.maybe_parse_ascii_class().unwrap();
        assert_eq!((class.kind, class.negated), (kind, true));
        assert!(p.is_eof());
    }
    assert_eq!(ClassAsciiKind::from_name(""), None);
    assert_eq!(ClassAsciiKind::from_name("Alnum"), None);
}

#[test]
fn primitives() {
    let perl = ClassPerl { span: span(0..2), kind: ClassPerlKind::Digit, negated: false };
    let dot = Primitive::Dot(span(0..1));
    assert_eq!(*dot.span(), span(0..1));
    assert_eq!(Primitive::Literal(literal('a', 0)).into_class_literal(), Ok(literal('a', 0)));
    assert_eq!(
        Primitive::Perl(perl).into_class_set_item(),
        Ok(ClassSetItem::Class(Box::new(Class::Perl(perl))))
    );
    let illegal = |range: Range<usize>| Error { span: span(range), kind: ErrorKind::ClassIllegal };
    assert_eq!(Primitive::Perl(perl).into_class_literal(), Err(illegal(0..2)));
    assert_eq!(dot.clone().into_class_set_item(), Err(illegal(0..1)));
    assert_eq!(dot.into_ast(), Ast::Dot(span(0..1)));
    assert_eq!(Primitive::Perl(perl).into_ast(), Ast::Class(Class::Perl(perl)));
}

#[test]
fn openings_of_groups() {
    let mut p = parser("(?i-x)a");
    match p.parse_group() {
        Ok(Either::Left(set)) => {
            assert_eq!(set.span, span(0..6));
            assert_eq!(set.flags.flag_state(Flag::IgnoreWhitespace), Some(false));
        }
        other => panic!("{:?}", other),
    }
    assert_eq!(p.char(), ')');
    assert_eq!(p.offset(), 5);
    let mut p = parser("(?i)a");
    assert!(p.parse_group().is_ok());
    assert_eq!(p.offset(), 3);
    let mut p = parser("(?i)a");
    assert!(p.push_group(concat(0..0, "")).is_ok());
    assert_eq!(p.offset(), 4);
    let mut p = parser("(?s:a)");
    match p.parse_group() {
        Ok(Either::Right(group)) => {
            assert_eq!(group.span, span(0..1));
            assert_eq!(group.flags().unwrap().items.len(), 1);
            assert_eq!(*group.ast, Ast::Empty(span(4..4)));
        }
        other => panic!("{:?}", other),
    }
    assert_eq!(p.char(), 'a');
    match parser("(a)").parse_group() {
        Ok(Either::Right(group)) => {
            assert_eq!(group.kind, GroupKind::CaptureIndex);
            assert!(group.flags().is_none());
        }
        other => panic!("{:?}", other),
    }
}

#[test]
fn stack_of_groups() {
    // A group is closed with the branches that are open in it.
    let mut p = parser("(b|c)");
    let inner = p.push_group(concat(0..0, "")).unwrap();
    assert_eq!(inner, concat(1..1, ""));
    p.bump();
    let next = p.push_alternate(concat(1..1, "b")).unwrap();
    assert_eq!(next, concat(3..3, ""));
    p.bump();
    let outer = p.pop_group(concat(3..3, "c")).unwrap();
    assert_eq!(outer.asts.len(), 1);
    match &outer.asts[0] {
        Ast::Group(Group { span: all, ast, .. }) => {
            assert_eq!(*all, span(0..5));
            assert_eq!(*ast.span(), span(1..4));
        }
        other => panic!("{:?}", other),
    }
    assert_eq!(*p.pop_group_end(outer).unwrap().span(), span(0..5));

    // Nothing is open.
    let mut p = parser(")");
    assert_eq!(
        p.pop_group(concat(0..0, "")),
        Err(Error { span: span(0..1), kind: ErrorKind::GroupUnopened })
    );

    // Something is still open.
    let mut p = parser("(a");
    let inner = p.push_group(concat(0..0, "")).unwrap();
    p.push_or_add_alternation(concat(1..1, ""));
    p.push_or_add_alternation(concat(1..1, ""));
    assert_eq!(
        p.pop_group_end(inner),
        Err(Error { span: span(0..1), kind: ErrorKind::GroupUnclosed })
    );
}

#[test]
fn stack_of_classes() {
    let mut p = parser("[a[b]]");
    let outer = p.push_class_open(union(0..0, "")).unwrap();
    assert_eq!(outer, union(1..1, ""));
    assert_eq!(
        p.unclosed_class_error(),
        Error { span: span(0..1), kind: ErrorKind::ClassUnclosed }
    );
    let rhs = p.push_class_op(ClassSetBinaryOpKind::Difference, union(0..0, "a"));
    assert_eq!(rhs, union(1..1, ""));
    // The operator stands on its class.
    assert_eq!(
        p.unclosed_class_error(),
        Error { span: span(0..1), kind: ErrorKind::ClassUnclosed }
    );
    match p.pop_class_op(ClassSetOp::Union(union(3..3, "b"))) {
        ClassSetOp::BinaryOp(op) => {
            assert_eq!(op.span, span(0..4));
            assert_eq!(*op.lhs, ClassSetOp::Union(union(0..0, "a")));
        }
        other => panic!("{:?}", other),
    }
    // There is no operator any more.
    assert_eq!(
        p.pop_class_op(ClassSetOp::Union(union(3..3, "b"))),
        ClassSetOp::Union(union(3..3, "b"))
    );
    p.bump();
    let inner = p.push_class_open(union(1..1, "a")).unwrap();
    assert_eq!(inner, union(3..3, ""));
    let item = p.parse_set_class_range().unwrap();
    assert_eq!(item, ClassSetItem::Literal(literal('b', 3)));
    match p.pop_class(union(3..3, "b")) {
        Ok(Either::Left(union)) => {
            assert_eq!(union.span, span(1..5));
            assert_eq!(union.items.len(), 2);
        }
        other => panic!("{:?}", other),
    }
    match p.pop_class(union(1..1, "a")) {
        Ok(Either::Right(class)) => assert_eq!(*class.span(), span(0..6)),
        other => panic!("{:?}", other),
    }

    // There is no class on the stack.
    let mut p = parser("a-c]");
    assert_eq!(*p.parse_set_class_range().unwrap().span(), span(0..3));
    let rhs = p.pop_class_op(ClassSetOp::Union(union(0..0, "b")));
    assert_eq!(rhs, ClassSetOp::Union(union(0..0, "b")));
    let mut p = parser("]");
    assert_eq!(
        p.pop_class(union(0..0, "")),
        Err(Error { span: span(0..1), kind: ErrorKind::ClassUnopened })
    );
    assert_eq!(p.offset(), 0);
}

#[test]
fn frames_of_classes() {
    let set = match parser("[a]").parse_set_class() {
        Ok(Class::Bracketed(set)) => set,
        other => panic!("{:?}", other),
    };
    assert!(ClassState::Open { union: union(0..0, ""), set }.is_open());
    let lhs = ClassSetOp::Union(union(0..0, "a"));
    assert!(!ClassState::Op { kind: ClassSetBinaryOpKind::Intersection, lhs }.is_open());
}

#[test]
fn class_parser_on_its_own() {
    let mut p = parser("[^a-c]d");
    let class = p.parse_set_class().unwrap();
    assert_eq!(*class.span(), span(0..6));
    assert_eq!(p.char(), 'd');
    assert_eq!(
        parser("^").parse_set_class_item(),
        Ok(Primitive::Literal(literal('^', 0)))
    );
}

#[test]
fn repetitions_on_their_own() {
    let mut p = parser("+?a");
    let r = p.parse_uncounted_repetition(concat(0..0, "xy"), RepetitionKind::OneOrMore);
    assert_eq!(r.asts.len(), 2);
    assert_eq!(p.char(), 'a');
    let mut p = parser("{2}a");
    let r = p.parse_counted_repetition(concat(0..0, "")).unwrap();
    assert_eq!(*r.asts[0].span(), span(0..3));
    assert_eq!(p.char(), 'a');
}

#[test]
fn depth_of_trees() {
    let tree = Parser::new().parse("(a)").unwrap();
    assert_eq!(error_if_nested(&tree, 2, 0), Ok(()));
    let error = Error { span: span(1..2), kind: ErrorKind::NestLimitExceeded(2) };
    assert_eq!(error_if_nested(&tree, 2, 1), Err(error));
    let class = parser("[a[b]--c]").parse_set_class().unwrap();
    assert_eq!(error_if_nested_class(&class, 3, 0), Ok(()));
    let error = Error { span: span(2..5), kind: ErrorKind::NestLimitExceeded(2) };
    assert_eq!(error_if_nested_class(&class, 2, 0), Err(error));
    match class {
        Class::Bracketed(set) => {
            assert_eq!(error_if_nested_class_op(&set.op, 3, 0), Ok(()));
            let error = Error { span: span(1..8), kind: ErrorKind::NestLimitExceeded(1) };
            assert_eq!(error_if_nested_class_op(&set.op, 1, 1), Err(error));
        }
        other => panic!("{:?}", other),
    }
}
