//! One pattern for every error, and the edge cases of each rule.

use std::ops::Range;

use regex_syntax::ast::{Ast, Error, ErrorKind, Position, Span};
use regex_syntax::parser::{Parser, ParserBuilder};

fn span(range: Range<usize>) -> Span {
    let start = Position::new(range.start, 1, range.start + 1);
    let end = Position::new(range.end, 1, range.end + 1);
    Span::new(start, end)
}

fn err(range: Range<usize>, kind: ErrorKind) -> Result<Ast, Error> {
    Err(Error { span: span(range), kind })
}

fn parse(pattern: &str) -> Result<Ast, Error> {
    Parser::new().parse(pattern)
}

fn parse_verbose(pattern: &str) -> Result<Ast, Error> {
    ParserBuilder::new().ignore_space(true).build().parse(pattern)
}

#[test]
fn class_errors() {
    assert_eq!(parse(r"[\A]"), err(1..3, ErrorKind::ClassIllegal));
    assert_eq!(parse(r"[a-\pN]"), err(3..6, ErrorKind::ClassIllegal));
    assert_eq!(parse(r"[\d-\w]"), err(1..3, ErrorKind::ClassIllegal));
    assert_eq!(parse("[]"), err(0..2, ErrorKind::ClassUnclosed));
    assert_eq!(parse("[^]"), err(0..3, ErrorKind::ClassUnclosed));
    assert_eq!(parse("[a[b]"), err(0..1, ErrorKind::ClassUnclosed));
    assert_eq!(parse("[a[^b"), err(2..4, ErrorKind::ClassUnclosed));
    assert_eq!(parse("[a&&[b]"), err(0..1, ErrorKind::ClassUnclosed));
    assert_eq!(parse("[a-"), err(0..1, ErrorKind::ClassUnclosed));
    assert_eq!(parse(r"[\y]"), err(1..3, ErrorKind::EscapeUnrecognized { c: 'y' }));
}

#[test]
fn repetition_errors() {
    assert_eq!(parse("a{"), err(1..2, ErrorKind::CountedRepetitionUnclosed));
    assert_eq!(parse("a{3"), err(1..3, ErrorKind::CountedRepetitionUnclosed));
    assert_eq!(parse("a{3x}"), err(1..3, ErrorKind::CountedRepetitionUnclosed));
    assert_eq!(parse("a{3,"), err(1..4, ErrorKind::CountedRepetitionUnclosed));
    assert_eq!(parse("a{3,4x}"), err(1..5, ErrorKind::CountedRepetitionUnclosed));
    assert_eq!(parse("a{,4}"), err(2..2, ErrorKind::DecimalEmpty));
    assert_eq!(parse("a{3, }"), err(5..5, ErrorKind::DecimalEmpty));
    assert_eq!(parse("a{4294967296}"), err(2..12, ErrorKind::DecimalInvalid));
    assert!(parse("a{4294967295}").is_ok());
    assert!(parse("a{5,3}").is_ok());
}

#[test]
fn escape_errors() {
    assert_eq!(parse(r"a\"), err(1..2, ErrorKind::EscapeUnexpectedEof));
    assert_eq!(parse(r"\e"), err(0..2, ErrorKind::EscapeUnrecognized { c: 'e' }));
    assert_eq!(parse(r"\x{}"), err(2..4, ErrorKind::EscapeHexEmpty));
    assert_eq!(parse(r"\x{110000}"), err(3..9, ErrorKind::EscapeHexInvalid));
    assert_eq!(parse(r"\uDFFF"), err(2..6, ErrorKind::EscapeHexInvalid));
    assert_eq!(parse(r"\UFFFFFFFF"), err(2..10, ErrorKind::EscapeHexInvalid));
    assert_eq!(parse(r"\x0z"), err(3..4, ErrorKind::EscapeHexInvalidDigit { c: 'z' }));
    assert_eq!(parse(r"\x{0z}"), err(4..5, ErrorKind::EscapeHexInvalidDigit { c: 'z' }));
    assert_eq!(parse(r"\7"), err(0..2, ErrorKind::UnsupportedBackreference));
    assert_eq!(parse(r"[\8]"), err(1..3, ErrorKind::UnsupportedBackreference));
    assert!(parse(r"\x{0000000000061}").is_ok());
}

#[test]
fn flag_errors() {
    assert_eq!(parse("(?i-)"), err(3..4, ErrorKind::FlagDanglingNegation));
    assert_eq!(parse("(?-)"), err(2..3, ErrorKind::FlagDanglingNegation));
    assert_eq!(parse("(?-:a)"), err(2..3, ErrorKind::FlagDanglingNegation));
    assert_eq!(parse("(?i-:a)"), err(3..4, ErrorKind::FlagDanglingNegation));
    assert_eq!(parse("(?)"), err(2..2, ErrorKind::FlagMissing));
    assert_eq!(parse("a(?)b"), err(3..3, ErrorKind::FlagMissing));
    assert_eq!(
        parse("(?i-i)"),
        err(4..5, ErrorKind::FlagDuplicate { flag: 'i', original: span(2..3) })
    );
    assert_eq!(
        parse("(?i-s-m)"),
        err(5..6, ErrorKind::FlagRepeatedNegation { original: span(3..4) })
    );
    assert_eq!(parse("(?"), err(2..2, ErrorKind::FlagUnexpectedEof));
    assert_eq!(parse("a(?"), err(3..3, ErrorKind::FlagUnexpectedEof));
    assert_eq!(parse("(?i"), err(3..3, ErrorKind::FlagUnexpectedEof));
    assert_eq!(parse("(?i-"), err(4..4, ErrorKind::FlagUnexpectedEof));
    assert_eq!(parse("(?ia)"), err(3..4, ErrorKind::FlagUnrecognized { flag: 'a' }));
    assert_eq!(parse("(?P)"), err(2..3, ErrorKind::FlagUnrecognized { flag: 'P' }));
    assert!(parse("(?-i)").is_ok());
    assert!(parse("(?:)").is_ok());
}

#[test]
fn group_errors() {
    assert_eq!(parse("(?P<>a)"), err(4..4, ErrorKind::GroupNameEmpty));
    assert_eq!(parse("(?P<1>a)"), err(4..5, ErrorKind::GroupNameInvalid { c: '1' }));
    assert_eq!(parse("(?P<a-b>a)"), err(5..6, ErrorKind::GroupNameInvalid { c: '-' }));
    assert_eq!(parse("(?P<a"), err(5..5, ErrorKind::GroupNameUnexpectedEof));
    assert_eq!(parse("a(b(c"), err(3..4, ErrorKind::GroupUnclosed));
    assert_eq!(parse("(a(b)|c"), err(0..1, ErrorKind::GroupUnclosed));
    assert_eq!(parse("(?i:a"), err(0..1, ErrorKind::GroupUnclosed));
    assert_eq!(parse("(a))"), err(3..4, ErrorKind::GroupUnopened));
    assert_eq!(parse("(?i)a)"), err(5..6, ErrorKind::GroupUnopened));
    assert_eq!(parse("a(?=b)"), err(1..4, ErrorKind::UnsupportedLookAround));
    assert_eq!(parse("a(?<!b)"), err(1..5, ErrorKind::UnsupportedLookAround));
    assert!(parse("(?P<_a1>b)").is_ok());
}

#[test]
fn nest_limit_errors() {
    let parse_with = |pattern: &str, limit: u32| {
        ParserBuilder::new().nest_limit(limit).build().parse(pattern)
    };
    assert_eq!(parse_with("a", 0), err(0..1, ErrorKind::NestLimitExceeded(0)));
    assert_eq!(parse_with("(a)", 1), err(1..2, ErrorKind::NestLimitExceeded(1)));
    assert_eq!(parse_with("a+", 1), err(0..1, ErrorKind::NestLimitExceeded(1)));
    assert_eq!(parse_with("a|b", 1), err(0..1, ErrorKind::NestLimitExceeded(1)));
    assert_eq!(parse_with("[a&&b]", 1), err(1..2, ErrorKind::NestLimitExceeded(1)));
    assert_eq!(parse_with(r"[\w]", 1), err(1..3, ErrorKind::NestLimitExceeded(1)));
    // What is not well-formed is reported first.
    assert_eq!(parse_with("(", 0), err(0..1, ErrorKind::GroupUnclosed));
    let deep = "(".repeat(99) + "a" + &")".repeat(99);
    assert!(parse(&deep).is_ok());
    let deeper = "(".repeat(100) + "a" + &")".repeat(100);
    assert_eq!(parse(&deeper), err(100..101, ErrorKind::NestLimitExceeded(100)));
}

#[test]
fn verbose_mode_errors() {
    assert_eq!(parse_verbose("( "), err(0..1, ErrorKind::GroupUnclosed));
    assert_eq!(parse_verbose("[ "), err(0..2, ErrorKind::ClassUnclosed));
    assert_eq!(parse_verbose("( ?"), err(3..3, ErrorKind::FlagUnexpectedEof));
    assert_eq!(parse_verbose("( ?= a)"), err(0..4, ErrorKind::UnsupportedLookAround));
    assert_eq!(parse_verbose("a # (\n)"), {
        let start = Position::new(6, 2, 1);
        let end = Position::new(7, 2, 2);
        Err(Error { span: Span::new(start, end), kind: ErrorKind::GroupUnopened })
    });
}

#[test]
fn error_behind_wide_characters() {
    let start = Position::new(7, 1, 3);
    let end = Position::new(8, 1, 4);
    assert_eq!(
        parse("☃𝛃)"),
        Err(Error { span: Span::new(start, end), kind: ErrorKind::GroupUnopened })
    );
    let start = Position::new(3, 2, 1);
    let end = Position::new(4, 2, 2);
    assert_eq!(
        parse("é\n)"),
        Err(Error { span: Span::new(start, end), kind: ErrorKind::GroupUnopened })
    );
}
