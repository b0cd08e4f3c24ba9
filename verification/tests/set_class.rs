//! Character classes in brackets.

use std::ops::Range;

use regex_syntax::ast::{self, Ast, Position, Span};
use regex_syntax::parser::{Parser, ParserBuilder, ParserI};

fn parser(pattern: &str) -> ParserI {
    ParserI::new(Parser::new(), pattern)
}

fn parser_ignore_space(pattern: &str) -> ParserI {
    let p = ParserBuilder::new().ignore_space(true).build();
    ParserI::new(p, pattern)
}

/// Create a new span from the given offset range. This assumes a single
/// line and sets the columns based on the offsets. i.e., This only works
/// out of the box for ASCII, which is fine for most tests.
fn span(range: Range<usize>) -> Span {
    let start = Position::new(range.start, 1, range.start + 1);
    let end = Position::new(range.end, 1, range.end + 1);
    Span::new(start, end)
}

/// Create a new span for the corresponding byte range in the given string.
fn span_range(subject: &str, range: Range<usize>) -> Span {
    let start = Position {
        offset: range.start,
        line: 1 + subject[..range.start].matches('\n').count(),
        column: 1 + subject[..range.start]
            .chars()
            .rev()
            .position(|c| c == '\n')
            .unwrap_or(subject[..range.start].chars().count()),
    };
    let end = Position {
        offset: range.end,
        line: 1 + subject[..range.end].matches('\n').count(),
        column: 1 + subject[..range.end]
            .chars()
            .rev()
            .position(|c| c == '\n')
            .unwrap_or(subject[..range.end].chars().count()),
    };
    Span::new(start, end)
}

/// Create a concatenation with the given range.
fn concat(range: Range<usize>, asts: Vec<Ast>) -> Ast {
    Ast::Concat(ast::Concat { span: span(range), asts: asts })
}

fn union(span: Span, items: Vec<ast::ClassSetItem>) -> ast::ClassSetOp {
    ast::ClassSetOp::Union(ast::ClassSetUnion {
        span: span,
        items: items,
    })
}

fn intersection(
    span: Span,
    lhs: ast::ClassSetOp,
    rhs: ast::ClassSetOp,
) -> ast::ClassSetOp {
    ast::ClassSetOp::BinaryOp(ast::ClassSetBinaryOp {
        span: span,
        kind: ast::ClassSetBinaryOpKind::Intersection,
        lhs: Box::new(lhs),
        rhs: Box::new(rhs),
    })
}

fn difference(
    span: Span,
    lhs: ast::ClassSetOp,
    rhs: ast::ClassSetOp,
) -> ast::ClassSetOp {
    ast::ClassSetOp::BinaryOp(ast::ClassSetBinaryOp {
        span: span,
        kind: ast::ClassSetBinaryOpKind::Difference,
        lhs: Box::new(lhs),
        rhs: Box::new(rhs),
    })
}

fn symdifference(
    span: Span,
    lhs: ast::ClassSetOp,
    rhs: ast::ClassSetOp,
) -> ast::ClassSetOp {
    ast::ClassSetOp::BinaryOp(ast::ClassSetBinaryOp {
        span: span,
        kind: ast::ClassSetBinaryOpKind::SymmetricDifference,
        lhs: Box::new(lhs),
        rhs: Box::new(rhs),
    })
}

fn item(cls: ast::Class) -> ast::ClassSetItem {
    ast::ClassSetItem::Class(Box::new(cls))
}

fn item_ascii(cls: ast::ClassAscii) -> ast::ClassSetItem {
    ast::ClassSetItem::Ascii(cls)
}

fn lit(span: Span, c: char) -> ast::ClassSetItem {
    ast::ClassSetItem::Literal(ast::Literal {
        span: span,
        kind: ast::LiteralKind::Verbatim,
        c: c,
    })
}

fn range(span: Span, start: char, end: char) -> ast::ClassSetItem {
    let pos1 = Position {
        offset: span.start.offset + start.len_utf8(),
        column: span.start.column + 1,
        ..span.start
    };
    let pos2 = Position {
        offset: span.end.offset - end.len_utf8(),
        column: span.end.column - 1,
        ..span.end
    };
    ast::ClassSetItem::Range(ast::ClassSetRange {
        span: span,
        start: ast::Literal {
            span: Span { end: pos1, ..span },
            kind: ast::LiteralKind::Verbatim,
            c: start,
        },
        end: ast::Literal {
            span: Span { start: pos2, ..span },
            kind: ast::LiteralKind::Verbatim,
            c: end,
        },
    })
}

fn alnum(span: Span, negated: bool) -> ast::ClassAscii {
    ast::ClassAscii {
        span: span,
        kind: ast::ClassAsciiKind::Alnum,
        negated: negated,
    }
}

fn lower(span: Span, negated: bool) -> ast::ClassAscii {
    ast::ClassAscii {
        span: span,
        kind: ast::ClassAsciiKind::Lower,
        negated: negated,
    }
}

#[test]
fn parse_set_class() {
    assert_eq!(
        parser("[[:alnum:]]").parse(),
        Ok(Ast::Class(ast::Class::Bracketed(ast::ClassSet {
            span: span(0..11),
            negated: false,
            op: union(span(1..10), vec![
                item_ascii(alnum(span(1..10), false)),
            ]),
        }))));
    assert_eq!(
        parser("[[[:alnum:]]]").parse(),
        Ok(Ast::Class(ast::Class::Bracketed(ast::ClassSet {
            span: span(0..13),
            negated: false,
            op: union(span(1..12), vec![
                item(ast::Class::Bracketed(ast::ClassSet {
                    span: span(1..12),
                    negated: false,
                    op: union(span(2..11), vec![
                        item_ascii(alnum(span(2..11), false)),
                    ]),
                })),
            ]),
        }))));
    assert_eq!(
        parser("[[:alnum:]&&[:lower:]]").parse(),
        Ok(Ast::Class(ast::Class::Bracketed(ast::ClassSet {
            span: span(0..22),
            negated: false,
            op: intersection(
                span(1..21),
                union(span(1..10), vec![
                    item_ascii(alnum(span(1..10), false)),
                ]),
                union(span(12..21), vec![
                    item_ascii(lower(span(12..21), false)),
                ])
            ),
        }))));
    assert_eq!(
        parser("[[:alnum:]--[:lower:]]").parse(),
        Ok(Ast::Class(ast::Class::Bracketed(ast::ClassSet {
            span: span(0..22),
            negated: false,
            op: difference(
                span(1..21),
                union(span(1..10), vec![
                    item_ascii(alnum(span(1..10), false)),
                ]),
                union(span(12..21), vec![
                    item_ascii(lower(span(12..21), false)),
                ])
            ),
        }))));
    assert_eq!(
        parser("[[:alnum:]~~[:lower:]]").parse(),
        Ok(Ast::Class(ast::Class::Bracketed(ast::ClassSet {
            span: span(0..22),
            negated: false,
            op: symdifference(
                span(1..21),
                union(span(1..10), vec![
                    item_ascii(alnum(span(1..10), false)),
                ]),
                union(span(12..21), vec![
                    item_ascii(lower(span(12..21), false)),
                ])
            ),
        }))));

    assert_eq!(
        parser("[a]").parse(),
        Ok(Ast::Class(ast::Class::Bracketed(ast::ClassSet {
            span: span(0..3),
            negated: false,
            op: union(span(1..2), vec![lit(span(1..2), 'a')]),
        }))));
    assert_eq!(
        parser(r"[a\]]").parse(),
        Ok(Ast::Class(ast::Class::Bracketed(ast::ClassSet {
            span: span(0..5),
            negated: false,
            op: union(span(1..4), vec![
                lit(span(1..2), 'a'),
                ast::ClassSetItem::Literal(ast::Literal {
                    span: span(2..4),
                    kind: ast::LiteralKind::Punctuation,
                    c: ']',
                }),
            ]),
        }))));
    assert_eq!(
        parser(r"[a\-z]").parse(),
        Ok(Ast::Class(ast::Class::Bracketed(ast::ClassSet {
            span: span(0..6),
            negated: false,
            op: union(span(1..5), vec![
                lit(span(1..2), 'a'),
                ast::ClassSetItem::Literal(ast::Literal {
                    span: span(2..4),
                    kind: ast::LiteralKind::Punctuation,
                    c: '-',
                }),
                lit(span(4..5), 'z'),
            ]),
        }))));
    assert_eq!(
        parser("[ab]").parse(),
        Ok(Ast::Class(ast::Class::Bracketed(ast::ClassSet {
            span: span(0..4),
            negated: false,
            op: union(span(1..3), vec![
                lit(span(1..2), 'a'),
                lit(span(2..3), 'b'),
            ]),
        }))));
    assert_eq!(
        parser("[a-]").parse(),
        Ok(Ast::Class(ast::Class::Bracketed(ast::ClassSet {
            span: span(0..4),
            negated: false,
            op: union(span(1..3), vec![
                lit(span(1..2), 'a'),
                lit(span(2..3), '-'),
            ]),
        }))));
    assert_eq!(
        parser("[-a]").parse(),
        Ok(Ast::Class(ast::Class::Bracketed(ast::ClassSet {
            span: span(0..4),
            negated: false,
            op: union(span(1..3), vec![
                lit(span(1..2), '-'),
                lit(span(2..3), 'a'),
            ]),
        }))));
    assert_eq!(
        parser(r"[\pL]").parse(),
        Ok(Ast::Class(ast::Class::Bracketed(ast::ClassSet {
            span: span(0..5),
            negated: false,
            op: union(span(1..4), vec![
                item(ast::Class::Unicode(ast::ClassUnicode {
                    span: span(1..4),
                    negated: false,
                    kind: ast::ClassUnicodeKind::OneLetter('L'),
                })),
            ]),
        }))));
    assert_eq!(
        parser(r"[\w]").parse(),
        Ok(Ast::Class(ast::Class::Bracketed(ast::ClassSet {
            span: span(0..4),
            negated: false,
            op: union(span(1..3), vec![
                item(ast::Class::Perl(ast::ClassPerl {
                    span: span(1..3),
                    kind: ast::ClassPerlKind::Word,
                    negated: false,
                })),
            ]),
        }))));
    assert_eq!(
        parser(r"[a\wz]").parse(),
        Ok(Ast::Class(ast::Class::Bracketed(ast::ClassSet {
            span: span(0..6),
            negated: false,
            op: union(span(1..5), vec![
                lit(span(1..2), 'a'),
                item(ast::Class::Perl(ast::ClassPerl {
                    span: span(2..4),
                    kind: ast::ClassPerlKind::Word,
                    negated: false,
                })),
                lit(span(4..5), 'z'),
            ]),
        }))));

    assert_eq!(
        parser("[a-z]").parse(),
        Ok(Ast::Class(ast::Class::Bracketed(ast::ClassSet {
            span: span(0..5),
            negated: false,
            op: union(span(1..4), vec![
                range(span(1..4), 'a', 'z'),
            ]),
        }))));
    assert_eq!(
        parser("[a-cx-z]").parse(),
        Ok(Ast::Class(ast::Class::Bracketed(ast::ClassSet {
            span: span(0..8),
            negated: false,
            op: union(span(1..7), vec![
                range(span(1..4), 'a', 'c'),
                range(span(4..7), 'x', 'z'),
            ]),
        }))));
    assert_eq!(
        parser(r"[\w&&a-cx-z]").parse(),
        Ok(Ast::Class(ast::Class::Bracketed(ast::ClassSet {
            span: span(0..12),
            negated: false,
            op: intersection(
                span(1..11),
                union(span(1..3), vec![
                    item(ast::Class::Perl(ast::ClassPerl {
                        span: span(1..3),
                        kind: ast::ClassPerlKind::Word,
                        negated: false,
                    })),
                ]),
                union(span(5..11), vec![
                    range(span(5..8), 'a', 'c'),
                    range(span(8..11), 'x', 'z'),
                ]),
            ),
        }))));
    assert_eq!(
        parser(r"[a-cx-z&&\w]").parse(),
        Ok(Ast::Class(ast::Class::Bracketed(ast::ClassSet {
            span: span(0..12),
            negated: false,
            op: intersection(
                span(1..11),
                union(span(1..7), vec![
                    range(span(1..4), 'a', 'c'),
                    range(span(4..7), 'x', 'z'),
                ]),
                union(span(9..11), vec![
                    item(ast::Class::Perl(ast::ClassPerl {
                        span: span(9..11),
                        kind: ast::ClassPerlKind::Word,
                        negated: false,
                    })),
                ]),
            ),
        }))));
    assert_eq!(
        parser(r"[a--b--c]").parse(),
        Ok(Ast::Class(ast::Class::Bracketed(ast::ClassSet {
            span: span(0..9),
            negated: false,
            op: difference(
                span(1..8),
                difference(
                    span(1..5),
                    union(span(1..2), vec![lit(span(1..2), 'a')]),
                    union(span(4..5), vec![lit(span(4..5), 'b')]),
                ),
                union(span(7..8), vec![lit(span(7..8), 'c')]),
            ),
        }))));
    assert_eq!(
        parser(r"[a~~b~~c]").parse(),
        Ok(Ast::Class(ast::Class::Bracketed(ast::ClassSet {
            span: span(0..9),
            negated: false,
            op: symdifference(
                span(1..8),
                symdifference(
                    span(1..5),
                    union(span(1..2), vec![lit(span(1..2), 'a')]),
                    union(span(4..5), vec![lit(span(4..5), 'b')]),
                ),
                union(span(7..8), vec![lit(span(7..8), 'c')]),
            ),
        }))));
    assert_eq!(
        parser(r"[\^&&^]").parse(),
        Ok(Ast::Class(ast::Class::Bracketed(ast::ClassSet {
            span: span(0..7),
            negated: false,
            op: intersection(
                span(1..6),
                union(span(1..3), vec![
                    ast::ClassSetItem::Literal(ast::Literal {
                        span: span(1..3),
                        kind: ast::LiteralKind::Punctuation,
                        c: '^',
                    }),
                ]),
                union(span(5..6), vec![
                    lit(span(5..6), '^'),
                ]),
            ),
        }))));
    assert_eq!(
        parser(r"[\&&&&]").parse(),
        Ok(Ast::Class(ast::Class::Bracketed(ast::ClassSet {
            span: span(0..7),
            negated: false,
            op: intersection(
                span(1..6),
                union(span(1..3), vec![
                    ast::ClassSetItem::Literal(ast::Literal {
                        span: span(1..3),
                        kind: ast::LiteralKind::Punctuation,
                        c: '&',
                    }),
                ]),
                union(span(5..6), vec![
                    lit(span(5..6), '&'),
                ]),
            ),
        }))));
    assert_eq!(
        parser(r"[&&&&]").parse(),
        Ok(Ast::Class(ast::Class::Bracketed(ast::ClassSet {
            span: span(0..6),
            negated: false,
            op: intersection(
                span(1..5),
                intersection(
                    span(1..3),
                    union(span(1..1), vec![]),
                    union(span(3..3), vec![]),
                ),
                union(span(5..5), vec![]),
            ),
        }))));

    let pat = "[☃-⛄]";
    assert_eq!(
        parser(pat).parse(),
        Ok(Ast::Class(ast::Class::Bracketed(ast::ClassSet {
            span: span_range(pat, 0..9),
            negated: false,
            op: union(span_range(pat, 1..8), vec![
                ast::ClassSetItem::Range(ast::ClassSetRange {
                    span: span_range(pat, 1..8),
                    start: ast::Literal {
                        span: span_range(pat, 1..4),
                        kind: ast::LiteralKind::Verbatim,
                        c: '☃',
                    },
                    end: ast::Literal {
                        span: span_range(pat, 5..8),
                        kind: ast::LiteralKind::Verbatim,
                        c: '⛄',
                    },
                }),
            ]),
        }))));

    assert_eq!(
        parser(r"[]]").parse(),
        Ok(Ast::Class(ast::Class::Bracketed(ast::ClassSet {
            span: span(0..3),
            negated: false,
            op: union(span(1..2), vec![lit(span(1..2), ']')]),
        }))));
    assert_eq!(
        parser(r"[]\[]").parse(),
        Ok(Ast::Class(ast::Class::Bracketed(ast::ClassSet {
            span: span(0..5),
            negated: false,
            op: union(span(1..4), vec![
                lit(span(1..2), ']'),
                ast::ClassSetItem::Literal(ast::Literal  {
                    span: span(2..4),
                    kind: ast::LiteralKind::Punctuation,
                    c: '[',
                }),
            ]),
        }))));
    assert_eq!(
        parser(r"[\[]]").parse(),
        Ok(concat(0..5, vec![
            Ast::Class(ast::Class::Bracketed(ast::ClassSet {
                span: span(0..4),
                negated: false,
                op: union(span(1..3), vec![
                    ast::ClassSetItem::Literal(ast::Literal  {
                        span: span(1..3),
                        kind: ast::LiteralKind::Punctuation,
                        c: '[',
                    }),
                ]),
            })),
            Ast::Literal(ast::Literal {
                span: span(4..5),
                kind: ast::LiteralKind::Verbatim,
                c: ']',
            }),
        ])));

    assert_eq!(
        parser("[").parse(),
        Err(ast::Error {
            span: span(0..1),
            kind: ast::ErrorKind::ClassUnclosed,
        }));
    assert_eq!(
        parser("[[").parse(),
        Err(ast::Error {
            span: span(1..2),
            kind: ast::ErrorKind::ClassUnclosed,
        }));
    assert_eq!(
        parser("[[-]").parse(),
        Err(ast::Error {
            span: span(0..1),
            kind: ast::ErrorKind::ClassUnclosed,
        }));
    assert_eq!(
        parser("[[[:alnum:]").parse(),
        Err(ast::Error {
            span: span(1..2),
            kind: ast::ErrorKind::ClassUnclosed,
        }));
    assert_eq!(
        parser(r"[\b]").parse(),
        Err(ast::Error {
            span: span(1..3),
            kind: ast::ErrorKind::ClassIllegal,
        }));
    assert_eq!(
        parser(r"[\w-a]").parse(),
        Err(ast::Error {
            span: span(1..3),
            kind: ast::ErrorKind::ClassIllegal,
        }));
    assert_eq!(
        parser(r"[a-\w]").parse(),
        Err(ast::Error {
            span: span(3..5),
            kind: ast::ErrorKind::ClassIllegal,
        }));

    assert_eq!(
        parser_ignore_space("[a ").parse(),
        Err(ast::Error {
            span: span(0..1),
            kind: ast::ErrorKind::ClassUnclosed,
        }));
    assert_eq!(
        parser_ignore_space("[a- ").parse(),
        Err(ast::Error {
            span: span(0..1),
            kind: ast::ErrorKind::ClassUnclosed,
        }));
}
