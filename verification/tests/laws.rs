//! What holds of all patterns, on some of them.

use regex_syntax::ast::{
    Ast, Class, ClassSetItem, ClassSetOp, ClassUnicodeKind, ErrorKind, FlagsItem, FlagsItemKind,
    GroupKind, Span,
};
use regex_syntax::chars::is_punct;
use regex_syntax::parser::{Parser, ParserBuilder};

const PATTERNS: [&str; 24] = [
    "",
    "a",
    "ab|c||d",
    "(a(?:b|)c)*",
    "*+??",
    "a{2}{3,}{4,5}?",
    "(?i)a(?-i)b",
    "(?P<name>a(?is-m:b))",
    "[]a]",
    "[^]a-z-]",
    "[a[^b[c]]d]",
    "[a&&b--c~~[d]]",
    "[&&&&]",
    "[[:alpha:][:^digit:]]",
    r"[\d\pN\p{scx=Greek}\x61-\x{7A}]",
    r"\d\W\pN\P{Greek}\p{a!=b}",
    r"\x61\u0061\U00000061\x{61}",
    r"\.\*\A\z\b\B\n\t",
    "^.$",
    "☃|[☃-⛄]é",
    "(?x) a # one\n | b # two\n\n( ?P<n> c )",
    "(?x: [ a - z ] {2} ? ) #",
    "a\nb\n(c\n)",
    "(|)(|a)(b|)",
];

/// The index of the character at the given byte offset.
fn is_position(pattern: &str, offset: usize, line: usize, column: usize) -> bool {
    if !pattern.is_char_boundary(offset) {
        return false;
    }
    let before = &pattern[..offset];
    let last = before.rsplit('\n').next().unwrap();
    line == 1 + before.matches('\n').count() && column == 1 + last.chars().count()
}

fn check_span(pattern: &str, span: &Span, lo: usize, hi: usize) {
    assert!(is_position(pattern, span.start.offset, span.start.line, span.start.column));
    assert!(is_position(pattern, span.end.offset, span.end.line, span.end.column));
    assert!(lo <= span.start.offset);
    assert!(span.start.offset <= span.end.offset);
    assert!(span.end.offset <= hi);
}

fn check_flags(pattern: &str, items: &[FlagsItem], lo: usize, hi: usize) {
    let mut lo = lo;
    for (i, item) in items.iter().enumerate() {
        check_span(pattern, &item.span, lo, hi);
        lo = item.span.end.offset;
        assert!(items[..i].iter().all(|other| other.kind != item.kind));
    }
    if let Some(last) = items.last() {
        assert_ne!(last.kind, FlagsItemKind::Negation);
    }
}

fn is_part(ast: &Ast) -> bool {
    !matches!(ast, Ast::Empty(_) | Ast::Alternation(_) | Ast::Concat(_))
}

/// Check the spans and the shape of a tree between two offsets, and return its
/// size.
fn check(pattern: &str, ast: &Ast, lo: usize, hi: usize) -> usize {
    check_span(pattern, ast.span(), lo, hi);
    let (lo, hi) = (ast.span().start.offset, ast.span().end.offset);
    match ast {
        Ast::Flags(set) => {
            check_span(pattern, &set.flags.span, lo + 1, hi - 1);
            assert!(!set.flags.items.is_empty());
            check_flags(pattern, &set.flags.items, lo + 1, hi - 1);
            1 + set.flags.items.len()
        }
        Ast::Class(class) => 1 + check_class(pattern, class, lo, hi),
        Ast::Repetition(x) => {
            check_span(pattern, &x.op.span, lo, hi);
            assert_eq!(x.span.start, x.ast.span().start);
            assert_eq!(x.span.end, x.op.span.end);
            assert!(is_part(&x.ast) || matches!(*x.ast, Ast::Empty(_)));
            1 + check(pattern, &x.ast, lo, x.op.span.start.offset)
        }
        Ast::Group(x) => {
            let inner = x.ast.span().start.offset;
            let size = match &x.kind {
                GroupKind::CaptureIndex => 0,
                GroupKind::CaptureName(name) => {
                    check_span(pattern, &name.span, lo + 1, inner - 1);
                    let text = &pattern[name.span.start.offset..name.span.end.offset];
                    assert_eq!(name.name, text);
                    name.name.chars().count()
                }
                GroupKind::NonCapturing(flags) => {
                    check_span(pattern, &flags.span, lo + 1, inner - 1);
                    check_flags(pattern, &flags.items, lo + 1, inner - 1);
                    flags.items.len()
                }
            };
            1 + size + check(pattern, &x.ast, lo + 1, hi - 1)
        }
        Ast::Alternation(x) => {
            assert!(x.asts.len() >= 2);
            assert!(x.asts.iter().all(|ast| !matches!(ast, Ast::Alternation(_))));
            1 + check_all(pattern, &x.asts, lo, hi)
        }
        Ast::Concat(x) => {
            assert!(x.asts.len() >= 2);
            assert!(x.asts.iter().all(is_part));
            1 + check_all(pattern, &x.asts, lo, hi)
        }
        _ => 1,
    }
}

fn check_all(pattern: &str, asts: &[Ast], lo: usize, hi: usize) -> usize {
    let mut lo = lo;
    let mut size = 0;
    for ast in asts {
        size += check(pattern, ast, lo, hi);
        lo = ast.span().end.offset;
    }
    size
}

fn check_class(pattern: &str, class: &Class, lo: usize, hi: usize) -> usize {
    check_span(pattern, class.span(), lo, hi);
    match class {
        Class::Perl(_) => 1,
        Class::Unicode(x) => match &x.kind {
            ClassUnicodeKind::OneLetter(_) => 2,
            ClassUnicodeKind::Named(name) => 1 + name.chars().count(),
            ClassUnicodeKind::NamedValue { name, value, .. } => {
                2 + name.chars().count() + value.chars().count()
            }
        },
        Class::Bracketed(set) => {
            if let ClassSetOp::Union(union) = &set.op {
                assert!(!union.items.is_empty());
            }
            let (lo, hi) = (set.span.start.offset, set.span.end.offset);
            1 + check_op(pattern, &set.op, lo + 1, hi - 1)
        }
    }
}

fn check_op(pattern: &str, op: &ClassSetOp, lo: usize, hi: usize) -> usize {
    check_span(pattern, op.span(), lo, hi);
    match op {
        ClassSetOp::Union(union) => {
            let mut lo = lo;
            let mut size = 1;
            for item in &union.items {
                check_span(pattern, item.span(), lo, hi);
                lo = item.span().end.offset;
                size += match item {
                    ClassSetItem::Literal(_) | ClassSetItem::Ascii(_) => 1,
                    ClassSetItem::Range(x) => {
                        assert!(x.start.span.end.offset < x.end.span.start.offset);
                        3
                    }
                    ClassSetItem::Class(class) => {
                        let span = item.span();
                        1 + check_class(pattern, class, span.start.offset, span.end.offset)
                    }
                };
            }
            size
        }
        ClassSetOp::BinaryOp(x) => {
            assert!(matches!(*x.rhs, ClassSetOp::Union(_)));
            let mid = x.lhs.span().end.offset;
            1 + check_op(pattern, &x.lhs, lo, mid) + check_op(pattern, &x.rhs, mid + 2, hi)
        }
    }
}

fn depth(ast: &Ast) -> u32 {
    match ast {
        Ast::Class(Class::Bracketed(set)) => depth_of_op(&set.op),
        Ast::Repetition(x) => 1 + depth(&x.ast),
        Ast::Group(x) => 1 + depth(&x.ast),
        Ast::Alternation(x) => 1 + x.asts.iter().map(depth).max().unwrap(),
        Ast::Concat(x) => 1 + x.asts.iter().map(depth).max().unwrap(),
        _ => 1,
    }
}

fn depth_of_op(op: &ClassSetOp) -> u32 {
    match op {
        ClassSetOp::Union(union) => {
            let depth_of_item = |item: &ClassSetItem| match item {
                ClassSetItem::Class(class) => match &**class {
                    Class::Bracketed(set) => 1 + depth_of_op(&set.op),
                    _ => 2,
                },
                _ => 1,
            };
            union.items.iter().map(depth_of_item).max().unwrap_or(1)
        }
        ClassSetOp::BinaryOp(x) => 1 + depth_of_op(&x.lhs).max(depth_of_op(&x.rhs)),
    }
}

#[test]
fn trees_are_placed_normal_and_small() {
    for pattern in PATTERNS {
        let ast = Parser::new().parse(pattern).unwrap();
        let size = check(pattern, &ast, 0, pattern.len());
        assert!(size <= 2 * pattern.chars().count() + 1);
    }
}

#[test]
fn trees_cover_their_patterns() {
    for pattern in PATTERNS {
        if !pattern.contains("(?x") {
            let ast = Parser::new().parse(pattern).unwrap();
            let end = ast.span().end;
            assert_eq!((ast.span().start.offset, end.offset), (0, pattern.len()));
            assert!(is_position(pattern, end.offset, end.line, end.column));
        }
    }
    // In verbose mode the space around a single part is not covered.
    let parser = ParserBuilder::new().ignore_space(true).build();
    let ast = parser.parse(" a ").unwrap();
    assert_eq!((ast.span().start.offset, ast.span().end.offset), (1, 2));
}

#[test]
fn errors_point_into_the_pattern() {
    for pattern in PATTERNS {
        for end in 0..pattern.len() {
            if pattern.is_char_boundary(end) {
                let cut = &pattern[..end];
                if let Err(e) = Parser::new().parse(cut) {
                    check_span(cut, &e.span, 0, cut.len());
                }
            }
        }
    }
}

#[test]
fn nest_limit_is_the_depth() {
    for pattern in PATTERNS {
        let ast = Parser::new().parse(pattern).unwrap();
        let depth = depth(&ast);
        for limit in 0..depth + 3 {
            let parser = ParserBuilder::new().nest_limit(limit).build();
            match parser.parse(pattern) {
                Ok(same) => {
                    assert!(limit >= depth);
                    assert_eq!(same, ast);
                }
                Err(e) => {
                    assert!(limit < depth);
                    assert_eq!(e.kind, ErrorKind::NestLimitExceeded(limit));
                }
            }
        }
    }
}

#[test]
fn nest_limit_of_one() {
    let parser = ParserBuilder::new().nest_limit(1).build();
    for pattern in ["", "a", ".", "^", r"\d", "[ab]", "(?i)"] {
        assert!(parser.parse(pattern).is_ok());
    }
    for pattern in ["(a)", "a+", "ab", "a|b", "[a[b]]"] {
        assert!(parser.parse(pattern).is_err());
    }
}

#[test]
fn comments_are_in_order() {
    let pattern = "#1\na # 2 # \n[b #3\n]( # 4\nc)#5";
    let parser = ParserBuilder::new().ignore_space(true).build();
    let comments = parser.parse_with_comments(pattern).unwrap().comments;
    let texts: Vec<&str> = comments.iter().map(|c| c.comment.as_str()).collect();
    assert_eq!(texts, vec!["1", " 2 # ", "3", " 4", "5"]);
    let mut end = 0;
    for comment in &comments {
        check_span(pattern, &comment.span, end, pattern.len());
        end = comment.span.end.offset;
        let text = &pattern[comment.span.start.offset..end];
        assert_eq!(text.trim_end_matches('\n'), format!("#{}", comment.comment));
    }
}

#[test]
fn no_comments_outside_verbose_mode() {
    let x = Parser::new().parse_with_comments("a # b\n(?i:#)[#]").unwrap();
    assert!(x.comments.is_empty());
    for pattern in ["x#", r"\x41 # b", "[x]#", "(?-x)#", "(?i-x:#)#", "(?P<x>#)"] {
        let x = Parser::new().parse_with_comments(pattern).unwrap();
        assert!(x.comments.is_empty());
    }
    let x = Parser::new().parse_with_comments("(?x:a # b\n)# c").unwrap();
    assert_eq!(x.comments.len(), 1);
    let x = Parser::new().parse_with_comments("(?x)(?-x:# a)# b").unwrap();
    assert_eq!(x.comments.len(), 1);
}

fn literals(ast: &Ast) -> String {
    match ast {
        Ast::Empty(_) => String::new(),
        Ast::Literal(lit) => lit.c.to_string(),
        Ast::Concat(concat) => concat.asts.iter().map(literals).collect(),
        other => panic!("{:?}", other),
    }
}

#[test]
fn quoted_text_is_literal() {
    for text in ["", "a", "a b", r"\.+*?()|[]{}^$#&-~", "# \n☃", "(?x)[a]{2}"] {
        let mut pattern = String::new();
        for c in text.chars() {
            if is_punct(c) {
                pattern.push('\\');
            }
            pattern.push(c);
        }
        let ast = Parser::new().parse(&pattern).unwrap();
        assert_eq!(literals(&ast), text);
    }
}

#[test]
fn numbered_literals_are_equivalent() {
    let parser = ParserBuilder::new().octal(true).build();
    for pattern in ["a", r"\x61", r"\u0061", r"\U00000061", r"\141", r"\x{61}", r"\u{0061}"] {
        let ast = parser.parse(pattern).unwrap();
        assert_eq!(literals(&ast), "a");
        assert_eq!(ast.span().end.offset, pattern.len());
    }
}

#[test]
fn escaped_digits_are_backreferences() {
    for digit in '0'..='9' {
        let e = Parser::new().parse(&format!(r"a\{}b", digit)).unwrap_err();
        assert_eq!(e.kind, ErrorKind::UnsupportedBackreference);
        assert_eq!((e.span.start.offset, e.span.end.offset), (1, 3));
    }
}

#[test]
fn space_is_ignored_in_verbose_mode() {
    let parser = ParserBuilder::new().ignore_space(true).build();
    for (spaced, dense) in [("{   5  , 6}", "{5,6}"), ("[ a - b ]", "[a-b]"), (" a | b ", "a|b")] {
        let spaced = format!("{:?}", kinds(&parser.parse(spaced).unwrap()));
        let dense = format!("{:?}", kinds(&parser.parse(dense).unwrap()));
        assert_eq!(spaced, dense);
    }
    let spaced = parser.parse(r"\p{G r e e k}").unwrap();
    let dense = parser.parse(r"\p{Greek}").unwrap();
    assert_ne!(spaced, dense);
}

#[test]
fn verbose_mode_ends_with_its_group() {
    let ast = Parser::new().parse("(?x: a b ) c").unwrap();
    match ast {
        Ast::Concat(concat) => {
            assert_eq!(concat.asts.len(), 3);
            assert_eq!(literals(&concat.asts[1]), " ");
            match &concat.asts[0] {
                Ast::Group(group) => assert_eq!(literals(&group.ast), "ab"),
                other => panic!("{:?}", other),
            }
        }
        other => panic!("{:?}", other),
    }
}

/// The nodes of a tree without their spans.
fn kinds(ast: &Ast) -> Vec<String> {
    match ast {
        Ast::Literal(lit) => vec![lit.c.to_string()],
        Ast::Repetition(x) => vec![format!("{:?}", x.op.kind)],
        Ast::Alternation(x) => x.asts.iter().flat_map(kinds).collect(),
        Ast::Class(Class::Bracketed(set)) => match &set.op {
            ClassSetOp::Union(union) => union
                .items
                .iter()
                .map(|item| match item {
                    ClassSetItem::Range(x) => format!("{}-{}", x.start.c, x.end.c),
                    other => panic!("{:?}", other),
                })
                .collect(),
            other => panic!("{:?}", other),
        },
        other => panic!("{:?}", other),
    }
}
