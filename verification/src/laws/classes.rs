//! Negation of classes, as it is written.

use vstd::prelude::*;

use crate::ast::view::{
    AstView, ClassUnicodeKindView, ClassUnicodeView, ClassView, WithCommentsView,
};
use crate::ast::{ClassPerl, ClassPerlKind, Error};
use crate::chars::{lemma_run_end_from, run_end, CharSet};
use crate::grammar::escape::{escape, unicode_class, unicode_kind, PrimitiveView};
use crate::grammar::expr::{parse, syntax};
use crate::grammar::Options;
use crate::laws::literals::lemma_single_escape;
use crate::laws::reading::class::class_reads;
use crate::laws::reading::expr::{
    branch_reads, expr_reads, law_tree_is_what_is_written, reads,
};
use crate::laws::reading::leaf::lemma_names;
use crate::laws::reading::{lacks, names, past, perl_char};
use crate::text::{column_at, fits, line_at, offset_at, span_between, utf8_len};

verus! {

/// Texts whose characters take as many bytes and have the same line feeds have
/// the same positions.
proof fn lemma_same_positions(p: Seq<char>, q: Seq<char>, i: int)
    requires
        0 <= i <= p.len(),
        p.len() == q.len(),
        forall|k: int|
            0 <= k < i ==> utf8_len(#[trigger] p[k]) == utf8_len(q[k]) && (p[k] == '\n') == (q[k]
                == '\n'),
    ensures
        offset_at(p, i) == offset_at(q, i),
        line_at(p, i) == line_at(q, i),
        column_at(p, i) == column_at(q, i),
    decreases i,
{
    if i > 0 {
        assert(utf8_len(p[i - 1]) == utf8_len(q[i - 1]));
        lemma_same_positions(p, q, i - 1);
    }
}

/// A Unicode class that is written in braces behind the given letter.
proof fn lemma_unicode_text(letter: char, s: Seq<char>, octal_on: bool, verbose: bool)
    requires
        letter == 'p' || letter == 'P',
        lacks(s, '}'),
    ensures
        ({
            let p = seq!['\\', letter, '{'] + s + seq!['}'];
            let x = ClassUnicodeView {
                span: span_between(p, 0, p.len() as int),
                negated: letter == 'P',
                kind: unicode_kind(s),
            };
            syntax(p, octal_on, verbose).1 == Ok::<AstView, Error>(
                AstView::Class(ClassView::Unicode(x)),
            )
        }),
{
    reveal(escape);
    let p = seq!['\\', letter, '{'] + s + seq!['}'];
    let n = p.len() as int;
    assert forall|k: int| 3 <= k < n - 1 implies CharSet::Except('}').has(#[trigger] p[k]) by {
        assert(p[k] == s[k - 3]);
    }
    lemma_run_end_from(p, 3, n - 1, CharSet::Except('}'));
    assert(run_end(p, n - 1, CharSet::Except('}')) == n - 1);
    assert(p.subrange(3, n - 1) =~= s);
    let x = ClassUnicodeView {
        span: span_between(p, 0, n),
        negated: letter == 'P',
        kind: unicode_kind(s),
    };
    assert(unicode_class(p, 1).1->Ok_0.kind == unicode_kind(s));
    lemma_single_escape(p, octal_on, verbose, PrimitiveView::Unicode(x));
}

/// A Unicode class in braces is negated if and only if its letter is a `P`,
/// whatever stands between the braces. What it names is what stands there, and
/// does not depend on the letter.
pub proof fn law_unicode_class_negation(s: Seq<char>, octal_on: bool, verbose: bool)
    requires
        lacks(s, '}'),
    ensures
        ({
            let p = seq!['\\', 'p', '{'] + s + seq!['}'];
            let q = seq!['\\', 'P', '{'] + s + seq!['}'];
            match (syntax(p, octal_on, verbose).1, syntax(q, octal_on, verbose).1) {
                (
                    Ok(AstView::Class(ClassView::Unicode(x))),
                    Ok(AstView::Class(ClassView::Unicode(y))),
                ) => {
                    &&& !x.negated
                    &&& y == (ClassUnicodeView { negated: true, ..x })
                    &&& x.span == span_between(p, 0, p.len() as int)
                    &&& names(x.kind, s)
                },
                _ => false,
            }
        }),
{
    let p = seq!['\\', 'p', '{'] + s + seq!['}'];
    let q = seq!['\\', 'P', '{'] + s + seq!['}'];
    let n = p.len() as int;
    lemma_unicode_text('p', s, octal_on, verbose);
    lemma_unicode_text('P', s, octal_on, verbose);
    lemma_names(s);
    assert forall|k: int| 0 <= k < n implies utf8_len(#[trigger] p[k]) == utf8_len(q[k]) && (p[k]
        == '\n') == (q[k] == '\n') by {
        if k != 1 {
            assert(p[k] == q[k]);
        }
    }
    lemma_same_positions(p, q, n);
}

/// A Unicode class of one letter is negated if and only if the letter behind the
/// backslash is a `P`.
pub proof fn law_one_letter_class_negation(c: char, octal_on: bool, verbose: bool)
    requires
        c != '{',
    ensures
        ({
            let p = seq!['\\', 'p', c];
            let q = seq!['\\', 'P', c];
            let x = ClassUnicodeView {
                span: span_between(p, 0, 3),
                negated: false,
                kind: ClassUnicodeKindView::OneLetter(c),
            };
            &&& syntax(p, octal_on, verbose).1 == Ok::<AstView, Error>(
                AstView::Class(ClassView::Unicode(x)),
            )
            &&& syntax(q, octal_on, verbose).1 == Ok::<AstView, Error>(
                AstView::Class(ClassView::Unicode(ClassUnicodeView { negated: true, ..x })),
            )
        }),
{
    reveal(escape);
    let p = seq!['\\', 'p', c];
    let q = seq!['\\', 'P', c];
    let x = ClassUnicodeView {
        span: span_between(p, 0, 3),
        negated: false,
        kind: ClassUnicodeKindView::OneLetter(c),
    };
    lemma_same_positions(p, q, 3);
    lemma_single_escape(p, octal_on, verbose, PrimitiveView::Unicode(x));
    lemma_single_escape(
        q,
        octal_on,
        verbose,
        PrimitiveView::Unicode(ClassUnicodeView { negated: true, ..x }),
    );
}

/// A Perl class is the one that its letter names, and is negated if and only if
/// the letter is a capital one.
pub proof fn law_perl_class(kind: ClassPerlKind, negated: bool, octal_on: bool, verbose: bool)
    ensures
        ({
            let p = seq!['\\', perl_char(kind, negated)];
            let x = ClassPerl { span: span_between(p, 0, 2), kind, negated };
            syntax(p, octal_on, verbose).1 == Ok::<AstView, Error>(
                AstView::Class(ClassView::Perl(x)),
            )
        }),
{
    reveal(escape);
    let p = seq!['\\', perl_char(kind, negated)];
    let x = ClassPerl { span: span_between(p, 0, 2), kind, negated };
    lemma_single_escape(p, octal_on, verbose, PrimitiveView::Perl(x));
}

/// A text that is one class in brackets is negated if and only if the first
/// character behind its `[`, and behind space that is skipped, is a `^`.
pub proof fn law_bracketed_class_negation(p: Seq<char>, options: Options)
    requires
        fits(p),
        p.len() > 0,
        p[0] == '[',
    ensures
        ({
            let i = past(p, 1, options.ignore_space);
            match parse(p, options) {
                Ok(x) => match x.ast {
                    AstView::Class(ClassView::Bracketed(set)) => {
                        set.negated == (i < p.len() && p[i] == '^')
                    },
                    _ => true,
                },
                Err(_) => true,
            }
        }),
{
    law_tree_is_what_is_written(p, options);
    match parse(p, options) {
        Ok(x) => {
            match x.ast {
                AstView::Class(ClassView::Bracketed(set)) => {
                    let v = options.ignore_space;
                    assert(expr_reads(p, x.ast, 0, v));
                    assert(branch_reads(p, x.ast, 0, v));
                    assert(reads(p, x.ast, v));
                    assert(class_reads(p, ClassView::Bracketed(set), v));
                    assert(past(p, 0, v) == 0);
                },
                _ => {},
            }
        },
        Err(_) => {},
    }
}

/// A tree that is one class in brackets, with the given negation, or no such tree.
pub open spec fn if_class(r: Result<WithCommentsView, Error>, negated: bool) -> bool {
    match r {
        Ok(x) => match x.ast {
            AstView::Class(ClassView::Bracketed(set)) => set.negated == negated,
            _ => true,
        },
        Err(_) => true,
    }
}

/// A `^` behind the `[` makes the difference: without it a class is not negated,
/// and with it the class is, whatever else stands between the brackets.
pub proof fn law_caret_negates(s: Seq<char>, options: Options)
    requires
        fits(seq!['['] + s + seq![']']),
        fits(seq!['[', '^'] + s + seq![']']),
        ({
            let p = seq!['['] + s + seq![']'];
            p[past(p, 1, options.ignore_space)] != '^'
        }),
    ensures
        if_class(parse(seq!['['] + s + seq![']'], options), false),
        if_class(parse(seq!['[', '^'] + s + seq![']'], options), true),
{
    let p = seq!['['] + s + seq![']'];
    let q = seq!['[', '^'] + s + seq![']'];
    law_bracketed_class_negation(p, options);
    law_bracketed_class_negation(q, options);
    assert(q[1] == '^');
    assert(past(q, 1, options.ignore_space) == 1);
}

} // verus!
