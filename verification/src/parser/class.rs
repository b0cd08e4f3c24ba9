//! Parsing character classes in brackets.

use either::Either;
use vstd::prelude::*;

use crate::ast::methods::union_push;
use crate::ast::view::{group_view, ClassSetOpView, ClassSetUnionView, ClassSetView, ClassView};
use crate::ast::{
    Class, ClassAscii, ClassAsciiKind, ClassSet, ClassSetBinaryOp, ClassSetBinaryOpKind,
    ClassSetItem, ClassSetOp, ClassSetRange, ClassSetUnion, Error, ErrorKind, Literal,
    LiteralKind, Span,
};
use crate::chars::{lemma_run_end, CharSet};
use crate::grammar::class::{
    apply_op, ascii_class, class, class_op_at, class_open, class_range, class_range_cut_off,
    class_rest, class_step, close_class, empty_union, leading_dashes, lemma_class_rest,
    lemma_class_step, union_push_class, ClassStep, LeftSide,
};
use crate::grammar::space::{lemma_skip, Cursor};
use crate::grammar::{fail, viewed, viewed_either};
use crate::parser::{classes_wf, ClassState, ClassStateView, ParserI};
use crate::text::{char_span_at, span_at};

verus! {

broadcast use group_view;

/// The operator on top of a stack with its left operand, if there is one.
pub open spec fn top_op(classes: Seq<ClassStateView>) -> Option<LeftSide> {
    if classes.len() == 0 {
        None
    } else {
        match classes.last() {
            ClassStateView::Op { kind, lhs } => Some(LeftSide { kind, lhs }),
            ClassStateView::Open { .. } => None,
        }
    }
}

/// A stack without the operator on its top, if there is one.
pub open spec fn pop_op(classes: Seq<ClassStateView>) -> Seq<ClassStateView> {
    if top_op(classes) is Some {
        classes.drop_last()
    } else {
        classes
    }
}

/// The innermost class of a stack.
pub open spec fn innermost(classes: Seq<ClassStateView>) -> ClassSetView {
    pop_op(classes).last()->set
}

/// The outermost class of a stack, where the cursor is in the innermost one
/// behind the items in `union`.
#[verifier::opaque]
pub open spec fn unwind(
    p: Seq<char>,
    octal_on: bool,
    verbose: bool,
    c: Cursor,
    union: ClassSetUnionView,
    classes: Seq<ClassStateView>,
) -> (Cursor, Result<ClassView, Error>)
    decreases classes.len(),
    when classes.len() > 0
{
    let open = pop_op(classes);
    match class_rest(p, octal_on, verbose, c, union, top_op(classes), innermost(classes)) {
        (c1, Err(e)) => (c1, Err(e)),
        (c1, Ok(class)) => if open.len() <= 1 {
            (c1, Ok(class))
        } else {
            unwind(
                p,
                octal_on,
                verbose,
                c1,
                union_push_class(open.last()->union, class),
                open.drop_last(),
            )
        },
    }
}

/// The classes and operators that are still open when the outermost class of a
/// stack ends, where the cursor is in the innermost one behind the items in
/// `union`: none if the outermost class is closed, and otherwise those that were
/// opened and not closed before the error.
#[verifier::opaque]
pub open spec fn still_open(
    p: Seq<char>,
    octal_on: bool,
    verbose: bool,
    c: Cursor,
    union: ClassSetUnionView,
    classes: Seq<ClassStateView>,
) -> Seq<ClassStateView>
    decreases p.len() - c.index,
{
    let open = pop_op(classes);
    let left = top_op(classes);
    proof {
        lemma_class_step(p, octal_on, verbose, c, union, left, innermost(classes));
    }
    match class_step(p, octal_on, verbose, c, union, left, innermost(classes)) {
        (c1, ClassStep::Failed(e)) => classes,
        (c1, ClassStep::Closed(class)) => if open.len() <= 1 {
            Seq::empty()
        } else {
            still_open(
                p,
                octal_on,
                verbose,
                c1,
                union_push_class(open.last()->union, class),
                open.drop_last(),
            )
        },
        (c1, ClassStep::Item(item)) => still_open(
            p,
            octal_on,
            verbose,
            c1,
            union_push(union, item),
            classes,
        ),
        (c1, ClassStep::Operator(op)) => still_open(
            p,
            octal_on,
            verbose,
            c1,
            empty_union(p, c1.index),
            open.push(ClassStateView::Op { kind: op.kind, lhs: op.lhs }),
        ),
        (c1, ClassStep::Nested(set, nested_union)) => still_open(
            p,
            octal_on,
            verbose,
            c1,
            nested_union,
            classes.push(ClassStateView::Open { union, set }),
        ),
    }
}

/// The classes and operators that are still open when a class ends that starts
/// at the cursor. An opening that is not well-formed opens nothing.
pub open spec fn class_stack(p: Seq<char>, octal_on: bool, verbose: bool, c: Cursor) -> Seq<
    ClassStateView,
> {
    match class_open(p, verbose, c) {
        (c1, Err(e)) => Seq::empty(),
        (c1, Ok((set, union))) => still_open(
            p,
            octal_on,
            verbose,
            c1,
            union,
            seq![ClassStateView::Open { union: empty_union(p, c.index), set }],
        ),
    }
}

/// How the outermost class of a stack follows from the next step in the
/// innermost one.
#[verifier::rlimit(30)]
proof fn lemma_unwind(
    p: Seq<char>,
    octal_on: bool,
    verbose: bool,
    c: Cursor,
    union: ClassSetUnionView,
    classes: Seq<ClassStateView>,
)
    requires
        0 <= c.index <= p.len(),
        classes.len() > 0,
        classes_wf(classes),
    ensures
        ({
            let open = pop_op(classes);
            let (c1, step) = class_step(
                p,
                octal_on,
                verbose,
                c,
                union,
                top_op(classes),
                innermost(classes),
            );
            unwind(p, octal_on, verbose, c, union, classes) == match step {
                ClassStep::Failed(e) => (c1, Err(e)),
                ClassStep::Closed(class) => if open.len() == 1 {
                    (c1, Ok(class))
                } else {
                    unwind(
                        p,
                        octal_on,
                        verbose,
                        c1,
                        union_push_class(open.last()->union, class),
                        open.drop_last(),
                    )
                },
                ClassStep::Item(item) => unwind(
                    p,
                    octal_on,
                    verbose,
                    c1,
                    union_push(union, item),
                    classes,
                ),
                ClassStep::Operator(op) => unwind(
                    p,
                    octal_on,
                    verbose,
                    c1,
                    empty_union(p, c1.index),
                    open.push(ClassStateView::Op { kind: op.kind, lhs: op.lhs }),
                ),
                ClassStep::Nested(set, nested_union) => unwind(
                    p,
                    octal_on,
                    verbose,
                    c1,
                    nested_union,
                    classes.push(ClassStateView::Open { union, set }),
                ),
            }
        }),
{
    reveal_with_fuel(unwind, 2);
    let open = pop_op(classes);
    let left = top_op(classes);
    lemma_class_step(p, octal_on, verbose, c, union, left, innermost(classes));
    match class_step(p, octal_on, verbose, c, union, left, innermost(classes)) {
        (c1, ClassStep::Operator(op)) => {
            let state = ClassStateView::Op { kind: op.kind, lhs: op.lhs };
            assert(open.push(state).drop_last() == open);
        },
        (c1, ClassStep::Nested(set, nested_union)) => {
            let state = ClassStateView::Open { union, set };
            assert(classes.push(state).drop_last() == classes);
            lemma_class_rest(p, octal_on, verbose, c1, nested_union, None, set);
        },
        _ => {},
    }
}

impl ParserI {
    /// Parse a standard character class consisting primarily of characters or
    /// character ranges, but can also contain nested character classes of
    /// any type (sans `.`).
    ///
    /// This assumes the parser is positioned at the opening `[`. If parsing
    /// is successful, then the parser is advanced to the position immediately
    /// following the closing `]`.
    #[verifier::rlimit(30)]
    pub fn parse_set_class(&mut self) -> (r: Result<Class, Error>)
        requires
            old(self).wf(),
            old(self)@.looks_at('['),
            old(self)@.classes.len() == 0,
        ensures
            ({
                let s = old(self)@;
                let (c, cls) = class(s.pattern, s.options.octal, s.verbose, s.cursor());
                &&& final(self).wf()
                &&& final(self)@ == s.with(c).with_classes(
                    class_stack(s.pattern, s.options.octal, s.verbose, s.cursor()),
                )
                &&& r is Ok ==> final(self)@.classes.len() == 0
                &&& viewed(r) == cls
            }),
    {
        let ghost s = self@;
        let ghost p = s.pattern;
        let ghost octal_on = s.options.octal;
        let ghost result = class(p, octal_on, s.verbose, s.cursor());
        let mut union = ClassSetUnion { span: self.span(), items: Vec::new() };
        let ghost stack = class_stack(p, octal_on, s.verbose, s.cursor());
        assert(s.classes == Seq::<ClassStateView>::empty());
        union = self.push_class_open(union)?;
        proof {
            reveal(unwind);
            assert(self@.classes == seq![self@.classes[0]]);
        }
        loop
            invariant
                self.wf(),
                p == s.pattern,
                octal_on == s.options.octal,
                self@ == s.with(self@.cursor()).with_classes(self@.classes),
                self@.classes.len() > 0,
                unwind(p, octal_on, s.verbose, self@.cursor(), union@, self@.classes) == result,
                result == class(p, octal_on, s.verbose, s.cursor()),
                still_open(p, octal_on, s.verbose, self@.cursor(), union@, self@.classes)
                    == stack,
                stack == class_stack(p, octal_on, s.verbose, s.cursor()),
                s == old(self)@,
            decreases p.len() - self@.index,
        {
            proof {
                self.lemma_wf();
                let c = self@.cursor();
                let left = top_op(self@.classes);
                let set = innermost(self@.classes);
                reveal(still_open);
                lemma_unwind(p, octal_on, s.verbose, c, union@, self@.classes);
                lemma_class_step(p, octal_on, s.verbose, c, union@, left, set);
            }
            match self.parse_set_class_step(union)? {
                Either::Left(next_union) => {
                    union = next_union;
                },
                Either::Right(class) => {
                    return Ok(class);
                },
            }
        }
    }

    /// Parse the next item, operator or bracket in a character class, behind
    /// the items in the given union. Return the union to go on with, or the
    /// outermost class if it is closed.
    #[verifier::rlimit(30)]
    fn parse_set_class_step(&mut self, union: ClassSetUnion) -> (r: Result<
        Either<ClassSetUnion, Class>,
        Error,
    >)
        requires
            old(self).wf(),
            old(self)@.classes.len() > 0,
        ensures
            ({
                let s = old(self)@;
                let open = pop_op(s.classes);
                let (c, step) = class_step(
                    s.pattern,
                    s.options.octal,
                    s.verbose,
                    s.cursor(),
                    union@,
                    top_op(s.classes),
                    innermost(s.classes),
                );
                &&& final(self).wf()
                &&& final(self)@ == s.with(c).with_classes(
                    match step {
                        ClassStep::Failed(e) => s.classes,
                        ClassStep::Closed(class) => open.drop_last(),
                        ClassStep::Item(item) => s.classes,
                        ClassStep::Operator(op) => open.push(
                            ClassStateView::Op { kind: op.kind, lhs: op.lhs },
                        ),
                        ClassStep::Nested(set, nested_union) => s.classes.push(
                            ClassStateView::Open { union: union@, set },
                        ),
                    },
                )
                &&& viewed_either(r) == match step {
                    ClassStep::Failed(e) => Err(e),
                    ClassStep::Closed(class) => if open.len() == 1 {
                        Ok(Either::Right(class))
                    } else {
                        Ok(Either::Left(union_push_class(open.last()->union, class)))
                    },
                    ClassStep::Item(item) => Ok(Either::Left(union_push(union@, item))),
                    ClassStep::Operator(op) => Ok(Either::Left(empty_union(s.pattern, c.index))),
                    ClassStep::Nested(set, nested_union) => Ok(Either::Left(nested_union)),
                }
            }),
    {
        proof {
            reveal(class_step);
        }
        self.bump_space();
        if self.at_end() {
            return Err(self.unclosed_class_error());
        }
        let mut union = union;
        match self.char() {
            '[' => {
                // Attempt to treat this as the beginning of an ASCII class.
                // If ASCII class parsing fails, then the parser backs up to
                // `[`.
                if let Some(cls) = self.maybe_parse_ascii_class() {
                    union.push(ClassSetItem::Ascii(cls));
                    Ok(Either::Left(union))
                } else {
                    Ok(Either::Left(self.push_class_open(union)?))
                }
            },
            ']' => self.pop_class(union),
            _ => {
                match self.class_op() {
                    Some(kind) => {
                        self.bump();
                        self.bump();
                        Ok(Either::Left(self.push_class_op(kind, union)))
                    },
                    None => {
                        union.push(self.parse_set_class_range()?);
                        Ok(Either::Left(union))
                    },
                }
            },
        }
    }

    /// Return the operator at the current position, if there is one.
    fn class_op(&self) -> (r: Option<ClassSetBinaryOpKind>)
        requires
            self.wf(),
            !self@.eof(),
        ensures
            r == class_op_at(self@.pattern, self@.index),
    {
        let next = self.peek();
        match self.char() {
            '&' if next == Some('&') => Some(ClassSetBinaryOpKind::Intersection),
            '-' if next == Some('-') => Some(ClassSetBinaryOpKind::Difference),
            '~' if next == Some('~') => Some(ClassSetBinaryOpKind::SymmetricDifference),
            _ => None,
        }
    }

    /// Parse the opening of a character class and push the current class
    /// parsing context onto the parser's stack. This assumes that the parser
    /// is positioned at an opening `[`. The given union should correspond to
    /// the union of set items built up before seeing the `[`.
    ///
    /// If there was a problem parsing the opening of the class, then an error
    /// is returned. Otherwise, a new union of set items for the class is
    /// returned (which may be populated with either a `]` or a `-`).
    pub fn push_class_open(&mut self, parent_union: ClassSetUnion) -> (r: Result<
        ClassSetUnion,
        Error,
    >)
        requires
            old(self).wf(),
            old(self)@.looks_at('['),
        ensures
            ({
                let s = old(self)@;
                let (c, open) = class_open(s.pattern, s.verbose, s.cursor());
                &&& final(self).wf()
                &&& match open {
                    Err(e) => final(self)@ == s.with(c) && viewed(r) == Err::<
                        ClassSetUnionView,
                        Error,
                    >(e),
                    Ok((set, union)) => {
                        &&& final(self)@ == s.with(c).with_classes(
                            s.classes.push(
                                ClassStateView::Open { union: parent_union@, set },
                            ),
                        )
                        &&& viewed(r) == Ok::<ClassSetUnionView, Error>(union)
                    },
                }
            }),
    {
        let (nested_set, nested_union) = self.parse_set_class_open()?;
        proof {
            let state = ClassStateView::Open { union: parent_union@, set: nested_set@ };
            self.lemma_wf();
            assert(self@.classes.push(state).drop_last() == self@.classes);
        }
        self.push_class_state(ClassState::Open { union: parent_union, set: nested_set });
        Ok(nested_union)
    }

    /// Parse the end of a character class set and pop the character class
    /// parser stack. The union given corresponds to the last union built
    /// before seeing the closing `]`. The union returned corresponds to the
    /// parent character class set with the nested class added to it.
    ///
    /// This assumes that the parser is positioned at a `]` and will advance
    /// the parser to the byte immediately following the `]`.
    ///
    /// If the stack is empty after popping, then this returns the final
    /// "top-level" character class AST (where a "top-level" character class
    /// is one that is not nested inside any other character class).
    ///
    /// If there is no corresponding opening bracket on the parser's stack,
    /// then an error is returned and the parser is not advanced.
    #[verifier::rlimit(30)]
    pub fn pop_class(&mut self, nested_union: ClassSetUnion) -> (r: Result<
        Either<ClassSetUnion, Class>,
        Error,
    >)
        requires
            old(self).wf(),
            old(self)@.looks_at(']'),
        ensures
            ({
                let s = old(self)@;
                let open = pop_op(s.classes);
                let class = close_class(
                    s.pattern,
                    s.index,
                    nested_union@,
                    top_op(s.classes),
                    innermost(s.classes),
                );
                &&& final(self).wf()
                &&& if s.classes.len() == 0 {
                    &&& final(self)@ == s
                    &&& viewed_either(r) == fail::<Either<ClassSetUnionView, ClassView>>(
                        char_span_at(s.pattern, s.index),
                        ErrorKind::ClassUnopened,
                    )
                } else {
                    &&& final(self)@ == s.at(s.index + 1).with_classes(open.drop_last())
                    &&& viewed_either(r) == Ok::<Either<ClassSetUnionView, ClassView>, Error>(
                        if open.len() == 1 {
                            Either::Right(class)
                        } else {
                            Either::Left(union_push_class(open.last()->union, class))
                        },
                    )
                }
            }),
    {
        proof {
            self.lemma_wf();
        }
        let unopened = Error { span: self.span_char(), kind: ErrorKind::ClassUnopened };
        if self.stack_class.is_empty() {
            return Err(unopened);
        }
        let op = self.pop_class_op(ClassSetOp::Union(nested_union));
        self.bump();
        let end = self.pos();
        match self.pop_class_state() {
            Some(ClassState::Open { union, set }) => {
                let mut union = union;
                let mut set = set;
                set.span.end = end;
                set.op = op;
                let class = Class::Bracketed(set);
                if self.stack_class.is_empty() {
                    Ok(Either::Right(class))
                } else {
                    union.push(ClassSetItem::Class(Box::new(class)));
                    Ok(Either::Left(union))
                }
            },
            // There is a class on the stack, and `pop_class_op` has taken the
            // operator that may stand on it.
            _ => {
                assert(false);
                Err(unopened)
            },
        }
    }

    /// Return an "unclosed class" error whose span points to the most
    /// recently opened class.
    ///
    /// This should only be called while parsing a character class.
    pub fn unclosed_class_error(&self) -> (r: Error)
        requires
            self.wf(),
            self@.classes.len() > 0,
        ensures
            r == (Error { span: innermost(self@.classes).span, kind: ErrorKind::ClassUnclosed }),
    {
        proof {
            self.lemma_wf();
        }
        let mut i: usize = self.stack_class.len();
        while i > 0
            invariant
                self.wf(),
                i <= self.stack_class@.len(),
                self@.classes.len() == self.stack_class@.len(),
                self@.classes.len() > 0,
                pop_op(self@.classes).len() <= i,
                pop_op(self@.classes).last() is Open,
            decreases i,
        {
            i = i - 1;
            assert(self@.classes[i as int] == self.stack_class@[i as int]@);
            match &self.stack_class[i] {
                ClassState::Open { set, .. } => {
                    return Error { span: set.span, kind: ErrorKind::ClassUnclosed };
                },
                ClassState::Op { .. } => {},
            }
        }
        assert(false);
        Error { span: self.span(), kind: ErrorKind::ClassUnclosed }
    }

    /// Push the current set of class items on to the class parser's stack as
    /// the left hand side of the given operator.
    ///
    /// A fresh set union is returned, which should be used to build the right
    /// hand side of this operator.
    pub fn push_class_op(&mut self, next_kind: ClassSetBinaryOpKind, next_union: ClassSetUnion) -> (
    r: ClassSetUnion)
        requires
            old(self).wf(),
            old(self)@.classes.len() > 0,
        ensures
            ({
                let s = old(self)@;
                let lhs = apply_op(top_op(s.classes), ClassSetOpView::Union(next_union@));
                &&& final(self).wf()
                &&& final(self)@ == s.with_classes(
                    pop_op(s.classes).push(ClassStateView::Op { kind: next_kind, lhs }),
                )
                &&& r@ == ClassSetUnionView {
                    span: span_at(s.pattern, s.index),
                    items: Seq::empty(),
                }
            }),
    {
        proof {
            self.lemma_wf();
        }
        let new_lhs = self.pop_class_op(ClassSetOp::Union(next_union));
        proof {
            let state = ClassStateView::Op { kind: next_kind, lhs: new_lhs@ };
            assert(self@.classes.push(state).drop_last() == self@.classes);
        }
        self.push_class_state(ClassState::Op { kind: next_kind, lhs: new_lhs });
        ClassSetUnion { span: self.span(), items: Vec::new() }
    }

    /// Pop a character class operation from the character class parser stack.
    /// If the top of the stack is not an operation, then return the given op
    /// unchanged. If the top of the stack is an operation, then the given
    /// op will be used as the rhs of the operation on the top of the stack.
    /// In that case, the binary operation is returned.
    pub fn pop_class_op(&mut self, rhs: ClassSetOp) -> (r: ClassSetOp)
        requires
            old(self).wf(),
        ensures
            final(self).wf(),
            final(self)@ == old(self)@.with_classes(pop_op(old(self)@.classes)),
            r@ == apply_op(top_op(old(self)@.classes), rhs@),
    {
        proof {
            self.lemma_wf();
        }
        let ghost classes = self@.classes;
        match self.pop_class_state() {
            Some(ClassState::Op { kind, lhs }) => {
                let span = Span::new(lhs.span().start, rhs.span().end);
                ClassSetOp::BinaryOp(
                    ClassSetBinaryOp { span, kind, lhs: Box::new(lhs), rhs: Box::new(rhs) },
                )
            },
            Some(state) => {
                assert(self@.classes.push(state@) == classes);
                self.push_class_state(state);
                rhs
            },
            None => rhs,
        }
    }

    /// Parse a single primitive item in a character class set. The item to
    /// be parsed can either be one of a simple literal character, a range
    /// between two simple literal characters or a "primitive" character
    /// class like \w or \p{Greek}.
    ///
    /// If an invalid escape is found, or if a character class is found where
    /// a simple literal is expected (e.g., in a range), then an error is
    /// returned.
    ///
    /// Where the pattern ends before the item or the range does, there must be
    /// a class on the parser's stack, to which the error then points.
    pub fn parse_set_class_range(&mut self) -> (r: Result<ClassSetItem, Error>)
        requires
            old(self).wf(),
            !old(self)@.eof(),
            old(self)@.classes.len() > 0 || !class_range_cut_off(
                old(self)@.pattern,
                old(self)@.options.octal,
                old(self)@.verbose,
                old(self)@.cursor(),
            ),
        ensures
            ({
                let s = old(self)@;
                let (c, item) = class_range(
                    s.pattern,
                    s.options.octal,
                    s.verbose,
                    s.cursor(),
                    innermost(s.classes).span,
                );
                &&& final(self).wf()
                &&& final(self)@ == s.with(c)
                &&& viewed(r) == item
            }),
    {
        let prim1 = self.parse_set_class_item()?;
        self.bump_space();
        if self.at_end() {
            return Err(self.unclosed_class_error());
        }
        // If the next char isn't a `-`, then we don't have a range.
        // There are two exceptions. If the char after a `-` is a `]`, then
        // `-` is interpreted as a literal `-`. Alternatively, if the char
        // after a `-` is a `-`, then `--` corresponds to a "difference"
        // operation.
        let next = self.peek();
        if self.char() != '-' || next == Some(']') || next == Some('-') {
            return prim1.into_class_set_item();
        }
        // OK, now we're parsing a range, so bump past the `-` and parse the
        // second half of the range.
        if !self.bump_and_bump_space() {
            return Err(self.unclosed_class_error());
        }
        let prim2 = self.parse_set_class_item()?;
        let span = Span::new(prim1.span().start, prim2.span().end);
        let start = prim1.into_class_literal()?;
        let end = prim2.into_class_literal()?;
        Ok(ClassSetItem::Range(ClassSetRange { span, start, end }))
    }

    /// Parses the opening of a character class set. This includes the opening
    /// bracket along with `^` if present to indicate negation. This also
    /// starts parsing the opening set of unioned items if applicable, since
    /// there are special rules applied to certain characters in the opening
    /// of a character class. For example, `[^]]` is the class of all
    /// characters not equal to `]`. (`]` would need to be escaped in any other
    /// position.) Similarly for `-`.
    ///
    /// In all cases, the op inside the returned `ClassSet` is an empty
    /// union. This empty union should be replaced with the actual op when
    /// it is popped from the parser's stack.
    ///
    /// This assumes the parser is positioned at the opening `[` and advances
    /// the parser to the first non-special byte of the character class.
    ///
    /// An error is returned if EOF is found.
    #[verifier::rlimit(30)]
    pub fn parse_set_class_open(&mut self) -> (r: Result<(ClassSet, ClassSetUnion), Error>)
        requires
            old(self).wf(),
            old(self)@.looks_at('['),
        ensures
            ({
                let s = old(self)@;
                let (c, open) = class_open(s.pattern, s.verbose, s.cursor());
                &&& final(self).wf()
                &&& final(self)@ == s.with(c)
                &&& viewed(r) == open
            }),
    {
        let ghost s = self@;
        let ghost p = s.pattern;
        let start = self.pos();
        if !self.bump_and_bump_space() {
            return Err(
                Error { span: Span::new(start, self.pos()), kind: ErrorKind::ClassUnclosed },
            );
        }
        let negated = self.char() == '^';
        if negated {
            if !self.bump_and_bump_space() {
                return Err(
                    Error { span: Span::new(start, self.pos()), kind: ErrorKind::ClassUnclosed },
                );
            }
        }
        // Accept any number of `-` as literal `-`.
        let first = self.span();
        let mut union = ClassSetUnion { span: first, items: Vec::new() };
        let ghost c2 = self@.cursor();
        let ghost u2 = union@;
        while !self.at_end() && self.char() == '-'
            invariant
                self.wf(),
                p == s.pattern,
                self@ == s.with(self@.cursor()),
                leading_dashes(p, s.verbose, self@.cursor(), union@) == leading_dashes(
                    p,
                    s.verbose,
                    c2,
                    u2,
                ),
            decreases p.len() - self@.index,
        {
            proof {
                self.lemma_wf();
                lemma_skip(p, self@.cursor().at(self@.index + 1), s.verbose);
            }
            union.push(
                ClassSetItem::Literal(
                    Literal { span: self.span_char(), kind: LiteralKind::Verbatim, c: '-' },
                ),
            );
            self.bump_and_bump_space();
        }
        // If `]` is the *first* char in a set, then interpret it as a literal
        // `]`. That is, an empty class is impossible to write.
        if !self.at_end() && self.char() == ']' && union.items.is_empty() {
            union.push(
                ClassSetItem::Literal(
                    Literal { span: self.span_char(), kind: LiteralKind::Verbatim, c: ']' },
                ),
            );
            self.bump_and_bump_space();
        }
        if self.at_end() {
            return Err(
                Error { span: Span::new(start, self.pos()), kind: ErrorKind::ClassUnclosed },
            );
        }
        let set = ClassSet {
            span: Span::new(start, self.pos()),
            negated,
            op: ClassSetOp::Union(ClassSetUnion { span: first, items: Vec::new() }),
        };
        Ok((set, union))
    }

    /// Attempt to parse an ASCII character class, e.g., `[:alnum:]`.
    ///
    /// This assumes the parser is positioned at the opening `[`.
    ///
    /// If no valid ASCII character class could be found, then this does not
    /// advance the parser and `None` is returned. Otherwise, the parser is
    /// advanced to the first byte following the closing `]` and the
    /// corresponding ASCII class is returned.
    pub fn maybe_parse_ascii_class(&mut self) -> (r: Option<ClassAscii>)
        requires
            old(self).wf(),
            old(self)@.looks_at('['),
        ensures
            final(self).wf(),
            match ascii_class(old(self)@.pattern, old(self)@.index) {
                Some((end, cls)) => r == Some(cls) && final(self)@ == old(self)@.at(end),
                None => r is None && final(self)@ == old(self)@,
            },
    {
        // ASCII character classes are interesting from a parsing perspective
        // because parsing cannot fail with any interesting error. For example,
        // in order to use an ASCII character class, it must be enclosed in
        // double brackets, e.g., `[[:alnum:]]`. Alternatively, you might think
        // of it as "ASCII character characters have the syntax `[:NAME:]`
        // which can only appear within character brackets." This means that
        // things like `[[:lower:]A]` are legal constructs.
        //
        // However, if one types an incorrect ASCII character class, e.g.,
        // `[[:loower:]]`, then we treat that as a normal nested character
        // class containing the characters `:elorw`. One might argue that we
        // should return an error instead since the repeated colons give away
        // the intent to write an ASCII class. But what if the user typed
        // `[[:lower]]` instead? How can we tell that was intended to be an
        // ASCII class and not just a normal nested class?
        //
        // Reasonable people can probably disagree over this, but for better
        // or worse, we implement semantics that never fails at the expense
        // of better failure modes.
        //
        // If parsing fails, then we back up the parser to this starting point.
        let start = self.pos();
        let start_index = self.index;
        let cls = self.ascii_class_rest();
        if cls.is_none() {
            self.pos = start;
            self.index = start_index;
        }
        cls
    }

    /// Parse an ASCII character class from its `[` on. Where there is none,
    /// the parser is left anywhere.
    fn ascii_class_rest(&mut self) -> (r: Option<ClassAscii>)
        requires
            old(self).wf(),
            old(self)@.looks_at('['),
        ensures
            final(self).wf(),
            final(self)@ == old(self)@.at(final(self)@.index),
            match ascii_class(old(self)@.pattern, old(self)@.index) {
                Some((end, cls)) => r == Some(cls) && final(self)@.index == end,
                None => r is None,
            },
    {
        let ghost p = self@.pattern;
        let ghost i = self@.index;
        let start = self.pos();
        if !self.bump() || self.char() != ':' || !self.bump() {
            return None;
        }
        let negated = self.char() == '^';
        if negated && !self.bump() {
            return None;
        }
        let from = self.index;
        proof {
            lemma_run_end(p, from as int, CharSet::Except(':'));
        }
        self.bump_while(CharSet::Except(':'));
        let to = self.index;
        if !self.bump_if(":]") {
            proof {
                reveal_strlit(":]");
                if to + 1 < p.len() && p[to as int] == ':' && p[to + 1] == ']' {
                    assert(p.subrange(to as int, to + 2) == ":]"@);
                }
            }
            return None;
        }
        proof {
            reveal_strlit(":]");
            assert(p.subrange(to as int, to + 2)[1] == ']');
        }
        let name = self.substring(from, to);
        match ClassAsciiKind::from_name(name.as_str()) {
            Some(kind) => Some(ClassAscii { span: Span::new(start, self.pos()), kind, negated }),
            None => None,
        }
    }
}

} // verus!
