//! Parsing expressions.

use either::Either;
use vstd::prelude::*;

use crate::ast::methods::concat_into_ast;
use crate::ast::view::{group_view, AlternationView, AstView, ConcatView};
use crate::ast::{
    Alternation, Ast, Comment, Concat, Error, ErrorKind, Flag, Position, Repetition,
    RepetitionKind, RepetitionOp, RepetitionRange, Span, WithComments,
};
use crate::grammar::expr::{
    add_branch, close_group, concat_push, counted, empty_concat, expr, finish, item, lemma_expr,
    lemma_part, lemma_range, parse, part, range, repeat, syntax, tree, uncounted, verbose_after,
    verbose_in, ExprEnd, Part,
};
use crate::grammar::group::group_open;
use crate::grammar::space::{lemma_skip, Cursor};
use crate::grammar::{fail, viewed, Options};
use crate::parser::class::class_stack;
use crate::parser::nest::error_if_nested;
use crate::parser::{
    groups_wf, ClassStateView, GroupState, GroupStateView, Parser, ParserI, ParserView,
};
use crate::text::{char_span_at, position_at};

verus! {

broadcast use group_view;

/// The alternation on top of a stack, if there is one.
pub open spec fn top_alt(groups: Seq<GroupStateView>) -> Option<AlternationView> {
    if groups.len() == 0 {
        None
    } else {
        match groups.last() {
            GroupStateView::Alternation(alt) => Some(alt),
            GroupStateView::Group { .. } => None,
        }
    }
}

/// A stack without the alternation on its top, if there is one.
pub open spec fn pop_alt(groups: Seq<GroupStateView>) -> Seq<GroupStateView> {
    if top_alt(groups) is Some {
        groups.drop_last()
    } else {
        groups
    }
}

/// The tree of a whole text, where the cursor is in the innermost group of a
/// stack, behind the parts in `concat`.
#[verifier::opaque]
pub open spec fn unwind(
    p: Seq<char>,
    octal_on: bool,
    verbose: bool,
    c: Cursor,
    concat: ConcatView,
    groups: Seq<GroupStateView>,
) -> (Cursor, Result<AstView, Error>)
    decreases groups.len(),
{
    let open = pop_alt(groups);
    match expr(p, octal_on, verbose, c, concat, top_alt(groups)) {
        (c1, Err(e)) => (c1, Err(e)),
        (c1, Ok(ExprEnd::Eof(ast))) => if open.len() == 0 {
            (c1, Ok(ast))
        } else {
            (c1, fail(open.last()->group.span, ErrorKind::GroupUnclosed))
        },
        (c1, Ok(ExprEnd::Paren(ast))) => if open.len() == 0 {
            (c1, fail(char_span_at(p, c1.index), ErrorKind::GroupUnopened))
        } else {
            unwind(
                p,
                octal_on,
                open.last()->ignore_space,
                c1.at(c1.index + 1),
                concat_push(
                    open.last()->concat,
                    close_group(p, c1.index, open.last()->group, ast),
                ),
                open.drop_last(),
            )
        },
    }
}

/// What a parser is left with behind its place in the pattern when a parse ends.
#[verifier::ext_equal]
pub struct Remains {
    /// Whether verbose mode is on.
    pub verbose: bool,
    /// The groups and alternations that are still open.
    pub groups: Seq<GroupStateView>,
    /// The classes and operators that are still open.
    pub classes: Seq<ClassStateView>,
}

/// What a parser is left with when a parse ends, where the cursor is in the
/// innermost group of a stack, behind the parts in `concat`.
///
/// An error in the pattern leaves the mode as it is and what is open open. At
/// the end of the pattern, the innermost group and the alternation in it, if
/// any, are taken from the stack.
#[verifier::opaque]
pub open spec fn remains(
    p: Seq<char>,
    octal_on: bool,
    verbose: bool,
    c: Cursor,
    concat: ConcatView,
    groups: Seq<GroupStateView>,
) -> Remains
    decreases p.len() - c.index,
{
    let open = pop_alt(groups);
    let c1 = c.skip(p, verbose);
    proof {
        lemma_skip(p, c, verbose);
        if 0 <= c1.index < p.len() {
            lemma_part(p, octal_on, verbose, c1, concat);
        }
    }
    if !(0 <= c1.index < p.len()) {
        Remains {
            verbose,
            groups: if open.len() == 0 {
                open
            } else {
                open.drop_last()
            },
            classes: Seq::empty(),
        }
    } else {
        match part(p, octal_on, verbose, c1, concat) {
            (c2, Part::Failed(e)) => Remains {
                verbose,
                groups,
                classes: open_classes(p, octal_on, verbose, c1),
            },
            (c2, Part::Close) => if open.len() == 0 {
                Remains { verbose, groups: open, classes: Seq::empty() }
            } else {
                remains(
                    p,
                    octal_on,
                    open.last()->ignore_space,
                    c2.at(c2.index + 1),
                    concat_push(
                        open.last()->concat,
                        close_group(
                            p,
                            c2.index,
                            open.last()->group,
                            finish(p, c2.index, concat, top_alt(groups)),
                        ),
                    ),
                    open.drop_last(),
                )
            },
            (c2, Part::Bar) => remains(
                p,
                octal_on,
                verbose,
                c2,
                empty_concat(p, c2.index),
                open.push(
                    GroupStateView::Alternation(
                        add_branch(p, c1.index, concat, top_alt(groups)),
                    ),
                ),
            ),
            (c2, Part::More(verbose, concat)) => remains(
                p,
                octal_on,
                verbose,
                c2,
                concat,
                groups,
            ),
            (c2, Part::Open(group)) => remains(
                p,
                octal_on,
                verbose_in(group.kind, verbose),
                c2,
                empty_concat(p, c2.index),
                groups.push(GroupStateView::Group { concat, group, ignore_space: verbose }),
            ),
        }
    }
}

/// The classes and operators that are still open behind what stands at the
/// cursor, which can be a class.
pub open spec fn open_classes(p: Seq<char>, octal_on: bool, verbose: bool, c: Cursor) -> Seq<
    ClassStateView,
> {
    if p[c.index] == '[' {
        class_stack(p, octal_on, verbose, c)
    } else {
        Seq::empty()
    }
}

/// The state of a parser after a parse. It is where the grammar has come to, and
/// holds the comments found so far, unless they have been returned with the
/// tree.
pub open spec fn parsed(pattern: Seq<char>, options: Options) -> ParserView {
    let (c, _) = syntax(pattern, options.octal, options.ignore_space);
    let start = Cursor { index: 0, comments: Seq::empty() };
    let rest = remains(
        pattern,
        options.octal,
        options.ignore_space,
        start,
        empty_concat(pattern, 0),
        Seq::empty(),
    );
    ParserView {
        pattern,
        options,
        index: c.index,
        verbose: rest.verbose,
        comments: if parse(pattern, options) is Ok {
            Seq::empty()
        } else {
            c.comments
        },
        groups: rest.groups,
        classes: rest.classes,
    }
}

/// How the tree of a whole text follows from what stands at the cursor.
#[verifier::rlimit(30)]
proof fn lemma_unwind(
    p: Seq<char>,
    octal_on: bool,
    verbose: bool,
    c: Cursor,
    concat: ConcatView,
    groups: Seq<GroupStateView>,
)
    requires
        0 <= c.index <= p.len(),
        groups_wf(groups),
    ensures
        ({
            let open = pop_alt(groups);
            let c1 = c.skip(p, verbose);
            let (c2, next) = part(p, octal_on, verbose, c1, concat);
            unwind(p, octal_on, verbose, c, concat, groups) == if c1.index >= p.len() {
                if open.len() == 0 {
                    (c1, Ok(finish(p, c1.index, concat, top_alt(groups))))
                } else {
                    (c1, fail(open.last()->group.span, ErrorKind::GroupUnclosed))
                }
            } else {
                match next {
                    Part::Failed(e) => (c2, Err(e)),
                    Part::Close => if open.len() == 0 {
                        (c2, fail(char_span_at(p, c2.index), ErrorKind::GroupUnopened))
                    } else {
                        unwind(
                            p,
                            octal_on,
                            open.last()->ignore_space,
                            c2.at(c2.index + 1),
                            concat_push(
                                open.last()->concat,
                                close_group(
                                    p,
                                    c2.index,
                                    open.last()->group,
                                    finish(p, c2.index, concat, top_alt(groups)),
                                ),
                            ),
                            open.drop_last(),
                        )
                    },
                    Part::Bar => unwind(
                        p,
                        octal_on,
                        verbose,
                        c2,
                        empty_concat(p, c2.index),
                        open.push(
                            GroupStateView::Alternation(
                                add_branch(p, c1.index, concat, top_alt(groups)),
                            ),
                        ),
                    ),
                    Part::More(verbose, concat) => unwind(
                        p,
                        octal_on,
                        verbose,
                        c2,
                        concat,
                        groups,
                    ),
                    Part::Open(group) => unwind(
                        p,
                        octal_on,
                        verbose_in(group.kind, verbose),
                        c2,
                        empty_concat(p, c2.index),
                        groups.push(
                            GroupStateView::Group { concat, group, ignore_space: verbose },
                        ),
                    ),
                }
            }
        }),
{
    reveal_with_fuel(unwind, 2);
    let open = pop_alt(groups);
    let c1 = c.skip(p, verbose);
    lemma_skip(p, c, verbose);
    if c1.index < p.len() {
        lemma_part(p, octal_on, verbose, c1, concat);
        match part(p, octal_on, verbose, c1, concat) {
            (c2, Part::Bar) => {
                let state = GroupStateView::Alternation(
                    add_branch(p, c1.index, concat, top_alt(groups)),
                );
                assert(open.push(state).drop_last() == open);
            },
            (c2, Part::Open(group)) => {
                let state = GroupStateView::Group { concat, group, ignore_space: verbose };
                assert(groups.push(state).drop_last() == groups);
                lemma_expr(
                    p,
                    octal_on,
                    verbose_in(group.kind, verbose),
                    c2,
                    empty_concat(p, c2.index),
                    None,
                );
            },
            _ => {},
        }
    }
}

impl Parser {
    /// Parse the regular expression into an abstract syntax tree.
    pub fn parse(&self, pattern: &str) -> (r: Result<Ast, Error>)
        requires
            pattern@.len() < usize::MAX,
        ensures
            viewed(r) == tree(parse(pattern@, self@)),
    {
        ParserI::new(*self, pattern).parse()
    }

    /// Parse the regular expression and return an abstract syntax tree with
    /// all of the comments found in the pattern.
    pub fn parse_with_comments(&self, pattern: &str) -> (r: Result<WithComments, Error>)
        requires
            pattern@.len() < usize::MAX,
        ensures
            viewed(r) == parse(pattern@, self@),
    {
        ParserI::new(*self, pattern).parse_with_comments()
    }
}

impl ParserI {
    /// Parse the regular expression into an abstract syntax tree.
    pub fn parse(&mut self) -> (r: Result<Ast, Error>)
        requires
            old(self).wf(),
        ensures
            final(self).wf(),
            final(self)@ == parsed(old(self)@.pattern, old(self)@.options),
            viewed(r) == tree(parse(old(self)@.pattern, old(self)@.options)),
            r is Ok ==> {
                &&& final(self)@.eof()
                &&& final(self)@.comments.len() == 0
                &&& final(self)@.groups.len() == 0
                &&& final(self)@.classes.len() == 0
            },
    {
        match self.parse_with_comments() {
            Ok(astc) => Ok(astc.ast),
            Err(err) => Err(err),
        }
    }

    /// Parse the regular expression and return an abstract syntax tree with
    /// all of the comments found in the pattern.
    #[verifier::rlimit(30)]
    pub fn parse_with_comments(&mut self) -> (r: Result<WithComments, Error>)
        requires
            old(self).wf(),
        ensures
            final(self).wf(),
            final(self)@ == parsed(old(self)@.pattern, old(self)@.options),
            viewed(r) == parse(old(self)@.pattern, old(self)@.options),
            r is Ok ==> {
                &&& final(self)@.eof()
                &&& final(self)@.comments.len() == 0
                &&& final(self)@.groups.len() == 0
                &&& final(self)@.classes.len() == 0
            },
    {
        let ghost p = self@.pattern;
        let ghost options = self@.options;
        let ghost octal_on = options.octal;
        let ghost result = syntax(p, octal_on, options.ignore_space);
        let ghost rest = remains(
            p,
            octal_on,
            options.ignore_space,
            Cursor { index: 0, comments: Seq::empty() },
            empty_concat(p, 0),
            Seq::empty(),
        );
        self.reset();
        let mut concat = Concat { span: self.span(), asts: Vec::new() };
        proof {
            reveal(unwind);
        }
        loop
            invariant_except_break
                unwind(p, octal_on, self@.verbose, self@.cursor(), concat@, self@.groups)
                    == result,
                remains(p, octal_on, self@.verbose, self@.cursor(), concat@, self@.groups)
                    == rest,
            invariant
                self.wf(),
                self@.pattern == p,
                self@.options == options,
                p == old(self)@.pattern,
                options == old(self)@.options,
                octal_on == options.octal,
                self@.classes.len() == 0,
                result == syntax(p, octal_on, options.ignore_space),
                rest == remains(
                    p,
                    octal_on,
                    options.ignore_space,
                    Cursor { index: 0, comments: Seq::empty() },
                    empty_concat(p, 0),
                    Seq::empty(),
                ),
            ensures
                self@.eof(),
                rest.verbose == self@.verbose,
                rest.classes.len() == 0,
                rest.groups == if pop_alt(self@.groups).len() == 0 {
                    pop_alt(self@.groups)
                } else {
                    pop_alt(self@.groups).drop_last()
                },
                result == if pop_alt(self@.groups).len() == 0 {
                    (
                        self@.cursor(),
                        Ok(finish(p, self@.index, concat@, top_alt(self@.groups))),
                    )
                } else {
                    (
                        self@.cursor(),
                        fail(
                            pop_alt(self@.groups).last()->group.span,
                            ErrorKind::GroupUnclosed,
                        ),
                    )
                },
            decreases p.len() - self@.index,
        {
            proof {
                let c = self@.cursor();
                self.lemma_wf();
                reveal(remains);
                lemma_unwind(p, octal_on, self@.verbose, c, concat@, self@.groups);
                lemma_skip(p, c, self@.verbose);
                let c1 = c.skip(p, self@.verbose);
                if c1.index < p.len() {
                    lemma_part(p, octal_on, self@.verbose, c1, concat@);
                }
            }
            self.bump_space();
            if self.at_end() {
                break ;
            }
            concat = self.parse_part(concat)?;
        }
        let ast = self.pop_group_end(concat)?;
        error_if_nested(&ast, self.parser().nest_limit, 0)?;
        let mut comments: Vec<Comment> = Vec::new();
        std::mem::swap(&mut comments, &mut self.comments);
        Ok(WithComments { ast, comments })
    }

    /// Reset the internal state of a parser.
    ///
    /// This is called at the beginning of every parse. This prevents the
    /// parser from running with inconsistent state (say, if a previous
    /// invocation returned an error and the parser is reused).
    pub fn reset(&mut self)
        requires
            old(self).wf(),
        ensures
            final(self).wf(),
            final(self)@ == ParserView::start(old(self)@.pattern, old(self)@.options),
    {
        self.index = 0;
        self.pos = Position::new(0, 1, 1);
        self.ignore_space = self.parser().initial_ignore_space;
        self.comments.clear();
        self.stack_group.clear();
        self.stack_class.clear();
    }

    /// Parse what stands at the current position, where it is not the end of
    /// the pattern, and return the concatenation to go on with.
    #[verifier::rlimit(30)]
    fn parse_part(&mut self, concat: Concat) -> (r: Result<Concat, Error>)
        requires
            old(self).wf(),
            !old(self)@.eof(),
            old(self)@.classes.len() == 0,
        ensures
            ({
                let s = old(self)@;
                let open = pop_alt(s.groups);
                let (c, next) = part(
                    s.pattern,
                    s.options.octal,
                    s.verbose,
                    s.cursor(),
                    concat@,
                );
                &&& final(self).wf()
                &&& match next {
                    Part::Failed(e) => {
                        &&& final(self)@ == s.with(c).with_classes(
                            open_classes(s.pattern, s.options.octal, s.verbose, s.cursor()),
                        )
                        &&& viewed(r) == Err::<ConcatView, Error>(e)
                    },
                    Part::Close => if open.len() == 0 {
                        &&& final(self)@ == s.with(c).with_groups(open)
                        &&& viewed(r) == fail::<ConcatView>(
                            char_span_at(s.pattern, c.index),
                            ErrorKind::GroupUnopened,
                        )
                    } else {
                        &&& final(self)@ == s.with(c.at(c.index + 1)).with_verbose(
                            open.last()->ignore_space,
                        ).with_groups(open.drop_last())
                        &&& viewed(r) == Ok::<ConcatView, Error>(
                            concat_push(
                                open.last()->concat,
                                close_group(
                                    s.pattern,
                                    c.index,
                                    open.last()->group,
                                    finish(s.pattern, c.index, concat@, top_alt(s.groups)),
                                ),
                            ),
                        )
                    },
                    Part::Bar => {
                        let alt = add_branch(s.pattern, s.index, concat@, top_alt(s.groups));
                        &&& final(self)@ == s.with(c).with_groups(
                            open.push(GroupStateView::Alternation(alt)),
                        )
                        &&& viewed(r) == Ok::<ConcatView, Error>(
                            empty_concat(s.pattern, c.index),
                        )
                    },
                    Part::More(verbose, concat) => {
                        &&& final(self)@ == s.with(c).with_verbose(verbose)
                        &&& viewed(r) == Ok::<ConcatView, Error>(concat)
                    },
                    Part::Open(group) => {
                        let state = GroupStateView::Group {
                            concat: concat@,
                            group,
                            ignore_space: s.verbose,
                        };
                        &&& final(self)@ == s.with(c).with_verbose(
                            verbose_in(group.kind, s.verbose),
                        ).with_groups(s.groups.push(state))
                        &&& viewed(r) == Ok::<ConcatView, Error>(
                            empty_concat(s.pattern, c.index),
                        )
                    },
                }
            }),
    {
        proof {
            reveal(part);
        }
        match self.char() {
            '(' => self.push_group(concat),
            ')' => self.pop_group(concat),
            '|' => self.push_alternate(concat),
            _ => self.parse_item(concat),
        }
    }

    /// Parse a part of a concatenation that is neither a group nor a set of
    /// flags, or an operator of repetition, and return the concatenation to
    /// go on with.
    fn parse_item(&mut self, concat: Concat) -> (r: Result<Concat, Error>)
        requires
            old(self).wf(),
            !old(self)@.eof(),
            old(self)@.classes.len() == 0,
        ensures
            ({
                let s = old(self)@;
                let (c, next) = item(
                    s.pattern,
                    s.options.octal,
                    s.verbose,
                    s.cursor(),
                    concat@,
                );
                &&& final(self).wf()
                &&& final(self)@ == s.with(c).with_classes(
                    open_classes(s.pattern, s.options.octal, s.verbose, s.cursor()),
                )
                &&& r is Ok ==> final(self)@.classes == s.classes
                &&& viewed(r) == next
            }),
    {
        match self.char() {
            '[' => {
                let class = self.parse_set_class()?;
                let mut concat = concat;
                concat.asts.push(Ast::Class(class));
                Ok(concat)
            },
            '?' => Ok(self.parse_uncounted_repetition(concat, RepetitionKind::ZeroOrOne)),
            '*' => Ok(self.parse_uncounted_repetition(concat, RepetitionKind::ZeroOrMore)),
            '+' => Ok(self.parse_uncounted_repetition(concat, RepetitionKind::OneOrMore)),
            '{' => self.parse_counted_repetition(concat),
            _ => {
                let prim = self.parse_primitive()?;
                let mut concat = concat;
                concat.asts.push(prim.into_ast());
                Ok(concat)
            },
        }
    }

    /// Parse and push a single alternation on to the parser's internal stack.
    /// If the top of the stack already has an alternation, then add to that
    /// instead of pushing a new one.
    ///
    /// The concatenation given corresponds to a single alternation branch.
    /// The concatenation returned starts the next branch and is empty.
    ///
    /// This assumes the parser is currently positioned at `|` and will advance
    /// the parser to the character following `|`.
    pub fn push_alternate(&mut self, concat: Concat) -> (r: Result<Concat, Error>)
        requires
            old(self).wf(),
            old(self)@.looks_at('|'),
        ensures
            ({
                let s = old(self)@;
                let alt = add_branch(s.pattern, s.index, concat@, top_alt(s.groups));
                &&& final(self).wf()
                &&& final(self)@ == s.at(s.index + 1).with_groups(
                    pop_alt(s.groups).push(GroupStateView::Alternation(alt)),
                )
                &&& viewed(r) == Ok::<ConcatView, Error>(empty_concat(s.pattern, s.index + 1))
            }),
    {
        let mut concat = concat;
        concat.span.end = self.pos();
        self.push_or_add_alternation(concat);
        self.bump();
        Ok(Concat { span: self.span(), asts: Vec::new() })
    }

    /// Pushes or adds the given branch of an alternation to the parser's
    /// internal stack of state.
    pub fn push_or_add_alternation(&mut self, concat: Concat)
        requires
            old(self).wf(),
        ensures
            ({
                let s = old(self)@;
                let alt = match top_alt(s.groups) {
                    None => AlternationView {
                        span: Span {
                            start: concat.span.start,
                            end: position_at(s.pattern, s.index),
                        },
                        asts: seq![concat_into_ast(concat@)],
                    },
                    Some(alt) => AlternationView {
                        span: alt.span,
                        asts: alt.asts.push(concat_into_ast(concat@)),
                    },
                };
                &&& final(self).wf()
                &&& final(self)@ == s.with_groups(
                    pop_alt(s.groups).push(GroupStateView::Alternation(alt)),
                )
            }),
    {
        proof {
            self.lemma_wf();
        }
        let ghost groups = self@.groups;
        let start = concat.span.start;
        let ast = concat.into_ast();
        let mut alt = Alternation { span: Span::new(start, self.pos()), asts: Vec::new() };
        match self.pop_group_state() {
            Some(GroupState::Alternation(top)) => {
                alt = top;
            },
            Some(state) => {
                assert(self@.groups.push(state@) == groups);
                self.push_group_state(state);
            },
            None => {},
        }
        alt.asts.push(ast);
        proof {
            self.lemma_wf();
            assert(top_alt(groups) is None ==> alt@.asts =~= seq![ast@]);
            assert(self@.groups.push(GroupStateView::Alternation(alt@)).drop_last()
                == self@.groups);
        }
        self.push_group_state(GroupState::Alternation(alt));
    }

    /// Parse and push a group AST (and its parent concatenation) on to the
    /// parser's internal stack. Return a fresh concatenation corresponding
    /// to the group's sub-AST.
    ///
    /// If a set of flags was found (with no group), then the concatenation
    /// is returned with that set of flags added.
    ///
    /// This assumes that the parser is currently positioned on the opening
    /// parenthesis. It advances the parser to the character at the start
    /// of the sub-expression (or adjoining expression).
    ///
    /// If there was a problem parsing the start of the group, then an error
    /// is returned.
    pub fn push_group(&mut self, concat: Concat) -> (r: Result<Concat, Error>)
        requires
            old(self).wf(),
            old(self)@.looks_at('('),
        ensures
            ({
                let s = old(self)@;
                let (c, open) = group_open(s.pattern, s.verbose, s.cursor());
                &&& final(self).wf()
                &&& match open {
                    Err(e) => {
                        &&& final(self)@ == s.with(c)
                        &&& viewed(r) == Err::<ConcatView, Error>(e)
                    },
                    Ok(Either::Left(set)) => {
                        &&& final(self)@ == s.with(c).with_verbose(
                            verbose_after(set.flags.items, s.verbose),
                        )
                        &&& viewed(r) == Ok::<ConcatView, Error>(
                            concat_push(concat@, AstView::Flags(set)),
                        )
                    },
                    Ok(Either::Right(group)) => {
                        &&& final(self)@ == s.with(c).with_verbose(
                            verbose_in(group.kind, s.verbose),
                        ).with_groups(
                            s.groups.push(
                                GroupStateView::Group {
                                    concat: concat@,
                                    group,
                                    ignore_space: s.verbose,
                                },
                            ),
                        )
                        &&& viewed(r) == Ok::<ConcatView, Error>(
                            empty_concat(s.pattern, c.index),
                        )
                    },
                }
            }),
    {
        match self.parse_group()? {
            Either::Left(set) => {
                self.bump();
                if let Some(v) = set.flags.flag_state(Flag::IgnoreWhitespace) {
                    self.ignore_space = v;
                }
                let mut concat = concat;
                concat.asts.push(Ast::Flags(set));
                Ok(concat)
            },
            Either::Right(group) => {
                let old_ignore_space = self.ignore_space();
                let new_ignore_space = match group.flags() {
                    Some(flags) => match flags.flag_state(Flag::IgnoreWhitespace) {
                        Some(v) => v,
                        None => old_ignore_space,
                    },
                    None => old_ignore_space,
                };
                let state = GroupState::Group { concat, group, ignore_space: old_ignore_space };
                proof {
                    self.lemma_wf();
                    assert(self@.groups.push(state@).drop_last() == self@.groups);
                }
                self.push_group_state(state);
                self.ignore_space = new_ignore_space;
                Ok(Concat { span: self.span(), asts: Vec::new() })
            },
        }
    }

    /// Pop a group AST from the parser's internal stack and set the group's
    /// AST to the given concatenation. Return the concatenation containing
    /// the group.
    ///
    /// This assumes that the parser is currently positioned on the closing
    /// parenthesis and advances the parser to the character following the `)`.
    ///
    /// If no such group could be popped, then an unopened group error is
    /// returned.
    #[verifier::rlimit(30)]
    pub fn pop_group(&mut self, group_concat: Concat) -> (r: Result<Concat, Error>)
        requires
            old(self).wf(),
            old(self)@.looks_at(')'),
        ensures
            ({
                let s = old(self)@;
                let open = pop_alt(s.groups);
                let ast = finish(s.pattern, s.index, group_concat@, top_alt(s.groups));
                &&& final(self).wf()
                &&& if open.len() == 0 {
                    &&& final(self)@ == s.with_groups(open)
                    &&& viewed(r) == fail::<ConcatView>(
                        char_span_at(s.pattern, s.index),
                        ErrorKind::GroupUnopened,
                    )
                } else {
                    &&& final(self)@ == s.at(s.index + 1).with_verbose(
                        open.last()->ignore_space,
                    ).with_groups(open.drop_last())
                    &&& viewed(r) == Ok::<ConcatView, Error>(
                        concat_push(
                            open.last()->concat,
                            close_group(s.pattern, s.index, open.last()->group, ast),
                        ),
                    )
                }
            }),
    {
        proof {
            self.lemma_wf();
        }
        let mut group_concat = group_concat;
        let mut alt: Option<Alternation> = None;
        let mut state = self.pop_group_state();
        if let Some(GroupState::Alternation(top)) = state {
            alt = Some(top);
            state = self.pop_group_state();
        }
        match state {
            Some(GroupState::Group { concat, group, ignore_space }) => {
                let mut prior_concat = concat;
                let mut group = group;
                self.ignore_space = ignore_space;
                group_concat.span.end = self.pos();
                let end = self.pos();
                self.bump();
                group.span.end = self.pos();
                match alt {
                    Some(top) => {
                        let mut alt = top;
                        alt.span.end = end;
                        alt.asts.push(group_concat.into_ast());
                        group.ast = Box::new(alt.into_ast());
                    },
                    None => {
                        group.ast = Box::new(group_concat.into_ast());
                    },
                }
                prior_concat.asts.push(Ast::Group(group));
                Ok(prior_concat)
            },
            _ => Err(Error { span: self.span_char(), kind: ErrorKind::GroupUnopened }),
        }
    }

    /// Pop the last state from the parser's internal stack, if it exists, and
    /// add the given concatenation to it. There either must be no state or a
    /// single alternation item on the stack. Any other scenario produces an
    /// error.
    ///
    /// This assumes that the parser has advanced to the end.
    pub fn pop_group_end(&mut self, concat: Concat) -> (r: Result<Ast, Error>)
        requires
            old(self).wf(),
        ensures
            ({
                let s = old(self)@;
                let open = pop_alt(s.groups);
                &&& final(self).wf()
                &&& if open.len() == 0 {
                    &&& final(self)@ == s.with_groups(open)
                    &&& viewed(r) == Ok::<AstView, Error>(
                        finish(s.pattern, s.index, concat@, top_alt(s.groups)),
                    )
                } else {
                    &&& final(self)@ == s.with_groups(open.drop_last())
                    &&& viewed(r) == fail::<AstView>(
                        open.last()->group.span,
                        ErrorKind::GroupUnclosed,
                    )
                }
            }),
    {
        proof {
            self.lemma_wf();
        }
        let mut concat = concat;
        concat.span.end = self.pos();
        let mut ast = concat.into_ast();
        let mut state = self.pop_group_state();
        if let Some(GroupState::Alternation(top)) = state {
            let mut alt = top;
            alt.span.end = self.pos();
            alt.asts.push(ast);
            assert(alt@.asts == top@.asts.push(ast@));
            ast = Ast::Alternation(alt);
            state = self.pop_group_state();
        }
        match state {
            Some(GroupState::Group { group, .. }) => Err(
                Error { span: group.span, kind: ErrorKind::GroupUnclosed },
            ),
            _ => Ok(ast),
        }
    }

    /// Parses an uncounted repetition operation. An uncounted repetition
    /// operator includes ?, * and +, but does not include the {m,n} syntax.
    /// The given `kind` should correspond to the operator observed by the
    /// caller.
    ///
    /// This assumes that the paser is currently positioned at the repetition
    /// operator and advances the parser to the first character after the
    /// operator. (Note that the operator may include a single additional `?`,
    /// which makes the operator ungreedy.)
    ///
    /// The caller should include the concatenation that is being built. The
    /// concatenation returned includes the repetition operator applied to the
    /// last expression in the given concatenation.
    pub fn parse_uncounted_repetition(&mut self, concat: Concat, kind: RepetitionKind) -> (r:
        Concat)
        requires
            old(self).wf(),
            old(self)@.looks_at('?') || old(self)@.looks_at('*') || old(self)@.looks_at('+'),
        ensures
            ({
                let s = old(self)@;
                let (end, concat) = uncounted(s.pattern, s.index, concat@, kind);
                &&& final(self).wf()
                &&& final(self)@ == s.at(end)
                &&& r@ == concat
            }),
    {
        let start = self.pos();
        let from = self.index;
        let mut greedy = true;
        if self.bump() && self.char() == '?' {
            greedy = false;
            self.bump();
        }
        self.repeat(concat, from, start, kind, greedy)
    }

    /// Apply a repetition operator, which starts at the given index and
    /// position and ends at the current position, to the last expression in
    /// the given concatenation.
    fn repeat(
        &self,
        concat: Concat,
        from: usize,
        start: Position,
        kind: RepetitionKind,
        greedy: bool,
    ) -> (r: Concat)
        requires
            self.wf(),
            start == position_at(self@.pattern, from as int),
        ensures
            r@ == repeat(self@.pattern, from as int, self@.index, concat@, kind, greedy),
    {
        let ghost asts = concat.asts@;
        let mut concat = concat;
        let ast = match concat.asts.pop() {
            None => Ast::Empty(Span::splat(start)),
            Some(ast) => ast,
        };
        assert(asts.len() > 0 ==> concat.asts@ == asts.drop_last());
        let span = ast.span().with_end(self.pos());
        let op = RepetitionOp { span: Span::new(start, self.pos()), kind };
        concat.asts.push(Ast::Repetition(Repetition { span, op, greedy, ast: Box::new(ast) }));
        concat
    }

    /// Parses a counted repetition operation. A counted repetition operator
    /// corresponds to the {m,n} syntax, and does not include the ?, * or +
    /// operators.
    ///
    /// This assumes that the paser is currently positioned at the opening `{`
    /// and advances the parser to the first character after the operator.
    /// (Note that the operator may include a single additional `?`, which
    /// makes the operator ungreedy.)
    ///
    /// The caller should include the concatenation that is being built. The
    /// concatenation returned includes the repetition operator applied to the
    /// last expression in the given concatenation.
    pub fn parse_counted_repetition(&mut self, concat: Concat) -> (r: Result<Concat, Error>)
        requires
            old(self).wf(),
            old(self)@.looks_at('{'),
        ensures
            ({
                let s = old(self)@;
                let (c, concat) = counted(s.pattern, s.verbose, s.cursor(), concat@);
                &&& final(self).wf()
                &&& final(self)@ == s.with(c)
                &&& viewed(r) == concat
            }),
    {
        let start = self.pos();
        let from = self.index;
        let range = self.parse_range()?;
        let mut greedy = true;
        if self.bump_and_bump_space() && self.char() == '?' {
            greedy = false;
            self.bump();
        }
        Ok(self.repeat(concat, from, start, RepetitionKind::Range(range), greedy))
    }

    /// Parse the bounds of a counted repetition, from the opening `{` up to
    /// the closing `}`.
    fn parse_range(&mut self) -> (r: Result<RepetitionRange, Error>)
        requires
            old(self).wf(),
            old(self)@.looks_at('{'),
        ensures
            final(self).wf(),
            final(self)@ == old(self)@.at(range(old(self)@.pattern, old(self)@.index).0),
            r == range(old(self)@.pattern, old(self)@.index).1,
            r is Ok ==> !final(self)@.eof(),
    {
        proof {
            self.lemma_wf();
            lemma_range(self@.pattern, self@.index);
        }
        let start = self.pos();
        if !self.bump() {
            return Err(
                Error {
                    span: Span::new(start, self.pos()),
                    kind: ErrorKind::CountedRepetitionUnclosed,
                },
            );
        }
        let count_start = self.parse_decimal()?;
        let mut range = RepetitionRange::Exactly(count_start);
        if !self.at_end() && self.char() == ',' {
            if !self.bump() {
                return Err(
                    Error {
                        span: Span::new(start, self.pos()),
                        kind: ErrorKind::CountedRepetitionUnclosed,
                    },
                );
            }
            if self.char() != '}' {
                let count_end = self.parse_decimal()?;
                range = RepetitionRange::Bounded(count_start, count_end);
            } else {
                range = RepetitionRange::AtLeast(count_start);
            }
        }
        if self.at_end() || self.char() != '}' {
            return Err(
                Error {
                    span: Span::new(start, self.pos()),
                    kind: ErrorKind::CountedRepetitionUnclosed,
                },
            );
        }
        Ok(range)
    }
}

} // verus!
