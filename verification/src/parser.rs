//! The parser.
//!
//! [`Parser`] holds a configuration and parses any number of patterns. The work
//! is done by [`ParserI`], which reads one pattern from left to right and keeps
//! the expressions and classes that are still open on two stacks.

use vstd::prelude::*;

use crate::ast::view::{
    comments_view, AlternationView, ClassSetOpView, ClassSetUnionView, ClassSetView, CommentView,
    ConcatView, GroupView,
};
use crate::ast::{
    Alternation, ClassSet, ClassSetBinaryOpKind, ClassSetOp, ClassSetUnion, Comment, Concat, Group,
    Position,
};
use crate::grammar::space::Cursor;
use crate::grammar::Options;
use crate::text::{fits, lemma_offset_is_encoded_len, position_at};

pub mod class;
pub mod cursor;
pub mod escape;
pub mod expr;
pub mod group;
pub mod nest;
pub mod number;

verus! {

/// A builder for a regular expression parser.
///
/// This builder permits modifying configuration options for the parser.
#[derive(Clone, Debug)]
pub struct ParserBuilder {
    ignore_space: bool,
    nest_limit: u32,
    octal: bool,
}

impl View for ParserBuilder {
    type V = Options;

    closed spec fn view(&self) -> Options {
        Options { ignore_space: self.ignore_space, nest_limit: self.nest_limit, octal: self.octal }
    }
}

/// The options of a parser that nobody has configured.
pub open spec fn default_options() -> Options {
    Options { ignore_space: false, nest_limit: 100, octal: false }
}

impl Default for ParserBuilder {
    fn default() -> (r: ParserBuilder)
        ensures
            r@ == default_options(),
    {
        ParserBuilder::new()
    }
}

impl ParserBuilder {
    /// Create a new parser builder with a default configuration.
    pub fn new() -> (r: ParserBuilder)
        ensures
            r@ == default_options(),
    {
        ParserBuilder { ignore_space: false, nest_limit: 100, octal: false }
    }

    /// Build a parser from this configuration.
    pub fn build(&self) -> (r: Parser)
        ensures
            r@ == self@,
    {
        Parser {
            nest_limit: self.nest_limit,
            octal: self.octal,
            initial_ignore_space: self.ignore_space,
        }
    }

    /// Enable verbose mode in the regular expression.
    ///
    /// When enabled, verbose mode permits insigificant whitespace in many
    /// places in the regular expression, as well as comments. Comments are
    /// started using `#` and continue until the end of the line.
    ///
    /// By default, this is disabled. It may be selectively enabled in the
    /// regular expression by using the `x` flag.
    pub fn ignore_space(&mut self, yes: bool) -> (r: &mut ParserBuilder)
        ensures
            r@ == (Options { ignore_space: yes, ..old(self)@ }),
            *final(self) == *final(r),
    {
        self.ignore_space = yes;
        self
    }

    /// Set the nesting limit for this parser.
    ///
    /// The nesting limit controls how deep the abstract syntax tree is allowed
    /// to be. If the AST exceeds the given limit (e.g., with too many nested
    /// groups), then an error is returned by the parser.
    ///
    /// Note that a nest limit of `0` will return a nest limit error for every
    /// regular expression. A nest limit of `1` allows `a` but not `(a)` or
    /// `a+`.
    pub fn nest_limit(&mut self, limit: u32) -> (r: &mut ParserBuilder)
        ensures
            r@ == (Options { nest_limit: limit, ..old(self)@ }),
            *final(self) == *final(r),
    {
        self.nest_limit = limit;
        self
    }

    /// Whether to support octal syntax or not.
    ///
    /// Octal syntax is a little-known way of uttering Unicode codepoints in
    /// a regular expression. For example, `a`, `\x61`, `\u0061` and
    /// `\141` are all equivalent regular expressions, where the last example
    /// shows octal syntax.
    ///
    /// While supporting octal syntax isn't in and of itself a problem, it does
    /// make good error messages harder. That is, in PCRE based regex engines,
    /// syntax like `\0` invokes a backreference, which is explicitly
    /// unsupported in Rust's regex engine. However, many users expect it to
    /// be supported. Therefore, when octal support is disabled, the error
    /// message will explicitly mention that backreferences aren't supported.
    ///
    /// Octal syntax is disabled by default.
    pub fn octal(&mut self, yes: bool) -> (r: &mut ParserBuilder)
        ensures
            r@ == (Options { octal: yes, ..old(self)@ }),
            *final(self) == *final(r),
    {
        self.octal = yes;
        self
    }
}

/// A regular expression parser.
///
/// This parses a string representation of a regular expression into an
/// abstract syntax tree. The size of the tree is proportional to the length
/// of the regular expression pattern.
#[derive(Clone, Copy, Debug)]
pub struct Parser {
    /// The number of levels that a tree may have. If a tree has more, then an
    /// error is returned.
    nest_limit: u32,
    /// Whether to support octal syntax or not. When `false`, the parser will
    /// return an error helpfully pointing out that backreferences are not
    /// supported.
    octal: bool,
    /// The initial setting for `ignore_space` as provided by `ParserBuilder`.
    initial_ignore_space: bool,
}

impl View for Parser {
    type V = Options;

    closed spec fn view(&self) -> Options {
        Options {
            ignore_space: self.initial_ignore_space,
            nest_limit: self.nest_limit,
            octal: self.octal,
        }
    }
}

impl Parser {
    /// Create a new parser with a default configuration.
    ///
    /// The parser can be run with either the `parse` or `parse_with_comments`
    /// methods. The parse methods return an abstract syntax tree.
    ///
    /// To set configuration options on the parser, use [`ParserBuilder`].
    pub fn new() -> (r: Parser)
        ensures
            r@ == default_options(),
    {
        ParserBuilder::new().build()
    }
}

/// GroupState represents a single stack frame while parsing nested groups
/// and alternations. Each frame records the state up to an opening parenthesis
/// or a alternating bracket `|`.
#[derive(Debug)]
pub enum GroupState {
    /// This state is pushed whenever an opening group is found.
    Group {
        /// The concatenation immediately preceding the opening group.
        concat: Concat,
        /// The group that has been opened. Its sub-AST is always empty.
        group: Group,
        /// Whether verbose mode was on before the group was opened.
        ignore_space: bool,
    },
    /// This state is pushed whenever a new alternation branch is found. If
    /// an alternation branch is found and this state is at the top of the
    /// stack, then this state should be modified to include the new
    /// alternation.
    Alternation(Alternation),
}

/// The view of a [`GroupState`].
#[verifier::ext_equal]
pub enum GroupStateView {
    Group { concat: ConcatView, group: GroupView, ignore_space: bool },
    Alternation(AlternationView),
}

impl View for GroupState {
    type V = GroupStateView;

    open spec fn view(&self) -> GroupStateView {
        match *self {
            GroupState::Group { concat, group, ignore_space } => {
                GroupStateView::Group { concat: concat@, group: group@, ignore_space }
            },
            GroupState::Alternation(alt) => GroupStateView::Alternation(alt@),
        }
    }
}

/// ClassState represents a single stack frame while parsing character classes.
/// Each frame records the state up to an intersection, difference, symmetric
/// difference or nested class.
///
/// Note that a parser's character class stack is only non-empty when parsing
/// a character class. In all other cases, it is empty.
#[derive(Debug)]
pub enum ClassState {
    /// This state is pushed whenever an opening bracket is found.
    Open {
        /// The union of class items immediately preceding this class.
        union: ClassSetUnion,
        /// The class that has been opened. Typically this just corresponds
        /// to the `[`, but it can also include `[^` since `^` indicates
        /// negation of the class.
        set: ClassSet,
    },
    /// This state is pushed when a operator is seen. When popped, the stored
    /// set becomes the left hand side of the operator.
    Op {
        /// The type of the operation, i.e., &&, -- or ~~.
        kind: ClassSetBinaryOpKind,
        /// The left-hand side of the operator.
        lhs: ClassSetOp,
    },
}

/// The view of a [`ClassState`].
#[verifier::ext_equal]
pub enum ClassStateView {
    Open { union: ClassSetUnionView, set: ClassSetView },
    Op { kind: ClassSetBinaryOpKind, lhs: ClassSetOpView },
}

impl View for ClassState {
    type V = ClassStateView;

    open spec fn view(&self) -> ClassStateView {
        match *self {
            ClassState::Open { union, set } => ClassStateView::Open { union: union@, set: set@ },
            ClassState::Op { kind, lhs } => ClassStateView::Op { kind, lhs: lhs@ },
        }
    }
}

impl ClassState {
    /// Returns true if and only if this state corresponds to the opening of
    /// a character class set.
    pub fn is_open(&self) -> (r: bool)
        ensures
            r == self@ is Open,
    {
        match self {
            ClassState::Open { .. } => true,
            ClassState::Op { .. } => false,
        }
    }
}

/// ParserI is the internal parser implementation. It reads a single pattern.
#[derive(Debug)]
pub struct ParserI {
    /// The full regular expression provided by the user.
    pattern: String,
    /// The characters of the pattern.
    chars: Vec<char>,
    /// The configuration.
    parser: Parser,
    /// The index of the current character.
    index: usize,
    /// The position of the current character.
    pos: Position,
    /// Whether whitespace should be ignored. When enabled, comments are
    /// also permitted.
    ignore_space: bool,
    /// A list of comments, in order of appearance.
    comments: Vec<Comment>,
    /// A stack of grouped sub-expressions, including alternations.
    stack_group: Vec<GroupState>,
    /// A stack of nested character classes. This is only non-empty when
    /// parsing a class.
    stack_class: Vec<ClassState>,
}

/// The views of the frames of open groups and alternations.
pub open spec fn groups_view(states: Seq<GroupState>) -> Seq<GroupStateView> {
    Seq::new(states.len(), |i: int| states[i]@)
}

/// The views of the frames of open classes and operators.
pub open spec fn classes_view(states: Seq<ClassState>) -> Seq<ClassStateView> {
    Seq::new(states.len(), |i: int| states[i]@)
}

/// The state of a parser.
#[verifier::ext_equal]
pub struct ParserView {
    /// The pattern.
    pub pattern: Seq<char>,
    /// The configuration.
    pub options: Options,
    /// The index of the current character.
    pub index: int,
    /// Whether verbose mode is on.
    pub verbose: bool,
    /// The comments found so far.
    pub comments: Seq<CommentView>,
    /// The open groups and alternations, the innermost last.
    pub groups: Seq<GroupStateView>,
    /// The open classes and operators, the innermost last.
    pub classes: Seq<ClassStateView>,
}

impl ParserView {
    /// The state of a parser that has read nothing.
    pub open spec fn start(pattern: Seq<char>, options: Options) -> ParserView {
        ParserView {
            pattern,
            options,
            index: 0,
            verbose: options.ignore_space,
            comments: Seq::empty(),
            groups: Seq::empty(),
            classes: Seq::empty(),
        }
    }

    /// The end of the pattern is reached.
    pub open spec fn eof(self) -> bool {
        self.index >= self.pattern.len()
    }

    /// The current character is the given one.
    pub open spec fn looks_at(self, c: char) -> bool {
        !self.eof() && self.pattern[self.index] == c
    }

    /// The state at another index.
    pub open spec fn at(self, index: int) -> ParserView {
        ParserView { index, ..self }
    }

    /// The current place and the comments found so far.
    pub open spec fn cursor(self) -> Cursor {
        Cursor { index: self.index, comments: self.comments }
    }

    /// The state at another place.
    pub open spec fn with(self, c: Cursor) -> ParserView {
        ParserView { index: c.index, comments: c.comments, ..self }
    }

    /// The state with verbose mode set.
    pub open spec fn with_verbose(self, verbose: bool) -> ParserView {
        ParserView { verbose, ..self }
    }

    /// The state with other open groups.
    pub open spec fn with_groups(self, groups: Seq<GroupStateView>) -> ParserView {
        ParserView { groups, ..self }
    }

    /// The state with other open classes.
    pub open spec fn with_classes(self, classes: Seq<ClassStateView>) -> ParserView {
        ParserView { classes, ..self }
    }
}

/// A stack of groups and alternations: no alternation is empty, and none
/// stands directly on another one.
pub open spec fn groups_wf(groups: Seq<GroupStateView>) -> bool
    decreases groups.len(),
{
    groups.len() > 0 ==> {
        let below = groups.drop_last();
        &&& groups_wf(below)
        &&& match groups.last() {
            GroupStateView::Group { .. } => true,
            GroupStateView::Alternation(alt) => {
                &&& alt.asts.len() > 0
                &&& below.len() > 0 ==> below.last() is Group
            },
        }
    }
}

/// A stack of classes and operators: every operator stands directly on the
/// class that it belongs to.
pub open spec fn classes_wf(classes: Seq<ClassStateView>) -> bool
    decreases classes.len(),
{
    classes.len() > 0 ==> {
        let below = classes.drop_last();
        &&& classes_wf(below)
        &&& match classes.last() {
            ClassStateView::Open { .. } => true,
            ClassStateView::Op { .. } => below.len() > 0 && below.last() is Open,
        }
    }
}

impl View for ParserI {
    type V = ParserView;

    closed spec fn view(&self) -> ParserView {
        ParserView {
            pattern: self.pattern@,
            options: self.parser@,
            index: self.index as int,
            verbose: self.ignore_space,
            comments: comments_view(self.comments@),
            groups: groups_view(self.stack_group@),
            classes: classes_view(self.stack_class@),
        }
    }
}

impl ParserI {
    /// The parser is at a place in its pattern, and its stacks are in order.
    pub closed spec fn wf(&self) -> bool {
        &&& self.chars@ == self.pattern@
        &&& fits(self.pattern@)
        &&& self.index <= self.pattern@.len()
        &&& self.pos == position_at(self.pattern@, self.index as int)
        &&& groups_wf(self@.groups)
        &&& classes_wf(self@.classes)
    }

    /// What is known of the state of a parser.
    pub proof fn lemma_wf(&self)
        requires
            self.wf(),
        ensures
            fits(self@.pattern),
            0 <= self@.index <= self@.pattern.len(),
            groups_wf(self@.groups),
            classes_wf(self@.classes),
    {
    }

    /// Build an internal parser from a parser configuration and a pattern.
    pub fn new(parser: Parser, pattern: &str) -> (r: ParserI)
        requires
            pattern@.len() < usize::MAX,
        ensures
            r.wf(),
            r@ == ParserView::start(pattern@, parser@),
    {
        let bytes: &[u8] = pattern.as_bytes();
        proof {
            lemma_offset_is_encoded_len(pattern@);
            assert(bytes@.len() == bytes.len());
        }
        let mut chars: Vec<char> = Vec::new();
        for c in iter: pattern.chars()
            invariant
                chars@ == iter.seq().take(iter.index() as int),
                iter.seq() == pattern@,
        {
            chars.push(c);
        }
        assert(chars@ == pattern@);
        ParserI {
            pattern: pattern.to_string(),
            chars,
            parser,
            index: 0,
            pos: Position::new(0, 1, 1),
            ignore_space: parser.initial_ignore_space,
            comments: Vec::new(),
            stack_group: Vec::new(),
            stack_class: Vec::new(),
        }
    }

    /// Return a reference to the parser configuration.
    pub fn parser(&self) -> (r: &Parser)
        ensures
            r@ == self@.options,
    {
        &self.parser
    }

    /// Push a frame of an open group or alternation.
    fn push_group_state(&mut self, state: GroupState)
        requires
            old(self).wf(),
            groups_wf(old(self)@.groups.push(state@)),
        ensures
            final(self).wf(),
            final(self)@ == old(self)@.with_groups(old(self)@.groups.push(state@)),
    {
        let ghost groups = self@.groups;
        self.stack_group.push(state);
        assert(self@.groups =~= groups.push(state@));
    }

    /// Pop the frame of the innermost open group or alternation, if any.
    fn pop_group_state(&mut self) -> (r: Option<GroupState>)
        requires
            old(self).wf(),
        ensures
            final(self).wf(),
            match r {
                Some(state) => {
                    &&& old(self)@.groups.len() > 0
                    &&& state@ == old(self)@.groups.last()
                    &&& final(self)@ == old(self)@.with_groups(old(self)@.groups.drop_last())
                },
                None => old(self)@.groups.len() == 0 && final(self)@ == old(self)@,
            },
    {
        let ghost groups = self@.groups;
        let r = self.stack_group.pop();
        assert(groups.len() > 0 ==> self@.groups =~= groups.drop_last());
        r
    }

    /// Push a frame of an open class or operator.
    fn push_class_state(&mut self, state: ClassState)
        requires
            old(self).wf(),
            classes_wf(old(self)@.classes.push(state@)),
        ensures
            final(self).wf(),
            final(self)@ == old(self)@.with_classes(old(self)@.classes.push(state@)),
    {
        let ghost classes = self@.classes;
        self.stack_class.push(state);
        assert(self@.classes =~= classes.push(state@));
    }

    /// Pop the frame of the innermost open class or operator, if any.
    fn pop_class_state(&mut self) -> (r: Option<ClassState>)
        requires
            old(self).wf(),
        ensures
            final(self).wf(),
            match r {
                Some(state) => {
                    &&& old(self)@.classes.len() > 0
                    &&& state@ == old(self)@.classes.last()
                    &&& final(self)@ == old(self)@.with_classes(old(self)@.classes.drop_last())
                },
                None => old(self)@.classes.len() == 0 && final(self)@ == old(self)@,
            },
    {
        let ghost classes = self@.classes;
        let r = self.stack_class.pop();
        assert(classes.len() > 0 ==> self@.classes =~= classes.drop_last());
        r
    }
}

} // verus!
