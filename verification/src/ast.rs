//! The abstract syntax of a regular expression.
//!
//! Every type that owns a `Vec` or a `String` has a mathematical counterpart,
//! named after it with the suffix `View`, in which sequences take their place.

use vstd::prelude::*;

pub mod methods;
pub mod view;

verus! {

/// A position in a pattern: a byte offset, a line and a column.
#[derive(Clone, Copy, Debug, PartialEq, Eq)]
pub struct Position {
    /// The number of bytes before this position.
    pub offset: usize,
    /// The line number, starting at `1`.
    pub line: usize,
    /// The column number, starting at `1` and counted in Unicode scalar
    /// values.
    pub column: usize,
}

impl Position {
    /// Create a position from its three parts.
    pub fn new(offset: usize, line: usize, column: usize) -> (r: Position)
        ensures
            r == (Position { offset, line, column }),
    {
        Position { offset, line, column }
    }
}

/// A part of a pattern, from `start` up to and without `end`.
#[derive(Clone, Copy, Debug, PartialEq, Eq)]
pub struct Span {
    /// The first position of the span.
    pub start: Position,
    /// The position just behind the span.
    pub end: Position,
}

impl Span {
    /// Create a span from its two ends.
    pub fn new(start: Position, end: Position) -> (r: Span)
        ensures
            r == (Span { start, end }),
    {
        Span { start, end }
    }

    /// Create the empty span at the given position.
    pub fn splat(pos: Position) -> (r: Span)
        ensures
            r == (Span { start: pos, end: pos }),
    {
        Span { start: pos, end: pos }
    }

    /// The span with the same start that ends at the given position.
    pub fn with_end(self, pos: Position) -> (r: Span)
        ensures
            r == (Span { start: self.start, end: pos }),
    {
        Span { start: self.start, end: pos }
    }
}

/// An error that occurred while parsing a pattern.
#[derive(Clone, Copy, Debug, PartialEq, Eq)]
pub struct Error {
    /// The part of the pattern to which the error belongs.
    pub span: Span,
    /// What went wrong.
    pub kind: ErrorKind,
}

/// What went wrong while parsing a pattern.
#[derive(Clone, Copy, Debug, PartialEq, Eq)]
pub enum ErrorKind {
    /// An item that may not stand in a character class, such as `\b`, or that
    /// may not be an end of a range, such as `\w`.
    ClassIllegal,
    /// A `[` without its `]`.
    ClassUnclosed,
    /// A `]` without its `[`, where a class is to be closed.
    ClassUnopened,
    /// A `{` without its `}`.
    CountedRepetitionUnclosed,
    /// A decimal number was expected, and no digit was found.
    DecimalEmpty,
    /// A decimal number that does not fit into 32 bits.
    DecimalInvalid,
    /// A bracketed hex literal without digits.
    EscapeHexEmpty,
    /// A hex literal that is not the number of a Unicode scalar value.
    EscapeHexInvalid,
    /// A character in a hex literal that is not a hexadecimal digit.
    EscapeHexInvalidDigit {
        /// The character in question.
        c: char,
    },
    /// The pattern ended in the middle of an escape sequence.
    EscapeUnexpectedEof,
    /// An unknown escape sequence.
    EscapeUnrecognized {
        /// The character behind the backslash.
        c: char,
    },
    /// A negation that is not followed by any flag, as in `(?i-)`.
    FlagDanglingNegation,
    /// A flag that is given twice.
    FlagDuplicate {
        /// The flag that is repeated.
        flag: char,
        /// The place where it stood first.
        original: Span,
    },
    /// A set of flags without a flag, as in `(?)`.
    FlagMissing,
    /// A second negation in one set of flags.
    FlagRepeatedNegation {
        /// The place of the first negation.
        original: Span,
    },
    /// The pattern ended in the middle of a set of flags.
    FlagUnexpectedEof,
    /// An unknown flag.
    FlagUnrecognized {
        /// The character that was found in the place of a flag.
        flag: char,
    },
    /// An empty name of a capture group.
    GroupNameEmpty,
    /// A character that may not stand in the name of a capture group.
    GroupNameInvalid {
        /// The character in question.
        c: char,
    },
    /// The pattern ended in the middle of the name of a capture group.
    GroupNameUnexpectedEof,
    /// A `(` without its `)`.
    GroupUnclosed,
    /// A `)` without its `(`.
    GroupUnopened,
    /// The tree is deeper than the nest limit, which is given.
    NestLimitExceeded(u32),
    /// A backreference, which is not supported.
    UnsupportedBackreference,
    /// A look-around assertion, which is not supported.
    UnsupportedLookAround,
}

/// A comment in a pattern. The text does not hold the leading `#`.
#[derive(Clone, Debug, PartialEq, Eq)]
pub struct Comment {
    /// The comment with its `#` and the line feed that ends it, if any.
    pub span: Span,
    /// The text between the `#` and the end of the line.
    pub comment: String,
}

/// A syntax tree together with the comments found in its pattern.
#[derive(Debug, PartialEq, Eq)]
pub struct WithComments {
    /// The syntax tree.
    pub ast: Ast,
    /// The comments, in order of appearance.
    pub comments: Vec<Comment>,
}

/// The syntax tree of a regular expression.
#[derive(Debug, PartialEq, Eq)]
pub enum Ast {
    /// An empty expression that matches everywhere.
    Empty(Span),
    /// A set of flags, as in `(?is)`.
    Flags(SetFlags),
    /// A single character.
    Literal(Literal),
    /// The "any character" class, `.`.
    Dot(Span),
    /// A zero-width assertion.
    Assertion(Assertion),
    /// A character class.
    Class(Class),
    /// A repetition of another expression.
    Repetition(Repetition),
    /// A grouped expression.
    Group(Group),
    /// An alternation of expressions.
    Alternation(Alternation),
    /// A concatenation of expressions.
    Concat(Concat),
}

/// An alternation of expressions.
#[derive(Debug, PartialEq, Eq)]
pub struct Alternation {
    /// The alternation without the delimiters of a surrounding group.
    pub span: Span,
    /// The branches, from left to right.
    pub asts: Vec<Ast>,
}

/// A concatenation of expressions.
#[derive(Debug, PartialEq, Eq)]
pub struct Concat {
    /// The part of the pattern that the concatenation covers.
    pub span: Span,
    /// The parts, from left to right.
    pub asts: Vec<Ast>,
}

/// A single literal character.
#[derive(Clone, Copy, Debug, PartialEq, Eq)]
pub struct Literal {
    /// The literal as it is written.
    pub span: Span,
    /// How the literal is written.
    pub kind: LiteralKind,
    /// The character that the literal stands for.
    pub c: char,
}

/// How a literal is written.
#[derive(Clone, Copy, Debug, PartialEq, Eq)]
pub enum LiteralKind {
    /// As the character itself.
    Verbatim,
    /// As an escaped punctuation character.
    Punctuation,
    /// As an octal number.
    Octal,
    /// As a hex number with a fixed number of digits.
    HexFixed(HexLiteralKind),
    /// As a hex number in braces.
    HexBrace(HexLiteralKind),
    /// As a letter with a meaning of its own, such as `\n`.
    Special(SpecialLiteralKind),
}

/// A character that is written as an escaped letter.
#[derive(Clone, Copy, Debug, PartialEq, Eq)]
pub enum SpecialLiteralKind {
    /// `\a`, the character `\x07`.
    Bell,
    /// `\f`, the character `\x0C`.
    FormFeed,
    /// `\t`, the character `\x09`.
    Tab,
    /// `\n`, the character `\x0A`.
    LineFeed,
    /// `\r`, the character `\x0D`.
    CarriageReturn,
    /// `\v`, the character `\x0B`.
    VerticalTab,
    /// An escaped space, `\x20`, in verbose mode.
    Space,
}

/// The letter that introduces a hex literal.
#[derive(Clone, Copy, Debug, PartialEq, Eq)]
pub enum HexLiteralKind {
    /// `\x`, with two digits outside braces.
    X,
    /// `\u`, with four digits outside braces.
    UnicodeShort,
    /// `\U`, with eight digits outside braces.
    UnicodeLong,
}

impl HexLiteralKind {
    /// The number of digits that this kind asks for outside braces.
    pub open spec fn spec_digits(self) -> u32 {
        match self {
            HexLiteralKind::X => 2,
            HexLiteralKind::UnicodeShort => 4,
            HexLiteralKind::UnicodeLong => 8,
        }
    }

    /// The number of digits that this kind asks for outside braces.
    pub fn digits(&self) -> (r: u32)
        ensures
            r == self.spec_digits(),
    {
        match *self {
            HexLiteralKind::X => 2,
            HexLiteralKind::UnicodeShort => 4,
            HexLiteralKind::UnicodeLong => 8,
        }
    }
}

/// A zero-width assertion.
#[derive(Clone, Copy, Debug, PartialEq, Eq)]
pub struct Assertion {
    /// The assertion as it is written.
    pub span: Span,
    /// Which assertion it is.
    pub kind: AssertionKind,
}

/// Which zero-width assertion.
#[derive(Clone, Copy, Debug, PartialEq, Eq)]
pub enum AssertionKind {
    /// `^`
    StartLine,
    /// `$`
    EndLine,
    /// `\A`
    StartText,
    /// `\z`
    EndText,
    /// `\b`
    WordBoundary,
    /// `\B`
    NotWordBoundary,
}

/// A repetition of an expression.
#[derive(Debug, PartialEq, Eq)]
pub struct Repetition {
    /// The repeated expression with its operator.
    pub span: Span,
    /// The operator.
    pub op: RepetitionOp,
    /// Whether the longest match is preferred.
    pub greedy: bool,
    /// The repeated expression.
    pub ast: Box<Ast>,
}

/// The operator of a repetition.
#[derive(Clone, Copy, Debug, PartialEq, Eq)]
pub struct RepetitionOp {
    /// The operator as it is written, with a `?` behind it, if any.
    pub span: Span,
    /// Which operator it is.
    pub kind: RepetitionKind,
}

/// Which operator of repetition.
#[derive(Clone, Copy, Debug, PartialEq, Eq)]
pub enum RepetitionKind {
    /// `?`
    ZeroOrOne,
    /// `*`
    ZeroOrMore,
    /// `+`
    OneOrMore,
    /// `{m,n}`
    Range(RepetitionRange),
}

/// The bounds of a counted repetition.
#[derive(Clone, Copy, Debug, PartialEq, Eq)]
pub enum RepetitionRange {
    /// `{m}`
    Exactly(u32),
    /// `{m,}`
    AtLeast(u32),
    /// `{m,n}`
    Bounded(u32, u32),
}

/// A group, with or without a capture.
#[derive(Debug, PartialEq, Eq)]
pub struct Group {
    /// The group with its parentheses.
    pub span: Span,
    /// How the group is written.
    pub kind: GroupKind,
    /// The expression in the group.
    pub ast: Box<Ast>,
}

/// How a group is written.
#[derive(Clone, Debug, PartialEq, Eq)]
pub enum GroupKind {
    /// `(a)`
    CaptureIndex,
    /// `(?P<name>a)`
    CaptureName(CaptureName),
    /// `(?:a)` and `(?i:a)`
    NonCapturing(Flags),
}

/// The name of a capture group.
#[derive(Clone, Debug, PartialEq, Eq)]
pub struct CaptureName {
    /// The name without its angle brackets.
    pub span: Span,
    /// The name.
    pub name: String,
}

/// A set of flags that does not open a group, as in `(?is)`.
#[derive(Clone, Debug, PartialEq, Eq)]
pub struct SetFlags {
    /// The flags with their parentheses.
    pub span: Span,
    /// The flags.
    pub flags: Flags,
}

/// A sequence of flags.
#[derive(Clone, Debug, PartialEq, Eq)]
pub struct Flags {
    /// The flags without what surrounds them.
    pub span: Span,
    /// The flags and the negation among them.
    pub items: Vec<FlagsItem>,
}

/// A single item in a sequence of flags.
#[derive(Clone, Copy, Debug, PartialEq, Eq)]
pub struct FlagsItem {
    /// The item as it is written.
    pub span: Span,
    /// Which item it is.
    pub kind: FlagsItemKind,
}

/// Which item in a sequence of flags.
#[derive(Clone, Copy, Debug, PartialEq, Eq, Structural)]
pub enum FlagsItemKind {
    /// `-`, which negates the flags behind it.
    Negation,
    /// A flag.
    Flag(Flag),
}

/// A flag.
#[derive(Clone, Copy, Debug, PartialEq, Eq, Structural)]
pub enum Flag {
    /// `i`
    CaseInsensitive,
    /// `m`
    MultiLine,
    /// `s`
    DotMatchesNewLine,
    /// `U`
    SwapGreed,
    /// `u`
    Unicode,
    /// `x`
    IgnoreWhitespace,
}

/// A character class.
#[derive(Debug, PartialEq, Eq)]
pub enum Class {
    /// A Unicode class, as in `\pL`.
    Unicode(ClassUnicode),
    /// A Perl class, as in `\d`.
    Perl(ClassPerl),
    /// A class in brackets, as in `[a-z]`.
    Bracketed(ClassSet),
}

/// A Perl character class.
#[derive(Clone, Copy, Debug, PartialEq, Eq)]
pub struct ClassPerl {
    /// The class as it is written.
    pub span: Span,
    /// Which class it is.
    pub kind: ClassPerlKind,
    /// Whether the class is negated.
    pub negated: bool,
}

/// Which Perl character class.
#[derive(Clone, Copy, Debug, PartialEq, Eq)]
pub enum ClassPerlKind {
    /// `\d`
    Digit,
    /// `\s`
    Space,
    /// `\w`
    Word,
}

/// An ASCII character class, as in `[:alnum:]`.
#[derive(Clone, Copy, Debug, PartialEq, Eq)]
pub struct ClassAscii {
    /// The class with its brackets.
    pub span: Span,
    /// Which class it is.
    pub kind: ClassAsciiKind,
    /// Whether the class is negated.
    pub negated: bool,
}

/// Which ASCII character class.
#[derive(Clone, Copy, Debug, PartialEq, Eq)]
pub enum ClassAsciiKind {
    /// `[0-9A-Za-z]`
    Alnum,
    /// `[A-Za-z]`
    Alpha,
    /// `[\x00-\x7F]`
    Ascii,
    /// `[\t ]`
    Blank,
    /// `[\x00-\x1F\x7F]`
    Cntrl,
    /// `[0-9]`
    Digit,
    /// `[!-~]`
    Graph,
    /// `[a-z]`
    Lower,
    /// `[ -~]`
    Print,
    /// ``[!-/:-@\[-`{-~]``
    Punct,
    /// `[\t\n\v\f\r ]`
    Space,
    /// `[A-Z]`
    Upper,
    /// `[0-9A-Za-z_]`
    Word,
    /// `[0-9A-Fa-f]`
    Xdigit,
}

/// A Unicode character class.
#[derive(Clone, Debug, PartialEq, Eq)]
pub struct ClassUnicode {
    /// The class as it is written.
    pub span: Span,
    /// Whether the class is negated.
    pub negated: bool,
    /// How the class is named.
    pub kind: ClassUnicodeKind,
}

/// How a Unicode character class is named.
#[derive(Clone, Debug, PartialEq, Eq)]
pub enum ClassUnicodeKind {
    /// By one letter, as in `\pN`.
    OneLetter(char),
    /// By a name, as in `\p{Greek}`.
    Named(String),
    /// By a property and a value, as in `\p{scx=Katakana}`.
    NamedValue {
        /// What stands between the name and the value.
        op: ClassUnicodeOpKind,
        /// The name of the property.
        name: String,
        /// The value of the property.
        value: String,
    },
}

/// What stands between the property and the value of a Unicode class.
#[derive(Clone, Copy, Debug, PartialEq, Eq)]
pub enum ClassUnicodeOpKind {
    /// `=`
    Equal,
    /// `:`
    Colon,
    /// `!=`
    NotEqual,
}

/// A character class in brackets.
#[derive(Debug, PartialEq, Eq)]
pub struct ClassSet {
    /// The class with its brackets.
    pub span: Span,
    /// Whether the class is negated.
    pub negated: bool,
    /// What the class consists of.
    pub op: ClassSetOp,
}

/// What a bracketed class consists of.
#[derive(Debug, PartialEq, Eq)]
pub enum ClassSetOp {
    /// A union of items.
    Union(ClassSetUnion),
    /// A binary operation on two sets.
    BinaryOp(ClassSetBinaryOp),
}

/// A union of items in a bracketed class.
#[derive(Debug, PartialEq, Eq)]
pub struct ClassSetUnion {
    /// The items, from the first to the last.
    pub span: Span,
    /// The items.
    pub items: Vec<ClassSetItem>,
}

/// A single item in a bracketed class.
#[derive(Debug, PartialEq, Eq)]
pub enum ClassSetItem {
    /// A single character.
    Literal(Literal),
    /// A range of characters.
    Range(ClassSetRange),
    /// An ASCII class.
    Ascii(ClassAscii),
    /// A class of another kind, or a nested class.
    Class(Box<Class>),
}

/// A range of characters in a bracketed class.
#[derive(Clone, Copy, Debug, PartialEq, Eq)]
pub struct ClassSetRange {
    /// The range as it is written.
    pub span: Span,
    /// The first character.
    pub start: Literal,
    /// The last character.
    pub end: Literal,
}

/// A binary operation in a bracketed class.
#[derive(Debug, PartialEq, Eq)]
pub struct ClassSetBinaryOp {
    /// The operation with its operands.
    pub span: Span,
    /// Which operation it is.
    pub kind: ClassSetBinaryOpKind,
    /// The left operand.
    pub lhs: Box<ClassSetOp>,
    /// The right operand.
    pub rhs: Box<ClassSetOp>,
}

/// Which binary operation in a bracketed class.
#[derive(Clone, Copy, Debug, PartialEq, Eq)]
pub enum ClassSetBinaryOpKind {
    /// `&&`
    Intersection,
    /// `--`
    Difference,
    /// `~~`
    SymmetricDifference,
}

} // verus!
