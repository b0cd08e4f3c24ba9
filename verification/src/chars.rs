//! Sets of characters.

use vstd::prelude::*;

verus! {

/// A character that has significance in a regular expression.
pub open spec fn punct(c: char) -> bool {
    ||| c == '\\' || c == '.' || c == '+' || c == '*' || c == '?' || c == '(' || c == ')'
    ||| c == '|' || c == '[' || c == ']' || c == '{' || c == '}' || c == '^' || c == '$'
    ||| c == '#' || c == '&' || c == '-' || c == '~'
}

/// A decimal digit.
pub open spec fn decimal_digit(c: char) -> bool {
    '0' <= c <= '9'
}

/// An octal digit.
pub open spec fn octal_digit(c: char) -> bool {
    '0' <= c <= '7'
}

/// A hexadecimal digit.
pub open spec fn hex_digit(c: char) -> bool {
    '0' <= c <= '9' || 'a' <= c <= 'f' || 'A' <= c <= 'F'
}

/// A character that may stand in the name of a capture group. The first
/// character of a name is not a digit.
pub open spec fn capture_char(c: char, first: bool) -> bool {
    c == '_' || (!first && decimal_digit(c)) || 'a' <= c <= 'z' || 'A' <= c <= 'Z'
}

/// A character with the Unicode property `White_Space`.
pub open spec fn whitespace(c: char) -> bool {
    ||| '\u{9}' <= c <= '\u{D}' || c == ' ' || c == '\u{85}' || c == '\u{A0}'
    ||| c == '\u{1680}' || '\u{2000}' <= c <= '\u{200A}' || c == '\u{2028}' || c == '\u{2029}'
    ||| c == '\u{202F}' || c == '\u{205F}' || c == '\u{3000}'
}

/// Returns true if the given character has significance in a regex.
///
/// These are the only characters that are allowed to be escaped.
pub fn is_punct(c: char) -> (r: bool)
    ensures
        r == punct(c),
{
    match c {
        '\\' | '.' | '+' | '*' | '?' | '(' | ')' | '|' | '[' | ']' | '{' | '}' | '^' | '$' | '#'
        | '&' | '-' | '~' => true,
        _ => false,
    }
}

/// Returns true if the given character is a hexadecimal digit.
pub fn is_hex(c: char) -> (r: bool)
    ensures
        r == hex_digit(c),
{
    ('0' <= c && c <= '9') || ('a' <= c && c <= 'f') || ('A' <= c && c <= 'F')
}

/// Returns true if the given character is valid in a capture group name.
///
/// If `first` is true, then `c` is treated as the first character in the
/// group name (which is not allowed to be a digit).
pub fn is_capture_char(c: char, first: bool) -> (r: bool)
    ensures
        r == capture_char(c, first),
{
    c == '_' || (!first && c >= '0' && c <= '9') || (c >= 'a' && c <= 'z') || (c >= 'A' && c
        <= 'Z')
}

/// Returns true if the given character is white space.
pub fn is_whitespace(c: char) -> (r: bool)
    ensures
        r == whitespace(c),
{
    ('\u{9}' <= c && c <= '\u{D}') || c == ' ' || c == '\u{85}' || c == '\u{A0}' || c == '\u{1680}'
        || ('\u{2000}' <= c && c <= '\u{200A}') || c == '\u{2028}' || c == '\u{2029}' || c
        == '\u{202F}' || c == '\u{205F}' || c == '\u{3000}'
}

/// A set of characters over which the parser can run.
#[derive(Clone, Copy, Debug)]
pub enum CharSet {
    /// White space.
    Whitespace,
    /// Octal digits.
    Octal,
    /// Decimal digits.
    Decimal,
    /// Hexadecimal digits.
    Hex,
    /// The characters of a group name behind its first one.
    Name,
    /// Every character but one.
    Except(char),
}

impl CharSet {
    /// The members of the set.
    pub open spec fn has(self, c: char) -> bool {
        match self {
            CharSet::Whitespace => whitespace(c),
            CharSet::Octal => octal_digit(c),
            CharSet::Decimal => decimal_digit(c),
            CharSet::Hex => hex_digit(c),
            CharSet::Name => capture_char(c, false),
            CharSet::Except(d) => c != d,
        }
    }

    /// Returns true if the given character is a member of this set.
    pub fn contains(self, c: char) -> (r: bool)
        ensures
            r == self.has(c),
    {
        match self {
            CharSet::Whitespace => is_whitespace(c),
            CharSet::Octal => '0' <= c && c <= '7',
            CharSet::Decimal => '0' <= c && c <= '9',
            CharSet::Hex => is_hex(c),
            CharSet::Name => is_capture_char(c, false),
            CharSet::Except(d) => c != d,
        }
    }
}

/// The first index from `i` on at which a run over the given set ends.
pub open spec fn run_end(p: Seq<char>, i: int, set: CharSet) -> int
    decreases p.len() - i,
{
    if 0 <= i < p.len() && set.has(p[i]) {
        run_end(p, i + 1, set)
    } else {
        i
    }
}

/// The first index from `i` on at which the given character stands, or the end
/// of the text.
pub open spec fn find_char(p: Seq<char>, i: int, c: char) -> int {
    run_end(p, i, CharSet::Except(c))
}

/// A run ends at the first index whose character is not in the set.
pub proof fn lemma_run_end(p: Seq<char>, i: int, set: CharSet)
    requires
        0 <= i <= p.len(),
    ensures
        i <= run_end(p, i, set) <= p.len(),
        forall|k: int| i <= k < run_end(p, i, set) ==> set.has(#[trigger] p[k]),
        run_end(p, i, set) < p.len() ==> !set.has(p[run_end(p, i, set)]),
    decreases p.len() - i,
{
    if i < p.len() && set.has(p[i]) {
        lemma_run_end(p, i + 1, set);
    }
}

/// Where a run passes an index, it ends where the run from that index ends.
pub proof fn lemma_run_end_from(p: Seq<char>, i: int, j: int, set: CharSet)
    requires
        0 <= i <= j <= p.len(),
        forall|k: int| i <= k < j ==> set.has(#[trigger] p[k]),
    ensures
        run_end(p, i, set) == run_end(p, j, set),
    decreases j - i,
{
    if i < j {
        assert(set.has(p[i]));
        lemma_run_end_from(p, i + 1, j, set);
    }
}

} // verus!
