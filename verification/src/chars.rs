//! Characters: the classes the selector grammar speaks of, and runs of them.

use vstd::prelude::*;

verus! {

/// Whether `c` has the Unicode property Alphabetic, as `char::is_alphabetic`
/// decides it.
pub uninterp spec fn alphabetic(c: char) -> bool;

/// Whether `c` has the Unicode property White_Space, as `char::is_whitespace`
/// decides it.
pub uninterp spec fn whitespace(c: char) -> bool;

/// `char::is_alphabetic`. The answer depends on the character alone.
#[verifier::external_body]
pub(crate) fn is_alphabetic(c: char) -> (b: bool)
    ensures
        b == alphabetic(c),
{
    c.is_alphabetic()
}

/// `char::is_whitespace`. The answer depends on the character alone.
#[verifier::external_body]
pub(crate) fn is_whitespace(c: char) -> (b: bool)
    ensures
        b == whitespace(c),
{
    c.is_whitespace()
}

/// A decimal digit, `0` to `9`.
pub open spec fn digit(c: char) -> bool {
    '0' <= c <= '9'
}

/// A class of characters.
#[derive(Clone, Copy, PartialEq, Eq, Debug)]
pub enum CharClass {
    /// A character that can open a name: a letter or `_`.
    NameStart,
    /// A character that can continue a name: a letter, a digit or `_`.
    NamePart,
    /// A decimal digit.
    Digit,
    /// White space.
    Space,
    /// Anything but `]`.
    NotBracket,
    /// Anything but `,`.
    NotComma,
    /// Anything but `.`.
    NotDot,
}

impl CharClass {
    /// Whether `c` belongs to the class.
    pub open spec fn holds(self, c: char) -> bool {
        match self {
            CharClass::NameStart => c == '_' || alphabetic(c),
            CharClass::NamePart => alphabetic(c) || digit(c) || c == '_',
            CharClass::Digit => digit(c),
            CharClass::Space => whitespace(c),
            CharClass::NotBracket => c != ']',
            CharClass::NotComma => c != ',',
            CharClass::NotDot => c != '.',
        }
    }

    /// Whether `c` belongs to the class.
    pub fn test(self, c: char) -> (b: bool)
        ensures
            b == self.holds(c),
    {
        match self {
            CharClass::NameStart => c == '_' || is_alphabetic(c),
            CharClass::NamePart => is_alphabetic(c) || is_digit(c) || c == '_',
            CharClass::Digit => is_digit(c),
            CharClass::Space => is_whitespace(c),
            CharClass::NotBracket => c != ']',
            CharClass::NotComma => c != ',',
            CharClass::NotDot => c != '.',
        }
    }
}

/// Whether `c` is a decimal digit.
pub fn is_digit(c: char) -> (b: bool)
    ensures
        b == digit(c),
{
    '0' <= c && c <= '9'
}

/// Where the run of characters of `class` that starts at `from` ends, at
/// `to` at the latest.
pub open spec fn run_end(s: Seq<char>, from: int, to: int, class: CharClass) -> int
    decreases to - from,
{
    if from < to && class.holds(s[from]) {
        run_end(s, from + 1, to, class)
    } else {
        from
    }
}

/// Whether the character at `at` is `c`, for a place before `to`.
pub open spec fn is_at(s: Seq<char>, at: int, to: int, c: char) -> bool {
    at < to && s[at] == c
}

/// Whether the character of `src` at `at` is `c`, for a place before `to`.
pub fn has_at(src: &str, at: usize, to: usize, c: char) -> (b: bool)
    requires
        to <= src@.len(),
    ensures
        b == is_at(src@, at as int, to as int, c),
{
    at < to && src.get_char(at) == c
}

/// Where the run of characters of `class` that starts at `from` ends.
pub fn scan(src: &str, from: usize, to: usize, class: CharClass) -> (end: usize)
    requires
        from <= to <= src@.len(),
    ensures
        end == run_end(src@, from as int, to as int, class),
        from <= end <= to,
{
    let mut i: usize = from;
    while i < to && class.test(src.get_char(i))
        invariant
            from <= i <= to <= src@.len(),
            run_end(src@, from as int, to as int, class) == run_end(src@, i as int, to as int, class),
        decreases to - i,
    {
        i += 1;
    }
    i
}

} // verus!
