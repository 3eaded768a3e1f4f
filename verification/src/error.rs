//! Parse failures: what went wrong and where.

use vstd::prelude::*;

verus! {

/// The kinds of fault a manifest can contain. Every failure is reported as a
/// recoverable value, never as a panic or process termination.
#[derive(Clone, Copy, Debug, PartialEq, Eq, Structural)]
pub enum ErrorKind {
    /// A required string literal is missing where the grammar demands one,
    /// or a directive's primary identifier is empty.
    ExpectedString,
    /// A string literal has no closing quote before end-of-input.
    UnterminatedString,
    /// A backslash escape introduces an unsupported character.
    InvalidEscape,
    /// A parameter key was read but its value has none of the accepted shapes.
    InvalidParameterValue,
    /// A brew parameter key other than `args` or `link`.
    UnknownParameter,
    /// A leading token that is none of `tap`, `brew` or the `##` marker.
    UnknownDirective,
    /// A metadata key other than `description` or `optional`.
    UnknownMetadataKey,
    /// A malformed list or map: trailing separator, missing bracket,
    /// or a malformed element.
    MalformedListOrMap,
}

/// A parse failure: the kind of fault and the character position (an index
/// into the input, counted in characters) at which it was detected. The
/// unconsumed remainder of the input starts at that position.
#[derive(Clone, Copy, Debug, PartialEq, Eq, Structural)]
pub struct ParseError {
    pub kind: ErrorKind,
    pub pos: usize,
}


/// The unconsumed remainder of `s` from character position `i` on — what a
/// caller pairs with `ParseError::pos` for diagnostics. Empty when `i` is
/// past the end.
pub fn remainder(s: &str, i: usize) -> (r: &str)
    ensures
        i as int <= s@.len() ==> r@ == s@.subrange(i as int, s@.len() as int),
        i as int > s@.len() ==> r@ == Seq::<char>::empty(),
{
    let n = s.unicode_len();
    if i >= n {
        s.substring_char(n, n)
    } else {
        s.substring_char(i, n)
    }
}

} // verus!

