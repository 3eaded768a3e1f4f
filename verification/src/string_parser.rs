//! The string literal scanner: decodes one quoted, escaped string token.
//!
//! A string literal is a `"`, followed by content characters and escapes
//! (`\"`, `\n`, `\t`, `\\`), followed by the matching unescaped `"`. The
//! scanner returns the decoded content and the position just past the
//! closing quote.

use vstd::prelude::*;

use crate::error::{ErrorKind, ParseError};

verus! {

/// Reference scan of string content starting inside the quotes at `i`,
/// with `acc` the content decoded so far. Stops (without consuming) at the
/// first unescaped `"` or at end-of-input; fails on an unsupported escape or
/// on a backslash at end-of-input.
pub open spec fn spec_str_content(s: Seq<char>, i: int, acc: Seq<char>) -> Result<
    (Seq<char>, int),
    (ErrorKind, int),
>
    decreases s.len() - i,
{
    if 0 <= i && i < s.len() {
        let c = s[i];
        if c == '"' {
            Ok((acc, i))
        } else if c == '\\' {
            if i + 1 < s.len() {
                let e = s[i + 1];
                if e == '"' {
                    spec_str_content(s, i + 2, acc.push('"'))
                } else if e == 'n' {
                    spec_str_content(s, i + 2, acc.push('\n'))
                } else if e == 't' {
                    spec_str_content(s, i + 2, acc.push('\t'))
                } else if e == '\\' {
                    spec_str_content(s, i + 2, acc.push('\\'))
                } else {
                    Err((ErrorKind::InvalidEscape, i + 1))
                }
            } else {
                Err((ErrorKind::UnterminatedString, s.len() as int))
            }
        } else {
            spec_str_content(s, i + 1, acc.push(c))
        }
    } else {
        Ok((acc, i))
    }
}

/// Reference parse of one whole string literal at `i`: opening quote,
/// decoded content, closing quote. Yields the decoded content and the
/// position just past the closing quote.
pub open spec fn spec_string(s: Seq<char>, i: int) -> Result<(Seq<char>, int), (ErrorKind, int)> {
    if 0 <= i && i < s.len() && s[i] == '"' {
        match spec_str_content(s, i + 1, Seq::empty()) {
            Ok((t, j)) => if j < s.len() {
                Ok((t, j + 1))
            } else {
                Err((ErrorKind::UnterminatedString, j))
            },
            Err(e) => Err(e),
        }
    } else {
        Err((ErrorKind::ExpectedString, i))
    }
}

pub proof fn lemma_spec_str_content_range(s: Seq<char>, i: int, acc: Seq<char>)
    requires
        0 <= i <= s.len(),
    ensures
        spec_str_content(s, i, acc) matches Ok((t, j)) ==> i <= j <= s.len(),
    decreases s.len() - i,
{
    if i < s.len() {
        let c = s[i];
        if c == '"' {
        } else if c == '\\' {
            if i + 1 < s.len() {
                let e = s[i + 1];
                if e == '"' {
                    lemma_spec_str_content_range(s, i + 2, acc.push('"'));
                } else if e == 'n' {
                    lemma_spec_str_content_range(s, i + 2, acc.push('\n'));
                } else if e == 't' {
                    lemma_spec_str_content_range(s, i + 2, acc.push('\t'));
                } else if e == '\\' {
                    lemma_spec_str_content_range(s, i + 2, acc.push('\\'));
                }
            }
        } else {
            lemma_spec_str_content_range(s, i + 1, acc.push(c));
        }
    }
}

pub proof fn lemma_spec_string_range(s: Seq<char>, i: int)
    requires
        0 <= i <= s.len(),
    ensures
        spec_string(s, i) matches Ok((t, j)) ==> i + 2 <= j <= s.len(),
{
    if i < s.len() && s[i] == '"' {
        lemma_spec_str_content_range(s, i + 1, Seq::empty());
    }
}

/// Relies on `String`'s `FromIterator<char>` implementation (through
/// `Iterator::collect`): the collected string holds exactly the characters
/// of `v`, in order.
#[verifier::external_body]
pub(crate) fn chars_to_string(v: &Vec<char>) -> (r: String)
    ensures
        r@ == v@,
{
    v.iter().collect()
}

/// Scan and decode string content starting at `i`, assumed to be inside the
/// quotes; stops before the closing quote (or at end-of-input) and returns
/// the decoded content with the stop position.
pub fn parse_str(s: &str, i: usize) -> (r: Result<(String, usize), ParseError>)
    ensures
        ({
            let sp = spec_str_content(s@, i as int, Seq::empty());
            match r {
                Ok((t, j)) => sp == Ok::<(Seq<char>, int), (ErrorKind, int)>((t@, j as int))
                    && i <= j && (i as int <= s@.len() ==> j as int <= s@.len()),
                Err(e) => sp == Err::<(Seq<char>, int), (ErrorKind, int)>((e.kind, e.pos as int)),
            }
        }),
{
    let n = s.unicode_len();
    let mut acc: Vec<char> = Vec::new();
    if i > n {
        return Ok((chars_to_string(&acc), i));
    }
    let mut j: usize = i;
    loop
        invariant
            i <= j <= n,
            n == s@.len(),
            spec_str_content(s@, i as int, Seq::empty()) == spec_str_content(s@, j as int, acc@),
        decreases n - j,
    {
        if j >= n {
            return Ok((chars_to_string(&acc), j));
        }
        let c = s.get_char(j);
        if c == '"' {
            return Ok((chars_to_string(&acc), j));
        } else if c == '\\' {
            if j + 1 < n {
                let e = s.get_char(j + 1);
                if e == '"' {
                    acc.push('"');
                } else if e == 'n' {
                    acc.push('\n');
                } else if e == 't' {
                    acc.push('\t');
                } else if e == '\\' {
                    acc.push('\\');
                } else {
                    return Err(ParseError { kind: ErrorKind::InvalidEscape, pos: j + 1 });
                }
                j = j + 2;
            } else {
                return Err(ParseError { kind: ErrorKind::UnterminatedString, pos: n });
            }
        } else {
            acc.push(c);
            j = j + 1;
        }
    }
}

/// Parse one whole string literal at `i`: `"`, escaped content, `"`. Returns
/// the decoded content and the position just past the closing quote.
pub fn string(s: &str, i: usize) -> (r: Result<(String, usize), ParseError>)
    ensures
        ({
            let sp = spec_string(s@, i as int);
            match r {
                Ok((t, j)) => sp == Ok::<(Seq<char>, int), (ErrorKind, int)>((t@, j as int))
                    && i < j && j as int <= s@.len(),
                Err(e) => sp == Err::<(Seq<char>, int), (ErrorKind, int)>((e.kind, e.pos as int)),
            }
        }),
{
    let n = s.unicode_len();
    if i >= n {
        return Err(ParseError { kind: ErrorKind::ExpectedString, pos: i });
    }
    if s.get_char(i) != '"' {
        return Err(ParseError { kind: ErrorKind::ExpectedString, pos: i });
    }
    match parse_str(s, i + 1) {
        Ok((t, j)) => {
            if j < n {
                Ok((t, j + 1))
            } else {
                Err(ParseError { kind: ErrorKind::UnterminatedString, pos: j })
            }
        },
        Err(e) => Err(e),
    }
}

} // verus!
