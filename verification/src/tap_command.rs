//! The tap directive: registers a source repository, named by a required
//! identifier string and an optional repository URL.

use vstd::prelude::*;

use crate::error::{ErrorKind, ParseError};
use crate::parsers::{is_last, lemma_spec_is_last_range, spec_is_last};
use crate::string_parser::{lemma_spec_string_range, spec_string, string};

verus! {

/// One tap directive: a non-empty identifier (such as `user/repo`) and an
/// optional repository URL.
#[derive(Debug, Clone, PartialEq)]
pub struct TapCommand {
    pub pkg: String,
    pub url: Option<String>,
}

/// The mathematical value of a tap directive.
pub struct TapView {
    pub pkg: Seq<char>,
    pub url: Option<Seq<char>>,
}

impl View for TapCommand {
    type V = TapView;

    open spec fn view(&self) -> TapView {
        TapView {
            pkg: self.pkg@,
            url: match self.url {
                Some(u) => Some(u@),
                None => None,
            },
        }
    }
}

impl DeepView for TapCommand {
    type V = TapView;

    open spec fn deep_view(&self) -> TapView {
        self.view()
    }
}

/// Reference parse of a tap directive body at `i` (just after the `tap`
/// keyword and its blank): one required, non-empty string literal, then
/// either the end of the clause or one further string literal, the URL.
pub open spec fn spec_tap(s: Seq<char>, i: int) -> Result<(TapView, int), (ErrorKind, int)> {
    match spec_string(s, i) {
        Err(e) => Err(e),
        Ok((pkg, j)) => if pkg.len() == 0 {
            Err((ErrorKind::ExpectedString, i))
        } else {
            let (last, k) = spec_is_last(s, j);
            if last {
                Ok((TapView { pkg, url: None }, k))
            } else {
                match spec_string(s, k) {
                    Err(e) => Err(e),
                    Ok((url, m)) => Ok((TapView { pkg, url: Some(url) }, m)),
                }
            }
        },
    }
}

pub proof fn lemma_spec_tap_range(s: Seq<char>, i: int)
    requires
        0 <= i <= s.len(),
    ensures
        spec_tap(s, i) matches Ok((t, j)) ==> i < j <= s.len(),
{
    lemma_spec_string_range(s, i);
    match spec_string(s, i) {
        Err(e) => {},
        Ok((pkg, j)) => {
            lemma_spec_is_last_range(s, j);
            let (last, k) = spec_is_last(s, j);
            if !last {
                lemma_spec_string_range(s, k);
            }
        },
    }
}

impl TapCommand {
    /// Parse a tap directive body at `i`. The identifier must be a non-empty
    /// string literal; a comma after it announces the repository URL, a
    /// second string literal. Nothing is recognized after the URL.
    pub fn parse(s: &str, i: usize) -> (r: Result<(TapCommand, usize), ParseError>)
        ensures
            ({
                let sp = spec_tap(s@, i as int);
                match r {
                    Ok((t, j)) => sp == Ok::<(TapView, int), (ErrorKind, int)>((t@, j as int))
                        && i < j && j as int <= s@.len(),
                    Err(e) => sp == Err::<(TapView, int), (ErrorKind, int)>((e.kind, e.pos as int)),
                }
            }),
    {
        match string(s, i) {
            Err(e) => Err(e),
            Ok((pkg, j)) => {
                if pkg.as_str().is_empty() {
                    return Err(ParseError { kind: ErrorKind::ExpectedString, pos: i });
                }
                let (last, k) = is_last(s, j);
                if last {
                    Ok((TapCommand { pkg, url: None }, k))
                } else {
                    match string(s, k) {
                        Err(e) => Err(e),
                        Ok((url, m)) => Ok((TapCommand { pkg, url: Some(url) }, m)),
                    }
                }
            },
        }
    }
}

} // verus!
