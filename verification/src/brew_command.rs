//! The brew directive: installs a package, named by a required string
//! literal, optionally followed by comma-separated parameters. The only
//! parameter keys are `args` (a list or a map of string literals) and `link`
//! (`true` or `:override`); any other key is a parse error. A later
//! occurrence of a key within one clause overwrites an earlier one.

use vstd::prelude::*;

use crate::chars::{
    ident_end, ident_end_at, lemma_ident_end_range, lemma_skip_blanks_range, range_is_word,
    skip_blank_chars, skip_blanks,
};
use crate::error::{ErrorKind, ParseError};
use crate::parsers::{
    is_last, lemma_spec_is_last_range, lemma_spec_list_range, lemma_spec_object_range, parse_list,
    parse_object, spec_is_last, spec_list, spec_object,
};
use crate::string_parser::{lemma_spec_string_range, spec_string, string};

verus! {

/// The link mode of a brew directive: unset, enabled by the literal `true`,
/// or overridden by the symbol `:override`.
#[derive(Debug, Clone, Copy, PartialEq, Eq, Structural)]
pub enum LinkOptions {
    Unset,
    Enabled,
    Override,
}

/// A parameter value: one tagged union covering every shape a parameter can
/// take, so that a consumer can handle all of them exhaustively.
#[derive(Debug, Clone, PartialEq)]
pub enum ParameterValue {
    /// A single piece of text.
    Text(String),
    /// A plain truth value.
    Boolean(bool),
    /// An ordered list of texts; order mirrors the source.
    List(Vec<String>),
    /// An ordered mapping as a sequence of key/value pairs; order mirrors
    /// the source and duplicate keys are kept as parsed.
    Pairs(Vec<(String, String)>),
}

/// The mathematical value of a parameter value.
pub enum ValueView {
    Text(Seq<char>),
    Boolean(bool),
    List(Seq<Seq<char>>),
    Pairs(Seq<(Seq<char>, Seq<char>)>),
}

impl View for ParameterValue {
    type V = ValueView;

    open spec fn view(&self) -> ValueView {
        match self {
            ParameterValue::Text(t) => ValueView::Text(t@),
            ParameterValue::Boolean(b) => ValueView::Boolean(*b),
            ParameterValue::List(l) => ValueView::List(l.deep_view()),
            ParameterValue::Pairs(m) => ValueView::Pairs(m.deep_view()),
        }
    }
}

impl DeepView for ParameterValue {
    type V = ValueView;

    open spec fn deep_view(&self) -> ValueView {
        self.view()
    }
}

/// One brew directive: a non-empty package name and its parameter mapping.
/// The mapping's keys are restricted to `args` and `link`, so it is realized
/// as one typed slot per key: `args` (absent, or a `List` or `Pairs` value) and
/// `link` (a `LinkOptions`, `Unset` when not given).
#[derive(Debug, Clone, PartialEq)]
pub struct BrewCommand {
    pub pkg: String,
    pub args: Option<ParameterValue>,
    pub link: LinkOptions,
}

/// The mathematical value of a brew directive.
pub struct BrewView {
    pub pkg: Seq<char>,
    pub args: Option<ValueView>,
    pub link: LinkOptions,
}

impl View for BrewCommand {
    type V = BrewView;

    open spec fn view(&self) -> BrewView {
        BrewView {
            pkg: self.pkg@,
            args: match self.args {
                Some(v) => Some(v@),
                None => None,
            },
            link: self.link,
        }
    }
}

impl DeepView for BrewCommand {
    type V = BrewView;

    open spec fn deep_view(&self) -> BrewView {
        self.view()
    }
}

/// Update of the parameter mapping under the key `args`.
pub open spec fn set_args(b: BrewView, v: ValueView) -> BrewView {
    BrewView { pkg: b.pkg, args: Some(v), link: b.link }
}

/// Update of the parameter mapping under the key `link`.
pub open spec fn set_link(b: BrewView, l: LinkOptions) -> BrewView {
    BrewView { pkg: b.pkg, args: b.args, link: l }
}

/// Duplicate parameter keys within one brew clause: the last occurrence
/// wins. Each parameter occurrence is applied to the directive in source
/// order as one of these updates, and a later update of the same key
/// replaces the earlier value while leaving the other key untouched.
pub proof fn lemma_param_last_wins(
    b: BrewView,
    v1: ValueView,
    v2: ValueView,
    l1: LinkOptions,
    l2: LinkOptions,
)
    ensures
        set_args(set_args(b, v1), v2) == set_args(b, v2),
        set_link(set_link(b, l1), l2) == set_link(b, l2),
        set_link(set_args(b, v1), l1).args == Some(v1),
        set_args(set_link(b, l1), v1).link == l1,
{
}

/// Reference parse of a link value at `i`: the literal `true` enables
/// linking, the symbol `:override` selects the override mode, anything else
/// is an invalid parameter value.
pub open spec fn spec_link_value(s: Seq<char>, i: int) -> Result<
    (LinkOptions, int),
    (ErrorKind, int),
> {
    if 0 <= i && i + "true"@.len() <= s.len() && s.subrange(i, i + "true"@.len() as int)
        == "true"@ {
        Ok((LinkOptions::Enabled, i + "true"@.len() as int))
    } else if 0 <= i && i + ":override"@.len() <= s.len() && s.subrange(
        i,
        i + ":override"@.len() as int,
    ) == ":override"@ {
        Ok((LinkOptions::Override, i + ":override"@.len() as int))
    } else {
        Err((ErrorKind::InvalidParameterValue, i))
    }
}

pub proof fn lemma_spec_link_value_range(s: Seq<char>, i: int)
    requires
        0 <= i <= s.len(),
    ensures
        spec_link_value(s, i) matches Ok((l, j)) ==> i < j <= s.len(),
{
    reveal_strlit("true");
    reveal_strlit(":override");
}

/// Parse a link value at `i`: `true` or `:override`.
pub fn parse_link_value(s: &str, i: usize) -> (r: Result<(LinkOptions, usize), ParseError>)
    ensures
        ({
            let sp = spec_link_value(s@, i as int);
            match r {
                Ok((l, j)) => sp == Ok::<(LinkOptions, int), (ErrorKind, int)>((l, j as int))
                    && i < j && j as int <= s@.len(),
                Err(e) => sp == Err::<(LinkOptions, int), (ErrorKind, int)>(
                    (e.kind, e.pos as int),
                ),
            }
        }),
{
    proof {
        reveal_strlit("true");
        reveal_strlit(":override");
    }
    let n = s.unicode_len();
    if i <= n && n - i >= 4 && range_is_word(s, i, i + 4, "true") {
        return Ok((LinkOptions::Enabled, i + 4));
    }
    if i <= n && n - i >= 9 && range_is_word(s, i, i + 9, ":override") {
        return Ok((LinkOptions::Override, i + 9));
    }
    Err(ParseError { kind: ErrorKind::InvalidParameterValue, pos: i })
}

/// Reference parse of an args value at `m`: a list when a `[` opens, a map
/// when a `{` opens; anything else is an invalid parameter value. Once the
/// `args` key has been read, a failure inside the list or map is final.
pub open spec fn spec_args_value(s: Seq<char>, m: int) -> Result<
    (ValueView, int),
    (ErrorKind, int),
> {
    if 0 <= m && m < s.len() && s[m] == '[' {
        match spec_list(s, m) {
            Ok((l, p)) => Ok((ValueView::List(l), p)),
            Err(e) => Err(e),
        }
    } else if 0 <= m && m < s.len() && s[m] == '{' {
        match spec_object(s, m) {
            Ok((pairs, p)) => Ok((ValueView::Pairs(pairs), p)),
            Err(e) => Err(e),
        }
    } else {
        Err((ErrorKind::InvalidParameterValue, m))
    }
}

pub proof fn lemma_spec_args_value_range(s: Seq<char>, m: int)
    requires
        0 <= m <= s.len(),
    ensures
        spec_args_value(s, m) matches Ok((v, p)) ==> m < p <= s.len(),
{
    lemma_spec_list_range(s, m);
    lemma_spec_object_range(s, m);
}

/// Reference parse of the parameter clauses of a brew directive from `i` on:
/// an identifier key, `:`, optional blanks, the key's value shape, then the
/// terminator decision, until the clause ends. Each parsed parameter updates
/// `b`, so within one clause the last occurrence of a key wins.
pub open spec fn spec_brew_params(s: Seq<char>, i: int, b: BrewView) -> Result<
    (BrewView, int),
    (ErrorKind, int),
>
    decreases s.len() - i,
{
    let j = ident_end(s, i);
    if j == i {
        Err((ErrorKind::UnknownParameter, i))
    } else {
        let key = s.subrange(i, j);
        if key == "args"@ {
            if j < s.len() && s[j] == ':' {
                let m = skip_blanks(s, j + 1);
                match spec_args_value(s, m) {
                    Err(e) => Err(e),
                    Ok((v, p)) => {
                        let b2 = set_args(b, v);
                        let (last, q) = spec_is_last(s, p);
                        if last {
                            Ok((b2, q))
                        } else {
                            proof {
                                lemma_ident_end_range(s, i);
                                lemma_skip_blanks_range(s, j + 1);
                                lemma_spec_args_value_range(s, m);
                                lemma_spec_is_last_range(s, p);
                            }
                            spec_brew_params(s, q, b2)
                        }
                    },
                }
            } else {
                Err((ErrorKind::InvalidParameterValue, j))
            }
        } else if key == "link"@ {
            if j < s.len() && s[j] == ':' {
                let m = skip_blanks(s, j + 1);
                match spec_link_value(s, m) {
                    Err(e) => Err(e),
                    Ok((lv, p)) => {
                        let b2 = set_link(b, lv);
                        let (last, q) = spec_is_last(s, p);
                        if last {
                            Ok((b2, q))
                        } else {
                            proof {
                                lemma_ident_end_range(s, i);
                                lemma_skip_blanks_range(s, j + 1);
                                lemma_spec_link_value_range(s, m);
                                lemma_spec_is_last_range(s, p);
                            }
                            spec_brew_params(s, q, b2)
                        }
                    },
                }
            } else {
                Err((ErrorKind::InvalidParameterValue, j))
            }
        } else {
            Err((ErrorKind::UnknownParameter, i))
        }
    }
}

/// Reference parse of a brew directive body at `i` (just after the `brew`
/// keyword and its blank): one required, non-empty string literal, then
/// either the end of the clause or the parameter clauses.
pub open spec fn spec_brew(s: Seq<char>, i: int) -> Result<(BrewView, int), (ErrorKind, int)> {
    match spec_string(s, i) {
        Err(e) => Err(e),
        Ok((pkg, j)) => if pkg.len() == 0 {
            Err((ErrorKind::ExpectedString, i))
        } else {
            let (last, k) = spec_is_last(s, j);
            let b = BrewView { pkg, args: None, link: LinkOptions::Unset };
            if last {
                Ok((b, k))
            } else {
                spec_brew_params(s, k, b)
            }
        },
    }
}

pub proof fn lemma_spec_brew_params_range(s: Seq<char>, i: int, b: BrewView)
    requires
        0 <= i <= s.len(),
    ensures
        spec_brew_params(s, i, b) matches Ok((b2, j)) ==> i < j <= s.len(),
    decreases s.len() - i,
{
    let j = ident_end(s, i);
    lemma_ident_end_range(s, i);
    if j != i {
        let key = s.subrange(i, j);
        if key == "args"@ {
            if j < s.len() && s[j] == ':' {
                let m = skip_blanks(s, j + 1);
                lemma_skip_blanks_range(s, j + 1);
                lemma_spec_args_value_range(s, m);
                match spec_args_value(s, m) {
                    Err(e) => {},
                    Ok((v, p)) => {
                        lemma_spec_is_last_range(s, p);
                        let (last, q) = spec_is_last(s, p);
                        if !last {
                            lemma_spec_brew_params_range(s, q, set_args(b, v));
                        }
                    },
                }
            }
        } else if key == "link"@ {
            if j < s.len() && s[j] == ':' {
                let m = skip_blanks(s, j + 1);
                lemma_skip_blanks_range(s, j + 1);
                lemma_spec_link_value_range(s, m);
                match spec_link_value(s, m) {
                    Err(e) => {},
                    Ok((lv, p)) => {
                        lemma_spec_is_last_range(s, p);
                        let (last, q) = spec_is_last(s, p);
                        if !last {
                            lemma_spec_brew_params_range(s, q, set_link(b, lv));
                        }
                    },
                }
            }
        }
    }
}

pub proof fn lemma_spec_brew_range(s: Seq<char>, i: int)
    requires
        0 <= i <= s.len(),
    ensures
        spec_brew(s, i) matches Ok((b, j)) ==> i < j <= s.len(),
{
    lemma_spec_string_range(s, i);
    match spec_string(s, i) {
        Err(e) => {},
        Ok((pkg, j)) => {
            lemma_spec_is_last_range(s, j);
            let (last, k) = spec_is_last(s, j);
            if pkg.len() != 0 && !last {
                lemma_spec_brew_params_range(
                    s,
                    k,
                    BrewView { pkg, args: None, link: LinkOptions::Unset },
                );
            }
        },
    }
}

impl BrewCommand {
    /// Parse a brew directive body at `i`. The package name must be a
    /// non-empty string literal; each following comma-separated parameter is
    /// `args: <list or map>` or `link: true | :override`, and a later
    /// occurrence of a key overwrites an earlier one.
    pub fn parse(s: &str, i: usize) -> (r: Result<(BrewCommand, usize), ParseError>)
        ensures
            ({
                let sp = spec_brew(s@, i as int);
                match r {
                    Ok((b, j)) => sp == Ok::<(BrewView, int), (ErrorKind, int)>((b@, j as int))
                        && i < j && j as int <= s@.len(),
                    Err(e) => sp == Err::<(BrewView, int), (ErrorKind, int)>(
                        (e.kind, e.pos as int),
                    ),
                }
            }),
    {
        let n = s.unicode_len();
        let (pkg, j) = match string(s, i) {
            Err(e) => {
                return Err(e);
            },
            Ok(ok) => ok,
        };
        if pkg.as_str().is_empty() {
            return Err(ParseError { kind: ErrorKind::ExpectedString, pos: i });
        }
        let (last0, k0) = is_last(s, j);
        let mut brew = BrewCommand { pkg, args: None, link: LinkOptions::Unset };
        if last0 {
            return Ok((brew, k0));
        }
        let mut at: usize = k0;
        loop
            invariant
                n == s@.len(),
                i < at <= n,
                spec_brew(s@, i as int) == spec_brew_params(s@, at as int, brew@),
            decreases n - at,
        {
            let j2 = ident_end_at(s, at);
            if j2 == at {
                return Err(ParseError { kind: ErrorKind::UnknownParameter, pos: at });
            }
            if range_is_word(s, at, j2, "args") {
                if j2 < n && s.get_char(j2) == ':' {
                    let m = skip_blank_chars(s, j2 + 1);
                    let v: ParameterValue;
                    let p: usize;
                    if m < n && s.get_char(m) == '[' {
                        match parse_list(s, m) {
                            Err(e) => {
                                return Err(e);
                            },
                            Ok((l, p2)) => {
                                v = ParameterValue::List(l);
                                p = p2;
                            },
                        }
                    } else if m < n && s.get_char(m) == '{' {
                        match parse_object(s, m) {
                            Err(e) => {
                                return Err(e);
                            },
                            Ok((pairs, p2)) => {
                                v = ParameterValue::Pairs(pairs);
                                p = p2;
                            },
                        }
                    } else {
                        return Err(ParseError { kind: ErrorKind::InvalidParameterValue, pos: m });
                    }
                    brew = BrewCommand { pkg: brew.pkg, args: Some(v), link: brew.link };
                    let (last, q) = is_last(s, p);
                    if last {
                        return Ok((brew, q));
                    }
                    at = q;
                } else {
                    return Err(ParseError { kind: ErrorKind::InvalidParameterValue, pos: j2 });
                }
            } else if range_is_word(s, at, j2, "link") {
                if j2 < n && s.get_char(j2) == ':' {
                    let m = skip_blank_chars(s, j2 + 1);
                    match parse_link_value(s, m) {
                        Err(e) => {
                            return Err(e);
                        },
                        Ok((lv, p)) => {
                            brew = BrewCommand { pkg: brew.pkg, args: brew.args, link: lv };
                            let (last, q) = is_last(s, p);
                            if last {
                                return Ok((brew, q));
                            }
                            at = q;
                        },
                    }
                } else {
                    return Err(ParseError { kind: ErrorKind::InvalidParameterValue, pos: j2 });
                }
            } else {
                return Err(ParseError { kind: ErrorKind::UnknownParameter, pos: at });
            }
        }
    }

    /// The package name this directive installs.
    pub fn pkg(self) -> (r: String)
        ensures
            r@ == self@.pkg,
    {
        self.pkg
    }
}

} // verus!
