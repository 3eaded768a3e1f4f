//! The terminator scanner and the list/map parsers.
//!
//! The terminator scanner is the single decision point, shared by every
//! parsing level, that decides after a completed value whether a
//! comma-separated continuation follows or the clause ends.

use vstd::prelude::*;

use crate::chars::{
    is_blank_char, is_ws_char, lemma_skip_blanks_range, lemma_skip_ws_range, skip_blank_chars,
    skip_blanks, skip_ws, skip_ws_chars,
};
use crate::error::{ErrorKind, ParseError};
use crate::string_parser::{lemma_spec_string_range, spec_string, string};

verus! {

/// Reference scan for a separating comma at `i`: optional blanks, a comma,
/// optional blanks. `None` when no comma follows the blanks.
pub open spec fn spec_parse_spacer(s: Seq<char>, i: int) -> Option<int> {
    let j = skip_blanks(s, i);
    if j < s.len() && s[j] == ',' {
        Some(skip_blanks(s, j + 1))
    } else {
        None
    }
}

/// Reference terminator decision at `i`, just after a completed value:
/// a comma (optionally surrounded by blanks, but no line break before it)
/// means the clause continues; otherwise the clause ends and any run of
/// whitespace is consumed. Returns (is-last, next position).
pub open spec fn spec_is_last(s: Seq<char>, i: int) -> (bool, int) {
    match spec_parse_spacer(s, i) {
        Some(k) => (false, k),
        None => (true, skip_ws(s, i)),
    }
}

pub proof fn lemma_spec_is_last_range(s: Seq<char>, i: int)
    requires
        0 <= i <= s.len(),
    ensures
        i <= spec_is_last(s, i).1 <= s.len(),
{
    lemma_skip_blanks_range(s, i);
    let j = skip_blanks(s, i);
    if j < s.len() && s[j] == ',' {
        lemma_skip_blanks_range(s, j + 1);
    } else {
        lemma_skip_ws_range(s, i);
    }
}

/// Scan for a separating comma with optional surrounding blanks; `None`
/// (nothing consumed) when no comma follows.
pub fn parse_spacer(s: &str, i: usize) -> (r: Option<usize>)
    ensures
        ({
            let sp = spec_parse_spacer(s@, i as int);
            match r {
                Some(k) => sp == Some(k as int),
                None => sp is None,
            }
        }),
{
    let n = s.unicode_len();
    let j = skip_blank_chars(s, i);
    if j < n && s.get_char(j) == ',' {
        Some(skip_blank_chars(s, j + 1))
    } else {
        None
    }
}

/// The terminator decision at `i`: returns (is-last, next position). Never
/// fails; when the clause ends, trailing whitespace is consumed.
pub fn is_last(s: &str, i: usize) -> (r: (bool, usize))
    ensures
        ({
            let sp = spec_is_last(s@, i as int);
            sp.0 == r.0 && sp.1 == r.1 as int
        }),
        i as int <= s@.len() ==> i <= r.1 && r.1 as int <= s@.len(),
{
    proof {
        if i as int <= s@.len() {
            lemma_spec_is_last_range(s@, i as int);
        }
    }
    match parse_spacer(s, i) {
        Some(k) => (false, k),
        None => (true, skip_ws_chars(s, i)),
    }
}

/// Reference parse of the list elements from the first element at `i` on:
/// string literals separated by the terminator scanner, closed by `]`.
/// `acc` holds the elements decoded so far.
pub open spec fn spec_list_elems(s: Seq<char>, i: int, acc: Seq<Seq<char>>) -> Result<
    (Seq<Seq<char>>, int),
    (ErrorKind, int),
>
    decreases s.len() - i,
{
    if !(0 <= i && i < s.len() && s[i] == '"') {
        Err((ErrorKind::MalformedListOrMap, i))
    } else {
        match spec_string(s, i) {
            Err(e) => Err(e),
            Ok((t, j)) => {
                let (last, k) = spec_is_last(s, j);
                if last {
                    if k < s.len() && s[k] == ']' {
                        Ok((acc.push(t), k + 1))
                    } else {
                        Err((ErrorKind::MalformedListOrMap, k))
                    }
                } else {
                    proof {
                        lemma_spec_string_range(s, i);
                        lemma_spec_is_last_range(s, j);
                    }
                    spec_list_elems(s, k, acc.push(t))
                }
            },
        }
    }
}

/// Reference parse of a whole list at `i`: `[`, optionally blank-padded
/// elements, `]`. Yields the decoded elements in source order.
pub open spec fn spec_list(s: Seq<char>, i: int) -> Result<(Seq<Seq<char>>, int), (ErrorKind, int)> {
    if 0 <= i && i < s.len() && s[i] == '[' {
        let j = skip_blanks(s, i + 1);
        if j < s.len() && s[j] == ']' {
            Ok((Seq::empty(), j + 1))
        } else {
            spec_list_elems(s, j, Seq::empty())
        }
    } else {
        Err((ErrorKind::MalformedListOrMap, i))
    }
}

pub proof fn lemma_spec_list_elems_range(s: Seq<char>, i: int, acc: Seq<Seq<char>>)
    requires
        0 <= i <= s.len(),
    ensures
        spec_list_elems(s, i, acc) matches Ok((l, j)) ==> i < j <= s.len(),
    decreases s.len() - i,
{
    if 0 <= i && i < s.len() && s[i] == '"' {
        match spec_string(s, i) {
            Err(e) => {},
            Ok((t, j)) => {
                lemma_spec_string_range(s, i);
                lemma_spec_is_last_range(s, j);
                let (last, k) = spec_is_last(s, j);
                if !last {
                    lemma_spec_list_elems_range(s, k, acc.push(t));
                }
            },
        }
    }
}

pub proof fn lemma_spec_list_range(s: Seq<char>, i: int)
    requires
        0 <= i <= s.len(),
    ensures
        spec_list(s, i) matches Ok((l, j)) ==> i < j <= s.len(),
{
    if 0 <= i && i < s.len() && s[i] == '[' {
        lemma_skip_blanks_range(s, i + 1);
        lemma_spec_list_elems_range(s, skip_blanks(s, i + 1), Seq::empty());
    }
}

/// Parse a list at `i`: `[`, zero or more string literals separated by
/// blank-padded commas (no trailing comma), `]`. Elements keep source order.
pub fn parse_list(s: &str, i: usize) -> (r: Result<(Vec<String>, usize), ParseError>)
    ensures
        ({
            let sp = spec_list(s@, i as int);
            match r {
                Ok((l, j)) => sp == Ok::<(Seq<Seq<char>>, int), (ErrorKind, int)>(
                    (l.deep_view(), j as int),
                ) && i < j && j as int <= s@.len(),
                Err(e) => sp == Err::<(Seq<Seq<char>>, int), (ErrorKind, int)>(
                    (e.kind, e.pos as int),
                ),
            }
        }),
{
    let n = s.unicode_len();
    if i >= n || s.get_char(i) != '[' {
        return Err(ParseError { kind: ErrorKind::MalformedListOrMap, pos: i });
    }
    let j0 = skip_blank_chars(s, i + 1);
    if j0 < n && s.get_char(j0) == ']' {
        let empty: Vec<String> = Vec::new();
        proof {
            assert(empty.deep_view() =~= Seq::<Seq<char>>::empty());
        }
        return Ok((empty, j0 + 1));
    }
    let mut acc: Vec<String> = Vec::new();
    let mut j: usize = j0;
    proof {
        assert(acc.deep_view() =~= Seq::<Seq<char>>::empty());
    }
    loop
        invariant
            n == s@.len(),
            i < j <= n,
            spec_list(s@, i as int) == spec_list_elems(s@, j as int, acc.deep_view()),
        decreases n - j,
    {
        if j >= n || s.get_char(j) != '"' {
            return Err(ParseError { kind: ErrorKind::MalformedListOrMap, pos: j });
        }
        match string(s, j) {
            Err(e) => {
                return Err(e);
            },
            Ok((t, j2)) => {
                let (last, k) = is_last(s, j2);
                let ghost pre = acc.deep_view();
                let ghost tv = t@;
                acc.push(t);
                proof {
                    assert(acc.deep_view() =~= pre.push(tv));
                }
                if last {
                    if k < n && s.get_char(k) == ']' {
                        return Ok((acc, k + 1));
                    }
                    return Err(ParseError { kind: ErrorKind::MalformedListOrMap, pos: k });
                }
                j = k;
            },
        }
    }
}

/// Reference parse of one `key : value` pair of string literals at `i`,
/// with optional blanks after the colon.
pub open spec fn spec_key_value(s: Seq<char>, i: int) -> Result<
    ((Seq<char>, Seq<char>), int),
    (ErrorKind, int),
> {
    if !(0 <= i && i < s.len() && s[i] == '"') {
        Err((ErrorKind::MalformedListOrMap, i))
    } else {
        match spec_string(s, i) {
            Err(e) => Err(e),
            Ok((key, j)) => {
                if j < s.len() && s[j] == ':' {
                    let m = skip_blanks(s, j + 1);
                    if m < s.len() && s[m] == '"' {
                        match spec_string(s, m) {
                            Err(e) => Err(e),
                            Ok((val, p)) => Ok(((key, val), p)),
                        }
                    } else {
                        Err((ErrorKind::MalformedListOrMap, m))
                    }
                } else {
                    Err((ErrorKind::MalformedListOrMap, j))
                }
            },
        }
    }
}

pub proof fn lemma_spec_key_value_range(s: Seq<char>, i: int)
    requires
        0 <= i <= s.len(),
    ensures
        spec_key_value(s, i) matches Ok((kv, p)) ==> i < p <= s.len(),
{
    if 0 <= i && i < s.len() && s[i] == '"' {
        lemma_spec_string_range(s, i);
        match spec_string(s, i) {
            Err(e) => {},
            Ok((key, j)) => {
                if j < s.len() && s[j] == ':' {
                    lemma_skip_blanks_range(s, j + 1);
                    let m = skip_blanks(s, j + 1);
                    lemma_spec_string_range(s, m);
                }
            },
        }
    }
}

/// Parse one `key : value` pair of string literals at `i`.
pub fn key_value(s: &str, i: usize) -> (r: Result<((String, String), usize), ParseError>)
    ensures
        ({
            let sp = spec_key_value(s@, i as int);
            match r {
                Ok((kv, p)) => sp == Ok::<((Seq<char>, Seq<char>), int), (ErrorKind, int)>(
                    ((kv.0@, kv.1@), p as int),
                ) && i < p && p as int <= s@.len(),
                Err(e) => sp == Err::<((Seq<char>, Seq<char>), int), (ErrorKind, int)>(
                    (e.kind, e.pos as int),
                ),
            }
        }),
{
    let n = s.unicode_len();
    if i >= n || s.get_char(i) != '"' {
        return Err(ParseError { kind: ErrorKind::MalformedListOrMap, pos: i });
    }
    match string(s, i) {
        Err(e) => Err(e),
        Ok((key, j)) => {
            if j < n && s.get_char(j) == ':' {
                let m = skip_blank_chars(s, j + 1);
                if m < n && s.get_char(m) == '"' {
                    match string(s, m) {
                        Err(e) => Err(e),
                        Ok((val, p)) => Ok(((key, val), p)),
                    }
                } else {
                    Err(ParseError { kind: ErrorKind::MalformedListOrMap, pos: m })
                }
            } else {
                Err(ParseError { kind: ErrorKind::MalformedListOrMap, pos: j })
            }
        },
    }
}

/// Reference parse of the map pairs from the first pair at `i` on, closed by
/// `}`. `acc` holds the pairs parsed so far, in source order, duplicates kept.
pub open spec fn spec_object_elems(s: Seq<char>, i: int, acc: Seq<(Seq<char>, Seq<char>)>) -> Result<
    (Seq<(Seq<char>, Seq<char>)>, int),
    (ErrorKind, int),
>
    decreases s.len() - i,
{
    match spec_key_value(s, i) {
        Err(e) => Err(e),
        Ok((kv, p)) => {
            let (last, k) = spec_is_last(s, p);
            if last {
                if k < s.len() && s[k] == '}' {
                    Ok((acc.push(kv), k + 1))
                } else {
                    Err((ErrorKind::MalformedListOrMap, k))
                }
            } else {
                proof {
                    if 0 <= i && i <= s.len() {
                        lemma_spec_key_value_range(s, i);
                        lemma_spec_is_last_range(s, p);
                    }
                }
                spec_object_elems(s, k, acc.push(kv))
            }
        },
    }
}

/// Reference parse of a whole map at `i`: `{`, optionally blank-padded
/// `key : value` pairs, `}`. Pairs keep source order; duplicates are kept as
/// parsed.
pub open spec fn spec_object(s: Seq<char>, i: int) -> Result<
    (Seq<(Seq<char>, Seq<char>)>, int),
    (ErrorKind, int),
> {
    if 0 <= i && i < s.len() && s[i] == '{' {
        let j = skip_blanks(s, i + 1);
        if j < s.len() && s[j] == '}' {
            Ok((Seq::empty(), j + 1))
        } else {
            spec_object_elems(s, j, Seq::empty())
        }
    } else {
        Err((ErrorKind::MalformedListOrMap, i))
    }
}

pub proof fn lemma_spec_object_elems_range(s: Seq<char>, i: int, acc: Seq<(Seq<char>, Seq<char>)>)
    requires
        0 <= i <= s.len(),
    ensures
        spec_object_elems(s, i, acc) matches Ok((l, j)) ==> i < j <= s.len(),
    decreases s.len() - i,
{
    match spec_key_value(s, i) {
        Err(e) => {},
        Ok((kv, p)) => {
            lemma_spec_key_value_range(s, i);
            lemma_spec_is_last_range(s, p);
            let (last, k) = spec_is_last(s, p);
            if !last {
                lemma_spec_object_elems_range(s, k, acc.push(kv));
            }
        },
    }
}

pub proof fn lemma_spec_object_range(s: Seq<char>, i: int)
    requires
        0 <= i <= s.len(),
    ensures
        spec_object(s, i) matches Ok((l, j)) ==> i < j <= s.len(),
{
    if 0 <= i && i < s.len() && s[i] == '{' {
        lemma_skip_blanks_range(s, i + 1);
        lemma_spec_object_elems_range(s, skip_blanks(s, i + 1), Seq::empty());
    }
}

/// Parse a map at `i`: `{`, zero or more `key : value` pairs of string
/// literals separated by blank-padded commas (no trailing comma), `}`.
pub fn parse_object(s: &str, i: usize) -> (r: Result<(Vec<(String, String)>, usize), ParseError>)
    ensures
        ({
            let sp = spec_object(s@, i as int);
            match r {
                Ok((l, j)) => sp == Ok::<(Seq<(Seq<char>, Seq<char>)>, int), (ErrorKind, int)>(
                    (l.deep_view(), j as int),
                ) && i < j && j as int <= s@.len(),
                Err(e) => sp == Err::<(Seq<(Seq<char>, Seq<char>)>, int), (ErrorKind, int)>(
                    (e.kind, e.pos as int),
                ),
            }
        }),
{
    let n = s.unicode_len();
    if i >= n || s.get_char(i) != '{' {
        return Err(ParseError { kind: ErrorKind::MalformedListOrMap, pos: i });
    }
    let j0 = skip_blank_chars(s, i + 1);
    if j0 < n && s.get_char(j0) == '}' {
        let empty: Vec<(String, String)> = Vec::new();
        proof {
            assert(empty.deep_view() =~= Seq::<(Seq<char>, Seq<char>)>::empty());
        }
        return Ok((empty, j0 + 1));
    }
    let mut acc: Vec<(String, String)> = Vec::new();
    let mut j: usize = j0;
    proof {
        assert(acc.deep_view() =~= Seq::<(Seq<char>, Seq<char>)>::empty());
    }
    loop
        invariant
            n == s@.len(),
            i < j <= n,
            spec_object(s@, i as int) == spec_object_elems(s@, j as int, acc.deep_view()),
        decreases n - j,
    {
        match key_value(s, j) {
            Err(e) => {
                return Err(e);
            },
            Ok((kv, p)) => {
                let (last, k) = is_last(s, p);
                let ghost pre = acc.deep_view();
                let ghost kvv = (kv.0@, kv.1@);
                acc.push(kv);
                proof {
                    assert(acc.deep_view() =~= pre.push(kvv));
                }
                if last {
                    if k < n && s.get_char(k) == '}' {
                        return Ok((acc, k + 1));
                    }
                    return Err(ParseError { kind: ErrorKind::MalformedListOrMap, pos: k });
                }
                j = k;
            },
        }
    }
}


/// A comma after optional blanks (no line break before it) means the clause
/// continues: the terminator reports not-last, whatever follows the comma.
pub proof fn lemma_terminator_comma_continues(s: Seq<char>, i: int, j: int)
    requires
        0 <= i <= j < s.len(),
        forall|k: int| i <= k < j ==> is_blank_char(s[k]),
        s[j] == ',',
    ensures
        !spec_is_last(s, i).0,
{
    crate::chars::lemma_skip_blanks_exact(s, i, j);
}

/// With nothing but whitespace — and so no comma — between `i` and the end
/// of the input, the terminator reports last and consumes the remainder.
pub proof fn lemma_terminator_end_is_last(s: Seq<char>, i: int)
    requires
        0 <= i <= s.len(),
        forall|k: int| i <= k < s.len() ==> is_ws_char(s[k]),
    ensures
        spec_is_last(s, i).0,
        spec_is_last(s, i).1 == s.len(),
{
    lemma_skip_blanks_range(s, i);
    crate::chars::lemma_skip_ws_all(s, i);
    let j = skip_blanks(s, i);
    if j < s.len() {
        assert(is_ws_char(s[j]));
        assert(s[j] != ',');
    }
}

/// List elements are only ever appended: parsing the elements with a
/// non-empty accumulator yields the accumulator followed by exactly the
/// elements parsed from an empty accumulator. The elements of a parsed list
/// are therefore the decoded string literals in source order.
pub proof fn lemma_list_elems_accumulate(s: Seq<char>, i: int, acc: Seq<Seq<char>>)
    requires
        0 <= i <= s.len(),
    ensures
        ({
            match (spec_list_elems(s, i, acc), spec_list_elems(s, i, Seq::empty())) {
                (Ok((l, j)), Ok((l0, j0))) => l == acc + l0 && j == j0,
                (Err(e), Err(e0)) => e == e0,
                _ => false,
            }
        }),
    decreases s.len() - i,
{
    if 0 <= i && i < s.len() && s[i] == '"' {
        match spec_string(s, i) {
            Err(e) => {},
            Ok((t, j)) => {
                lemma_spec_string_range(s, i);
                lemma_spec_is_last_range(s, j);
                let (last, k) = spec_is_last(s, j);
                if last {
                    assert(acc.push(t) =~= acc + Seq::empty().push(t));
                } else {
                    lemma_list_elems_accumulate(s, k, acc.push(t));
                    lemma_list_elems_accumulate(s, k, Seq::empty().push(t));
                    match (spec_list_elems(s, k, Seq::empty()), spec_list_elems(
                        s,
                        k,
                        acc.push(t),
                    )) {
                        (Ok((lk, jk)), Ok((l, j2))) => {
                            assert(l == acc.push(t) + lk);
                            assert(acc.push(t) + lk =~= acc + (Seq::empty().push(t) + lk));
                        },
                        _ => {},
                    }
                }
            },
        }
    }
}

/// Map pairs are only ever appended, exactly as list elements are: the
/// pairs of a parsed map are the decoded key/value pairs in source order,
/// duplicates kept as parsed.
pub proof fn lemma_object_elems_accumulate(s: Seq<char>, i: int, acc: Seq<(Seq<char>, Seq<char>)>)
    requires
        0 <= i <= s.len(),
    ensures
        ({
            match (spec_object_elems(s, i, acc), spec_object_elems(s, i, Seq::empty())) {
                (Ok((l, j)), Ok((l0, j0))) => l == acc + l0 && j == j0,
                (Err(e), Err(e0)) => e == e0,
                _ => false,
            }
        }),
    decreases s.len() - i,
{
    match spec_key_value(s, i) {
        Err(e) => {},
        Ok((kv, p)) => {
            lemma_spec_key_value_range(s, i);
            lemma_spec_is_last_range(s, p);
            let (last, k) = spec_is_last(s, p);
            if last {
                assert(acc.push(kv) =~= acc + Seq::empty().push(kv));
            } else {
                lemma_object_elems_accumulate(s, k, acc.push(kv));
                lemma_object_elems_accumulate(s, k, Seq::empty().push(kv));
                match (spec_object_elems(s, k, Seq::empty()), spec_object_elems(
                    s,
                    k,
                    acc.push(kv),
                )) {
                    (Ok((lk, jk)), Ok((l, j2))) => {
                        assert(l == acc.push(kv) + lk);
                        assert(acc.push(kv) + lk =~= acc + (Seq::empty().push(kv) + lk));
                    },
                    _ => {},
                }
            }
        },
    }
}


/// A combinator that runs one parser with surrounding whitespace trimmed:
/// leading whitespace is skipped, `parser` (a function from the input and a
/// character position to a parsed value with its next position, or a
/// failure) runs at the first non-whitespace position `j`, and on success
/// the whitespace after the parsed value is skipped as well.
pub fn parse_line<T, F: Fn(&str, usize) -> Result<(T, usize), ParseError>>(
    parser: F,
    s: &str,
    i: usize,
) -> (r: Result<(T, usize), ParseError>)
    requires
        forall|j: usize| j as int == skip_ws(s@, i as int) ==> #[trigger] call_requires(
            parser,
            (s, j),
        ),
    ensures
        r matches Ok((v, k)) ==> exists|j: usize, p: usize|
            #[trigger] call_ensures(parser, (s, j), Ok::<(T, usize), ParseError>((v, p)))
                && j as int == skip_ws(s@, i as int) && k as int == skip_ws(s@, p as int),
        r matches Err(e) ==> exists|j: usize|
            j as int == skip_ws(s@, i as int) && #[trigger] call_ensures(
                parser,
                (s, j),
                Err::<(T, usize), ParseError>(e),
            ),
{
    let j = skip_ws_chars(s, i);
    match parser(s, j) {
        Ok((v, p)) => {
            let k = skip_ws_chars(s, p);
            let res: Result<(T, usize), ParseError> = Ok((v, k));
            proof {
                // Name the parser's guarantee in terms of the result's own
                // components, so the existential witness (j, p) is found.
                assert(res matches Ok((v2, k2)) ==> call_ensures(
                    parser,
                    (s, j),
                    Ok::<(T, usize), ParseError>((v2, p)),
                ));
            }
            res
        },
        Err(e) => Err(e),
    }
}

} // verus!


