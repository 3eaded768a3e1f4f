//! The metadata scanner: parses the body of a `##` annotation line into a
//! typed metadata field. `@description <text>` yields the text of the rest
//! of the line, trimmed; `@optional` marks the next directive optional; a
//! line with no `@` key is plain commentary and carries no field.

use vstd::prelude::*;

use crate::chars::{
    ident_end, ident_end_at, is_blank_char, line_end, line_end_at, range_is_word,
};
use crate::error::{ErrorKind, ParseError};
use crate::string_parser::chars_to_string;

verus! {

/// One typed metadata field.
#[derive(Debug, Clone, PartialEq)]
pub enum Metafield {
    /// Free-form documentation for the next directive.
    Description(String),
    /// Marks the next directive as optional.
    Optional,
}

/// The mathematical value of a metadata field.
pub enum MetafieldView {
    Description(Seq<char>),
    Optional,
}

impl View for Metafield {
    type V = MetafieldView;

    open spec fn view(&self) -> MetafieldView {
        match self {
            Metafield::Description(t) => MetafieldView::Description(t@),
            Metafield::Optional => MetafieldView::Optional,
        }
    }
}

impl DeepView for Metafield {
    type V = MetafieldView;

    open spec fn deep_view(&self) -> MetafieldView {
        self.view()
    }
}

/// A character that trimming strips from either end of a description: a
/// blank or a carriage return (a line feed cannot occur within a line).
pub open spec fn is_trim_char(c: char) -> bool {
    is_blank_char(c) || c == '\r'
}

/// First position in `[i, e)` whose character is not trimmable.
pub open spec fn trim_start_in(s: Seq<char>, i: int, e: int) -> int
    decreases e - i,
{
    if 0 <= i && i < e && i < s.len() && is_trim_char(s[i]) {
        trim_start_in(s, i + 1, e)
    } else {
        i
    }
}

/// Position just past the last non-trimmable character in `[a, e)`.
pub open spec fn trim_end_in(s: Seq<char>, a: int, e: int) -> int
    decreases e - a,
{
    if 0 <= a && a < e && e <= s.len() && is_trim_char(s[e - 1]) {
        trim_end_in(s, a, e - 1)
    } else {
        e
    }
}

/// The characters of `s` in `[i, e)` with surrounding blanks trimmed.
pub open spec fn spec_trim_range(s: Seq<char>, i: int, e: int) -> Seq<char> {
    let a = trim_start_in(s, i, e);
    let b = trim_end_in(s, a, e);
    if 0 <= a && a <= b && b <= s.len() {
        s.subrange(a, b)
    } else {
        Seq::empty()
    }
}

/// Build the trimmed text of the line span `[j, e)` of `s`.
fn trimmed_range(s: &str, j: usize, e: usize) -> (r: String)
    requires
        j <= e,
        e as int <= s@.len(),
    ensures
        r@ == spec_trim_range(s@, j as int, e as int),
{
    let ghost n = s@.len();
    let mut a: usize = j;
    loop
        invariant
            j <= a <= e,
            e as int <= n,
            n == s@.len(),
            trim_start_in(s@, j as int, e as int) == trim_start_in(s@, a as int, e as int),
        ensures
            a as int == trim_start_in(s@, j as int, e as int),
            j <= a <= e,
        decreases e - a,
    {
        if a >= e {
            break;
        }
        let c = s.get_char(a);
        if !(c == ' ' || c == '\t' || c == '\r') {
            break;
        }
        a = a + 1;
    }
    let mut b: usize = e;
    loop
        invariant
            a <= b <= e,
            e as int <= n,
            n == s@.len(),
            trim_end_in(s@, a as int, e as int) == trim_end_in(s@, a as int, b as int),
        ensures
            b as int == trim_end_in(s@, a as int, e as int),
            a <= b <= e,
        decreases b,
    {
        if b <= a {
            break;
        }
        let c = s.get_char(b - 1);
        if !(c == ' ' || c == '\t' || c == '\r') {
            break;
        }
        b = b - 1;
    }
    let mut acc: Vec<char> = Vec::new();
    let mut k: usize = a;
    proof {
        assert(acc@ =~= s@.subrange(a as int, a as int));
    }
    loop
        invariant
            a <= k <= b <= e,
            e as int <= n,
            n == s@.len(),
            acc@ == s@.subrange(a as int, k as int),
        ensures
            acc@ == s@.subrange(a as int, b as int),
        decreases b - k,
    {
        if k >= b {
            break;
        }
        let c = s.get_char(k);
        acc.push(c);
        k = k + 1;
        proof {
            assert(acc@ =~= s@.subrange(a as int, k as int));
        }
    }
    chars_to_string(&acc)
}

/// Reference parse of a metadata line body at `i`, just after the `##`
/// marker and its blanks. An `@` introduces a key: `description` takes the
/// trimmed remainder of the line, `optional` discards it, anything else is
/// an unknown metadata key. Without an `@` the line is plain commentary and
/// carries no field. The closing line break is not consumed.
pub open spec fn spec_metafield(s: Seq<char>, i: int) -> Result<
    (Option<MetafieldView>, int),
    (ErrorKind, int),
> {
    if 0 <= i && i < s.len() && s[i] == '@' {
        let j = ident_end(s, i + 1);
        let key = s.subrange(i + 1, j);
        if key == "description"@ {
            let e = line_end(s, j);
            Ok((Some(MetafieldView::Description(spec_trim_range(s, j, e))), e))
        } else if key == "optional"@ {
            Ok((Some(MetafieldView::Optional), line_end(s, j)))
        } else {
            Err((ErrorKind::UnknownMetadataKey, i + 1))
        }
    } else {
        Ok((None, line_end(s, i)))
    }
}

pub proof fn lemma_spec_metafield_range(s: Seq<char>, i: int)
    requires
        0 <= i <= s.len(),
    ensures
        spec_metafield(s, i) matches Ok((f, j)) ==> i <= j <= s.len(),
{
    crate::chars::lemma_line_end_range(s, i);
    if i < s.len() && s[i] == '@' {
        crate::chars::lemma_ident_end_range(s, i + 1);
        let j = ident_end(s, i + 1);
        crate::chars::lemma_line_end_range(s, j);
    }
}

impl Metafield {
    /// Parse a metadata line body at `i`, just after the `##` marker and its
    /// blanks. Returns the field, or `None` for plain commentary, together
    /// with the position of the line's end.
    pub fn parse(s: &str, i: usize) -> (r: Result<(Option<Metafield>, usize), ParseError>)
        ensures
            ({
                let sp = spec_metafield(s@, i as int);
                match r {
                    Ok((f, j)) => sp == Ok::<(Option<MetafieldView>, int), (ErrorKind, int)>(
                        (f.deep_view(), j as int),
                    ) && i <= j && (i as int <= s@.len() ==> j as int <= s@.len()),
                    Err(e) => sp == Err::<(Option<MetafieldView>, int), (ErrorKind, int)>(
                        (e.kind, e.pos as int),
                    ),
                }
            }),
    {
        let n = s.unicode_len();
        if i < n && s.get_char(i) == '@' {
            let j = ident_end_at(s, i + 1);
            if range_is_word(s, i + 1, j, "description") {
                let e = line_end_at(s, j);
                let text = trimmed_range(s, j, e);
                Ok((Some(Metafield::Description(text)), e))
            } else if range_is_word(s, i + 1, j, "optional") {
                Ok((Some(Metafield::Optional), line_end_at(s, j)))
            } else {
                Err(ParseError { kind: ErrorKind::UnknownMetadataKey, pos: i + 1 })
            }
        } else {
            Ok((None, line_end_at(s, i)))
        }
    }
}

} // verus!
