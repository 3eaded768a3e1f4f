//! Character classes and low-level scanners shared by every parsing level:
//! blank and whitespace skipping, identifier tokens, line ends, and keyword
//! comparison.

use vstd::prelude::*;

verus! {

/// A blank: the horizontal whitespace that may surround commas and tokens
/// within one clause.
pub open spec fn is_blank_char(c: char) -> bool {
    c == ' ' || c == '\t'
}

/// Any whitespace, including line breaks: what separates directives.
pub open spec fn is_ws_char(c: char) -> bool {
    is_blank_char(c) || c == '\n' || c == '\r'
}

/// A letter, the only characters a bare identifier token is made of.
pub open spec fn is_letter_char(c: char) -> bool {
    ('a' <= c && c <= 'z') || ('A' <= c && c <= 'Z')
}

/// First position at or after `i` whose character is not a blank.
pub open spec fn skip_blanks(s: Seq<char>, i: int) -> int
    decreases s.len() - i,
{
    if 0 <= i && i < s.len() && is_blank_char(s[i]) {
        skip_blanks(s, i + 1)
    } else {
        i
    }
}

/// First position at or after `i` whose character is not whitespace.
pub open spec fn skip_ws(s: Seq<char>, i: int) -> int
    decreases s.len() - i,
{
    if 0 <= i && i < s.len() && is_ws_char(s[i]) {
        skip_ws(s, i + 1)
    } else {
        i
    }
}

/// End of the identifier token starting at `i`: first non-letter position.
pub open spec fn ident_end(s: Seq<char>, i: int) -> int
    decreases s.len() - i,
{
    if 0 <= i && i < s.len() && is_letter_char(s[i]) {
        ident_end(s, i + 1)
    } else {
        i
    }
}

/// End of the line starting at `i`: the position of the next line break, or
/// the end of the input. The line break itself is not part of the line.
pub open spec fn line_end(s: Seq<char>, i: int) -> int
    decreases s.len() - i,
{
    if 0 <= i && i < s.len() && s[i] != '\n' {
        line_end(s, i + 1)
    } else {
        i
    }
}

pub proof fn lemma_skip_blanks_range(s: Seq<char>, i: int)
    requires
        0 <= i <= s.len(),
    ensures
        i <= skip_blanks(s, i) <= s.len(),
        forall|k: int| i <= k < skip_blanks(s, i) ==> is_blank_char(s[k]),
        skip_blanks(s, i) < s.len() ==> !is_blank_char(s[skip_blanks(s, i)]),
    decreases s.len() - i,
{
    if i < s.len() && is_blank_char(s[i]) {
        lemma_skip_blanks_range(s, i + 1);
    }
}

pub proof fn lemma_skip_ws_range(s: Seq<char>, i: int)
    requires
        0 <= i <= s.len(),
    ensures
        i <= skip_ws(s, i) <= s.len(),
        forall|k: int| i <= k < skip_ws(s, i) ==> is_ws_char(s[k]),
        skip_ws(s, i) < s.len() ==> !is_ws_char(s[skip_ws(s, i)]),
    decreases s.len() - i,
{
    if i < s.len() && is_ws_char(s[i]) {
        lemma_skip_ws_range(s, i + 1);
    }
}

pub proof fn lemma_ident_end_range(s: Seq<char>, i: int)
    requires
        0 <= i <= s.len(),
    ensures
        i <= ident_end(s, i) <= s.len(),
    decreases s.len() - i,
{
    if i < s.len() && is_letter_char(s[i]) {
        lemma_ident_end_range(s, i + 1);
    }
}

pub proof fn lemma_line_end_range(s: Seq<char>, i: int)
    requires
        0 <= i <= s.len(),
    ensures
        i <= line_end(s, i) <= s.len(),
    decreases s.len() - i,
{
    if i < s.len() && s[i] != '\n' {
        lemma_line_end_range(s, i + 1);
    }
}

/// Blank skipping stops exactly at the first non-blank position.
pub proof fn lemma_skip_blanks_exact(s: Seq<char>, i: int, j: int)
    requires
        0 <= i <= j <= s.len(),
        forall|k: int| i <= k < j ==> is_blank_char(s[k]),
        j < s.len() ==> !is_blank_char(s[j]),
    ensures
        skip_blanks(s, i) == j,
    decreases j - i,
{
    if i < j {
        assert(is_blank_char(s[i]));
        lemma_skip_blanks_exact(s, i + 1, j);
    }
}

/// Whitespace skipping over an all-whitespace remainder reaches the end.
pub proof fn lemma_skip_ws_all(s: Seq<char>, i: int)
    requires
        0 <= i <= s.len(),
        forall|k: int| i <= k < s.len() ==> is_ws_char(s[k]),
    ensures
        skip_ws(s, i) == s.len(),
    decreases s.len() - i,
{
    if i < s.len() {
        lemma_skip_ws_all(s, i + 1);
    }
}

/// Skip blanks from position `i`; total for any `i`.
pub fn skip_blank_chars(s: &str, i: usize) -> (j: usize)
    ensures
        j as int == skip_blanks(s@, i as int),
        i as int <= s@.len() ==> i <= j && j as int <= s@.len(),
{
    let n = s.unicode_len();
    if i >= n {
        return i;
    }
    let mut j: usize = i;
    loop
        invariant
            i <= j <= n,
            n == s@.len(),
            skip_blanks(s@, i as int) == skip_blanks(s@, j as int),
        ensures
            j as int == skip_blanks(s@, i as int),
        decreases n - j,
    {
        if j >= n {
            break;
        }
        let c = s.get_char(j);
        if !(c == ' ' || c == '\t') {
            break;
        }
        j = j + 1;
    }
    j
}

/// Skip whitespace (blanks and line breaks) from position `i`.
pub fn skip_ws_chars(s: &str, i: usize) -> (j: usize)
    ensures
        j as int == skip_ws(s@, i as int),
        i as int <= s@.len() ==> i <= j && j as int <= s@.len(),
{
    let n = s.unicode_len();
    if i >= n {
        return i;
    }
    let mut j: usize = i;
    loop
        invariant
            i <= j <= n,
            n == s@.len(),
            skip_ws(s@, i as int) == skip_ws(s@, j as int),
        ensures
            j as int == skip_ws(s@, i as int),
        decreases n - j,
    {
        if j >= n {
            break;
        }
        let c = s.get_char(j);
        if !(c == ' ' || c == '\t' || c == '\n' || c == '\r') {
            break;
        }
        j = j + 1;
    }
    j
}

/// Scan the identifier token starting at `i`; returns its end position.
pub fn ident_end_at(s: &str, i: usize) -> (j: usize)
    ensures
        j as int == ident_end(s@, i as int),
        i as int <= s@.len() ==> i <= j && j as int <= s@.len(),
{
    let n = s.unicode_len();
    if i >= n {
        return i;
    }
    let mut j: usize = i;
    loop
        invariant
            i <= j <= n,
            n == s@.len(),
            ident_end(s@, i as int) == ident_end(s@, j as int),
        ensures
            j as int == ident_end(s@, i as int),
        decreases n - j,
    {
        if j >= n {
            break;
        }
        let c = s.get_char(j);
        if !(('a' <= c && c <= 'z') || ('A' <= c && c <= 'Z')) {
            break;
        }
        j = j + 1;
    }
    j
}

/// Find the end of the line starting at `i`.
pub fn line_end_at(s: &str, i: usize) -> (j: usize)
    ensures
        j as int == line_end(s@, i as int),
        i as int <= s@.len() ==> i <= j && j as int <= s@.len(),
{
    let n = s.unicode_len();
    if i >= n {
        return i;
    }
    let mut j: usize = i;
    loop
        invariant
            i <= j <= n,
            n == s@.len(),
            line_end(s@, i as int) == line_end(s@, j as int),
        ensures
            j as int == line_end(s@, i as int),
        decreases n - j,
    {
        if j >= n {
            break;
        }
        let c = s.get_char(j);
        if c == '\n' {
            break;
        }
        j = j + 1;
    }
    j
}

/// The characters of `s` from `i` to `j` are exactly the word `w`.
pub fn range_is_word(s: &str, i: usize, j: usize, w: &str) -> (b: bool)
    requires
        i <= j,
        j as int <= s@.len(),
    ensures
        b == (s@.subrange(i as int, j as int) == w@),
{
    let m = w.unicode_len();
    if j - i != m {
        assert(s@.subrange(i as int, j as int).len() != w@.len());
        return false;
    }
    let mut k: usize = 0;
    loop
        invariant
            0 <= k <= m,
            m == w@.len(),
            j - i == m,
            i <= j,
            j as int <= s@.len(),
            forall|x: int| 0 <= x < k ==> s@[i + x] == w@[x],
        ensures
            forall|x: int| 0 <= x < m ==> s@[i + x] == w@[x],
        decreases m - k,
    {
        if k >= m {
            break;
        }
        let a = s.get_char(i + k);
        let b = w.get_char(k);
        if a != b {
            assert(s@.subrange(i as int, j as int)[k as int] != w@[k as int]);
            return false;
        }
        k = k + 1;
    }
    proof {
        assert(s@.subrange(i as int, j as int) =~= w@);
    }
    true
}

} // verus!
