//! Lexical primitives of the configuration language: character classes and
//! the scanners for whitespace runs, identifiers, line ends and trimming.

use vstd::prelude::*;

use crate::config::is_upper_char;

verus! {

/// Whether a character is insignificant between tokens.
pub open spec fn is_space_char(c: char) -> bool {
    c == ' ' || c == '\t' || c == '\r' || c == '\n'
}

/// Whether a character may continue an identifier: an ASCII letter, a digit,
/// or an underscore.
pub open spec fn is_ident_char(c: char) -> bool {
    is_upper_char(c) || ('a' <= c && c <= 'z') || ('0' <= c && c <= '9') || c == '_'
}

/// The first position at or after `pos` holding a non-space character, or the
/// end of the text.
pub open spec fn skip_ws(s: Seq<char>, pos: int) -> int
    decreases s.len() - pos,
{
    if 0 <= pos < s.len() && is_space_char(s[pos]) {
        skip_ws(s, pos + 1)
    } else {
        pos
    }
}

/// The first position at or after `pos` holding a character that cannot
/// continue an identifier, or the end of the text.
pub open spec fn ident_end(s: Seq<char>, pos: int) -> int
    decreases s.len() - pos,
{
    if 0 <= pos < s.len() && is_ident_char(s[pos]) {
        ident_end(s, pos + 1)
    } else {
        pos
    }
}

/// The first position at or after `pos` holding a line-ending character, or
/// the end of the text.
pub open spec fn line_end(s: Seq<char>, pos: int) -> int
    decreases s.len() - pos,
{
    if 0 <= pos < s.len() && s[pos] != '\n' && s[pos] != '\r' {
        line_end(s, pos + 1)
    } else {
        pos
    }
}

/// The position after the last non-space character strictly before `pos`, or
/// zero when only spaces lie there.
pub open spec fn trim_end_idx(s: Seq<char>, pos: int) -> int
    decreases pos,
{
    if 0 < pos <= s.len() && is_space_char(s[pos - 1]) {
        trim_end_idx(s, pos - 1)
    } else {
        pos
    }
}

/// The text with leading and trailing space characters removed.
pub open spec fn spec_trim(s: Seq<char>) -> Seq<char> {
    let a = skip_ws(s, 0);
    if a == s.len() {
        Seq::empty()
    } else {
        s.subrange(a, trim_end_idx(s, s.len() as int))
    }
}

pub broadcast proof fn lemma_skip_ws_bounds(s: Seq<char>, pos: int)
    requires
        0 <= pos <= s.len(),
    ensures
        pos <= #[trigger] skip_ws(s, pos) <= s.len(),
    decreases s.len() - pos,
{
    if pos < s.len() && is_space_char(s[pos]) {
        lemma_skip_ws_bounds(s, pos + 1);
    }
}

pub broadcast proof fn lemma_ident_end_bounds(s: Seq<char>, pos: int)
    requires
        0 <= pos <= s.len(),
    ensures
        pos <= #[trigger] ident_end(s, pos) <= s.len(),
    decreases s.len() - pos,
{
    if pos < s.len() && is_ident_char(s[pos]) {
        lemma_ident_end_bounds(s, pos + 1);
    }
}

pub broadcast proof fn lemma_line_end_bounds(s: Seq<char>, pos: int)
    requires
        0 <= pos <= s.len(),
    ensures
        pos <= #[trigger] line_end(s, pos) <= s.len(),
    decreases s.len() - pos,
{
    if pos < s.len() && s[pos] != '\n' && s[pos] != '\r' {
        lemma_line_end_bounds(s, pos + 1);
    }
}

/// After skipping spaces, either the end was reached or a non-space stands.
pub broadcast proof fn lemma_skip_ws_stops(s: Seq<char>, pos: int)
    requires
        0 <= pos <= s.len(),
    ensures
        #[trigger] skip_ws(s, pos) < s.len() ==> !is_space_char(s[skip_ws(s, pos)]),
    decreases s.len() - pos,
{
    if pos < s.len() && is_space_char(s[pos]) {
        lemma_skip_ws_stops(s, pos + 1);
    }
}

/// Whether a character is insignificant between tokens.
pub fn is_space(c: char) -> (b: bool)
    ensures
        b == is_space_char(c),
{
    c == ' ' || c == '\t' || c == '\r' || c == '\n'
}

/// Whether a character is an ASCII upper-case letter.
pub fn is_upper(c: char) -> (b: bool)
    ensures
        b == is_upper_char(c),
{
    'A' <= c && c <= 'Z'
}

/// Whether a character may continue an identifier.
pub fn is_ident(c: char) -> (b: bool)
    ensures
        b == is_ident_char(c),
{
    ('A' <= c && c <= 'Z') || ('a' <= c && c <= 'z') || ('0' <= c && c <= '9') || c == '_'
}

/// Scan past insignificant characters.
pub fn skip_whitespace(s: &str, pos: usize) -> (r: usize)
    requires
        pos <= s@.len(),
    ensures
        r == skip_ws(s@, pos as int),
        pos <= r <= s@.len(),
    {
    let n = s.unicode_len();
    let mut i: usize = pos;
    loop
        invariant
            pos <= i <= n,
            n == s@.len(),
            skip_ws(s@, pos as int) == skip_ws(s@, i as int),
        ensures
            pos <= i <= n,
            skip_ws(s@, pos as int) == skip_ws(s@, i as int),
            i == n || !is_space_char(s@[i as int]),
        decreases n - i,
    {
        if i == n {
            break;
        }
        let c = s.get_char(i);
        if !is_space(c) {
            break;
        }
        i = i + 1;
    }
    assert(skip_ws(s@, i as int) == i);
    i
}

/// Scan to the end of an identifier.
pub fn scan_ident_end(s: &str, pos: usize) -> (r: usize)
    requires
        pos <= s@.len(),
    ensures
        r == ident_end(s@, pos as int),
        pos <= r <= s@.len(),
{
    let n = s.unicode_len();
    let mut i: usize = pos;
    loop
        invariant
            pos <= i <= n,
            n == s@.len(),
            ident_end(s@, pos as int) == ident_end(s@, i as int),
        ensures
            pos <= i <= n,
            ident_end(s@, pos as int) == ident_end(s@, i as int),
            i == n || !is_ident_char(s@[i as int]),
        decreases n - i,
    {
        if i == n {
            break;
        }
        let c = s.get_char(i);
        if !is_ident(c) {
            break;
        }
        i = i + 1;
    }
    assert(ident_end(s@, i as int) == i);
    i
}

/// Scan to the end of the line: the next carriage return or newline.
pub fn scan_line_end(s: &str, pos: usize) -> (r: usize)
    requires
        pos <= s@.len(),
    ensures
        r == line_end(s@, pos as int),
        pos <= r <= s@.len(),
{
    let n = s.unicode_len();
    let mut i: usize = pos;
    loop
        invariant
            pos <= i <= n,
            n == s@.len(),
            line_end(s@, pos as int) == line_end(s@, i as int),
        ensures
            pos <= i <= n,
            line_end(s@, pos as int) == line_end(s@, i as int),
            i == n || s@[i as int] == '\n' || s@[i as int] == '\r',
        decreases n - i,
    {
        if i == n {
            break;
        }
        let c = s.get_char(i);
        if c == '\n' || c == '\r' {
            break;
        }
        i = i + 1;
    }
    assert(line_end(s@, i as int) == i);
    i
}

/// Remove leading and trailing space characters.
pub fn trim_str(s: &str) -> (r: String)
    ensures
        r@ == spec_trim(s@),
{
    let n = s.unicode_len();
    let a = skip_whitespace(s, 0);
    if a == n {
        let r = String::new();
        assert(r@ =~= spec_trim(s@));
        return r;
    }
    let mut b: usize = n;
    loop
        invariant
            a < b <= n,
            n == s@.len(),
            a == skip_ws(s@, 0),
            a < n,
            trim_end_idx(s@, n as int) == trim_end_idx(s@, b as int),
        ensures
            a < b <= n,
            trim_end_idx(s@, n as int) == trim_end_idx(s@, b as int),
            !is_space_char(s@[b - 1]),
        decreases b,
    {
        proof {
            broadcast use lemma_skip_ws_stops;

        }
        let c = s.get_char(b - 1);
        if !is_space(c) {
            break;
        }
        proof {
            if b - 1 == a {
                assert(!is_space_char(s@[a as int]));
            }
        }
        b = b - 1;
    }
    assert(trim_end_idx(s@, b as int) == b);
    s.substring_char(a, b).to_owned()
}

} // verus!
