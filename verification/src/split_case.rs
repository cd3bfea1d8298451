//! Case-based name normalization: split an identifier into case words,
//! merge runs of single letters, collapse adjacent repeats, and join.
//!
//! A token is a digit run, an upper-case letter with its following
//! lower-case run, or — only at the very start of the text — a bare
//! lower-case run; any other character separates tokens and is dropped.

use vstd::prelude::*;

use crate::config::is_upper_char;

verus! {

/// Whether a character is an ASCII digit.
pub open spec fn is_digit_char(c: char) -> bool {
    '0' <= c && c <= '9'
}

/// Whether a character is an ASCII lower-case letter.
pub open spec fn is_lower_char(c: char) -> bool {
    'a' <= c && c <= 'z'
}

/// The first position at or after `pos` holding a non-digit, or the end.
pub open spec fn digit_end(s: Seq<char>, pos: int) -> int
    decreases s.len() - pos,
{
    if 0 <= pos < s.len() && is_digit_char(s[pos]) {
        digit_end(s, pos + 1)
    } else {
        pos
    }
}

/// The first position at or after `pos` holding a character that is not a
/// lower-case letter, or the end.
pub open spec fn lower_end(s: Seq<char>, pos: int) -> int
    decreases s.len() - pos,
{
    if 0 <= pos < s.len() && is_lower_char(s[pos]) {
        lower_end(s, pos + 1)
    } else {
        pos
    }
}

pub broadcast proof fn lemma_digit_end_bounds(s: Seq<char>, pos: int)
    requires
        0 <= pos <= s.len(),
    ensures
        pos <= #[trigger] digit_end(s, pos) <= s.len(),
    decreases s.len() - pos,
{
    if pos < s.len() && is_digit_char(s[pos]) {
        lemma_digit_end_bounds(s, pos + 1);
    }
}

pub broadcast proof fn lemma_lower_end_bounds(s: Seq<char>, pos: int)
    requires
        0 <= pos <= s.len(),
    ensures
        pos <= #[trigger] lower_end(s, pos) <= s.len(),
    decreases s.len() - pos,
{
    if pos < s.len() && is_lower_char(s[pos]) {
        lemma_lower_end_bounds(s, pos + 1);
    }
}

/// The case tokens of the text from `pos` on: digit runs, an upper-case
/// letter with its lower-case tail, and — at the start only — a bare
/// lower-case run; every other character is dropped.
pub open spec fn spec_tokens(s: Seq<char>, pos: int) -> Seq<Seq<char>>
    decreases s.len() - pos,
    when 0 <= pos <= s.len()
    via spec_tokens_decreases
{
    if pos >= s.len() {
        Seq::empty()
    } else if is_digit_char(s[pos]) {
        seq![s.subrange(pos, digit_end(s, pos + 1))] + spec_tokens(s, digit_end(s, pos + 1))
    } else if is_upper_char(s[pos]) {
        seq![s.subrange(pos, lower_end(s, pos + 1))] + spec_tokens(s, lower_end(s, pos + 1))
    } else if pos == 0 && is_lower_char(s[pos]) {
        seq![s.subrange(0, lower_end(s, 1))] + spec_tokens(s, lower_end(s, 1))
    } else {
        spec_tokens(s, pos + 1)
    }
}

#[via_fn]
proof fn spec_tokens_decreases(s: Seq<char>, pos: int) {
    if pos < s.len() {
        lemma_digit_end_bounds(s, pos + 1);
        lemma_lower_end_bounds(s, pos + 1);
        lemma_lower_end_bounds(s, 1);
    }
}

/// The first position at or after `pos` whose token is more than one
/// character long, or the end.
pub open spec fn singles_end(ts: Seq<Seq<char>>, pos: int) -> int
    decreases ts.len() - pos,
{
    if 0 <= pos < ts.len() && ts[pos].len() == 1 {
        singles_end(ts, pos + 1)
    } else {
        pos
    }
}

pub broadcast proof fn lemma_singles_end_bounds(ts: Seq<Seq<char>>, pos: int)
    requires
        0 <= pos <= ts.len(),
    ensures
        pos <= #[trigger] singles_end(ts, pos) <= ts.len(),
    decreases ts.len() - pos,
{
    if pos < ts.len() && ts[pos].len() == 1 {
        lemma_singles_end_bounds(ts, pos + 1);
    }
}

/// The characters of the tokens from `pos` up to `end`, concatenated.
pub open spec fn concat_range(ts: Seq<Seq<char>>, pos: int, end: int) -> Seq<char>
    decreases end - pos,
{
    if pos >= end {
        Seq::empty()
    } else {
        ts[pos] + concat_range(ts, pos + 1, end)
    }
}

/// The words of the token list from `pos` on: each maximal run of
/// single-character tokens becomes one word; every longer token stands
/// alone.
pub open spec fn spec_batch(ts: Seq<Seq<char>>, pos: int) -> Seq<Seq<char>>
    decreases ts.len() - pos,
    when 0 <= pos <= ts.len()
    via spec_batch_decreases
{
    if pos >= ts.len() {
        Seq::empty()
    } else if ts[pos].len() != 1 {
        seq![ts[pos]] + spec_batch(ts, pos + 1)
    } else {
        let k = singles_end(ts, pos);
        seq![concat_range(ts, pos, k)] + spec_batch(ts, k)
    }
}

#[via_fn]
proof fn spec_batch_decreases(ts: Seq<Seq<char>>, pos: int) {
    if pos < ts.len() && ts[pos].len() == 1 {
        lemma_singles_end_bounds(ts, pos);
        assert(singles_end(ts, pos) == singles_end(ts, pos + 1));
        lemma_singles_end_bounds(ts, pos + 1);
    }
}

/// The words from `pos` on with adjacent repeats collapsed: of two equal
/// neighbours only the later survives, which keeps exactly one copy of
/// every maximal run of equal words.
pub open spec fn spec_dedup_adjacent(ws: Seq<Seq<char>>, pos: int) -> Seq<Seq<char>>
    decreases ws.len() - pos,
{
    if !(0 <= pos < ws.len()) {
        Seq::empty()
    } else if pos + 1 < ws.len() && ws[pos] == ws[pos + 1] {
        spec_dedup_adjacent(ws, pos + 1)
    } else {
        seq![ws[pos]] + spec_dedup_adjacent(ws, pos + 1)
    }
}

/// The normalized form of a name: its case words, runs of single letters
/// merged, adjacent repeats collapsed, joined without separators.
pub open spec fn spec_normalize(s: Seq<char>) -> Seq<char> {
    let words = spec_dedup_adjacent(spec_batch(spec_tokens(s, 0), 0), 0);
    concat_range(words, 0, words.len() as int)
}

/// Collect the case tokens of a text.
fn scan_tokens(s: &str) -> (r: Vec<String>)
    ensures
        crate::config::strs_view(r@) == spec_tokens(s@, 0),
{
    broadcast use lemma_digit_end_bounds, lemma_lower_end_bounds;

    let n = s.unicode_len();
    let mut out: Vec<String> = Vec::new();
    let mut pos: usize = 0;
    proof {
        assert(crate::config::strs_view(out@) =~= Seq::<Seq<char>>::empty());
        assert(Seq::<Seq<char>>::empty() + spec_tokens(s@, 0) =~= spec_tokens(s@, 0));
    }
    while pos < n
        invariant
            pos <= n,
            n == s@.len(),
            crate::config::strs_view(out@) + spec_tokens(s@, pos as int) == spec_tokens(s@, 0),
        decreases n - pos,
    {
        let c = s.get_char(pos);
        let ghost out0 = crate::config::strs_view(out@);
        if '0' <= c && c <= '9' {
            let e = scan_digit_end(s, pos + 1);
            let tok = s.substring_char(pos, e).to_owned();
            out.push(tok);
            proof {
                assert(crate::config::strs_view(out@) =~= out0 + seq![
                    s@.subrange(pos as int, e as int),
                ]);
                assert((out0 + seq![s@.subrange(pos as int, e as int)]) + spec_tokens(
                    s@,
                    e as int,
                ) =~= out0 + (seq![s@.subrange(pos as int, e as int)] + spec_tokens(s@, e as int)));
            }
            pos = e;
        } else if 'A' <= c && c <= 'Z' {
            let e = scan_lower_end(s, pos + 1);
            let tok = s.substring_char(pos, e).to_owned();
            out.push(tok);
            proof {
                assert(crate::config::strs_view(out@) =~= out0 + seq![
                    s@.subrange(pos as int, e as int),
                ]);
                assert((out0 + seq![s@.subrange(pos as int, e as int)]) + spec_tokens(
                    s@,
                    e as int,
                ) =~= out0 + (seq![s@.subrange(pos as int, e as int)] + spec_tokens(s@, e as int)));
            }
            pos = e;
        } else if pos == 0 && 'a' <= c && c <= 'z' {
            let e = scan_lower_end(s, 1);
            let tok = s.substring_char(0, e).to_owned();
            out.push(tok);
            proof {
                assert(crate::config::strs_view(out@) =~= out0 + seq![s@.subrange(0, e as int)]);
                assert((out0 + seq![s@.subrange(0, e as int)]) + spec_tokens(s@, e as int) =~= out0
                    + (seq![s@.subrange(0, e as int)] + spec_tokens(s@, e as int)));
            }
            pos = e;
        } else {
            pos = pos + 1;
        }
    }
    out
}

/// Scan past digits.
fn scan_digit_end(s: &str, pos: usize) -> (r: usize)
    requires
        pos <= s@.len(),
    ensures
        r == digit_end(s@, pos as int),
        pos <= r <= s@.len(),
{
    let n = s.unicode_len();
    let mut i: usize = pos;
    loop
        invariant
            pos <= i <= n,
            n == s@.len(),
            digit_end(s@, pos as int) == digit_end(s@, i as int),
        ensures
            pos <= i <= n,
            digit_end(s@, pos as int) == digit_end(s@, i as int),
            i == n || !is_digit_char(s@[i as int]),
        decreases n - i,
    {
        if i == n {
            break;
        }
        let c = s.get_char(i);
        if !('0' <= c && c <= '9') {
            break;
        }
        i = i + 1;
    }
    assert(digit_end(s@, i as int) == i);
    i
}

/// Scan past lower-case letters.
fn scan_lower_end(s: &str, pos: usize) -> (r: usize)
    requires
        pos <= s@.len(),
    ensures
        r == lower_end(s@, pos as int),
        pos <= r <= s@.len(),
{
    let n = s.unicode_len();
    let mut i: usize = pos;
    loop
        invariant
            pos <= i <= n,
            n == s@.len(),
            lower_end(s@, pos as int) == lower_end(s@, i as int),
        ensures
            pos <= i <= n,
            lower_end(s@, pos as int) == lower_end(s@, i as int),
            i == n || !is_lower_char(s@[i as int]),
        decreases n - i,
    {
        if i == n {
            break;
        }
        let c = s.get_char(i);
        if !('a' <= c && c <= 'z') {
            break;
        }
        i = i + 1;
    }
    assert(lower_end(s@, i as int) == i);
    i
}

/// Merge maximal runs of single-character tokens into words.
fn batch_tokens(tokens: &Vec<String>, pos: usize) -> (r: Vec<String>)
    requires
        pos <= tokens@.len(),
    ensures
        crate::config::strs_view(r@) == spec_batch(crate::config::strs_view(tokens@), pos as int),
    decreases tokens@.len() - pos,
{
    broadcast use lemma_singles_end_bounds;

    let ghost tv = crate::config::strs_view(tokens@);
    proof {
        assert(tv.len() == tokens@.len());
        if pos < tokens.len() {
            assert(tv[pos as int] == tokens@[pos as int]@);
        }
    }
    let n = tokens.len();
    if pos == n {
        let empty: Vec<String> = Vec::new();
        proof {
            assert(crate::config::strs_view(empty@) =~= Seq::<Seq<char>>::empty());
        }
        return empty;
    }
    if tokens[pos].unicode_len() != 1 {
        let rest = batch_tokens(tokens, pos + 1);
        let mut out: Vec<String> = Vec::new();
        out.push(tokens[pos].clone());
        let mut rest = rest;
        let ghost restv = crate::config::strs_view(rest@);
        out.append(&mut rest);
        proof {
            assert(crate::config::strs_view(out@) =~= seq![tv[pos as int]] + restv);
        }
        out
    } else {
        let mut k: usize = pos;
        let mut word = String::new();
        loop
            invariant
                pos <= k <= n,
                n == tokens@.len(),
                tv == crate::config::strs_view(tokens@),
                tv.len() == n,
                word@ == concat_range(tv, pos as int, k as int),
                singles_end(tv, pos as int) == singles_end(tv, k as int),
            ensures
                pos <= k <= n,
                word@ == concat_range(tv, pos as int, k as int),
                singles_end(tv, pos as int) == k,
            decreases n - k,
        {
            if k == n {
                assert(singles_end(tv, k as int) == k);
                break;
            }
            proof {
                assert(tv[k as int] == tokens@[k as int]@);
            }
            if tokens[k].unicode_len() != 1 {
                assert(singles_end(tv, k as int) == k);
                break;
            }
            proof {
                lemma_concat_range_extend(tv, pos as int, k as int);
            }
            word.append(tokens[k].as_str());
            k = k + 1;
        }
        proof {
            assert(singles_end(tv, pos as int) == singles_end(tv, pos + 1));
        }
        let rest = batch_tokens(tokens, k);
        let mut out: Vec<String> = Vec::new();
        out.push(word);
        let mut rest = rest;
        let ghost restv = crate::config::strs_view(rest@);
        out.append(&mut rest);
        proof {
            assert(crate::config::strs_view(out@) =~= seq![concat_range(tv, pos as int, k as int)]
                + restv);
        }
        out
    }
}

proof fn lemma_concat_range_extend(ts: Seq<Seq<char>>, pos: int, k: int)
    requires
        pos <= k,
    ensures
        concat_range(ts, pos, k + 1) == concat_range(ts, pos, k) + ts[k],
    decreases k - pos,
{
    if pos == k {
        assert(concat_range(ts, pos, pos) =~= Seq::<char>::empty());
        assert(concat_range(ts, k + 1, k + 1) =~= Seq::<char>::empty());
        assert(concat_range(ts, pos, pos + 1) =~= ts[pos] + Seq::<char>::empty());
        assert(ts[pos] + Seq::<char>::empty() =~= ts[pos]);
        assert(Seq::<char>::empty() + ts[pos] =~= ts[pos]);
    } else {
        lemma_concat_range_extend(ts, pos + 1, k);
        assert(ts[pos] + (concat_range(ts, pos + 1, k) + ts[k]) =~= (ts[pos] + concat_range(
            ts,
            pos + 1,
            k,
        )) + ts[k]);
    }
}

/// Collapse adjacent repeated words.
fn dedup_adjacent_words(words: &Vec<String>) -> (r: Vec<String>)
    ensures
        crate::config::strs_view(r@) == spec_dedup_adjacent(crate::config::strs_view(words@), 0),
{
    let ghost wv = crate::config::strs_view(words@);
    let mut out: Vec<String> = Vec::new();
    let n = words.len();
    proof {
        assert(crate::config::strs_view(out@) =~= Seq::<Seq<char>>::empty());
        assert(Seq::<Seq<char>>::empty() + spec_dedup_adjacent(wv, 0) =~= spec_dedup_adjacent(
            wv,
            0,
        ));
    }
    for i in 0..n
        invariant
            n == words.len(),
            wv == crate::config::strs_view(words@),
            wv.len() == n,
            crate::config::strs_view(out@) + spec_dedup_adjacent(wv, i as int)
                == spec_dedup_adjacent(wv, 0),
    {
        proof {
            assert(wv[i as int] == words@[i as int]@);
            if i + 1 < n {
                assert(wv[i + 1] == words@[i + 1]@);
            }
        }
        let ghost out0 = crate::config::strs_view(out@);
        let skip_this = if i + 1 < n {
            words[i].eq(&words[i + 1])
        } else {
            false
        };
        if !skip_this {
            out.push(words[i].clone());
            proof {
                assert(crate::config::strs_view(out@) =~= out0 + seq![wv[i as int]]);
                assert((out0 + seq![wv[i as int]]) + spec_dedup_adjacent(wv, i + 1) =~= out0 + (
                seq![wv[i as int]] + spec_dedup_adjacent(wv, i + 1)));
            }
        }
    }
    proof {
        assert(spec_dedup_adjacent(wv, n as int) =~= Seq::<Seq<char>>::empty());
        assert(crate::config::strs_view(out@) + Seq::<Seq<char>>::empty() =~= crate::config::strs_view(
            out@,
        ));
    }
    out
}

/// Normalize a state name by its case words: split into digit runs and
/// capitalized words, merge runs of single letters, collapse adjacent
/// repeats, and join the words back together.
pub fn normalize_state_name(input: &str) -> (r: String)
    ensures
        r@ == spec_normalize(input@),
{
    let tokens = scan_tokens(input);
    let batched = batch_tokens(&tokens, 0);
    let words = dedup_adjacent_words(&batched);
    let ghost wv = crate::config::strs_view(words@);
    let mut out = String::new();
    let n = words.len();
    proof {
        assert(concat_range(wv, 0, 0) =~= Seq::<char>::empty());
    }
    for i in 0..n
        invariant
            n == words.len(),
            wv == crate::config::strs_view(words@),
            wv.len() == n,
            out@ == concat_range(wv, 0, i as int),
    {
        proof {
            assert(wv[i as int] == words@[i as int]@);
            lemma_concat_range_extend(wv, 0, i as int);
        }
        out.append(words[i].as_str());
    }
    out
}

} // verus!
