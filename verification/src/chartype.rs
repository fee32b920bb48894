//! Character classes for word navigation, and the scans that find word
//! boundaries in the document.

use crate::textbuf::{rope_char_at, rope_len_chars, rope_text};
use ropey::Rope;
use vstd::prelude::*;

verus! {

/// Whether a character is alphanumeric under Unicode.
pub uninterp spec fn unicode_alphanumeric(c: char) -> bool;

/// Whether a character is white space under Unicode.
pub uninterp spec fn unicode_whitespace(c: char) -> bool;

/// Relies on `char::is_alphanumeric`: true exactly for Unicode letters
/// and numeric characters; in particular true for ASCII letters and
/// digits, and false for ASCII punctuation and white space.
#[verifier::external_body]
pub fn is_alphanumeric_char(c: char) -> (r: bool)
    ensures
        r == unicode_alphanumeric(c),
        ('a' <= c && c <= 'z') || ('A' <= c && c <= 'Z') || ('0' <= c && c <= '9') ==> r,
        c == ' ' || c == '\n' || c == '\r' || c == '\t' || c == '_' ==> !r,
    {
    c.is_alphanumeric()
}

/// Relies on `char::is_whitespace`: true exactly for Unicode white
/// space; in particular true for space, tab and the line breaks.
#[verifier::external_body]
pub fn is_whitespace_char(c: char) -> (r: bool)
    ensures
        r == unicode_whitespace(c),
        c == ' ' || c == '\n' || c == '\r' || c == '\t' ==> r,
        ('a' <= c && c <= 'z') || ('A' <= c && c <= 'Z') || ('0' <= c && c <= '9') ==> !r,
    {
    c.is_whitespace()
}

/// The classes word-boundary search distinguishes.
#[derive(Debug, Clone, Copy, PartialEq, Eq, Structural)]
pub enum CharKind {
    Word,
    Symbol,
    Whitespace,
    Newline,
}

/// The class of a character: word characters are alphanumerics and the
/// underscore, line breaks stand apart from other white space, and
/// everything else is a symbol.
pub open spec fn classify_spec(c: char) -> CharKind {
    if unicode_alphanumeric(c) || c == '_' {
        CharKind::Word
    } else if unicode_whitespace(c) {
        if c == '\n' || c == '\r' {
            CharKind::Newline
        } else {
            CharKind::Whitespace
        }
    } else {
        CharKind::Symbol
    }
}

pub fn classify_char(c: char) -> (k: CharKind)
    ensures
        k == classify_spec(c),
{
    if is_alphanumeric_char(c) || c == '_' {
        CharKind::Word
    } else if is_whitespace_char(c) {
        if c == '\n' || c == '\r' {
            CharKind::Newline
        } else {
            CharKind::Whitespace
        }
    } else {
        CharKind::Symbol
    }
}

/// First index at or after `i` whose character is not of class `k`, or
/// the end of the text.
pub open spec fn run_end(s: Seq<char>, i: int, k: CharKind) -> int
    decreases s.len() - i,
{
    if i < 0 || i >= s.len() {
        s.len() as int
    } else if classify_spec(s[i]) == k {
        run_end(s, i + 1, k)
    } else {
        i
    }
}

/// Last index at or before `i` such that every character from it up to
/// `i` (exclusive) is of class `k`.
pub open spec fn run_start(s: Seq<char>, i: int, k: CharKind) -> int
    decreases i,
{
    if i <= 0 {
        0
    } else if classify_spec(s[i - 1]) == k {
        run_start(s, i - 1, k)
    } else {
        i
    }
}

/// Where word-right lands from `c`: past a leading white-space run it
/// also consumes one run of the class that follows; a line break is
/// consumed alone and stops the scan.
pub open spec fn word_right_from(s: Seq<char>, c: int) -> int {
    let k0 = classify_spec(s[c]);
    if k0 == CharKind::Newline {
        c + 1
    } else if k0 == CharKind::Whitespace {
        let p = run_end(s, c + 1, CharKind::Whitespace);
        if p >= s.len() {
            s.len() as int
        } else {
            let k1 = classify_spec(s[p]);
            if k1 == CharKind::Newline {
                p + 1
            } else {
                run_end(s, p + 1, k1)
            }
        }
    } else {
        run_end(s, c + 1, k0)
    }
}

/// Where word-left lands from `c`, mirroring `word_right_from` on the
/// reversed text.
pub open spec fn word_left_from(s: Seq<char>, c: int) -> int {
    let k0 = classify_spec(s[c - 1]);
    if k0 == CharKind::Newline {
        c - 1
    } else if k0 == CharKind::Whitespace {
        let p = run_start(s, c - 1, CharKind::Whitespace);
        if p == 0 {
            0
        } else {
            let k1 = classify_spec(s[p - 1]);
            if k1 == CharKind::Newline {
                p - 1
            } else {
                run_start(s, p - 1, k1)
            }
        }
    } else {
        run_start(s, c - 1, k0)
    }
}

/// A run's end lies at or after its start, within the text, and every
/// character of the run is of the class.
pub proof fn lemma_run_end(s: Seq<char>, i: int, k: CharKind)
    requires
        0 <= i <= s.len(),
    ensures
        i <= run_end(s, i, k) <= s.len(),
        forall|j: int| i <= j < run_end(s, i, k) ==> classify_spec(s[j]) == k,
        run_end(s, i, k) < s.len() ==> classify_spec(s[run_end(s, i, k)]) != k,
    decreases s.len() - i,
{
    if i < s.len() && classify_spec(s[i]) == k {
        lemma_run_end(s, i + 1, k);
    }
}

/// A run's start lies at or before its end, and every character of the
/// run is of the class.
pub proof fn lemma_run_start(s: Seq<char>, i: int, k: CharKind)
    requires
        0 <= i <= s.len(),
    ensures
        0 <= run_start(s, i, k) <= i,
        forall|j: int| run_start(s, i, k) <= j < i ==> classify_spec(s[j]) == k,
        run_start(s, i, k) > 0 ==> classify_spec(s[run_start(s, i, k) - 1]) != k,
    decreases i,
{
    if i > 0 && classify_spec(s[i - 1]) == k {
        lemma_run_start(s, i - 1, k);
    }
}

/// Scanning back over a block that is entirely of class `k` stops
/// exactly where the block stops being `k`.
pub proof fn lemma_run_start_lands(s: Seq<char>, i: int, c: int, k: CharKind)
    requires
        0 <= c <= i <= s.len(),
        forall|j: int| c <= j < i ==> classify_spec(s[j]) == k,
        c == 0 || classify_spec(s[c - 1]) != k,
    ensures
        run_start(s, i, k) == c,
    decreases i - c,
{
    if i > c {
        lemma_run_start_lands(s, i - 1, c, k);
    }
}

/// Word navigation inverse: from the start of a word or symbol run,
/// word-right lands at the end of that run, and word-left from there
/// returns to the start.
pub proof fn lemma_word_round_trip(s: Seq<char>, c: int)
    requires
        0 <= c < s.len(),
        classify_spec(s[c]) == CharKind::Word || classify_spec(s[c]) == CharKind::Symbol,
        c == 0 || classify_spec(s[c - 1]) != classify_spec(s[c]),
    ensures
        word_left_from(s, word_right_from(s, c)) == c,
{
    let k = classify_spec(s[c]);
    let e = word_right_from(s, c);
    lemma_run_end(s, c + 1, k);
    assert(e == run_end(s, c + 1, k));
    assert(c + 1 <= e <= s.len());
    assert(forall|j: int| c <= j < e ==> classify_spec(s[j]) == k);
    assert(classify_spec(s[e - 1]) == k);
    lemma_run_start_lands(s, e - 1, c, k);
}

/// Exec scan matching `run_end`, walking the rope character by
/// character.
fn scan_run_end(r: &Rope, from: usize, k: CharKind) -> (e: usize)
    requires
        from <= rope_text(*r).len(),
    ensures
        e == run_end(rope_text(*r), from as int, k),
        from <= e <= rope_text(*r).len(),
{
    let ghost s = rope_text(*r);
    proof {
        lemma_run_end(s, from as int, k);
    }
    let n = rope_len_chars(r);
    let mut j = from;
    while j < n
        invariant
            s == rope_text(*r),
            n == s.len(),
            from <= j <= n,
            run_end(s, from as int, k) == run_end(s, j as int, k),
        decreases n - j,
    {
        let c = rope_char_at(r, j);
        if classify_char(c) != k {
            return j;
        }
        j = j + 1;
    }
    n
}

/// Exec scan matching `run_start`.
fn scan_run_start(r: &Rope, from: usize, k: CharKind) -> (e: usize)
    requires
        from <= rope_text(*r).len(),
    ensures
        e == run_start(rope_text(*r), from as int, k),
        e <= from,
{
    let ghost s = rope_text(*r);
    proof {
        lemma_run_start(s, from as int, k);
    }
    let mut j = from;
    while j > 0
        invariant
            s == rope_text(*r),
            from <= s.len(),
            j <= from,
            run_start(s, from as int, k) == run_start(s, j as int, k),
        decreases j,
    {
        let c = rope_char_at(r, j - 1);
        if classify_char(c) != k {
            return j;
        }
        j = j - 1;
    }
    0
}

/// Where word-right lands from `c` in the document.
pub fn scan_word_right(r: &Rope, c: usize) -> (e: usize)
    requires
        c < rope_text(*r).len(),
    ensures
        e == word_right_from(rope_text(*r), c as int),
        c < e <= rope_text(*r).len(),
{
    let ghost s = rope_text(*r);
    let n = rope_len_chars(r);
    let k0 = classify_char(rope_char_at(r, c));
    if matches!(k0, CharKind::Newline) {
        return c + 1;
    }
    if matches!(k0, CharKind::Whitespace) {
        let p = scan_run_end(r, c + 1, CharKind::Whitespace);
        proof {
            lemma_run_end(s, c + 1, CharKind::Whitespace);
        }
        if p >= n {
            return n;
        }
        let k1 = classify_char(rope_char_at(r, p));
        if matches!(k1, CharKind::Newline) {
            return p + 1;
        }
        let e = scan_run_end(r, p + 1, k1);
        proof {
            lemma_run_end(s, p + 1, k1);
        }
        return e;
    }
    let e = scan_run_end(r, c + 1, k0);
    proof {
        lemma_run_end(s, c + 1, k0);
    }
    e
}

/// Where word-left lands from `c` in the document.
pub fn scan_word_left(r: &Rope, c: usize) -> (e: usize)
    requires
        0 < c <= rope_text(*r).len(),
    ensures
        e == word_left_from(rope_text(*r), c as int),
        e < c,
{
    let ghost s = rope_text(*r);
    let k0 = classify_char(rope_char_at(r, c - 1));
    if matches!(k0, CharKind::Newline) {
        return c - 1;
    }
    if matches!(k0, CharKind::Whitespace) {
        let p = scan_run_start(r, c - 1, CharKind::Whitespace);
        proof {
            lemma_run_start(s, c - 1, CharKind::Whitespace);
        }
        if p == 0 {
            return 0;
        }
        let k1 = classify_char(rope_char_at(r, p - 1));
        if matches!(k1, CharKind::Newline) {
            return p - 1;
        }
        let e = scan_run_start(r, p - 1, k1);
        proof {
            lemma_run_start(s, p - 1, k1);
        }
        return e;
    }
    let e = scan_run_start(r, c - 1, k0);
    proof {
        lemma_run_start(s, c - 1, k0);
    }
    e
}

/// The single-run scans used by delete-word: one run of the first
/// character's class, the line break alone.
pub open spec fn token_right_from(s: Seq<char>, c: int) -> int {
    let k0 = classify_spec(s[c]);
    if k0 == CharKind::Newline {
        c + 1
    } else {
        run_end(s, c + 1, k0)
    }
}

pub open spec fn token_left_from(s: Seq<char>, c: int) -> int {
    let k0 = classify_spec(s[c - 1]);
    if k0 == CharKind::Newline {
        c - 1
    } else {
        run_start(s, c - 1, k0)
    }
}

/// End of the token to delete rightwards from `c`.
pub fn scan_token_right(r: &Rope, c: usize) -> (e: usize)
    requires
        c < rope_text(*r).len(),
    ensures
        e == token_right_from(rope_text(*r), c as int),
        c < e <= rope_text(*r).len(),
{
    let ghost s = rope_text(*r);
    let n = rope_len_chars(r);
    let k0 = classify_char(rope_char_at(r, c));
    if matches!(k0, CharKind::Newline) {
        c + 1
    } else {
        let e = scan_run_end(r, c + 1, k0);
        proof {
            lemma_run_end(s, c + 1, k0);
        }
        e
    }
}

/// Start of the token to delete leftwards from `c`.
pub fn scan_token_left(r: &Rope, c: usize) -> (e: usize)
    requires
        0 < c <= rope_text(*r).len(),
    ensures
        e == token_left_from(rope_text(*r), c as int),
        e < c,
{
    let ghost s = rope_text(*r);
    let k0 = classify_char(rope_char_at(r, c - 1));
    if matches!(k0, CharKind::Newline) {
        c - 1
    } else {
        let e = scan_run_start(r, c - 1, k0);
        proof {
            lemma_run_start(s, c - 1, k0);
        }
        e
    }
}

} // verus!
