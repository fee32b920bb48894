//! The document buffer: a rope of characters, reached only through
//! wrappers whose contracts describe it as a sequence of characters.
//!
//! Lines are delimited by `'\n'` alone (the rope is built without its
//! extra line-break tables), and a line break belongs to the line it
//! ends; a document always has one more line than it has newlines.

use ropey::Rope;
use vstd::prelude::*;

verus! {

#[verifier::external_type_specification]
#[verifier::external_body]
pub struct ExRope(Rope);

/// The characters the rope holds, in order.
pub uninterp spec fn rope_text(r: Rope) -> Seq<char>;

/// Number of newline characters among the first `i` characters of `s`.
pub open spec fn newlines_before(s: Seq<char>, i: int) -> int
    decreases i,
{
    if i <= 0 {
        0
    } else {
        newlines_before(s, i - 1) + if s[i - 1] == '\n' {
            1int
        } else {
            0int
        }
    }
}

/// Number of lines of `s`: one more than its newline count.
pub open spec fn line_count(s: Seq<char>) -> int {
    newlines_before(s, s.len() as int) + 1
}

/// Index of the first newline at or after `i`, or `s.len()` if none.
pub open spec fn next_newline(s: Seq<char>, i: int) -> int
    decreases s.len() - i,
{
    if i >= s.len() {
        s.len() as int
    } else if i < 0 {
        0
    } else if s[i] == '\n' {
        i
    } else {
        next_newline(s, i + 1)
    }
}

/// Index of the first character of line `l`, clamped to `s.len()` past
/// the last line.
pub open spec fn line_start(s: Seq<char>, l: int) -> int
    decreases l,
{
    if l <= 0 {
        0
    } else {
        let p = line_start(s, l - 1);
        let nn = next_newline(s, p);
        if nn < s.len() {
            nn + 1
        } else {
            s.len() as int
        }
    }
}

/// The characters of line `l`, trailing newline included.
pub open spec fn line_at(s: Seq<char>, l: int) -> Seq<char> {
    s.subrange(line_start(s, l), line_start(s, l + 1))
}

/// Relies on `ropey::Rope::new`: a fresh rope is empty.
#[verifier::external_body]
pub fn rope_new() -> (r: Rope)
    ensures
        rope_text(r) == Seq::<char>::empty(),
{
    Rope::new()
}

/// Relies on `ropey::Rope::len_chars`: the total character count.
#[verifier::external_body]
pub fn rope_len_chars(r: &Rope) -> (n: usize)
    ensures
        n == rope_text(*r).len(),
{
    r.len_chars()
}

/// Relies on `ropey::Rope::len_lines`: one more than the number of
/// line breaks, which without the extra line-break tables are exactly
/// the `'\n'` characters.
#[verifier::external_body]
pub fn rope_len_lines(r: &Rope) -> (n: usize)
    ensures
        n == line_count(rope_text(*r)),
{
    r.len_lines()
}

/// Relies on `ropey::Rope::char_to_line`: the number of line breaks
/// before the given character index; panics above `len_chars`.
#[verifier::external_body]
pub fn rope_char_to_line(r: &Rope, char_idx: usize) -> (l: usize)
    requires
        char_idx <= rope_text(*r).len(),
    ensures
        l == newlines_before(rope_text(*r), char_idx as int),
{
    r.char_to_line(char_idx)
}

/// Relies on `ropey::Rope::line_to_char`: the character index where the
/// given line starts, one past the end for the one-past-the-end line;
/// panics above `len_lines`.
#[verifier::external_body]
pub fn rope_line_to_char(r: &Rope, line_idx: usize) -> (c: usize)
    requires
        line_idx <= line_count(rope_text(*r)),
    ensures
        c == line_start(rope_text(*r), line_idx as int),
{
    r.line_to_char(line_idx)
}

/// Relies on `ropey::Rope::char`: the character at the index; panics at
/// or above `len_chars`.
#[verifier::external_body]
pub fn rope_char_at(r: &Rope, char_idx: usize) -> (c: char)
    requires
        char_idx < rope_text(*r).len(),
    ensures
        c == rope_text(*r)[char_idx as int],
{
    r.char(char_idx)
}

/// Relies on `ropey::Rope::line` and `ropey::RopeSlice::chars`: the
/// characters of the given line, trailing newline included; panics at
/// or above `len_lines`.
#[verifier::external_body]
pub fn rope_line_chars(r: &Rope, line_idx: usize) -> (v: Vec<char>)
    requires
        line_idx < line_count(rope_text(*r)),
    ensures
        v@ == line_at(rope_text(*r), line_idx as int),
{
    r.line(line_idx).chars().collect()
}

/// Relies on `ropey::Rope::insert_char`: inserts one character at the
/// index; panics above `len_chars`.
#[verifier::external_body]
pub fn rope_insert_char(r: &mut Rope, char_idx: usize, ch: char)
    requires
        char_idx <= rope_text(*old(r)).len(),
    ensures
        rope_text(*final(r)) == rope_text(*old(r)).take(char_idx as int) + seq![ch] + rope_text(
            *old(r),
        ).skip(char_idx as int),
{
    r.insert_char(char_idx, ch);
}

/// Relies on `ropey::Rope::insert`: inserts text at the index; panics
/// above `len_chars`.
#[verifier::external_body]
pub fn rope_insert(r: &mut Rope, char_idx: usize, text: &str)
    requires
        char_idx <= rope_text(*old(r)).len(),
    ensures
        rope_text(*final(r)) == rope_text(*old(r)).take(char_idx as int) + text@ + rope_text(
            *old(r),
        ).skip(char_idx as int),
{
    r.insert(char_idx, text);
}

/// Relies on `ropey::Rope::remove`: removes the half-open character
/// range; panics on a reversed or out-of-bounds range.
#[verifier::external_body]
pub fn rope_remove(r: &mut Rope, start: usize, end: usize)
    requires
        start <= end <= rope_text(*old(r)).len(),
    ensures
        rope_text(*final(r)) == rope_text(*old(r)).take(start as int) + rope_text(*old(r)).skip(
            end as int,
        ),
{
    r.remove(start..end);
}

/// Relies on `ropey::Rope::slice` and `ropey::RopeSlice::to_string`
/// (via `Display`): the characters of the half-open range as an owned
/// string; panics on a reversed or out-of-bounds range.
#[verifier::external_body]
pub fn rope_slice_string(r: &Rope, start: usize, end: usize) -> (out: String)
    requires
        start <= end <= rope_text(*r).len(),
    ensures
        out@ == rope_text(*r).subrange(start as int, end as int),
{
    r.slice(start..end).to_string()
}

// ---------------------------------------------------------------------
// Facts about the line structure.
/// `newlines_before` grows by at most one per character and never
/// shrinks.
pub proof fn lemma_newlines_monotone(s: Seq<char>, i: int, j: int)
    requires
        i <= j,
    ensures
        newlines_before(s, i) <= newlines_before(s, j) <= newlines_before(s, i) + (j - i),
    decreases j - i,
{
    if i < j {
        lemma_newlines_monotone(s, i, j - 1);
    }
}

/// `newlines_before` is non-negative and at most `i`.
pub proof fn lemma_newlines_bounds(s: Seq<char>, i: int)
    ensures
        0 <= newlines_before(s, i),
        newlines_before(s, i) <= if i >= 0 {
            i
        } else {
            0int
        },
    decreases i,
{
    if i > 0 {
        lemma_newlines_bounds(s, i - 1);
    }
}

/// There is no newline strictly between `i` and `next_newline(s, i)`.
pub proof fn lemma_next_newline(s: Seq<char>, i: int)
    requires
        0 <= i <= s.len(),
    ensures
        i <= next_newline(s, i) <= s.len(),
        forall|k: int| i <= k < next_newline(s, i) ==> s[k] != '\n',
        next_newline(s, i) < s.len() ==> s[next_newline(s, i)] == '\n',
    decreases s.len() - i,
{
    if i < s.len() && s[i] != '\n' {
        lemma_next_newline(s, i + 1);
    }
}

/// If a span holds no newline, the newline count is flat across it.
pub proof fn lemma_newlines_flat(s: Seq<char>, i: int, j: int)
    requires
        0 <= i <= j <= s.len(),
        forall|k: int| i <= k < j ==> s[k] != '\n',
    ensures
        newlines_before(s, j) == newlines_before(s, i),
    decreases j - i,
{
    if i < j {
        lemma_newlines_flat(s, i, j - 1);
    }
}

/// Line starts are ordered and bounded, and the newline count at a line
/// start equals the line index (until the cap).
pub proof fn lemma_line_start_bounds(s: Seq<char>, l: int)
    requires
        l >= 0,
    ensures
        0 <= line_start(s, l) <= s.len(),
        newlines_before(s, line_start(s, l)) == if l < line_count(s) {
            l
        } else {
            line_count(s) - 1
        },
        l < line_count(s) && line_start(s, l) > 0 ==> s[line_start(s, l) - 1] == '\n',
        l >= line_count(s) - 1 ==> next_newline(s, line_start(s, l)) == s.len(),
    decreases l,
{
    lemma_newlines_bounds(s, s.len() as int);
    if l == 0 {
        if line_count(s) <= 1 {
            // no newline at all: the first next_newline is the end
            lemma_next_newline(s, 0);
            let nn = next_newline(s, 0);
            if nn < s.len() {
                lemma_newlines_flat(s, 0, nn);
                assert(newlines_before(s, nn + 1) == 1);
                lemma_newlines_monotone(s, nn + 1, s.len() as int);
                assert(false);
            }
        }
    } else {
        lemma_line_start_bounds(s, l - 1);
        let p = line_start(s, l - 1);
        let nn = next_newline(s, p);
        lemma_next_newline(s, p);
        lemma_newlines_flat(s, p, nn);
        if nn < s.len() {
            assert(s[nn] == '\n');
            assert(newlines_before(s, nn + 1) == newlines_before(s, nn) + 1);
            assert(line_start(s, l) == nn + 1);
            if l < line_count(s) {
                // p is the start of a real line, so its newline count is l - 1
                assert(newlines_before(s, p) == l - 1);
            } else {
                // there is no line l, so its count caps out
                assert(newlines_before(s, p) == line_count(s) - 1);
                lemma_newlines_monotone(s, nn + 1, s.len() as int);
                assert(false);
            }
            if l >= line_count(s) - 1 {
                // line l is the last: no newline after its start
                lemma_next_newline(s, nn + 1);
                let nn2 = next_newline(s, nn + 1);
                if nn2 < s.len() {
                    lemma_newlines_flat(s, nn + 1, nn2);
                    assert(s[nn2] == '\n');
                    assert(newlines_before(s, nn2 + 1) == l + 1);
                    lemma_newlines_monotone(s, nn2 + 1, s.len() as int);
                    assert(false);
                }
            }
        } else {
            // capped: the previous line runs to the end of the text
            assert(line_start(s, l) == s.len());
            if l < line_count(s) {
                // impossible: there would be more newlines past p
                assert(newlines_before(s, p) <= l - 1);
                lemma_newlines_flat(s, p, s.len() as int);
                assert(line_count(s) <= l);
                assert(false);
            }
            lemma_next_newline(s, s.len() as int);
        }
    }
}

/// A character index lies within the line that `newlines_before` names:
/// the start of that line is at or before it, and the line's newline
/// (or the end of text) is at or after it.
pub proof fn lemma_char_in_its_line(s: Seq<char>, i: int)
    requires
        0 <= i <= s.len(),
    ensures
        ({
            let l = newlines_before(s, i);
            &&& 0 <= l < line_count(s)
            &&& line_start(s, l) <= i
            &&& i <= next_newline(s, line_start(s, l))
        }),
    decreases i,
{
    lemma_newlines_bounds(s, i);
    lemma_newlines_monotone(s, i, s.len() as int);
    let l = newlines_before(s, i);
    if i == 0 {
        lemma_line_start_bounds(s, 0);
        lemma_next_newline(s, 0);
    } else {
        lemma_char_in_its_line(s, i - 1);
        let lp = newlines_before(s, i - 1);
        lemma_line_start_bounds(s, lp);
        let p = line_start(s, lp);
        lemma_next_newline(s, p);
        let nn = next_newline(s, p);
        lemma_newlines_flat(s, p, nn);
        if s[i - 1] == '\n' {
            // i starts the next line
            assert(l == lp + 1);
            // the newline ending line lp is exactly at i - 1
            if nn < i - 1 {
                assert(s[nn] == '\n');
                assert(newlines_before(s, nn + 1) == newlines_before(s, nn) + 1);
                lemma_newlines_monotone(s, nn + 1, i - 1);
                assert(false);
            }
            assert(nn == i - 1);
            assert(line_start(s, l) == i);
            lemma_line_start_bounds(s, l);
            lemma_next_newline(s, i);
        } else {
            assert(l == lp);
            // i - 1 is inside the line and not a newline, so the line's
            // newline is at or after i
            if nn < i {
                if nn == i - 1 {
                    assert(false);
                } else {
                    assert(s[nn] == '\n');
                    assert(newlines_before(s, nn + 1) == newlines_before(s, nn) + 1);
                    lemma_newlines_monotone(s, nn + 1, i);
                    assert(false);
                }
            }
        }
    }
}


/// Equal characters below `upto` give equal newline counts below it.
pub proof fn lemma_nb_prefix_eq(s1: Seq<char>, s2: Seq<char>, upto: int, i: int)
    requires
        0 <= i <= upto,
        upto <= s1.len(),
        upto <= s2.len(),
        forall|k: int| 0 <= k < upto ==> s1[k] == s2[k],
    ensures
        newlines_before(s1, i) == newlines_before(s2, i),
    decreases i,
{
    if i > 0 {
        lemma_nb_prefix_eq(s1, s2, upto, i - 1);
    }
}

/// Newlines across a block equal the block's own newline count.
pub proof fn lemma_nb_shift(s: Seq<char>, t: Seq<char>, i: int, m: int)
    requires
        0 <= i,
        0 <= m <= t.len(),
        i + m <= s.len(),
        forall|k: int| 0 <= k < m ==> s[i + k] == t[k],
    ensures
        newlines_before(s, i + m) == newlines_before(s, i) + newlines_before(t, m),
    decreases m,
{
    if m > 0 {
        lemma_nb_shift(s, t, i, m - 1);
        assert(s[i + m - 1] == t[m - 1]);
    }
}

/// A position whose newline count is `l` and that sits just after a
/// newline (or at the very start) is the start of line `l`.
pub proof fn lemma_line_start_unique(s: Seq<char>, l: int, i: int)
    requires
        0 <= i <= s.len(),
        newlines_before(s, i) == l,
        i > 0 ==> s[i - 1] == '\n',
        i == 0 ==> l == 0,
        l < line_count(s),
    ensures
        line_start(s, l) == i,
{
    lemma_char_in_its_line(s, i);
    let p = line_start(s, l);
    lemma_line_start_bounds(s, l);
    if p < i {
        // a newline would sit inside line l, before i
        lemma_newlines_monotone(s, p, i - 1);
        assert(newlines_before(s, i) == newlines_before(s, i - 1) + 1);
        assert(false);
    }
}

/// Replacing the characters `[a, b)` of `old` by `ins` moves whole
/// lines: lines before the line of `a` are untouched, lines after the
/// line of `b` shift as a block, and the replaced span covers
/// `line(a)..=line(b)` of the old text against `line(a)..=line(a) +
/// newlines(ins)` of the new.
pub proof fn lemma_splice_lines(s0: Seq<char>, a: int, b: int, ins: Seq<char>)
    requires
        0 <= a <= b <= s0.len(),
    ensures
        ({
            let s1 = s0.take(a) + ins + s0.skip(b);
            let la = newlines_before(s0, a);
            let lb = newlines_before(s0, b);
            let nc = la + newlines_before(ins, ins.len() as int);
            let shift = a + ins.len() - b;
            &&& s1.len() == s0.len() + ins.len() - (b - a)
            &&& newlines_before(s1, a) == la
            &&& newlines_before(s1, a + ins.len()) == nc
            &&& line_count(s1) == line_count(s0) + (nc - lb)
            &&& 0 <= la <= lb < line_count(s0)
            &&& la <= nc < line_count(s1)
            &&& forall|l: int| 0 <= l <= la ==> line_start(s1, l) == line_start(s0, l)
            &&& forall|l: int| 0 <= l < la ==> line_at(s1, l) == line_at(s0, l)
            &&& forall|l: int|
                lb < l <= line_count(s0) ==> line_start(s1, l + (nc - lb)) == line_start(s0, l)
                    + shift
            &&& forall|l: int| lb < l < line_count(s0) ==> line_at(s1, l + (nc - lb)) == line_at(s0, l)
        }),
{
    let s1 = s0.take(a) + ins + s0.skip(b);
    let la = newlines_before(s0, a);
    let lb = newlines_before(s0, b);
    let nbi = newlines_before(ins, ins.len() as int);
    let nc = la + nbi;
    let shift = a + ins.len() - b;
    let n0 = s0.len() as int;
    let n1 = s1.len() as int;
    let d = nc - lb;

    assert(s1.len() == a + ins.len() + (n0 - b));
    assert forall|k: int| 0 <= k < a implies #[trigger] s1[k] == s0[k] by {
        assert(s1[k] == s0.take(a)[k]);
    }
    assert forall|k: int| 0 <= k < ins.len() implies s1[a + k] == #[trigger] ins[k] by {
        assert(s1[a + k] == (s0.take(a) + ins)[a + k]);
    }
    assert forall|k: int| 0 <= k < n0 - b implies s1[a + ins.len() + k] == #[trigger] s0[b + k] by {
        assert(s1[a + ins.len() + k] == s0.skip(b)[k]);
    }

    lemma_newlines_bounds(s0, a);
    lemma_newlines_bounds(ins, ins.len() as int);
    lemma_newlines_monotone(s0, a, b);
    lemma_newlines_monotone(s0, b, n0);

    // prefix: identical characters, identical counts
    lemma_nb_prefix_eq(s0, s1, a, a);

    // the inserted block
    lemma_nb_shift(s1, ins, a, ins.len() as int);

    // the common suffix, on both sides
    lemma_nb_shift(s0, s0.skip(b), b, n0 - b);
    lemma_nb_shift(s1, s0.skip(b), a + ins.len() as int, n0 - b);
    assert(newlines_before(s1, n1) == nc + (newlines_before(s0, n0) - lb));
    assert(line_count(s1) == line_count(s0) + d);

    // correspondence of every suffix position
    assert forall|i: int| b <= i <= n0 implies newlines_before(s1, i + shift)
        == newlines_before(s0, i) + d by {
        lemma_nb_shift(s0, s0.skip(b), b, i - b);
        lemma_nb_shift(s1, s0.skip(b), a + ins.len() as int, i - b);
    }

    lemma_newlines_bounds(s0, n0);
    lemma_newlines_bounds(s1, n1);
    lemma_newlines_monotone(s1, a + ins.len() as int, n1);

    // prefix line starts agree
    assert forall|l: int| 0 <= l <= la implies line_start(s1, l) == line_start(s0, l) by {
        lemma_line_start_bounds(s0, l);
        let i = line_start(s0, l);
        lemma_char_in_its_line(s0, a);
        lemma_line_start_mono_upto(s0, l, la);
        assert(i <= line_start(s0, la) <= a);
        lemma_nb_prefix_eq(s0, s1, a, i);
        lemma_newlines_monotone(s1, a, n1);
        if l == 0 {
            lemma_line_start_bounds(s1, 0);
        } else {
            lemma_line_start_unique(s1, l, i);
        }
    }

    // prefix lines agree
    assert forall|l: int| 0 <= l < la implies line_at(s1, l) == line_at(s0, l) by {
        lemma_line_start_bounds(s0, l);
        lemma_char_in_its_line(s0, a);
        lemma_line_start_mono_upto(s0, l + 1, la);
        assert(line_start(s0, l + 1) <= line_start(s0, la) <= a);
        assert(line_start(s1, l) == line_start(s0, l));
        assert(line_start(s1, l + 1) == line_start(s0, l + 1));
        lemma_line_start_bounds(s1, l);
        lemma_line_start_bounds(s1, l + 1);
        lemma_line_start_mono(s0, l);
        assert(line_at(s1, l) =~= line_at(s0, l));
    }

    // suffix line starts shift as a block
    assert forall|l: int| lb < l <= line_count(s0) implies line_start(s1, l + d) == line_start(
        s0,
        l,
    ) + shift by {
        lemma_line_start_bounds(s0, l);
        let i = line_start(s0, l);
        if l == line_count(s0) {
            // both caps: the one-past-the-end start is the length
            lemma_line_start_at_count(s0);
            lemma_line_start_at_count(s1);
        } else {
            // i > b: the start of a line past line(b) lies past b
            if i <= b {
                lemma_newlines_monotone(s0, i, b);
                assert(false);
            }
            assert(newlines_before(s1, i + shift) == l + d);
            assert(s1[i + shift - 1] == s0.skip(b)[i - 1 - b]);
            lemma_line_start_unique(s1, l + d, i + shift);
        }
    }

    // suffix lines agree
    assert forall|l: int| lb < l < line_count(s0) implies line_at(s1, l + d) == line_at(
        s0,
        l,
    ) by {
        lemma_line_start_bounds(s0, l);
        lemma_line_start_bounds(s0, l + 1);
        lemma_line_start_mono(s0, l);
        let i = line_start(s0, l);
        if i <= b {
            lemma_newlines_monotone(s0, i, b);
            assert(false);
        }
        assert(line_start(s1, l + d) == line_start(s0, l) + shift);
        assert(line_start(s1, l + 1 + d) == line_start(s0, l + 1) + shift);
        lemma_line_start_bounds(s1, l + d);
        lemma_line_start_bounds(s1, l + 1 + d);
        assert forall|k: int| line_start(s0, l) <= k < line_start(s0, l + 1) implies s1[k + shift]
            == s0[k] by {
            assert(s1[k + shift] == s0.skip(b)[k - b]);
        }
        assert(line_at(s1, l + d) =~= line_at(s0, l));
    }
}

/// Line starts are monotone over a range of line indices.
pub proof fn lemma_line_start_mono_upto(s: Seq<char>, l: int, m: int)
    requires
        0 <= l <= m,
    ensures
        line_start(s, l) <= line_start(s, m),
    decreases m - l,
{
    if l < m {
        lemma_line_start_mono_upto(s, l + 1, m);
        lemma_line_start_mono(s, l);
    }
}

/// Each line starts at or after the one before it.
pub proof fn lemma_line_start_mono(s: Seq<char>, l: int)
    requires
        l >= 0,
    ensures
        line_start(s, l) <= line_start(s, l + 1),
        line_start(s, l + 1) <= s.len(),
{
    lemma_line_start_bounds(s, l);
    lemma_next_newline(s, line_start(s, l));
}

/// The one-past-the-end line starts at the end of the text.
pub proof fn lemma_line_start_at_count(s: Seq<char>)
    ensures
        line_start(s, line_count(s)) == s.len(),
{
    lemma_newlines_bounds(s, s.len() as int);
    let lc = line_count(s);
    lemma_line_start_bounds(s, lc - 1);
    lemma_next_newline(s, line_start(s, lc - 1));
}

} // verus!
