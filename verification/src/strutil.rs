//! Verified string dissection: splitting into lines and white-space
//! separated tokens, trimming, and decimal parsing — the pieces the
//! plain-text readers are built from.

use crate::chartype::{is_whitespace_char, unicode_whitespace};
use crate::textbuf::next_newline;
use vstd::prelude::*;

verus! {

/// A final carriage return dropped: the text of a line whose break was
/// a `"\r\n"` pair.
pub open spec fn strip_cr(t: Seq<char>) -> Seq<char> {
    if t.len() > 0 && t.last() == '\r' {
        t.drop_last()
    } else {
        t
    }
}

/// The lines of `s`: split at every newline, a carriage return before
/// the newline dropped, and no empty line after a final newline.
pub open spec fn spec_lines(s: Seq<char>) -> Seq<Seq<char>>
    decreases s.len(),
{
    if s.len() == 0 {
        Seq::empty()
    } else {
        let nn = next_newline(s, 0);
        if nn >= s.len() || nn < 0 {
            seq![s]
        } else {
            seq![strip_cr(s.take(nn))] + spec_lines(s.skip(nn + 1))
        }
    }
}

/// Splits into lines as `spec_lines` describes.
pub fn split_lines(s: &str) -> (r: Vec<String>)
    ensures
        r.deep_view() == spec_lines(s@),
{
    let n = s.unicode_len();
    let mut out: Vec<String> = Vec::new();
    proof {
        assert(s@.skip(0) =~= s@);
        assert(out.deep_view() =~= Seq::<Seq<char>>::empty());
        assert(Seq::<Seq<char>>::empty() + spec_lines(s@) =~= spec_lines(s@));
    }
    let mut pos: usize = 0;
    while pos < n
        invariant
            pos <= n,
            n == s@.len(),
            spec_lines(s@) == out.deep_view() + spec_lines(s@.skip(pos as int)),
        decreases n - pos,
    {
        let ghost suffix = s@.skip(pos as int);
        // find the next newline
        let mut e: usize = pos;
        let mut found = false;
        while e < n && !found
            invariant
                pos <= e <= n,
                n == s@.len(),
                found ==> e < n && s@[e as int] == '\n',
                next_newline(s@, pos as int) == if found {
                    e as int
                } else {
                    next_newline(s@, e as int)
                },
            decreases n - e + if found { 0int } else { 1int },
        {
            if s.get_char(e) == '\n' {
                found = true;
            } else {
                e = e + 1;
            }
        }
        proof {
            assert(next_newline(s@, pos as int) == e as int);
            crate::textbuf::lemma_next_newline(s@, pos as int);
        }

        // the line's text, with a final carriage return dropped
        let text_end = if found && e > pos && s.get_char(e - 1) == '\r' {
            e - 1
        } else {
            e
        };
        let piece = String::from_str(s.substring_char(pos, text_end));
        let ghost before = out.deep_view();
        out.push(piece);

        proof {
            // one unfolding of spec_lines on the suffix
            assert(suffix.len() > 0);
            assert forall|k: int| 0 <= k < suffix.len() implies suffix[k] == s@[pos + k] by {}
            lemma_next_newline_shift(s@, pos as int, n as int);
            let nns = next_newline(suffix, 0);
            assert(nns == e - pos);
            if found {
                assert(suffix.take(nns) =~= s@.subrange(pos as int, e as int));
                assert(strip_cr(suffix.take(nns)) =~= s@.subrange(pos as int, text_end as int));
                assert(suffix.skip(nns + 1) =~= s@.skip(e + 1));
                assert(spec_lines(suffix) == seq![strip_cr(suffix.take(nns))] + spec_lines(
                    s@.skip(e + 1),
                ));
            } else {
                assert(nns >= suffix.len());
                assert(suffix =~= s@.subrange(pos as int, text_end as int));
                assert(spec_lines(suffix) == seq![suffix]);
                assert(s@.skip(n as int).len() == 0);
            }
            assert(out.deep_view() =~= before + seq![s@.subrange(pos as int, text_end as int)]);
        }
        pos = if found {
            e + 1
        } else {
            n
        };
    }
    proof {
        assert(s@.skip(n as int) =~= Seq::<char>::empty());
        assert(out.deep_view() =~= spec_lines(s@));
    }
    out
}

/// The newline scan only depends on the characters from its start.
proof fn lemma_next_newline_shift(s: Seq<char>, pos: int, n: int)
    requires
        0 <= pos <= n,
        n == s.len(),
    ensures
        forall|k: int|
            0 <= k <= n - pos ==> #[trigger] next_newline(s.skip(pos), k) == next_newline(
                s,
                pos + k,
            ) - pos,
    decreases n - pos,
{
    assert forall|k: int|
        0 <= k <= n - pos implies #[trigger] next_newline(s.skip(pos), k) == next_newline(
        s,
        pos + k,
    ) - pos by {
        lemma_next_newline_shift_one(s, pos, k);
    }
}

proof fn lemma_next_newline_shift_one(s: Seq<char>, pos: int, k: int)
    requires
        0 <= pos,
        0 <= k,
        pos + k <= s.len(),
    ensures
        next_newline(s.skip(pos), k) == next_newline(s, pos + k) - pos,
    decreases s.len() - pos - k,
{
    let t = s.skip(pos);
    if k < t.len() {
        assert(t[k] == s[pos + k]);
        if s[pos + k] != '\n' {
            lemma_next_newline_shift_one(s, pos, k + 1);
        }
    }
}

/// Trailing white space dropped.
pub open spec fn trim_end_ws(t: Seq<char>) -> Seq<char>
    decreases t.len(),
{
    if t.len() > 0 && unicode_whitespace(t.last()) {
        trim_end_ws(t.drop_last())
    } else {
        t
    }
}

/// Drops trailing white space, as `trim_end_ws` describes.
pub fn trim_end(s: &str) -> (r: String)
    ensures
        r@ == trim_end_ws(s@),
{
    let n = s.unicode_len();
    proof {
        assert(s@.take(n as int) =~= s@);
    }
    let mut e: usize = n;
    let mut stop = false;
    while e > 0 && !stop
        invariant
            e <= n,
            n == s@.len(),
            stop ==> e > 0 && !unicode_whitespace(s@[e - 1]),
            trim_end_ws(s@) == if stop {
                s@.take(e as int)
            } else {
                trim_end_ws(s@.take(e as int))
            },
        decreases e + if stop { 0int } else { 1int },
    {
        proof {
            assert(s@.take(e as int).drop_last() =~= s@.take(e - 1));
            assert(s@.take(e as int).last() == s@[e - 1]);
        }
        if is_whitespace_char(s.get_char(e - 1)) {
            e = e - 1;
        } else {
            stop = true;
        }
    }
    proof {
        if !stop {
            assert(s@.take(0) =~= Seq::<char>::empty());
        }
        assert(s@.take(e as int) =~= trim_end_ws(s@));
    }
    String::from_str(s.substring_char(0, e))
}

/// First index at or after `i` whose character is not white space, or
/// the end.
pub open spec fn next_non_ws(s: Seq<char>, i: int) -> int
    decreases s.len() - i,
{
    if i < 0 || i >= s.len() {
        s.len() as int
    } else if unicode_whitespace(s[i]) {
        next_non_ws(s, i + 1)
    } else {
        i
    }
}

/// First index at or after `i` whose character is white space, or the
/// end.
pub open spec fn next_ws(s: Seq<char>, i: int) -> int
    decreases s.len() - i,
{
    if i < 0 || i >= s.len() {
        s.len() as int
    } else if !unicode_whitespace(s[i]) {
        next_ws(s, i + 1)
    } else {
        i
    }
}

/// The white-space separated tokens of `s` from `i` on.
pub open spec fn spec_tokens_from(s: Seq<char>, i: int) -> Seq<Seq<char>>
    decreases s.len() - i,
{
    if i < 0 || next_non_ws(s, i) >= s.len() {
        Seq::empty()
    } else {
        let b = next_non_ws(s, i);
        let e = next_ws(s, b);
        if e <= i || b < i || e < b || e > s.len() {
            Seq::empty()
        } else {
            seq![s.subrange(b, e)] + spec_tokens_from(s, e)
        }
    }
}

/// The white-space separated tokens of `s`.
pub open spec fn spec_tokens(s: Seq<char>) -> Seq<Seq<char>> {
    spec_tokens_from(s, 0)
}

/// Splits into tokens as `spec_tokens` describes.
pub fn split_tokens(s: &str) -> (r: Vec<String>)
    ensures
        r.deep_view() == spec_tokens(s@),
{
    let n = s.unicode_len();
    let mut out: Vec<String> = Vec::new();
    let mut i: usize = 0;
    proof {
        lemma_scan_bounds(s@, 0);
        assert(out.deep_view() =~= Seq::<Seq<char>>::empty());
        assert(Seq::<Seq<char>>::empty() + spec_tokens_from(s@, 0) =~= spec_tokens_from(s@, 0));
    }
    while i < n
        invariant
            i <= n,
            n == s@.len(),
            spec_tokens(s@) == out.deep_view() + spec_tokens_from(s@, i as int),
        decreases n - i,
    {
        // skip white space
        let mut b: usize = i;
        let mut done_ws = false;
        while b < n && !done_ws
            invariant
                i <= b <= n,
                n == s@.len(),
                done_ws ==> b < n && !unicode_whitespace(s@[b as int]),
                next_non_ws(s@, i as int) == if done_ws {
                    b as int
                } else {
                    next_non_ws(s@, b as int)
                },
            decreases n - b + if done_ws { 0int } else { 1int },
        {
            if is_whitespace_char(s.get_char(b)) {
                b = b + 1;
            } else {
                done_ws = true;
            }
        }
        proof {
            assert(next_non_ws(s@, i as int) == b as int);
        }
        if b >= n {
            proof {
                assert(spec_tokens_from(s@, i as int) =~= Seq::<Seq<char>>::empty());
                assert(out.deep_view() + Seq::<Seq<char>>::empty() =~= out.deep_view());
                assert(spec_tokens_from(s@, n as int) =~= Seq::<Seq<char>>::empty());
            }
            i = n;
        } else {
            // take the token
            let mut e: usize = b;
            let mut done_tok = false;
            while e < n && !done_tok
                invariant
                    b <= e <= n,
                    n == s@.len(),
                    done_tok ==> e < n && unicode_whitespace(s@[e as int]),
                    next_ws(s@, b as int) == if done_tok {
                        e as int
                    } else {
                        next_ws(s@, e as int)
                    },
                decreases n - e + if done_tok { 0int } else { 1int },
            {
                if !is_whitespace_char(s.get_char(e)) {
                    e = e + 1;
                } else {
                    done_tok = true;
                }
            }
            proof {
                assert(next_ws(s@, b as int) == e as int);
            }
            let ghost before = out.deep_view();
            out.push(String::from_str(s.substring_char(b, e)));
            proof {
                lemma_scan_bounds(s@, i as int);
                lemma_scan_bounds(s@, b as int);
                assert(e as int == next_ws(s@, b as int));
                assert(e > i);
                assert(out.deep_view() =~= before + seq![s@.subrange(b as int, e as int)]);
                assert(spec_tokens_from(s@, i as int) == seq![s@.subrange(b as int, e as int)]
                    + spec_tokens_from(s@, e as int));
                assert(out.deep_view() + spec_tokens_from(s@, e as int) =~= spec_tokens(s@));
                lemma_scan_bounds(s@, e as int);
            }
            i = e;
        }
    }
    proof {
        if i >= n {
            assert(spec_tokens_from(s@, i as int) =~= Seq::<Seq<char>>::empty());
            assert(out.deep_view() =~= spec_tokens(s@));
        }
    }
    out
}

/// The scans stay within the text and move forward.
proof fn lemma_scan_bounds(s: Seq<char>, i: int)
    requires
        0 <= i <= s.len(),
    ensures
        i <= next_non_ws(s, i) <= s.len(),
        i <= next_ws(s, i) <= s.len(),
        next_non_ws(s, i) < s.len() ==> !unicode_whitespace(s[next_non_ws(s, i)]),
        next_ws(s, i) < s.len() ==> unicode_whitespace(s[next_ws(s, i)]),
        i < s.len() && !unicode_whitespace(s[i]) ==> next_ws(s, i) >= i + 1,
    decreases s.len() - i,
{
    if i < s.len() {
        lemma_scan_bounds(s, i + 1);
    }
}

/// Whether every character is an ASCII digit (false for the empty
/// sequence), and the number they spell.
pub open spec fn all_digits(s: Seq<char>) -> bool {
    s.len() > 0 && forall|i: int| 0 <= i < s.len() ==> '0' <= #[trigger] s[i] <= '9'
}

pub open spec fn digits_val(s: Seq<char>) -> int
    decreases s.len(),
{
    if s.len() == 0 {
        0
    } else {
        digits_val(s.drop_last()) * 10 + (s.last() as int - '0' as int)
    }
}

/// A possible leading plus sign dropped.
pub open spec fn strip_plus(s: Seq<char>) -> Seq<char> {
    if s.len() > 0 && s[0] == '+' {
        s.drop_first()
    } else {
        s
    }
}

/// What `str::parse` yields for an unsigned decimal: the value of the
/// digits after an optional plus sign, refused when any other
/// character appears or the value does not fit.
pub open spec fn spec_parse_u64(s: Seq<char>) -> Option<u64> {
    let d = strip_plus(s);
    if all_digits(d) && digits_val(d) <= u64::MAX {
        Some(digits_val(d) as u64)
    } else {
        None
    }
}

/// Appending digits never shrinks the value.
proof fn lemma_digits_prefix_le(s: Seq<char>, k: int)
    requires
        0 <= k <= s.len(),
        all_digits(s),
    ensures
        digits_val(s.take(k)) <= digits_val(s),
        digits_val(s.take(k)) >= 0,
    decreases s.len() - k,
{
    if k == s.len() {
        assert(s.take(k) =~= s);
        lemma_digits_nonneg(s);
    } else {
        lemma_digits_prefix_le(s, k + 1);
        assert(s.take(k + 1).drop_last() =~= s.take(k));
        assert(s.take(k + 1).last() == s[k]);
        lemma_digits_nonneg(s.take(k));
    }
}

proof fn lemma_digits_nonneg(s: Seq<char>)
    requires
        forall|i: int| 0 <= i < s.len() ==> '0' <= #[trigger] s[i] <= '9',
    ensures
        digits_val(s) >= 0,
    decreases s.len(),
{
    if s.len() > 0 {
        assert(s.drop_last() =~= s.take(s.len() - 1));
        assert(forall|i: int|
            0 <= i < s.drop_last().len() ==> '0' <= #[trigger] s.drop_last()[i] <= '9');
        lemma_digits_nonneg(s.drop_last());
    }
}

/// Parses an unsigned 64-bit decimal as `str::parse` does.
pub fn parse_u64(s: &str) -> (r: Option<u64>)
    ensures
        r == spec_parse_u64(s@),
{
    let n = s.unicode_len();
    let start: usize = if n > 0 && s.get_char(0) == '+' {
        1
    } else {
        0
    };
    let ghost d = strip_plus(s@);
    proof {
        assert(d =~= s@.subrange(start as int, n as int));
    }
    if start >= n {
        return None;
    }
    let mut acc: u128 = 0;
    let mut i: usize = start;
    while i < n
        invariant
            start <= i <= n,
            n == s@.len(),
            start == if s@.len() > 0 && s@[0] == '+' {
                1int
            } else {
                0int
            },
            d == strip_plus(s@),
            d =~= s@.subrange(start as int, n as int),
            forall|k: int| start <= k < i ==> '0' <= #[trigger] s@[k] <= '9',
            acc == digits_val(d.take(i - start)),
            acc <= u64::MAX,
        decreases n - i,
    {
        let c = s.get_char(i);
        if !('0' <= c && c <= '9') {
            proof {
                assert(d[i - start] == s@[i as int]);
                assert(!all_digits(d));
            }
            return None;
        }
        let digit = (c as u32 - '0' as u32) as u128;
        proof {
            assert(d.take(i + 1 - start).drop_last() =~= d.take(i - start));
            assert(d.take(i + 1 - start).last() == s@[i as int]);
        }
        acc = acc * 10 + digit;
        if acc > u64::MAX as u128 {
            proof {
                if all_digits(d) {
                    lemma_digits_prefix_le(d, i + 1 - start);
                }
            }
            return None;
        }
        i = i + 1;
    }
    proof {
        assert(d.take(n - start) =~= d);
        assert(all_digits(d));
    }
    Some(acc as u64)
}

/// Parses an unsigned 32-bit decimal as `str::parse` does.
pub fn parse_u32(s: &str) -> (r: Option<u32>)
    ensures
        r == (match spec_parse_u64(s@) {
            Some(v) => if v <= u32::MAX {
                Some(v as u32)
            } else {
                None::<u32>
            },
            None => {
                let dd = strip_plus(s@);
                if all_digits(dd) && digits_val(dd) > u64::MAX {
                    None::<u32>
                } else {
                    None::<u32>
                }
            },
        }),
{
    match parse_u64(s) {
        Some(v) => {
            if v <= u32::MAX as u64 {
                Some(v as u32)
            } else {
                None
            }
        },
        None => None,
    }
}

/// Parses an unsigned machine-word decimal as `str::parse` does.
pub fn parse_usize(s: &str) -> (r: Option<usize>)
    ensures
        r == (match spec_parse_u64(s@) {
            Some(v) => if v <= usize::MAX {
                Some(v as usize)
            } else {
                None::<usize>
            },
            None => None::<usize>,
        }),
{
    match parse_u64(s) {
        Some(v) => {
            if v <= usize::MAX as u64 {
                Some(v as usize)
            } else {
                None
            }
        },
        None => None,
    }
}

/// The lines joined with single newlines.
pub open spec fn spec_join_nl(parts: Seq<Seq<char>>) -> Seq<char>
    decreases parts.len(),
{
    if parts.len() == 0 {
        Seq::empty()
    } else if parts.len() == 1 {
        parts[0]
    } else {
        spec_join_nl(parts.drop_last()) + seq!['\n'] + parts.last()
    }
}

/// Joins the strings in `[from, to)` of `parts` with newlines.
pub fn join_lines(parts: &Vec<String>, from: usize, to: usize) -> (r: String)
    requires
        from <= to <= parts@.len(),
    ensures
        r@ == spec_join_nl(parts.deep_view().subrange(from as int, to as int)),
{
    let mut out = String::new();
    let mut i: usize = from;
    while i < to
        invariant
            from <= i <= to <= parts@.len(),
            parts.deep_view().len() == parts@.len(),
            out@ == spec_join_nl(parts.deep_view().subrange(from as int, i as int)),
        decreases to - i,
    {
        if i > from {
            out.append("\n");
            proof {
                reveal_strlit("\n");
                assert(("\n"@) =~= seq!['\n']);
            }
        }
        out.append(parts[i].as_str());
        proof {
            let dv = parts.deep_view();
            assert(dv.subrange(from as int, i + 1).drop_last() =~= dv.subrange(
                from as int,
                i as int,
            ));
            assert(dv.subrange(from as int, i + 1).last() == dv[i as int]);
            if i == from {
                assert(spec_join_nl(dv.subrange(from as int, i + 1)) == dv[i as int]);
            }
        }
        i = i + 1;
    }
    proof {
        if from == to {
            assert(parts.deep_view().subrange(from as int, to as int)
                =~= Seq::<Seq<char>>::empty());
        }
    }
    out
}

/// Line-by-line equality with line endings normalized: how the runner
/// compares program output against the expected answer. Trailing white
/// space on each line is ignored (which also absorbs `"\r\n"`), and a
/// single final line break adds no line, but interior and trailing
/// empty lines still count.
pub fn compare_lines_ignoring_line_endings(a: &str, b: &str) -> (r: bool)
    ensures
        r == (spec_lines(a@).map_values(|t: Seq<char>| trim_end_ws(t)) == spec_lines(
            b@,
        ).map_values(|t: Seq<char>| trim_end_ws(t))),
{
    let la = split_lines(a);
    let lb = split_lines(b);
    let ghost fa = spec_lines(a@).map_values(|t: Seq<char>| trim_end_ws(t));
    let ghost fb = spec_lines(b@).map_values(|t: Seq<char>| trim_end_ws(t));
    if la.len() != lb.len() {
        proof {
            assert(fa.len() != fb.len());
        }
        return false;
    }
    let mut i: usize = 0;
    while i < la.len()
        invariant
            i <= la@.len(),
            la@.len() == lb@.len(),
            la.deep_view() == spec_lines(a@),
            lb.deep_view() == spec_lines(b@),
            fa == la.deep_view().map_values(|t: Seq<char>| trim_end_ws(t)),
            fb == lb.deep_view().map_values(|t: Seq<char>| trim_end_ws(t)),
            forall|k: int| 0 <= k < i ==> #[trigger] fa[k] == fb[k],
        decreases la@.len() - i,
    {
        let lat = trim_end(la[i].as_str());
        let lbt = trim_end(lb[i].as_str());
        if !crate::runnercfg::str_eq(lat.as_str(), lbt.as_str()) {
            proof {
                assert(fa[i as int] != fb[i as int]);
            }
            return false;
        }
        i = i + 1;
    }
    proof {
        assert(fa =~= fb);
    }
    true
}

} // verus!
