//! Display width and line wrapping: how many terminal columns each
//! character takes, how a line of characters packs greedily into rows
//! of a given width, and the visual position of a character offset.

use unicode_width::UnicodeWidthChar;
use vstd::prelude::*;

verus! {

/// Display width of a character in terminal columns, treating
/// ambiguous East-Asian characters as wide and control characters as
/// one column.
pub uninterp spec fn char_width_of(c: char) -> usize;

/// Relies on `unicode_width::UnicodeWidthChar::width_cjk`: the column
/// width of the character under UAX #11 with ambiguous characters
/// wide; control characters report no width and are counted as one
/// column here. The width table stores two-bit entries, so a width
/// never exceeds three columns.
#[verifier::external_body]
pub fn char_display_width(c: char) -> (w: usize)
    ensures
        w == char_width_of(c),
        w <= 3,
{
    c.width_cjk().unwrap_or(1)
}

/// Visual `(column, row)` reached after laying out the first `k`
/// characters of `s` in rows of `width` columns: a character that no
/// longer fits starts the next row.
pub open spec fn visual_pos(s: Seq<char>, width: int, k: int) -> (int, int)
    decreases k,
{
    if k <= 0 {
        (0int, 0int)
    } else {
        let p = visual_pos(s, width, k - 1);
        let w = char_width_of(s[k - 1]) as int;
        if p.0 + w > width {
            (w, p.1 + 1)
        } else {
            (p.0 + w, p.1)
        }
    }
}

/// Greedy chunking state after the first `k` characters of a non-empty
/// line: `(chunks so far, columns used in the open chunk, whether the
/// open chunk holds a character)`. A chunk takes characters while they
/// fit, but always takes at least one.
pub open spec fn chunk_state(s: Seq<char>, width: int, k: int) -> (int, int, bool)
    decreases k,
{
    if k <= 0 {
        (1int, 0int, false)
    } else {
        let st = chunk_state(s, width, k - 1);
        let w = char_width_of(s[k - 1]) as int;
        if st.1 + w > width && st.2 {
            (st.0 + 1, w, true)
        } else {
            (st.0, st.1 + w, true)
        }
    }
}

/// Number of rows a line occupies when wrapped to `width` columns: one
/// row for an empty line or an unbounded width, else the greedy chunk
/// count.
pub open spec fn row_count(s: Seq<char>, width: int) -> int {
    if s.len() == 0 || width <= 0 {
        1
    } else {
        chunk_state(s, width, s.len() as int).0
    }
}

/// The chunk count starts at one and grows at most once per character.
pub proof fn lemma_chunk_state_bounds(s: Seq<char>, width: int, k: int)
    requires
        k >= 0,
    ensures
        1 <= chunk_state(s, width, k).0 <= 1 + k,
        chunk_state(s, width, k).0 <= if k == 0 {
            1int
        } else {
            k
        },
        !chunk_state(s, width, k).2 ==> chunk_state(s, width, k).1 == 0,
    decreases k,
{
    if k > 0 {
        lemma_chunk_state_bounds(s, width, k - 1);
    }
}

/// A line always occupies at least one row and at most one per
/// character.
pub proof fn lemma_row_count_bounds(s: Seq<char>, width: int)
    ensures
        1 <= row_count(s, width),
        row_count(s, width) <= if s.len() == 0 {
            1int
        } else {
            s.len() as int
        },
{
    if s.len() > 0 && width > 0 {
        lemma_chunk_state_bounds(s, width, s.len() as int);
    }
}

/// The row of `visual_pos` never decreases and grows at most once per
/// character.
pub proof fn lemma_visual_pos_bounds(s: Seq<char>, width: int, k: int)
    requires
        k >= 0,
    ensures
        0 <= visual_pos(s, width, k).1 <= k,
        0 <= visual_pos(s, width, k).0,
    decreases k,
{
    if k > 0 {
        lemma_visual_pos_bounds(s, width, k - 1);
    }
}

/// Rows a line takes when wrapped to `width` columns; `width == 0`
/// means unbounded. The small headroom below `usize::MAX` keeps the
/// running column sum inside machine bounds.
pub fn wrapped_row_count(line: &Vec<char>, width: usize) -> (h: usize)
    requires
        width <= usize::MAX - 4,
    ensures
        h == row_count(line@, width as int),
        1 <= h,
        h <= if line@.len() == 0 {
            1int
        } else {
            line@.len() as int
        },
{
    proof {
        lemma_row_count_bounds(line@, width as int);
    }
    let n = line.len();
    if n == 0 || width == 0 {
        return 1;
    }
    let mut count: usize = 1;
    let mut cx: usize = 0;
    let mut started: bool = false;
    let mut i: usize = 0;
    while i < n
        invariant
            0 < n == line@.len(),
            0 < width <= usize::MAX - 4,
            i <= n,
            count as int == chunk_state(line@, width as int, i as int).0,
            cx as int == chunk_state(line@, width as int, i as int).1,
            started == chunk_state(line@, width as int, i as int).2,
            count <= if i == 0 {
                1int
            } else {
                i as int
            },
            cx <= width || cx <= 3,
            !started ==> cx == 0,
        decreases n - i,
    {
        proof {
            lemma_chunk_state_bounds(line@, width as int, i + 1);
        }
        let w = char_display_width(line[i]);
        if cx + w > width && started {
            count = count + 1;
            cx = w;
        } else {
            cx = cx + w;
        }
        started = true;
        i = i + 1;
    }
    count
}

/// The character index where each wrapped row of `line` starts: row
/// `k` holds the characters `[r[k], r[k+1])` (the last row runs to the
/// end). One entry per row of `row_count`, starting at zero; each
/// later entry is exactly where the greedy chunk count steps up.
pub fn chunk_starts(line: &Vec<char>, width: usize) -> (r: Vec<usize>)
    requires
        width <= usize::MAX - 4,
    ensures
        r@.len() == row_count(line@, width as int),
        r@[0] == 0,
        forall|k: int| 1 <= k < r@.len() ==> 0 < #[trigger] r@[k] < line@.len(),
        forall|k: int| 0 <= k < r@.len() - 1 ==> #[trigger] r@[k] < r@[k + 1],
        forall|k: int|
            1 <= k < r@.len() ==> chunk_state(line@, width as int, #[trigger] r@[k] as int).0 == k
                && chunk_state(line@, width as int, r@[k] as int + 1).0 == k + 1,
{
    proof {
        lemma_row_count_bounds(line@, width as int);
    }
    let n = line.len();
    let mut starts: Vec<usize> = Vec::new();
    starts.push(0);
    if n == 0 || width == 0 {
        return starts;
    }
    let mut count: usize = 1;
    let mut cx: usize = 0;
    let mut started: bool = false;
    let mut i: usize = 0;
    while i < n
        invariant
            0 < n == line@.len(),
            0 < width <= usize::MAX - 4,
            i <= n,
            count as int == chunk_state(line@, width as int, i as int).0,
            cx as int == chunk_state(line@, width as int, i as int).1,
            started == chunk_state(line@, width as int, i as int).2,
            count <= if i == 0 {
                1int
            } else {
                i as int
            },
            cx <= width || cx <= 3,
            !started ==> cx == 0,
            1 <= count,
            starts@.len() == count,
            starts@[0] == 0,
            forall|k: int| 1 <= k < count ==> 0 < #[trigger] starts@[k] < n,
            forall|k: int| 0 <= k < count - 1 ==> #[trigger] starts@[k] < starts@[k + 1],
            starts@[count - 1] < i || i == 0,
            forall|k: int|
                1 <= k < count ==> chunk_state(line@, width as int, #[trigger] starts@[k] as int).0
                    == k && chunk_state(line@, width as int, starts@[k] as int + 1).0 == k + 1,
        decreases n - i,
    {
        proof {
            lemma_chunk_state_bounds(line@, width as int, i + 1);
        }
        let ghost before = starts@;
        let w = char_display_width(line[i]);
        if cx + w > width && started {
            count = count + 1;
            cx = w;
            starts.push(i);
            proof {
                assert(starts@ == before.push(i));
                assert(starts@[0] == before[0]);
                assert(forall|k: int|
                    0 <= k < before.len() ==> #[trigger] starts@[k] == before[k]);
            }
        } else {
            cx = cx + w;
        }
        started = true;
        i = i + 1;
    }
    starts
}

/// The visual `(column, row)` of `char_offset` within `line` when
/// wrapped to `width` columns; offsets past the end stop at the end.
pub fn char_idx_to_visual_pos(line: &Vec<char>, width: usize, char_offset: usize) -> (r: (
    usize,
    usize,
))
    requires
        width <= usize::MAX - 4,
    ensures
        ({
            let k = if char_offset <= line@.len() {
                char_offset as int
            } else {
                line@.len() as int
            };
            (r.0 as int, r.1 as int) == visual_pos(line@, width as int, k)
        }),
        r.1 <= line@.len(),
{
    let n = line.len();
    let mut vx: usize = 0;
    let mut vy: usize = 0;
    let mut i: usize = 0;
    while i < n && i < char_offset
        invariant
            n == line@.len(),
            width <= usize::MAX - 4,
            i <= n,
            i <= char_offset,
            i == n || i == char_offset || i < n && i < char_offset,
            (vx as int, vy as int) == visual_pos(line@, width as int, i as int),
            vy <= i,
            vx <= width || vx <= 3,
        decreases n - i,
    {
        let w = char_display_width(line[i]);
        if vx + w > width {
            vy = vy + 1;
            vx = w;
        } else {
            vx = vx + w;
        }
        i = i + 1;
    }
    (vx, vy)
}

/// Number of characters of a line without its trailing line break:
/// a final `"\n"` or `"\r\n"` is not counted.
pub open spec fn len_no_ending(s: Seq<char>) -> int {
    if s.len() > 0 && s[s.len() - 1] == '\n' {
        if s.len() > 1 && s[s.len() - 2] == '\r' {
            s.len() - 2
        } else {
            s.len() - 1
        }
    } else {
        s.len() as int
    }
}

/// The character count of `line` without a trailing `"\n"` or
/// `"\r\n"`.
pub fn len_chars_without_ending(line: &Vec<char>) -> (r: usize)
    ensures
        r == len_no_ending(line@),
{
    let len = line.len();
    if len > 0 && line[len - 1] == '\n' {
        if len > 1 && line[len - 2] == '\r' {
            len - 2
        } else {
            len - 1
        }
    } else {
        len
    }
}

/// Where the scan of `visual_to_char_idx` lands, carried forward from
/// position `i` with the layout state `(vx, vy)` and the last scanned
/// index `last`.
pub open spec fn visual_scan(
    s: Seq<char>,
    width: int,
    tvx: int,
    tvy: int,
    i: int,
    vx: int,
    vy: int,
    last: int,
) -> int
    decreases s.len() - i,
{
    if i < 0 || i >= s.len() {
        len_no_ending(s)
    } else if vy > tvy {
        last
    } else if vy == tvy && vx >= tvx {
        i
    } else {
        let w = char_width_of(s[i]) as int;
        if vx + w > width {
            visual_scan(s, width, tvx, tvy, i + 1, w, vy + 1, i)
        } else {
            visual_scan(s, width, tvx, tvy, i + 1, vx + w, vy, i)
        }
    }
}

/// The character offset within `line` closest to the visual position
/// `(target_vx, target_vy)`: the first offset on the target row whose
/// column reaches the target, the end of the row when the target lies
/// past it, or the end of the line's content.
pub fn visual_pos_to_char_idx(line: &Vec<char>, width: usize, target_vx: usize, target_vy: usize)
    -> (r: usize)
    requires
        width <= usize::MAX - 4,
    ensures
        r == visual_scan(
            line@,
            width as int,
            target_vx as int,
            target_vy as int,
            0,
            0,
            0,
            0,
        ),
        r <= line@.len(),
{
    proof {
        lemma_len_no_ending_bounds(line@);
    }
    let n = line.len();
    let mut vx: usize = 0;
    let mut vy: usize = 0;
    let mut last: usize = 0;
    let mut i: usize = 0;
    while i < n
        invariant
            n == line@.len(),
            width <= usize::MAX - 4,
            i <= n,
            last <= i,
            last < n || n == 0 && last == 0,
            vx <= width || vx <= 3,
            visual_scan(
                line@,
                width as int,
                target_vx as int,
                target_vy as int,
                0,
                0,
                0,
                0,
            ) == visual_scan(
                line@,
                width as int,
                target_vx as int,
                target_vy as int,
                i as int,
                vx as int,
                vy as int,
                last as int,
            ),
            vy <= i,
        decreases n - i,
    {
        if vy > target_vy {
            return last;
        }
        last = i;
        let w = char_display_width(line[i]);
        if vy == target_vy && vx >= target_vx {
            return i;
        }
        if vx + w > width {
            vy = vy + 1;
            vx = w;
        } else {
            vx = vx + w;
        }
        i = i + 1;
    }
    proof {
        lemma_len_no_ending_bounds(line@);
    }
    len_chars_without_ending(line)
}

/// The content length is never more than the full length.
pub proof fn lemma_len_no_ending_bounds(s: Seq<char>)
    ensures
        0 <= len_no_ending(s) <= s.len(),
{
}


/// The visual-position machine and the greedy chunker stay in step:
/// their running columns agree, and the visual row index never exceeds
/// the chunk count.
pub proof fn lemma_visual_chunk_coupled(s: Seq<char>, width: int, k: int)
    requires
        width >= 1,
        0 <= k,
    ensures
        visual_pos(s, width, k).0 == chunk_state(s, width, k).1,
        visual_pos(s, width, k).1 == chunk_state(s, width, k).0 - 1 || visual_pos(s, width, k).1
            == chunk_state(s, width, k).0,
    decreases k,
{
    if k > 0 {
        lemma_visual_chunk_coupled(s, width, k - 1);
        lemma_chunk_state_bounds(s, width, k - 1);
        lemma_visual_pos_bounds(s, width, k - 1);
    }
}

/// The chunk count only grows as more characters are laid out.
pub proof fn lemma_chunk_count_mono(s: Seq<char>, width: int, i: int, j: int)
    requires
        0 <= i <= j,
    ensures
        chunk_state(s, width, i).0 <= chunk_state(s, width, j).0,
    decreases j - i,
{
    if i < j {
        lemma_chunk_count_mono(s, width, i, j - 1);
    }
}

/// The visual row of any prefix stays below the line's row count.
pub proof fn lemma_visual_row_le_rows(s: Seq<char>, width: int, k: int)
    requires
        width >= 1,
        0 <= k <= s.len(),
    ensures
        visual_pos(s, width, k).1 <= row_count(s, width),
{
    lemma_visual_pos_bounds(s, width, k);
    if s.len() > 0 {
        lemma_visual_chunk_coupled(s, width, k);
        lemma_chunk_count_mono(s, width, k, s.len() as int);
        lemma_chunk_state_bounds(s, width, s.len() as int);
    }
}

} // verus!
