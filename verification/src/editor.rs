//! The editor core: a document held in a rope, a cursor with an
//! optional selection anchor, the cumulative visual-height cache that
//! maps logical lines to wrapped screen rows, and the command engine
//! that turns input events into edits and cursor motion.

use crate::command::{keymap_lookup, Command, InputEvent, KeyCode, KeyMap};
use crate::dirty::DirtyLines;
use crate::textbuf::{
    line_at, line_count, line_start, newlines_before, next_newline, rope_char_at,
    rope_char_to_line, rope_insert, rope_insert_char, rope_len_chars, rope_len_lines,
    rope_line_chars, rope_line_to_char, rope_new, rope_remove, rope_slice_string, rope_text,
};
use crate::width::{
    char_display_width, char_idx_to_visual_pos, char_width_of, len_chars_without_ending, len_no_ending, lemma_row_count_bounds,
    row_count, visual_pos, visual_pos_to_char_idx, visual_scan, wrapped_row_count,
};
use crate::textbuf::{
    lemma_char_in_its_line, lemma_line_start_bounds, lemma_line_start_mono,
    lemma_line_start_mono_upto, lemma_newlines_bounds, lemma_newlines_monotone,
    lemma_next_newline,
};
use ropey::Rope;
use vstd::prelude::*;

verus! {

/// Columns taken by the line-number gutter.
pub const LINE_NUMBER_WIDTH: usize = 7;

/// Rows taken by the status bar.
pub const STATUS_BAR_HEIGHT: u16 = 1;

/// Cap on the document size, so that the visual height of the whole
/// document always fits the 32-bit cumulative height entries.
pub const MAX_TEXT_LEN: usize = 0x10000000;

/// The first visible visual row: a logical line and a wrapped-row
/// offset within it.
#[derive(Debug, Clone, Copy, PartialEq, Eq, Structural)]
pub struct ScrollOffset {
    pub logical_line: usize,
    pub visual_offset_in_line: usize,
}

impl Default for ScrollOffset {
    fn default() -> (r: Self)
        ensures
            r == (ScrollOffset { logical_line: 0, visual_offset_in_line: 0 }),
    {
        ScrollOffset { logical_line: 0, visual_offset_in_line: 0 }
    }
}

/// What a command changed, for the damage collector.
#[derive(Debug, Clone, Copy, PartialEq, Eq, Structural)]
pub enum CommandEffect {
    /// `(start_line, old_line_count, new_line_count)`: that many lines
    /// starting at `start_line` were replaced.
    TextChanged(usize, usize, usize),
    /// Only the cursor (and possibly the selection) moved.
    CursorDirty,
    /// The command set the selection itself; no selection bookkeeping
    /// must follow.
    SelectionFixed,
    /// Nothing to repaint.
    NoEffect,
}

/// Sum of the wrapped heights of the first `l` lines of `s`.
pub open spec fn cum_height(s: Seq<char>, width: int, l: int) -> int
    decreases l,
{
    if l <= 0 {
        0
    } else {
        cum_height(s, width, l - 1) + row_count(line_at(s, l - 1), width)
    }
}

/// The cache `h` matches a full rebuild for text `s` at `width`.
pub open spec fn heights_ok(h: Seq<u32>, s: Seq<char>, width: int) -> bool {
    &&& h.len() == line_count(s) + 1
    &&& forall|l: int| 0 <= l <= line_count(s) ==> #[trigger] h[l] == cum_height(s, width, l)
}

/// The editor: document, cursor, selection, layout cache, damage set
/// and keymap.
pub struct Editor {
    pub text: Rope,
    pub cursor: usize,
    pub selection_anchor: Option<usize>,
    pub tmp_x: Option<usize>,
    pub terminal_width: u16,
    pub terminal_height: u16,
    pub scroll_offset: ScrollOffset,
    pub cumulative_visual_heights: Vec<u32>,
    pub is_dirty: bool,
    pub full_redraw_request: bool,
    pub dirty_lines: DirtyLines,
    pub should_quit: bool,
    pub keymap: KeyMap,
}

impl Editor {
    /// The document as a sequence of characters.
    pub open spec fn text_seq(&self) -> Seq<char> {
        rope_text(self.text)
    }

    /// Columns available for content; zero width means unbounded, kept
    /// as a huge row width.
    pub open spec fn width_spec(&self) -> int {
        let w = self.terminal_width as int - LINE_NUMBER_WIDTH as int - 1;
        if w <= 0 {
            1000000000
        } else {
            w
        }
    }

    /// Rows available for content.
    pub open spec fn height_spec(&self) -> int {
        if self.terminal_height >= STATUS_BAR_HEIGHT {
            self.terminal_height - STATUS_BAR_HEIGHT
        } else {
            0
        }
    }

    /// Base well-formedness: cursor and anchor inside the document, the
    /// document small enough for the height cache, the damage set
    /// well-formed, and the scroll offset within the cache's range.
    pub open spec fn wf(&self) -> bool {
        &&& self.text_seq().len() <= MAX_TEXT_LEN
        &&& self.cursor <= self.text_seq().len()
        &&& match self.selection_anchor {
            Some(a) => a <= self.text_seq().len(),
            None => true,
        }
        &&& self.dirty_lines.wf()
        &&& self.scroll_offset.visual_offset_in_line <= 2 * MAX_TEXT_LEN
    }

    /// The layout cache matches the current text and width.
    pub open spec fn layout_ok(&self) -> bool {
        heights_ok(self.cumulative_visual_heights@, self.text_seq(), self.width_spec())
    }

    /// Fresh editor over an empty document.
    pub fn new(cols: u16, rows: u16) -> (r: Editor)
        ensures
            r.wf(),
            r.text_seq() == Seq::<char>::empty(),
            r.cursor == 0,
            r.selection_anchor is None,
            r.terminal_width == cols,
            r.terminal_height == rows,
            !r.should_quit,
    {
        Editor::from_rope(rope_new(), cols, rows)
    }

    /// Editor over an existing document. The caller supplies the
    /// terminal size; the layout cache is empty until the first
    /// rebuild.
    pub fn from_rope(rope: Rope, cols: u16, rows: u16) -> (r: Editor)
        requires
            rope_text(rope).len() <= MAX_TEXT_LEN,
        ensures
            r.wf(),
            r.text_seq() == rope_text(rope),
            r.cursor == 0,
            r.selection_anchor is None,
            r.terminal_width == cols,
            r.terminal_height == rows,
            !r.should_quit,
    {
        let mut hv: Vec<u32> = Vec::new();
        hv.push(0);
        Editor {
            text: rope,
            cursor: 0,
            selection_anchor: None,
            tmp_x: None,
            terminal_width: cols,
            terminal_height: rows,
            scroll_offset: ScrollOffset { logical_line: 0, visual_offset_in_line: 0 },
            cumulative_visual_heights: hv,
            is_dirty: true,
            full_redraw_request: true,
            dirty_lines: DirtyLines::new(),
            should_quit: false,
            keymap: crate::command::default_keymap(),
        }
    }

    /// The document rope, read-only.
    pub fn text(&self) -> (r: &Rope)
        ensures
            rope_text(*r) == self.text_seq(),
    {
        &self.text
    }

    /// Columns available for content; a degenerate terminal maps to an
    /// effectively unbounded row width.
    pub fn content_width(&self) -> (w: usize)
        ensures
            w == self.width_spec(),
            1 <= w <= 1000000000,
    {
        let total = self.terminal_width as usize;
        let w = if total > LINE_NUMBER_WIDTH + 1 {
            total - LINE_NUMBER_WIDTH - 1
        } else {
            0
        };
        if w == 0 {
            1000000000
        } else {
            w
        }
    }

    /// Rows available for content.
    pub fn content_height(&self) -> (h: u16)
        ensures
            h == self.height_spec(),
    {
        if self.terminal_height >= STATUS_BAR_HEIGHT {
            self.terminal_height - STATUS_BAR_HEIGHT
        } else {
            0
        }
    }

    /// Recomputes the whole cumulative height cache from the text.
    pub fn rebuild_height_cache(&mut self)
        requires
            old(self).wf(),
        ensures
            final(self).layout_ok(),
            *final(self) == (Editor {
                cumulative_visual_heights: final(self).cumulative_visual_heights,
                ..*old(self)
            }),
            final(self).wf(),
    {
        let ghost s = self.text_seq();
        let ghost width = self.width_spec();
        proof {
            lemma_newlines_bounds(s, s.len() as int);
            lemma_cum_height_bound(s, width, line_count(s));
        }
        let n_lines = rope_len_lines(&self.text);
        let cw = self.content_width();
        let mut hv: Vec<u32> = Vec::new();
        hv.push(0);
        let mut total: u32 = 0;
        let mut l: usize = 0;
        while l < n_lines
            invariant
                *self == *old(self),
                s == self.text_seq(),
                width == self.width_spec(),
                s.len() <= MAX_TEXT_LEN,
                cw == width,
                1 <= cw <= 1000000000,
                n_lines == line_count(s),
                0 <= l <= n_lines,
                total == cum_height(s, width, l as int),
                hv@.len() == l + 1,
                forall|k: int| 0 <= k <= l ==> #[trigger] hv@[k] == cum_height(s, width, k),
            decreases n_lines - l,
        {
            proof {
                lemma_line_start_bounds(s, l as int);
                lemma_line_start_bounds(s, l + 1);
                lemma_cum_height_bound(s, width, l + 1);
                lemma_cum_height_bound(s, width, l as int);
                lemma_newlines_bounds(s, s.len() as int);
            }
            let line = rope_line_chars(&self.text, l);
            let h = wrapped_row_count(&line, cw);
            proof {
                lemma_row_count_bounds(line@, width);
            }
            total = total + (h as u32);
            hv.push(total);
            l = l + 1;
        }
        self.cumulative_visual_heights = hv;
    }

    /// Total wrapped height of the lines in `[start, end)` according to
    /// the cache; out-of-range queries answer zero.
    pub fn get_total_visual_height_between(&self, start: usize, end: usize) -> (r: u32)
        requires
            heights_sorted(self.cumulative_visual_heights@),
        ensures
            r == spec_total_between(self.cumulative_visual_heights@, start as int, end as int),
    {
        if end >= self.cumulative_visual_heights.len() || start > end {
            return 0;
        }
        self.cumulative_visual_heights[end] - self.cumulative_visual_heights[start]
    }

    /// Wrapped height of one line according to the cache; out-of-range
    /// lines answer one.
    pub fn get_visual_height_for_line(&self, line_idx: usize) -> (r: u32)
        requires
            heights_sorted(self.cumulative_visual_heights@),
        ensures
            r == spec_line_height(self.cumulative_visual_heights@, line_idx as int),
    {
        if self.cumulative_visual_heights.len() < 2
            || line_idx >= self.cumulative_visual_heights.len() - 1 {
            return 1;
        }
        self.cumulative_visual_heights[line_idx + 1] - self.cumulative_visual_heights[line_idx]
    }
}

/// The state `update_height_cache` accepts: the cache still matches a
/// text that agreed with the current one outside the replaced span of
/// lines, entry for entry.
/// Difference of neighbouring cache entries: the cached height of one
/// line.
pub open spec fn cache_diff(h: Seq<u32>, l: int) -> int {
    h[l + 1] - h[l]
}

pub open spec fn update_pre(
    h: Seq<u32>,
    s: Seq<char>,
    width: int,
    start_line: int,
    old_count: int,
    new_count: int,
) -> bool {
    &&& old_count >= 1
    &&& new_count >= 1
    &&& 0 <= start_line
    &&& start_line + new_count <= line_count(s)
    &&& h.len() == line_count(s) - new_count + old_count + 1
    &&& h[0] == 0
    &&& heights_sorted(h)
    &&& forall|l: int|
        0 <= l < start_line ==> #[trigger] cache_diff(h, l) == row_count(line_at(s, l), width)
    &&& forall|l: int|
        start_line + old_count <= l < h.len() - 1 ==> #[trigger] cache_diff(h, l) == row_count(
            line_at(s, l - old_count + new_count),
            width,
        )
}

/// A zeroed, diff-consistent prefix of the cache equals the rebuilt
/// prefix.
proof fn lemma_prefix_cum(
    h: Seq<u32>,
    s: Seq<char>,
    width: int,
    start_line: int,
    old_count: int,
    new_count: int,
    l: int,
)
    requires
        update_pre(h, s, width, start_line, old_count, new_count),
        0 <= l <= start_line,
        start_line < h.len(),
    ensures
        h[l] == cum_height(s, width, l),
    decreases l,
{
    if l > 0 {
        lemma_prefix_cum(h, s, width, start_line, old_count, new_count, l - 1);
        assert(cache_diff(h, l - 1) == row_count(line_at(s, l - 1), width));
    }
}

/// Past the replaced span, rebuilt heights differ from the cache by a
/// constant.
proof fn lemma_suffix_cum(
    h: Seq<u32>,
    s: Seq<char>,
    width: int,
    start_line: int,
    old_count: int,
    new_count: int,
    j: int,
)
    requires
        update_pre(h, s, width, start_line, old_count, new_count),
        start_line + new_count <= j <= line_count(s),
    ensures
        cum_height(s, width, j) == cum_height(s, width, start_line + new_count) + (h[j - new_count
            + old_count] - h[start_line + old_count]),
    decreases j,
{
    if j > start_line + new_count {
        lemma_suffix_cum(h, s, width, start_line, old_count, new_count, j - 1);
        assert(cache_diff(h, j - 1 - new_count + old_count) == row_count(line_at(s, j - 1), width));
    }
}

impl Editor {
    /// After an edit replaced `old_line_count` logical lines starting
    /// at `start_line` with `new_line_count` new ones, recomputes only
    /// the heights of the new span, splices them into the cache and
    /// shifts everything below by the height delta, which is returned.
    /// Afterwards the cache again equals a full rebuild.
    pub fn update_height_cache(
        &mut self,
        start_line: usize,
        old_line_count: usize,
        new_line_count: usize,
    ) -> (delta: i64)
        requires
            old(self).wf(),
            update_pre(
                old(self).cumulative_visual_heights@,
                old(self).text_seq(),
                old(self).width_spec(),
                start_line as int,
                old_line_count as int,
                new_line_count as int,
            ),
        ensures
            final(self).layout_ok(),
            final(self).wf(),
            *final(self) == (Editor {
                cumulative_visual_heights: final(self).cumulative_visual_heights,
                ..*old(self)
            }),
            delta == cum_height(
                final(self).text_seq(),
                final(self).width_spec(),
                start_line + new_line_count,
            ) - cum_height(final(self).text_seq(), final(self).width_spec(), start_line as int) - (
            old(self).cumulative_visual_heights@[start_line + old_line_count]
                - old(self).cumulative_visual_heights@[start_line as int]),
    {
        let ghost s = self.text_seq();
        let ghost width = self.width_spec();
        let ghost h0 = self.cumulative_visual_heights@;
        proof {
            lemma_newlines_bounds(s, s.len() as int);
            lemma_cum_height_bound(s, width, line_count(s));
            lemma_line_start_bounds(s, line_count(s));
        }
        let n_lines = rope_len_lines(&self.text);
        let cw = self.content_width();
        let h_len = self.cumulative_visual_heights.len();

        let old_span = self.cumulative_visual_heights[start_line + old_line_count]
            - self.cumulative_visual_heights[start_line];

        // heights of the lines now occupying the replaced span
        let mut new_heights: Vec<u32> = Vec::new();
        let mut new_span: u32 = 0;
        let mut i: usize = 0;
        while i < new_line_count
            invariant
                *self == *old(self),
                s == self.text_seq(),
                width == self.width_spec(),
                s.len() <= MAX_TEXT_LEN,
                cw == width,
                1 <= cw <= 1000000000,
                update_pre(
                    h0,
                    s,
                    width,
                    start_line as int,
                    old_line_count as int,
                    new_line_count as int,
                ),
                h0 == self.cumulative_visual_heights@,
                line_count(s) <= s.len() + 1,
                i <= new_line_count,
                start_line + new_line_count <= line_count(s),
                new_heights@.len() == i,
                forall|k: int|
                    0 <= k < i ==> #[trigger] new_heights@[k] == row_count(
                        line_at(s, start_line + k),
                        width,
                    ),
                new_span == cum_height(s, width, start_line + i) - cum_height(
                    s,
                    width,
                    start_line as int,
                ),
            decreases new_line_count - i,
        {
            proof {
                lemma_cum_height_bound(s, width, start_line + i + 1);
                lemma_cum_height_mono(s, width, 0, start_line as int);
                lemma_cum_height_bound(s, width, start_line as int);
                lemma_cum_height_mono(s, width, start_line as int, start_line + i + 1);
                lemma_line_start_bounds(s, start_line + i + 1);
            }
            let line = rope_line_chars(&self.text, start_line + i);
            let h = wrapped_row_count(&line, cw);
            new_heights.push(h as u32);
            new_span = new_span + (h as u32);
            i = i + 1;
        }

        let delta: i64 = new_span as i64 - old_span as i64;

        // rebuild the cache: shared prefix, new span, shifted suffix
        let mut out: Vec<u32> = Vec::new();
        let mut k: usize = 0;
        while k <= start_line
            invariant
                *self == *old(self),
                s == self.text_seq(),
                width == self.width_spec(),
                h0 == self.cumulative_visual_heights@,
                update_pre(
                    h0,
                    s,
                    width,
                    start_line as int,
                    old_line_count as int,
                    new_line_count as int,
                ),
                start_line < h0.len(),
                h0.len() <= usize::MAX,
                line_count(s) <= s.len() + 1,
                start_line + 1 < h0.len(),
                k <= start_line + 1,
                out@.len() == k,
                forall|j: int| 0 <= j < k ==> #[trigger] out@[j] == h0[j],
                forall|j: int| 0 <= j < k ==> #[trigger] out@[j] == cum_height(s, width, j),
            decreases start_line - k + 1,
        {
            proof {
                lemma_prefix_cum(
                    h0,
                    s,
                    width,
                    start_line as int,
                    old_line_count as int,
                    new_line_count as int,
                    k as int,
                );
            }
            out.push(self.cumulative_visual_heights[k]);
            k = k + 1;
        }

        let mut cur: u32 = self.cumulative_visual_heights[start_line];
        proof {
            lemma_prefix_cum(
                h0,
                s,
                width,
                start_line as int,
                old_line_count as int,
                new_line_count as int,
                start_line as int,
            );
        }
        let mut i2: usize = 0;
        while i2 < new_line_count
            invariant
                *self == *old(self),
                s == self.text_seq(),
                width == self.width_spec(),
                s.len() <= MAX_TEXT_LEN,
                line_count(s) <= s.len() + 1,
                i2 <= new_line_count,
                start_line + new_line_count <= line_count(s),
                new_heights@.len() == new_line_count,
                forall|k2: int|
                    0 <= k2 < new_line_count ==> #[trigger] new_heights@[k2] == row_count(
                        line_at(s, start_line + k2),
                        width,
                    ),
                cur == cum_height(s, width, start_line + i2),
                out@.len() == start_line + 1 + i2,
                forall|j: int|
                    0 <= j <= start_line + i2 ==> #[trigger] out@[j] == cum_height(s, width, j),
            decreases new_line_count - i2,
        {
            proof {
                lemma_cum_height_bound(s, width, start_line + i2 + 1);
                lemma_cum_height_mono(s, width, 0, start_line + i2 + 1);
                lemma_line_start_bounds(s, start_line + i2 + 1);
            }
            cur = cur + new_heights[i2];
            out.push(cur);
            i2 = i2 + 1;
        }

        // shifted suffix
        let mut l: usize = start_line + old_line_count + 1;
        while l < h_len
            invariant
                *self == *old(self),
                s == self.text_seq(),
                width == self.width_spec(),
                s.len() <= MAX_TEXT_LEN,
                h0 == self.cumulative_visual_heights@,
                update_pre(
                    h0,
                    s,
                    width,
                    start_line as int,
                    old_line_count as int,
                    new_line_count as int,
                ),
                h_len == h0.len(),
                line_count(s) <= s.len() + 1,
                start_line + new_line_count <= line_count(s),
                delta == new_span as int - old_span as int,
                new_span == cum_height(s, width, start_line + new_line_count) - cum_height(
                    s,
                    width,
                    start_line as int,
                ),
                old_span == h0[start_line + old_line_count] - h0[start_line as int],
                h0[0] == 0,
                cum_height(s, width, start_line as int) == h0[start_line as int],
                start_line + old_line_count + 1 <= l <= h_len,
                out@.len() == l - old_line_count + new_line_count,
                forall|j: int|
                    0 <= j < out@.len() ==> #[trigger] out@[j] == cum_height(s, width, j),
            decreases h_len - l,
        {
            proof {
                lemma_suffix_cum(
                    h0,
                    s,
                    width,
                    start_line as int,
                    old_line_count as int,
                    new_line_count as int,
                    l - old_line_count + new_line_count,
                );
                lemma_cum_height_bound(s, width, l - old_line_count + new_line_count);
                lemma_cum_height_mono(s, width, 0, l - old_line_count + new_line_count);
                lemma_line_start_bounds(s, l - old_line_count + new_line_count);
            }
            let v: i64 = self.cumulative_visual_heights[l] as i64 + delta;
            out.push(v as u32);
            l = l + 1;
        }
        self.cumulative_visual_heights = out;
        proof {
            lemma_suffix_cum(
                h0,
                s,
                width,
                start_line as int,
                old_line_count as int,
                new_line_count as int,
                start_line + new_line_count,
            );
        }
        delta
    }
}

/// The absolute visual row the cache gives for a scroll position.
pub open spec fn abs_row(h: Seq<u32>, so: ScrollOffset) -> int {
    spec_total_between(h, 0, so.logical_line as int) + so.visual_offset_in_line
}

impl Editor {
    /// The logical line holding the cursor.
    pub open spec fn cursor_line(&self) -> int {
        newlines_before(self.text_seq(), self.cursor as int)
    }

    /// The cursor's wrapped-row offset within its line.
    pub open spec fn cursor_row_in_line(&self) -> int {
        visual_pos(
            line_at(self.text_seq(), self.cursor_line()),
            self.width_spec(),
            self.cursor - line_start(self.text_seq(), self.cursor_line()),
        ).1
    }

    /// The cursor's absolute visual row.
    pub open spec fn cursor_abs_row(&self) -> int {
        cum_height(self.text_seq(), self.width_spec(), self.cursor_line())
            + self.cursor_row_in_line()
    }

    /// Total wrapped height of the whole document.
    pub open spec fn total_height(&self) -> int {
        cum_height(self.text_seq(), self.width_spec(), line_count(self.text_seq()))
    }

    /// The absolute visual row of a scroll position, per the cache.
    pub fn logical_to_absolute_visual(&self, offset: ScrollOffset) -> (r: u32)
        requires
            self.layout_ok(),
            self.text_seq().len() <= MAX_TEXT_LEN,
            offset.visual_offset_in_line <= 2 * MAX_TEXT_LEN,
        ensures
            r == abs_row(self.cumulative_visual_heights@, offset),
    {
        proof {
            lemma_heights_ok_sorted(
                self.cumulative_visual_heights@,
                self.text_seq(),
                self.width_spec(),
            );
            lemma_newlines_bounds(self.text_seq(), self.text_seq().len() as int);
            lemma_cum_height_bound(
                self.text_seq(),
                self.width_spec(),
                line_count(self.text_seq()),
            );
            lemma_line_start_bounds(self.text_seq(), line_count(self.text_seq()));
            if offset.logical_line as int <= line_count(self.text_seq()) {
                lemma_cum_height_mono(
                    self.text_seq(),
                    self.width_spec(),
                    offset.logical_line as int,
                    line_count(self.text_seq()),
                );
                lemma_cum_height_bound(self.text_seq(), self.width_spec(), offset.logical_line as int);
            }
        }
        let height_before = self.get_total_visual_height_between(0, offset.logical_line);
        height_before + (offset.visual_offset_in_line as u32)
    }

    /// The scroll position owning an absolute visual row: the last line
    /// whose cumulative height does not exceed it, clamped to the last
    /// line of the document, with the remainder as the in-line offset.
    pub fn absolute_visual_to_logical(&self, abs_visual_y: u32) -> (r: ScrollOffset)
        requires
            self.layout_ok(),
            self.text_seq().len() <= MAX_TEXT_LEN,
        ensures
            ({
                let h = self.cumulative_visual_heights@;
                let lc = line_count(self.text_seq());
                &&& r.logical_line < lc
                &&& h[r.logical_line as int] <= abs_visual_y
                &&& r.visual_offset_in_line == abs_visual_y - h[r.logical_line as int]
                &&& abs_visual_y < h[lc] ==> abs_visual_y < h[r.logical_line as int + 1]
                &&& abs_visual_y >= h[lc] ==> r.logical_line == lc - 1
            }),
    {
        let ghost s = self.text_seq();
        let ghost width = self.width_spec();
        let ghost h = self.cumulative_visual_heights@;
        proof {
            lemma_heights_ok_sorted(h, s, width);
            lemma_newlines_bounds(s, s.len() as int);
        }
        let n_lines = rope_len_lines(&self.text);
        if abs_visual_y == 0 {
            proof {
                assert(h[0] == cum_height(s, width, 0));
                assert(h[1] == cum_height(s, width, 1));
                lemma_row_count_bounds(line_at(s, 0), width);
            }
            return ScrollOffset { logical_line: 0, visual_offset_in_line: 0 };
        }

        // first cache entry above the target row
        let hn = self.cumulative_visual_heights.len();
        let mut lo: usize = 0;
        let mut hi: usize = hn;
        while lo < hi
            invariant
                lo <= hi <= hn,
                hn == h.len(),
                h == self.cumulative_visual_heights@,
                heights_sorted(h),
                forall|k: int| 0 <= k < lo ==> #[trigger] h[k] <= abs_visual_y,
                forall|k: int| hi <= k < hn ==> #[trigger] h[k] > abs_visual_y,
            decreases hi - lo,
        {
            let mid = lo + (hi - lo) / 2;
            if self.cumulative_visual_heights[mid] <= abs_visual_y {
                lo = mid + 1;
            } else {
                hi = mid;
            }
        }
        let pp = lo;
        proof {
            assert(h[0] == cum_height(s, width, 0));
            assert(h[0] <= abs_visual_y);
            assert(pp >= 1);
        }
        let logical_line = if pp - 1 < n_lines - 1 {
            pp - 1
        } else {
            n_lines - 1
        };
        proof {
            assert(h[logical_line as int] <= abs_visual_y);
        }
        proof {
            let lc = line_count(s);
            assert(h[lc] == cum_height(s, width, lc));
            if abs_visual_y < h[lc] {
                assert(h[lc] > abs_visual_y);
                assert(pp <= lc);
                assert(h[pp as int] > abs_visual_y);
                if pp - 1 > n_lines - 1 {
                    assert(pp == lc + 1);
                    assert(h[lc] <= abs_visual_y);
                    assert(false);
                }
            } else {
                assert(pp == hn);
            }
        }
        let visual_offset_in_line = (abs_visual_y
            - self.cumulative_visual_heights[logical_line]) as usize;
        ScrollOffset { logical_line, visual_offset_in_line }
    }

    /// Re-centers or clamps the scroll window so the cursor is visible:
    /// hard scrolls when the cursor left the window, soft re-centering
    /// otherwise, and sticks to the bottom when the tail of the
    /// document would leave blank rows.
    ///
    /// When the document is at least a window tall, the cursor's row
    /// ends up inside the window. When it is shorter and the cursor was
    /// not above the old window top, the window returns to the very
    /// top.
    pub fn scroll_to_cursor(&mut self)
        requires
            old(self).wf(),
            old(self).layout_ok(),
        ensures
            final(self).wf(),
            final(self).layout_ok(),
            *final(self) == (Editor {
                scroll_offset: final(self).scroll_offset,
                full_redraw_request: final(self).full_redraw_request,
                ..*old(self)
            }),
            old(self).height_spec() > 0 ==> {
                let top = abs_row(final(self).cumulative_visual_heights@, final(self).scroll_offset);
                let cur = old(self).cursor_abs_row();
                let total = old(self).total_height();
                let ch = old(self).height_spec();
                &&& (total >= ch && cur < total) ==> top <= cur < top + ch
                &&& total < ch ==> top == 0
            },
    {
        let ghost s = self.text_seq();
        let ghost width = self.width_spec();
        let ghost h = self.cumulative_visual_heights@;
        let old_offset = self.scroll_offset;
        let content_height = self.content_height() as u32;
        if content_height == 0 {
            return;
        }
        proof {
            lemma_newlines_bounds(s, s.len() as int);
            lemma_newlines_monotone(s, self.cursor as int, s.len() as int);
            lemma_char_in_its_line(s, self.cursor as int);
            lemma_heights_ok_sorted(h, s, width);
            lemma_cum_height_bound(s, width, line_count(s));
            lemma_line_start_bounds(s, line_count(s));
        }

        // the cursor's absolute visual row
        let cursor_logical_y = rope_char_to_line(&self.text, self.cursor);
        let start_of_line_char_idx = rope_line_to_char(&self.text, cursor_logical_y);
        let line = rope_line_chars(&self.text, cursor_logical_y);
        proof {
            lemma_line_start_bounds(s, cursor_logical_y as int);
            lemma_line_start_mono(s, cursor_logical_y as int);
            lemma_next_newline(s, line_start(s, cursor_logical_y as int));
            assert(self.cursor - start_of_line_char_idx <= line_at(s, cursor_logical_y as int).len());
        }
        let cw = self.content_width();
        let vpos = char_idx_to_visual_pos(&line, cw, self.cursor - start_of_line_char_idx);
        let visual_offset_in_line = vpos.1;
        let cursor_abs_y = self.logical_to_absolute_visual(
            ScrollOffset { logical_line: cursor_logical_y, visual_offset_in_line },
        );
        proof {
            assert(cursor_abs_y == self.cursor_abs_row());
            crate::width::lemma_visual_row_le_rows(
                line_at(s, cursor_logical_y as int),
                width,
                self.cursor - line_start(s, cursor_logical_y as int),
            );
            lemma_cum_height_mono(s, width, cursor_logical_y as int + 1, line_count(s));
            assert(self.cursor_abs_row() <= self.total_height());
        }

        let screen_top_abs_y = self.logical_to_absolute_visual(self.scroll_offset);
        proof {
            let l0 = self.scroll_offset.logical_line as int;
            if l0 < h.len() {
                lemma_cum_height_bound(s, width, l0);
                lemma_cum_height_mono(s, width, l0, line_count(s));
                lemma_line_start_bounds(s, l0);
            }
            assert(screen_top_abs_y <= 4 * MAX_TEXT_LEN + 1);
        }
        let screen_bottom_abs_y = screen_top_abs_y + content_height - 1;
        let n_lines = rope_len_lines(&self.text);
        let total_doc_visual_height = self.get_total_visual_height_between(0, n_lines);

        let candidate_top_abs_y: u32;
        if cursor_abs_y < screen_top_abs_y {
            candidate_top_abs_y = cursor_abs_y;
        } else if cursor_abs_y > screen_bottom_abs_y {
            candidate_top_abs_y = cursor_abs_y - content_height + 1;
        } else {
            let middle_offset = content_height / 2;
            let ideal_top_abs_y = if cursor_abs_y >= middle_offset {
                cursor_abs_y - middle_offset
            } else {
                0
            };
            let remaining_height = if total_doc_visual_height >= ideal_top_abs_y {
                total_doc_visual_height - ideal_top_abs_y
            } else {
                0
            };
            if remaining_height < content_height {
                candidate_top_abs_y = if total_doc_visual_height >= content_height {
                    total_doc_visual_height - content_height
                } else {
                    0
                };
            } else {
                candidate_top_abs_y = ideal_top_abs_y;
            }
        }
        // a document shorter than the window always shows from its top
        let new_top_abs_y = if total_doc_visual_height < content_height {
            0
        } else {
            candidate_top_abs_y
        };

        let final_offset = self.absolute_visual_to_logical(new_top_abs_y);
        self.scroll_offset = final_offset;
        if self.scroll_offset != old_offset {
            self.full_redraw_request = true;
        }
        proof {
            // the stored offset reproduces the chosen top row exactly
            assert(abs_row(h, final_offset) == new_top_abs_y);
        }
    }
}

/// The lines of `new_s` are those of `old_s` with `old_count` lines
/// replaced by `new_count` lines at `start`.
pub open spec fn edit_effect(
    old_s: Seq<char>,
    new_s: Seq<char>,
    start: int,
    old_count: int,
    new_count: int,
) -> bool {
    &&& old_count >= 1
    &&& new_count >= 1
    &&& 0 <= start
    &&& start + old_count <= line_count(old_s)
    &&& start + new_count <= line_count(new_s)
    &&& line_count(new_s) == line_count(old_s) - old_count + new_count
    &&& forall|l: int| 0 <= l < start ==> line_at(new_s, l) == line_at(old_s, l)
    &&& forall|l: int|
        start + new_count <= l < line_count(new_s) ==> line_at(new_s, l) == line_at(
            old_s,
            l - new_count + old_count,
        )
}

/// Replacing the characters `[a, b)` by `ins` replaces the lines
/// `line(a)..=line(b)` by `line(a)..=line(a) + newlines(ins)`.
pub proof fn lemma_splice_edit_effect(s0: Seq<char>, a: int, b: int, ins: Seq<char>)
    requires
        0 <= a <= b <= s0.len(),
    ensures
        edit_effect(
            s0,
            s0.take(a) + ins + s0.skip(b),
            newlines_before(s0, a),
            newlines_before(s0, b) - newlines_before(s0, a) + 1,
            newlines_before(ins, ins.len() as int) + 1,
        ),
{
    crate::textbuf::lemma_splice_lines(s0, a, b, ins);
    let s1 = s0.take(a) + ins + s0.skip(b);
    let la = newlines_before(s0, a);
    let lb = newlines_before(s0, b);
    let nc = la + newlines_before(ins, ins.len() as int);
    let d = nc - lb;
    lemma_newlines_monotone(s0, a, b);
    assert forall|l: int|
        la + (nc - la + 1) <= l < line_count(s1) implies line_at(s1, l) == line_at(
        s0,
        l - (nc - la + 1) + (lb - la + 1),
    ) by {
        assert(line_at(s1, (l - d) + d) == line_at(s0, l - d));
    }
}

/// Replacing lines once and then replacing the same leading span again
/// replaces them once overall.
pub proof fn lemma_edit_effect_compose(
    s0: Seq<char>,
    s1: Seq<char>,
    s2: Seq<char>,
    start: int,
    c0: int,
    c1: int,
    c2: int,
)
    requires
        edit_effect(s0, s1, start, c0, c1),
        edit_effect(s1, s2, start, c1, c2),
    ensures
        edit_effect(s0, s2, start, c0, c2),
{
    assert forall|l: int|
        start + c2 <= l < line_count(s2) implies line_at(s2, l) == line_at(
        s0,
        l - c2 + c0,
    ) by {
        assert(line_at(s2, l) == line_at(s1, l - c2 + c1));
        assert(line_at(s1, l - c2 + c1) == line_at(s0, l - c2 + c0));
    }
}

impl Editor {
    /// The selected range, smaller offset first.
    pub open spec fn sel_range(&self) -> Option<(usize, usize)> {
        match self.selection_anchor {
            Some(anchor) => {
                if self.cursor < anchor {
                    Some((self.cursor, anchor))
                } else {
                    Some((anchor, self.cursor))
                }
            },
            None => None,
        }
    }

    /// The replaced character range of an editing command: the selection
    /// if one is active, else the cursor alone.
    pub open spec fn edit_range(&self) -> (usize, usize) {
        match self.sel_range() {
            Some(r) => r,
            None => (self.cursor, self.cursor),
        }
    }

    pub fn get_selection_range(&self) -> (r: Option<(usize, usize)>)
        ensures
            r == self.sel_range(),
    {
        match self.selection_anchor {
            Some(anchor) => {
                if self.cursor < anchor {
                    Some((self.cursor, anchor))
                } else {
                    Some((anchor, self.cursor))
                }
            },
            None => None,
        }
    }

    /// The selected text, if a selection is active.
    pub fn selection_text(&self) -> (r: Option<String>)
        requires
            self.wf(),
        ensures
            match self.sel_range() {
                Some((st, en)) => r is Some && r->0@ == self.text_seq().subrange(
                    st as int,
                    en as int,
                ),
                None => r is None,
            },
    {
        match self.get_selection_range() {
            Some((start, end)) => Some(rope_slice_string(&self.text, start, end)),
            None => None,
        }
    }

    /// Starts or extends a selection, or drops it while marking its
    /// lines dirty so the highlight is erased.
    pub fn handle_selection(&mut self, in_selection: bool)
        requires
            old(self).wf(),
        ensures
            final(self).wf(),
            *final(self) == (Editor {
                selection_anchor: final(self).selection_anchor,
                dirty_lines: final(self).dirty_lines,
                ..*old(self)
            }),
            in_selection ==> {
                &&& final(self).selection_anchor == (if old(self).selection_anchor is None {
                    Some(old(self).cursor)
                } else {
                    old(self).selection_anchor
                })
                &&& final(self).dirty_lines == old(self).dirty_lines
            },
            !in_selection ==> {
                &&& final(self).selection_anchor is None
                &&& forall|x: int|
                    final(self).dirty_lines.marked(x) <==> (old(self).dirty_lines.marked(x) || (
                    old(self).sel_range() matches Some((st, en))
                        && newlines_before(old(self).text_seq(), st as int) <= x <= newlines_before(
                        old(self).text_seq(),
                        en as int,
                    )))
            },
    {
        if in_selection {
            if self.selection_anchor.is_none() {
                self.selection_anchor = Some(self.cursor);
            }
        } else {
            let sel = self.get_selection_range();
            if let Some((start_char, end_char)) = sel {
                let start_line = rope_char_to_line(&self.text, start_char);
                let end_line = rope_char_to_line(&self.text, end_char);
                proof {
                    lemma_newlines_monotone(self.text_seq(), start_char as int, end_char as int);
                }
                self.dirty_lines.mark_inclusive_range(start_line, end_line);
            }
            self.selection_anchor = None;
        }
    }

    /// Deletes the selected text, leaving the cursor at its start;
    /// reports the replaced span as `(start_line, old_line_count)`.
    pub fn delete_selection(&mut self) -> (r: Option<(usize, usize)>)
        requires
            old(self).wf(),
        ensures
            final(self).wf(),
            old(self).selection_anchor is None ==> r is None && *final(self) == *old(self),
            old(self).selection_anchor is Some ==> ({
                let (st, en) = old(self).edit_range();
                let s0 = old(self).text_seq();
                let start_line = newlines_before(s0, st as int);
                let old_count = newlines_before(s0, en as int) - start_line + 1;
                &&& r == Some((start_line as usize, old_count as usize))
                &&& final(self).text_seq() == s0.take(st as int) + s0.skip(en as int)
                &&& final(self).cursor == st
                &&& final(self).selection_anchor is None
                &&& edit_effect(s0, final(self).text_seq(), start_line, old_count, 1)
                &&& *final(self) == (Editor {
                    text: final(self).text,
                    cursor: final(self).cursor,
                    selection_anchor: None,
                    ..*old(self)
                })
            }),
    {
        let ghost s0 = self.text_seq();
        let sel = self.get_selection_range();
        if let Some((start, end)) = sel {
            let start_line = rope_char_to_line(&self.text, start);
            let end_line = rope_char_to_line(&self.text, end);
            proof {
                lemma_newlines_monotone(s0, start as int, end as int);
                lemma_newlines_bounds(s0, start as int);
                lemma_splice_edit_effect(s0, start as int, end as int, Seq::<char>::empty());
                assert(s0.take(start as int) + Seq::<char>::empty() + s0.skip(end as int)
                    =~= s0.take(start as int) + s0.skip(end as int));
            }
            let old_line_count = end_line - start_line + 1;
            rope_remove(&mut self.text, start, end);
            self.cursor = start;
            self.selection_anchor = None;
            return Some((start_line, old_line_count));
        }
        None
    }
}

impl Editor {
    /// Inserts one character at the cursor (no selection handling),
    /// leaving the cursor after it.
    fn insert_char_at_cursor(&mut self, ch: char)
        requires
            old(self).wf(),
            old(self).text_seq().len() < MAX_TEXT_LEN,
        ensures
            final(self).wf(),
            final(self).text_seq() == old(self).text_seq().take(old(self).cursor as int) + seq![ch]
                + old(self).text_seq().skip(old(self).cursor as int),
            final(self).cursor == old(self).cursor + 1,
            edit_effect(
                old(self).text_seq(),
                final(self).text_seq(),
                newlines_before(old(self).text_seq(), old(self).cursor as int),
                1,
                if ch == '\n' {
                    2int
                } else {
                    1int
                },
            ),
            *final(self) == (Editor {
                text: final(self).text,
                cursor: final(self).cursor,
                ..*old(self)
            }),
    {
        let ghost s0 = self.text_seq();
        let ghost c = self.cursor as int;
        proof {
            lemma_splice_edit_effect(s0, c, c, seq![ch]);
            assert(seq![ch].len() == 1 && seq![ch][0] == ch);
            assert(newlines_before(seq![ch], 1) == newlines_before(seq![ch], 0) + if ch == '\n' {
                1int
            } else {
                0int
            });
        }
        rope_insert_char(&mut self.text, self.cursor, ch);
        self.cursor = self.cursor + 1;
    }

    /// Where vertical movement lands, carrying the remembered column.
    pub open spec fn move_up_target(&self, tvx: int) -> int {
        let s = self.text_seq();
        let w = self.width_spec();
        let y = self.cursor_line();
        let start = line_start(s, y);
        let vy = visual_pos(line_at(s, y), w, self.cursor - start).1;
        if vy > 0 {
            start + visual_scan(line_at(s, y), w, tvx, vy - 1, 0, 0, 0, 0)
        } else if y > 0 {
            let ph = spec_line_height(self.cumulative_visual_heights@, y - 1);
            let tvy = if ph > 0 {
                ph - 1
            } else {
                0
            };
            line_start(s, y - 1) + visual_scan(line_at(s, y - 1), w, tvx, tvy, 0, 0, 0, 0)
        } else {
            self.cursor as int
        }
    }

    pub open spec fn move_down_target(&self, tvx: int) -> int {
        let s = self.text_seq();
        let w = self.width_spec();
        let y = self.cursor_line();
        let start = line_start(s, y);
        let vy = visual_pos(line_at(s, y), w, self.cursor - start).1;
        let ch = spec_line_height(self.cumulative_visual_heights@, y);
        if vy + 1 < ch {
            start + visual_scan(line_at(s, y), w, tvx, vy + 1, 0, 0, 0, 0)
        } else if y + 1 < line_count(s) {
            line_start(s, y + 1) + visual_scan(line_at(s, y + 1), w, tvx, 0, 0, 0, 0, 0)
        } else {
            self.cursor as int
        }
    }

    /// The column remembered across vertical moves: the current one if
    /// none is held yet.
    pub open spec fn target_column(&self) -> int {
        match self.tmp_x {
            Some(t) => t as int,
            None => {
                let s = self.text_seq();
                let y = self.cursor_line();
                visual_pos(line_at(s, y), self.width_spec(), self.cursor - line_start(s, y)).0
            },
        }
    }

    /// Moves the cursor one visual row up, re-resolving the remembered
    /// column against the row above.
    pub fn cursor_move_up(&mut self)
        requires
            old(self).wf(),
            old(self).layout_ok(),
        ensures
            final(self).wf(),
            final(self).layout_ok(),
            final(self).cursor == old(self).move_up_target(old(self).target_column()),
            final(self).tmp_x == Some(old(self).target_column() as usize),
            *final(self) == (Editor {
                cursor: final(self).cursor,
                tmp_x: final(self).tmp_x,
                ..*old(self)
            }),
    {
        let ghost s = self.text_seq();
        let ghost w = self.width_spec();
        proof {
            lemma_newlines_bounds(s, s.len() as int);
            lemma_newlines_monotone(s, self.cursor as int, s.len() as int);
            lemma_char_in_its_line(s, self.cursor as int);
            lemma_heights_ok_sorted(self.cumulative_visual_heights@, s, w);
        }
        let y = rope_char_to_line(&self.text, self.cursor);
        let start_idx = rope_line_to_char(&self.text, y);
        let x_offset = self.cursor - start_idx;
        let line = rope_line_chars(&self.text, y);
        proof {
            lemma_line_start_mono(s, y as int);
            lemma_next_newline(s, line_start(s, y as int));
            assert(x_offset <= line_at(s, y as int).len());
        }
        let cw = self.content_width();
        let vpos = char_idx_to_visual_pos(&line, cw, x_offset);
        let (vx, vy) = (vpos.0, vpos.1);
        let target_vx = match self.tmp_x {
            Some(t) => t,
            None => {
                self.tmp_x = Some(vx);
                vx
            },
        };

        if vy > 0 {
            let new_offset = visual_pos_to_char_idx(&line, cw, target_vx, vy - 1);
            self.cursor = start_idx + new_offset;
            proof {
                lemma_line_start_mono(s, y as int);
            }
        } else if y > 0 {
            let prev_line_height = self.get_visual_height_for_line(y - 1);
            let target_vy = if prev_line_height > 0 {
                (prev_line_height - 1) as usize
            } else {
                0
            };
            let prev_start_idx = rope_line_to_char(&self.text, y - 1);
            let prev_line = rope_line_chars(&self.text, y - 1);
            let new_offset = visual_pos_to_char_idx(&prev_line, cw, target_vx, target_vy);
            proof {
                lemma_line_start_mono(s, y - 1);
                lemma_line_start_bounds(s, y - 1);
                lemma_line_start_mono_upto(s, y as int, line_count(s));
                assert(prev_start_idx + new_offset <= line_start(s, y as int) <= s.len());
            }
            self.cursor = prev_start_idx + new_offset;
        }
    }

    /// Moves the cursor one visual row down, re-resolving the
    /// remembered column against the row below.
    pub fn cursor_move_down(&mut self)
        requires
            old(self).wf(),
            old(self).layout_ok(),
        ensures
            final(self).wf(),
            final(self).layout_ok(),
            final(self).cursor == old(self).move_down_target(old(self).target_column()),
            final(self).tmp_x == Some(old(self).target_column() as usize),
            *final(self) == (Editor {
                cursor: final(self).cursor,
                tmp_x: final(self).tmp_x,
                ..*old(self)
            }),
    {
        let ghost s = self.text_seq();
        let ghost w = self.width_spec();
        proof {
            lemma_newlines_bounds(s, s.len() as int);
            lemma_newlines_monotone(s, self.cursor as int, s.len() as int);
            lemma_char_in_its_line(s, self.cursor as int);
            lemma_heights_ok_sorted(self.cumulative_visual_heights@, s, w);
        }
        let y = rope_char_to_line(&self.text, self.cursor);
        let start_idx = rope_line_to_char(&self.text, y);
        let x_offset = self.cursor - start_idx;
        let line = rope_line_chars(&self.text, y);
        proof {
            lemma_line_start_mono(s, y as int);
            lemma_next_newline(s, line_start(s, y as int));
            assert(x_offset <= line_at(s, y as int).len());
        }
        let cw = self.content_width();
        let vpos = char_idx_to_visual_pos(&line, cw, x_offset);
        let (vx, vy) = (vpos.0, vpos.1);
        let current_line_height = self.get_visual_height_for_line(y);
        let target_vx = match self.tmp_x {
            Some(t) => t,
            None => {
                self.tmp_x = Some(vx);
                vx
            },
        };

        let n_lines = rope_len_lines(&self.text);
        if (vy as u64) + 1 < current_line_height as u64 {
            let new_offset = visual_pos_to_char_idx(&line, cw, target_vx, vy + 1);
            self.cursor = start_idx + new_offset;
            proof {
                lemma_line_start_mono(s, y as int);
            }
        } else if y + 1 < n_lines {
            let next_start_idx = rope_line_to_char(&self.text, y + 1);
            let next_line = rope_line_chars(&self.text, y + 1);
            let new_offset = visual_pos_to_char_idx(&next_line, cw, target_vx, 0);
            proof {
                lemma_line_start_mono(s, y + 1);
                lemma_line_start_bounds(s, y + 1);
                assert(next_start_idx + new_offset <= line_start(s, y + 2) <= s.len());
            }
            self.cursor = next_start_idx + new_offset;
        }
    }
}

/// The pasted text a command receives, empty when none was handed in.
pub open spec fn paste_view(paste_text: Option<&String>) -> Seq<char> {
    match paste_text {
        Some(p) => p@,
        None => Seq::<char>::empty(),
    }
}

/// What each command does: the exact relation between the editor
/// before, the editor after, and the reported effect. `(st, en)` is the
/// replaced character range (the selection, or the cursor alone), and
/// the replaced line span runs from the line of `st` to the line of
/// `en`.
pub open spec fn exec_post(
    pre: Editor,
    post: Editor,
    command: Command,
    paste: Seq<char>,
    effect: CommandEffect,
) -> bool {
    let s0 = pre.text_seq();
    let n0 = s0.len() as int;
    let c = pre.cursor as int;
    let st = pre.edit_range().0 as int;
    let en = pre.edit_range().1 as int;
    let la = newlines_before(s0, st);
    let diff = newlines_before(s0, en) - la + 1;
    let cl = newlines_before(s0, c);
    match command {
        Command::InputChar(ch) => {
            &&& post.text_seq() == s0.take(st) + seq![ch] + s0.skip(en)
            &&& post.cursor == st + 1
            &&& effect matches CommandEffect::TextChanged(a, b, n) && a == la && b == diff && n
                == 1
            &&& edit_effect(s0, post.text_seq(), la, diff, 1)
            &&& post == (Editor {
                text: post.text,
                cursor: post.cursor,
                selection_anchor: None,
                tmp_x: None,
                ..pre
            })
        },
        Command::InputEnter => {
            &&& post.text_seq() == s0.take(st) + seq!['\n'] + s0.skip(en)
            &&& post.cursor == st + 1
            &&& effect matches CommandEffect::TextChanged(a, b, n) && a == la && b == diff && n
                == 2
            &&& edit_effect(s0, post.text_seq(), la, diff, 2)
            &&& post == (Editor {
                text: post.text,
                cursor: post.cursor,
                selection_anchor: None,
                tmp_x: None,
                ..pre
            })
        },
        Command::DeleteLeft => {
            if pre.selection_anchor is Some || c > 0 {
                let (a0, b0) = if pre.selection_anchor is Some {
                    (st, en)
                } else {
                    (c - 1, c)
                };
                let l0 = newlines_before(s0, a0);
                let d0 = newlines_before(s0, b0) - l0 + 1;
                &&& post.text_seq() == s0.take(a0) + s0.skip(b0)
                &&& post.cursor == a0
                &&& effect matches CommandEffect::TextChanged(a, b, n) && a == l0 && b == d0 && n
                    == 1
                &&& edit_effect(s0, post.text_seq(), l0, d0, 1)
                &&& post == (Editor {
                    text: post.text,
                    cursor: post.cursor,
                    selection_anchor: None,
                    tmp_x: None,
                    ..pre
                })
            } else {
                &&& effect is CursorDirty
                &&& post == (Editor { tmp_x: None, ..pre })
            }
        },
        Command::DeleteRight => {
            if pre.selection_anchor is Some || c < n0 {
                let (a0, b0) = if pre.selection_anchor is Some {
                    (st, en)
                } else {
                    (c, c + 1)
                };
                let l0 = newlines_before(s0, a0);
                let d0 = newlines_before(s0, b0) - l0 + 1;
                &&& post.text_seq() == s0.take(a0) + s0.skip(b0)
                &&& post.cursor == a0
                &&& effect matches CommandEffect::TextChanged(a, b, n) && a == l0 && b == d0 && n
                    == 1
                &&& edit_effect(s0, post.text_seq(), l0, d0, 1)
                &&& post == (Editor {
                    text: post.text,
                    cursor: post.cursor,
                    selection_anchor: None,
                    tmp_x: None,
                    ..pre
                })
            } else {
                &&& effect is CursorDirty
                &&& post == (Editor { tmp_x: None, ..pre })
            }
        },
        Command::DeleteWordRight => {
            if pre.selection_anchor is Some || c < n0 {
                let (a0, b0) = if pre.selection_anchor is Some {
                    (st, en)
                } else {
                    (c, crate::chartype::token_right_from(s0, c))
                };
                let l0 = newlines_before(s0, a0);
                let d0 = newlines_before(s0, b0) - l0 + 1;
                &&& post.text_seq() == s0.take(a0) + s0.skip(b0)
                &&& post.cursor == a0
                &&& effect matches CommandEffect::TextChanged(a, b, n) && a == l0 && b == d0 && n
                    == 1
                &&& edit_effect(s0, post.text_seq(), l0, d0, 1)
                &&& post == (Editor {
                    text: post.text,
                    cursor: post.cursor,
                    selection_anchor: None,
                    tmp_x: None,
                    ..pre
                })
            } else {
                &&& effect is CursorDirty
                &&& post == (Editor { tmp_x: None, ..pre })
            }
        },
        Command::DeleteWordLeft => {
            if pre.selection_anchor is Some || c > 0 {
                let (a0, b0) = if pre.selection_anchor is Some {
                    (st, en)
                } else {
                    (crate::chartype::token_left_from(s0, c), c)
                };
                let l0 = newlines_before(s0, a0);
                let d0 = newlines_before(s0, b0) - l0 + 1;
                &&& post.text_seq() == s0.take(a0) + s0.skip(b0)
                &&& post.cursor == a0
                &&& effect matches CommandEffect::TextChanged(a, b, n) && a == l0 && b == d0 && n
                    == 1
                &&& edit_effect(s0, post.text_seq(), l0, d0, 1)
                &&& post == (Editor {
                    text: post.text,
                    cursor: post.cursor,
                    selection_anchor: None,
                    tmp_x: None,
                    ..pre
                })
            } else {
                &&& effect is CursorDirty
                &&& post == (Editor { tmp_x: None, ..pre })
            }
        },
        Command::CursorUp => {
            &&& post.cursor == pre.move_up_target(pre.target_column())
            &&& post == (Editor {
                cursor: post.cursor,
                tmp_x: Some(pre.target_column() as usize),
                ..pre
            })
            &&& effect is CursorDirty
        },
        Command::CursorDown => {
            &&& post.cursor == pre.move_down_target(pre.target_column())
            &&& post == (Editor {
                cursor: post.cursor,
                tmp_x: Some(pre.target_column() as usize),
                ..pre
            })
            &&& effect is CursorDirty
        },
        Command::CursorLeft => {
            &&& post == (Editor {
                cursor: if c > 0 {
                    (c - 1) as usize
                } else {
                    pre.cursor
                },
                tmp_x: None,
                ..pre
            })
            &&& effect is CursorDirty
        },
        Command::CursorRight => {
            &&& post == (Editor {
                cursor: if c < n0 {
                    (c + 1) as usize
                } else {
                    pre.cursor
                },
                tmp_x: None,
                ..pre
            })
            &&& effect is CursorDirty
        },
        Command::CursorWordLeft => {
            &&& post == (Editor {
                cursor: if c > 0 {
                    crate::chartype::word_left_from(s0, c) as usize
                } else {
                    pre.cursor
                },
                tmp_x: None,
                ..pre
            })
            &&& effect is CursorDirty
        },
        Command::CursorWordRight => {
            &&& post == (Editor {
                cursor: if c < n0 {
                    crate::chartype::word_right_from(s0, c) as usize
                } else {
                    pre.cursor
                },
                tmp_x: None,
                ..pre
            })
            &&& effect is CursorDirty
        },
        Command::CursorHome => {
            &&& post == (Editor { cursor: line_start(s0, cl) as usize, tmp_x: None, ..pre })
            &&& effect is CursorDirty
        },
        Command::CursorEnd => {
            &&& post == (Editor {
                cursor: (line_start(s0, cl) + len_no_ending(line_at(s0, cl))) as usize,
                tmp_x: None,
                ..pre
            })
            &&& effect is CursorDirty
        },
        Command::CursorPageUp => {
            &&& post == (Editor { cursor: 0, ..pre })
            &&& effect is CursorDirty
        },
        Command::CursorPageDown => {
            &&& post == (Editor { cursor: n0 as usize, ..pre })
            &&& effect is CursorDirty
        },
        Command::SelectAll => {
            &&& post == (Editor {
                cursor: n0 as usize,
                selection_anchor: Some(0),
                tmp_x: None,
                full_redraw_request: true,
                ..pre
            })
            &&& effect is SelectionFixed
        },
        Command::SelectLine => {
            &&& post.cursor == if cl + 1 < line_count(s0) {
                line_start(s0, cl + 1)
            } else {
                n0
            }
            &&& post.selection_anchor == Some(line_start(s0, cl) as usize)
            &&& post == (Editor {
                cursor: post.cursor,
                selection_anchor: post.selection_anchor,
                tmp_x: None,
                dirty_lines: post.dirty_lines,
                ..pre
            })
            &&& forall|x: int|
                post.dirty_lines.marked(x) <==> (pre.dirty_lines.marked(x) || x == cl || (cl + 1
                    < line_count(s0) && x == cl + 1))
            &&& effect is SelectionFixed
        },
        Command::TextCopy => {
            &&& post == pre
            &&& effect is NoEffect
        },
        Command::TextCopyAndClearSelection => {
            &&& post.selection_anchor is None
            &&& post == (Editor {
                selection_anchor: None,
                dirty_lines: post.dirty_lines,
                ..pre
            })
            &&& forall|x: int|
                post.dirty_lines.marked(x) <==> (pre.dirty_lines.marked(x) || (
                pre.sel_range() matches Some((st2, en2)) && newlines_before(s0, st2 as int) <= x
                    <= newlines_before(s0, en2 as int)))
            &&& effect is CursorDirty
        },
        Command::TextPaste => {
            &&& post.text_seq() == s0.take(st) + paste + s0.skip(en)
            &&& post.cursor == st + paste.len()
            &&& effect matches CommandEffect::TextChanged(a, b, n) && a == la && b == diff && n
                == newlines_before(paste, paste.len() as int) + 1
            &&& edit_effect(
                s0,
                post.text_seq(),
                la,
                diff,
                newlines_before(paste, paste.len() as int) + 1,
            )
            &&& post == (Editor {
                text: post.text,
                cursor: post.cursor,
                selection_anchor: None,
                ..pre
            })
        },
        Command::TextCut => {
            if pre.selection_anchor is Some {
                &&& post.text_seq() == s0.take(st) + s0.skip(en)
                &&& post.cursor == st
                &&& effect matches CommandEffect::TextChanged(a, b, n) && a == la && b == diff
                    && n == 1
                &&& edit_effect(s0, post.text_seq(), la, diff, 1)
                &&& post == (Editor {
                    text: post.text,
                    cursor: post.cursor,
                    selection_anchor: None,
                    ..pre
                })
            } else {
                &&& post == pre
                &&& effect is NoEffect
            }
        },
        Command::Exit => {
            &&& post == (Editor { should_quit: true, ..pre })
            &&& effect is NoEffect
        },
    }
}

impl Editor {
    fn cmd_input_char(&mut self, ch: char) -> (effect: CommandEffect)
        requires
            old(self).wf(),
            old(self).layout_ok(),
            ch != '\n',
            old(self).text_seq().len() < MAX_TEXT_LEN,
        ensures
            final(self).wf(),
            exec_post(*old(self), *final(self), Command::InputChar(ch), Seq::<char>::empty(), effect),
    {
        let ghost s0 = self.text_seq();
        let ghost c0 = self.cursor as int;
        proof {
            lemma_newlines_bounds(s0, s0.len() as int);
            lemma_newlines_monotone(s0, self.cursor as int, s0.len() as int);
            lemma_char_in_its_line(s0, self.cursor as int);
        }

        self.tmp_x = None;
        if let Some((start_line, old_line_count)) = self.delete_selection() {
            let ghost mid = self.text_seq();
            let ghost st = old(self).edit_range().0 as int;
            let ghost en = old(self).edit_range().1 as int;
            self.insert_char_at_cursor(ch);
            proof {
                lemma_insert_after_delete(s0, st, en, seq![ch]);
                crate::textbuf::lemma_nb_prefix_eq(mid, s0, st, st);
                lemma_edit_effect_compose(
                    s0,
                    mid,
                    self.text_seq(),
                    start_line as int,
                    old_line_count as int,
                    1,
                    1,
                );
            }
            CommandEffect::TextChanged(start_line, old_line_count, 1)
        } else {
            let start_line = rope_char_to_line(&self.text, self.cursor);
            self.insert_char_at_cursor(ch);
            CommandEffect::TextChanged(start_line, 1, 1)
        }
    }

    fn cmd_input_enter(&mut self) -> (effect: CommandEffect)
        requires
            old(self).wf(),
            old(self).layout_ok(),
            old(self).text_seq().len() < MAX_TEXT_LEN,
        ensures
            final(self).wf(),
            exec_post(*old(self), *final(self), Command::InputEnter, Seq::<char>::empty(), effect),
    {
        let ghost s0 = self.text_seq();
        let ghost c0 = self.cursor as int;
        proof {
            lemma_newlines_bounds(s0, s0.len() as int);
            lemma_newlines_monotone(s0, self.cursor as int, s0.len() as int);
            lemma_char_in_its_line(s0, self.cursor as int);
        }

        self.tmp_x = None;
        if let Some((start_line, old_line_count)) = self.delete_selection() {
            let ghost mid = self.text_seq();
            let ghost st = old(self).edit_range().0 as int;
            let ghost en = old(self).edit_range().1 as int;
            self.insert_char_at_cursor('\n');
            proof {
                lemma_insert_after_delete(s0, st, en, seq!['\n']);
                crate::textbuf::lemma_nb_prefix_eq(mid, s0, st, st);
                lemma_edit_effect_compose(
                    s0,
                    mid,
                    self.text_seq(),
                    start_line as int,
                    old_line_count as int,
                    1,
                    2,
                );
            }
            CommandEffect::TextChanged(start_line, old_line_count, 2)
        } else {
            let start_line = rope_char_to_line(&self.text, self.cursor);
            self.insert_char_at_cursor('\n');
            CommandEffect::TextChanged(start_line, 1, 2)
        }
    }

    fn cmd_delete_left(&mut self) -> (effect: CommandEffect)
        requires
            old(self).wf(),
            old(self).layout_ok(),
        ensures
            final(self).wf(),
            exec_post(*old(self), *final(self), Command::DeleteLeft, Seq::<char>::empty(), effect),
    {
        let ghost s0 = self.text_seq();
        let ghost c0 = self.cursor as int;
        proof {
            lemma_newlines_bounds(s0, s0.len() as int);
            lemma_newlines_monotone(s0, self.cursor as int, s0.len() as int);
            lemma_char_in_its_line(s0, self.cursor as int);
        }

        self.tmp_x = None;
        if let Some((start_line, old_line_count)) = self.delete_selection() {
            CommandEffect::TextChanged(start_line, old_line_count, 1)
        } else if self.cursor > 0 {
            let start_char = self.cursor - 1;
            let start_line = rope_char_to_line(&self.text, start_char);
            let end_line = rope_char_to_line(&self.text, self.cursor);
            proof {
                lemma_newlines_monotone(s0, c0 - 1, c0);
                lemma_splice_edit_effect(s0, c0 - 1, c0, Seq::<char>::empty());
                assert(s0.take(c0 - 1) + Seq::<char>::empty() + s0.skip(c0) =~= s0.take(
                    c0 - 1,
                ) + s0.skip(c0));
            }
            rope_remove(&mut self.text, start_char, self.cursor);
            self.cursor = start_char;
            CommandEffect::TextChanged(start_line, end_line - start_line + 1, 1)
        } else {
            CommandEffect::CursorDirty
        }
    }

    fn cmd_delete_right(&mut self) -> (effect: CommandEffect)
        requires
            old(self).wf(),
            old(self).layout_ok(),
        ensures
            final(self).wf(),
            exec_post(*old(self), *final(self), Command::DeleteRight, Seq::<char>::empty(), effect),
    {
        let ghost s0 = self.text_seq();
        let ghost c0 = self.cursor as int;
        proof {
            lemma_newlines_bounds(s0, s0.len() as int);
            lemma_newlines_monotone(s0, self.cursor as int, s0.len() as int);
            lemma_char_in_its_line(s0, self.cursor as int);
        }

        self.tmp_x = None;
        let n = rope_len_chars(&self.text);
        if let Some((start_line, old_line_count)) = self.delete_selection() {
            CommandEffect::TextChanged(start_line, old_line_count, 1)
        } else if self.cursor < n {
            let start_line = rope_char_to_line(&self.text, self.cursor);
            let end_line = rope_char_to_line(&self.text, self.cursor + 1);
            proof {
                lemma_newlines_monotone(s0, c0, c0 + 1);
                lemma_splice_edit_effect(s0, c0, c0 + 1, Seq::<char>::empty());
                assert(s0.take(c0) + Seq::<char>::empty() + s0.skip(c0 + 1) =~= s0.take(
                    c0,
                ) + s0.skip(c0 + 1));
            }
            rope_remove(&mut self.text, self.cursor, self.cursor + 1);
            CommandEffect::TextChanged(start_line, end_line - start_line + 1, 1)
        } else {
            CommandEffect::CursorDirty
        }
    }

    fn cmd_delete_word_right(&mut self) -> (effect: CommandEffect)
        requires
            old(self).wf(),
            old(self).layout_ok(),
        ensures
            final(self).wf(),
            exec_post(*old(self), *final(self), Command::DeleteWordRight, Seq::<char>::empty(), effect),
    {
        let ghost s0 = self.text_seq();
        let ghost c0 = self.cursor as int;
        proof {
            lemma_newlines_bounds(s0, s0.len() as int);
            lemma_newlines_monotone(s0, self.cursor as int, s0.len() as int);
            lemma_char_in_its_line(s0, self.cursor as int);
        }

        self.tmp_x = None;
        let n = rope_len_chars(&self.text);
        if let Some((start_line, old_line_count)) = self.delete_selection() {
            CommandEffect::TextChanged(start_line, old_line_count, 1)
        } else if self.cursor < n {
            let end_delete = crate::chartype::scan_token_right(&self.text, self.cursor);
            let start_line = rope_char_to_line(&self.text, self.cursor);
            let end_line = rope_char_to_line(&self.text, end_delete);
            proof {
                lemma_newlines_monotone(s0, c0, end_delete as int);
                lemma_splice_edit_effect(s0, c0, end_delete as int, Seq::<char>::empty());
                assert(s0.take(c0) + Seq::<char>::empty() + s0.skip(end_delete as int)
                    =~= s0.take(c0) + s0.skip(end_delete as int));
            }
            rope_remove(&mut self.text, self.cursor, end_delete);
            CommandEffect::TextChanged(start_line, end_line - start_line + 1, 1)
        } else {
            CommandEffect::CursorDirty
        }
    }

    fn cmd_delete_word_left(&mut self) -> (effect: CommandEffect)
        requires
            old(self).wf(),
            old(self).layout_ok(),
        ensures
            final(self).wf(),
            exec_post(*old(self), *final(self), Command::DeleteWordLeft, Seq::<char>::empty(), effect),
    {
        let ghost s0 = self.text_seq();
        let ghost c0 = self.cursor as int;
        proof {
            lemma_newlines_bounds(s0, s0.len() as int);
            lemma_newlines_monotone(s0, self.cursor as int, s0.len() as int);
            lemma_char_in_its_line(s0, self.cursor as int);
        }

        self.tmp_x = None;
        if let Some((start_line, old_line_count)) = self.delete_selection() {
            CommandEffect::TextChanged(start_line, old_line_count, 1)
        } else if self.cursor > 0 {
            let start_delete = crate::chartype::scan_token_left(&self.text, self.cursor);
            let start_line = rope_char_to_line(&self.text, start_delete);
            let end_line = rope_char_to_line(&self.text, self.cursor);
            proof {
                lemma_newlines_monotone(s0, start_delete as int, c0);
                lemma_splice_edit_effect(s0, start_delete as int, c0, Seq::<char>::empty());
                assert(s0.take(start_delete as int) + Seq::<char>::empty() + s0.skip(c0)
                    =~= s0.take(start_delete as int) + s0.skip(c0));
            }
            rope_remove(&mut self.text, start_delete, self.cursor);
            self.cursor = start_delete;
            CommandEffect::TextChanged(start_line, end_line - start_line + 1, 1)
        } else {
            CommandEffect::CursorDirty
        }
    }

    fn cmd_cursor_home(&mut self) -> (effect: CommandEffect)
        requires
            old(self).wf(),
            old(self).layout_ok(),
        ensures
            final(self).wf(),
            exec_post(*old(self), *final(self), Command::CursorHome, Seq::<char>::empty(), effect),
    {
        let ghost s0 = self.text_seq();
        let ghost c0 = self.cursor as int;
        proof {
            lemma_newlines_bounds(s0, s0.len() as int);
            lemma_newlines_monotone(s0, self.cursor as int, s0.len() as int);
            lemma_char_in_its_line(s0, self.cursor as int);
        }

        self.tmp_x = None;
        let line_idx = rope_char_to_line(&self.text, self.cursor);
        self.cursor = rope_line_to_char(&self.text, line_idx);
        proof {
            lemma_line_start_bounds(s0, line_idx as int);
        }
        CommandEffect::CursorDirty
    }

    fn cmd_cursor_end(&mut self) -> (effect: CommandEffect)
        requires
            old(self).wf(),
            old(self).layout_ok(),
        ensures
            final(self).wf(),
            exec_post(*old(self), *final(self), Command::CursorEnd, Seq::<char>::empty(), effect),
    {
        let ghost s0 = self.text_seq();
        let ghost c0 = self.cursor as int;
        proof {
            lemma_newlines_bounds(s0, s0.len() as int);
            lemma_newlines_monotone(s0, self.cursor as int, s0.len() as int);
            lemma_char_in_its_line(s0, self.cursor as int);
        }

        self.tmp_x = None;
        let line_idx = rope_char_to_line(&self.text, self.cursor);
        let line = rope_line_chars(&self.text, line_idx);
        let line_len = len_chars_without_ending(&line);
        let ls = rope_line_to_char(&self.text, line_idx);
        proof {
            lemma_line_start_bounds(s0, line_idx as int);
            lemma_line_start_mono(s0, line_idx as int);
            crate::width::lemma_len_no_ending_bounds(line_at(s0, line_idx as int));
        }
        self.cursor = ls + line_len;
        CommandEffect::CursorDirty
    }

    fn cmd_select_line(&mut self) -> (effect: CommandEffect)
        requires
            old(self).wf(),
            old(self).layout_ok(),
        ensures
            final(self).wf(),
            exec_post(*old(self), *final(self), Command::SelectLine, Seq::<char>::empty(), effect),
    {
        let ghost s0 = self.text_seq();
        let ghost c0 = self.cursor as int;
        proof {
            lemma_newlines_bounds(s0, s0.len() as int);
            lemma_newlines_monotone(s0, self.cursor as int, s0.len() as int);
            lemma_char_in_its_line(s0, self.cursor as int);
        }

        self.tmp_x = None;
        let cursor_line_idx = rope_char_to_line(&self.text, self.cursor);
        let line_start_char_idx = rope_line_to_char(&self.text, cursor_line_idx);
        let n_lines = rope_len_lines(&self.text);
        let next_line_start_char_idx = if cursor_line_idx + 1 < n_lines {
            rope_line_to_char(&self.text, cursor_line_idx + 1)
        } else {
            rope_len_chars(&self.text)
        };
        proof {
            lemma_line_start_bounds(s0, cursor_line_idx as int);
            lemma_line_start_bounds(s0, cursor_line_idx + 1);
        }
        self.selection_anchor = Some(line_start_char_idx);
        self.cursor = next_line_start_char_idx;
        self.dirty_lines.mark_inclusive_range(cursor_line_idx, cursor_line_idx);
        if cursor_line_idx + 1 < n_lines {
            self.dirty_lines.mark_inclusive_range(cursor_line_idx + 1, cursor_line_idx + 1);
        }
        CommandEffect::SelectionFixed
    }

    fn cmd_text_paste(&mut self, paste_text: Option<&String>) -> (effect: CommandEffect)
        requires
            old(self).wf(),
            old(self).layout_ok(),
            paste_text matches Some(p) && old(self).text_seq().len() + p@.len() <= MAX_TEXT_LEN,
        ensures
            final(self).wf(),
            exec_post(
                *old(self),
                *final(self),
                Command::TextPaste,
                match paste_text {
                    Some(p) => p@,
                    None => Seq::<char>::empty(),
                },
                effect,
            ),
    {
        let ghost s0 = self.text_seq();
        let ghost c0 = self.cursor as int;
        proof {
            lemma_newlines_bounds(s0, s0.len() as int);
            lemma_newlines_monotone(s0, self.cursor as int, s0.len() as int);
            lemma_char_in_its_line(s0, self.cursor as int);
        }
        match paste_text {
            Some(text_to_paste) => {
                let ghost st = old(self).edit_range().0 as int;
                let ghost en = old(self).edit_range().1 as int;
                let sel = self.delete_selection();
                let ghost mid = self.text_seq();
                let (start_line, old_line_count) = match sel {
                    Some(x) => x,
                    None => (rope_char_to_line(&self.text, self.cursor), 1),
                };
                let ins_len = text_to_paste.as_str().unicode_len();
                rope_insert(&mut self.text, self.cursor, text_to_paste.as_str());
                proof {
                    lemma_insert_after_delete(s0, st, en, text_to_paste@);
                    crate::textbuf::lemma_nb_prefix_eq(mid, s0, st, st);
                    lemma_splice_edit_effect(s0, st, en, text_to_paste@);
                }
                let new_cursor = self.cursor + ins_len;
                let end_line_after = rope_char_to_line(&self.text, new_cursor);
                self.cursor = new_cursor;
                proof {
                    let s1 = self.text_seq();
                    let p = text_to_paste@;
                    assert forall|k: int| 0 <= k < p.len() implies s1[st + k] == #[trigger] p[k] by {
                        assert(s1[st + k] == (s0.take(st) + p)[st + k]);
                    }
                    crate::textbuf::lemma_nb_shift(s1, p, st, p.len() as int);
                    assert(newlines_before(s1, st) == newlines_before(s0, st)) by {
                        crate::textbuf::lemma_nb_prefix_eq(s1, s0, st, st);
                    }
                    lemma_newlines_bounds(p, p.len() as int);
                    assert(end_line_after as int == start_line + newlines_before(
                        p,
                        p.len() as int,
                    ));
                }
                CommandEffect::TextChanged(
                    start_line,
                    old_line_count,
                    end_line_after - start_line + 1,
                )
            },
            None => {
                proof {
                    assert(false);
                }
                CommandEffect::NoEffect
            },
        }
    }

    /// Executes one command against the document, cursor and selection,
    /// and reports what changed. Clipboard traffic happens outside: the
    /// caller writes the selection out before a copying command and
    /// hands the pasted text in for a paste.
    pub fn execute_command(&mut self, command: Command, paste_text: Option<&String>) -> (effect:
        CommandEffect)
        requires
            old(self).wf(),
            old(self).layout_ok(),
            command matches Command::InputChar(ch) ==> ch != '\n' && old(self).text_seq().len()
                < MAX_TEXT_LEN,
            command is InputEnter ==> old(self).text_seq().len() < MAX_TEXT_LEN,
            command is TextPaste ==> (paste_text matches Some(p) && old(self).text_seq().len()
                + p@.len() <= MAX_TEXT_LEN),
        ensures
            final(self).wf(),
            exec_post(
                *old(self),
                *final(self),
                command,
                match paste_text {
                    Some(p) => p@,
                    None => Seq::<char>::empty(),
                },
                effect,
            ),
    {
        let ghost s0 = self.text_seq();
        proof {
            lemma_newlines_bounds(s0, s0.len() as int);
            lemma_newlines_monotone(s0, self.cursor as int, s0.len() as int);
            lemma_char_in_its_line(s0, self.cursor as int);
        }
        match command {
            Command::InputChar(ch) => self.cmd_input_char(ch),
            Command::InputEnter => self.cmd_input_enter(),
            Command::DeleteLeft => self.cmd_delete_left(),
            Command::DeleteRight => self.cmd_delete_right(),
            Command::DeleteWordRight => self.cmd_delete_word_right(),
            Command::DeleteWordLeft => self.cmd_delete_word_left(),
            Command::CursorUp => {
                self.cursor_move_up();
                CommandEffect::CursorDirty
            },
            Command::CursorDown => {
                self.cursor_move_down();
                CommandEffect::CursorDirty
            },
            Command::CursorLeft => {
                self.tmp_x = None;
                if self.cursor > 0 {
                    self.cursor = self.cursor - 1;
                }
                CommandEffect::CursorDirty
            },
            Command::CursorRight => {
                self.tmp_x = None;
                let n = rope_len_chars(&self.text);
                if self.cursor < n {
                    self.cursor = self.cursor + 1;
                }
                CommandEffect::CursorDirty
            },
            Command::CursorWordLeft => {
                self.tmp_x = None;
                if self.cursor > 0 {
                    self.cursor = crate::chartype::scan_word_left(&self.text, self.cursor);
                }
                CommandEffect::CursorDirty
            },
            Command::CursorWordRight => {
                self.tmp_x = None;
                let n = rope_len_chars(&self.text);
                if self.cursor < n {
                    self.cursor = crate::chartype::scan_word_right(&self.text, self.cursor);
                }
                CommandEffect::CursorDirty
            },
            Command::CursorHome => self.cmd_cursor_home(),
            Command::CursorEnd => self.cmd_cursor_end(),
            Command::CursorPageUp => {
                self.cursor = 0;
                CommandEffect::CursorDirty
            },
            Command::CursorPageDown => {
                self.cursor = rope_len_chars(&self.text);
                CommandEffect::CursorDirty
            },
            Command::SelectAll => {
                self.tmp_x = None;
                self.selection_anchor = Some(0);
                self.cursor = rope_len_chars(&self.text);
                self.full_redraw_request = true;
                CommandEffect::SelectionFixed
            },
            Command::SelectLine => self.cmd_select_line(),
            Command::TextCopy => {
                CommandEffect::NoEffect
            },
            Command::TextCopyAndClearSelection => {
                self.handle_selection(false);
                CommandEffect::CursorDirty
            },
            Command::TextPaste => self.cmd_text_paste(paste_text),
            Command::TextCut => {
                if let Some((start_line, old_line_count)) = self.delete_selection() {
                    CommandEffect::TextChanged(start_line, old_line_count, 1)
                } else {
                    CommandEffect::NoEffect
                }
            },
            Command::Exit => {
                self.should_quit = true;
                CommandEffect::NoEffect
            },
        }
    }
}

/// Deleting `[st, en)` and inserting `ins` at `st` is one splice.
proof fn lemma_insert_after_delete(s0: Seq<char>, st: int, en: int, ins: Seq<char>)
    requires
        0 <= st <= en <= s0.len(),
    ensures
        ({
            let mid = s0.take(st) + s0.skip(en);
            &&& mid.take(st) + ins + mid.skip(st) == s0.take(st) + ins + s0.skip(en)
            &&& mid.take(st) + Seq::<char>::empty() + mid.skip(st) == mid
        }),
{
    let mid = s0.take(st) + s0.skip(en);
    assert(mid.take(st) =~= s0.take(st));
    assert(mid.skip(st) =~= s0.skip(en));
    assert(mid.take(st) + ins + mid.skip(st) =~= s0.take(st) + ins + s0.skip(en));
    assert(mid.take(st) + Seq::<char>::empty() + mid.skip(st) =~= mid);
}

/// If the cache matched the old text and the edit replaced a line span,
/// the cache is exactly what `update_height_cache` expects for the new
/// text.
pub proof fn lemma_effect_update_pre(
    h: Seq<u32>,
    old_s: Seq<char>,
    new_s: Seq<char>,
    width: int,
    start: int,
    old_count: int,
    new_count: int,
)
    requires
        heights_ok(h, old_s, width),
        edit_effect(old_s, new_s, start, old_count, new_count),
    ensures
        update_pre(h, new_s, width, start, old_count, new_count),
{
    lemma_heights_ok_sorted(h, old_s, width);
    assert(h[0] == cum_height(old_s, width, 0));
    assert forall|l: int| 0 <= l < start implies #[trigger] cache_diff(h, l) == row_count(
        line_at(new_s, l),
        width,
    ) by {
        assert(h[l] == cum_height(old_s, width, l));
        assert(h[l + 1] == cum_height(old_s, width, l + 1));
        assert(line_at(new_s, l) == line_at(old_s, l));
    }
    assert forall|l: int|
        start + old_count <= l < h.len() - 1 implies #[trigger] cache_diff(h, l) == row_count(
        line_at(new_s, l - old_count + new_count),
        width,
    ) by {
        assert(h[l] == cum_height(old_s, width, l));
        assert(h[l + 1] == cum_height(old_s, width, l + 1));
        assert(line_at(new_s, l - old_count + new_count) == line_at(old_s, l));
    }
}

/// The cache determines itself: two caches that both match a rebuild
/// for the same text and width are equal. Incremental updates therefore
/// always land on the array a full rebuild would produce.
pub proof fn lemma_update_matches_rebuild(h1: Seq<u32>, h2: Seq<u32>, s: Seq<char>, width: int)
    requires
        heights_ok(h1, s, width),
        heights_ok(h2, s, width),
    ensures
        h1 == h2,
{
    assert forall|l: int| 0 <= l < h1.len() implies h1[l] == h2[l] by {
        assert(h1[l] == cum_height(s, width, l));
        assert(h2[l] == cum_height(s, width, l));
    }
    assert(h1 =~= h2);
}

impl Editor {
    /// The command an input event resolves to: a printable character
    /// with at most shift held always types itself; everything else
    /// goes through the keymap.
    pub open spec fn resolved_command(&self, input: InputEvent) -> Option<Command> {
        match input.code {
            KeyCode::Char(c) => {
                if input.modifiers.at_most_shift() {
                    Some(Command::InputChar(c))
                } else {
                    keymap_lookup(self.keymap@, input)
                }
            },
            _ => keymap_lookup(self.keymap@, input),
        }
    }

    /// Handles one key press: resolves it to a command, executes it,
    /// updates the layout cache for any text change, and marks the
    /// dirty lines — the edited span, everything below it if the total
    /// height moved, and the cursor's line before and after.
    #[verifier::rlimit(100)]
    pub fn handle_key_event(&mut self, input: InputEvent, paste_text: Option<&String>) -> (effect:
        CommandEffect)
        requires
            old(self).wf(),
            old(self).layout_ok(),
            old(self).resolved_command(input) matches Some(cmd) ==> {
                &&& cmd matches Command::InputChar(ch) ==> ch != '\n'
                    && old(self).text_seq().len() < MAX_TEXT_LEN
                &&& cmd is InputEnter ==> old(self).text_seq().len() < MAX_TEXT_LEN
                &&& cmd is TextPaste ==> (paste_text matches Some(p) && old(self).text_seq().len()
                    + p@.len() <= MAX_TEXT_LEN)
            },
        ensures
            final(self).wf(),
            final(self).layout_ok(),
            old(self).resolved_command(input) is None ==> effect is NoEffect && *final(self)
                == *old(self),
            effect matches CommandEffect::TextChanged(st, oc, nc) ==> {
                &&& forall|l: int| st <= l < st + nc ==> final(self).dirty_lines.marked(l)
                &&& final(self).total_height() != old(self).total_height() ==> forall|l: int|
                    st <= l < line_count(final(self).text_seq())
                        ==> final(self).dirty_lines.marked(l)
            },
            !(effect is NoEffect) ==> {
                &&& final(self).dirty_lines.marked(
                    newlines_before(old(self).text_seq(), old(self).cursor as int),
                )
                &&& final(self).dirty_lines.marked(
                    newlines_before(final(self).text_seq(), final(self).cursor as int),
                )
                &&& final(self).is_dirty
            },
            old(self).resolved_command(input) matches Some(cmd) ==> exists|mid: Editor|
                {
                    &&& #[trigger] exec_post(*old(self), mid, cmd, paste_view(paste_text), effect)
                    &&& final(self).text == mid.text
                    &&& final(self).cursor == mid.cursor
                    &&& final(self).tmp_x == mid.tmp_x
                    &&& final(self).should_quit == mid.should_quit
                    &&& final(self).keymap == mid.keymap
                    &&& final(self).scroll_offset == mid.scroll_offset
                    &&& final(self).terminal_width == mid.terminal_width
                    &&& final(self).terminal_height == mid.terminal_height
                },
    {
        let ghost s0 = self.text_seq();
        let ghost w = self.width_spec();
        let ghost pre = *self;
        proof {
            lemma_newlines_bounds(s0, s0.len() as int);
            lemma_newlines_monotone(s0, self.cursor as int, s0.len() as int);
        }
        let cursor_line_before = rope_char_to_line(&self.text, self.cursor);
        let cursor_before = self.cursor;

        let resolved: Option<Command> = match input.code {
            KeyCode::Char(_) => {
                if !input.modifiers.control && !input.modifiers.alt {
                    match input.code {
                        KeyCode::Char(c) => Some(Command::InputChar(c)),
                        _ => None,
                    }
                } else {
                    self.keymap.get(input)
                }
            },
            _ => self.keymap.get(input),
        };
        let effect = match resolved {
            Some(command) => self.execute_command(command, paste_text),
            None => {
                return CommandEffect::NoEffect;
            },
        };
        let ghost post_cmd = *self;
        let ghost s1 = self.text_seq();

        // 1. dirty lines from a text change
        if let CommandEffect::TextChanged(start, old_count, new_count) = effect {
            proof {
                lemma_effect_update_pre(
                    pre.cumulative_visual_heights@,
                    s0,
                    s1,
                    w,
                    start as int,
                    old_count as int,
                    new_count as int,
                );
            }
            let delta = self.update_height_cache(start, old_count, new_count);
            proof {
                lemma_prefix_cum(
                    pre.cumulative_visual_heights@,
                    s1,
                    w,
                    start as int,
                    old_count as int,
                    new_count as int,
                    start as int,
                );
                lemma_suffix_cum(
                    pre.cumulative_visual_heights@,
                    s1,
                    w,
                    start as int,
                    old_count as int,
                    new_count as int,
                    line_count(s1),
                );
                assert(pre.cumulative_visual_heights@[line_count(s0)] == cum_height(
                    s0,
                    w,
                    line_count(s0),
                ));
                assert(delta == cum_height(s1, w, line_count(s1)) - cum_height(
                    s0,
                    w,
                    line_count(s0),
                ));
            }
            let n_lines = rope_len_lines(&self.text);
            if delta != 0 {
                self.dirty_lines.mark_inclusive_range(start, n_lines - 1);
            } else {
                self.dirty_lines.mark_inclusive_range(start, start + new_count - 1);
            }
        }

        // 2. dirty lines from cursor movement, and selection upkeep
        if !matches!(effect, CommandEffect::NoEffect) {
            self.is_dirty = true;
            self.dirty_lines.mark_inclusive_range(cursor_line_before, cursor_line_before);
            proof {
                lemma_newlines_bounds(s1, s1.len() as int);
                lemma_newlines_monotone(s1, self.cursor as int, s1.len() as int);
            }
            let cursor_line_after = rope_char_to_line(&self.text, self.cursor);
            self.dirty_lines.mark_inclusive_range(cursor_line_after, cursor_line_after);

            if matches!(effect, CommandEffect::SelectionFixed) {
                // the command fixed the selection itself
            } else if matches!(effect, CommandEffect::TextChanged(..)) {
                // edits consume the selection
                self.selection_anchor = None;
            } else {
                if input.modifiers.shift {
                    if self.selection_anchor.is_none() {
                        self.selection_anchor = Some(cursor_before);
                    }
                } else {
                    if let Some(anchor) = self.selection_anchor {
                        let lo = if anchor < cursor_before {
                            anchor
                        } else {
                            cursor_before
                        };
                        let hi = if anchor < cursor_before {
                            cursor_before
                        } else {
                            anchor
                        };
                        proof {
                            assert(s1 == s0);
                            lemma_newlines_monotone(s1, lo as int, hi as int);
                            lemma_newlines_monotone(s1, hi as int, s1.len() as int);
                        }
                        let ll = rope_char_to_line(&self.text, lo);
                        let hl = rope_char_to_line(&self.text, hi);
                        self.dirty_lines.mark_inclusive_range(ll, hl);
                    }
                    self.selection_anchor = None;
                }
            }
        }
        proof {
            if resolved is Some {
                assert(exec_post(pre, post_cmd, resolved->0, paste_view(paste_text), effect));
            }
        }
        effect
    }
}

/// Where the click scan of `screen_to_char_idx` lands within a line:
/// the first offset on the target row whose character's midpoint
/// reaches the target column; a line break or the end of the line stops
/// the scan at the line's content end.
pub open spec fn click_scan(
    line: Seq<char>,
    width: int,
    tvx: int,
    tvy: int,
    i: int,
    vx: int,
    vy: int,
) -> int
    decreases line.len() - i,
{
    if i < 0 || i >= line.len() {
        len_no_ending(line)
    } else {
        let cw = char_width_of(line[i]) as int;
        if vy == tvy && vx + cw / 2 >= tvx {
            i
        } else if line[i] == '\n' {
            len_no_ending(line)
        } else if vx + cw > width {
            click_scan(line, width, tvx, tvy, i + 1, cw, vy + 1)
        } else {
            click_scan(line, width, tvx, tvy, i + 1, vx + cw, vy)
        }
    }
}

impl Editor {
    /// `i` is the document offset the screen position `(column, row)`
    /// points at, for a window with at least one content row: the row
    /// names a logical line through the height cache (clamped to the
    /// last line past the end), the gutter maps to that line's start,
    /// and otherwise the click scan picks the character within it.
    pub open spec fn click_target(&self, column: u16, row: u16, i: int) -> bool {
        let s = self.text_seq();
        let w = self.width_spec();
        let h = self.cumulative_visual_heights@;
        let lc = line_count(s);
        let y = abs_row(h, self.scroll_offset) + row;
        exists|l: int|
            {
                &&& 0 <= l < lc
                &&& #[trigger] h[l] <= y
                &&& (y < h[lc] ==> y < h[l + 1])
                &&& (y >= h[lc] ==> l == lc - 1)
                &&& i == (if (column as int) < LINE_NUMBER_WIDTH {
                    line_start(s, l)
                } else {
                    line_start(s, l) + click_scan(
                        line_at(s, l),
                        w,
                        column - LINE_NUMBER_WIDTH,
                        y - h[l],
                        0,
                        0,
                        0,
                    )
                })
            }
    }

    /// The document offset a screen position points at: the status bar
    /// and below map to nothing, the number gutter maps to the line
    /// start, and within the text the character whose midpoint the
    /// click reaches is chosen, falling back to the end of the line's
    /// content.
    pub fn screen_to_char_idx(&self, screen_x: u16, screen_y: u16) -> (r: Option<usize>)
        requires
            self.wf(),
            self.layout_ok(),
        ensures
            screen_y as int >= self.height_spec() ==> r is None,
            (screen_y as int) < self.height_spec() ==> (match r {
                None => false,
                Some(i) => i <= self.text_seq().len() && self.click_target(
                    screen_x,
                    screen_y,
                    i as int,
                ),
            }),
    {
        let ghost s = self.text_seq();
        let ghost w = self.width_spec();
        let ghost h = self.cumulative_visual_heights@;
        if screen_y >= self.content_height() {
            return None;
        }
        proof {
            lemma_newlines_bounds(s, s.len() as int);
            lemma_heights_ok_sorted(h, s, w);
            lemma_cum_height_bound(s, w, line_count(s));
            lemma_line_start_bounds(s, line_count(s));
        }

        let screen_top_abs_y = self.logical_to_absolute_visual(self.scroll_offset);
        proof {
            let l0 = self.scroll_offset.logical_line as int;
            if l0 < h.len() {
                lemma_cum_height_bound(s, w, l0);
                lemma_cum_height_mono(s, w, l0, line_count(s));
                lemma_line_start_bounds(s, l0);
            }
            assert(screen_top_abs_y <= 4 * MAX_TEXT_LEN + 1);
        }
        let target_abs_y = screen_top_abs_y + screen_y as u32;
        let target_logical_pos = self.absolute_visual_to_logical(target_abs_y);
        let logical_line_idx = target_logical_pos.logical_line;

        let line = rope_line_chars(&self.text, logical_line_idx);
        let line_start_char_idx = rope_line_to_char(&self.text, logical_line_idx);
        proof {
            lemma_line_start_bounds(s, logical_line_idx as int);
            lemma_line_start_mono(s, logical_line_idx as int);
        }

        if (screen_x as usize) < LINE_NUMBER_WIDTH {
            return Some(line_start_char_idx);
        }
        let target_visual_x = screen_x as usize - LINE_NUMBER_WIDTH;
        let target_vy = target_logical_pos.visual_offset_in_line;

        let content_width = self.content_width();
        let n = line.len();
        let mut current_visual_x: usize = 0;
        let mut current_visual_y: usize = 0;
        let mut char_offset: usize = 0;
        while char_offset < n
            invariant
                n == line@.len(),
                line@ == line_at(s, logical_line_idx as int),
                1 <= content_width <= 1000000000,
                content_width == w,
                char_offset <= n,
                s == self.text_seq(),
                s.len() <= MAX_TEXT_LEN,
                w == self.width_spec(),
                h == self.cumulative_visual_heights@,
                (screen_y as int) < self.height_spec(),
                (screen_x as int) >= LINE_NUMBER_WIDTH,
                target_visual_x == screen_x - LINE_NUMBER_WIDTH,
                0 <= (logical_line_idx as int) && (logical_line_idx as int) < line_count(s),
                h[logical_line_idx as int] <= abs_row(h, self.scroll_offset) + screen_y,
                abs_row(h, self.scroll_offset) + screen_y < h[line_count(s)]
                    ==> abs_row(h, self.scroll_offset) + screen_y < h[logical_line_idx as int + 1],
                abs_row(h, self.scroll_offset) + screen_y >= h[line_count(s)]
                    ==> logical_line_idx as int == line_count(s) - 1,
                target_vy as int == abs_row(h, self.scroll_offset) + screen_y - h[
                    logical_line_idx as int
                ],
                line_start_char_idx as int == line_start(s, logical_line_idx as int),
                line_start_char_idx + n <= s.len(),
                current_visual_y <= char_offset,
                current_visual_x <= content_width || current_visual_x <= 3,
                click_scan(line@, w, target_visual_x as int, target_vy as int, 0, 0, 0)
                    == click_scan(
                    line@,
                    w,
                    target_visual_x as int,
                    target_vy as int,
                    char_offset as int,
                    current_visual_x as int,
                    current_visual_y as int,
                ),
            decreases n - char_offset,
        {
            let ch = line[char_offset];
            let char_width = char_display_width(ch);
            if current_visual_y == target_vy && current_visual_x + char_width / 2 >= target_visual_x {
                return Some(line_start_char_idx + char_offset);
            }
            if current_visual_x + char_width > content_width {
                current_visual_y = current_visual_y + 1;
                current_visual_x = char_width;
            } else {
                current_visual_x = current_visual_x + char_width;
            }
            if ch == '\n' {
                let e = len_chars_without_ending(&line);
                proof {
                    crate::width::lemma_len_no_ending_bounds(line@);
                }
                return Some(line_start_char_idx + e);
            }
            char_offset = char_offset + 1;
        }
        let e = len_chars_without_ending(&line);
        proof {
            crate::width::lemma_len_no_ending_bounds(line@);
        }
        Some(line_start_char_idx + e)
    }

    /// A terminal resize: remembers the new size, rebuilds the layout
    /// when the width changed, and asks for a full repaint.
    pub fn on_resize(&mut self, cols: u16, rows: u16)
        requires
            old(self).wf(),
            old(self).layout_ok(),
        ensures
            final(self).wf(),
            final(self).layout_ok(),
            final(self).terminal_width == cols,
            final(self).terminal_height == rows,
            final(self).full_redraw_request,
            final(self).text_seq() == old(self).text_seq(),
            final(self).cursor == old(self).cursor,
    {
        let old_width = self.terminal_width;
        self.terminal_width = cols;
        self.terminal_height = rows;
        if cols != old_width {
            self.rebuild_height_cache();
        }
        self.full_redraw_request = true;
    }

    /// A left click: drops any selection (marking its lines so the
    /// highlight is erased), moves the cursor to the clicked character,
    /// and forgets the remembered column; a click on the status bar or
    /// below moves nothing.
    pub fn on_mouse_down(&mut self, column: u16, row: u16)
        requires
            old(self).wf(),
            old(self).layout_ok(),
        ensures
            final(self).wf(),
            final(self).layout_ok(),
            final(self).selection_anchor is None,
            final(self).is_dirty,
            forall|x: int|
                final(self).dirty_lines.marked(x) <==> (old(self).dirty_lines.marked(x) || (
                old(self).sel_range() matches Some((st, en))
                    && newlines_before(old(self).text_seq(), st as int) <= x <= newlines_before(
                    old(self).text_seq(),
                    en as int,
                ))),
            *final(self) == (Editor {
                cursor: final(self).cursor,
                tmp_x: final(self).tmp_x,
                selection_anchor: None,
                dirty_lines: final(self).dirty_lines,
                is_dirty: true,
                ..*old(self)
            }),
            (row as int) >= old(self).height_spec() ==> final(self).cursor == old(self).cursor
                && final(self).tmp_x == old(self).tmp_x,
            (row as int) < old(self).height_spec() ==> final(self).tmp_x is None && old(
                self,
            ).click_target(column, row, final(self).cursor as int),
    {
        self.handle_selection(false);
        if let Some(char_idx) = self.screen_to_char_idx(column, row) {
            self.cursor = char_idx;
            self.tmp_x = None;
        }
        self.is_dirty = true;
    }

    /// A drag: starts or extends a selection toward the dragged-to
    /// character, marking every line between the cursor's old and new
    /// lines so the highlight is repainted; a drag onto the status bar
    /// or below moves nothing.
    pub fn on_mouse_drag(&mut self, column: u16, row: u16)
        requires
            old(self).wf(),
            old(self).layout_ok(),
        ensures
            final(self).wf(),
            final(self).layout_ok(),
            final(self).is_dirty,
            final(self).selection_anchor == (if old(self).selection_anchor is None {
                Some(old(self).cursor)
            } else {
                old(self).selection_anchor
            }),
            *final(self) == (Editor {
                cursor: final(self).cursor,
                tmp_x: final(self).tmp_x,
                selection_anchor: final(self).selection_anchor,
                dirty_lines: final(self).dirty_lines,
                is_dirty: true,
                ..*old(self)
            }),
            (row as int) >= old(self).height_spec() ==> final(self).cursor == old(self).cursor
                && final(self).tmp_x == old(self).tmp_x && final(self).dirty_lines == old(
                self,
            ).dirty_lines,
            (row as int) < old(self).height_spec() ==> {
                &&& final(self).tmp_x is None
                &&& old(self).click_target(column, row, final(self).cursor as int)
                &&& forall|x: int|
                    final(self).dirty_lines.marked(x) <==> (old(self).dirty_lines.marked(x) || ((
                    newlines_before(old(self).text_seq(), old(self).cursor as int) <= x
                        || newlines_before(old(self).text_seq(), final(self).cursor as int) <= x)
                        && (x <= newlines_before(old(self).text_seq(), old(self).cursor as int)
                        || x <= newlines_before(
                        old(self).text_seq(),
                        final(self).cursor as int,
                    ))))
            },
    {
        let ghost s = self.text_seq();
        self.handle_selection(true);
        if row < self.content_height() {
            let target = self.screen_to_char_idx(column, row);
            if let Some(char_idx) = target {
                proof {
                    lemma_newlines_bounds(s, s.len() as int);
                    lemma_newlines_monotone(s, self.cursor as int, s.len() as int);
                    lemma_newlines_monotone(s, char_idx as int, s.len() as int);
                }
                let old_line = rope_char_to_line(&self.text, self.cursor);
                let new_line = rope_char_to_line(&self.text, char_idx);
                let lo = if old_line < new_line {
                    old_line
                } else {
                    new_line
                };
                let hi = if old_line < new_line {
                    new_line
                } else {
                    old_line
                };
                self.dirty_lines.mark_inclusive_range(lo, hi);
                self.cursor = char_idx;
                self.tmp_x = None;
            }
        }
        self.is_dirty = true;
    }

    /// Releasing the mouse: a click that never moved leaves no
    /// selection behind.
    pub fn on_mouse_up(&mut self)
        requires
            old(self).wf(),
        ensures
            final(self).wf(),
            final(self).is_dirty,
            final(self).selection_anchor == (if old(self).selection_anchor == Some(
                old(self).cursor,
            ) {
                None
            } else {
                old(self).selection_anchor
            }),
            final(self).text_seq() == old(self).text_seq(),
            final(self).cursor == old(self).cursor,
    {
        let clear = match self.selection_anchor {
            Some(a) => a == self.cursor,
            None => false,
        };
        if clear {
            self.selection_anchor = None;
        }
        self.is_dirty = true;
    }
}

/// Cache entries never decrease.
pub open spec fn heights_sorted(h: Seq<u32>) -> bool {
    forall|i: int, j: int| 0 <= i <= j < h.len() ==> #[trigger] h[i] <= #[trigger] h[j]
}

/// What the cache answers for the total height of `[start, end)`.
pub open spec fn spec_total_between(h: Seq<u32>, start: int, end: int) -> int {
    if end >= h.len() || start > end || start < 0 {
        0
    } else {
        h[end] - h[start]
    }
}

/// What the cache answers for the height of one line.
pub open spec fn spec_line_height(h: Seq<u32>, l: int) -> int {
    if l < 0 || l + 1 >= h.len() {
        1
    } else {
        h[l + 1] - h[l]
    }
}

/// A consistent cache is sorted.
pub proof fn lemma_heights_ok_sorted(h: Seq<u32>, s: Seq<char>, width: int)
    requires
        heights_ok(h, s, width),
    ensures
        heights_sorted(h),
{
    lemma_newlines_bounds(s, s.len() as int);
    assert forall|i: int, j: int| 0 <= i <= j < h.len() implies #[trigger] h[i]
        <= #[trigger] h[j] by {
        lemma_cum_height_mono(s, width, i, j);
    }
}

/// Cumulative heights never decrease.
pub proof fn lemma_cum_height_mono(s: Seq<char>, width: int, i: int, j: int)
    requires
        i <= j,
    ensures
        cum_height(s, width, i) <= cum_height(s, width, j),
    decreases j - i,
{
    if i < j {
        lemma_cum_height_mono(s, width, i, j - 1);
        lemma_row_count_bounds(line_at(s, j - 1), width);
    }
}

/// The cumulative height of the first `l` lines is bounded by the
/// characters they hold plus one row per line.
pub proof fn lemma_cum_height_bound(s: Seq<char>, width: int, l: int)
    requires
        l >= 0,
    ensures
        0 <= cum_height(s, width, l) <= line_start(s, l) + l,
    decreases l,
{
    if l > 0 {
        lemma_cum_height_bound(s, width, l - 1);
        lemma_line_start_bounds(s, l - 1);
        lemma_line_start_bounds(s, l);
        lemma_row_count_bounds(line_at(s, l - 1), width);
        lemma_line_start_mono(s, l - 1);
        assert(line_at(s, l - 1).len() == line_start(s, l) - line_start(s, l - 1));
    }
}

} // verus!
