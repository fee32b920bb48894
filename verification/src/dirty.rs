//! A merging set of closed integer intervals over logical line indices,
//! used to track which lines of a document must be repainted.
//!
//! The set is kept as a sorted `Vec` of disjoint, non-adjacent closed
//! intervals `[start, end]`; every `mark` merges with any interval it
//! overlaps or touches, so the representation is always the minimal
//! interval cover of the marked set.

use vstd::prelude::*;

verus! {

/// Sorted, disjoint, non-adjacent closed intervals.
pub open spec fn wf_ranges(s: Seq<(usize, usize)>) -> bool {
    &&& forall|i: int| 0 <= i < s.len() ==> (#[trigger] s[i]).0 <= s[i].1
    &&& forall|i: int, j: int|
        0 <= i < j < s.len() ==> (#[trigger] s[i]).1 + 1 < (#[trigger] s[j]).0
}

/// `x` lies in one of the intervals of `s`.
pub open spec fn covers(s: Seq<(usize, usize)>, x: int) -> bool {
    exists|i: int| 0 <= i < s.len() && (#[trigger] s[i]).0 <= x <= s[i].1
}

/// A value that `DirtyLines::mark` accepts: a single line index, a
/// half-open `Range`, or a closed `RangeInclusive`, each normalized to
/// a closed interval `(start, end)`; an empty or reversed range
/// denotes no lines at all.
pub trait MarkIndex {
    /// The closed interval this index denotes, or nothing for an empty
    /// range.
    spec fn range_spec(&self) -> Option<(usize, usize)>;

    fn to_range(&self) -> (r: Option<(usize, usize)>)
        ensures
            r == self.range_spec(),
    ;
}

impl MarkIndex for usize {
    open spec fn range_spec(&self) -> Option<(usize, usize)> {
        Some((*self, *self))
    }

    fn to_range(&self) -> (r: Option<(usize, usize)>) {
        Some((*self, *self))
    }
}

impl MarkIndex for core::ops::Range<usize> {
    open spec fn range_spec(&self) -> Option<(usize, usize)> {
        if self.start >= self.end {
            None
        } else {
            Some((self.start, (self.end - 1) as usize))
        }
    }

    fn to_range(&self) -> (r: Option<(usize, usize)>) {
        if self.start >= self.end {
            None
        } else {
            Some((self.start, self.end - 1))
        }
    }
}

/// Relies on `core::ops::RangeInclusive::start`: it returns the lower
/// bound the range was constructed with.
pub assume_specification<Idx>[ core::ops::RangeInclusive::<Idx>::start ](
    r: &core::ops::RangeInclusive<Idx>,
) -> (s: &Idx)
    ensures
        *s == r@.start,
;

/// Relies on `core::ops::RangeInclusive::end`: it returns the upper
/// bound the range was constructed with.
pub assume_specification<Idx>[ core::ops::RangeInclusive::<Idx>::end ](
    r: &core::ops::RangeInclusive<Idx>,
) -> (e: &Idx)
    ensures
        *e == r@.end,
;

impl MarkIndex for core::ops::RangeInclusive<usize> {
    open spec fn range_spec(&self) -> Option<(usize, usize)> {
        if self@.start > self@.end {
            None
        } else {
            Some((self@.start, self@.end))
        }
    }

    fn to_range(&self) -> (r: Option<(usize, usize)>) {
        let s = *self.start();
        let e = *self.end();
        if s > e {
            None
        } else {
            Some((s, e))
        }
    }
}

/// A `Vec`-backed set of sorted, non-overlapping, non-adjacent closed
/// intervals `[start, end]` over line indices.
#[derive(Debug, Clone, PartialEq, Eq)]
pub struct DirtyLines {
    ranges: Vec<(usize, usize)>,
}

impl View for DirtyLines {
    type V = Seq<(usize, usize)>;

    closed spec fn view(&self) -> Seq<(usize, usize)> {
        self.ranges@
    }
}

impl DirtyLines {
    /// The representation invariant: intervals are sorted, disjoint and
    /// never adjacent.
    pub open spec fn wf(&self) -> bool {
        wf_ranges(self@)
    }

    /// `x` is in the marked set.
    pub open spec fn marked(&self, x: int) -> bool {
        covers(self@, x)
    }

    pub fn new() -> (r: Self)
        ensures
            r@ == Seq::<(usize, usize)>::empty(),
            r.wf(),
    {
        Self { ranges: Vec::new() }
    }

    /// The current intervals, sorted; mainly for inspection and tests.
    pub fn ranges(&self) -> (r: Vec<(usize, usize)>)
        ensures
            r@ == self@,
    {
        let mut out: Vec<(usize, usize)> = Vec::new();
        let mut k: usize = 0;
        while k < self.ranges.len()
            invariant
                k <= self.ranges.len(),
                out@ == self.ranges@.take(k as int),
            decreases self.ranges.len() - k,
        {
            out.push(self.ranges[k]);
            k = k + 1;
            proof {
                assert(out@ =~= self.ranges@.take(k as int));
            }
        }
        proof {
            assert(out@ =~= self.ranges@);
        }
        out
    }

    /// Marks every line of `index`, merging with intervals the new
    /// interval overlaps or touches; an empty or reversed range marks
    /// nothing.
    pub fn mark<I: MarkIndex>(&mut self, index: I)
        requires
            old(self).wf(),
        ensures
            final(self).wf(),
            forall|x: int|
                final(self).marked(x) <==> old(self).marked(x) || (
                index.range_spec() matches Some((s, e)) && s <= x <= e),
            index.range_spec() is None ==> *final(self) == *old(self),
    {
        match index.to_range() {
            Some((start, end)) => {
                self.mark_inclusive_range(start, end);
            },
            None => {
            },
        }
    }

    /// Marks the closed interval `[start, end]`; a reversed interval is
    /// an empty range and is ignored.
    pub fn mark_inclusive_range(&mut self, start: usize, end: usize)
        requires
            old(self).wf(),
        ensures
            final(self).wf(),
            forall|x: int|
                final(self).marked(x) <==> old(self).marked(x) || (start <= x <= end),
    {
        if start > end {
            return;
        }
        let ghost s0 = self.ranges@;
        let n = self.ranges.len();
        let search_start = if start > 0 {
            start - 1
        } else {
            0
        };

        proof {
            lemma_wf_monotone(s0);
        }

        // First interval whose end is >= start - 1 (binary search).
        let mut lo: usize = 0;
        let mut hi: usize = n;
        while lo < hi
            invariant
                lo <= hi <= n,
                n == s0.len(),
                s0 == self.ranges@,
                wf_ranges(s0),
                forall|k: int| 0 <= k < lo ==> (#[trigger] s0[k]).1 < search_start,
                forall|k: int| hi <= k < n ==> (#[trigger] s0[k]).1 >= search_start,
            decreases hi - lo,
        {
            let mid = lo + (hi - lo) / 2;
            if self.ranges[mid].1 < search_start {
                proof {
                    assert forall|k: int| 0 <= k < mid + 1 implies (#[trigger] s0[k]).1
                        < search_start by {
                        lemma_wf_monotone(s0);
                        if k < mid {
                            assert(s0[k].1 < s0[mid as int].1);
                        }
                    }
                }
                lo = mid + 1;
            } else {
                proof {
                    assert forall|k: int| mid <= k < n implies (#[trigger] s0[k]).1
                        >= search_start by {
                        lemma_wf_monotone(s0);
                        if k > mid {
                            assert(s0[mid as int].1 < s0[k].1);
                        }
                    }
                }
                hi = mid;
            }
        }
        let i_start = lo;

        // Extend through every interval that overlaps or touches [start, end].
        let bound = if end < usize::MAX {
            end + 1
        } else {
            usize::MAX
        };
        let mut new_start = start;
        let mut new_end = end;
        let mut i_end = i_start;
        let mut past_window = false;
        while i_end < n && !past_window
            invariant
                i_start <= i_end <= n,
                s0 == self.ranges@,
                wf_ranges(s0),
                n == s0.len(),
                bound == if end < usize::MAX { (end + 1) as int } else { usize::MAX as int },
                past_window ==> i_end < n && s0[i_end as int].0 > bound,
                forall|k: int| i_start <= k < i_end ==> (#[trigger] s0[k]).0 <= bound,
                new_start == if i_end > i_start {
                    if s0[i_start as int].0 < start {
                        s0[i_start as int].0
                    } else {
                        start
                    }
                } else {
                    start
                },
                new_end == if i_end > i_start {
                    if s0[i_end - 1].1 > end {
                        s0[i_end - 1].1
                    } else {
                        end
                    }
                } else {
                    end
                },
            decreases n - i_end + if past_window { 0int } else { 1int },
        {
            let p = self.ranges[i_end];
            if p.0 > bound {
                past_window = true;
            } else {
                if p.0 < new_start {
                    new_start = p.0;
                }
                if p.1 > new_end {
                    new_end = p.1;
                }
                proof {
                    lemma_wf_monotone(s0);
                }
                i_end = i_end + 1;
            }
        }
        proof {
            assert(i_end == n || s0[i_end as int].0 > bound);
        }

        // Rebuild: prefix, merged interval, suffix.
        let mut out: Vec<(usize, usize)> = Vec::new();
        let mut k: usize = 0;
        while k < i_start
            invariant
                k <= i_start <= n,
                s0 == self.ranges@,
                n == s0.len(),
                out@ == s0.take(k as int),
            decreases i_start - k,
        {
            out.push(self.ranges[k]);
            k = k + 1;
            proof {
                assert(out@ =~= s0.take(k as int));
            }
        }
        out.push((new_start, new_end));
        let mut k2: usize = i_end;
        while k2 < n
            invariant
                i_end <= k2 <= n,
                s0 == self.ranges@,
                n == s0.len(),
                i_start <= i_end,
                out@ == s0.take(i_start as int) + seq![(new_start, new_end)]
                    + s0.subrange(i_end as int, k2 as int),
            decreases n - k2,
        {
            out.push(self.ranges[k2]);
            k2 = k2 + 1;
            proof {
                assert(out@ =~= s0.take(i_start as int) + seq![(new_start, new_end)]
                    + s0.subrange(i_end as int, k2 as int));
            }
        }
        let ghost s1 = out@;
        self.ranges = out;

        proof {
            lemma_merge_correct(
                s0,
                s1,
                i_start as int,
                i_end as int,
                start,
                end,
                new_start,
                new_end,
                search_start as int,
                bound as int,
            );
        }
    }

    /// Binary search over the sorted intervals.
    pub fn is_marked(&self, line: usize) -> (r: bool)
        requires
            self.wf(),
        ensures
            r == self.marked(line as int),
    {
        let ghost s = self.ranges@;
        let n = self.ranges.len();
        let mut lo: usize = 0;
        let mut hi: usize = n;
        while lo < hi
            invariant
                lo <= hi <= n,
                n == s.len(),
                s == self.ranges@,
                wf_ranges(s),
                forall|k: int| 0 <= k < lo ==> (#[trigger] s[k]).1 < line,
                forall|k: int| hi <= k < n ==> (#[trigger] s[k]).0 > line,
            decreases hi - lo,
        {
            let mid = lo + (hi - lo) / 2;
            let p = self.ranges[mid];
            if line < p.0 {
                proof {
                    lemma_wf_monotone(s);
                    assert forall|k: int| mid <= k < n implies (#[trigger] s[k]).0 > line by {
                        if k > mid {
                            assert(s[mid as int].0 < s[k].0);
                        }
                    }
                }
                hi = mid;
            } else if line > p.1 {
                proof {
                    lemma_wf_monotone(s);
                    assert forall|k: int| 0 <= k < mid + 1 implies (#[trigger] s[k]).1 < line by {
                        if k < mid {
                            assert(s[k].1 < s[mid as int].1);
                        }
                    }
                }
                lo = mid + 1;
            } else {
                proof {
                    assert(s[mid as int].0 <= line <= s[mid as int].1);
                }
                return true;
            }
        }
        proof {
            if covers(s, line as int) {
                let k = choose|k: int| 0 <= k < s.len() && (#[trigger] s[k]).0 <= line as int
                    <= s[k].1;
                assert(k < lo || k >= hi);
                assert(false);
            }
        }
        false
    }

    pub fn clear(&mut self)
        ensures
            final(self)@ == Seq::<(usize, usize)>::empty(),
            final(self).wf(),
    {
        self.ranges.clear();
        proof {
            assert(self.ranges@ =~= Seq::<(usize, usize)>::empty());
        }
    }
}

/// An iterator over every line of a query range paired with its dirty
/// status.
pub struct DirtyRangeIter<'a> {
    dirty_lines: &'a DirtyLines,
    current: usize,
    end: usize,
}

impl<'a> DirtyRangeIter<'a> {
    pub closed spec fn lines(&self) -> DirtyLines {
        *self.dirty_lines
    }

    pub closed spec fn cur(&self) -> usize {
        self.current
    }

    pub closed spec fn end_excl(&self) -> usize {
        self.end
    }

    pub fn next(&mut self) -> (r: Option<(usize, bool)>)
        requires
            old(self).lines().wf(),
        ensures
            final(self).lines() == old(self).lines(),
            final(self).end_excl() == old(self).end_excl(),
            old(self).cur() < old(self).end_excl() ==> {
                &&& r == Some((old(self).cur(), old(self).lines().marked(old(self).cur() as int)))
                &&& final(self).cur() == old(self).cur() + 1
            },
            old(self).cur() >= old(self).end_excl() ==> {
                &&& r is None
                &&& final(self).cur() == old(self).cur()
            },
    {
        if self.current < self.end {
            let line = self.current;
            self.current = self.current + 1;
            let is_dirty = self.dirty_lines.is_marked(line);
            Some((line, is_dirty))
        } else {
            None
        }
    }
}

/// The lower end of the clipped intersection of interval `p` with the
/// query `[qs, qe)`.
pub open spec fn clip_lo(p: (usize, usize), qs: usize) -> usize {
    if p.0 >= qs {
        p.0
    } else {
        qs
    }
}

/// The upper end of the clipped intersection (meaningful only when the
/// intersection is non-empty, which forces `qe > 0`).
pub open spec fn clip_hi(p: (usize, usize), qe: usize) -> usize {
    if p.1 <= qe - 1 {
        p.1
    } else {
        (qe - 1) as usize
    }
}

/// The interval `p` intersects the query `[qs, qe)`.
pub open spec fn clip_valid(p: (usize, usize), qs: usize, qe: usize) -> bool {
    (if p.0 >= qs {
        p.0 as int
    } else {
        qs as int
    }) <= (if p.1 <= qe - 1 {
        p.1 as int
    } else {
        qe - 1
    })
}

/// The clipped intersections of the intervals of `s` from index `from`
/// on with the query `[qs, qe)`, in order.
pub open spec fn clip_from(s: Seq<(usize, usize)>, from: int, qs: usize, qe: usize) -> Seq<
    (usize, usize),
>
    decreases s.len() - from,
{
    if from < 0 || from >= s.len() {
        Seq::empty()
    } else if clip_valid(s[from], qs, qe) {
        seq![(clip_lo(s[from], qs), clip_hi(s[from], qe))] + clip_from(s, from + 1, qs, qe)
    } else {
        clip_from(s, from + 1, qs, qe)
    }
}

/// The index of the first interval at or after `from` that intersects
/// the query, or the length of `s` if none does.
pub open spec fn next_hit(s: Seq<(usize, usize)>, from: int, qs: usize, qe: usize) -> int
    decreases s.len() - from,
{
    if from < 0 || from >= s.len() {
        s.len() as int
    } else if clip_valid(s[from], qs, qe) {
        from
    } else {
        next_hit(s, from + 1, qs, qe)
    }
}

/// An iterator over the intervals of a `DirtyLines` clipped to a query
/// range, skipping intervals that lie outside it.
pub struct DirtyRangesIter<'a> {
    dirty_lines: &'a DirtyLines,
    idx: usize,
    query_start: usize,
    query_end: usize,
}

impl<'a> DirtyRangesIter<'a> {
    pub closed spec fn lines(&self) -> DirtyLines {
        *self.dirty_lines
    }

    pub closed spec fn pos(&self) -> usize {
        self.idx
    }

    pub closed spec fn qs(&self) -> usize {
        self.query_start
    }

    pub closed spec fn qe(&self) -> usize {
        self.query_end
    }

    pub fn next(&mut self) -> (r: Option<(usize, usize)>)
        requires
            old(self).lines().wf(),
        ensures
            final(self).lines() == old(self).lines(),
            final(self).qs() == old(self).qs(),
            final(self).qe() == old(self).qe(),
            ({
                let s = old(self).lines()@;
                let j = next_hit(s, old(self).pos() as int, old(self).qs(), old(self).qe());
                if j < s.len() {
                    &&& r == Some((clip_lo(s[j], old(self).qs()), clip_hi(s[j], old(self).qe())))
                    &&& final(self).pos() == j + 1
                } else {
                    &&& r is None
                }
            }),
    {
        let ghost s = self.dirty_lines@;
        let ghost pos0 = self.idx as int;
        let n = self.dirty_lines.ranges.len();
        let qs = self.query_start;
        let qe = self.query_end;
        while self.idx < n
            invariant
                self.dirty_lines == old(self).dirty_lines,
                self.query_start == old(self).query_start,
                self.query_end == old(self).query_end,
                self.dirty_lines@ == s,
                s == old(self).lines()@,
                pos0 == old(self).pos() as int,
                wf_ranges(s),
                n == s.len(),
                qs == self.query_start,
                qe == self.query_end,
                pos0 <= self.idx as int,
                next_hit(s, pos0, qs, qe) == next_hit(s, self.idx as int, qs, qe),
            decreases n - self.idx,
        {
            let p = self.dirty_lines.ranges[self.idx];
            if p.0 >= qe {
                // sorted: every remaining interval starts at or past the
                // query end, so none intersects it
                proof {
                    lemma_wf_monotone(s);
                    lemma_next_hit_none(s, self.idx as int, qs, qe);
                }
                return None;
            }
            let lo = if p.0 >= qs {
                p.0
            } else {
                qs
            };
            let hi = if p.1 <= qe - 1 {
                p.1
            } else {
                qe - 1
            };
            if lo <= hi {
                proof {
                    assert(clip_valid(s[self.idx as int], qs, qe));
                    assert(next_hit(s, self.idx as int, qs, qe) == self.idx as int);
                }
                self.idx = self.idx + 1;
                return Some((lo, hi));
            }
            proof {
                assert(!clip_valid(s[self.idx as int], qs, qe));
            }
            self.idx = self.idx + 1;
        }
        None
    }

    /// Drains the iterator into a vector of clipped intervals.
    pub fn to_vec(self) -> (r: Vec<(usize, usize)>)
        requires
            self.lines().wf(),
        ensures
            r@ == clip_from(self.lines()@, self.pos() as int, self.qs(), self.qe()),
    {
        let ghost s = self.dirty_lines@;
        let ghost pos0 = self.idx as int;
        let qs = self.query_start;
        let qe = self.query_end;
        let dl = self.dirty_lines;
        let n = dl.ranges.len();
        let mut idx = self.idx;
        let mut out: Vec<(usize, usize)> = Vec::new();
        let mut past_query = false;
        while idx < n && !past_query
            invariant
                dl@ == s,
                wf_ranges(s),
                n == s.len(),
                pos0 <= idx as int,
                past_query ==> clip_from(s, idx as int, qs, qe) == Seq::<(usize, usize)>::empty(),
                out@ + clip_from(s, idx as int, qs, qe) == clip_from(s, pos0, qs, qe),
            decreases n - idx + if past_query { 0int } else { 1int },
        {
            let p = dl.ranges[idx];
            if p.0 >= qe {
                proof {
                    lemma_wf_monotone(s);
                    assert forall|k: int| idx as int <= k < s.len() implies !clip_valid(
                        #[trigger] s[k],
                        qs,
                        qe,
                    ) by {
                        if k > idx as int {
                            assert(s[idx as int].0 < s[k].0);
                        }
                    }
                    lemma_clip_all_miss(s, idx as int, qs, qe);
                }
                past_query = true;
            } else {
                let lo = if p.0 >= qs {
                    p.0
                } else {
                    qs
                };
                let hi = if p.1 <= qe - 1 {
                    p.1
                } else {
                    qe - 1
                };
                if lo <= hi {
                    proof {
                        assert(clip_valid(s[idx as int], qs, qe));
                        assert((out@ + seq![(lo, hi)]) + clip_from(s, idx as int + 1, qs, qe)
                            =~= out@ + clip_from(s, idx as int, qs, qe));
                    }
                    out.push((lo, hi));
                } else {
                    proof {
                        assert(!clip_valid(s[idx as int], qs, qe));
                    }
                }
                idx = idx + 1;
            }
        }
        proof {
            assert(out@ =~= clip_from(s, pos0, qs, qe));
        }
        out
    }
}

/// If no interval at or after `from` intersects the query, the clipped
/// output from `from` on is empty.
proof fn lemma_clip_all_miss(s: Seq<(usize, usize)>, from: int, qs: usize, qe: usize)
    requires
        0 <= from <= s.len(),
        forall|k: int| from <= k < s.len() ==> !clip_valid(#[trigger] s[k], qs, qe),
    ensures
        clip_from(s, from, qs, qe) == Seq::<(usize, usize)>::empty(),
    decreases s.len() - from,
{
    if from < s.len() {
        lemma_clip_all_miss(s, from + 1, qs, qe);
    }
}

/// If no interval at or after `from` intersects the query, `next_hit`
/// runs off the end.
proof fn lemma_next_hit_none(s: Seq<(usize, usize)>, from: int, qs: usize, qe: usize)
    requires
        0 <= from <= s.len(),
        forall|i: int, j: int|
            0 <= i < j < s.len() ==> (#[trigger] s[i]).0 < (#[trigger] s[j]).0,
        from < s.len() ==> s[from].0 >= qe,
    ensures
        next_hit(s, from, qs, qe) == s.len(),
    decreases s.len() - from,
{
    if from < s.len() {
        assert(!clip_valid(s[from], qs, qe));
        assert(from + 1 < s.len() ==> s[from + 1].0 >= qe);
        lemma_next_hit_none(s, from + 1, qs, qe);
    }
}

impl DirtyLines {
    /// Starts a lazy walk over every line in `index`, yielding each line
    /// with its dirty status; an empty range yields nothing.
    pub fn iter_range<'a, I: MarkIndex>(&'a self, index: I) -> (it: DirtyRangeIter<'a>)
        ensures
            it.lines() == *self,
            index.range_spec() matches Some((s, e)) ==> it.cur() == s && it.end_excl() == if e
                < usize::MAX {
                e + 1
            } else {
                usize::MAX as int
            },
            index.range_spec() is None ==> it.cur() == it.end_excl(),
    {
        match index.to_range() {
            Some((start, end_inclusive)) => {
                let end_exclusive = if end_inclusive < usize::MAX {
                    end_inclusive + 1
                } else {
                    usize::MAX
                };
                DirtyRangeIter { dirty_lines: self, current: start, end: end_exclusive }
            },
            None => DirtyRangeIter { dirty_lines: self, current: 0, end: 0 },
        }
    }

    /// Starts a walk over the intervals intersecting `index`, each
    /// clipped to the query bounds; an empty range intersects nothing.
    pub fn iter_dirty_ranges<'a, I: MarkIndex>(&'a self, index: I) -> (it: DirtyRangesIter<'a>)
        requires
            self.wf(),
        ensures
            it.lines() == *self,
            index.range_spec() matches Some((s, e)) ==> it.qs() == s && it.qe() == if e
                < usize::MAX {
                e + 1
            } else {
                usize::MAX as int
            },
            index.range_spec() is None ==> it.qs() == it.qe(),
            clip_from(self@, it.pos() as int, it.qs(), it.qe()) == clip_from(
                self@,
                0,
                it.qs(),
                it.qe(),
            ),
    {
        let ghost s = self.ranges@;
        let (query_start, query_end) = match index.to_range() {
            Some((qs, end_inclusive)) => (
                qs,
                if end_inclusive < usize::MAX {
                    end_inclusive + 1
                } else {
                    usize::MAX
                },
            ),
            None => (0, 0),
        };
        let n = self.ranges.len();

        // First interval whose end reaches the query start.
        let mut lo: usize = 0;
        let mut hi: usize = n;
        while lo < hi
            invariant
                lo <= hi <= n,
                n == s.len(),
                s == self.ranges@,
                wf_ranges(s),
                forall|k: int| 0 <= k < lo ==> (#[trigger] s[k]).1 < query_start,
                forall|k: int| hi <= k < n ==> (#[trigger] s[k]).1 >= query_start,
            decreases hi - lo,
        {
            let mid = lo + (hi - lo) / 2;
            if self.ranges[mid].1 < query_start {
                proof {
                    assert forall|k: int| 0 <= k < mid + 1 implies (#[trigger] s[k]).1
                        < query_start by {
                        lemma_wf_monotone(s);
                        if k < mid {
                            assert(s[k].1 < s[mid as int].1);
                        }
                    }
                }
                lo = mid + 1;
            } else {
                proof {
                    assert forall|k: int| mid <= k < n implies (#[trigger] s[k]).1
                        >= query_start by {
                        lemma_wf_monotone(s);
                        if k > mid {
                            assert(s[mid as int].1 < s[k].1);
                        }
                    }
                }
                hi = mid;
            }
        }
        proof {
            // every skipped interval ends before the query, so misses it
            assert forall|k: int| 0 <= k < lo implies !clip_valid(
                s[k],
                query_start,
                query_end,
            ) by {
                assert(s[k].1 < query_start);
            }
            lemma_clip_prefix_misses(s, lo as int, query_start, query_end);
        }
        DirtyRangesIter { dirty_lines: self, idx: lo, query_start, query_end }
    }
}

/// Dropping a prefix of intervals that all miss the query does not
/// change the clipped output.
proof fn lemma_clip_prefix_misses(s: Seq<(usize, usize)>, to: int, qs: usize, qe: usize)
    requires
        0 <= to <= s.len(),
        forall|k: int| 0 <= k < to ==> !clip_valid(#[trigger] s[k], qs, qe),
    ensures
        clip_from(s, to, qs, qe) == clip_from(s, 0, qs, qe),
    decreases to,
{
    if to > 0 {
        lemma_clip_prefix_misses_from(s, 0, to, qs, qe);
    }
}

proof fn lemma_clip_prefix_misses_from(s: Seq<(usize, usize)>, from: int, to: int, qs: usize, qe: usize)
    requires
        0 <= from <= to <= s.len(),
        forall|k: int| from <= k < to ==> !clip_valid(#[trigger] s[k], qs, qe),
    ensures
        clip_from(s, to, qs, qe) == clip_from(s, from, qs, qe),
    decreases to - from,
{
    if from < to {
        lemma_clip_prefix_misses_from(s, from + 1, to, qs, qe);
    }
}

/// The clipped intervals of a well-formed set are themselves sorted,
/// disjoint and non-adjacent, and they cover exactly the marked lines
/// that fall inside the query: `iter_dirty_ranges` returns the
/// intersection of the marked set with the query, split into maximal
/// contiguous runs.
pub proof fn lemma_dirty_ranges_exact(dl: DirtyLines, qs: usize, qe: usize)
    requires
        dl.wf(),
    ensures
        wf_ranges(clip_from(dl@, 0, qs, qe)),
        forall|x: int|
            covers(clip_from(dl@, 0, qs, qe), x) <==> (dl.marked(x) && qs <= x < qe),
{
    lemma_clip_exact(dl@, 0, qs, qe);
    assert forall|x: int| covers(clip_from(dl@, 0, qs, qe), x) implies (dl.marked(x) && qs <= x
        < qe) by {
        let out = clip_from(dl@, 0, qs, qe);
        let i = choose|i: int| 0 <= i < out.len() && (#[trigger] out[i]).0 <= x <= out[i].1;
    }
}

/// Inductive core of `lemma_dirty_ranges_exact`, over the tail of the
/// interval vector starting at `from`.
proof fn lemma_clip_exact(s: Seq<(usize, usize)>, from: int, qs: usize, qe: usize)
    requires
        wf_ranges(s),
        0 <= from <= s.len(),
    ensures
        wf_ranges(clip_from(s, from, qs, qe)),
        forall|x: int|
            covers(clip_from(s, from, qs, qe), x) <==> ((exists|k: int|
                from <= k < s.len() && (#[trigger] s[k]).0 <= x <= s[k].1) && qs <= x < qe),
        forall|i: int, k: int|
            0 <= i < clip_from(s, from, qs, qe).len() && 0 <= k < from ==> (#[trigger] clip_from(
                s,
                from,
                qs,
                qe,
            )[i]).0 > (#[trigger] s[k]).1 + 1,
    decreases s.len() - from,
{
    let out = clip_from(s, from, qs, qe);
    if from >= s.len() {
        assert(forall|x: int| !covers(out, x));
    } else {
        lemma_clip_exact(s, from + 1, qs, qe);
        let rest = clip_from(s, from + 1, qs, qe);
        if clip_valid(s[from], qs, qe) {
            let p = (clip_lo(s[from], qs), clip_hi(s[from], qe));
            assert(out == seq![p] + rest);
            assert(out[0] == p);
            assert(forall|i: int| 1 <= i < out.len() ==> out[i] == rest[i - 1]);

            assert forall|i: int, k: int| 0 <= i < out.len() && 0 <= k < from implies (
            #[trigger] out[i]).0 > (#[trigger] s[k]).1 + 1 by {
                if i == 0 {
                    assert(s[k].1 + 1 < s[from].0);
                    assert(p.0 >= s[from].0);
                } else {
                    assert(rest[i - 1].0 > s[k].1 + 1);
                }
            }

            assert forall|i: int| 0 <= i < out.len() implies (#[trigger] out[i]).0 <= out[i].1 by {
                if i == 0 {
                } else {
                    assert(out[i] == rest[i - 1]);
                }
            }
            assert forall|i: int, j: int| 0 <= i < j < out.len() implies (#[trigger] out[i]).1 + 1
                < (#[trigger] out[j]).0 by {
                if i == 0 {
                    assert(out[j] == rest[j - 1]);
                    assert(rest[j - 1].0 > s[from].1 + 1);
                    assert(p.1 <= s[from].1);
                } else {
                    assert(out[i] == rest[i - 1] && out[j] == rest[j - 1]);
                }
            }

            assert forall|x: int| covers(out, x) implies ((exists|k: int|
                from <= k < s.len() && (#[trigger] s[k]).0 <= x <= s[k].1) && qs <= x < qe) by {
                let i = choose|i: int| 0 <= i < out.len() && (#[trigger] out[i]).0 <= x
                    <= out[i].1;
                if i == 0 {
                    assert(s[from].0 <= x <= s[from].1 && qs <= x < qe);
                } else {
                    assert(out[i] == rest[i - 1]);
                    assert(covers(rest, x));
                }
            }
            assert forall|x: int| ((exists|k: int|
                from <= k < s.len() && (#[trigger] s[k]).0 <= x <= s[k].1) && qs <= x
                < qe) implies covers(out, x) by {
                let k = choose|k: int| from <= k < s.len() && (#[trigger] s[k]).0 <= x <= s[k].1;
                if k == from {
                    assert(out[0].0 <= x <= out[0].1);
                } else {
                    assert(covers(rest, x));
                    let i = choose|i: int| 0 <= i < rest.len() && (#[trigger] rest[i]).0 <= x
                        <= rest[i].1;
                    assert(out[i + 1] == rest[i]);
                    assert(out[i + 1].0 <= x <= out[i + 1].1);
                }
            }
        } else {
            assert(out == rest);
            assert forall|x: int| ((exists|k: int|
                from <= k < s.len() && (#[trigger] s[k]).0 <= x <= s[k].1) && qs <= x
                < qe) implies covers(out, x) by {
                let k = choose|k: int| from <= k < s.len() && (#[trigger] s[k]).0 <= x <= s[k].1;
                if k == from {
                    // the query clips this interval away, so no x lies in both
                    assert(false);
                }
            }
        }
    }
}

/// Replacing the window `[is_, ie)` of a well-formed interval vector by
/// the single merged interval `[new_start, new_end]` keeps the vector
/// well-formed and adds exactly `[start, end]` to the covered set.
proof fn lemma_merge_correct(
    s0: Seq<(usize, usize)>,
    s1: Seq<(usize, usize)>,
    is_: int,
    ie: int,
    start: usize,
    end: usize,
    new_start: usize,
    new_end: usize,
    search_start: int,
    bound: int,
)
    requires
        wf_ranges(s0),
        start <= end,
        0 <= is_ <= ie <= s0.len(),
        search_start == if start > 0 { start - 1 } else { 0int },
        bound == if end < usize::MAX { end + 1 } else { usize::MAX as int },
        forall|k: int| 0 <= k < is_ ==> (#[trigger] s0[k]).1 < search_start,
        forall|k: int| is_ <= k < s0.len() ==> (#[trigger] s0[k]).1 >= search_start,
        forall|k: int| is_ <= k < ie ==> (#[trigger] s0[k]).0 <= bound,
        ie == s0.len() || s0[ie].0 > bound,
        new_start == if ie > is_ {
            if s0[is_].0 < start {
                s0[is_].0
            } else {
                start
            }
        } else {
            start
        },
        new_end == if ie > is_ {
            if s0[ie - 1].1 > end {
                s0[ie - 1].1
            } else {
                end
            }
        } else {
            end
        },
        s1 == s0.take(is_) + seq![(new_start, new_end)] + s0.subrange(ie, s0.len() as int),
    ensures
        wf_ranges(s1),
        forall|x: int| covers(s1, x) <==> (covers(s0, x) || (start <= x <= end)),
{
    lemma_merge_wf(s0, s1, is_, ie, start, end, new_start, new_end, search_start, bound);
    lemma_merge_covers(s0, s1, is_, ie, start, end, new_start, new_end, search_start, bound);
}

#[verifier::rlimit(60)]
proof fn lemma_merge_wf(
    s0: Seq<(usize, usize)>,
    s1: Seq<(usize, usize)>,
    is_: int,
    ie: int,
    start: usize,
    end: usize,
    new_start: usize,
    new_end: usize,
    search_start: int,
    bound: int,
)
    requires
        wf_ranges(s0),
        start <= end,
        0 <= is_ <= ie <= s0.len(),
        search_start == if start > 0 { start - 1 } else { 0int },
        bound == if end < usize::MAX { end + 1 } else { usize::MAX as int },
        forall|k: int| 0 <= k < is_ ==> (#[trigger] s0[k]).1 < search_start,
        forall|k: int| is_ <= k < s0.len() ==> (#[trigger] s0[k]).1 >= search_start,
        forall|k: int| is_ <= k < ie ==> (#[trigger] s0[k]).0 <= bound,
        ie == s0.len() || s0[ie].0 > bound,
        new_start == if ie > is_ {
            if s0[is_].0 < start {
                s0[is_].0
            } else {
                start
            }
        } else {
            start
        },
        new_end == if ie > is_ {
            if s0[ie - 1].1 > end {
                s0[ie - 1].1
            } else {
                end
            }
        } else {
            end
        },
        s1 == s0.take(is_) + seq![(new_start, new_end)] + s0.subrange(ie, s0.len() as int),
    ensures
        wf_ranges(s1),
{
    lemma_wf_monotone(s0);
    let n = s0.len() as int;
    let ns = new_start as int;
    let ne = new_end as int;

    // Facts about the three segments.
    assert(forall|k: int| 0 <= k < is_ ==> s1[k] == s0[k]);
    assert(forall|k: int| ie <= k < n ==> s1[k - ie + is_ + 1] == s0[k]);
    assert(s1[is_] == (new_start, new_end));
    assert(s1.len() == is_ + 1 + (n - ie));
    assert(new_start <= start && end <= new_end);

    // Well-formedness of the rebuilt vector.
    assert forall|i: int| 0 <= i < s1.len() implies (#[trigger] s1[i]).0 <= s1[i].1 by {
        if i < is_ {
        } else if i == is_ {
        } else {
            assert(s1[i] == s0[i - is_ - 1 + ie]);
        }
    }
    assert forall|i: int, j: int| 0 <= i < j < s1.len() implies (#[trigger] s1[i]).1 + 1
        < (#[trigger] s1[j]).0 by {
        let oi = i - is_ - 1 + ie;
        let oj = j - is_ - 1 + ie;
        if i < is_ && j < is_ {
        } else if i < is_ && j == is_ {
            // a prefix interval ends below both start - 1 and the first
            // window interval's start
            assert(s0[i].1 < search_start);
            if ie > is_ && s0[is_].0 < start {
                assert(i < is_ <= ie - 1);
                assert(s0[i].1 + 1 < s0[is_].0);
            } else {
                assert(s0[i].1 + 1 < start);
            }
        } else if i < is_ && j > is_ {
            assert(s1[i] == s0[i] && s1[j] == s0[oj]);
        } else if i == is_ && j > is_ {
            // the merged interval ends strictly below the suffix
            assert(s1[j] == s0[oj]);
            assert(oj >= ie);
            assert(ie < n);
            assert(s0[ie].0 > bound);
            assert(end < usize::MAX);
            assert(end + 1 < s0[ie].0);
            if ie > is_ {
                assert(s0[ie - 1].1 + 1 < s0[ie].0);
            }
            if oj > ie {
                assert(s0[ie].0 < s0[oj].0);
            }
            assert(ne + 1 < s0[oj].0);
        } else {
            assert(s1[i] == s0[oi] && s1[j] == s0[oj]);
        }
    }
}

#[verifier::rlimit(60)]
proof fn lemma_merge_covers(
    s0: Seq<(usize, usize)>,
    s1: Seq<(usize, usize)>,
    is_: int,
    ie: int,
    start: usize,
    end: usize,
    new_start: usize,
    new_end: usize,
    search_start: int,
    bound: int,
)
    requires
        wf_ranges(s0),
        start <= end,
        0 <= is_ <= ie <= s0.len(),
        search_start == if start > 0 { start - 1 } else { 0int },
        bound == if end < usize::MAX { end + 1 } else { usize::MAX as int },
        forall|k: int| 0 <= k < is_ ==> (#[trigger] s0[k]).1 < search_start,
        forall|k: int| is_ <= k < s0.len() ==> (#[trigger] s0[k]).1 >= search_start,
        forall|k: int| is_ <= k < ie ==> (#[trigger] s0[k]).0 <= bound,
        ie == s0.len() || s0[ie].0 > bound,
        new_start == if ie > is_ {
            if s0[is_].0 < start {
                s0[is_].0
            } else {
                start
            }
        } else {
            start
        },
        new_end == if ie > is_ {
            if s0[ie - 1].1 > end {
                s0[ie - 1].1
            } else {
                end
            }
        } else {
            end
        },
        s1 == s0.take(is_) + seq![(new_start, new_end)] + s0.subrange(ie, s0.len() as int),
    ensures
        forall|x: int| covers(s1, x) <==> (covers(s0, x) || (start <= x <= end)),
{
    lemma_wf_monotone(s0);
    let n = s0.len() as int;
    let ns = new_start as int;
    let ne = new_end as int;

    // Facts about the three segments.
    assert(forall|k: int| 0 <= k < is_ ==> s1[k] == s0[k]);
    assert(forall|k: int| ie <= k < n ==> s1[k - ie + is_ + 1] == s0[k]);
    assert(s1[is_] == (new_start, new_end));
    assert(s1.len() == is_ + 1 + (n - ie));
    assert(new_start <= start && end <= new_end);

    // The marked set is the old set plus [start, end].
    assert forall|x: int| covers(s1, x) <==> (covers(s0, x) || (start <= x <= end)) by {
        if covers(s1, x) {
            let j = choose|j: int| 0 <= j < s1.len() && (#[trigger] s1[j]).0 <= x <= s1[j].1;
            if j < is_ {
                assert(s0[j].0 <= x <= s0[j].1);
                assert(covers(s0, x));
            } else if j == is_ {
                if start <= x <= end {
                } else if x < start {
                    // below start: inside the first window interval
                    assert(ns < start);
                    assert(ie > is_ && s0[is_].0 < start);
                    assert(s0[is_].0 <= x);
                    assert(s0[is_].1 >= search_start);
                    assert(x <= start - 1 <= s0[is_].1);
                    assert(covers(s0, x));
                } else {
                    // above end: inside the last window interval
                    assert(x > end);
                    assert(ne > end);
                    assert(ie > is_ && s0[ie - 1].1 > end);
                    assert(ne == s0[ie - 1].1);
                    assert(s0[ie - 1].0 <= bound);
                    assert(end < usize::MAX || x <= end);
                    assert(s0[ie - 1].0 <= end + 1 <= x);
                    assert(s0[ie - 1].0 <= x <= s0[ie - 1].1);
                    assert(covers(s0, x));
                }
            } else {
                let oj = j - is_ - 1 + ie;
                assert(s0[oj].0 <= x <= s0[oj].1);
                assert(covers(s0, x));
            }
        }
        if start <= x <= end {
            assert(s1[is_].0 <= x <= s1[is_].1);
            assert(covers(s1, x));
        }
        if covers(s0, x) {
            let k = choose|k: int| 0 <= k < s0.len() && (#[trigger] s0[k]).0 <= x <= s0[k].1;
            if k < is_ {
                assert(s1[k] == s0[k]);
                assert(covers(s1, x));
            } else if k < ie {
                // window interval: swallowed by the merged interval
                if k > is_ {
                    assert(s0[is_].0 < s0[k].0);
                }
                if k < ie - 1 {
                    assert(s0[k].1 < s0[ie - 1].1);
                }
                assert(ns <= s0[k].0 && s0[k].1 <= ne);
                assert(s1[is_].0 <= x <= s1[is_].1);
                assert(covers(s1, x));
            } else {
                assert(s1[k - ie + is_ + 1] == s0[k]);
                assert(covers(s1, x));
            }
        }
    }
}

/// In a well-formed interval vector both starts and ends are strictly
/// increasing.
pub proof fn lemma_wf_monotone(s: Seq<(usize, usize)>)
    requires
        wf_ranges(s),
    ensures
        forall|i: int, j: int|
            0 <= i < j < s.len() ==> (#[trigger] s[i]).0 < (#[trigger] s[j]).0,
        forall|i: int, j: int|
            0 <= i < j < s.len() ==> (#[trigger] s[i]).1 < (#[trigger] s[j]).1,
{
    assert forall|i: int, j: int| 0 <= i < j < s.len() implies (#[trigger] s[i]).0
        < (#[trigger] s[j]).0 by {
        assert(s[i].1 + 1 < s[j].0);
    }
    assert forall|i: int, j: int| 0 <= i < j < s.len() implies (#[trigger] s[i]).1
        < (#[trigger] s[j]).1 by {
        assert(s[i].1 + 1 < s[j].0);
        assert(s[j].0 <= s[j].1);
    }
}

} // verus!
