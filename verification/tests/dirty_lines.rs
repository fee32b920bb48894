use fastoj::dirty::DirtyLines;

#[test]
fn test_mark_single_line() {
    let mut dl = DirtyLines::new();
    dl.mark(5usize);
    assert_eq!(dl.ranges(), vec![(5, 5)]);

    dl.mark(10usize);
    assert_eq!(dl.ranges(), vec![(5, 5), (10, 10)]);

    dl.mark(6usize);
    assert_eq!(dl.ranges(), vec![(5, 6), (10, 10)]);
}

#[test]
fn test_mark_range_half_open() {
    let mut dl = DirtyLines::new();

    dl.mark(5..8);
    assert_eq!(dl.ranges(), vec![(5, 7)]);

    // an empty half-open range marks nothing
    dl.mark(10..10);
    assert_eq!(dl.ranges(), vec![(5, 7)]);
    assert!(!dl.is_marked(10));
}

#[test]
fn test_mark_range_inclusive() {
    let mut dl = DirtyLines::new();

    dl.mark(5..=8);
    assert_eq!(dl.ranges(), vec![(5, 8)]);

    // a reversed range is empty and is silently ignored
    #[allow(clippy::reversed_empty_ranges)]
    dl.mark(10..=9);
    assert_eq!(dl.ranges(), vec![(5, 8)]);
    assert!(!dl.is_marked(10));
}

#[test]
fn test_merging_complex() {
    let mut dl = DirtyLines::new();
    dl.mark(10..15);
    dl.mark(30..35);
    dl.mark(50usize);
    assert_eq!(dl.ranges(), vec![(10, 14), (30, 34), (50, 50)]);

    dl.mark(13..=31);
    assert_eq!(dl.ranges(), vec![(10, 34), (50, 50)]);

    dl.mark(34..36);
    assert_eq!(dl.ranges(), vec![(10, 35), (50, 50)]);

    dl.mark(5..55);
    assert_eq!(dl.ranges(), vec![(5, 54)]);
}

#[test]
fn test_is_dirty_accuracy() {
    let mut dl = DirtyLines::new();
    dl.mark(10..=19);
    dl.mark(30usize);

    assert!(dl.is_marked(10));
    assert!(dl.is_marked(19));
    assert!(dl.is_marked(30));

    assert!(!dl.is_marked(9));
    assert!(!dl.is_marked(20));
    assert!(!dl.is_marked(31));
}

#[test]
fn test_iter_with_inclusive_query() {
    let mut dl = DirtyLines::new();
    dl.mark(5..8);
    dl.mark(10usize);

    let mut results_inclusive: Vec<(usize, bool)> = Vec::new();
    let mut it = dl.iter_range(4..=8);
    while let Some(item) = it.next() {
        results_inclusive.push(item);
    }

    assert_eq!(
        results_inclusive,
        vec![(4, false), (5, true), (6, true), (7, true), (8, false),]
    );
}

#[test]
fn test_dirty_ranges_iter_with_inclusive_query() {
    let mut dl = DirtyLines::new();
    dl.mark(5..10);
    dl.mark(15..20);

    let query_inclusive = 8..=16;
    let intersecting_ranges: Vec<(usize, usize)> = dl.iter_dirty_ranges(query_inclusive).to_vec();

    assert_eq!(intersecting_ranges, vec![(8, 9), (15, 16)]);
}

#[test]
fn test_scenario_adjacent_marks() {
    let mut dl = DirtyLines::new();
    dl.mark(5usize);
    dl.mark(10usize);
    dl.mark(6usize);
    assert_eq!(dl.ranges(), vec![(5, 6), (10, 10)]);
    assert!(dl.is_marked(6));
    assert!(!dl.is_marked(7));
}

#[test]
fn test_clear_resets() {
    let mut dl = DirtyLines::new();
    dl.mark(3..9);
    dl.clear();
    assert_eq!(dl.ranges(), vec![]);
    assert!(!dl.is_marked(4));
}

#[test]
fn test_dirty_ranges_clip_both_ends() {
    let mut dl = DirtyLines::new();
    dl.mark(0..4);
    dl.mark(6..=6);
    dl.mark(8..12);
    let clipped: Vec<(usize, usize)> = dl.iter_dirty_ranges(2..10).to_vec();
    assert_eq!(clipped, vec![(2, 3), (6, 6), (8, 9)]);
}
