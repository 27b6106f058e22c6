use hashcrack::partition::{partition, work_range, WorkRange};

#[test]
fn shares_are_sized_by_rounding_up() {
    assert_eq!(work_range(10, 3, 0), WorkRange { start: 0, end: 4 });
    assert_eq!(work_range(10, 3, 1), WorkRange { start: 4, end: 8 });
    assert_eq!(work_range(10, 3, 2), WorkRange { start: 8, end: 10 });
}

#[test]
fn even_division_gives_equal_shares() {
    assert_eq!(
        partition(9, 3),
        vec![
            WorkRange { start: 0, end: 3 },
            WorkRange { start: 3, end: 6 },
            WorkRange { start: 6, end: 9 },
        ]
    );
}

#[test]
fn one_worker_gets_everything() {
    assert_eq!(partition(27, 1), vec![WorkRange { start: 0, end: 27 }]);
}

#[test]
fn more_workers_than_indices_leaves_empty_ranges() {
    let ranges = partition(2, 4);
    assert_eq!(
        ranges,
        vec![
            WorkRange { start: 0, end: 1 },
            WorkRange { start: 1, end: 2 },
            WorkRange { start: 2, end: 2 },
            WorkRange { start: 2, end: 2 },
        ]
    );
}

#[test]
fn last_ranges_may_be_empty_though_indices_outnumber_workers() {
    assert_eq!(
        partition(9, 4),
        vec![
            WorkRange { start: 0, end: 3 },
            WorkRange { start: 3, end: 6 },
            WorkRange { start: 6, end: 9 },
            WorkRange { start: 9, end: 9 },
        ]
    );
}

#[test]
fn empty_space_gives_empty_ranges() {
    assert_eq!(
        partition(0, 2),
        vec![WorkRange { start: 0, end: 0 }, WorkRange { start: 0, end: 0 }]
    );
}

#[test]
fn a_worker_beyond_the_count_gets_nothing() {
    assert_eq!(work_range(10, 3, 3), WorkRange { start: 10, end: 10 });
    assert_eq!(work_range(10, 3, usize::MAX), WorkRange { start: 10, end: 10 });
}

#[test]
fn the_largest_space_is_cut_without_overflow() {
    assert_eq!(
        work_range(u64::MAX, 2, 0),
        WorkRange { start: 0, end: 9_223_372_036_854_775_808 }
    );
    assert_eq!(
        work_range(u64::MAX, 2, 1),
        WorkRange { start: 9_223_372_036_854_775_808, end: u64::MAX }
    );
    assert_eq!(work_range(u64::MAX, usize::MAX, 0), WorkRange { start: 0, end: 1 });
    assert_eq!(
        work_range(u64::MAX, usize::MAX, usize::MAX - 1),
        WorkRange { start: u64::MAX - 1, end: u64::MAX }
    );
    assert_eq!(work_range(u64::MAX, 1, 0), WorkRange { start: 0, end: u64::MAX });
}

#[test]
fn ranges_cover_the_space_without_gap_or_overlap() {
    for total in 0..60u64 {
        for workers in 1..9usize {
            let ranges = partition(total, workers);
            assert_eq!(ranges.len(), workers);
            let mut next = 0u64;
            for range in &ranges {
                assert_eq!(range.start, next);
                assert!(range.start <= range.end);
                next = range.end;
            }
            assert_eq!(next, total);
            for index in 0..total {
                let owners = ranges
                    .iter()
                    .filter(|r| r.start <= index && index < r.end)
                    .count();
                assert_eq!(owners, 1);
            }
        }
    }
}

#[test]
fn partition_agrees_with_work_range() {
    let ranges = partition(1000, 7);
    for (worker, range) in ranges.iter().enumerate() {
        assert_eq!(*range, work_range(1000, 7, worker));
    }
    assert_eq!(ranges[0], WorkRange { start: 0, end: 143 });
    assert_eq!(ranges[6], WorkRange { start: 858, end: 1000 });
}
