use keyspace_search::{Batch, BatchPlanner};

#[test]
fn batches_tile_the_range() {
    let mut p = BatchPlanner::new(10, 3);
    assert_eq!(p.next_batch(), Some(Batch { offset: 0, count: 3 }));
    assert_eq!(p.next_batch(), Some(Batch { offset: 3, count: 3 }));
    assert_eq!(p.next_batch(), Some(Batch { offset: 6, count: 3 }));
    assert_eq!(p.next_batch(), Some(Batch { offset: 9, count: 1 }));
    assert_eq!(p.next_batch(), None);
    assert_eq!(p.next_batch(), None);
}

#[test]
fn empty_range_emits_nothing() {
    let mut p = BatchPlanner::new(0, 5);
    assert_eq!(p.next_batch(), None);
}

#[test]
fn one_batch_when_size_covers_all() {
    let mut p = BatchPlanner::new(7, 100);
    assert_eq!(p.next_batch(), Some(Batch { offset: 0, count: 7 }));
    assert_eq!(p.next_batch(), None);
}

#[test]
fn exact_multiple_leaves_no_tail() {
    let mut p = BatchPlanner::new(8, 4);
    assert_eq!(p.next_batch(), Some(Batch { offset: 0, count: 4 }));
    assert_eq!(p.next_batch(), Some(Batch { offset: 4, count: 4 }));
    assert_eq!(p.next_batch(), None);
}

#[test]
fn coverage_has_no_gap_or_overlap() {
    let total: u64 = 1000;
    for bs in [1u64, 7, 64, 999, 1000, 4096] {
        let mut p = BatchPlanner::new(total, bs);
        let mut next_expected: u64 = 0;
        while let Some(b) = p.next_batch() {
            assert_eq!(b.offset, next_expected, "gap or overlap at batch start");
            assert!(b.count >= 1 && b.count <= bs);
            next_expected = b.offset + b.count;
        }
        assert_eq!(next_expected, total, "batches do not cover the range");
    }
}
