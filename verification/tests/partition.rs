use podbench::partition::{checked_partition, partition, BatchPartition};

#[test]
fn partition_follows_the_formula() {
    // start = broker * workers * batches + worker * batches
    assert_eq!(partition(0, 0, 4, 10), BatchPartition { start: 0, end: 10 });
    assert_eq!(partition(0, 3, 4, 10), BatchPartition { start: 30, end: 40 });
    assert_eq!(partition(2, 1, 4, 10), BatchPartition { start: 90, end: 100 });
    assert_eq!(partition(7, 5, 6, 3), BatchPartition { start: 141, end: 144 });
}

#[test]
fn partition_of_two_workers_with_three_batches() {
    assert_eq!(partition(0, 0, 2, 3), BatchPartition { start: 0, end: 3 });
    assert_eq!(partition(0, 1, 2, 3), BatchPartition { start: 3, end: 6 });
}

#[test]
fn partition_with_no_batches_is_empty() {
    let range = partition(5, 2, 3, 0);
    assert_eq!(range.start, range.end);
    assert_eq!(range, BatchPartition { start: 0, end: 0 });
}

#[test]
fn partition_of_first_broker_ignores_the_size_of_the_row() {
    // The row of broker 0 starts at 0 however many workers a broker has.
    let range = partition(0, 1, usize::MAX, 2);
    assert_eq!(range, BatchPartition { start: 2, end: 4 });
}

#[test]
fn partitions_tile_small_fleets() {
    for brokers in 1..5usize {
        for workers in 1..5usize {
            for batches in 1..5usize {
                let total = brokers * workers * batches;
                let mut owners = vec![0usize; total];
                for b in 0..brokers {
                    for w in 0..workers {
                        let range = partition(b, w, workers, batches);
                        assert_eq!(range.end - range.start, batches);
                        assert!(range.end <= total);
                        for item in range.start..range.end {
                            owners[item] += 1;
                        }
                    }
                }
                for item in 0..total {
                    assert_eq!(owners[item], 1);
                }
            }
        }
    }
}

#[test]
fn partitions_follow_fleet_order() {
    let workers = 3usize;
    let batches = 4usize;
    let mut expected_start = 0usize;
    for b in 0..3usize {
        for w in 0..workers {
            let range = partition(b, w, workers, batches);
            assert_eq!(range.start, expected_start);
            expected_start = range.end;
        }
    }
    assert_eq!(expected_start, 3 * workers * batches);
}

#[test]
fn checked_partition_agrees_where_it_fits() {
    for b in 0..4usize {
        for w in 0..3usize {
            assert_eq!(checked_partition(b, w, 3, 5), Some(partition(b, w, 3, 5)));
        }
    }
    assert_eq!(checked_partition(9, 9, 9, 0), Some(BatchPartition { start: 0, end: 0 }));
}

#[test]
fn checked_partition_refuses_what_does_not_fit() {
    assert_eq!(checked_partition(usize::MAX, 0, 2, 1), None);
    assert_eq!(checked_partition(2, 0, usize::MAX, 1), None);
    assert_eq!(checked_partition(1, 0, 1, usize::MAX), None);
    assert_eq!(checked_partition(0, 2, 1, usize::MAX / 2 + 1), None);
    assert_eq!(checked_partition(0, 0, 1, usize::MAX), Some(BatchPartition { start: 0, end: usize::MAX }));
    assert_eq!(
        checked_partition(1, 0, usize::MAX - 1, 1),
        Some(BatchPartition { start: usize::MAX - 1, end: usize::MAX })
    );
    assert_eq!(checked_partition(1, 1, usize::MAX - 1, 1), None);
}
