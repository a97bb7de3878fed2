use rangefetch::range::{compute_ranges, ByteRange};

fn covered_once(len: u64, ranges: &[ByteRange]) -> bool {
    let mut expected_start: u64 = 0;
    for (i, r) in ranges.iter().enumerate() {
        if r.start != expected_start {
            return false;
        }
        match r.end_exclusive {
            Some(e) => {
                if i + 1 == ranges.len() || e < r.start {
                    return false;
                }
                expected_start = e;
            }
            None => {
                if i + 1 != ranges.len() {
                    return false;
                }
                return r.start < len;
            }
        }
    }
    false
}

#[test]
fn partition_of_one_million_among_four() {
    let r = compute_ranges(1_000_000, 4);
    assert_eq!(
        r,
        vec![
            ByteRange { start: 0, end_exclusive: Some(250_000) },
            ByteRange { start: 250_000, end_exclusive: Some(500_000) },
            ByteRange { start: 500_000, end_exclusive: Some(750_000) },
            ByteRange { start: 750_000, end_exclusive: None },
        ]
    );
    let bounded: u64 = r.iter().filter_map(|x| x.end_exclusive.map(|e| e - x.start)).sum();
    assert_eq!(bounded + (1_000_000 - r[3].start), 1_000_000);
}

#[test]
fn remainder_goes_to_last_worker() {
    let r = compute_ranges(10, 3);
    assert_eq!(
        r,
        vec![
            ByteRange { start: 0, end_exclusive: Some(3) },
            ByteRange { start: 3, end_exclusive: Some(6) },
            ByteRange { start: 6, end_exclusive: None },
        ]
    );
    assert!(covered_once(10, &r));
}

#[test]
fn single_worker_takes_everything() {
    assert_eq!(compute_ranges(5, 1), vec![ByteRange { start: 0, end_exclusive: None }]);
    assert_eq!(compute_ranges(0, 1), vec![ByteRange { start: 0, end_exclusive: None }]);
}

#[test]
fn one_byte_per_worker() {
    let r = compute_ranges(3, 3);
    assert_eq!(
        r,
        vec![
            ByteRange { start: 0, end_exclusive: Some(1) },
            ByteRange { start: 1, end_exclusive: Some(2) },
            ByteRange { start: 2, end_exclusive: None },
        ]
    );
    assert!(covered_once(3, &r));
}

#[test]
fn partitions_cover_exactly_once() {
    for len in 1u64..60 {
        for workers in 1u64..=12 {
            let r = compute_ranges(len, workers);
            assert_eq!(r.len() as u64, workers);
            assert!(covered_once(len, &r), "len {} workers {}", len, workers);
        }
    }
}

#[test]
fn largest_length_is_split_without_overflow() {
    let r = compute_ranges(u64::MAX, 2);
    let half = u64::MAX / 2;
    assert_eq!(r[0], ByteRange { start: 0, end_exclusive: Some(half) });
    assert_eq!(r[1], ByteRange { start: half, end_exclusive: None });
}

#[test]
fn more_workers_than_bytes() {
    let r = compute_ranges(3, 8);
    assert_eq!(r.len(), 8);
    for x in &r[..7] {
        assert_eq!(*x, ByteRange { start: 0, end_exclusive: Some(0) });
    }
    assert_eq!(r[7], ByteRange { start: 0, end_exclusive: None });
    assert!(covered_once(3, &r));
}

#[test]
fn empty_resource_among_several_workers() {
    let r = compute_ranges(0, 3);
    assert_eq!(
        r,
        vec![
            ByteRange { start: 0, end_exclusive: Some(0) },
            ByteRange { start: 0, end_exclusive: Some(0) },
            ByteRange { start: 0, end_exclusive: None },
        ]
    );
}
