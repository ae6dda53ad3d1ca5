use keep_it_focused::algebra::{AcceptedInterval, IntervalsDiff, RejectedInterval};
use keep_it_focused::interval::{Interval, IntervalSubtraction};
use keep_it_focused::types::TimeOfDay;

fn t(hours: u8, minutes: u8) -> TimeOfDay {
    TimeOfDay { hours, minutes }
}

fn iv(sh: u8, sm: u8, eh: u8, em: u8) -> Interval {
    Interval { start: t(sh, sm), end: t(eh, em) }
}

#[test]
fn test_interval_sub() {
    let diffs = vec![
        IntervalsDiff {
            accepted: (1..10)
                .map(|hh| {
                    AcceptedInterval(Interval {
                        start: TimeOfDay { hours: hh, minutes: 0 },
                        end: TimeOfDay { hours: hh, minutes: 10 },
                    })
                })
                .collect::<Vec<_>>(),
            rejected: vec![
                // This removes 00:00 -> 00:10 and part of 01:00 -> 01:10
                RejectedInterval(iv(0, 0, 1, 9)),
                // This doesn't intersect with anything
                RejectedInterval(iv(1, 15, 1, 20)),
                RejectedInterval(iv(3, 0, 3, 1)),
            ],
        },
        IntervalsDiff {
            accepted: vec![AcceptedInterval(iv(23, 0, 24, 0))],
            rejected: vec![
                RejectedInterval(iv(8, 59, 9, 9)),
                RejectedInterval(iv(7, 1, 7, 11)),
                RejectedInterval(iv(4, 50, 6, 11)),
                RejectedInterval(iv(4, 5, 4, 7)),
            ],
        },
    ];
    let result = IntervalsDiff::compute_accepted_intervals(diffs);
    assert_eq!(
        result,
        vec![
            AcceptedInterval(iv(1, 9, 1, 10)),
            AcceptedInterval(iv(2, 0, 2, 10)),
            AcceptedInterval(iv(3, 1, 3, 10)),
            AcceptedInterval(iv(4, 0, 4, 5)),
            AcceptedInterval(iv(4, 7, 4, 10)),
            AcceptedInterval(iv(7, 0, 7, 1)),
            AcceptedInterval(iv(8, 0, 8, 10)),
            AcceptedInterval(iv(9, 9, 9, 10)),
            AcceptedInterval(iv(23, 0, 24, 0)),
        ]
    )
}

#[test]
fn subtract_self_is_empty() {
    let a = iv(9, 0, 10, 30);
    assert_eq!(a.subtract(a), IntervalSubtraction::Empty);
    let b = iv(0, 0, 24, 0);
    assert_eq!(b.subtract(b), IntervalSubtraction::Empty);
}

#[test]
fn subtract_disjoint_misses() {
    let a = iv(10, 0, 11, 0);
    let before = iv(8, 0, 9, 0);
    let after = iv(12, 0, 13, 0);
    assert_eq!(a.subtract(before), IntervalSubtraction::MissLeft(a));
    assert_eq!(a.subtract(after), IntervalSubtraction::MissRight(a));
}

#[test]
fn subtract_overlaps() {
    let a = iv(9, 0, 12, 0);
    // Eats the left of `a`.
    assert_eq!(
        a.subtract(iv(8, 0, 10, 0)),
        IntervalSubtraction::HitLeft(iv(10, 0, 12, 0))
    );
    // Eats the right of `a`.
    assert_eq!(
        a.subtract(iv(11, 0, 13, 0)),
        IntervalSubtraction::HitLeft(iv(9, 0, 11, 0))
    );
    // Strictly interior: two remnants.
    assert_eq!(
        a.subtract(iv(10, 0, 11, 0)),
        IntervalSubtraction::HitCenter(iv(9, 0, 10, 0), iv(11, 0, 12, 0))
    );
}

#[test]
fn subtract_set_carves_windows() {
    let accepted = vec![AcceptedInterval(iv(0, 0, 24, 0))];
    let rejected = vec![RejectedInterval(iv(12, 0, 12, 5))];
    let difference = AcceptedInterval::subtract(accepted, rejected);
    assert_eq!(
        difference,
        vec![
            AcceptedInterval(iv(0, 0, 12, 0)),
            AcceptedInterval(iv(12, 5, 24, 0)),
        ]
    );
}

#[test]
fn subtract_set_empty_rejected_passes_through() {
    let accepted = vec![AcceptedInterval(iv(3, 0, 2, 0)), AcceptedInterval(iv(1, 0, 2, 0))];
    // With nothing rejected the input is returned untouched, not even
    // simplified.
    let out = AcceptedInterval::subtract(accepted.clone(), vec![]);
    assert_eq!(out, accepted);
}

#[test]
fn simplify_sorts_and_merges() {
    let merged = AcceptedInterval::simplify(vec![
        AcceptedInterval(iv(13, 0, 14, 0)),
        AcceptedInterval(iv(9, 0, 10, 0)),
        AcceptedInterval(iv(10, 0, 11, 0)),
    ]);
    // Touching endpoints count as intersecting, so the first two windows
    // merge into one.
    assert_eq!(
        merged,
        vec![AcceptedInterval(iv(9, 0, 11, 0)), AcceptedInterval(iv(13, 0, 14, 0))]
    );
}

#[test]
fn simplify_is_idempotent_on_values() {
    let input = vec![
        RejectedInterval(iv(5, 0, 6, 0)),
        RejectedInterval(iv(1, 0, 3, 0)),
        RejectedInterval(iv(2, 0, 4, 0)),
        RejectedInterval(iv(22, 0, 23, 30)),
    ];
    let once = RejectedInterval::simplify(input);
    let twice = RejectedInterval::simplify(once.clone());
    assert_eq!(once, twice);
    // The output is sorted by start and pairwise non-intersecting.
    for w in once.windows(2) {
        assert!(w[0].0.start <= w[1].0.start);
        assert!(!w[0].0.intersects(&w[1].0));
    }
}

#[test]
fn complement_splits_the_day() {
    let complement = RejectedInterval::complement(vec![AcceptedInterval(iv(12, 15, 13, 37))]);
    assert_eq!(
        complement,
        vec![
            RejectedInterval(iv(0, 0, 12, 15)),
            RejectedInterval(iv(13, 37, 24, 0)),
        ]
    );
}

#[test]
fn complement_of_nothing_rejects_the_day() {
    let complement = RejectedInterval::complement(vec![]);
    assert_eq!(complement, vec![RejectedInterval(iv(0, 0, 24, 0))]);
}

#[test]
fn complement_round_trip_on_values() {
    let cover = vec![
        AcceptedInterval(iv(9, 0, 10, 0)),
        AcceptedInterval(iv(14, 30, 16, 0)),
    ];
    let rejected = RejectedInterval::complement(cover.clone());
    let as_accepted: Vec<AcceptedInterval> =
        rejected.iter().map(|r| AcceptedInterval(r.0)).collect();
    let back = RejectedInterval::complement(as_accepted);
    let restored: Vec<AcceptedInterval> = back.iter().map(|r| AcceptedInterval(r.0)).collect();
    assert_eq!(restored, cover);
}

#[test]
fn remaining_minutes() {
    let lesson = iv(9, 0, 9, 30);
    assert_eq!(lesson.remaining(t(9, 25)), Some(5));
    assert_eq!(lesson.remaining(t(9, 31)), None);
    assert_eq!(lesson.remaining(t(8, 59)), None);
    assert_eq!(lesson.remaining(t(9, 0)), Some(30));
    assert_eq!(lesson.remaining(t(9, 30)), Some(0));
}

#[test]
fn interval_geometry() {
    let a = iv(9, 0, 10, 0);
    let b = iv(10, 0, 11, 0);
    let c = iv(10, 1, 11, 0);
    // Touching endpoints count as intersecting.
    assert!(a.intersects(&b));
    assert!(b.intersects(&a));
    assert!(!a.intersects(&c));
    assert_eq!(a.merge(&b), Some(iv(9, 0, 11, 0)));
    assert_eq!(a.merge(&c), None);
    assert_eq!(a.len(), 60);
    assert!(a.is_empty());
    assert!(!iv(9, 0, 9, 0).is_empty());
}

#[test]
fn subtract_set_with_nothing_accepted() {
    let rejected = vec![RejectedInterval(iv(1, 0, 2, 0))];
    let out = AcceptedInterval::subtract(vec![], rejected);
    assert_eq!(out, vec![]);
}

#[test]
fn simplify_of_nothing() {
    assert_eq!(AcceptedInterval::simplify(vec![]), vec![]);
}

#[test]
fn fold_of_no_diffs() {
    assert_eq!(IntervalsDiff::compute_accepted_intervals(vec![]), vec![]);
}

#[test]
fn subtract_one_remnant_boundaries() {
    let a = iv(1, 0, 5, 0);
    // The rejected window reaches exactly the end of `a`: one remnant, on
    // the left — not a degenerate two-piece split.
    assert_eq!(
        a.subtract(iv(3, 0, 5, 0)),
        IntervalSubtraction::HitLeft(iv(1, 0, 3, 0))
    );
    // Symmetrically, starting exactly at the start of `a`.
    assert_eq!(
        a.subtract(iv(1, 0, 3, 0)),
        IntervalSubtraction::HitLeft(iv(3, 0, 5, 0))
    );
    // And through the set-level subtraction, no empty window survives.
    let out = AcceptedInterval::subtract(
        vec![AcceptedInterval(a)],
        vec![RejectedInterval(iv(3, 0, 5, 0))],
    );
    assert_eq!(out, vec![AcceptedInterval(iv(1, 0, 3, 0))]);
}
