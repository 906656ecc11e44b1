use adrift::classify::classify_pair;
use adrift::classify::classify_segments;
use adrift::classify::default_commercial_lengths;
use adrift::classify::default_station_id_lengths;
use adrift::classify::SegmentKind;
use adrift::classify::COMMERCIAL_TOLERANCE_US;
use adrift::classify::STATION_ID_TOLERANCE_US;
use adrift::boundary::segment_spans;

#[test]
fn station_id_takes_precedence() {
    // Duration 5.0 s, station table {3, 5, 10} s (tol 0.2 s), and a
    // commercial table whose band also covers 5.0 s: station id, never
    // commercial.
    let station = vec![3_000_000u64, 5_000_000, 10_000_000];
    let commercial = vec![5_000_000u64];
    let seg = classify_pair(
        (10_000_000, 15_000_000),
        &station,
        STATION_ID_TOLERANCE_US,
        &commercial,
        COMMERCIAL_TOLERANCE_US,
    )
    .expect("a 5.0 s pair must classify");
    assert_eq!(seg.kind, SegmentKind::StationId);
    assert_eq!(seg.local_kind, SegmentKind::StationId);
    assert_eq!(seg.duration_us, 5_000_000);
}

#[test]
fn end_to_end_gap_between_black_intervals_is_a_commercial() {
    // Black-frame intervals [10.0, 10.1] and [40.05, 40.15], no scene
    // changes: the surviving boundary pair is (10.1, 40.05), duration
    // 29.95 s, and the commercial table {15, 30, 60} s (tol 2.0 s)
    // classifies it as a commercial.
    let intervals = vec![(10_000_000u64, 10_100_000u64), (40_050_000u64, 40_150_000u64)];
    let spans = segment_spans(&intervals);
    assert_eq!(spans, vec![(10_100_000, 40_050_000)]);
    let station = default_station_id_lengths();
    let commercial = vec![15_000_000u64, 30_000_000, 60_000_000];
    let segs = classify_segments(
        &spans,
        &station,
        STATION_ID_TOLERANCE_US,
        &commercial,
        2_000_000,
    );
    assert_eq!(segs.len(), 1);
    assert_eq!(segs[0].kind, SegmentKind::Commercial);
    assert_eq!(segs[0].start_us, 10_100_000);
    assert_eq!(segs[0].end_us, 40_050_000);
    assert_eq!(segs[0].duration_us, 29_950_000);
    assert!(segs[0].fingerprint.is_none());
    assert!(segs[0].duplicate_of.is_none());
}

#[test]
fn no_pairs_classify_to_nothing() {
    // Fewer than two black-frame intervals leave no pairs, and the
    // classifier returns an empty list.
    let intervals = vec![(10_000_000u64, 10_100_000u64)];
    let spans = segment_spans(&intervals);
    let station = default_station_id_lengths();
    let commercial = default_commercial_lengths();
    let segs = classify_segments(
        &spans,
        &station,
        STATION_ID_TOLERANCE_US,
        &commercial,
        COMMERCIAL_TOLERANCE_US,
    );
    assert!(segs.is_empty());
}

#[test]
fn unmatched_pairs_are_discarded() {
    // 7.0 s matches neither table under the default tolerances.
    let station = default_station_id_lengths();
    let commercial = default_commercial_lengths();
    let r = classify_pair(
        (0, 7_000_000),
        &station,
        STATION_ID_TOLERANCE_US,
        &commercial,
        COMMERCIAL_TOLERANCE_US,
    );
    assert!(r.is_none());
}

#[test]
fn tolerance_is_strict() {
    let station = default_station_id_lengths();
    let commercial = default_commercial_lengths();
    // Exactly 0.2 s off a station length: no match (and no commercial
    // band covers 5.2 s).
    assert!(classify_pair(
        (0, 5_200_000),
        &station,
        STATION_ID_TOLERANCE_US,
        &commercial,
        COMMERCIAL_TOLERANCE_US,
    )
    .is_none());
    // Just inside the tolerance: a station id.
    let seg = classify_pair(
        (0, 5_199_999),
        &station,
        STATION_ID_TOLERANCE_US,
        &commercial,
        COMMERCIAL_TOLERANCE_US,
    )
    .unwrap();
    assert_eq!(seg.kind, SegmentKind::StationId);
}

#[test]
fn backwards_pairs_match_nothing() {
    let station = default_station_id_lengths();
    let commercial = default_commercial_lengths();
    assert!(classify_pair(
        (10_000_000, 5_000_000),
        &station,
        STATION_ID_TOLERANCE_US,
        &commercial,
        COMMERCIAL_TOLERANCE_US,
    )
    .is_none());
}

#[test]
fn classification_keeps_pair_order() {
    let station = default_station_id_lengths();
    let commercial = default_commercial_lengths();
    let pairs = vec![
        (0u64, 30_500_000u64),  // commercial (30 s band)
        (30_500_000u64, 37_000_000u64),  // 6.5 s: nothing
        (37_000_000u64, 42_000_000u64),  // 5.0 s: station id
    ];
    let segs = classify_segments(
        &pairs,
        &station,
        STATION_ID_TOLERANCE_US,
        &commercial,
        COMMERCIAL_TOLERANCE_US,
    );
    assert_eq!(segs.len(), 2);
    assert_eq!(segs[0].kind, SegmentKind::Commercial);
    assert_eq!(segs[0].duration_us, 30_500_000);
    assert_eq!(segs[1].kind, SegmentKind::StationId);
    assert_eq!(segs[1].duration_us, 5_000_000);
}

#[test]
fn default_tables_hold_the_canonical_lengths() {
    assert_eq!(
        default_commercial_lengths(),
        vec![15_000_000, 20_000_000, 25_000_000, 30_000_000, 45_000_000, 60_000_000]
    );
    assert_eq!(default_station_id_lengths(), vec![3_000_000, 5_000_000, 10_000_000]);
}
