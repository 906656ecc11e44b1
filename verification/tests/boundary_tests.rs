use adrift::boundary::boundary_pairs;
use adrift::boundary::BoundaryCandidate;
use adrift::boundary::group_black_frames;
use adrift::boundary::score_segment_boundaries;
use adrift::boundary::segment_spans;

const GAP: u64 = 500_000;

#[test]
fn fresh_candidates_carry_no_evidence() {
    let mut c = BoundaryCandidate::new(5_000_000);
    assert_eq!(c.time_us, 5_000_000);
    assert_eq!(c.black_frame_score, 0);
    assert_eq!(c.scene_change_score, 0);
    assert_eq!(c.total_score, 0);
    // A 0.3 black-frame score with no scene change totals 0.21.
    c.black_frame_score = 300_000;
    c.update_scores();
    assert_eq!(c.total_score, 2_100_000);
}

#[test]
fn weak_black_frame_is_filtered() {
    // A 0.3 s black frame alone scores 0.7 * 0.3 = 0.21, below 0.5.
    let black = vec![(10_000_000u64, 10_300_000u64)];
    let scenes: Vec<u64> = vec![];
    let r = score_segment_boundaries(&black, &scenes, GAP);
    assert!(r.is_empty());
}

#[test]
fn total_score_is_seven_black_plus_three_scene() {
    // A full-second black frame with a scene change at the same spot:
    // black 1.0, scene 1.0, total 7 * 1_000_000 + 3 * 1_000_000.
    let black = vec![(10_000_000u64, 11_200_000u64)];
    let scenes = vec![10_100_000u64];
    let r = score_segment_boundaries(&black, &scenes, GAP);
    assert_eq!(r.len(), 1);
    assert_eq!(r[0].time_us, 10_000_000);
    assert_eq!(r[0].black_frame_score, 1_000_000);
    assert_eq!(r[0].scene_change_score, 1_000_000);
    assert_eq!(r[0].total_score, 7 * 1_000_000 + 3 * 1_000_000);
}

#[test]
fn scene_change_alone_is_filtered() {
    // A lone scene change scores 0.3, below the 0.5 threshold.
    let black: Vec<(u64, u64)> = vec![];
    let scenes = vec![42_000_000u64];
    let r = score_segment_boundaries(&black, &scenes, GAP);
    assert!(r.is_empty());
}

#[test]
fn long_black_frame_survives_alone() {
    // 0.8 s of black scores 0.56, above the threshold.
    let black = vec![(5_000_000u64, 5_800_000u64)];
    let scenes: Vec<u64> = vec![];
    let r = score_segment_boundaries(&black, &scenes, GAP);
    assert_eq!(r.len(), 1);
    assert_eq!(r[0].time_us, 5_000_000);
    assert_eq!(r[0].black_frame_score, 800_000);
    assert_eq!(r[0].total_score, 5_600_000);
}

#[test]
fn survivors_come_out_sorted_by_time() {
    let black = vec![(40_000_000u64, 41_000_000u64), (10_000_000u64, 11_000_000u64)];
    let scenes: Vec<u64> = vec![];
    let r = score_segment_boundaries(&black, &scenes, GAP);
    assert_eq!(r.len(), 2);
    assert_eq!(r[0].time_us, 10_000_000);
    assert_eq!(r[1].time_us, 40_000_000);
}

#[test]
fn scene_change_reinforces_nearby_candidate() {
    // A 0.5 s black frame alone scores 0.35; a scene change within the
    // gap lifts it to 0.65.
    let black = vec![(10_000_000u64, 10_500_000u64)];
    let scenes = vec![10_400_000u64];
    let r = score_segment_boundaries(&black, &scenes, GAP);
    assert_eq!(r.len(), 1);
    assert_eq!(r[0].time_us, 10_000_000);
    assert_eq!(r[0].scene_change_score, 1_000_000);
    assert_eq!(r[0].total_score, 7 * 500_000 + 3 * 1_000_000);
}

#[test]
fn far_scene_change_seeds_its_own_candidate() {
    // The scene change lies beyond the gap, so it seeds a (filtered)
    // candidate of its own and leaves the black frame untouched.
    let black = vec![(10_000_000u64, 10_800_000u64)];
    let scenes = vec![20_000_000u64];
    let r = score_segment_boundaries(&black, &scenes, GAP);
    assert_eq!(r.len(), 1);
    assert_eq!(r[0].time_us, 10_000_000);
    assert_eq!(r[0].scene_change_score, 0);
}

#[test]
fn pairs_of_consecutive_boundaries() {
    let black = vec![
        (10_000_000u64, 11_000_000u64),
        (40_000_000u64, 41_000_000u64),
        (70_000_000u64, 71_000_000u64),
    ];
    let scenes: Vec<u64> = vec![];
    let r = score_segment_boundaries(&black, &scenes, GAP);
    let pairs = boundary_pairs(&r);
    assert_eq!(pairs, vec![(10_000_000, 40_000_000), (40_000_000, 70_000_000)]);
}

#[test]
fn fewer_than_two_boundaries_give_no_pairs() {
    let one = vec![BoundaryCandidate::new(5)];
    assert!(boundary_pairs(&one).is_empty());
    assert!(boundary_pairs(&vec![]).is_empty());
}

#[test]
fn spans_run_between_consecutive_intervals() {
    let intervals = vec![(10_000_000u64, 10_100_000u64), (40_050_000u64, 40_150_000u64)];
    assert_eq!(segment_spans(&intervals), vec![(10_100_000, 40_050_000)]);
}

#[test]
fn fewer_than_two_intervals_leave_no_spans() {
    assert!(segment_spans(&vec![]).is_empty());
    assert!(segment_spans(&vec![(10_000_000u64, 10_100_000u64)]).is_empty());
}

#[test]
fn grouping_merges_related_black_frames() {
    // Gaps of 0.25 s merge (within the 0.5 s reach); a 1.4 s gap closes
    // the group.
    let frames = vec![
        (0u64, 150_000u64),
        (400_000u64, 600_000u64),
        (2_000_000u64, 2_200_000u64),
    ];
    let r = group_black_frames(&frames, 500_000);
    assert_eq!(r, vec![(0, 600_000), (2_000_000, 2_200_000)]);
}

#[test]
fn grouping_drops_insignificant_frames() {
    // Frames shorter than 0.1 s do not count.
    let frames = vec![(0u64, 50_000u64), (1_000_000u64, 1_100_000u64)];
    let r = group_black_frames(&frames, 500_000);
    assert_eq!(r, vec![(1_000_000, 1_100_000)]);
}

#[test]
fn grouping_of_nothing_is_nothing() {
    let frames: Vec<(u64, u64)> = vec![];
    assert!(group_black_frames(&frames, 500_000).is_empty());
}
