use adrift::parse::collect_black_frames;
use adrift::parse::collect_scene_changes;
use adrift::parse::contains_marker;
use adrift::parse::filter_scene_times;
use adrift::parse::parse_black_frame_line;
use adrift::parse::parse_decimal_us;
use adrift::parse::parse_pts_time_line;
use adrift::parse::scene_accept;
use adrift::parse::value_after;

#[test]
fn decimal_seconds_parse_to_microseconds() {
    assert_eq!(parse_decimal_us(b"10"), Some(10_000_000));
    assert_eq!(parse_decimal_us(b"10.05"), Some(10_050_000));
    assert_eq!(parse_decimal_us(b"0.000001"), Some(1));
    assert_eq!(parse_decimal_us(b"10."), Some(10_000_000));
    assert_eq!(parse_decimal_us(b".5"), Some(500_000));
    assert_eq!(parse_decimal_us(b"0"), Some(0));
}

#[test]
fn fractional_digits_beyond_microseconds_are_truncated() {
    assert_eq!(parse_decimal_us(b"1.2345678"), Some(1_234_567));
    assert_eq!(parse_decimal_us(b"0.9999999"), Some(999_999));
}

#[test]
fn malformed_decimals_are_rejected() {
    assert_eq!(parse_decimal_us(b""), None);
    assert_eq!(parse_decimal_us(b"."), None);
    assert_eq!(parse_decimal_us(b"1e3"), None);
    assert_eq!(parse_decimal_us(b"-1"), None);
    assert_eq!(parse_decimal_us(b"1.2.3"), None);
    assert_eq!(parse_decimal_us(b"12a"), None);
    assert_eq!(parse_decimal_us(b" 5"), None);
}

#[test]
fn out_of_range_values_are_rejected() {
    assert_eq!(parse_decimal_us(b"99999999999999999999"), None);
    assert_eq!(parse_decimal_us(b"10000000000000"), None);
    // Leading zeros do not push a small value out of range.
    assert_eq!(parse_decimal_us(b"000000000000000005.5"), Some(5_500_000));
}

#[test]
fn black_frame_lines_parse_both_markers() {
    let line = b"[blackdetect @ 0x5617] black_start:10.05 black_end:10.15 black_duration:0.1";
    assert_eq!(parse_black_frame_line(line), Some((10_050_000, 10_150_000)));
}

#[test]
fn black_frame_lines_missing_a_marker_are_skipped() {
    assert_eq!(parse_black_frame_line(b"black_start:10.05 black_duration:0.1"), None);
    assert_eq!(parse_black_frame_line(b"frame=  100 fps= 25 q=-0.0"), None);
    assert_eq!(parse_black_frame_line(b"black_start:oops black_end:10.15"), None);
}

#[test]
fn values_end_at_colons_or_whitespace() {
    assert_eq!(value_after(b"mark:10.5 rest", b"mark:"), Some(10_500_000));
    assert_eq!(value_after(b"mark:10:55", b"mark:"), Some(10_000_000));
    assert_eq!(value_after(b"mark:7", b"mark:"), Some(7_000_000));
    assert_eq!(value_after(b"nothing here", b"mark:"), None);
}

#[test]
fn values_may_follow_whitespace() {
    assert_eq!(value_after(b"mark: 10.5 rest", b"mark:"), Some(10_500_000));
    assert_eq!(value_after(b"mark: \t 7", b"mark:"), Some(7_000_000));
    assert_eq!(value_after(b"mark: ", b"mark:"), None);
    assert_eq!(value_after(b"mark::5", b"mark:"), None);
}

#[test]
fn pts_time_lines_parse_to_timestamps() {
    assert_eq!(parse_pts_time_line(b"frame:183 pts:549549 pts_time:5.2"), Some(5_200_000));
    assert_eq!(parse_pts_time_line(b"pts_time: 7.25 \n"), Some(7_250_000));
    assert_eq!(parse_pts_time_line(b"lavfi.scene_score=0.53"), None);
    // Trailing text after the timestamp makes the whole value malformed.
    assert_eq!(parse_pts_time_line(b"pts_time:5.2 extra"), None);
}

#[test]
fn scene_times_deduplicate_on_arrival() {
    // 1.2 comes only 0.2 s after 1.0 and is dropped; 1.6 and 3.0 stay.
    let times = vec![1_000_000u64, 1_200_000, 1_600_000, 3_000_000];
    assert_eq!(filter_scene_times(&times, 500_000), vec![1_000_000, 1_600_000, 3_000_000]);
}

#[test]
fn scene_acceptance_rule() {
    assert!(scene_accept(None, 0, 500_000));
    assert!(scene_accept(Some(1_000_000), 1_500_000, 500_000));
    assert!(!scene_accept(Some(1_000_000), 1_499_999, 500_000));
    // A timestamp that runs backwards is never kept.
    assert!(!scene_accept(Some(1_000_000), 900_000, 500_000));
}

#[test]
fn black_frame_streams_collect_marked_lines_only() {
    let lines: Vec<Vec<u8>> = vec![
        b"[blackdetect @ 0x1] black_start:10.0 black_end:10.1".to_vec(),
        b"black_start:1.0 black_end:2.0".to_vec(),  // no blackdetect marker
        b"frame=  100 fps= 25".to_vec(),
        b"[blackdetect @ 0x1] black_start:40.05 black_end:40.15".to_vec(),
        b"[blackdetect @ 0x1] black_start:nonsense black_end:50.0".to_vec(),
    ];
    assert_eq!(
        collect_black_frames(&lines),
        vec![(10_000_000, 10_100_000), (40_050_000, 40_150_000)]
    );
}

#[test]
fn scene_change_streams_collect_and_deduplicate() {
    let lines: Vec<Vec<u8>> = vec![
        b"frame:10 pts:40040 pts_time:1.0".to_vec(),
        b"frame:12 pts:48048 pts_time:1.2".to_vec(),
        b"lavfi.scene_score=0.73".to_vec(),
        b"frame:16 pts:64064 pts_time:1.6".to_vec(),
    ];
    assert_eq!(collect_scene_changes(&lines, 500_000), vec![1_000_000, 1_600_000]);
}

#[test]
fn marker_search_finds_substrings() {
    assert!(contains_marker(b"ffmpeg version 4.4.1-3ubuntu5", b"ffmpeg version 4."));
    assert!(!contains_marker(b"ffmpeg version 5.1", b"ffmpeg version 4."));
    assert!(contains_marker(b"anything", b""));
    assert!(!contains_marker(b"", b"x"));
}
