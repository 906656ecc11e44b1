use adrift::classify::Segment;
use adrift::classify::SegmentKind;
use adrift::db::FingerprintDb;
use adrift::fingerprint::SegmentFingerprint;
use adrift::pipeline::dedup_segments;
use adrift::pipeline::get_output_extension;
use adrift::pipeline::resolve_with_store;
use adrift::pipeline::timestamp_parts;
use adrift::pipeline::version_supported;
use adrift::pipeline::BlackFrameConfig;
use adrift::pipeline::OutputFormat;
use adrift::pipeline::SceneChangeConfig;
use adrift::pipeline::SIMILARITY_THRESHOLD_MILLIONTHS;

fn candidate(kind: SegmentKind, start_us: u64, end_us: u64, audio: u64, video: u64) -> Segment {
    Segment {
        kind,
        local_kind: kind,
        start_us,
        end_us,
        duration_us: end_us - start_us,
        fingerprint: Some(SegmentFingerprint {
            duration_us: end_us - start_us,
            audio_hash: audio,
            video_hash: video,
        }),
        duplicate_of: None,
    }
}

#[test]
fn second_run_marks_every_repeat_as_duplicate() {
    // Running the resolution twice over the same candidates: the first
    // run stores them as novel, the second marks each a duplicate of
    // the first run's record and increments its count by exactly one.
    let mut db = FingerprintDb::new(":memory:").unwrap();
    let cands = vec![
        candidate(SegmentKind::Commercial, 10_100_000, 40_050_000, 0xa1, 0xb1),
        candidate(SegmentKind::StationId, 50_000_000, 55_000_000, 0xa2, 0xb2),
    ];

    let first = resolve_with_store(&mut db, &cands, SIMILARITY_THRESHOLD_MILLIONTHS).unwrap();
    assert_eq!(first.len(), 2);
    assert!(first.iter().all(|s| s.duplicate_of.is_none()));

    let second = resolve_with_store(&mut db, &cands, SIMILARITY_THRESHOLD_MILLIONTHS).unwrap();
    assert_eq!(second.len(), 2);
    for seg in second.iter() {
        let id = seg.duplicate_of.expect("every repeat must carry its record's id");
        let rec = db.get_fingerprint_record(id).unwrap().unwrap();
        assert_eq!(rec.occurrence_count, 2);
    }
    assert_eq!(second[0].kind, SegmentKind::Commercial);
    assert_eq!(second[1].kind, SegmentKind::StationId);
}

#[test]
fn store_kind_overrides_local_kind_on_a_hit() {
    let mut db = FingerprintDb::new(":memory:").unwrap();
    let fp = SegmentFingerprint { duration_us: 5_000_000, audio_hash: 9, video_hash: 9 };
    let id = db.store_fingerprint(&fp, SegmentKind::StationId).unwrap();

    // Locally inferred as a commercial, but the store knows better.
    let cand = candidate(SegmentKind::Commercial, 0, 5_000_000, 9, 9);
    let out = resolve_with_store(&mut db, &vec![cand], SIMILARITY_THRESHOLD_MILLIONTHS).unwrap();
    assert_eq!(out.len(), 1);
    assert_eq!(out[0].kind, SegmentKind::StationId);
    assert_eq!(out[0].local_kind, SegmentKind::Commercial);
    assert_eq!(out[0].duplicate_of, Some(id));
}

#[test]
fn repeats_within_one_run_hit_the_store() {
    // The first occurrence is stored; the second finds it and counts a
    // second occurrence within the same run.
    let mut db = FingerprintDb::new(":memory:").unwrap();
    let cands = vec![
        candidate(SegmentKind::Commercial, 0, 30_000_000, 0xc1, 0xc2),
        candidate(SegmentKind::Commercial, 60_000_000, 90_000_000, 0xc1, 0xc2),
    ];
    let out = resolve_with_store(&mut db, &cands, SIMILARITY_THRESHOLD_MILLIONTHS).unwrap();
    assert_eq!(out.len(), 2);
    assert!(out[0].duplicate_of.is_none());
    let id = out[1].duplicate_of.expect("the repeat hits the fresh record");
    assert_eq!(db.get_fingerprint_record(id).unwrap().unwrap().occurrence_count, 2);
}

#[test]
fn candidates_without_fingerprints_are_dropped() {
    let mut db = FingerprintDb::new(":memory:").unwrap();
    let mut failed = candidate(SegmentKind::Commercial, 0, 30_000_000, 1, 1);
    failed.fingerprint = None;
    let out = resolve_with_store(&mut db, &vec![failed], SIMILARITY_THRESHOLD_MILLIONTHS).unwrap();
    assert!(out.is_empty());
    assert!(dedup_segments(&vec![failed]).is_empty());
}

#[test]
fn dedup_without_store_keeps_first_of_equals() {
    let a = candidate(SegmentKind::Commercial, 0, 30_000_000, 5, 6);
    // Same hashes, duration 0.0005 s apart: equal, suppressed.
    let mut b = candidate(SegmentKind::Commercial, 60_000_000, 90_000_500, 5, 6);
    b.duration_us = 30_000_500;
    b.fingerprint = Some(SegmentFingerprint {
        duration_us: 30_000_500,
        audio_hash: 5,
        video_hash: 6,
    });
    // Same hashes, duration 0.01 s apart: not equal, kept.
    let mut c = candidate(SegmentKind::Commercial, 120_000_000, 150_010_000, 5, 6);
    c.duration_us = 30_010_000;
    c.fingerprint = Some(SegmentFingerprint {
        duration_us: 30_010_000,
        audio_hash: 5,
        video_hash: 6,
    });
    let out = dedup_segments(&vec![a, b, c]);
    assert_eq!(out.len(), 2);
    assert_eq!(out[0].start_us, 0);
    assert_eq!(out[1].start_us, 120_000_000);
}

#[test]
fn timestamps_split_into_display_parts() {
    // 90.05 s reads as 01:30.05.
    assert_eq!(timestamp_parts(90_050_000), (1, 30, 5));
    assert_eq!(timestamp_parts(0), (0, 0, 0));
    assert_eq!(timestamp_parts(59_990_000), (0, 59, 99));
    assert_eq!(timestamp_parts(60_000_000), (1, 0, 0));
}

#[test]
fn version_banner_must_name_the_supported_major() {
    assert!(version_supported("ffmpeg version 4.4.1-3ubuntu5 Copyright (c) 2000-2021"));
    assert!(!version_supported("ffmpeg version 5.1.2"));
    assert!(!version_supported("not a transcoder at all"));
}

#[test]
fn output_extension_follows_the_format() {
    assert_eq!(get_output_extension(Some("mkv"), &OutputFormat::Same), "mkv");
    assert_eq!(get_output_extension(None, &OutputFormat::Same), "mp4");
    assert_eq!(get_output_extension(Some("avi"), &OutputFormat::MP4), "mp4");
    assert_eq!(get_output_extension(None, &OutputFormat::WebM), "webm");
    assert_eq!(get_output_extension(Some("x"), &OutputFormat::MKV), "mkv");
    assert_eq!(get_output_extension(Some("x"), &OutputFormat::MOV), "mov");
}

#[test]
fn config_defaults_match_the_documented_values() {
    let b = BlackFrameConfig::default();
    assert_eq!(b.min_duration_us, 20_000);
    assert_eq!(b.max_brightness_milli, 80);
    assert_eq!(b.noise_tolerance_milli, 80);
    assert_eq!(b.frame_skip, 1);
    assert_eq!(b.min_gap_us, 100_000);
    assert_eq!(b.max_gap_us, 500_000);
    let s = SceneChangeConfig::default();
    assert_eq!(s.threshold_milli, 400);
    assert_eq!(s.min_scene_length_us, 500_000);
}
