use adrift::fingerprint::similarity;
use adrift::fingerprint::SegmentFingerprint;

fn fp(duration_us: u64, audio_hash: u64, video_hash: u64) -> SegmentFingerprint {
    SegmentFingerprint { duration_us, audio_hash, video_hash }
}

#[test]
fn equality_within_half_millisecond() {
    // Identical hash pairs, durations 0.0005 s apart: equal.
    let a = fp(10_000_000, 0xdead_beef, 0x1234_5678);
    let b = fp(10_000_500, 0xdead_beef, 0x1234_5678);
    assert!(a.equals(&b));
    assert!(b.equals(&a));
}

#[test]
fn equality_breaks_at_ten_milliseconds() {
    // Identical hash pairs, durations 0.01 s apart: not equal.
    let a = fp(10_000_000, 0xdead_beef, 0x1234_5678);
    let b = fp(10_010_000, 0xdead_beef, 0x1234_5678);
    assert!(!a.equals(&b));
    assert!(!b.equals(&a));
}

#[test]
fn equality_tolerance_is_strict() {
    // Exactly 0.001 s apart is already outside the tolerance.
    let a = fp(10_000_000, 1, 2);
    let b = fp(10_001_000, 1, 2);
    assert!(!a.equals(&b));
    let c = fp(10_000_999, 1, 2);
    assert!(a.equals(&c));
}

#[test]
fn equality_needs_both_hashes() {
    let a = fp(10_000_000, 1, 2);
    assert!(!a.equals(&fp(10_000_000, 1, 3)));
    assert!(!a.equals(&fp(10_000_000, 9, 2)));
}

#[test]
fn similarity_of_identical_fingerprints_is_one() {
    let a = fp(15_000_000, 0xffff_0000_ffff_0000, 0x0123_4567_89ab_cdef);
    assert_eq!(similarity(&a, &a), 1_000_000);
}

#[test]
fn similarity_counts_differing_bits() {
    // One differing audio bit costs 6250 millionths (0.4 / 64).
    let a = fp(15_000_000, 0b1000, 7);
    let b = fp(15_000_000, 0b0000, 7);
    assert_eq!(similarity(&a, &b), 1_000_000 - 6_250);
    // Eight differing video bits cost 50_000.
    let c = fp(15_000_000, 0b1000, 7 ^ 0xff00);
    assert_eq!(similarity(&a, &c), 1_000_000 - 50_000);
}

#[test]
fn similarity_weighs_duration_difference() {
    // Durations 10 s and 20 s: 0.2 * (10 / 20) = 0.1 off.
    let a = fp(10_000_000, 42, 43);
    let b = fp(20_000_000, 42, 43);
    assert_eq!(similarity(&a, &b), 900_000);
}

#[test]
fn similarity_is_symmetric() {
    let pairs = [
        (fp(10_000_000, 5, 9), fp(20_000_000, 6, 9)),
        (fp(1, 0, 0), fp(2, u64::MAX, u64::MAX)),
        (fp(30_000_000, 0xaaaa, 0x5555), fp(29_950_000, 0x5555, 0xaaaa)),
        (fp(0, 1, 2), fp(0, 1, 2)),
    ];
    for (a, b) in pairs.iter() {
        assert_eq!(similarity(a, b), similarity(b, a));
    }
}

#[test]
fn similarity_of_opposite_hashes_is_low() {
    // All 128 hash bits differ: 0.4 + 0.4 lost.
    let a = fp(10_000_000, 0, 0);
    let b = fp(10_000_000, u64::MAX, u64::MAX);
    assert_eq!(similarity(&a, &b), 200_000);
}

#[test]
fn empty_payload_hashes_from_sentinel() {
    // An empty payload is hashed from the fixed sentinel literal, so it
    // matches a payload that spells the sentinel out.
    let empty = SegmentFingerprint::from_payloads(5_000_000, &[], &[]);
    let spelled = SegmentFingerprint::from_payloads(
        5_000_000,
        "no video data".as_bytes(),
        "no audio data".as_bytes(),
    );
    assert_eq!(empty.video_hash, spelled.video_hash);
    assert_eq!(empty.audio_hash, spelled.audio_hash);
    assert_eq!(empty.duration_us, 5_000_000);
}

#[test]
fn equal_payloads_give_equal_hashes() {
    let a = SegmentFingerprint::from_payloads(1_000_000, &[1, 2, 3], &[4, 5]);
    let b = SegmentFingerprint::from_payloads(1_000_000, &[1, 2, 3], &[4, 5]);
    assert_eq!(a.video_hash, b.video_hash);
    assert_eq!(a.audio_hash, b.audio_hash);
    assert!(a.equals(&b));
}

#[test]
fn different_payloads_give_different_fingerprints() {
    // The video and audio payloads are digested separately.
    let a = SegmentFingerprint::from_payloads(1_000_000, &[1, 2, 3], &[1, 2, 3]);
    assert_eq!(a.video_hash, a.audio_hash);
    let b = SegmentFingerprint::from_payloads(1_000_000, &[1, 2, 3, 4], &[1, 2, 3]);
    assert_ne!(b.video_hash, b.audio_hash);
}

#[test]
fn duration_quantizes_to_milliseconds() {
    assert_eq!(fp(10_000_500, 0, 0).duration_millis(), 10_000);
    assert_eq!(fp(999, 0, 0).duration_millis(), 0);
    assert_eq!(fp(1_000, 0, 0).duration_millis(), 1);
}
