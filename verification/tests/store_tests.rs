use adrift::classify::SegmentKind;
use adrift::db::FingerprintDb;
use adrift::db::StoreError;
use adrift::fingerprint::SegmentFingerprint;

fn fp(duration_us: u64, audio_hash: u64, video_hash: u64) -> SegmentFingerprint {
    SegmentFingerprint { duration_us, audio_hash, video_hash }
}

fn open_memory_store() -> FingerprintDb {
    FingerprintDb::new(":memory:").expect("an in-memory store must open")
}

#[test]
fn unreachable_path_is_a_storage_failure() {
    let r = FingerprintDb::new("/nonexistent-dir-for-store/store.db");
    assert!(matches!(r, Err(StoreError::Storage(_))));
}

#[test]
fn stored_fingerprint_is_found_again() {
    let mut db = open_memory_store();
    let f = fp(30_000_000, 0xaaaa_bbbb, 0xcccc_dddd);
    let id = db.store_fingerprint(&f, SegmentKind::Commercial).unwrap();
    assert_eq!(db.find_similar_fingerprint(&f, 950_000).unwrap(), Some(id));
    assert_eq!(db.get_fingerprint_type(id).unwrap(), Some(SegmentKind::Commercial));
}

#[test]
fn fresh_store_finds_nothing() {
    let db = open_memory_store();
    let f = fp(30_000_000, 1, 2);
    assert_eq!(db.find_similar_fingerprint(&f, 950_000).unwrap(), None);
    assert_eq!(db.get_fingerprint_type(1).unwrap(), None);
    assert_eq!(db.get_fingerprint_record(1).unwrap(), None);
}

#[test]
fn dissimilar_fingerprints_stay_below_the_threshold() {
    let mut db = open_memory_store();
    let stored = fp(30_000_000, 0, 0);
    db.store_fingerprint(&stored, SegmentKind::Commercial).unwrap();
    // All 128 hash bits differ: similarity 0.2, far below 0.95.
    let probe = fp(30_000_000, u64::MAX, u64::MAX);
    assert_eq!(db.find_similar_fingerprint(&probe, 950_000).unwrap(), None);
}

#[test]
fn duration_window_prefilters_candidates() {
    let mut db = open_memory_store();
    let stored = fp(30_000_000, 7, 8);
    db.store_fingerprint(&stored, SegmentKind::Commercial).unwrap();
    // Same hashes, duration 0.6 s away: outside the half-second window,
    // although the similarity itself would pass the threshold.
    let probe = fp(30_600_000, 7, 8);
    assert_eq!(db.find_similar_fingerprint(&probe, 950_000).unwrap(), None);
    // 0.4 s away lies inside the window and matches.
    let near = fp(30_400_000, 7, 8);
    assert!(db.find_similar_fingerprint(&near, 950_000).unwrap().is_some());
}

#[test]
fn best_match_wins_and_ties_keep_the_first() {
    let mut db = open_memory_store();
    // Two bits off versus one bit off: the closer record wins.
    let far = fp(30_000_000, 0b11, 0);
    let near = fp(30_000_000, 0b1, 0);
    db.store_fingerprint(&far, SegmentKind::Commercial).unwrap();
    let near_id = db.store_fingerprint(&near, SegmentKind::Commercial).unwrap();
    let probe = fp(30_000_000, 0, 0);
    assert_eq!(db.find_similar_fingerprint(&probe, 900_000).unwrap(), Some(near_id));

    // Two equally similar records: the first encountered stays.
    let mut db2 = open_memory_store();
    let first = db2.store_fingerprint(&fp(10_000_000, 5, 5), SegmentKind::StationId).unwrap();
    let _second = db2.store_fingerprint(&fp(10_000_000, 5, 5), SegmentKind::StationId).unwrap();
    let probe2 = fp(10_000_000, 5, 5);
    assert_eq!(db2.find_similar_fingerprint(&probe2, 950_000).unwrap(), Some(first));
}

#[test]
fn occurrence_count_starts_at_one_and_increments() {
    let mut db = open_memory_store();
    let f = fp(15_000_000, 3, 4);
    let id = db.store_fingerprint(&f, SegmentKind::StationId).unwrap();
    let rec = db.get_fingerprint_record(id).unwrap().unwrap();
    assert_eq!(rec.occurrence_count, 1);
    assert_eq!(rec.duration_us, 15_000_000);
    assert_eq!(rec.audio_hash, 3);
    assert_eq!(rec.video_hash, 4);
    assert_eq!(rec.kind, SegmentKind::StationId);

    db.update_fingerprint_occurrence(id).unwrap();
    let rec2 = db.get_fingerprint_record(id).unwrap().unwrap();
    assert_eq!(rec2.occurrence_count, 2);
    db.update_fingerprint_occurrence(id).unwrap();
    assert_eq!(db.get_fingerprint_record(id).unwrap().unwrap().occurrence_count, 3);
}

#[test]
fn records_keep_their_identities() {
    let mut db = open_memory_store();
    let a = db.store_fingerprint(&fp(10_000_000, 1, 1), SegmentKind::Commercial).unwrap();
    let b = db.store_fingerprint(&fp(20_000_000, 2, 2), SegmentKind::StationId).unwrap();
    assert!(a < b);
    db.update_fingerprint_occurrence(a).unwrap();
    // The other record is untouched.
    let rb = db.get_fingerprint_record(b).unwrap().unwrap();
    assert_eq!(rb.occurrence_count, 1);
    assert_eq!(rb.kind, SegmentKind::StationId);
}
