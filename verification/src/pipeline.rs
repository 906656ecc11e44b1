use vstd::prelude::*;

use vstd::string::StringSliceAdditionalSpecFns;

use crate::classify::Segment;
use crate::db::spec_find_by_id;
use crate::db::spec_find_similar;
use crate::db::FingerprintDb;
use crate::db::StoreError;
use crate::db::StoredFingerprintRecord;
use crate::fingerprint::spec_fingerprint_eq;
use crate::fingerprint::SegmentFingerprint;
use crate::parse::contains_marker;
use crate::parse::spec_contains;
use crate::MAX_TIME_US;

verus! {

/// A stored fingerprint counts as the same segment from this similarity
/// on, in millionths (0.95).
pub const SIMILARITY_THRESHOLD_MILLIONTHS: u64 = 950_000;

/// Parameters of the black-frame analysis pass, supplied to the external
/// transcoder; durations in microseconds, levels in thousandths.
#[derive(Debug, Clone)]
pub struct BlackFrameConfig {
    pub min_duration_us: u64,
    pub max_brightness_milli: u64,
    pub noise_tolerance_milli: u64,
    pub frame_skip: u32,
    pub min_gap_us: u64,
    pub max_gap_us: u64,
}

impl Default for BlackFrameConfig {
    /// The defaults: 0.02 s minimum black duration, strict black level
    /// and noise threshold of 0.08, every frame checked, 0.1 s minimum
    /// and 0.5 s maximum gap between related segments.
    fn default() -> (c: Self)
        ensures
            c == (BlackFrameConfig {
                min_duration_us: 20_000,
                max_brightness_milli: 80,
                noise_tolerance_milli: 80,
                frame_skip: 1,
                min_gap_us: 100_000,
                max_gap_us: 500_000,
            }),
    {
        BlackFrameConfig {
            min_duration_us: 20_000,
            max_brightness_milli: 80,
            noise_tolerance_milli: 80,
            frame_skip: 1,
            min_gap_us: 100_000,
            max_gap_us: 500_000,
        }
    }
}

/// Parameters of the scene-change analysis pass; the pixel-difference
/// threshold in thousandths, the minimum scene length in microseconds.
#[derive(Debug, Clone)]
pub struct SceneChangeConfig {
    pub threshold_milli: u64,
    pub min_scene_length_us: u64,
}

impl Default for SceneChangeConfig {
    /// The defaults: a 0.4 pixel-difference threshold and a 0.5 s
    /// minimum scene duration.
    fn default() -> (c: Self)
        ensures
            c == (SceneChangeConfig { threshold_milli: 400, min_scene_length_us: 500_000 }),
    {
        SceneChangeConfig { threshold_milli: 400, min_scene_length_us: 500_000 }
    }
}

/// Whether the in-run uniqueness set already holds a fingerprint equal
/// to `fp` under the tolerant fingerprint equality.
pub open spec fn spec_seen_contains(seen: Seq<SegmentFingerprint>, fp: SegmentFingerprint) -> bool {
    exists|j: int| 0 <= j < seen.len() && spec_fingerprint_eq(#[trigger] seen[j], fp)
}

/// A segment re-tagged from a store hit: the store is authoritative for
/// the kind once a fingerprint is known, and the record's identifier is
/// kept as `duplicate_of`; the locally inferred kind stays in
/// `local_kind`.
pub open spec fn spec_resolved_segment(c: Segment, rec: StoredFingerprintRecord) -> Segment {
    Segment { kind: rec.kind, duplicate_of: Some(rec.id), ..c }
}

/// A genuinely novel segment: the locally inferred kind stands and no
/// duplicate is known.
pub open spec fn spec_novel_segment(c: Segment) -> Segment {
    Segment { duplicate_of: None, ..c }
}

/// The record a stored fingerprint gets: occurrence count one.
pub open spec fn spec_new_record(id: i64, c: Segment, fp: SegmentFingerprint) -> StoredFingerprintRecord {
    StoredFingerprintRecord {
        id,
        kind: c.local_kind,
        duration_us: fp.duration_us,
        audio_hash: fp.audio_hash,
        video_hash: fp.video_hash,
        occurrence_count: 1,
    }
}

/// How one occurrence bump relates the store's rows before and after:
/// every row keeps its identifier, rows with other identifiers stay
/// whole, and the hit row's count grows by one (as long as it has room).
pub open spec fn records_bumped(
    before: Seq<StoredFingerprintRecord>,
    after: Seq<StoredFingerprintRecord>,
    id: i64,
) -> bool {
    &&& after.len() == before.len()
    &&& forall|j: int|
        0 <= j < before.len() && (#[trigger] before[j]).id != id ==> after[j] == before[j]
    &&& forall|j: int|
        0 <= j < before.len() && (#[trigger] before[j]).id == id && before[j].occurrence_count
            < i64::MAX ==> after[j] == (StoredFingerprintRecord {
            occurrence_count: (before[j].occurrence_count + 1) as i64,
            ..before[j]
        })
    &&& forall|j: int| 0 <= j < before.len() ==> (#[trigger] after[j]).id == before[j].id
}

/// How resolving candidates against the store relates its inputs to its
/// outputs: each candidate with a fingerprint either hits a similar
/// stored record (count bumped, segment re-tagged to the stored kind and
/// marked a duplicate), or is suppressed as a repeat within this run, or
/// is stored as novel under a fresh identifier and emitted with its
/// local kind.  Candidates without a fingerprint are dropped.
pub open spec fn resolve_rel(
    records0: Seq<StoredFingerprintRecord>,
    cands: Seq<Segment>,
    seen0: Seq<SegmentFingerprint>,
    threshold: u64,
    out: Seq<Segment>,
    records1: Seq<StoredFingerprintRecord>,
) -> bool
    decreases cands.len(),
{
    if cands.len() == 0 {
        out == Seq::<Segment>::empty() && records1 == records0
    } else {
        let c = cands[0];
        let rest = cands.drop_first();
        match c.fingerprint {
            None => resolve_rel(records0, rest, seen0, threshold, out, records1),
            Some(fp) => match spec_find_similar(records0, fp, threshold) {
                Some(id) => exists|mid: Seq<StoredFingerprintRecord>|
                    #![auto]
                    records_bumped(records0, mid, id) && match spec_find_by_id(records0, id) {
                        Some(rec) => out.len() >= 1 && out[0] == spec_resolved_segment(c, rec)
                            && resolve_rel(mid, rest, seen0, threshold, out.drop_first(), records1),
                        None => resolve_rel(mid, rest, seen0, threshold, out, records1),
                    },
                None => if spec_seen_contains(seen0, fp) {
                    resolve_rel(records0, rest, seen0, threshold, out, records1)
                } else {
                    exists|id: i64|
                        #![auto]
                        (forall|j: int| 0 <= j < records0.len() ==> records0[j].id < id)
                            && out.len() >= 1 && out[0] == spec_novel_segment(c) && resolve_rel(
                            records0.push(spec_new_record(id, c, fp)),
                            rest,
                            seen0.push(fp),
                            threshold,
                            out.drop_first(),
                            records1,
                        )
                },
            },
        }
    }
}

/// How processing one candidate relates the store, the uniqueness set
/// and the emitted segment (if any) before the remaining candidates are
/// processed.
pub open spec fn step_rel(
    records0: Seq<StoredFingerprintRecord>,
    c: Segment,
    seen0: Seq<SegmentFingerprint>,
    threshold: u64,
    emitted: Option<Segment>,
    mid: Seq<StoredFingerprintRecord>,
    seen_mid: Seq<SegmentFingerprint>,
) -> bool {
    match c.fingerprint {
        None => mid == records0 && seen_mid == seen0 && emitted is None,
        Some(fp) => match spec_find_similar(records0, fp, threshold) {
            Some(id) => records_bumped(records0, mid, id) && seen_mid == seen0 && (match
                spec_find_by_id(records0, id) {
                Some(rec) => emitted == Some(spec_resolved_segment(c, rec)),
                None => emitted is None,
            }),
            None => if spec_seen_contains(seen0, fp) {
                mid == records0 && seen_mid == seen0 && emitted is None
            } else {
                emitted == Some(spec_novel_segment(c)) && seen_mid == seen0.push(fp)
                    && exists|id: i64|
                    #![auto]
                    (forall|j: int| 0 <= j < records0.len() ==> records0[j].id < id) && mid
                        == records0.push(spec_new_record(id, c, fp))
            },
        },
    }
}

/// One processed candidate in front of an already-related tail yields a
/// related whole.
proof fn lemma_step(
    records0: Seq<StoredFingerprintRecord>,
    cands: Seq<Segment>,
    seen0: Seq<SegmentFingerprint>,
    threshold: u64,
    emitted: Option<Segment>,
    mid: Seq<StoredFingerprintRecord>,
    seen_mid: Seq<SegmentFingerprint>,
    tail: Seq<Segment>,
    records1: Seq<StoredFingerprintRecord>,
)
    requires
        cands.len() > 0,
        step_rel(records0, cands[0], seen0, threshold, emitted, mid, seen_mid),
        resolve_rel(mid, cands.drop_first(), seen_mid, threshold, tail, records1),
    ensures
        resolve_rel(
            records0,
            cands,
            seen0,
            threshold,
            match emitted {
                Some(s) => seq![s] + tail,
                None => tail,
            },
            records1,
        ),
{
    let c = cands[0];
    let out = match emitted {
        Some(s) => seq![s] + tail,
        None => tail,
    };
    match emitted {
        Some(s) => {
            assert(out.drop_first() =~= tail);
            assert(out[0] == s);
        },
        None => {},
    }
    match c.fingerprint {
        None => {},
        Some(fp) => match spec_find_similar(records0, fp, threshold) {
            Some(id) => {
                assert(records_bumped(records0, mid, id) && match spec_find_by_id(records0, id) {
                    Some(rec) => out.len() >= 1 && out[0] == spec_resolved_segment(c, rec)
                        && resolve_rel(mid, cands.drop_first(), seen0, threshold, out.drop_first(), records1),
                    None => resolve_rel(mid, cands.drop_first(), seen0, threshold, out, records1),
                });
            },
            None => {
                if !spec_seen_contains(seen0, fp) {
                    let id = choose|id: i64|
                        #![auto]
                        (forall|j: int| 0 <= j < records0.len() ==> records0[j].id < id) && mid
                            == records0.push(spec_new_record(id, c, fp));
                    assert((forall|j: int| 0 <= j < records0.len() ==> records0[j].id < id)
                        && out.len() >= 1 && out[0] == spec_novel_segment(c) && resolve_rel(
                        records0.push(spec_new_record(id, c, fp)),
                        cands.drop_first(),
                        seen0.push(fp),
                        threshold,
                        out.drop_first(),
                        records1,
                    ));
                }
            },
        },
    }
}

/// What in-run deduplication alone yields, when no store is configured:
/// candidates without a fingerprint are dropped, and of candidates whose
/// fingerprints are equal under the tolerant equality only the first is
/// kept, with its locally inferred kind.
pub open spec fn spec_dedup(cands: Seq<Segment>, seen: Seq<SegmentFingerprint>) -> Seq<Segment>
    decreases cands.len(),
{
    if cands.len() == 0 {
        Seq::empty()
    } else {
        let c = cands[0];
        let rest = cands.drop_first();
        match c.fingerprint {
            None => spec_dedup(rest, seen),
            Some(fp) => if spec_seen_contains(seen, fp) {
                spec_dedup(rest, seen)
            } else {
                seq![spec_novel_segment(c)] + spec_dedup(rest, seen.push(fp))
            },
        }
    }
}

/// Resolution is idempotent across runs: a candidate whose fingerprint's
/// exact duration and hash pair were stored by an earlier run comes out
/// of the resolution as a duplicate of a stored record, re-tagged to
/// that record's kind, and the record's occurrence count grows by
/// exactly one (as long as it has room) — for any threshold up to
/// perfect similarity.
pub proof fn lemma_repeat_candidate_is_marked(
    records: Seq<StoredFingerprintRecord>,
    c: Segment,
    fp: SegmentFingerprint,
    threshold: u64,
    out: Seq<Segment>,
    records1: Seq<StoredFingerprintRecord>,
)
    requires
        crate::db::ids_strictly_increasing(records),
        c.fingerprint == Some(fp),
        threshold <= crate::SCORE_ONE,
        exists|j: int|
            0 <= j < records.len() && (#[trigger] records[j]).duration_us == fp.duration_us
                && records[j].audio_hash == fp.audio_hash && records[j].video_hash
                == fp.video_hash,
        resolve_rel(records, seq![c], Seq::empty(), threshold, out, records1),
    ensures
        out.len() == 1,
        out[0].duplicate_of is Some,
        exists|k: int|
            #![auto]
            0 <= k < records.len() && out[0].duplicate_of == Some(records[k].id) && out[0].kind
                == records[k].kind && (records[k].occurrence_count < i64::MAX ==> records1
                == records.update(
                k,
                StoredFingerprintRecord {
                    occurrence_count: (records[k].occurrence_count + 1) as i64,
                    ..records[k]
                },
            )),
{
    crate::db::lemma_stored_fingerprint_is_found(records, fp, threshold);
    crate::db::lemma_found_id_is_stored(records, fp, threshold);
    let id = spec_find_similar(records, fp, threshold)->0;
    let k = choose|k: int| 0 <= k < records.len() && (#[trigger] records[k]).id == id;
    let rec = records[k];
    assert(spec_find_by_id(records, id) == Some(rec)) by {
        assert(exists|j: int| 0 <= j < records.len() && records[j].id == id);
        let kk = choose|j: int| 0 <= j < records.len() && records[j].id == id;
        if kk != k {
            assert(records[kk].id != records[k].id);
        }
    }

    let cands = seq![c];
    assert(cands[0] == c);
    assert(cands.drop_first() =~= Seq::<Segment>::empty());
    let mid = choose|mid: Seq<StoredFingerprintRecord>|
        #![auto]
        records_bumped(records, mid, id) && match spec_find_by_id(records, id) {
            Some(rec) => out.len() >= 1 && out[0] == spec_resolved_segment(c, rec) && resolve_rel(
                mid,
                cands.drop_first(),
                Seq::empty(),
                threshold,
                out.drop_first(),
                records1,
            ),
            None => resolve_rel(mid, cands.drop_first(), Seq::empty(), threshold, out, records1),
        };
    assert(out.drop_first() == Seq::<Segment>::empty() && records1 == mid);
    assert(out.len() == 1);
    assert(out[0] == spec_resolved_segment(c, rec));
    if rec.occurrence_count < i64::MAX {
        let bumped = StoredFingerprintRecord {
            occurrence_count: (rec.occurrence_count + 1) as i64,
            ..rec
        };
        assert forall|j: int| 0 <= j < records.len() && j != k implies records1[j] == records[j] by {
            assert(records[j].id != records[k].id);
        }
        assert(records1 =~= records.update(k, bumped));
    }
    assert(0 <= k < records.len() && out[0].duplicate_of == Some(records[k].id) && out[0].kind
        == records[k].kind && (records[k].occurrence_count < i64::MAX ==> records1
        == records.update(
        k,
        StoredFingerprintRecord {
            occurrence_count: (records[k].occurrence_count + 1) as i64,
            ..records[k]
        },
    )));
}

/// Whether the uniqueness set already holds an equal fingerprint.
fn seen_contains(seen: &Vec<SegmentFingerprint>, fp: &SegmentFingerprint) -> (r: bool)
    ensures
        r == spec_seen_contains(seen@, *fp),
{
    let mut i: usize = 0;
    while i < seen.len()
        invariant
            i <= seen@.len(),
            forall|k: int| 0 <= k < i ==> !spec_fingerprint_eq(#[trigger] seen@[k], *fp),
        decreases seen@.len() - i,
    {
        let s = seen[i];
        if s.equals(fp) {
            return true;
        }
        i = i + 1;
    }
    false
}

/// Deduplicates fingerprinted candidates within one run, without a
/// persistent store.
pub fn dedup_segments(candidates: &Vec<Segment>) -> (r: Vec<Segment>)
    ensures
        r@ == spec_dedup(candidates@, Seq::empty()),
{
    let ghost full = spec_dedup(candidates@, Seq::empty());
    let mut out: Vec<Segment> = Vec::new();
    let mut seen: Vec<SegmentFingerprint> = Vec::new();
    proof {
        assert(candidates@.skip(0) =~= candidates@);
        assert(Seq::<Segment>::empty() + full =~= full);
    }
    let mut i: usize = 0;
    while i < candidates.len()
        invariant
            i <= candidates@.len(),
            full == spec_dedup(candidates@, Seq::empty()),
            out@ + spec_dedup(candidates@.skip(i as int), seen@) == full,
        decreases candidates@.len() - i,
    {
        let c = candidates[i];
        proof {
            assert(candidates@.skip(i as int)[0] == candidates@[i as int]);
            assert(candidates@.skip(i as int).drop_first() =~= candidates@.skip(i as int + 1));
        }
        match c.fingerprint {
            None => {},
            Some(fp) => {
                if !seen_contains(&seen, &fp) {
                    out.push(Segment { duplicate_of: None, ..c });
                    seen.push(fp);
                    proof {
                        assert(out@ + spec_dedup(candidates@.skip(i as int + 1), seen@) =~= full);
                    }
                }
            },
        }
        i = i + 1;
    }
    proof {
        assert(candidates@.skip(candidates@.len() as int) =~= Seq::<Segment>::empty());
        assert(out@ + Seq::<Segment>::empty() =~= out@);
    }
    out
}

/// Resolves classified, fingerprinted candidates against the persistent
/// store, from candidate `i` on: a similarity hit bumps the stored
/// record's occurrence count and re-tags the segment to the stored kind;
/// a miss consults the in-run uniqueness set and persists what is novel.
fn resolve_from(
    db: &mut FingerprintDb,
    candidates: &Vec<Segment>,
    i: usize,
    seen: &mut Vec<SegmentFingerprint>,
    threshold: u64,
) -> (r: Result<Vec<Segment>, StoreError>)
    requires
        old(db).wf(),
        i <= candidates@.len(),
        forall|j: int|
            0 <= j < candidates@.len() ==> match (#[trigger] candidates@[j]).fingerprint {
                Some(fp) => fp.duration_us <= MAX_TIME_US,
                None => true,
            },
    ensures
        final(db).wf(),
        r matches Ok(out) ==> resolve_rel(
            old(db).records(),
            candidates@.skip(i as int),
            old(seen)@,
            threshold,
            out@,
            final(db).records(),
        ),
    decreases candidates@.len() - i,
{
    if i == candidates.len() {
        proof {
            assert(candidates@.skip(i as int) =~= Seq::<Segment>::empty());
        }
        return Ok(Vec::new());
    }
    let ghost records0 = db.records();
    let ghost seen0 = seen@;
    let c = candidates[i];
    proof {
        assert(candidates@.skip(i as int)[0] == candidates@[i as int]);
        assert(candidates@.skip(i as int).drop_first() =~= candidates@.skip(i as int + 1));
    }
    let mut emitted: Option<Segment> = None;
    match c.fingerprint {
        None => {},
        Some(fp) => {
            let hit = match db.find_similar_fingerprint(&fp, threshold) {
                Ok(hit) => hit,
                Err(e) => {
                    return Err(e);
                },
            };
            match hit {
                Some(id) => {
                    let kindopt = match db.get_fingerprint_type(id) {
                        Ok(kindopt) => kindopt,
                        Err(e) => {
                            return Err(e);
                        },
                    };
                    match db.update_fingerprint_occurrence(id) {
                        Ok(()) => {},
                        Err(e) => {
                            return Err(e);
                        },
                    };
                    match kindopt {
                        Some(kind) => {
                            emitted = Some(Segment { kind, duplicate_of: Some(id), ..c });
                        },
                        None => {},
                    }
                    proof {
                        assert(records_bumped(records0, db.records(), id));
                    }
                },
                None => {
                    if !seen_contains(seen, &fp) {
                        let id = match db.store_fingerprint(&fp, c.local_kind) {
                            Ok(id) => id,
                            Err(e) => {
                                return Err(e);
                            },
                        };
                        seen.push(fp);
                        emitted = Some(Segment { duplicate_of: None, ..c });
                        proof {
                            assert(db.records() == records0.push(spec_new_record(id, c, fp)));
                        }
                    }
                },
            }
        },
    }
    proof {
        assert(step_rel(records0, c, seen0, threshold, emitted, db.records(), seen@));
    }
    let ghost mid = db.records();
    let ghost seen_mid = seen@;
    let rest = match resolve_from(db, candidates, i + 1, seen, threshold) {
        Ok(rest) => rest,
        Err(e) => {
            return Err(e);
        },
    };
    let mut out = rest;
    match emitted {
        Some(seg) => {
            out.insert(0, seg);
            proof {
                assert(out@ =~= seq![seg] + rest@);
            }
        },
        None => {},
    }
    proof {
        lemma_step(
            records0,
            candidates@.skip(i as int),
            seen0,
            threshold,
            emitted,
            mid,
            seen_mid,
            rest@,
            db.records(),
        );
    }
    Ok(out)
}

/// Resolves the classified, fingerprinted candidates of one run against
/// the persistent store, in order.  On a similarity hit the segment is
/// marked with `duplicate_of` and re-tagged to the store's recorded
/// kind, and the record's occurrence count grows by one; on a miss the
/// in-run uniqueness set suppresses repeats, and a genuinely novel
/// fingerprint is persisted and the segment keeps its local kind.  A
/// store failure is fatal and ends the run.
pub fn resolve_with_store(db: &mut FingerprintDb, candidates: &Vec<Segment>, threshold: u64) -> (r:
    Result<Vec<Segment>, StoreError>)
    requires
        old(db).wf(),
        forall|j: int|
            0 <= j < candidates@.len() ==> match (#[trigger] candidates@[j]).fingerprint {
                Some(fp) => fp.duration_us <= MAX_TIME_US,
                None => true,
            },
    ensures
        final(db).wf(),
        r matches Ok(out) ==> resolve_rel(
            old(db).records(),
            candidates@,
            Seq::empty(),
            threshold,
            out@,
            final(db).records(),
        ),
{
    let mut seen: Vec<SegmentFingerprint> = Vec::new();
    let r = resolve_from(db, candidates, 0, &mut seen, threshold);
    proof {
        assert(candidates@.skip(0) =~= candidates@);
    }
    r
}

/// The minutes, whole seconds and centiseconds of a timestamp, the parts
/// a display formats as `MM:SS.CC`.
pub fn timestamp_parts(time_us: u64) -> (r: (u64, u64, u64))
    ensures
        r.0 == time_us / 60_000_000,
        r.1 == (time_us / 1_000_000) % 60,
        r.2 == (time_us % 1_000_000) / 10_000,
{
    (time_us / 60_000_000, (time_us / 1_000_000) % 60, (time_us % 1_000_000) / 10_000)
}

/// Whether the transcoder's version banner names a supported major
/// version; anything else is a compatibility failure before any
/// detection work begins.
pub fn version_supported(version_text: &str) -> (r: bool)
    ensures
        r == spec_contains(version_text.spec_bytes(), "ffmpeg version 4.".spec_bytes()),
{
    contains_marker(version_text.as_bytes(), "ffmpeg version 4.".as_bytes())
}

/// The container formats extracted segments can be written to.
#[derive(Debug, Clone, PartialEq, Eq, Structural)]
pub enum OutputFormat {
    Same,
    MP4,
    WebM,
    MKV,
    MOV,
}

/// The file extension extracted segments get: the chosen format's own,
/// or for `Same` the input's extension, falling back to `mp4` when the
/// input has none.
pub fn get_output_extension(input_extension: Option<&str>, output_format: &OutputFormat) -> (r:
    String)
    ensures
        r@ == match *output_format {
            OutputFormat::Same => match input_extension {
                Some(e) => e@,
                None => "mp4"@,
            },
            OutputFormat::MP4 => "mp4"@,
            OutputFormat::WebM => "webm"@,
            OutputFormat::MKV => "mkv"@,
            OutputFormat::MOV => "mov"@,
        },
{
    match output_format {
        OutputFormat::Same => match input_extension {
            Some(e) => e.to_owned(),
            None => "mp4".to_owned(),
        },
        OutputFormat::MP4 => "mp4".to_owned(),
        OutputFormat::WebM => "webm".to_owned(),
        OutputFormat::MKV => "mkv".to_owned(),
        OutputFormat::MOV => "mov".to_owned(),
    }
}

} // verus!
