use vstd::prelude::*;

use crate::classify::SegmentKind;
use crate::fingerprint::spec_abs_diff;
use crate::fingerprint::spec_similarity;
use crate::fingerprint::similarity;
use crate::fingerprint::SegmentFingerprint;
use crate::fingerprint::SIMILARITY_DURATION_WINDOW_US;
use crate::MAX_TIME_US;
use crate::SCORE_ONE;

verus! {

#[verifier::external_type_specification]
#[verifier::external_body]
pub struct ExConnection(rusqlite::Connection);

#[verifier::external_type_specification]
#[verifier::external_body]
pub struct ExRusqliteError(rusqlite::Error);

/// A storage failure is fatal for the run; it carries the underlying
/// store error for the caller to report.
#[derive(Debug)]
pub enum StoreError {
    Storage(rusqlite::Error),
}

/// One persisted fingerprint: store-assigned identifier, classification,
/// duration and hash pair, and how often it has been seen.  The store
/// also keeps first-seen and last-seen timestamps; the library never
/// reads those, so they stay out of this model.
#[derive(Clone, Copy, Debug, PartialEq, Eq, Structural)]
pub struct StoredFingerprintRecord {
    pub id: i64,
    pub kind: SegmentKind,
    pub duration_us: u64,
    pub audio_hash: u64,
    pub video_hash: u64,
    pub occurrence_count: i64,
}

/// The rows of the store behind a connection, in ascending identifier
/// order.  Named so that the trusted wrappers below can say what each
/// call does to the table.
pub uninterp spec fn db_records(conn: rusqlite::Connection) -> Seq<StoredFingerprintRecord>;

/// Identifiers are unique and ascending along the row sequence.
pub open spec fn ids_strictly_increasing(records: Seq<StoredFingerprintRecord>) -> bool {
    forall|i: int, j: int| 0 <= i < j < records.len() ==> records[i].id < records[j].id
}

/// The record carrying `id`, if one exists.
pub open spec fn spec_find_by_id(records: Seq<StoredFingerprintRecord>, id: i64) -> Option<
    StoredFingerprintRecord,
> {
    if exists|j: int| 0 <= j < records.len() && records[j].id == id {
        Some(records[choose|j: int| 0 <= j < records.len() && records[j].id == id])
    } else {
        None
    }
}

/// Whether a stored record falls in the half-second duration window
/// around a probe fingerprint.
pub open spec fn spec_in_window(rec: StoredFingerprintRecord, fp: SegmentFingerprint) -> bool {
    spec_abs_diff(rec.duration_us, fp.duration_us) < SIMILARITY_DURATION_WINDOW_US
}

/// The fingerprint a stored record stands for.
pub open spec fn rec_fingerprint(rec: StoredFingerprintRecord) -> SegmentFingerprint {
    SegmentFingerprint {
        duration_us: rec.duration_us,
        audio_hash: rec.audio_hash,
        video_hash: rec.video_hash,
    }
}

/// One pass over candidate rows, keeping the best hit so far: a row
/// replaces the holder only when its similarity reaches the threshold
/// and strictly exceeds the holder's, so ties keep the first encountered.
pub open spec fn spec_scan(
    rows: Seq<StoredFingerprintRecord>,
    fp: SegmentFingerprint,
    threshold: u64,
    best: Option<(i64, int)>,
) -> Option<(i64, int)>
    decreases rows.len(),
{
    if rows.len() == 0 {
        best
    } else {
        let sim = spec_similarity(fp, rec_fingerprint(rows[0]));
        let keep = match best {
            None => sim >= threshold,
            Some(b) => sim >= threshold && sim > b.1,
        };
        spec_scan(
            rows.drop_first(),
            fp,
            threshold,
            if keep {
                Some((rows[0].id, sim))
            } else {
                best
            },
        )
    }
}

/// What the similarity search returns: among the stored records within
/// half a second of the probe's duration, the identifier of the one with
/// the highest similarity at or above the threshold, ties keeping the
/// first encountered; nothing when none reaches the threshold.
pub open spec fn spec_find_similar(
    records: Seq<StoredFingerprintRecord>,
    fp: SegmentFingerprint,
    threshold: u64,
) -> Option<i64> {
    match spec_scan(records.filter(|rec: StoredFingerprintRecord| spec_in_window(rec, fp)), fp, threshold, None) {
        Some(b) => Some(b.0),
        None => None,
    }
}

/// Relies on rusqlite's `Connection::open`: opens the store file at
/// `path`, creating it when absent.  Row identifiers come from an
/// `INTEGER PRIMARY KEY` column, so they are unique, and this model
/// keeps the rows in ascending identifier order.
#[verifier::external_body]
fn open_connection(path: &str) -> (r: Result<rusqlite::Connection, rusqlite::Error>)
    ensures
        r matches Ok(conn) ==> ids_strictly_increasing(db_records(conn)),
{
    rusqlite::Connection::open(path)
}

/// Relies on rusqlite's `Connection::execute` running `CREATE TABLE IF
/// NOT EXISTS`: brings the fingerprints table into being when absent and
/// never touches existing rows.
#[verifier::external_body]
fn create_schema(conn: &rusqlite::Connection) -> (r: Result<(), rusqlite::Error>) {
    match conn.execute(
        "CREATE TABLE IF NOT EXISTS fingerprints (
            id INTEGER PRIMARY KEY,
            segment_type TEXT NOT NULL,
            duration_us INTEGER NOT NULL,
            audio_hash INTEGER NOT NULL,
            video_hash INTEGER NOT NULL,
            first_seen DATETIME DEFAULT CURRENT_TIMESTAMP,
            last_seen DATETIME DEFAULT CURRENT_TIMESTAMP,
            occurrence_count INTEGER DEFAULT 1
        )",
        [],
    ) {
        Ok(_) => Ok(()),
        Err(e) => Err(e),
    }
}

/// Builds the record a row's columns denote; the second column flags a
/// station id, any other value means a commercial.
fn record_from_columns(id: i64, station: i64, duration_us: i64, audio: i64, video: i64, count: i64) -> (r:
    StoredFingerprintRecord)
    ensures
        r == (StoredFingerprintRecord {
            id,
            kind: if station != 0 {
                SegmentKind::StationId
            } else {
                SegmentKind::Commercial
            },
            duration_us: duration_us as u64,
            audio_hash: audio as u64,
            video_hash: video as u64,
            occurrence_count: count,
        }),
{
    StoredFingerprintRecord {
        id,
        kind: if station != 0 {
            SegmentKind::StationId
        } else {
            SegmentKind::Commercial
        },
        duration_us: duration_us as u64,
        audio_hash: audio as u64,
        video_hash: video as u64,
        occurrence_count: count,
    }
}

/// Relies on rusqlite's `Connection::query_row` running `INSERT ...
/// RETURNING id`: appends one row with an occurrence count of one and
/// hands back its store-assigned identifier.  With rows never deleted,
/// SQLite assigns each new row an identifier above every one in use.  A
/// failed insert leaves the table as it was.
#[verifier::external_body]
fn insert_row(
    conn: &mut rusqlite::Connection,
    kind: SegmentKind,
    duration_us: u64,
    audio_hash: u64,
    video_hash: u64,
) -> (r: Result<i64, rusqlite::Error>)
    requires
        duration_us <= 0x7fff_ffff_ffff_ffff,
    ensures
        r matches Ok(id) ==> db_records(*final(conn)) == db_records(*old(conn)).push(
            StoredFingerprintRecord {
                id,
                kind,
                duration_us,
                audio_hash,
                video_hash,
                occurrence_count: 1,
            },
        ) && forall|j: int|
            0 <= j < db_records(*old(conn)).len() ==> db_records(*old(conn))[j].id < id,
        r is Err ==> db_records(*final(conn)) == db_records(*old(conn)),
{
    let label = match kind {
        SegmentKind::Commercial => "commercial",
        SegmentKind::StationId => "station_id",
    };
    conn.query_row(
        "INSERT INTO fingerprints (segment_type, duration_us, audio_hash, video_hash)
         VALUES (?1, ?2, ?3, ?4) RETURNING id",
        (label, duration_us as i64, audio_hash as i64, video_hash as i64),
        |row| row.get(0),
    )
}

/// Relies on rusqlite's `Statement::query_map` over a SELECT constrained
/// to a duration window and ordered by identifier: hands back exactly
/// the rows whose duration lies in `[lo_us, hi_us]`, in store order.
#[verifier::external_body]
fn query_window(conn: &rusqlite::Connection, lo_us: u64, hi_us: u64) -> (r: Result<
    Vec<StoredFingerprintRecord>,
    rusqlite::Error,
>)
    requires
        lo_us <= hi_us <= 0x7fff_ffff_ffff_ffff,
    ensures
        r matches Ok(rows) ==> rows@ == db_records(*conn).filter(
            |rec: StoredFingerprintRecord| lo_us <= rec.duration_us <= hi_us,
        ),
{
    let mut stmt = conn.prepare(
        "SELECT id, (segment_type = 'station_id'), duration_us, audio_hash, video_hash, occurrence_count
         FROM fingerprints WHERE duration_us BETWEEN ?1 AND ?2 ORDER BY id",
    )?;
    let rows = stmt.query_map((lo_us as i64, hi_us as i64), |row| {
        Ok(record_from_columns(row.get(0)?, row.get(1)?, row.get(2)?, row.get(3)?, row.get(4)?, row.get(5)?))
    })?;
    rows.collect()
}

/// Relies on rusqlite's `Connection::execute` running an UPDATE: adds
/// one to the occurrence count of the row carrying `id` and refreshes
/// its last-seen timestamp; every other row stays, and every row keeps
/// its identifier.  A failed update leaves the table as it was.
#[verifier::external_body]
fn bump_row(conn: &mut rusqlite::Connection, id: i64) -> (r: Result<(), rusqlite::Error>)
    ensures
        r is Ok ==> db_records(*final(conn)).len() == db_records(*old(conn)).len(),
        r is Ok ==> forall|j: int|
            0 <= j < db_records(*old(conn)).len() && db_records(*old(conn))[j].id != id
                ==> db_records(*final(conn))[j] == db_records(*old(conn))[j],
        r is Ok ==> forall|j: int|
            0 <= j < db_records(*old(conn)).len() && db_records(*old(conn))[j].id == id
                && db_records(*old(conn))[j].occurrence_count < i64::MAX ==> db_records(
                *final(conn),
            )[j] == (StoredFingerprintRecord {
                occurrence_count: (db_records(*old(conn))[j].occurrence_count + 1) as i64,
                ..db_records(*old(conn))[j]
            }),
        r is Ok ==> forall|j: int|
            0 <= j < db_records(*old(conn)).len() ==> db_records(*final(conn))[j].id == db_records(
                *old(conn),
            )[j].id,
        r is Err ==> db_records(*final(conn)) == db_records(*old(conn)),
{
    match conn.execute(
        "UPDATE fingerprints
         SET occurrence_count = occurrence_count + 1, last_seen = CURRENT_TIMESTAMP
         WHERE id = ?1",
        (id,),
    ) {
        Ok(_) => Ok(()),
        Err(e) => Err(e),
    }
}

/// Relies on rusqlite's `Connection::query_row` over a SELECT by
/// identifier: hands back the row carrying `id`, or nothing when no such
/// row exists.
#[verifier::external_body]
fn fetch_row(conn: &rusqlite::Connection, id: i64) -> (r: Result<
    Option<StoredFingerprintRecord>,
    rusqlite::Error,
>)
    ensures
        r matches Ok(opt) ==> match opt {
            Some(rec) => rec.id == id && exists|j: int|
                0 <= j < db_records(*conn).len() && db_records(*conn)[j] == rec,
            None => forall|j: int|
                0 <= j < db_records(*conn).len() ==> db_records(*conn)[j].id != id,
        },
{
    let r = conn.query_row(
        "SELECT id, (segment_type = 'station_id'), duration_us, audio_hash, video_hash, occurrence_count
         FROM fingerprints WHERE id = ?1",
        (id,),
        |row| {
            Ok(record_from_columns(row.get(0)?, row.get(1)?, row.get(2)?, row.get(3)?, row.get(4)?, row.get(5)?))
        },
    );
    match r {
        Ok(rec) => Ok(Some(rec)),
        Err(rusqlite::Error::QueryReturnedNoRows) => Ok(None),
        Err(e) => Err(e),
    }
}

/// Equal predicates pick out equal subsequences.
proof fn lemma_filter_equiv<A>(s: Seq<A>, p1: spec_fn(A) -> bool, p2: spec_fn(A) -> bool)
    requires
        forall|i: int| 0 <= i < s.len() ==> p1(#[trigger] s[i]) == p2(s[i]),
    ensures
        s.filter(p1) == s.filter(p2),
    decreases s.len(),
{
    reveal(Seq::filter);
    if s.len() > 0 {
        assert(forall|i: int| 0 <= i < s.len() - 1 ==> s.drop_last()[i] == s[i]);
        lemma_filter_equiv(s.drop_last(), p1, p2);
    }
}

/// A scan that comes back empty saw no qualifying row and held nothing.
proof fn lemma_scan_finds(
    rows: Seq<StoredFingerprintRecord>,
    fp: SegmentFingerprint,
    threshold: u64,
    best: Option<(i64, int)>,
)
    ensures
        spec_scan(rows, fp, threshold, best) is None ==> (best is None && forall|j: int|
            0 <= j < rows.len() ==> spec_similarity(fp, rec_fingerprint(#[trigger] rows[j]))
                < threshold),
    decreases rows.len(),
{
    if rows.len() > 0 {
        let sim = spec_similarity(fp, rec_fingerprint(rows[0]));
        let keep = match best {
            None => sim >= threshold,
            Some(b) => sim >= threshold && sim > b.1,
        };
        let next = if keep {
            Some((rows[0].id, sim))
        } else {
            best
        };
        lemma_scan_finds(rows.drop_first(), fp, threshold, next);
        assert(forall|j: int| 1 <= j < rows.len() ==> rows.drop_first()[j - 1] == rows[j]);
    }
}

/// Everything a filter keeps was in the sequence.
proof fn lemma_filter_subset<A>(s: Seq<A>, pred: spec_fn(A) -> bool)
    ensures
        forall|i: int|
            0 <= i < s.filter(pred).len() ==> s.contains(#[trigger] s.filter(pred)[i]),
    decreases s.len(),
{
    reveal(Seq::filter);
    if s.len() > 0 {
        lemma_filter_subset(s.drop_last(), pred);
        assert forall|i: int|
            0 <= i < s.filter(pred).len() implies s.contains(#[trigger] s.filter(pred)[i]) by {
            let f = s.filter(pred);
            let fd = s.drop_last().filter(pred);
            if i < fd.len() {
                assert(fd[i] == f[i]);
                let j = choose|j: int| 0 <= j < s.drop_last().len() && s.drop_last()[j] == fd[i];
                assert(s[j] == fd[i]);
            } else {
                assert(f[i] == s.last());
            }
        }
    }
}

/// A winner the scan did not start with is the identifier of a scanned row.
proof fn lemma_scan_result_is_a_row(
    rows: Seq<StoredFingerprintRecord>,
    fp: SegmentFingerprint,
    threshold: u64,
    best: Option<(i64, int)>,
)
    ensures
        match spec_scan(rows, fp, threshold, best) {
            Some(b) => best == Some(b) || exists|j: int| 0 <= j < rows.len() && rows[j].id == b.0,
            None => true,
        },
    decreases rows.len(),
{
    if rows.len() > 0 {
        let sim = spec_similarity(fp, rec_fingerprint(rows[0]));
        let keep = match best {
            None => sim >= threshold,
            Some(b) => sim >= threshold && sim > b.1,
        };
        let next = if keep {
            Some((rows[0].id, sim))
        } else {
            best
        };
        lemma_scan_result_is_a_row(rows.drop_first(), fp, threshold, next);
        assert(forall|j: int| 1 <= j < rows.len() ==> rows.drop_first()[j - 1] == rows[j]);
    }
}

/// An identifier the similarity search hands back always belongs to a
/// stored record.
pub proof fn lemma_found_id_is_stored(
    records: Seq<StoredFingerprintRecord>,
    fp: SegmentFingerprint,
    threshold: u64,
)
    ensures
        match spec_find_similar(records, fp, threshold) {
            Some(id) => exists|k: int| 0 <= k < records.len() && (#[trigger] records[k]).id == id,
            None => true,
        },
{
    let pred = |rec: StoredFingerprintRecord| spec_in_window(rec, fp);
    let window = records.filter(pred);
    lemma_scan_result_is_a_row(window, fp, threshold, None);
    lemma_filter_subset(records, pred);
    match spec_find_similar(records, fp, threshold) {
        Some(id) => {
            let j = choose|j: int| 0 <= j < window.len() && window[j].id == id;
            assert(records.contains(window[j]));
            let k = choose|k: int| 0 <= k < records.len() && records[k] == window[j];
            assert(records[k].id == id);
        },
        None => {},
    }
}

/// A fingerprint whose exact duration and hash pair are already stored
/// is always found again by the similarity search, whatever else the
/// store holds, for any threshold up to perfect similarity.
pub proof fn lemma_stored_fingerprint_is_found(
    records: Seq<StoredFingerprintRecord>,
    fp: SegmentFingerprint,
    threshold: u64,
)
    requires
        threshold <= SCORE_ONE,
        exists|j: int|
            0 <= j < records.len() && (#[trigger] records[j]).duration_us == fp.duration_us
                && records[j].audio_hash == fp.audio_hash && records[j].video_hash
                == fp.video_hash,
    ensures
        spec_find_similar(records, fp, threshold) is Some,
{
    broadcast use vstd::seq_lib::group_filter_ensures;

    let j = choose|j: int|
        0 <= j < records.len() && (#[trigger] records[j]).duration_us == fp.duration_us
            && records[j].audio_hash == fp.audio_hash && records[j].video_hash == fp.video_hash;
    let rec = records[j];
    let pred = |rec: StoredFingerprintRecord| spec_in_window(rec, fp);
    let window = records.filter(pred);
    assert(pred(rec));
    assert(window.contains(rec));
    let w = choose|w: int| 0 <= w < window.len() && window[w] == rec;
    assert(rec_fingerprint(rec) == fp);
    crate::fingerprint::lemma_self_similarity(fp);
    lemma_scan_finds(window, fp, threshold, None);
    if spec_scan(window, fp, threshold, None) is None {
        assert(spec_similarity(fp, rec_fingerprint(window[w])) < threshold);
    }
}

/// The persistent fingerprint store: one SQLite table of fingerprints
/// with occurrence tracking, opened once per pipeline invocation.
pub struct FingerprintDb {
    conn: rusqlite::Connection,
}

impl FingerprintDb {
    /// The rows of this store, in ascending identifier order.
    pub closed spec fn records(&self) -> Seq<StoredFingerprintRecord> {
        db_records(self.conn)
    }

    /// Identifiers stay unique and ascending.
    pub open spec fn wf(&self) -> bool {
        ids_strictly_increasing(self.records())
    }

    /// Opens (or creates) the store at `path` and makes sure the
    /// fingerprints table exists.  Store I/O failures are fatal for the
    /// run and surface as `StoreError`.
    pub fn new(path: &str) -> (r: Result<FingerprintDb, StoreError>)
        ensures
            r matches Ok(db) ==> db.wf(),
    {
        let conn = match open_connection(path) {
            Ok(c) => c,
            Err(e) => {
                return Err(StoreError::Storage(e));
            },
        };
        match create_schema(&conn) {
            Ok(()) => Ok(FingerprintDb { conn }),
            Err(e) => Err(StoreError::Storage(e)),
        }
    }

    /// Inserts a new record for `fp` with an occurrence count of one and
    /// returns its store-assigned identifier.
    pub fn store_fingerprint(&mut self, fp: &SegmentFingerprint, kind: SegmentKind) -> (r: Result<
        i64,
        StoreError,
    >)
        requires
            old(self).wf(),
            fp.duration_us <= MAX_TIME_US,
        ensures
            final(self).wf(),
            r matches Ok(id) ==> final(self).records() == old(self).records().push(
                StoredFingerprintRecord {
                    id,
                    kind,
                    duration_us: fp.duration_us,
                    audio_hash: fp.audio_hash,
                    video_hash: fp.video_hash,
                    occurrence_count: 1,
                },
            ) && forall|j: int|
                0 <= j < old(self).records().len() ==> old(self).records()[j].id < id,
            r is Err ==> final(self).records() == old(self).records(),
    {
        match insert_row(&mut self.conn, kind, fp.duration_us, fp.audio_hash, fp.video_hash) {
            Ok(id) => Ok(id),
            Err(e) => Err(StoreError::Storage(e)),
        }
    }

    /// Counts one more occurrence of the record carrying `id` and
    /// refreshes its last-seen timestamp.
    pub fn update_fingerprint_occurrence(&mut self, id: i64) -> (r: Result<(), StoreError>)
        requires
            old(self).wf(),
        ensures
            final(self).wf(),
            r is Ok ==> final(self).records().len() == old(self).records().len(),
            r is Ok ==> forall|j: int|
                0 <= j < old(self).records().len() && old(self).records()[j].id != id ==> final(self).records()[j] == old(self).records()[j],
            r is Ok ==> forall|j: int|
                0 <= j < old(self).records().len() && old(self).records()[j].id == id && old(self).records()[j].occurrence_count < i64::MAX ==> final(self).records()[j]
                    == (StoredFingerprintRecord {
                    occurrence_count: (old(self).records()[j].occurrence_count + 1) as i64,
                    ..old(self).records()[j]
                }),
            r is Ok ==> forall|j: int|
                0 <= j < old(self).records().len() ==> final(self).records()[j].id == old(self).records()[j].id,
            r is Err ==> final(self).records() == old(self).records(),
    {
        match bump_row(&mut self.conn, id) {
            Ok(()) => Ok(()),
            Err(e) => Err(StoreError::Storage(e)),
        }
    }

    /// The whole record carrying `id`, if the store holds one.
    pub fn get_fingerprint_record(&self, id: i64) -> (r: Result<
        Option<StoredFingerprintRecord>,
        StoreError,
    >)
        requires
            self.wf(),
        ensures
            r matches Ok(opt) ==> opt == spec_find_by_id(self.records(), id),
    {
        let opt = match fetch_row(&self.conn, id) {
            Ok(opt) => opt,
            Err(e) => {
                return Err(StoreError::Storage(e));
            },
        };
        proof {
            match opt {
                Some(rec) => {
                    let j = choose|j: int|
                        0 <= j < self.records().len() && self.records()[j] == rec;
                    let k = choose|k: int|
                        0 <= k < self.records().len() && self.records()[k].id == id;
                    if j != k {
                        assert(self.records()[j].id != self.records()[k].id);
                    }
                },
                None => {},
            }
        }
        Ok(opt)
    }

    /// The persisted classification of the record carrying `id`.
    pub fn get_fingerprint_type(&self, id: i64) -> (r: Result<Option<SegmentKind>, StoreError>)
        requires
            self.wf(),
        ensures
            r matches Ok(opt) ==> opt == match spec_find_by_id(self.records(), id) {
                Some(rec) => Some(rec.kind),
                None => None::<SegmentKind>,
            },
    {
        match self.get_fingerprint_record(id) {
            Ok(Some(rec)) => Ok(Some(rec.kind)),
            Ok(None) => Ok(None),
            Err(e) => Err(e),
        }
    }

    /// Answers the nearest-match similarity query: among stored records
    /// within half a second of the probe's duration, the identifier of
    /// the one with the highest similarity at or above `threshold`
    /// (in millionths), ties keeping the first encountered.
    pub fn find_similar_fingerprint(&self, fp: &SegmentFingerprint, threshold: u64) -> (r: Result<
        Option<i64>,
        StoreError,
    >)
        requires
            fp.duration_us <= MAX_TIME_US,
        ensures
            r matches Ok(opt) ==> opt == spec_find_similar(self.records(), *fp, threshold),
    {
        let lo = if fp.duration_us > 499_999 {
            fp.duration_us - 499_999
        } else {
            0
        };
        let hi = fp.duration_us + 499_999;
        let rows = match query_window(&self.conn, lo, hi) {
            Ok(rows) => rows,
            Err(e) => {
                return Err(StoreError::Storage(e));
            },
        };
        proof {
            lemma_filter_equiv(
                self.records(),
                |rec: StoredFingerprintRecord| lo <= rec.duration_us <= hi,
                |rec: StoredFingerprintRecord| spec_in_window(rec, *fp),
            );
        }
        let ghost window = self.records().filter(
            |rec: StoredFingerprintRecord| spec_in_window(rec, *fp),
        );
        assert(rows@ == window);

        let mut best: Option<(i64, u64)> = None;
        let ghost final_scan = spec_scan(window, *fp, threshold, None);
        proof {
            assert(window.skip(0) =~= window);
        }
        let mut i: usize = 0;
        while i < rows.len()
            invariant
                i <= rows@.len(),
                rows@ == window,
                final_scan == spec_scan(window, *fp, threshold, None),
                spec_scan(
                    window.skip(i as int),
                    *fp,
                    threshold,
                    match best {
                        None => None::<(i64, int)>,
                        Some(b) => Some((b.0, b.1 as int)),
                    },
                ) == final_scan,
            decreases rows@.len() - i,
        {
            let rec = rows[i];
            proof {
                assert(window.skip(i as int)[0] == window[i as int]);
                assert(window.skip(i as int).drop_first() =~= window.skip(i as int + 1));
            }
            let probe = SegmentFingerprint {
                duration_us: rec.duration_us,
                audio_hash: rec.audio_hash,
                video_hash: rec.video_hash,
            };
            let sim = similarity(fp, &probe);
            let keep = match best {
                None => sim >= threshold,
                Some(b) => sim >= threshold && sim > b.1,
            };
            if keep {
                best = Some((rec.id, sim));
            }
            i = i + 1;
        }
        proof {
            assert(window.skip(window.len() as int) =~= Seq::<StoredFingerprintRecord>::empty());
        }
        match best {
            Some(b) => Ok(Some(b.0)),
            None => Ok(None),
        }
    }
}

} // verus!
