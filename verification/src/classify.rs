use vstd::prelude::*;

use crate::fingerprint::spec_abs_diff;
use crate::fingerprint::SegmentFingerprint;

verus! {

/// Commercials must come within two seconds of a canonical length.
pub const COMMERCIAL_TOLERANCE_US: u64 = 2_000_000;

/// Station IDs are short, so their tolerance is much tighter (0.2 s).
pub const STATION_ID_TOLERANCE_US: u64 = 200_000;

/// What a recognized segment is.
#[derive(Clone, Copy, Debug, PartialEq, Eq, Structural)]
pub enum SegmentKind {
    Commercial,
    StationId,
}

/// A recognized segment of the recording.  `kind` is the authoritative
/// classification (the persistent store may re-tag it), while
/// `local_kind` keeps the duration-table verdict for diagnosability.
#[derive(Clone, Copy, Debug)]
pub struct Segment {
    pub kind: SegmentKind,
    pub local_kind: SegmentKind,
    pub start_us: u64,
    pub end_us: u64,
    pub duration_us: u64,
    pub fingerprint: Option<SegmentFingerprint>,
    pub duplicate_of: Option<i64>,
}

/// Whether `duration_us` comes within `tolerance_us` of any canonical length.
pub open spec fn spec_matches_any(duration_us: u64, lengths: Seq<u64>, tolerance_us: u64) -> bool {
    exists|i: int| 0 <= i < lengths.len() && spec_abs_diff(duration_us, lengths[i]) < tolerance_us
}

/// The segment one boundary pair yields, if its duration matches a table.
/// The station-id table is checked first: station IDs are short and would
/// otherwise be swallowed by the wider commercial tolerance.  A pair whose
/// span is empty or backwards matches nothing.
pub open spec fn spec_classify_pair(
    pair: (u64, u64),
    station_lengths: Seq<u64>,
    station_tol_us: u64,
    commercial_lengths: Seq<u64>,
    commercial_tol_us: u64,
) -> Option<Segment> {
    if pair.0 > pair.1 {
        None
    } else {
        let d = (pair.1 - pair.0) as u64;
        if spec_matches_any(d, station_lengths, station_tol_us) {
            Some(spec_new_segment(SegmentKind::StationId, pair.0, pair.1))
        } else if spec_matches_any(d, commercial_lengths, commercial_tol_us) {
            Some(spec_new_segment(SegmentKind::Commercial, pair.0, pair.1))
        } else {
            None
        }
    }
}

/// A freshly classified segment: no fingerprint yet, no duplicate known.
pub open spec fn spec_new_segment(kind: SegmentKind, start_us: u64, end_us: u64) -> Segment {
    Segment {
        kind,
        local_kind: kind,
        start_us,
        end_us,
        duration_us: (end_us - start_us) as u64,
        fingerprint: None,
        duplicate_of: None,
    }
}

/// All boundary pairs classified in order; unmatched pairs are discarded.
pub open spec fn spec_classify(
    pairs: Seq<(u64, u64)>,
    station_lengths: Seq<u64>,
    station_tol_us: u64,
    commercial_lengths: Seq<u64>,
    commercial_tol_us: u64,
) -> Seq<Segment>
    decreases pairs.len(),
{
    if pairs.len() == 0 {
        Seq::empty()
    } else {
        let rest = spec_classify(
            pairs.drop_first(),
            station_lengths,
            station_tol_us,
            commercial_lengths,
            commercial_tol_us,
        );
        match spec_classify_pair(
            pairs[0],
            station_lengths,
            station_tol_us,
            commercial_lengths,
            commercial_tol_us,
        ) {
            None => rest,
            Some(s) => seq![s] + rest,
        }
    }
}

/// Whether `duration_us` lies within `tolerance_us` of any entry of the table.
pub fn matches_any_length(duration_us: u64, lengths: &Vec<u64>, tolerance_us: u64) -> (r: bool)
    ensures
        r == spec_matches_any(duration_us, lengths@, tolerance_us),
{
    let mut i: usize = 0;
    while i < lengths.len()
        invariant
            i <= lengths@.len(),
            forall|k: int|
                0 <= k < i ==> spec_abs_diff(duration_us, #[trigger] lengths@[k]) >= tolerance_us,
        decreases lengths@.len() - i,
    {
        let len = lengths[i];
        let diff = if duration_us >= len {
            duration_us - len
        } else {
            len - duration_us
        };
        if diff < tolerance_us {
            return true;
        }
        i = i + 1;
    }
    false
}

/// Classifies one boundary pair against the two duration tables.  The
/// station-id table takes precedence: a duration that matches it is a
/// `StationId`, never a `Commercial`, whatever the commercial table says.
pub fn classify_pair(
    pair: (u64, u64),
    station_lengths: &Vec<u64>,
    station_tol_us: u64,
    commercial_lengths: &Vec<u64>,
    commercial_tol_us: u64,
) -> (r: Option<Segment>)
    ensures
        r == spec_classify_pair(
            pair,
            station_lengths@,
            station_tol_us,
            commercial_lengths@,
            commercial_tol_us,
        ),
        pair.0 <= pair.1 && spec_matches_any(
            (pair.1 - pair.0) as u64,
            station_lengths@,
            station_tol_us,
        ) ==> (r matches Some(s) && s.kind == SegmentKind::StationId),
{
    if pair.0 > pair.1 {
        return None;
    }
    let duration_us = pair.1 - pair.0;
    if matches_any_length(duration_us, station_lengths, station_tol_us) {
        Some(
            Segment {
                kind: SegmentKind::StationId,
                local_kind: SegmentKind::StationId,
                start_us: pair.0,
                end_us: pair.1,
                duration_us,
                fingerprint: None,
                duplicate_of: None,
            },
        )
    } else if matches_any_length(duration_us, commercial_lengths, commercial_tol_us) {
        Some(
            Segment {
                kind: SegmentKind::Commercial,
                local_kind: SegmentKind::Commercial,
                start_us: pair.0,
                end_us: pair.1,
                duration_us,
                fingerprint: None,
                duplicate_of: None,
            },
        )
    } else {
        None
    }
}

/// Turns consecutive surviving boundaries into typed segments by duration:
/// station IDs first under the tight tolerance, then commercials under the
/// loose one; pairs matching neither table are discarded.  Fewer than two
/// boundaries leave nothing to classify.
pub fn classify_segments(
    pairs: &Vec<(u64, u64)>,
    station_lengths: &Vec<u64>,
    station_tol_us: u64,
    commercial_lengths: &Vec<u64>,
    commercial_tol_us: u64,
) -> (r: Vec<Segment>)
    ensures
        r@ == spec_classify(
            pairs@,
            station_lengths@,
            station_tol_us,
            commercial_lengths@,
            commercial_tol_us,
        ),
        pairs@.len() == 0 ==> r@.len() == 0,
{
    let ghost full = spec_classify(
        pairs@,
        station_lengths@,
        station_tol_us,
        commercial_lengths@,
        commercial_tol_us,
    );
    let mut out: Vec<Segment> = Vec::new();
    proof {
        assert(pairs@.skip(0) =~= pairs@);
        assert(Seq::<Segment>::empty() + full =~= full);
    }
    let mut i: usize = 0;
    while i < pairs.len()
        invariant
            i <= pairs@.len(),
            full == spec_classify(
                pairs@,
                station_lengths@,
                station_tol_us,
                commercial_lengths@,
                commercial_tol_us,
            ),
            out@ + spec_classify(
                pairs@.skip(i as int),
                station_lengths@,
                station_tol_us,
                commercial_lengths@,
                commercial_tol_us,
            ) == full,
        decreases pairs@.len() - i,
    {
        let pair = pairs[i];
        proof {
            assert(pairs@.skip(i as int)[0] == pairs@[i as int]);
            assert(pairs@.skip(i as int).drop_first() =~= pairs@.skip(i as int + 1));
        }
        match classify_pair(pair, station_lengths, station_tol_us, commercial_lengths, commercial_tol_us) {
            Some(seg) => {
                out.push(seg);
                proof {
                    assert(out@ + spec_classify(
                        pairs@.skip(i as int + 1),
                        station_lengths@,
                        station_tol_us,
                        commercial_lengths@,
                        commercial_tol_us,
                    ) =~= full);
                }
            },
            None => {},
        }
        i = i + 1;
    }
    proof {
        assert(pairs@.skip(pairs@.len() as int) =~= Seq::<(u64, u64)>::empty());
        assert(out@ + Seq::<Segment>::empty() =~= out@);
    }
    out
}

/// The canonical commercial lengths: 15, 20, 25, 30, 45 and 60 seconds.
pub fn default_commercial_lengths() -> (r: Vec<u64>)
    ensures
        r@ =~= seq![
            15_000_000u64,
            20_000_000u64,
            25_000_000u64,
            30_000_000u64,
            45_000_000u64,
            60_000_000u64,
        ],
{
    let mut r: Vec<u64> = Vec::new();
    r.push(15_000_000);
    r.push(20_000_000);
    r.push(25_000_000);
    r.push(30_000_000);
    r.push(45_000_000);
    r.push(60_000_000);
    r
}

/// The canonical station-id lengths: 3, 5 and 10 seconds.
pub fn default_station_id_lengths() -> (r: Vec<u64>)
    ensures
        r@ =~= seq![3_000_000u64, 5_000_000u64, 10_000_000u64],
{
    let mut r: Vec<u64> = Vec::new();
    r.push(3_000_000);
    r.push(5_000_000);
    r.push(10_000_000);
    r
}

} // verus!
