use vstd::prelude::*;

use crate::fingerprint::spec_abs_diff;
use crate::SCORE_ONE;

verus! {

broadcast use vstd::seq_lib::group_to_multiset_ensures;

/// A candidate's total score is counted in ten-millionths so that the
/// 0.7 / 0.3 weighting of the two sub-scores stays exact:
/// `total = 7 * black + 3 * scene` over millionth-valued sub-scores.
/// A candidate survives only when its total exceeds this threshold (0.5).
pub const TOTAL_SCORE_THRESHOLD: u64 = 5_000_000;

/// Black frames shorter than this (0.1 s) are not significant enough to
/// seed a group of related black frames.
pub const MIN_SIGNIFICANT_BLACK_US: u64 = 100_000;

/// A timestamp considered a potential cut point, carrying partial
/// evidence scores from the two visual signals, in millionths.
#[derive(Clone, Copy, Debug, PartialEq, Eq, Structural)]
pub struct BoundaryCandidate {
    pub time_us: u64,
    pub black_frame_score: u64,
    pub scene_change_score: u64,
    pub total_score: u64,
}

/// The sub-scores a candidate may carry: a black-frame score up to 1.0
/// and a scene-change score that is either 0 or 1.0.
pub open spec fn candidate_scores_wf(c: BoundaryCandidate) -> bool {
    &&& c.black_frame_score <= SCORE_ONE
    &&& (c.scene_change_score == 0 || c.scene_change_score == SCORE_ONE)
}

/// The candidate a black-frame interval seeds: placed at the interval's
/// start, scored by the interval's length capped at one second.
pub open spec fn spec_black_candidate(iv: (u64, u64)) -> BoundaryCandidate {
    BoundaryCandidate {
        time_us: iv.0,
        black_frame_score: if iv.0 <= iv.1 && iv.1 - iv.0 < SCORE_ONE {
            (iv.1 - iv.0) as u64
        } else if iv.0 <= iv.1 {
            SCORE_ONE
        } else {
            0
        },
        scene_change_score: 0,
        total_score: 0,
    }
}

/// The candidate a scene change seeds when no existing candidate is near.
pub open spec fn spec_scene_candidate(t: u64) -> BoundaryCandidate {
    BoundaryCandidate { time_us: t, black_frame_score: 0, scene_change_score: SCORE_ONE, total_score: 0 }
}

/// Whether candidate `c` lies within `max_gap_us` of timestamp `t`.
pub open spec fn spec_near(c: BoundaryCandidate, t: u64, max_gap_us: u64) -> bool {
    spec_abs_diff(c.time_us, t) < max_gap_us
}

/// `j` is the first candidate within reach of `t`.
pub open spec fn is_first_near(cands: Seq<BoundaryCandidate>, t: u64, max_gap_us: u64, j: int) -> bool {
    &&& 0 <= j < cands.len()
    &&& spec_near(cands[j], t, max_gap_us)
    &&& forall|k: int| 0 <= k < j ==> !spec_near(cands[k], t, max_gap_us)
}

/// No candidate lies within reach of `t`.
pub open spec fn no_near(cands: Seq<BoundaryCandidate>, t: u64, max_gap_us: u64) -> bool {
    forall|k: int| 0 <= k < cands.len() ==> !spec_near(cands[k], t, max_gap_us)
}

/// How one scene-change timestamp lands: the first candidate within
/// `max_gap_us` gets a full scene-change score, and failing that a new
/// candidate is appended at the timestamp itself.
pub open spec fn spec_apply_scene(
    cands: Seq<BoundaryCandidate>,
    t: u64,
    max_gap_us: u64,
) -> Seq<BoundaryCandidate> {
    if no_near(cands, t, max_gap_us) {
        cands.push(spec_scene_candidate(t))
    } else {
        let j = choose|j: int| is_first_near(cands, t, max_gap_us, j);
        cands.update(j, BoundaryCandidate { scene_change_score: SCORE_ONE, ..cands[j] })
    }
}

/// All scene-change timestamps applied in order.
pub open spec fn spec_apply_scenes(
    cands: Seq<BoundaryCandidate>,
    ts: Seq<u64>,
    max_gap_us: u64,
) -> Seq<BoundaryCandidate>
    decreases ts.len(),
{
    if ts.len() == 0 {
        cands
    } else {
        spec_apply_scenes(spec_apply_scene(cands, ts[0], max_gap_us), ts.drop_first(), max_gap_us)
    }
}

/// A candidate with its total recomputed from the two sub-scores.
pub open spec fn spec_with_total(c: BoundaryCandidate) -> BoundaryCandidate {
    BoundaryCandidate {
        total_score: (7 * c.black_frame_score + 3 * c.scene_change_score) as u64,
        ..c
    }
}

/// Every candidate the two signals seed, with totals recomputed, before
/// sorting and filtering.
pub open spec fn spec_scored_candidates(
    black_frames: Seq<(u64, u64)>,
    scene_changes: Seq<u64>,
    max_gap_us: u64,
) -> Seq<BoundaryCandidate> {
    spec_apply_scenes(
        black_frames.map_values(|iv: (u64, u64)| spec_black_candidate(iv)),
        scene_changes,
        max_gap_us,
    ).map_values(|c: BoundaryCandidate| spec_with_total(c))
}

/// The candidates that survive: total score strictly above the threshold.
pub open spec fn spec_surviving_candidates(
    black_frames: Seq<(u64, u64)>,
    scene_changes: Seq<u64>,
    max_gap_us: u64,
) -> Seq<BoundaryCandidate> {
    spec_scored_candidates(black_frames, scene_changes, max_gap_us).filter(
        |c: BoundaryCandidate| c.total_score > TOTAL_SCORE_THRESHOLD,
    )
}

/// What holds of every candidate that survives scoring: well-formed
/// sub-scores, the exact 0.7 / 0.3 total, and a total above the threshold.
pub open spec fn surviving_candidate_wf(c: BoundaryCandidate) -> bool {
    &&& candidate_scores_wf(c)
    &&& c.total_score == 7 * c.black_frame_score + 3 * c.scene_change_score
    &&& c.total_score > TOTAL_SCORE_THRESHOLD
}

/// Candidates ordered by time, earliest first.
pub open spec fn spec_sorted_by_time(s: Seq<BoundaryCandidate>) -> bool {
    forall|i: int, j: int| 0 <= i < j < s.len() ==> s[i].time_us <= s[j].time_us
}

/// Only one index can be the first near candidate.
proof fn lemma_first_near_unique(
    cands: Seq<BoundaryCandidate>,
    t: u64,
    max_gap_us: u64,
    j1: int,
    j2: int,
)
    requires
        is_first_near(cands, t, max_gap_us, j1),
        is_first_near(cands, t, max_gap_us, j2),
    ensures
        j1 == j2,
{
    if j1 < j2 {
        assert(!spec_near(cands[j1], t, max_gap_us));
    }
    if j2 < j1 {
        assert(!spec_near(cands[j2], t, max_gap_us));
    }
}

/// Applying one more scene change is the same as folding it in last.
proof fn lemma_apply_scenes_push(
    cands: Seq<BoundaryCandidate>,
    ts: Seq<u64>,
    t: u64,
    max_gap_us: u64,
)
    ensures
        spec_apply_scenes(cands, ts.push(t), max_gap_us) == spec_apply_scene(
            spec_apply_scenes(cands, ts, max_gap_us),
            t,
            max_gap_us,
        ),
    decreases ts.len(),
{
    if ts.len() == 0 {
        assert(ts.push(t)[0] == t);
        assert(ts.push(t).drop_first() =~= Seq::<u64>::empty());
        assert(spec_apply_scenes(cands, ts.push(t), max_gap_us) == spec_apply_scenes(
            spec_apply_scene(cands, t, max_gap_us),
            ts.push(t).drop_first(),
            max_gap_us,
        ));
        assert(spec_apply_scenes(
            spec_apply_scene(cands, t, max_gap_us),
            ts.push(t).drop_first(),
            max_gap_us,
        ) == spec_apply_scene(cands, t, max_gap_us));
    } else {
        assert(ts.push(t)[0] == ts[0]);
        assert(ts.push(t).drop_first() =~= ts.drop_first().push(t));
        assert(spec_apply_scenes(cands, ts.push(t), max_gap_us) == spec_apply_scenes(
            spec_apply_scene(cands, ts[0], max_gap_us),
            ts.drop_first().push(t),
            max_gap_us,
        ));
        assert(spec_apply_scenes(cands, ts, max_gap_us) == spec_apply_scenes(
            spec_apply_scene(cands, ts[0], max_gap_us),
            ts.drop_first(),
            max_gap_us,
        ));
        lemma_apply_scenes_push(spec_apply_scene(cands, ts[0], max_gap_us), ts.drop_first(), t, max_gap_us);
    }
}

impl BoundaryCandidate {
    /// A fresh candidate at a timestamp, carrying no evidence yet.
    pub fn new(time_us: u64) -> (c: BoundaryCandidate)
        ensures
            c == (BoundaryCandidate {
                time_us,
                black_frame_score: 0,
                scene_change_score: 0,
                total_score: 0,
            }),
    {
        BoundaryCandidate { time_us, black_frame_score: 0, scene_change_score: 0, total_score: 0 }
    }

    /// Recomputes the total from the sub-scores: exactly
    /// `0.7 * black + 0.3 * scene`, carried in ten-millionths.
    pub fn update_scores(&mut self)
        requires
            candidate_scores_wf(*old(self)),
        ensures
            *final(self) == spec_with_total(*old(self)),
            final(self).total_score == 7 * old(self).black_frame_score + 3 * old(
                self,
            ).scene_change_score,
    {
        self.total_score = 7 * self.black_frame_score + 3 * self.scene_change_score;
    }
}

/// The first candidate within `max_gap_us` of `t`, if any.
fn find_first_near(cands: &Vec<BoundaryCandidate>, t: u64, max_gap_us: u64) -> (r: Option<usize>)
    ensures
        match r {
            Some(j) => is_first_near(cands@, t, max_gap_us, j as int),
            None => no_near(cands@, t, max_gap_us),
        },
{
    let mut j: usize = 0;
    while j < cands.len()
        invariant
            j <= cands@.len(),
            forall|k: int| 0 <= k < j ==> !spec_near(cands@[k], t, max_gap_us),
        decreases cands@.len() - j,
    {
        let c = cands[j];
        let diff = if c.time_us >= t {
            c.time_us - t
        } else {
            t - c.time_us
        };
        if diff < max_gap_us {
            return Some(j);
        }
        j = j + 1;
    }
    None
}

/// Merges black-frame intervals and scene-change timestamps into scored
/// boundary candidates, ordered by time, keeping only candidates whose
/// total score exceeds the threshold.  Every returned candidate carries
/// `total_score == 7 * black + 3 * scene` (the exact 0.7 / 0.3 weighting).
pub fn score_segment_boundaries(
    black_frames: &Vec<(u64, u64)>,
    scene_changes: &Vec<u64>,
    max_gap_us: u64,
) -> (r: Vec<BoundaryCandidate>)
    ensures
        r@.to_multiset() == spec_surviving_candidates(
            black_frames@,
            scene_changes@,
            max_gap_us,
        ).to_multiset(),
        spec_sorted_by_time(r@),
        forall|i: int| 0 <= i < r@.len() ==> surviving_candidate_wf(#[trigger] r@[i]),
{
    // Seed one candidate per black-frame interval.
    let mut cands: Vec<BoundaryCandidate> = Vec::new();
    let mut i: usize = 0;
    while i < black_frames.len()
        invariant
            i <= black_frames@.len(),
            cands@.len() == i,
            forall|k: int| 0 <= k < i ==> cands@[k] == spec_black_candidate(#[trigger] black_frames@[k]),
        decreases black_frames@.len() - i,
    {
        let (s, e) = black_frames[i];
        let score = if s <= e && e - s < SCORE_ONE {
            e - s
        } else if s <= e {
            SCORE_ONE
        } else {
            0
        };
        cands.push(
            BoundaryCandidate {
                time_us: s,
                black_frame_score: score,
                scene_change_score: 0,
                total_score: 0,
            },
        );
        i = i + 1;
    }
    assert(cands@ =~= black_frames@.map_values(|iv: (u64, u64)| spec_black_candidate(iv)));
    let ghost black_seq = cands@;

    // Fold in the scene changes.
    let mut s: usize = 0;
    while s < scene_changes.len()
        invariant
            s <= scene_changes@.len(),
            cands@ == spec_apply_scenes(black_seq, scene_changes@.take(s as int), max_gap_us),
            forall|k: int| 0 <= k < black_seq.len() ==> candidate_scores_wf(#[trigger] black_seq[k]),
            forall|k: int| 0 <= k < cands@.len() ==> candidate_scores_wf(#[trigger] cands@[k]),
        decreases scene_changes@.len() - s,
    {
        let t = scene_changes[s];
        let ghost before = cands@;
        match find_first_near(&cands, t, max_gap_us) {
            Some(j) => {
                let mut c = cands[j];
                c.scene_change_score = SCORE_ONE;
                cands.set(j, c);
                proof {
                    let jj = choose|jj: int| is_first_near(before, t, max_gap_us, jj);
                    lemma_first_near_unique(before, t, max_gap_us, jj, j as int);
                    assert(cands@ =~= spec_apply_scene(before, t, max_gap_us));
                }
            },
            None => {
                cands.push(
                    BoundaryCandidate {
                        time_us: t,
                        black_frame_score: 0,
                        scene_change_score: SCORE_ONE,
                        total_score: 0,
                    },
                );
                proof {
                    assert(cands@ =~= spec_apply_scene(before, t, max_gap_us));
                }
            },
        }
        proof {
            lemma_apply_scenes_push(black_seq, scene_changes@.take(s as int), t, max_gap_us);
            assert(scene_changes@.take(s as int).push(t) =~= scene_changes@.take(s as int + 1));
        }
        s = s + 1;
    }
    assert(scene_changes@.take(scene_changes@.len() as int) =~= scene_changes@);
    let ghost merged = cands@;

    // Recompute every total from the two sub-scores.
    let mut k: usize = 0;
    while k < cands.len()
        invariant
            k <= cands@.len(),
            cands@.len() == merged.len(),
            forall|m: int| 0 <= m < merged.len() ==> candidate_scores_wf(#[trigger] merged[m]),
            forall|m: int| 0 <= m < k ==> cands@[m] == spec_with_total(#[trigger] merged[m]),
            forall|m: int| k <= m < merged.len() ==> cands@[m] == #[trigger] merged[m],
        decreases cands@.len() - k,
    {
        let mut c = cands[k];
        proof {
            assert(c == merged[k as int]);
            assert(candidate_scores_wf(merged[k as int]));
        }
        c.update_scores();
        cands.set(k, c);
        k = k + 1;
    }
    assert(cands@ =~= merged.map_values(|c: BoundaryCandidate| spec_with_total(c)));
    let ghost totaled = cands@;

    // Drop the candidates at or below the threshold.
    let mut kept: Vec<BoundaryCandidate> = Vec::new();
    let ghost pred = |c: BoundaryCandidate| c.total_score > TOTAL_SCORE_THRESHOLD;
    let mut f: usize = 0;
    while f < cands.len()
        invariant
            f <= totaled.len(),
            cands@ == totaled,
            kept@ == totaled.take(f as int).filter(pred),
            pred == (|c: BoundaryCandidate| c.total_score > TOTAL_SCORE_THRESHOLD),
            totaled.len() == merged.len(),
            forall|m: int| 0 <= m < merged.len() ==> candidate_scores_wf(#[trigger] merged[m]),
            forall|m: int| 0 <= m < merged.len() ==> totaled[m] == spec_with_total(#[trigger] merged[m]),
            forall|q: int| 0 <= q < kept@.len() ==> surviving_candidate_wf(#[trigger] kept@[q]),
        decreases totaled.len() - f,
    {
        let c = cands[f];
        proof {
            reveal(Seq::filter);
            assert(totaled.take(f as int + 1).drop_last() =~= totaled.take(f as int));
            assert(totaled.take(f as int + 1).last() == totaled[f as int]);
            assert(c == spec_with_total(merged[f as int]));
            assert(candidate_scores_wf(merged[f as int]));
        }
        if c.total_score > TOTAL_SCORE_THRESHOLD {
            kept.push(c);
        }
        f = f + 1;
    }
    assert(totaled.take(totaled.len() as int) =~= totaled);
    let ghost survivors = kept@;

    // Insertion sort by time.
    let mut sorted_cands: Vec<BoundaryCandidate> = Vec::new();
    let mut m: usize = 0;
    while m < kept.len()
        invariant
            m <= survivors.len(),
            kept@ == survivors,
            sorted_cands@.to_multiset() == survivors.take(m as int).to_multiset(),
            spec_sorted_by_time(sorted_cands@),
            forall|q: int| 0 <= q < survivors.len() ==> surviving_candidate_wf(#[trigger] survivors[q]),
            forall|q: int|
                0 <= q < sorted_cands@.len() ==> surviving_candidate_wf(#[trigger] sorted_cands@[q]),
        decreases survivors.len() - m,
    {
        let c = kept[m];
        let mut idx: usize = 0;
        while idx < sorted_cands.len() && sorted_cands[idx].time_us <= c.time_us
            invariant
                idx <= sorted_cands@.len(),
                forall|q: int| 0 <= q < idx ==> #[trigger] sorted_cands@[q].time_us <= c.time_us,
            decreases sorted_cands@.len() - idx,
        {
            idx = idx + 1;
        }
        let ghost old_sorted = sorted_cands@;
        sorted_cands.insert(idx, c);
        proof {
            assert(survivors.take(m as int).push(c) =~= survivors.take(m as int + 1));
            assert forall|q: int| 0 <= q < sorted_cands@.len() implies surviving_candidate_wf(
                #[trigger] sorted_cands@[q],
            ) by {
                if q < idx {
                    assert(sorted_cands@[q] == old_sorted[q]);
                } else if q > idx {
                    assert(sorted_cands@[q] == old_sorted[q - 1]);
                } else {
                    assert(sorted_cands@[q] == c);
                }
            }
            assert forall|i1: int, j1: int|
                0 <= i1 < j1 < sorted_cands@.len() implies sorted_cands@[i1].time_us
                <= sorted_cands@[j1].time_us by {
                if j1 < idx {
                    assert(sorted_cands@[i1] == old_sorted[i1]);
                    assert(sorted_cands@[j1] == old_sorted[j1]);
                } else if i1 > idx {
                    assert(sorted_cands@[i1] == old_sorted[i1 - 1]);
                    assert(sorted_cands@[j1] == old_sorted[j1 - 1]);
                } else if i1 == idx {
                    assert(sorted_cands@[i1] == c);
                    assert(sorted_cands@[j1] == old_sorted[j1 - 1]);
                    assert(idx < old_sorted.len());
                    assert(old_sorted[idx as int].time_us > c.time_us);
                    assert(old_sorted[j1 - 1].time_us >= old_sorted[idx as int].time_us);
                } else if j1 == idx {
                    assert(sorted_cands@[i1] == old_sorted[i1]);
                    assert(sorted_cands@[j1] == c);
                } else {
                    assert(i1 < idx && j1 > idx);
                    assert(sorted_cands@[i1] == old_sorted[i1]);
                    assert(sorted_cands@[j1] == old_sorted[j1 - 1]);
                    assert(j1 - 1 >= idx);
                    if j1 - 1 == idx {
                        assert(old_sorted[i1].time_us <= c.time_us);
                        assert(sorted_cands@[j1] == old_sorted[idx as int]);
                        assert(old_sorted[i1].time_us <= old_sorted[idx as int].time_us);
                    }
                }
            }
        }
        m = m + 1;
    }
    assert(survivors.take(survivors.len() as int) =~= survivors);
    sorted_cands
}

/// Consecutive surviving boundaries, paired: the candidate segment spans.
pub fn boundary_pairs(cands: &Vec<BoundaryCandidate>) -> (r: Vec<(u64, u64)>)
    ensures
        r@.len() == if cands@.len() < 2 {
            0int
        } else {
            cands@.len() - 1
        },
        forall|i: int|
            0 <= i < r@.len() ==> #[trigger] r@[i] == (cands@[i].time_us, cands@[i + 1].time_us),
{
    let mut r: Vec<(u64, u64)> = Vec::new();
    if cands.len() < 2 {
        return r;
    }
    let mut i: usize = 0;
    while i < cands.len() - 1
        invariant
            cands@.len() >= 2,
            i <= cands@.len() - 1,
            r@.len() == i,
            forall|k: int|
                0 <= k < i ==> #[trigger] r@[k] == (cands@[k].time_us, cands@[k + 1].time_us),
        decreases cands@.len() - 1 - i,
    {
        r.push((cands[i].time_us, cands[i + 1].time_us));
        i = i + 1;
    }
    r
}

/// The spans between consecutive black-frame intervals: each runs from one
/// interval's end to the next interval's start.  Fewer than two intervals
/// leave nothing to span.
pub fn segment_spans(intervals: &Vec<(u64, u64)>) -> (r: Vec<(u64, u64)>)
    ensures
        r@.len() == if intervals@.len() < 2 {
            0int
        } else {
            intervals@.len() - 1
        },
        forall|i: int|
            0 <= i < r@.len() ==> #[trigger] r@[i] == (intervals@[i].1, intervals@[i + 1].0),
{
    let mut r: Vec<(u64, u64)> = Vec::new();
    if intervals.len() < 2 {
        return r;
    }
    let mut i: usize = 0;
    while i < intervals.len() - 1
        invariant
            intervals@.len() >= 2,
            i <= intervals@.len() - 1,
            r@.len() == i,
            forall|k: int|
                0 <= k < i ==> #[trigger] r@[k] == (intervals@[k].1, intervals@[k + 1].0),
        decreases intervals@.len() - 1 - i,
    {
        r.push((intervals[i].1, intervals[i + 1].0));
        i = i + 1;
    }
    r
}

/// Whether a black-frame interval is long enough to matter (at least 0.1 s).
pub open spec fn spec_significant(iv: (u64, u64)) -> bool {
    iv.1 - iv.0 >= MIN_SIGNIFICANT_BLACK_US
}

/// One step of the grouping fold: extend the open group when the next
/// interval starts within `max_gap_us` of its end, close it otherwise.
pub open spec fn spec_group_step(
    acc: (Seq<(u64, u64)>, Option<(u64, u64)>),
    iv: (u64, u64),
    max_gap_us: u64,
) -> (Seq<(u64, u64)>, Option<(u64, u64)>) {
    match acc.1 {
        None => (acc.0, Some(iv)),
        Some(g) => if iv.0 - g.1 <= max_gap_us {
            (acc.0, Some((g.0, iv.1)))
        } else {
            (acc.0.push(g), Some(iv))
        },
    }
}

/// The grouping fold over a whole run of significant intervals.
pub open spec fn spec_group_fold(
    acc: (Seq<(u64, u64)>, Option<(u64, u64)>),
    ivs: Seq<(u64, u64)>,
    max_gap_us: u64,
) -> (Seq<(u64, u64)>, Option<(u64, u64)>)
    decreases ivs.len(),
{
    if ivs.len() == 0 {
        acc
    } else {
        spec_group_fold(spec_group_step(acc, ivs[0], max_gap_us), ivs.drop_first(), max_gap_us)
    }
}

/// What grouping a raw interval list yields: insignificant intervals are
/// dropped, the rest merge whenever the gap between neighbours stays
/// within `max_gap_us`, and the still-open group closes at the end.
pub open spec fn spec_group_black_frames(
    frames: Seq<(u64, u64)>,
    max_gap_us: u64,
) -> Seq<(u64, u64)> {
    let sig = frames.filter(|iv: (u64, u64)| spec_significant(iv));
    let folded = spec_group_fold((Seq::empty(), None), sig, max_gap_us);
    match folded.1 {
        None => folded.0,
        Some(g) => folded.0.push(g),
    }
}

/// Folding one more interval is the same as one further step.
proof fn lemma_group_fold_push(
    acc: (Seq<(u64, u64)>, Option<(u64, u64)>),
    ivs: Seq<(u64, u64)>,
    iv: (u64, u64),
    max_gap_us: u64,
)
    ensures
        spec_group_fold(acc, ivs.push(iv), max_gap_us) == spec_group_step(
            spec_group_fold(acc, ivs, max_gap_us),
            iv,
            max_gap_us,
        ),
    decreases ivs.len(),
{
    if ivs.len() == 0 {
        assert(ivs.push(iv)[0] == iv);
        assert(ivs.push(iv).drop_first() =~= Seq::<(u64, u64)>::empty());
        assert(spec_group_fold(acc, ivs.push(iv), max_gap_us) == spec_group_fold(
            spec_group_step(acc, iv, max_gap_us),
            ivs.push(iv).drop_first(),
            max_gap_us,
        ));
        assert(spec_group_fold(
            spec_group_step(acc, iv, max_gap_us),
            ivs.push(iv).drop_first(),
            max_gap_us,
        ) == spec_group_step(acc, iv, max_gap_us));
    } else {
        assert(ivs.push(iv)[0] == ivs[0]);
        assert(ivs.push(iv).drop_first() =~= ivs.drop_first().push(iv));
        assert(spec_group_fold(acc, ivs.push(iv), max_gap_us) == spec_group_fold(
            spec_group_step(acc, ivs[0], max_gap_us),
            ivs.drop_first().push(iv),
            max_gap_us,
        ));
        assert(spec_group_fold(acc, ivs, max_gap_us) == spec_group_fold(
            spec_group_step(acc, ivs[0], max_gap_us),
            ivs.drop_first(),
            max_gap_us,
        ));
        lemma_group_fold_push(spec_group_step(acc, ivs[0], max_gap_us), ivs.drop_first(), iv, max_gap_us);
    }
}

/// Filters out insignificant black-frame intervals and merges runs of
/// related ones: neighbours whose gap stays within `max_gap_us` collapse
/// into one interval from the first start to the last end.
pub fn group_black_frames(frames: &Vec<(u64, u64)>, max_gap_us: u64) -> (r: Vec<(u64, u64)>)
    ensures
        r@ == spec_group_black_frames(frames@, max_gap_us),
{
    let ghost pred = |iv: (u64, u64)| spec_significant(iv);

    // Keep only the significant intervals.
    let mut sig: Vec<(u64, u64)> = Vec::new();
    let mut i: usize = 0;
    while i < frames.len()
        invariant
            i <= frames@.len(),
            sig@ == frames@.take(i as int).filter(pred),
            pred == (|iv: (u64, u64)| spec_significant(iv)),
        decreases frames@.len() - i,
    {
        let (s, e) = frames[i];
        proof {
            reveal(Seq::filter);
            assert(frames@.take(i as int + 1).drop_last() =~= frames@.take(i as int));
            assert(frames@.take(i as int + 1).last() == frames@[i as int]);
        }
        if s <= e && e - s >= MIN_SIGNIFICANT_BLACK_US {
            sig.push((s, e));
        }
        i = i + 1;
    }
    assert(frames@.take(frames@.len() as int) =~= frames@);
    let ghost sigseq = sig@;

    // Merge neighbours whose gaps stay within reach.
    let mut grouped: Vec<(u64, u64)> = Vec::new();
    let mut current: Option<(u64, u64)> = None;
    let mut j: usize = 0;
    while j < sig.len()
        invariant
            j <= sigseq.len(),
            sig@ == sigseq,
            (grouped@, current) == spec_group_fold(
                (Seq::<(u64, u64)>::empty(), None::<(u64, u64)>),
                sigseq.take(j as int),
                max_gap_us,
            ),
        decreases sigseq.len() - j,
    {
        let (s, e) = sig[j];
        match current {
            None => {
                current = Some((s, e));
            },
            Some((gs, ge)) => {
                if s <= ge || s - ge <= max_gap_us {
                    current = Some((gs, e));
                } else {
                    grouped.push((gs, ge));
                    current = Some((s, e));
                }
            },
        }
        proof {
            lemma_group_fold_push(
                (Seq::<(u64, u64)>::empty(), None::<(u64, u64)>),
                sigseq.take(j as int),
                sigseq[j as int],
                max_gap_us,
            );
            assert(sigseq.take(j as int).push(sigseq[j as int]) =~= sigseq.take(j as int + 1));
        }
        j = j + 1;
    }
    assert(sigseq.take(sigseq.len() as int) =~= sigseq);

    if let Some((gs, ge)) = current {
        grouped.push((gs, ge));
    }
    grouped
}

} // verus!
