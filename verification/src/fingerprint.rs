use vstd::prelude::*;

use std::collections::hash_map::DefaultHasher;
use std::hash::Hasher;
use vstd::std_specs::hash::DefaultHasherAdditionalSpecFns;
use vstd::string::StringSliceAdditionalSpecFns;

use crate::SCORE_ONE;

verus! {

/// Two fingerprints count as equal when their hash pairs agree and their
/// durations differ by less than this many microseconds (0.001 s).
pub const FINGERPRINT_DURATION_TOLERANCE_US: u64 = 1_000;

/// Records within half a second of a probe duration are considered by the
/// similarity search.
pub const SIMILARITY_DURATION_WINDOW_US: u64 = 500_000;

/// Weight of each differing hash bit in the similarity score: the two
/// hash distances carry 0.4 each, spread over 64 bits (400_000 / 64).
pub const SIMILARITY_PER_BIT: u64 = 6_250;

/// Weight of the relative duration difference in the similarity score (0.2).
pub const SIMILARITY_DURATION_WEIGHT: u64 = 200_000;

/// A compact, lossy digest of one segment: its duration and one 64-bit
/// hash each for a reduced video frame and a reduced audio sample.
#[derive(Clone, Copy, Debug, PartialEq, Eq, Structural)]
pub struct SegmentFingerprint {
    pub duration_us: u64,
    pub audio_hash: u64,
    pub video_hash: u64,
}

/// The absolute difference of two unsigned times.
pub open spec fn spec_abs_diff(a: u64, b: u64) -> int {
    if a >= b {
        a - b
    } else {
        b - a
    }
}

/// How many of the low `n` bits of `x` are set.
pub open spec fn bits_set(x: u64, n: u64) -> nat
    decreases n,
{
    if n == 0 {
        0
    } else {
        bits_set(x, (n - 1) as u64) + (((x >> ((n - 1) as u64)) & 1) as nat)
    }
}

/// The Hamming distance of two 64-bit hashes.
pub open spec fn spec_hamming(a: u64, b: u64) -> nat {
    bits_set(a ^ b, 64)
}

/// What one `DefaultHasher` pass over `bytes` returns.
pub open spec fn spec_digest(bytes: Seq<u8>) -> u64 {
    DefaultHasher::spec_finish(seq![bytes])
}

/// The video hash of a payload: an empty payload is hashed from a fixed
/// sentinel so that a stream with no content still yields a stable digest.
pub open spec fn spec_video_digest(payload: Seq<u8>) -> u64 {
    if payload.len() == 0 {
        spec_digest("no video data".spec_bytes())
    } else {
        spec_digest(payload)
    }
}

/// The audio hash of a payload, with its own sentinel for empty payloads.
pub open spec fn spec_audio_digest(payload: Seq<u8>) -> u64 {
    if payload.len() == 0 {
        spec_digest("no audio data".spec_bytes())
    } else {
        spec_digest(payload)
    }
}

/// Fingerprint equality: hash pair equal and durations within the
/// tolerance (strictly less than 0.001 s apart).
pub open spec fn spec_fingerprint_eq(a: SegmentFingerprint, b: SegmentFingerprint) -> bool {
    &&& a.audio_hash == b.audio_hash
    &&& a.video_hash == b.video_hash
    &&& spec_abs_diff(a.duration_us, b.duration_us) < FINGERPRINT_DURATION_TOLERANCE_US
}

/// The relative duration difference of the similarity formula, scaled to
/// millionths: `0.2 * |d1 - d2| / max(d1, d2)`, and 0 when both are 0.
pub open spec fn spec_duration_term(d1: u64, d2: u64) -> int {
    let hi = if d1 >= d2 {
        d1
    } else {
        d2
    };
    if hi == 0 {
        0
    } else {
        (SIMILARITY_DURATION_WEIGHT * spec_abs_diff(d1, d2)) / (hi as int)
    }
}

/// The similarity of two fingerprints in millionths:
/// `1 - (0.4 * audio_dist + 0.4 * video_dist + 0.2 * dur_diff)`, where each
/// hash distance is the Hamming distance over 64 bits.
pub open spec fn spec_similarity(a: SegmentFingerprint, b: SegmentFingerprint) -> int {
    SCORE_ONE - SIMILARITY_PER_BIT * spec_hamming(a.audio_hash, b.audio_hash)
        - SIMILARITY_PER_BIT * spec_hamming(a.video_hash, b.video_hash) - spec_duration_term(
        a.duration_us,
        b.duration_us,
    )
}

/// No more than `n` of the low `n` bits can be set.
pub proof fn lemma_bits_set_le(x: u64, n: u64)
    ensures
        bits_set(x, n) <= n,
    decreases n,
{
    if n > 0 {
        lemma_bits_set_le(x, (n - 1) as u64);
        let m = (n - 1) as u64;
        assert((x >> m) & 1 <= 1) by (bit_vector);
    }
}

/// A zero word has no bits set.
pub proof fn lemma_bits_set_zero(n: u64)
    ensures
        bits_set(0, n) == 0,
    decreases n,
{
    if n > 0 {
        lemma_bits_set_zero((n - 1) as u64);
        let m = (n - 1) as u64;
        assert((0u64 >> m) & 1 == 0) by (bit_vector);
    }
}

/// The duration term always lands in `[0, SIMILARITY_DURATION_WEIGHT]`.
pub proof fn lemma_duration_term_bounds(d1: u64, d2: u64)
    ensures
        0 <= spec_duration_term(d1, d2) <= SIMILARITY_DURATION_WEIGHT,
{
    let hi = if d1 >= d2 {
        d1
    } else {
        d2
    };
    if hi != 0 {
        let diff = spec_abs_diff(d1, d2);
        assert(0 <= diff <= hi);
        vstd::arithmetic::div_mod::lemma_div_is_ordered(
            SIMILARITY_DURATION_WEIGHT * diff,
            SIMILARITY_DURATION_WEIGHT * (hi as int),
            hi as int,
        );
        vstd::arithmetic::div_mod::lemma_div_by_multiple(
            SIMILARITY_DURATION_WEIGHT as int,
            hi as int,
        );
        vstd::arithmetic::div_mod::lemma_div_pos_is_pos(SIMILARITY_DURATION_WEIGHT * diff, hi as int);
    }
}

/// Similarity is symmetric: both hash distances and the duration term
/// ignore the order of their arguments.
pub proof fn lemma_similarity_symmetric(a: SegmentFingerprint, b: SegmentFingerprint)
    ensures
        spec_similarity(a, b) == spec_similarity(b, a),
{
    let xa = a.audio_hash;
    let ya = b.audio_hash;
    let xv = a.video_hash;
    let yv = b.video_hash;
    assert(xa ^ ya == ya ^ xa) by (bit_vector);
    assert(xv ^ yv == yv ^ xv) by (bit_vector);
}

/// A fingerprint is perfectly similar to itself.
pub proof fn lemma_self_similarity(a: SegmentFingerprint)
    ensures
        spec_similarity(a, a) == SCORE_ONE,
{
    assert(a.audio_hash ^ a.audio_hash == 0) by (bit_vector);
    assert(a.video_hash ^ a.video_hash == 0) by (bit_vector);
    lemma_bits_set_zero(64);
}

/// Counts the set bits of `x`.
pub fn count_set_bits(x: u64) -> (c: u64)
    ensures
        c == bits_set(x, 64),
        c <= 64,
{
    let mut c: u64 = 0;
    let mut i: u64 = 0;
    while i < 64
        invariant
            i <= 64,
            c == bits_set(x, i),
            c <= i,
        decreases 64 - i,
    {
        let bit = (x >> i) & 1;
        proof {
            assert((x >> i) & 1 <= 1) by (bit_vector);
        }
        c = c + bit;
        i = i + 1;
    }
    c
}

/// Reduces a byte payload with one `DefaultHasher` pass.
fn digest_bytes(data: &[u8]) -> (h: u64)
    ensures
        h == spec_digest(data@),
{
    let mut hasher = DefaultHasher::new();
    hasher.write(data);
    assert(hasher@ =~= seq![data@]);
    hasher.finish()
}

impl SegmentFingerprint {
    /// Builds the fingerprint of a segment from the raw downsampled video
    /// and audio payloads of its time window.  An empty payload is not a
    /// failure: it is hashed from a fixed sentinel literal instead.
    pub fn from_payloads(duration_us: u64, video_payload: &[u8], audio_payload: &[u8]) -> (fp:
        SegmentFingerprint)
        ensures
            fp.duration_us == duration_us,
            fp.video_hash == spec_video_digest(video_payload@),
            fp.audio_hash == spec_audio_digest(audio_payload@),
    {
        let video_hash = if video_payload.len() == 0 {
            digest_bytes("no video data".as_bytes())
        } else {
            digest_bytes(video_payload)
        };
        let audio_hash = if audio_payload.len() == 0 {
            digest_bytes("no audio data".as_bytes())
        } else {
            digest_bytes(audio_payload)
        };
        SegmentFingerprint { duration_us, audio_hash, video_hash }
    }

    /// Tolerant fingerprint equality: the hash pairs must agree exactly
    /// and the durations must lie within 0.001 s of each other.
    pub fn equals(&self, other: &SegmentFingerprint) -> (r: bool)
        ensures
            r == spec_fingerprint_eq(*self, *other),
    {
        let dur_diff = if self.duration_us >= other.duration_us {
            self.duration_us - other.duration_us
        } else {
            other.duration_us - self.duration_us
        };
        self.audio_hash == other.audio_hash && self.video_hash == other.video_hash && dur_diff
            < FINGERPRINT_DURATION_TOLERANCE_US
    }

    /// The duration quantized to whole milliseconds, the form used when a
    /// fingerprint serves as a map key, consistent with the tolerance-based
    /// equality.
    pub fn duration_millis(&self) -> (ms: u64)
        ensures
            ms == self.duration_us / 1_000,
    {
        self.duration_us / 1_000
    }
}

/// Computes the similarity of two fingerprints in millionths.
pub fn similarity(a: &SegmentFingerprint, b: &SegmentFingerprint) -> (s: u64)
    ensures
        s == spec_similarity(*a, *b),
        s <= SCORE_ONE,
{
    let audio_bits = count_set_bits(a.audio_hash ^ b.audio_hash);
    let video_bits = count_set_bits(a.video_hash ^ b.video_hash);
    let (hi, lo) = if a.duration_us >= b.duration_us {
        (a.duration_us, b.duration_us)
    } else {
        (b.duration_us, a.duration_us)
    };
    proof {
        lemma_duration_term_bounds(a.duration_us, b.duration_us);
        lemma_bits_set_le(a.audio_hash ^ b.audio_hash, 64);
        lemma_bits_set_le(a.video_hash ^ b.video_hash, 64);
    }
    let dur_term: u64 = if hi == 0 {
        0
    } else {
        let diff: u128 = (hi - lo) as u128;
        assert(diff * 200_000 <= u64::MAX as u128 * 200_000);
        let scaled: u128 = diff * 200_000;
        (scaled / (hi as u128)) as u64
    };
    SCORE_ONE - (SIMILARITY_PER_BIT * audio_bits + SIMILARITY_PER_BIT * video_bits + dur_term)
}

} // verus!
