//! Detection and deduplication of recurring inserted segments —
//! commercial breaks and station-identification bumpers — in long-form
//! video recordings: parsing the external transcoder's diagnostic
//! streams into black-frame intervals and scene-change timestamps,
//! scoring and merging them into boundary candidates, classifying the
//! spans between surviving boundaries by duration against canonical
//! length tables, reducing each segment's reduced video and audio
//! payloads to a compact fingerprint, and resolving fingerprints
//! against a persistent similarity store that recognizes segments seen
//! in prior runs.
//!
//! The core logic here is verified; launching the transcoder, walking
//! directories and displaying progress live with the caller, which
//! hands this library plain values and takes plain values back.

use vstd::prelude::*;

pub mod boundary;
pub mod classify;
pub mod db;
pub mod fingerprint;
pub mod parse;
pub mod pipeline;

verus! {

/// All times and durations in this library are integers counted in
/// microseconds; one second is `MICROS_PER_SECOND` of them.
pub const MICROS_PER_SECOND: u64 = 1_000_000;

/// Largest time or duration the library accepts, in microseconds.  The
/// persistent store keeps durations in a signed 64-bit column and the
/// similarity search widens a duration by half a second, so both must
/// stay representable.
pub const MAX_TIME_US: u64 = 0x7fff_ffff_ffff_ffff - 500_000;

/// Scores are integers counted in millionths: `SCORE_ONE` stands for 1.0.
pub const SCORE_ONE: u64 = 1_000_000;

} // verus!
