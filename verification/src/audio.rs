//! The plain types of the playback engine: what the UI asks, what the
//! worker reports, and the state both read. Decoding and the audio device
//! are the caller's.
use vstd::prelude::*;

use std::sync::atomic::{AtomicBool, AtomicU32, AtomicU64};
use std::time::Duration;

verus! {

/// Format of the decoded stream. Its `sample_rate` decides the rate the
/// device is opened at: when the two match there is no resampling.
#[derive(Debug, Clone, Copy, PartialEq, Eq, Structural)]
pub struct Spec {
    pub sample_rate: u32,
    pub channels: u16,
}

/// What the worker tells the UI.
#[derive(Debug, Clone, PartialEq, Eq)]
pub enum Event {
    Started { path: String },
    /// A chained track actually started playing.
    Advanced { path: String },
    /// The queue ended and the device drained.
    Finished,
    Error(String),
}

/// State the UI reads every frame: small and `Copy` on purpose, it never
/// needs a lock to draw.
#[derive(Debug, Clone, Copy, PartialEq, Eq, Default)]
pub struct PlaybackState {
    pub playing: bool,
    pub position: Duration,
    pub duration: Option<Duration>,
}

/// Bits of the `f32` 1.0: the neutral gain.
pub const UNIT_GAIN_BITS: u32 = 0x3f80_0000;

/// Everything atomic, no `Mutex`: the UI reads it every frame and the
/// callback writes it in real time.
#[derive(Debug)]
pub struct Shared {
    /// Gate of the callback: only on once the ring already holds audio.
    pub playing: AtomicBool,
    /// What the user asked for; what the UI shows.
    pub intent: AtomicBool,
    /// Frames handed to the device since the start of the track (or the
    /// last seek).
    pub frames_played: AtomicU64,
    pub sample_rate: AtomicU32,
    /// Duration of the track in ms; 0 when unknown.
    pub duration_ms: AtomicU64,
    /// Bumped by the worker to ask the callback to drop what is in the ring.
    pub flush_gen: AtomicU64,
    /// Returned by the callback when the drop is done.
    pub flush_ack: AtomicU64,
    /// The callback wanted audio and the ring was empty.
    pub starved: AtomicBool,
    /// Master volume, bits of an `f32` in `[0, 1]`.
    pub master_volume: AtomicU32,
    /// Leveller gain of the track playing now, bits of an `f32`.
    pub track_gain: AtomicU32,
}

impl Default for Shared {
    /// Neutral gains by default: without them a track would play muted
    /// until the UI or the worker set the real value.
    fn default() -> (s: Self) {
        Shared {
            playing: AtomicBool::new(false),
            intent: AtomicBool::new(false),
            frames_played: AtomicU64::new(0),
            sample_rate: AtomicU32::new(0),
            duration_ms: AtomicU64::new(0),
            flush_gen: AtomicU64::new(0),
            flush_ack: AtomicU64::new(0),
            starved: AtomicBool::new(false),
            master_volume: AtomicU32::new(UNIT_GAIN_BITS),
            track_gain: AtomicU32::new(UNIT_GAIN_BITS),
        }
    }
}

} // verus!
