//! The audio device: which of its configurations is opened, and what the
//! real-time callback does each time it is called, apart from the samples
//! themselves (copying them and applying the gains is the caller's).
use vstd::prelude::*;

use crate::audio::Spec;

verus! {

/// Sample type of a device configuration.
#[derive(Debug, Clone, Copy, PartialEq, Eq, Structural)]
pub enum SampleKind {
    F32,
    I16,
    U16,
    Other,
}

/// One range of configurations the device supports.
#[derive(Debug, Clone, Copy, PartialEq, Eq, Structural)]
pub struct ConfigRange {
    pub min_rate: u32,
    pub max_rate: u32,
    pub channels: u16,
    pub kind: SampleKind,
}

/// How far a range is from what the file asks, in order of importance:
/// the file's sample rate outside the range (no way to avoid resampling)
/// weighs more than any channel count, and the channel count (exact, then
/// stereo) more than the sample type (`f32`, then `i16`).
pub open spec fn penalty(r: ConfigRange, want: Spec) -> int {
    let rate = if r.min_rate <= want.sample_rate && want.sample_rate <= r.max_rate { 0int } else { 9int };
    let ch = if r.channels == want.channels {
        0int
    } else if r.channels == 2 {
        1int
    } else {
        2int
    };
    let fmt = match r.kind {
        SampleKind::F32 => 0int,
        SampleKind::I16 => 1int,
        _ => 2int,
    };
    rate + 3 * ch + fmt
}

/// `x` brought inside `[lo, hi]`.
pub open spec fn clamp(x: u32, lo: u32, hi: u32) -> u32 {
    if x < lo {
        lo
    } else if x > hi {
        hi
    } else {
        x
    }
}

fn penalty_of(r: &ConfigRange, want: Spec) -> (p: u8)
    ensures
        p == penalty(*r, want),
{
    let rate: u8 = if r.min_rate <= want.sample_rate && want.sample_rate <= r.max_rate { 0 } else { 9 };
    let ch: u8 = if r.channels == want.channels {
        0
    } else if r.channels == 2 {
        1
    } else {
        2
    };
    let fmt: u8 = match r.kind {
        SampleKind::F32 => 0,
        SampleKind::I16 => 1,
        _ => 2,
    };
    rate + 3 * ch + fmt
}

/// The configuration to open for a file in `want`: the first of the ranges
/// with the least penalty, at the file's own rate when that range holds it,
/// else at the nearest end of the range. `None` when the device offers no
/// configuration at all.
pub fn pick_config(ranges: &Vec<ConfigRange>, want: Spec) -> (r: Option<(usize, u32)>)
    requires
        forall|i: int| 0 <= i < ranges@.len() ==> (#[trigger] ranges@[i]).min_rate <= ranges@[i].max_rate,
    ensures
        ranges@.len() == 0 <==> r is None,
        r matches Some((i, rate)) ==> {
            &&& i < ranges@.len()
            &&& forall|j: int| 0 <= j < ranges@.len() ==> penalty(ranges@[i as int], want) <= penalty(
                #[trigger] ranges@[j],
                want,
            )
            &&& forall|j: int| 0 <= j < i ==> penalty(ranges@[i as int], want) < penalty(#[trigger] ranges@[j], want)
            &&& rate == clamp(want.sample_rate, ranges@[i as int].min_rate, ranges@[i as int].max_rate)
        },
{
    if ranges.len() == 0 {
        return None;
    }
    let mut best: usize = 0;
    let mut best_p = penalty_of(&ranges[0], want);
    let mut k: usize = 1;
    while k < ranges.len()
        invariant
            1 <= k <= ranges@.len(),
            best < k,
            best_p == penalty(ranges@[best as int], want),
            forall|j: int| 0 <= j < k ==> best_p <= penalty(#[trigger] ranges@[j], want),
            forall|j: int| 0 <= j < best ==> best_p < penalty(#[trigger] ranges@[j], want),
        decreases ranges@.len() - k,
    {
        let p = penalty_of(&ranges[k], want);
        if p < best_p {
            best = k;
            best_p = p;
        }
        k += 1;
    }
    let r = &ranges[best];
    let rate = if want.sample_rate < r.min_rate {
        r.min_rate
    } else if want.sample_rate > r.max_rate {
        r.max_rate
    } else {
        want.sample_rate
    };
    Some((best, rate))
}

/// Whether the device can be opened with samples of this type: `f32`,
/// `i16` and `u16` are; any other is refused.
pub fn kind_supported(kind: SampleKind) -> (ok: bool)
    ensures
        ok == !(kind is Other),
{
    match kind {
        SampleKind::Other => false,
        _ => true,
    }
}

/// What one call of the real-time callback does.
#[derive(Debug, Clone, Copy, PartialEq, Eq, Structural)]
pub struct CallbackStep {
    /// Drop everything in the ring first, and acknowledge `ack`.
    pub flush: bool,
    /// The flush request now seen.
    pub ack: u64,
    /// Samples read from the ring into the device buffer; the rest of the
    /// buffer is silence.
    pub take: usize,
    /// The device wanted more than the ring held.
    pub starved: bool,
    /// Frames to add to the position.
    pub frames: u64,
}

/// One call of the callback, for a device buffer of `out_len` samples:
/// a flush requested by the worker (`wanted`, last seen `seen`) is done and
/// acknowledged first; paused, the buffer is silence and neither the ring
/// nor the position moves; playing, as much as the ring holds (`readable`
/// samples, after any flush) is copied, silence fills the rest and the gap
/// is marked, and the position advances by whole frames of `channels`.
pub fn callback_step(wanted: u64, seen: u64, playing: bool, out_len: usize, readable: usize, channels: usize) -> (s:
    CallbackStep)
    ensures
        s.flush == (wanted != seen),
        s.ack == wanted,
        !playing ==> s.take == 0 && !s.starved && s.frames == 0,
        playing ==> {
            &&& s.take == (if out_len < readable { out_len } else { readable })
            &&& s.starved == (s.take < out_len)
            &&& s.frames == (if channels > 0 { s.take / channels } else { 0 })
        },
{
    let flush = wanted != seen;
    if !playing {
        return CallbackStep { flush, ack: wanted, take: 0, starved: false, frames: 0 };
    }
    let take = if out_len < readable { out_len } else { readable };
    let frames: u64 = if channels > 0 { (take / channels) as u64 } else { 0 };
    CallbackStep { flush, ack: wanted, take, starved: take < out_len, frames }
}

} // verus!
