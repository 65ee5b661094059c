//! The bookkeeping of the playback worker, apart from decoding and the
//! device: which track comes next, when a chained track really starts to
//! sound, what waits for the ring to drain, and when the callback may pull.
//!
//! The worker alternates outside work (open a file, decode, write the ring,
//! open the device) with the decisions kept here. Each method takes the
//! plain values that work produced and says what to do next; the decoders
//! and the device stay with the caller.
use vstd::prelude::*;

verus! {

/// A track already in the ring that has not reached the speaker yet.
#[derive(Debug, PartialEq, Eq)]
pub struct Queued {
    /// Frame, in the device's running count, where the track begins.
    pub start_frame: u64,
    pub path: String,
    /// Duration in ms; 0 when unknown.
    pub duration_ms: u64,
}

/// What waits for the ring to drain once the current file is decoded.
#[derive(Debug, PartialEq, Eq)]
pub enum Tail {
    /// Nothing queued: report the end when the ring is empty.
    Finish,
    /// The next track is at another sample rate: splicing it would mean
    /// resampling, so the current one drains and the device reopens at the
    /// new rate. Its decoder waits with the caller.
    Deferred { path: String },
}

/// What the worker does once the ring is empty.
#[derive(Debug, PartialEq, Eq)]
pub enum TailAction {
    /// Nothing was waiting, or the ring still holds audio.
    Wait,
    /// Playback ended: report `Finished`.
    Finish,
    /// Reopen the device for the deferred track at `path`, then call
    /// [`Worker::reopened`].
    Reopen { path: String },
}

/// Tracks that started to sound in one round: the position and duration
/// the UI reads now belong to the last of them.
#[derive(Debug, PartialEq, Eq)]
pub struct Advance {
    /// The tracks that started, in order: one `Advanced` each.
    pub started: Vec<Queued>,
    /// Frames played of the last of them.
    pub frames_played: u64,
    pub duration_ms: u64,
}

/// The worker's decisions between rounds of outside work.
#[derive(Debug, PartialEq, Eq)]
pub struct Worker {
    /// The track to play after this one.
    pub next: Option<String>,
    pub tail: Option<Tail>,
    /// What the user wants, apart from the callback's gate.
    pub wants_play: bool,
    /// The ring holds enough audio for the device to start pulling.
    pub primed: bool,
    /// Chained tracks that have not started to sound yet, in order.
    pub upcoming: Vec<Queued>,
}

/// Frames waiting in the ring: the filled slots over the channels (at
/// least one); none without a device.
pub open spec fn frames_in_ring_spec(capacity: nat, slots: nat, channels: nat) -> nat {
    let ch = if channels > 0 { channels } else { 1 };
    ((capacity - slots) as nat) / ch
}

/// Frames waiting in a ring of `capacity` samples with `slots` free, for
/// `channels` interleaved channels.
pub fn frames_in_ring(capacity: usize, slots: usize, channels: u16) -> (n: u64)
    requires
        slots <= capacity,
    ensures
        n == frames_in_ring_spec(capacity as nat, slots as nat, channels as nat),
{
    let ch: usize = if channels > 0 { channels as usize } else { 1 };
    ((capacity - slots) / ch) as u64
}

impl Worker {
    /// Idle: nothing playing, nothing queued.
    pub fn new() -> (w: Worker)
        ensures
            w.next is None,
            w.tail is None,
            !w.wants_play,
            !w.primed,
            w.upcoming@.len() == 0,
    {
        Worker { next: None, tail: None, wants_play: false, primed: false, upcoming: Vec::new() }
    }

    /// `SetNext`: the track to chain after the current one.
    pub fn set_next(&mut self, path: Option<String>)
        ensures
            final(self).next == path,
            final(self).tail == old(self).tail,
            final(self).wants_play == old(self).wants_play,
            final(self).primed == old(self).primed,
            final(self).upcoming@ == old(self).upcoming@,
    {
        self.next = path;
    }

    /// `Pause` (`false`) or `Resume` (`true`).
    pub fn set_wants_play(&mut self, on: bool)
        ensures
            final(self).wants_play == on,
            final(self).next == old(self).next,
            final(self).tail == old(self).tail,
            final(self).primed == old(self).primed,
            final(self).upcoming@ == old(self).upcoming@,
    {
        self.wants_play = on;
    }

    /// `Stop`: nothing wanted, nothing waiting; the callback stops pulling. What was
    /// set to come next stays.
    pub fn stop(&mut self)
        ensures
            !final(self).wants_play,
            !final(self).primed,
            final(self).tail is None,
            final(self).upcoming@.len() == 0,
            final(self).next == old(self).next,
    {
        self.wants_play = false;
        self.primed = false;
        self.tail = None;
        self.upcoming = Vec::new();
    }

    /// A track was opened from the start (`Play`): it plays as soon as the
    /// ring fills; what was chained or waiting before is dropped.
    pub fn started(&mut self)
        ensures
            final(self).wants_play,
            !final(self).primed,
            final(self).tail is None,
            final(self).upcoming@.len() == 0,
            final(self).next == old(self).next,
    {
        self.tail = None;
        self.upcoming = Vec::new();
        self.wants_play = true;
        self.primed = false;
    }

    /// A seek inside the current track succeeded: what was chained or
    /// waiting was flushed with the ring.
    pub fn seeked(&mut self)
        ensures
            final(self).tail is None,
            final(self).upcoming@.len() == 0,
            final(self).next == old(self).next,
            final(self).wants_play == old(self).wants_play,
            final(self).primed == old(self).primed,
    {
        self.tail = None;
        self.upcoming = Vec::new();
    }

    /// The current file is fully decoded (its end still sounds from the
    /// ring). Hands out the next track to open, if one was set; with none,
    /// the end is reported once the ring drains.
    pub fn decoder_ended(&mut self) -> (r: Option<String>)
        ensures
            r == old(self).next,
            final(self).next is None,
            old(self).next is None ==> final(self).tail == Some(Tail::Finish),
            old(self).next is Some ==> final(self).tail == old(self).tail,
            final(self).wants_play == old(self).wants_play,
            final(self).primed == old(self).primed,
            final(self).upcoming@ == old(self).upcoming@,
    {
        let next = self.next.take();
        if next.is_none() {
            self.tail = Some(Tail::Finish);
        }
        next
    }

    /// The next file could not be opened: the end is reported once the
    /// ring drains.
    pub fn next_failed(&mut self)
        ensures
            final(self).tail == Some(Tail::Finish),
            final(self).next == old(self).next,
            final(self).wants_play == old(self).wants_play,
            final(self).primed == old(self).primed,
            final(self).upcoming@ == old(self).upcoming@,
    {
        self.tail = Some(Tail::Finish);
    }

    /// The next file is open, at `next_rate`. When the device runs at that
    /// rate (`device_rate`) the track is spliced into the same ring, right
    /// behind what is already there (`played` frames out, `in_ring` frames
    /// waiting): gapless, and the caller makes its decoder the current one
    /// (`true`). Otherwise it waits for the ring to drain (`false`).
    pub fn next_opened(
        &mut self,
        path: String,
        duration_ms: u64,
        device_rate: Option<u32>,
        next_rate: u32,
        played: u64,
        in_ring: u64,
    ) -> (spliced: bool)
        requires
            played + in_ring <= u64::MAX,
        ensures
            spliced == (device_rate == Some(next_rate)),
            spliced ==> (final(self).upcoming@ == old(self).upcoming@.push(
                (Queued { start_frame: (played + in_ring) as u64, path, duration_ms }),
            ) && final(self).tail == old(self).tail),
            !spliced ==> (final(self).tail == Some((Tail::Deferred { path }))
                && final(self).upcoming@ == old(self).upcoming@),
            final(self).next == old(self).next,
            final(self).wants_play == old(self).wants_play,
            final(self).primed == old(self).primed,
    {
        let same_rate = match device_rate {
            Some(r) => r == next_rate,
            None => false,
        };
        if same_rate {
            self.upcoming.push(Queued { start_frame: played + in_ring, path, duration_ms });
            true
        } else {
            self.tail = Some(Tail::Deferred { path });
            false
        }
    }

    /// What waits for the drained ring, taken once the ring is empty
    /// (`in_ring` frames left). At the end of playback nothing is wanted
    /// any more.
    pub fn take_tail(&mut self, in_ring: u64) -> (a: TailAction)
        ensures
            (old(self).tail is None || in_ring > 0) ==> (a == TailAction::Wait && final(self).tail == old(self).tail
                && final(self).wants_play == old(self).wants_play),
            (old(self).tail == Some(Tail::Finish) && in_ring == 0) ==> (a == TailAction::Finish
                && (final(self).tail is None) && !final(self).wants_play),
            old(self).tail matches Some(Tail::Deferred { path }) ==> (in_ring == 0 ==> (a == (TailAction::Reopen {
                path,
            }) && (final(self).tail is None) && final(self).wants_play == old(self).wants_play)),
            final(self).next == old(self).next,
            final(self).primed == old(self).primed,
            final(self).upcoming@ == old(self).upcoming@,
    {
        if in_ring > 0 {
            return TailAction::Wait;
        }
        match self.tail.take() {
            None => TailAction::Wait,
            Some(Tail::Finish) => {
                self.wants_play = false;
                TailAction::Finish
            },
            Some(Tail::Deferred { path }) => TailAction::Reopen { path },
        }
    }

    /// The device was reopened for a deferred track (`ok`): playback waits
    /// for the ring to fill again, and the caller reports `Advanced`. If it
    /// could not be reopened, nothing is wanted any more and the caller
    /// reports the error and `Finished`.
    pub fn reopened(&mut self, ok: bool)
        ensures
            ok ==> !final(self).primed && final(self).wants_play == old(self).wants_play,
            !ok ==> !final(self).wants_play && final(self).primed == old(self).primed,
            final(self).next == old(self).next,
            final(self).tail == old(self).tail,
            final(self).upcoming@ == old(self).upcoming@,
    {
        if ok {
            self.primed = false;
        } else {
            self.wants_play = false;
        }
    }

    /// The chained tracks that reached the speaker by frame `played`: the
    /// leading ones that begin at or before it, taken out in order. The
    /// position becomes relative to the last of them, and its duration the
    /// one shown. `None` when none did.
    pub fn check_advance(&mut self, played: u64) -> (r: Option<Advance>)
        ensures
            ({
                let k = old(self).upcoming@.len() - final(self).upcoming@.len();
                &&& 0 <= k <= old(self).upcoming@.len()
                &&& forall|i: int| 0 <= i < k ==> (#[trigger] old(self).upcoming@[i]).start_frame <= played
                &&& k < old(self).upcoming@.len() ==> old(self).upcoming@[k].start_frame > played
                &&& final(self).upcoming@ == old(self).upcoming@.skip(k)
                &&& (k == 0 <==> r is None)
                &&& r matches Some(a) ==> {
                    &&& a.started@ == old(self).upcoming@.take(k)
                    &&& a.frames_played == played - old(self).upcoming@[k - 1].start_frame
                    &&& a.duration_ms == old(self).upcoming@[k - 1].duration_ms
                }
            }),
            final(self).next == old(self).next,
            final(self).tail == old(self).tail,
            final(self).wants_play == old(self).wants_play,
            final(self).primed == old(self).primed,
    {
        let mut k: usize = 0;
        while k < self.upcoming.len() && self.upcoming[k].start_frame <= played
            invariant
                k <= self.upcoming@.len(),
                forall|i: int| 0 <= i < k ==> (#[trigger] self.upcoming@[i]).start_frame <= played,
            decreases self.upcoming@.len() - k,
        {
            k += 1;
        }
        if k == 0 {
            return None;
        }
        let mut due: Vec<Queued> = Vec::new();
        std::mem::swap(&mut due, &mut self.upcoming);
        let rest = due.split_off(k);
        self.upcoming = rest;
        let frames_played = played - due[k - 1].start_frame;
        let duration_ms = due[k - 1].duration_ms;
        assert(self.upcoming@ =~= old(self).upcoming@.skip(k as int));
        assert(due@ =~= old(self).upcoming@.take(k as int));
        Some(Advance { started: due, frames_played, duration_ms })
    }

    /// Opens or closes the callback's gate. Once unprimed, the worker waits
    /// for a quarter of the ring (`capacity` samples, `slots` free) to fill,
    /// or for the whole file when there is nothing left to decode. The
    /// callback pulls only when playback is wanted and the ring is primed;
    /// the UI shows what is wanted. Returns `(playing, intent)`.
    pub fn update_gate(&mut self, ring: Option<(usize, usize)>, decoding: bool) -> (r: (bool, bool))
        requires
            ring matches Some((capacity, slots)) ==> slots <= capacity,
        ensures
            final(self).primed == (old(self).primed || match ring {
                Some((capacity, slots)) => (capacity - slots) * 4 >= capacity || !decoding,
                None => false,
            }),
            r == (final(self).wants_play && final(self).primed, final(self).wants_play),
            final(self).wants_play == old(self).wants_play,
            final(self).next == old(self).next,
            final(self).tail == old(self).tail,
            final(self).upcoming@ == old(self).upcoming@,
    {
        if !self.primed {
            match ring {
                Some((capacity, slots)) => {
                    let filled = capacity - slots;
                    self.primed = (filled as u128) * 4 >= capacity as u128 || !decoding;
                },
                None => {},
            }
        }
        (self.wants_play && self.primed, self.wants_play)
    }
}

} // verus!
