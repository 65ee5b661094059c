//! Watching the library folder: which file events matter, and how a burst
//! of them becomes one rescan.
//!
//! Copying an album fires dozens of events in a second. The watcher waits
//! for the first one, then for a quiet spell with none, and only then
//! signals one change.
use vstd::prelude::*;

use crate::index::scan::{is_audio_ext, is_audio_ext_spec};

verus! {

/// Whether a file event changes the library: not a mere access, and about
/// at least one path that is audio or has no extension (a folder created,
/// renamed or removed).
pub open spec fn interesting_spec(is_access: bool, exts: Seq<Option<Seq<char>>>) -> bool {
    !is_access && exists|i: int| 0 <= i < exts.len() && match #[trigger] exts[i] {
        None => true,
        Some(e) => is_audio_ext_spec(e),
    }
}

pub open spec fn exts_view(exts: Seq<Option<String>>) -> Seq<Option<Seq<char>>> {
    exts.map_values(|e: Option<String>| match e {
        Some(s) => Some(s@),
        None => None,
    })
}

/// Decides one event: `exts` are the extensions of its paths (`None` for a
/// path without one).
pub fn interesting(is_access: bool, exts: &Vec<Option<String>>) -> (r: bool)
    ensures
        r == interesting_spec(is_access, exts_view(exts@)),
{
    if is_access {
        return false;
    }
    let ghost v = exts_view(exts@);
    let mut i: usize = 0;
    while i < exts.len()
        invariant
            !is_access,
            v == exts_view(exts@),
            i <= exts@.len(),
            forall|j: int| 0 <= j < i ==> !(match #[trigger] v[j] {
                None => true,
                Some(e) => is_audio_ext_spec(e),
            }),
        decreases exts.len() - i,
    {
        let hit = match &exts[i] {
            None => true,
            Some(e) => is_audio_ext(e.as_str()),
        };
        if hit {
            assert(match v[i as int] {
                None => true,
                Some(e) => is_audio_ext_spec(e),
            });
            return true;
        }
        i += 1;
    }
    false
}

/// Where the coalescing loop stands.
#[derive(Debug, Clone, Copy, PartialEq, Eq, Structural)]
pub enum Quiet {
    /// Waiting, without a deadline, for the first event of a burst.
    Idle,
    /// Inside a burst: waiting for a quiet spell.
    Burst,
    /// The event source is gone: the loop ends.
    Stopped,
}

/// What the loop was woken by.
#[derive(Debug, Clone, Copy, PartialEq, Eq, Structural)]
pub enum Wake {
    /// A relevant event arrived.
    Event,
    /// The quiet spell passed without events.
    Timeout,
    /// The event source closed.
    Disconnected,
}

/// What the loop does next.
#[derive(Debug, Clone, Copy, PartialEq, Eq, Structural)]
pub enum QuietAction {
    /// Wait for the next event with no deadline.
    WaitEvent,
    /// Wait for the next event at most the quiet spell.
    WaitQuiet,
    /// Signal one change to the UI, then wait for a new burst.
    Signal,
    /// End the loop.
    Stop,
}

pub open spec fn coalesce_spec(state: Quiet, wake: Wake) -> (Quiet, QuietAction) {
    match (state, wake) {
        (Quiet::Stopped, _) => (Quiet::Stopped, QuietAction::Stop),
        (_, Wake::Disconnected) => (Quiet::Stopped, QuietAction::Stop),
        (Quiet::Idle, Wake::Event) => (Quiet::Burst, QuietAction::WaitQuiet),
        (Quiet::Idle, Wake::Timeout) => (Quiet::Idle, QuietAction::WaitEvent),
        (Quiet::Burst, Wake::Event) => (Quiet::Burst, QuietAction::WaitQuiet),
        (Quiet::Burst, Wake::Timeout) => (Quiet::Idle, QuietAction::Signal),
    }
}

/// One step of the coalescing loop: a burst of events, however long,
/// becomes a single signal once it goes quiet.
pub fn coalesce(state: Quiet, wake: Wake) -> (r: (Quiet, QuietAction))
    ensures
        r == coalesce_spec(state, wake),
{
    match (state, wake) {
        (Quiet::Stopped, _) => (Quiet::Stopped, QuietAction::Stop),
        (_, Wake::Disconnected) => (Quiet::Stopped, QuietAction::Stop),
        (Quiet::Idle, Wake::Event) => (Quiet::Burst, QuietAction::WaitQuiet),
        (Quiet::Idle, Wake::Timeout) => (Quiet::Idle, QuietAction::WaitEvent),
        (Quiet::Burst, Wake::Event) => (Quiet::Burst, QuietAction::WaitQuiet),
        (Quiet::Burst, Wake::Timeout) => (Quiet::Idle, QuietAction::Signal),
    }
}

/// Signals that a run of wakes produces.
pub open spec fn signals(state: Quiet, wakes: Seq<Wake>) -> nat
    decreases wakes.len(),
{
    if wakes.len() == 0 {
        0
    } else {
        let (next, action) = coalesce_spec(state, wakes[0]);
        (if action == QuietAction::Signal { 1nat } else { 0nat }) + signals(next, wakes.drop_first())
    }
}

/// A burst of any number of events followed by a quiet spell is one
/// signal, not one per event.
pub proof fn lemma_burst_is_one_signal(n: nat)
    ensures
        signals(Quiet::Idle, Seq::new(n + 1, |i: int| Wake::Event).push(Wake::Timeout)) == 1,
{
    lemma_burst_tail(n);
    let w = Seq::new(n + 1, |i: int| Wake::Event).push(Wake::Timeout);
    assert(w[0] == Wake::Event);
    assert(w.drop_first() =~= Seq::new(n, |i: int| Wake::Event).push(Wake::Timeout));
}

proof fn lemma_burst_tail(n: nat)
    ensures
        signals(Quiet::Burst, Seq::new(n, |i: int| Wake::Event).push(Wake::Timeout)) == 1,
    decreases n,
{
    let w = Seq::new(n, |i: int| Wake::Event).push(Wake::Timeout);
    if n == 0 {
        assert(w[0] == Wake::Timeout);
        assert(w.drop_first() =~= Seq::<Wake>::empty());
        assert(signals(Quiet::Idle, Seq::<Wake>::empty()) == 0);
    } else {
        lemma_burst_tail((n - 1) as nat);
        assert(w[0] == Wake::Event);
        assert(w.drop_first() =~= Seq::new((n - 1) as nat, |i: int| Wake::Event).push(Wake::Timeout));
    }
}

} // verus!
