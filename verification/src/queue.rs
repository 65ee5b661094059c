//! The play queue.
//!
//! `tracks` holds what was queued, in natural order; `order` is the order in
//! which they play: the identity with shuffle off, a permutation with it on.
//! Keeping both is what lets shuffle on keep the current track, and shuffle
//! off resume the natural order from where playback is.
use vstd::prelude::*;

use crate::libgen::rng::{scramble, scramble_exec, xorshift, xorshift_step, ZERO_SEED_REPLACEMENT};
use crate::model::TrackId;

verus! {

#[derive(Debug, Clone, Copy, PartialEq, Eq, Structural)]
pub enum Repeat {
    Off,
    /// At the end of the queue, start over.
    All,
    /// Repeat the current track forever.
    One,
}

impl Repeat {
    pub open spec fn next_spec(self) -> Repeat {
        match self {
            Repeat::Off => Repeat::All,
            Repeat::All => Repeat::One,
            Repeat::One => Repeat::Off,
        }
    }

    /// Button cycle: off → all → one → off.
    pub fn next(self) -> (r: Self)
        ensures
            r == self.next_spec(),
    {
        match self {
            Repeat::Off => Repeat::All,
            Repeat::All => Repeat::One,
            Repeat::One => Repeat::Off,
        }
    }
}

impl Default for Repeat {
    fn default() -> (r: Self)
        ensures
            r == Repeat::Off,
    {
        Repeat::Off
    }
}

/// Three presses of the repeat button bring it back where it was.
pub proof fn lemma_repeat_cycle(r: Repeat)
    ensures
        r.next_spec().next_spec().next_spec() == r,
        r.next_spec() != r,
{
}

/// Trusted: nanoseconds since the Unix epoch by the wall clock; `None`
/// when the clock reads before the epoch. Nothing is promised of the value.
#[verifier::external_body]
fn nanos_since_epoch() -> Option<u128> {
    std::time::SystemTime::now().duration_since(std::time::UNIX_EPOCH).ok().map(|d| d.as_nanos())
}

/// The seed when the clock reads before the epoch.
pub const CLOCK_FALLBACK_SEED: u64 = 0x2545_F491_4F6C_DD1D;

/// The seed a clock reading gives: its low 64 bits, or the fallback.
pub open spec fn clock_seed(nanos: Option<u128>) -> u64 {
    match nanos {
        Some(n) => n as u64,
        None => CLOCK_FALLBACK_SEED,
    }
}

/// xorshift64*, seeded by the clock.
#[derive(Debug)]
struct Rng(u64);

impl Rng {
    /// Seeded from a clock reading; a zero seed, on which xorshift would
    /// stay at zero, is replaced.
    fn from_nanos(nanos: Option<u128>) -> (r: Self)
        ensures
            r.0 == (if clock_seed(nanos) == 0 { ZERO_SEED_REPLACEMENT } else { clock_seed(nanos) }),
            r.0 != 0,
    {
        let seed: u64 = match nanos {
            Some(n) => n as u64,
            None => CLOCK_FALLBACK_SEED,
        };
        Rng(if seed == 0 { ZERO_SEED_REPLACEMENT } else { seed })
    }

    /// Seeded from the clock, whatever it reads.
    fn from_clock() -> (r: Self)
        ensures
            r.0 != 0,
    {
        Rng::from_nanos(nanos_since_epoch())
    }

    fn below(&mut self, n: usize) -> (r: usize)
        requires
            n > 0,
        ensures
            final(self).0 == xorshift(old(self).0),
            r == scramble(xorshift(old(self).0)) % (n as u64),
            r < n,
    {
        let x = xorshift_step(self.0);
        self.0 = x;
        (scramble_exec(x) % n as u64) as usize
    }
}

/// The shuffle of `order` from its position `i` down to 1, with the
/// generator at `seed`: at each position but `fixed`, a draw below `i + 1`
/// picks the position to swap with (the next one down when the draw lands
/// on `fixed`). Gives the order and the generator's state at the end.
pub open spec fn shuffle_from(order: Seq<u32>, seed: u64, fixed: Option<usize>, i: int) -> (Seq<u32>, u64)
    decreases i,
{
    if i < 1 {
        (order, seed)
    } else if fixed == Some(i as usize) {
        shuffle_from(order, seed, fixed, i - 1)
    } else {
        let x = xorshift(seed);
        let j0 = (scramble(x) % ((i + 1) as u64)) as int;
        let j = if fixed == Some(j0 as usize) {
            if j0 == 0 {
                i
            } else {
                j0 - 1
            }
        } else {
            j0
        };
        let next = if fixed == Some(j as usize) {
            order
        } else {
            order.update(i, order[j]).update(j, order[i])
        };
        shuffle_from(next, x, fixed, i - 1)
    }
}

/// `order` lists each of `0..n` exactly once.
pub open spec fn is_permutation(order: Seq<u32>, n: nat) -> bool {
    &&& order.len() == n
    &&& forall|i: int| 0 <= i < order.len() ==> (#[trigger] order[i]) < n
    &&& forall|i: int, j: int| 0 <= i < j < order.len() ==> (#[trigger] order[i]) != (#[trigger] order[j])
}

pub open spec fn identity_order(n: nat) -> Seq<u32> {
    Seq::new(n, |i: int| i as u32)
}

/// A permutation of `0..n` takes every value once: each queued track has
/// exactly one place in the play order, shuffled or not.
pub proof fn lemma_permutation_covers(order: Seq<u32>, n: nat, j: int)
    requires
        is_permutation(order, n),
        0 <= j < n,
    ensures
        exists|i: int| 0 <= i < order.len() && order[i] == j,
        forall|a: int, b: int| 0 <= a < order.len() && 0 <= b < order.len() && order[a] == j && order[b] == j ==> a == b,
{
    let vals = order.map_values(|x: u32| x as int);
    assert(vals.no_duplicates()) by {
        assert forall|a: int, b: int| 0 <= a < vals.len() && 0 <= b < vals.len() && a != b implies vals[a] != vals[b] by {
            if a < b {
                assert(order[a] != order[b]);
            } else {
                assert(order[b] != order[a]);
            }
        }
    }
    vals.unique_seq_to_set();
    let range = vstd::set_lib::set_int_range(0, n as int);
    vstd::set_lib::lemma_int_range(0, n as int);
    assert(vals.to_set().subset_of(range)) by {
        assert forall|x: int| vals.to_set().contains(x) implies range.contains(x) by {
            let i = choose|i: int| 0 <= i < vals.len() && vals[i] == x;
            assert(order[i] < n);
        }
    }
    vstd::set_lib::lemma_subset_equality(vals.to_set(), range);
    assert(range.contains(j));
    assert(vals.to_set().contains(j));
    let i = choose|i: int| 0 <= i < vals.len() && vals[i] == j;
    assert(order[i] == j);
    assert forall|a: int, b: int| 0 <= a < order.len() && 0 <= b < order.len() && order[a] == j && order[b] == j implies a == b by {
        if a < b {
            assert(order[a] != order[b]);
        } else if b < a {
            assert(order[b] != order[a]);
        }
    }
}

#[derive(Debug)]
pub struct Queue {
    tracks: Vec<TrackId>,
    /// Indices into `tracks`, in play order.
    order: Vec<u32>,
    /// Position inside `order`.
    cursor: Option<usize>,
    shuffle: bool,
    repeat: Repeat,
    rng: Rng,
}

impl Queue {
    pub closed spec fn tracks_spec(&self) -> Seq<TrackId> {
        self.tracks@
    }

    pub closed spec fn order_spec(&self) -> Seq<u32> {
        self.order@
    }

    pub closed spec fn cursor_spec(&self) -> Option<usize> {
        self.cursor
    }

    pub closed spec fn shuffle_spec(&self) -> bool {
        self.shuffle
    }

    pub closed spec fn repeat_spec(&self) -> Repeat {
        self.repeat
    }

    /// The state of the queue's shuffle generator.
    pub closed spec fn rng_spec(&self) -> u64 {
        self.rng.0
    }

    /// The queue's invariant: `order` is a permutation of the queued tracks
    /// and the cursor points into it.
    pub open spec fn wf(&self) -> bool {
        &&& self.tracks_spec().len() <= u32::MAX
        &&& is_permutation(self.order_spec(), self.tracks_spec().len())
        &&& (self.cursor_spec() matches Some(c) ==> c < self.order_spec().len())
        &&& (!self.shuffle_spec() ==> self.order_spec() == identity_order(self.tracks_spec().len()))
    }

    /// The track at play position `cursor`.
    pub open spec fn at_spec(&self, cursor: int) -> Option<TrackId> {
        if 0 <= cursor < self.order_spec().len() && (self.order_spec()[cursor] as int)
            < self.tracks_spec().len() {
            Some(self.tracks_spec()[self.order_spec()[cursor] as int])
        } else {
            None
        }
    }

    pub open spec fn current_spec(&self) -> Option<TrackId> {
        match self.cursor_spec() {
            Some(c) => self.at_spec(c as int),
            None => None,
        }
    }

    pub open spec fn current_index_spec(&self) -> Option<usize> {
        match self.cursor_spec() {
            Some(c) => if c < self.order_spec().len() {
                Some(self.order_spec()[c as int] as usize)
            } else {
                None
            },
            None => None,
        }
    }

    /// Where the cursor goes next, without moving it.
    pub open spec fn next_cursor_spec(&self) -> Option<usize> {
        match self.cursor_spec() {
            None => None,
            Some(c) => if self.repeat_spec() == Repeat::One {
                Some(c)
            } else if c + 1 < self.order_spec().len() {
                Some((c + 1) as usize)
            } else if self.repeat_spec() == Repeat::All && self.order_spec().len() > 0 {
                Some(0usize)
            } else {
                None
            },
        }
    }

    pub open spec fn peek_next_spec(&self) -> Option<TrackId> {
        match self.next_cursor_spec() {
            Some(c) => self.at_spec(c as int),
            None => None,
        }
    }

    /// Where "previous" takes the cursor.
    pub open spec fn previous_cursor_spec(&self) -> Option<usize> {
        match self.cursor_spec() {
            None => None,
            Some(c) => if c > 0 {
                Some((c - 1) as usize)
            } else if self.repeat_spec() == Repeat::All && self.order_spec().len() > 0 {
                Some((self.order_spec().len() - 1) as usize)
            } else {
                None
            },
        }
    }

    /// Going forward: repeat-one stays on the track; otherwise the next play
    /// position, and past the last one only repeat-all starts over.
    pub proof fn lemma_next(q: Queue)
        requires
            q.wf(),
        ensures
            q.cursor_spec() is Some && q.repeat_spec() == Repeat::One ==> q.next_cursor_spec() == q.cursor_spec(),
            q.cursor_spec() is Some && q.repeat_spec() != Repeat::One && q.cursor_spec()->0 + 1 < q.order_spec().len()
                ==> q.next_cursor_spec() == Some((q.cursor_spec()->0 + 1) as usize),
            q.cursor_spec() is Some && q.cursor_spec()->0 + 1 == q.order_spec().len() && q.repeat_spec() == Repeat::Off
                ==> q.next_cursor_spec() is None,
            q.cursor_spec() is Some && q.cursor_spec()->0 + 1 == q.order_spec().len() && q.repeat_spec() == Repeat::All
                ==> q.next_cursor_spec() == Some(0usize),
            q.cursor_spec() is None ==> q.next_cursor_spec() is None,
    {
    }

    /// Going back: one play position earlier; at the first position only
    /// repeat-all wraps to the last one, otherwise there is nothing before.
    pub proof fn lemma_previous(q: Queue)
        requires
            q.wf(),
        ensures
            q.cursor_spec() == Some(0usize) && q.repeat_spec() != Repeat::All ==> q.previous_cursor_spec() is None,
            q.cursor_spec() is Some && q.cursor_spec()->0 > 0 ==> q.previous_cursor_spec() == Some(
                (q.cursor_spec()->0 - 1) as usize,
            ),
            q.cursor_spec() == Some(0usize) && q.repeat_spec() == Repeat::All ==> q.previous_cursor_spec() == Some(
                (q.order_spec().len() - 1) as usize,
            ),
            q.cursor_spec() is None ==> q.previous_cursor_spec() is None,
    {
    }

    /// Replaces the queue and puts the cursor at `start` (index in the
    /// natural order of `tracks`).
    pub fn replace(&mut self, tracks: Vec<TrackId>, start: usize)
        requires
            old(self).wf(),
            tracks.len() <= u32::MAX,
        ensures
            final(self).wf(),
            final(self).tracks_spec() == tracks@,
            final(self).cursor_spec() == (if start < tracks.len() { Some(start) } else { None }),
            final(self).shuffle_spec() == old(self).shuffle_spec(),
            final(self).repeat_spec() == old(self).repeat_spec(),
            start < tracks.len() ==> final(self).current_spec() == Some(tracks@[start as int]),
            start < tracks.len() ==> final(self).current_index_spec() == Some(start),
            !old(self).shuffle_spec() ==> final(self).order_spec() == identity_order(tracks@.len())
                && final(self).rng_spec() == old(self).rng_spec(),
            old(self).shuffle_spec() ==> (final(self).order_spec(), final(self).rng_spec()) == shuffle_from(
                identity_order(tracks@.len()),
                old(self).rng_spec(),
                final(self).cursor_spec(),
                tracks@.len() - 1,
            ),
    {
        let n = tracks.len();
        self.tracks = tracks;
        self.order = natural_order(n);
        self.cursor = if start < n { Some(start) } else { None };
        if self.shuffle {
            self.reshuffle();
        }
    }

    pub fn clear(&mut self)
        requires
            old(self).wf(),
        ensures
            final(self).wf(),
            final(self).tracks_spec().len() == 0,
            final(self).cursor_spec() is None,
            final(self).shuffle_spec() == old(self).shuffle_spec(),
            final(self).repeat_spec() == old(self).repeat_spec(),
    {
        self.tracks.clear();
        self.order.clear();
        self.cursor = None;
        assert(self.order@ =~= identity_order(0));
    }

    pub fn is_empty(&self) -> (r: bool)
        ensures
            r == (self.tracks_spec().len() == 0),
    {
        self.tracks.len() == 0
    }

    pub fn len(&self) -> (r: usize)
        ensures
            r == self.tracks_spec().len(),
    {
        self.tracks.len()
    }

    /// Play-order position counting from 1, as the bar shows "4 / 12".
    pub fn position(&self) -> (r: Option<usize>)
        requires
            self.wf(),
        ensures
            r == (match self.cursor_spec() {
                Some(c) => Some((c + 1) as usize),
                None => None,
            }),
    {
        match self.cursor {
            Some(c) => Some(c + 1),
            None => None,
        }
    }

    pub fn shuffle(&self) -> (r: bool)
        ensures
            r == self.shuffle_spec(),
    {
        self.shuffle
    }

    pub fn repeat(&self) -> (r: Repeat)
        ensures
            r == self.repeat_spec(),
    {
        self.repeat
    }

    pub fn set_repeat(&mut self, repeat: Repeat)
        requires
            old(self).wf(),
        ensures
            final(self).wf(),
            final(self).repeat_spec() == repeat,
            final(self).tracks_spec() == old(self).tracks_spec(),
            final(self).order_spec() == old(self).order_spec(),
            final(self).cursor_spec() == old(self).cursor_spec(),
            final(self).shuffle_spec() == old(self).shuffle_spec(),
    {
        self.repeat = repeat;
    }

    /// The track playing now.
    pub fn current(&self) -> (r: Option<TrackId>)
        ensures
            r == self.current_spec(),
    {
        match self.cursor {
            Some(c) => self.at(c),
            None => None,
        }
    }

    /// Index of the current track in the natural order.
    pub fn current_index(&self) -> (r: Option<usize>)
        ensures
            r == self.current_index_spec(),
    {
        match self.cursor {
            Some(c) => if c < self.order.len() {
                Some(self.order[c] as usize)
            } else {
                None
            },
            None => None,
        }
    }

    /// The next track, without moving the cursor.
    pub fn peek_next(&self) -> (r: Option<TrackId>)
        ensures
            r == self.peek_next_spec(),
    {
        match self.next_cursor() {
            Some(c) => self.at(c),
            None => None,
        }
    }

    /// Moves forward and returns the new current track.
    pub fn advance(&mut self) -> (r: Option<TrackId>)
        requires
            old(self).wf(),
        ensures
            final(self).wf(),
            r == old(self).peek_next_spec(),
            final(self).cursor_spec() == (match old(self).next_cursor_spec() {
                Some(c) => Some(c),
                None => old(self).cursor_spec(),
            }),
            final(self).tracks_spec() == old(self).tracks_spec(),
            final(self).order_spec() == old(self).order_spec(),
            final(self).shuffle_spec() == old(self).shuffle_spec(),
            final(self).repeat_spec() == old(self).repeat_spec(),
            old(self).cursor_spec() is Some && old(self).repeat_spec() == Repeat::One ==> final(self).cursor_spec()
                == old(self).cursor_spec() && r == old(self).current_spec(),
            old(self).cursor_spec() is Some && old(self).repeat_spec() != Repeat::One && old(self).cursor_spec()->0 + 1
                < old(self).order_spec().len() ==> final(self).cursor_spec() == Some((old(self).cursor_spec()->0 + 1) as usize)
                && r == old(self).at_spec(old(self).cursor_spec()->0 + 1),
            old(self).cursor_spec() is Some && old(self).cursor_spec()->0 + 1 == old(self).order_spec().len()
                && old(self).repeat_spec() == Repeat::Off ==> r is None && final(self).cursor_spec() == old(self).cursor_spec(),
            old(self).cursor_spec() is Some && old(self).cursor_spec()->0 + 1 == old(self).order_spec().len()
                && old(self).repeat_spec() == Repeat::All ==> final(self).cursor_spec() == Some(0usize) && r == old(
                self,
            ).at_spec(0),
            old(self).cursor_spec() is None ==> r is None && final(self).cursor_spec() is None,
    {
        proof {
            Queue::lemma_next(*old(self));
        }
        match self.next_cursor() {
            Some(c) => {
                self.cursor = Some(c);
                self.current()
            },
            None => None,
        }
    }

    /// Goes back one track. Ignores `Repeat::One`: pressing "previous"
    /// means leaving the track.
    pub fn previous(&mut self) -> (r: Option<TrackId>)
        requires
            old(self).wf(),
        ensures
            final(self).wf(),
            final(self).cursor_spec() == (match old(self).previous_cursor_spec() {
                Some(c) => Some(c),
                None => old(self).cursor_spec(),
            }),
            r == (match old(self).previous_cursor_spec() {
                Some(c) => old(self).at_spec(c as int),
                None => None,
            }),
            final(self).tracks_spec() == old(self).tracks_spec(),
            final(self).order_spec() == old(self).order_spec(),
            final(self).shuffle_spec() == old(self).shuffle_spec(),
            final(self).repeat_spec() == old(self).repeat_spec(),
            old(self).cursor_spec() == Some(0usize) && old(self).repeat_spec() != Repeat::All ==> r is None
                && final(self).cursor_spec() == Some(0usize),
            old(self).cursor_spec() is Some && old(self).cursor_spec()->0 > 0 ==> final(self).cursor_spec() == Some(
                (old(self).cursor_spec()->0 - 1) as usize,
            ) && r == old(self).at_spec(old(self).cursor_spec()->0 - 1),
            old(self).cursor_spec() == Some(0usize) && old(self).repeat_spec() == Repeat::All ==> final(self).cursor_spec()
                == Some((old(self).order_spec().len() - 1) as usize),
            old(self).cursor_spec() is None ==> r is None && final(self).cursor_spec() is None,
    {
        proof {
            Queue::lemma_previous(*old(self));
        }
        let cursor = match self.cursor {
            Some(c) => c,
            None => return None,
        };
        let target = if cursor > 0 {
            cursor - 1
        } else if self.repeat == Repeat::All && self.order.len() > 0 {
            self.order.len() - 1
        } else {
            return None;
        };
        self.cursor = Some(target);
        self.current()
    }

    /// Turns shuffle on or off, keeping the current track.
    pub fn set_shuffle(&mut self, shuffle: bool)
        requires
            old(self).wf(),
        ensures
            final(self).wf(),
            final(self).shuffle_spec() == shuffle,
            final(self).tracks_spec() == old(self).tracks_spec(),
            final(self).repeat_spec() == old(self).repeat_spec(),
            final(self).current_spec() == old(self).current_spec(),
            final(self).current_index_spec() == old(self).current_index_spec(),
            shuffle == old(self).shuffle_spec() ==> final(self).order_spec() == old(self).order_spec()
                && final(self).cursor_spec() == old(self).cursor_spec() && final(self).rng_spec() == old(self).rng_spec(),
            !shuffle ==> final(self).order_spec() == identity_order(old(self).tracks_spec().len()),
            (old(self).cursor_spec() is Some) == (final(self).cursor_spec() is Some),
            shuffle && !old(self).shuffle_spec() ==> final(self).cursor_spec() == old(self).cursor_spec()
                && (final(self).order_spec(), final(self).rng_spec()) == shuffle_from(
                old(self).order_spec(),
                old(self).rng_spec(),
                old(self).cursor_spec(),
                old(self).order_spec().len() - 1,
            ),
            !shuffle ==> final(self).rng_spec() == old(self).rng_spec(),
    {
        if self.shuffle == shuffle {
            return;
        }
        self.shuffle = shuffle;
        let playing = self.current_index();
        if shuffle {
            self.reshuffle();
        } else {
            self.order = natural_order(self.tracks.len());
        }
        let ghost witness: int = if shuffle {
            match old(self).cursor { Some(c) => c as int, None => 0 }
        } else {
            match playing { Some(p) => p as int, None => 0 }
        };
        self.cursor = match playing {
            Some(natural) => position_of(&self.order, natural, Ghost(witness)),
            None => None,
        };
        proof {
            if playing is Some {
                let c = self.cursor->0;
                assert(self.order@[c as int] as usize == playing->0);
                if shuffle {
                    let c0 = old(self).cursor->0;
                    assert(self.order@[c0 as int] as usize == playing->0);
                    if c != c0 {
                        if c < c0 {
                            assert(self.order@[c as int] != self.order@[c0 as int]);
                        } else {
                            assert(self.order@[c0 as int] != self.order@[c as int]);
                        }
                    }
                }
            }
        }
    }

    /// Shuffles everything but the current track, which stays where it is.
    fn reshuffle(&mut self)
        requires
            old(self).tracks@.len() <= u32::MAX,
            is_permutation(old(self).order@, old(self).tracks@.len()),
            old(self).cursor matches Some(c) ==> c < old(self).order@.len(),
        ensures
            is_permutation(final(self).order@, final(self).tracks@.len()),
            final(self).tracks@ == old(self).tracks@,
            final(self).cursor == old(self).cursor,
            final(self).shuffle == old(self).shuffle,
            final(self).repeat == old(self).repeat,
            old(self).cursor matches Some(c) ==> final(self).order@[c as int] == old(self).order@[c as int],
            (final(self).order@, final(self).rng.0) == shuffle_from(
                old(self).order@,
                old(self).rng.0,
                old(self).cursor,
                old(self).order@.len() - 1,
            ),
    {
        let fixed = self.cursor;
        let len = self.order.len();
        if len < 2 {
            return;
        }
        // Fisher-Yates from the back, skipping the cursor's position.
        let mut i = len - 1;
        while i >= 1
            invariant
                1 <= len == self.order@.len(),
                i < len,
                self.tracks@ == old(self).tracks@,
                self.cursor == fixed,
                fixed == old(self).cursor,
                self.shuffle == old(self).shuffle,
                self.repeat == old(self).repeat,
                is_permutation(self.order@, self.tracks@.len()),
                fixed matches Some(c) ==> c < len && self.order@[c as int] == old(self).order@[c as int],
                shuffle_from(self.order@, self.rng.0, fixed, i as int) == shuffle_from(
                    old(self).order@,
                    old(self).rng.0,
                    fixed,
                    len - 1,
                ),
            decreases i,
        {
            if fixed != Some(i) {
                let mut j = self.rng.below(i + 1);
                if fixed == Some(j) {
                    j = if j == 0 { i } else { j - 1 };
                }
                if fixed != Some(j) {
                    let a = self.order[i];
                    let b = self.order[j];
                    let ghost before = self.order@;
                    self.order.set(i, b);
                    self.order.set(j, a);
                    proof {
                        lemma_swap_permutation(before, i as int, j as int, self.tracks@.len());
                        assert(self.order@ =~= before.update(i as int, b).update(j as int, a));
                    }
                }
            }
            i -= 1;
        }
    }

    fn at(&self, cursor: usize) -> (r: Option<TrackId>)
        ensures
            r == self.at_spec(cursor as int),
    {
        if cursor < self.order.len() {
            let index = self.order[cursor] as usize;
            if index < self.tracks.len() {
                return Some(self.tracks[index]);
            }
        }
        None
    }

    fn next_cursor(&self) -> (r: Option<usize>)
        ensures
            r == self.next_cursor_spec(),
    {
        let cursor = match self.cursor {
            Some(c) => c,
            None => return None,
        };
        if self.repeat == Repeat::One {
            return Some(cursor);
        }
        if cursor < self.order.len() && cursor + 1 < self.order.len() {
            Some(cursor + 1)
        } else if self.repeat == Repeat::All && self.order.len() > 0 {
            Some(0)
        } else {
            None
        }
    }
}

impl Default for Queue {
    fn default() -> (q: Self)
        ensures
            q.wf(),
            q.tracks_spec().len() == 0,
            q.cursor_spec() is None,
            !q.shuffle_spec(),
            q.repeat_spec() == Repeat::Off,
    {
        let q = Queue {
            tracks: Vec::new(),
            order: Vec::new(),
            cursor: None,
            shuffle: false,
            repeat: Repeat::Off,
            rng: Rng::from_clock(),
        };
        assert(q.order@ =~= identity_order(0));
        q
    }
}

/// `0, 1, …, n - 1`.
fn natural_order(n: usize) -> (order: Vec<u32>)
    requires
        n <= u32::MAX,
    ensures
        order@ == identity_order(n as nat),
        is_permutation(order@, n as nat),
{
    let mut order: Vec<u32> = Vec::new();
    let mut i: usize = 0;
    while i < n
        invariant
            i <= n <= u32::MAX,
            order@ == identity_order(i as nat),
        decreases n - i,
    {
        order.push(i as u32);
        i += 1;
        assert(order@ =~= identity_order(i as nat));
    }
    order
}

/// Where `natural` sits in the permutation `order`.
fn position_of(order: &Vec<u32>, natural: usize, Ghost(witness): Ghost<int>) -> (r: Option<usize>)
    requires
        0 <= witness < order.len(),
        order@[witness] as usize == natural,
    ensures
        r matches Some(c) && c < order.len() && order@[c as int] as usize == natural,
{
    let mut i: usize = 0;
    while i < order.len()
        invariant
            i <= order.len(),
            forall|j: int| 0 <= j < i ==> order@[j] as usize != natural,
            exists|j: int| 0 <= j < order.len() && order@[j] as usize == natural,
        decreases order.len() - i,
    {
        if order[i] as usize == natural {
            return Some(i);
        }
        i += 1;
    }
    None
}

pub proof fn lemma_swap_permutation(order: Seq<u32>, i: int, j: int, n: nat)
    requires
        is_permutation(order, n),
        0 <= i < order.len(),
        0 <= j < order.len(),
    ensures
        is_permutation(order.update(i, order[j]).update(j, order[i]), n),
{
    let s = order.update(i, order[j]).update(j, order[i]);
    assert forall|x: int, y: int| 0 <= x < y < s.len() implies (#[trigger] s[x]) != (#[trigger] s[y]) by {
        let ox = if x == j { i } else if x == i { j } else { x };
        let oy = if y == j { i } else if y == i { j } else { y };
        assert(s[x] == order[ox]);
        assert(s[y] == order[oy]);
        if ox < oy {
            assert(order[ox] != order[oy]);
        } else if oy < ox {
            assert(order[oy] != order[ox]);
        }
    }
}

} // verus!
