//! The merge of the user layer. Two devices, one rule per table, all of
//! them convergent (applying the same snapshot twice gives the same result):
//!
//! | Table           | Rule                                                  |
//! |-----------------|-------------------------------------------------------|
//! | `playlist`      | LWW by `updated_at`, ties broken by `origin` (bytes)  |
//! | `playlist_item` | union by `(playlist_id, position)`; LWW tombstone by `deleted_at` |
//! | `play_count`    | G-Counter: `MAX(count)` per `(track_key, device_id)`  |
//! | `track_state`   | LWW **per field** (`rating` and `resume_pos` apart)   |
//!
//! `deleted` (playlist and item) is respected: what one device deleted stays
//! deleted, the other one does not bring it back.
//!
//! Each function here decides one row: given what the local table holds
//! under the row's key (if anything) and the incoming row, what the table
//! holds afterwards.
use vstd::prelude::*;

use crate::index::art::same_hash;
use crate::sync::protocol::{DeviceRow, ItemRow, PlaylistRow, TrackStateRow};

verus! {

// ---------------------------------------------------------------------------
// Byte order
// ---------------------------------------------------------------------------

/// Lexicographic order of byte strings, as `<` on `[u8]` compares them.
pub open spec fn bytes_lt(a: Seq<u8>, b: Seq<u8>) -> bool
    decreases a.len(),
{
    if a.len() == 0 {
        b.len() > 0
    } else if b.len() == 0 {
        false
    } else if a[0] != b[0] {
        a[0] < b[0]
    } else {
        bytes_lt(a.drop_first(), b.drop_first())
    }
}

/// Of two different byte strings, exactly one is the smaller.
pub proof fn lemma_bytes_lt_total(a: Seq<u8>, b: Seq<u8>)
    ensures
        a != b ==> (bytes_lt(a, b) != bytes_lt(b, a)),
        a == b ==> !bytes_lt(a, b),
    decreases a.len(),
{
    if a.len() > 0 && b.len() > 0 && a[0] == b[0] {
        lemma_bytes_lt_total(a.drop_first(), b.drop_first());
        if a != b {
            assert(a.drop_first() != b.drop_first()) by {
                if a.drop_first() == b.drop_first() {
                    assert(a =~= seq![a[0]] + a.drop_first());
                    assert(b =~= seq![b[0]] + b.drop_first());
                }
            }
        }
    } else if a.len() == 0 && b.len() == 0 {
        assert(a =~= b);
    }
}

/// `a > b` on byte slices.
pub fn bytes_greater(a: &[u8], b: &[u8]) -> (r: bool)
    ensures
        r == bytes_lt(b@, a@),
{
    let mut i: usize = 0;
    assert(a@.subrange(0, a@.len() as int) =~= a@);
    assert(b@.subrange(0, b@.len() as int) =~= b@);
    while i < a.len() && i < b.len()
        invariant
            i <= a@.len(),
            i <= b@.len(),
            a@.subrange(0, i as int) == b@.subrange(0, i as int),
            bytes_lt(b@, a@) == bytes_lt(b@.subrange(i as int, b@.len() as int), a@.subrange(i as int, a@.len() as int)),
        decreases a.len() - i,
    {
        if a[i] != b[i] {
            return a[i] > b[i];
        }
        proof {
            let bs = b@.subrange(i as int, b@.len() as int);
            let as_ = a@.subrange(i as int, a@.len() as int);
            assert(bs.drop_first() =~= b@.subrange(i + 1, b@.len() as int));
            assert(as_.drop_first() =~= a@.subrange(i + 1, a@.len() as int));
            assert(a@.subrange(0, i + 1) =~= a@.subrange(0, i as int).push(a@[i as int]));
            assert(b@.subrange(0, i + 1) =~= b@.subrange(0, i as int).push(b@[i as int]));
        }
        i += 1;
    }
    a.len() > b.len()
}

// ---------------------------------------------------------------------------
// playlist: LWW
// ---------------------------------------------------------------------------

/// Whether an incoming playlist version replaces the local one: when there
/// is none, when it is newer, or on a tie when its origin is the greater.
pub open spec fn playlist_takes(local: Option<(i64, Seq<u8>)>, updated_at: i64, origin: Seq<u8>) -> bool {
    match local {
        None => true,
        Some((lu, lo)) => updated_at > lu || (updated_at == lu && bytes_lt(lo, origin)),
    }
}

/// Decides the playlist rule for one incoming row; `local` is the stored
/// `(updated_at, origin)` of the same id.
pub fn playlist_wins(local: &Option<(i64, Vec<u8>)>, incoming: &PlaylistRow) -> (r: bool)
    ensures
        r == playlist_takes(
            match local {
                None => None,
                Some(l) => Some((l.0, l.1@)),
            },
            incoming.updated_at,
            incoming.origin@,
        ),
{
    match local {
        None => true,
        Some((lu, lo)) => incoming.updated_at > *lu || (incoming.updated_at == *lu
            && bytes_greater(incoming.origin.as_slice(), lo.as_slice())),
    }
}

/// LWW converges: once a version is stored, the same version does not win
/// again; an older version never wins; and of two different versions,
/// whichever arrives second wins exactly when it is the greater, so both
/// orders of arrival keep the same one.
pub proof fn lemma_playlist_lww(u1: i64, o1: Seq<u8>, u2: i64, o2: Seq<u8>)
    ensures
        !playlist_takes(Some((u1, o1)), u1, o1),
        u2 < u1 ==> !playlist_takes(Some((u1, o1)), u2, o2),
        (u1, o1) != (u2, o2) ==> playlist_takes(Some((u1, o1)), u2, o2) != playlist_takes(Some((u2, o2)), u1, o1),
{
    lemma_bytes_lt_total(o1, o2);
    lemma_bytes_lt_total(o1, o1);
}

// ---------------------------------------------------------------------------
// playlist_item: union + LWW tombstone
// ---------------------------------------------------------------------------

/// What the merge does with one incoming item.
#[derive(Debug, Clone, Copy, PartialEq, Eq, Structural)]
pub enum ItemAction {
    /// Its playlist is not here (LWW did not bring it): ignored.
    Skip,
    /// New `(playlist_id, position)`: inserted as it came.
    Insert,
    /// Known position, newer tombstone: `deleted` and `deleted_at` copied.
    Tombstone,
    /// Known position, not newer: left alone.
    Keep,
}

pub open spec fn item_action_spec(playlist_known: bool, local_deleted_at: Option<i64>, deleted_at: i64) -> ItemAction {
    if !playlist_known {
        ItemAction::Skip
    } else {
        match local_deleted_at {
            None => ItemAction::Insert,
            Some(d) => if deleted_at > d {
                ItemAction::Tombstone
            } else {
                ItemAction::Keep
            },
        }
    }
}

/// Decides the item rule; `local_deleted_at` is the stored `deleted_at` of
/// the same `(playlist_id, position)`.
pub fn item_action(playlist_known: bool, local_deleted_at: Option<i64>, incoming: &ItemRow) -> (r: ItemAction)
    ensures
        r == item_action_spec(playlist_known, local_deleted_at, incoming.deleted_at),
{
    if !playlist_known {
        ItemAction::Skip
    } else {
        match local_deleted_at {
            None => ItemAction::Insert,
            Some(d) => if incoming.deleted_at > d {
                ItemAction::Tombstone
            } else {
                ItemAction::Keep
            },
        }
    }
}

/// A deletion made on one side is not undone by the other: an incoming row
/// whose `deleted_at` is not newer than the local one changes nothing, and
/// after an insert or a tombstone the same row changes nothing again.
pub proof fn lemma_item_tombstone(local_deleted_at: i64, deleted_at: i64)
    ensures
        deleted_at <= local_deleted_at ==> item_action_spec(true, Some(local_deleted_at), deleted_at) == ItemAction::Keep,
        item_action_spec(true, Some(deleted_at), deleted_at) == ItemAction::Keep,
{
}

// ---------------------------------------------------------------------------
// play_count: G-Counter
// ---------------------------------------------------------------------------

pub open spec fn max_i64(a: i64, b: i64) -> i64 {
    if a >= b { a } else { b }
}

pub open spec fn merged_count_spec(local: Option<i64>, incoming: i64) -> i64 {
    match local {
        None => incoming,
        Some(l) => max_i64(l, incoming),
    }
}

/// The count stored for a `(track_key, device_id)` after the merge.
pub fn merged_count(local: Option<i64>, incoming: i64) -> (r: i64)
    ensures
        r == merged_count_spec(local, incoming),
{
    match local {
        None => incoming,
        Some(l) => if l >= incoming { l } else { incoming },
    }
}

/// No play is lost, the merge is idempotent, and the order in which two
/// snapshots arrive does not matter.
pub proof fn lemma_play_count(l: i64, a: i64, b: i64)
    ensures
        merged_count_spec(Some(l), a) >= l,
        merged_count_spec(Some(l), a) >= a,
        merged_count_spec(Some(merged_count_spec(Some(l), a)), a) == merged_count_spec(Some(l), a),
        merged_count_spec(Some(merged_count_spec(Some(l), a)), b) == merged_count_spec(Some(merged_count_spec(Some(l), b)), a),
        merged_count_spec(Some(merged_count_spec(None, a)), b) == merged_count_spec(Some(merged_count_spec(None, b)), a),
{
}

// ---------------------------------------------------------------------------
// track_state: LWW per field
// ---------------------------------------------------------------------------

/// `NULLIF(MAX(COALESCE(a, 0), COALESCE(b, 0)), 0)`.
pub open spec fn latest_played(a: Option<i64>, b: Option<i64>) -> Option<i64> {
    let m = max_i64(
        match a {
            Some(x) => x,
            None => 0,
        },
        match b {
            Some(x) => x,
            None => 0,
        },
    );
    if m == 0 {
        None
    } else {
        Some(m)
    }
}

pub open spec fn merge_track_state_spec(local: Option<TrackStateRow>, e: TrackStateRow) -> TrackStateRow {
    match local {
        None => e,
        Some(l) => TrackStateRow {
            track_key: l.track_key,
            last_played_at: latest_played(l.last_played_at, e.last_played_at),
            rating: if e.rating_updated_at > l.rating_updated_at {
                e.rating
            } else {
                l.rating
            },
            rating_updated_at: max_i64(l.rating_updated_at, e.rating_updated_at),
            resume_pos_ms: if e.resume_updated_at > l.resume_updated_at {
                e.resume_pos_ms
            } else {
                l.resume_pos_ms
            },
            resume_updated_at: max_i64(l.resume_updated_at, e.resume_updated_at),
        },
    }
}

fn coalesce_zero(a: Option<i64>) -> (r: i64)
    ensures
        r == (match a {
            Some(x) => x,
            None => 0,
        }),
{
    match a {
        Some(x) => x,
        None => 0,
    }
}

/// The `track_state` row stored for a track after the merge: the last
/// play is the latest of the two, and rating and resume position each come
/// from the side that wrote it last.
pub fn merge_track_state(local: Option<TrackStateRow>, incoming: &TrackStateRow) -> (r: TrackStateRow)
    ensures
        r == merge_track_state_spec(local, *incoming),
        forall|x: i64|
            local is Some && incoming.last_played_at == Some(x) && x > 0 ==> (#[trigger] r.last_played_at matches Some(y)
                && y >= x),
        forall|x: i64|
            local is Some && local->0.last_played_at == Some(x) && x > 0 ==> (#[trigger] r.last_played_at matches Some(
                y,
            ) && y >= x),
        local matches Some(l) ==> (r.last_played_at matches Some(y) ==> (l.last_played_at == Some(y)
            || incoming.last_played_at == Some(y))),
{
    proof {
        lemma_last_played_latest(local, *incoming);
    }
    match local {
        None => *incoming,
        Some(l) => {
            let a = coalesce_zero(l.last_played_at);
            let b = coalesce_zero(incoming.last_played_at);
            let m = if a >= b { a } else { b };
            TrackStateRow {
                track_key: l.track_key,
                last_played_at: if m == 0 {
                    None
                } else {
                    Some(m)
                },
                rating: if incoming.rating_updated_at > l.rating_updated_at {
                    incoming.rating
                } else {
                    l.rating
                },
                rating_updated_at: if l.rating_updated_at >= incoming.rating_updated_at {
                    l.rating_updated_at
                } else {
                    incoming.rating_updated_at
                },
                resume_pos_ms: if incoming.resume_updated_at > l.resume_updated_at {
                    incoming.resume_pos_ms
                } else {
                    l.resume_pos_ms
                },
                resume_updated_at: if l.resume_updated_at >= incoming.resume_updated_at {
                    l.resume_updated_at
                } else {
                    incoming.resume_updated_at
                },
            }
        },
    }
}

/// The last play kept is the later of the two: a positive play on either
/// side is never replaced by an earlier one, and what is kept is one of the
/// two plays.
pub proof fn lemma_last_played_latest(local: Option<TrackStateRow>, e: TrackStateRow)
    ensures
        local is None ==> merge_track_state_spec(local, e) == e,
        forall|x: i64|
            local is Some && e.last_played_at == Some(x) && x > 0 ==> (#[trigger] merge_track_state_spec(
                local,
                e,
            ).last_played_at matches Some(y) && y >= x),
        forall|x: i64|
            local is Some && local->0.last_played_at == Some(x) && x > 0 ==> (#[trigger] merge_track_state_spec(
                local,
                e,
            ).last_played_at matches Some(y) && y >= x),
        local matches Some(l) ==> (merge_track_state_spec(local, e).last_played_at matches Some(y) ==> (l.last_played_at
            == Some(y) || e.last_played_at == Some(y))),
{
}

/// Merging the same row twice gives what merging it once gave, and the
/// newest write of each field wins. (A first row whose last play is stored
/// as `0` is the exception: the second merge reads that `0` as "never".)
pub proof fn lemma_track_state(local: Option<TrackStateRow>, e: TrackStateRow)
    requires
        local is Some || e.last_played_at != Some(0i64),
    ensures
        merge_track_state_spec(Some(merge_track_state_spec(local, e)), e) == merge_track_state_spec(local, e),
        local matches Some(l) ==> (e.rating_updated_at > l.rating_updated_at ==> merge_track_state_spec(local, e).rating == e.rating),
        local matches Some(l) ==> (e.rating_updated_at <= l.rating_updated_at ==> merge_track_state_spec(local, e).rating == l.rating),
        local matches Some(l) ==> (e.resume_updated_at > l.resume_updated_at ==> merge_track_state_spec(local, e).resume_pos_ms == e.resume_pos_ms),
        local matches Some(l) ==> (e.resume_updated_at <= l.resume_updated_at ==> merge_track_state_spec(local, e).resume_pos_ms == l.resume_pos_ms),
{
}

// ---------------------------------------------------------------------------
// device
// ---------------------------------------------------------------------------

/// A device row of the snapshot, as stored: inserted as not-self with its
/// pairing time (or `now`), or, when already known, only renamed.
pub open spec fn device_upsert_spec(local: Option<DeviceRow>, d: DeviceRow, now: i64) -> DeviceRow {
    match local {
        None => DeviceRow {
            id: d.id,
            name: d.name,
            is_self: false,
            paired_at: Some(
                match d.paired_at {
                    Some(p) => p,
                    None => now,
                },
            ),
            last_sync_at: d.last_sync_at,
        },
        Some(l) => DeviceRow { name: d.name, ..l },
    }
}

/// The device table row after merging one incoming device row. The caller
/// skips the row that names this device itself.
pub fn device_upsert(local: Option<DeviceRow>, incoming: &DeviceRow, now: i64) -> (r: DeviceRow)
    ensures
        r == device_upsert_spec(local, *incoming, now),
{
    match local {
        None => DeviceRow {
            id: incoming.id,
            name: incoming.name.clone(),
            is_self: false,
            paired_at: Some(
                match incoming.paired_at {
                    Some(p) => p,
                    None => now,
                },
            ),
            last_sync_at: incoming.last_sync_at,
        },
        Some(l) => DeviceRow { name: incoming.name.clone(), ..l },
    }
}

/// Whether an incoming device row names this device itself.
pub open spec fn names_self(self_id: Option<[u8; 32]>, d: DeviceRow) -> bool {
    self_id matches Some(s) && s@ == d.id@
}

/// What merging one incoming device row leaves in the device table: a
/// peer never touches the row of this device itself (`None`: nothing is
/// written); any other row is merged as [`device_upsert`] does.
pub open spec fn merge_device_spec(self_id: Option<[u8; 32]>, local: Option<DeviceRow>, d: DeviceRow, now: i64) -> Option<DeviceRow> {
    if names_self(self_id, d) {
        None
    } else {
        Some(device_upsert_spec(local, d, now))
    }
}

/// One incoming device row merged against the local table, `self_id` being
/// the id of the row marked as this device (if there is one). The row of
/// this device is never written; any other is inserted or renamed.
pub fn merge_device(self_id: Option<[u8; 32]>, local: Option<DeviceRow>, incoming: &DeviceRow, now: i64) -> (r: Option<DeviceRow>)
    ensures
        r == merge_device_spec(self_id, local, *incoming, now),
        r is None <==> names_self(self_id, *incoming),
{
    match self_id {
        Some(s) => if same_hash(&s, &incoming.id) {
            return None;
        },
        None => {},
    }
    Some(device_upsert(local, incoming, now))
}

/// A device that an incoming row points to (as origin of a playlist or as
/// counter of plays): kept if known, otherwise created as an unknown peer.
pub fn ensure_device(local: Option<DeviceRow>, id: [u8; 32]) -> (r: DeviceRow)
    ensures
        local matches Some(l) ==> r == l,
        local is None ==> r.id == id && r.name@ == "(desconhecido)"@ && !r.is_self
            && r.paired_at is None && r.last_sync_at is None,
{
    match local {
        Some(l) => l,
        None => DeviceRow {
            id,
            name: "(desconhecido)".to_string(),
            is_self: false,
            paired_at: None,
            last_sync_at: None,
        },
    }
}

/// The peer, stamped as synced at `now`: paired since its first sync.
pub fn stamp_peer(local: Option<DeviceRow>, peer: [u8; 32], now: i64) -> (r: DeviceRow)
    ensures
        local matches Some(l) ==> r.id == l.id && r.name == l.name && r.is_self == l.is_self
            && r.paired_at == (match l.paired_at {
                Some(p) => Some(p),
                None => Some(now),
            }) && r.last_sync_at == Some(now),
        local is None ==> r.id == peer && r.name@ == "dispositivo pareado"@ && !r.is_self
            && r.paired_at == Some(now) && r.last_sync_at == Some(now),
{
    match local {
        None => DeviceRow {
            id: peer,
            name: "dispositivo pareado".to_string(),
            is_self: false,
            paired_at: Some(now),
            last_sync_at: Some(now),
        },
        Some(l) => {
            let paired_at = match l.paired_at {
                Some(p) => Some(p),
                None => Some(now),
            };
            DeviceRow { paired_at, last_sync_at: Some(now), ..l }
        },
    }
}

// ---------------------------------------------------------------------------
// Raw ids from the index
// ---------------------------------------------------------------------------

/// A 32-byte id from a blob column; `None` when the blob has another size.
pub fn arr32(v: &[u8]) -> (r: Option<[u8; 32]>)
    ensures
        r is Some == (v@.len() == 32),
        r matches Some(a) ==> a@ == v@,
{
    if v.len() != 32 {
        return None;
    }
    let mut out = [0u8; 32];
    let mut i: usize = 0;
    while i < 32
        invariant
            v@.len() == 32,
            i <= 32,
            out@.len() == 32,
            forall|j: int| 0 <= j < i ==> out@[j] == v@[j],
        decreases 32 - i,
    {
        out[i] = v[i];
        i += 1;
    }
    assert(out@ =~= v@);
    Some(out)
}

/// A 16-byte id (playlist UUID) from a blob column.
pub fn arr16(v: &[u8]) -> (r: Option<[u8; 16]>)
    ensures
        r is Some == (v@.len() == 16),
        r matches Some(a) ==> a@ == v@,
{
    if v.len() != 16 {
        return None;
    }
    let mut out = [0u8; 16];
    let mut i: usize = 0;
    while i < 16
        invariant
            v@.len() == 16,
            i <= 16,
            out@.len() == 16,
            forall|j: int| 0 <= j < i ==> out@[j] == v@[j],
        decreases 16 - i,
    {
        out[i] = v[i];
        i += 1;
    }
    assert(out@ =~= v@);
    Some(out)
}

} // verus!
