//! Playlists: items ordered by fractional positions, and playlists linked to
//! a folder of the library.
//!
//! The queries live with the caller; here is what they decide: where a
//! moved item lands, which position each appended track takes, and which
//! tracks of a linked folder still have to enter its playlist.
use vstd::prelude::*;

use crate::fracidx::{ascii, between, between_spec, key_lt, lemma_between, valid_key, well_formed_key};
use crate::model::TrackId;
use crate::strutil::chars_of;

verus! {

/// An item of a playlist. `track` is `None` when the file is not here.
#[derive(Debug, Clone, PartialEq, Eq)]
pub struct Item {
    pub position: String,
    pub track: Option<TrackId>,
}

/// Positions that `between` accepts as neighbours.
pub open spec fn usable_position(p: Seq<char>) -> bool {
    ascii(p) && (p.len() > 0 ==> p[0] != '\0')
}

/// Whether a stored position can be handed to [`move_target`].
pub fn is_usable_position(p: &str) -> (r: bool)
    ensures
        r == usable_position(p@),
{
    let cs = chars_of(p);
    let mut i: usize = 0;
    while i < cs.len()
        invariant
            i <= cs@.len(),
            cs@ == p@,
            forall|j: int| 0 <= j < i ==> (#[trigger] cs@[j]) <= '\u{7f}',
        decreases cs.len() - i,
    {
        if cs[i] > '\u{7f}' {
            return false;
        }
        i += 1;
    }
    cs.len() == 0 || cs[0] != '\0'
}

pub open spec fn strings_view(v: Seq<String>) -> Seq<Seq<char>> {
    v.map_values(|s: String| s@)
}

/// Index of the first occurrence of `p` in `ps`, if any.
pub open spec fn index_of(ps: Seq<Seq<char>>, p: Seq<char>) -> Option<int>
    decreases ps.len(),
{
    if ps.len() == 0 {
        None
    } else {
        match index_of(ps.drop_last(), p) {
            Some(i) => Some(i),
            None => if ps.last() == p {
                Some(ps.len() - 1)
            } else {
                None
            },
        }
    }
}

/// Where the item at `position` lands when moved to index `to` of the list:
/// the key between its new neighbours once it has left its old place.
/// `None` when no item sits at `position`.
pub open spec fn move_target_spec(ordered: Seq<Seq<char>>, position: Seq<char>, to: nat) -> Option<Seq<char>> {
    match index_of(ordered, position) {
        None => None,
        Some(from) => {
            let rest = ordered.remove(from);
            let t = if to <= rest.len() {
                to as int
            } else {
                rest.len() as int
            };
            let after = if t >= 1 {
                Some(rest[t - 1])
            } else {
                None
            };
            let before = if t < rest.len() {
                Some(rest[t])
            } else {
                None
            };
            Some(between_spec(after, before))
        },
    }
}

fn same_chars(a: &Vec<char>, b: &Vec<char>) -> (r: bool)
    ensures
        r == (a@ == b@),
{
    if a.len() != b.len() {
        return false;
    }
    let mut i: usize = 0;
    while i < a.len()
        invariant
            a@.len() == b@.len(),
            i <= a@.len(),
            forall|j: int| 0 <= j < i ==> a@[j] == b@[j],
        decreases a.len() - i,
    {
        if a[i] != b[i] {
            return false;
        }
        i += 1;
    }
    assert(a@ =~= b@);
    true
}

proof fn lemma_index_of(ps: Seq<Seq<char>>, p: Seq<char>, i: int)
    requires
        0 <= i <= ps.len(),
        forall|j: int| 0 <= j < i ==> ps[j] != p,
    ensures
        index_of(ps.take(i), p) is None,
        i < ps.len() && ps[i] == p ==> index_of(ps, p) == Some(i),
        i == ps.len() ==> index_of(ps, p) is None,
    decreases i,
{
    if i > 0 {
        lemma_index_of(ps.take(i), p, i - 1);
        assert(ps.take(i).take(i - 1) =~= ps.take(i - 1));
        assert(ps.take(i).drop_last() =~= ps.take(i - 1));
    }
    if i < ps.len() && ps[i] == p {
        lemma_index_prefix(ps, p, i);
    }
    if i == ps.len() {
        assert(ps.take(i) =~= ps);
    }
}

proof fn lemma_index_prefix(ps: Seq<Seq<char>>, p: Seq<char>, i: int)
    requires
        0 <= i < ps.len(),
        ps[i] == p,
        index_of(ps.take(i), p) is None,
    ensures
        index_of(ps, p) == Some(i),
    decreases ps.len(),
{
    if i == ps.len() - 1 {
        assert(ps.drop_last() =~= ps.take(i));
    } else {
        assert(ps.drop_last().take(i) =~= ps.take(i));
        lemma_index_prefix(ps.drop_last(), p, i);
    }
}

/// Positions that are keys in strictly increasing order: what a playlist
/// holds.
pub open spec fn ordered_keys(ps: Seq<Seq<char>>) -> bool {
    &&& forall|i: int| 0 <= i < ps.len() ==> valid_key(#[trigger] ps[i])
    &&& forall|i: int, j: int| 0 <= i < j < ps.len() ==> key_lt(#[trigger] ps[i], #[trigger] ps[j])
}

/// The moved item lands strictly between its new neighbours, so the order
/// of the other items is untouched and it sits at index `to`.
pub open spec fn lands_between(ordered: Seq<Seq<char>>, position: Seq<char>, to: nat, p: Seq<char>) -> bool {
    match index_of(ordered, position) {
        None => true,
        Some(from) => {
            let rest = ordered.remove(from);
            let t = if to <= rest.len() {
                to as int
            } else {
                rest.len() as int
            };
            &&& t >= 1 ==> key_lt(rest[t - 1], p)
            &&& t < rest.len() ==> key_lt(p, rest[t])
            &&& well_formed_key(p)
        },
    }
}

proof fn lemma_index_of_range(ps: Seq<Seq<char>>, p: Seq<char>)
    ensures
        index_of(ps, p) matches Some(i) ==> 0 <= i < ps.len(),
    decreases ps.len(),
{
    if ps.len() > 0 {
        lemma_index_of_range(ps.drop_last(), p);
    }
}

/// Moving an item of an ordered playlist keeps it ordered.
pub proof fn lemma_move_lands_between(ordered: Seq<Seq<char>>, position: Seq<char>, to: nat)
    requires
        ordered_keys(ordered),
    ensures
        match move_target_spec(ordered, position, to) {
            Some(p) => lands_between(ordered, position, to, p),
            None => true,
        },
{
    lemma_index_of_range(ordered, position);
    match index_of(ordered, position) {
        None => {},
        Some(from) => {
            let rest = ordered.remove(from);
            let t = if to <= rest.len() {
                to as int
            } else {
                rest.len() as int
            };
            assert forall|i: int| 0 <= i < rest.len() implies valid_key(#[trigger] rest[i]) by {
                if i < from {
                    assert(rest[i] == ordered[i]);
                } else {
                    assert(rest[i] == ordered[i + 1]);
                }
            }
            let after = if t >= 1 {
                Some(rest[t - 1])
            } else {
                None
            };
            let before = if t < rest.len() {
                Some(rest[t])
            } else {
                None
            };
            if t >= 1 && t < rest.len() {
                let a = t - 1;
                let b = t;
                let ia = if a < from { a } else { a + 1 };
                let ib = if b < from { b } else { b + 1 };
                assert(rest[a] == ordered[ia]);
                assert(rest[b] == ordered[ib]);
                assert(key_lt(ordered[ia], ordered[ib]));
            }
            lemma_between(after, before);
        },
    }
}

/// The new position of the item at `position` moved to index `to`; `None`
/// when the playlist has no item there. One row is written: the fractional
/// index does the work.
pub fn move_target(ordered: &Vec<String>, position: &str, to: usize) -> (r: Option<String>)
    requires
        forall|i: int| 0 <= i < ordered@.len() ==> usable_position(#[trigger] ordered@[i]@),
    ensures
        match move_target_spec(strings_view(ordered@), position@, to as nat) {
            None => r is None,
            Some(p) => r is Some && r->0@ == p,
        },
        ordered_keys(strings_view(ordered@)) && r is Some ==> lands_between(strings_view(ordered@), position@, to as nat, r->0@),
{
    proof {
        if ordered_keys(strings_view(ordered@)) {
            lemma_move_lands_between(strings_view(ordered@), position@, to as nat);
        }
    }
    let ghost ps = strings_view(ordered@);
    let target = chars_of(position);
    let mut from: usize = 0;
    while from < ordered.len()
        invariant
            ps == strings_view(ordered@),
            target@ == position@,
            from <= ordered@.len(),
            forall|j: int| 0 <= j < from ==> ps[j] != position@,
        ensures
            from <= ordered@.len(),
            forall|j: int| 0 <= j < from ==> ps[j] != position@,
            from < ordered@.len() ==> ps[from as int] == position@,
        decreases ordered.len() - from,
    {
        assert(ps[from as int] == ordered@[from as int]@);
        let cur = chars_of(ordered[from].as_str());
        if same_chars(&cur, &target) {
            break;
        }
        from += 1;
    }
    proof {
        lemma_index_of(ps, position@, from as int);
    }
    if from == ordered.len() {
        return None;
    }
    assert(ps[from as int] == position@);
    let mut rest: Vec<String> = Vec::new();
    let mut i: usize = 0;
    while i < ordered.len()
        invariant
            i <= ordered@.len(),
            from < ordered@.len(),
            ps == strings_view(ordered@),
            strings_view(rest@) == (if i <= from {
                ps.take(i as int)
            } else {
                ps.remove(from as int).take(i - 1)
            }),
            forall|j: int| 0 <= j < rest@.len() ==> usable_position(#[trigger] rest@[j]@),
            forall|j: int| 0 <= j < ordered@.len() ==> usable_position(#[trigger] ordered@[j]@),
        decreases ordered.len() - i,
    {
        let ghost old_rest = rest@;
        if i != from {
            rest.push(ordered[i].clone());
            assert(strings_view(rest@) =~= strings_view(old_rest).push(ordered@[i as int]@));
        }
        proof {
            assert(ps[i as int] == ordered@[i as int]@);
            if i < from {
                assert(ps.take(i + 1) =~= ps.take(i as int).push(ps[i as int]));
            } else if i == from {
                assert(ps.remove(from as int).take(i as int) =~= ps.take(i as int));
            } else {
                assert(ps.remove(from as int).take(i as int) =~= ps.remove(from as int).take(i - 1).push(ps[i as int]));
            }
        }
        i += 1;
    }
    proof {
        assert(strings_view(rest@) =~= ps.remove(from as int));
    }
    let t = if to <= rest.len() {
        to
    } else {
        rest.len()
    };
    let after: Option<&str> = if t >= 1 {
        Some(rest[t - 1].as_str())
    } else {
        None
    };
    let before: Option<&str> = if t < rest.len() {
        Some(rest[t].as_str())
    } else {
        None
    };
    Some(between(after, before))
}

/// Pairs each track to append with its position, leaving out the tracks
/// whose content could not be hashed (the file vanished meanwhile): the
/// positions they would have taken are skipped, the others keep theirs.
pub open spec fn append_plan_spec(tracks: Seq<TrackId>, positions: Seq<Seq<char>>, hashed: Seq<bool>) -> Seq<(TrackId, Seq<char>)>
    decreases tracks.len(),
{
    if tracks.len() == 0 || positions.len() < tracks.len() || hashed.len() < tracks.len() {
        Seq::empty()
    } else {
        let n = tracks.len() - 1;
        let rest = append_plan_spec(tracks.drop_last(), positions.take(n), hashed.take(n));
        if hashed[n] {
            rest.push((tracks[n], positions[n]))
        } else {
            rest
        }
    }
}

pub fn append_plan(tracks: &Vec<TrackId>, positions: &Vec<String>, hashed: &Vec<bool>) -> (r: Vec<(TrackId, String)>)
    requires
        positions@.len() == tracks@.len(),
        hashed@.len() == tracks@.len(),
    ensures
        r@.len() == append_plan_spec(tracks@, strings_view(positions@), hashed@).len(),
        forall|i: int| 0 <= i < r@.len() ==> (#[trigger] r@[i]).0 == append_plan_spec(tracks@, strings_view(positions@), hashed@)[i].0
            && r@[i].1@ == append_plan_spec(tracks@, strings_view(positions@), hashed@)[i].1,
{
    let mut r: Vec<(TrackId, String)> = Vec::new();
    let mut i: usize = 0;
    while i < tracks.len()
        invariant
            i <= tracks@.len(),
            positions@.len() == tracks@.len(),
            hashed@.len() == tracks@.len(),
            r@.len() == append_plan_spec(tracks@.take(i as int), strings_view(positions@).take(i as int), hashed@.take(i as int)).len(),
            forall|j: int| 0 <= j < r@.len() ==> (#[trigger] r@[j]).0 == append_plan_spec(tracks@.take(i as int), strings_view(positions@).take(i as int), hashed@.take(i as int))[j].0
                && r@[j].1@ == append_plan_spec(tracks@.take(i as int), strings_view(positions@).take(i as int), hashed@.take(i as int))[j].1,
        decreases tracks.len() - i,
    {
        proof {
            let t = tracks@.take(i + 1);
            let p = strings_view(positions@).take(i + 1);
            let h = hashed@.take(i + 1);
            assert(t.drop_last() =~= tracks@.take(i as int));
            assert(p.take(i as int) =~= strings_view(positions@).take(i as int));
            assert(h.take(i as int) =~= hashed@.take(i as int));
        }
        if hashed[i] {
            r.push((tracks[i], positions[i].clone()));
        }
        i += 1;
    }
    proof {
        assert(tracks@.take(tracks@.len() as int) =~= tracks@);
        assert(strings_view(positions@).take(tracks@.len() as int) =~= strings_view(positions@));
        assert(hashed@.take(tracks@.len() as int) =~= hashed@);
    }
    r
}

// ---------------------------------------------------------------------------
// Playlists linked to a folder
// ---------------------------------------------------------------------------

/// A link between a playlist and a folder, kept as (root, relative prefix)
/// so that moving the whole root elsewhere does not break it.
#[derive(Debug, Clone, PartialEq, Eq)]
pub struct Link {
    pub root_id: i64,
    /// Folder path relative to the root, with `/`. Empty = the whole root.
    pub rel_prefix: String,
}

/// The chosen folder is inside no root of the library: it cannot be put as
/// (root, prefix).
#[derive(Debug, Clone, Copy, PartialEq, Eq, Structural)]
pub struct ForaDaBiblioteca;

/// Whether a track at `rel_path` lies in the folder `rel_prefix`: the whole
/// root, the path itself, or anything under `rel_prefix/`.
pub open spec fn in_folder_spec(rel_path: Seq<char>, rel_prefix: Seq<char>) -> bool {
    rel_prefix.len() == 0 || rel_path == rel_prefix || (rel_prefix + seq!['/']).is_prefix_of(rel_path)
}

/// A linked folder holds every path under it, at any depth (the whole
/// root for an empty prefix), and nothing else: a sibling whose name only
/// starts like the folder's is outside.
pub proof fn lemma_in_folder_any_depth(rel_path: Seq<char>, rel_prefix: Seq<char>)
    ensures
        (rel_prefix + seq!['/']).is_prefix_of(rel_path) ==> in_folder_spec(rel_path, rel_prefix),
        rel_prefix.len() == 0 ==> in_folder_spec(rel_path, rel_prefix),
        in_folder_spec(rel_prefix, rel_prefix),
        in_folder_spec(rel_path, rel_prefix) && rel_prefix.len() > 0 && rel_path != rel_prefix ==> rel_path.len()
            > rel_prefix.len() && rel_path[rel_prefix.len() as int] == '/' && rel_path.take(rel_prefix.len() as int)
            == rel_prefix,
{
    if in_folder_spec(rel_path, rel_prefix) && rel_prefix.len() > 0 && rel_path != rel_prefix {
        let fs = rel_prefix + seq!['/'];
        assert(fs.is_prefix_of(rel_path));
        assert(rel_path.subrange(0, fs.len() as int) == fs);
        assert(rel_path[rel_prefix.len() as int] == rel_path.subrange(0, fs.len() as int)[rel_prefix.len() as int]);
        assert(rel_path.take(rel_prefix.len() as int) =~= fs.take(rel_prefix.len() as int));
        assert(fs.take(rel_prefix.len() as int) =~= rel_prefix);
    }
}

/// A track anywhere under a linked folder, in a subfolder too, is in the
/// playlist once the folder is synced.
pub proof fn lemma_folder_sync_takes_subfolders(rows: Seq<(i64, Seq<char>)>, rel_prefix: Seq<char>, already: Seq<TrackId>, k: int)
    requires
        0 <= k < rows.len(),
        (rel_prefix + seq!['/']).is_prefix_of(rows[k].1),
    ensures
        has_track(already + folder_candidates_spec(rows, rel_prefix, already), TrackId(rows[k].0)),
{
    lemma_in_folder_any_depth(rows[k].1, rel_prefix);
    lemma_folder_sync_complete(rows, rel_prefix, already, k);
}

pub fn in_folder(rel_path: &str, rel_prefix: &str) -> (r: bool)
    ensures
        r == in_folder_spec(rel_path@, rel_prefix@),
        (rel_prefix@ + seq!['/']).is_prefix_of(rel_path@) ==> r,
        rel_prefix@.len() == 0 ==> r,
        rel_path@ == rel_prefix@ ==> r,
        r && rel_prefix@.len() > 0 && rel_path@ != rel_prefix@ ==> rel_path@.len() > rel_prefix@.len() && rel_path@[rel_prefix@.len() as int] == '/' && rel_path@.take(rel_prefix@.len() as int) == rel_prefix@,
{
    proof {
        lemma_in_folder_any_depth(rel_path@, rel_prefix@);
    }
    let p = chars_of(rel_path);
    let f = chars_of(rel_prefix);
    if f.len() == 0 {
        return true;
    }
    if same_chars(&p, &f) {
        return true;
    }
    if p.len() <= f.len() {
        proof {
            if (f@ + seq!['/']).is_prefix_of(p@) {
                assert((f@ + seq!['/']).len() == f@.len() + 1);
            }
        }
        return false;
    }
    let mut i: usize = 0;
    while i < f.len()
        invariant
            i <= f@.len(),
            p@ == rel_path@,
            f@ == rel_prefix@,
            f@.len() + 1 <= p@.len(),
            forall|j: int| 0 <= j < i ==> f@[j] == p@[j],
        decreases f.len() - i,
    {
        if f[i] != p[i] {
            proof {
                let fs = f@ + seq!['/'];
                assert(fs[i as int] == f@[i as int]);
                if fs.is_prefix_of(p@) {
                    assert(p@.subrange(0, fs.len() as int)[i as int] == p@[i as int]);
                }
            }
            return false;
        }
        i += 1;
    }
    let r = p[f.len()] == '/';
    proof {
        let fs = f@ + seq!['/'];
        assert(fs[f@.len() as int] == '/');
        if r {
            assert(fs =~= p@.subrange(0, fs.len() as int));
        } else if fs.is_prefix_of(p@) {
            assert(p@.subrange(0, fs.len() as int)[f@.len() as int] == p@[f@.len() as int]);
        }
    }
    r
}

pub open spec fn has_track(ids: Seq<TrackId>, id: TrackId) -> bool {
    exists|i: int| 0 <= i < ids.len() && ids[i] == id
}

/// The tracks of a root that belong to a linked folder and are not in its
/// playlist yet, in the order of `rows`.
pub open spec fn folder_candidates_spec(rows: Seq<(i64, Seq<char>)>, rel_prefix: Seq<char>, already: Seq<TrackId>) -> Seq<TrackId>
    decreases rows.len(),
{
    if rows.len() == 0 {
        Seq::empty()
    } else {
        let rest = folder_candidates_spec(rows.drop_last(), rel_prefix, already);
        let (id, path) = rows.last();
        if in_folder_spec(path, rel_prefix) && !has_track(already, TrackId(id)) {
            rest.push(TrackId(id))
        } else {
            rest
        }
    }
}

pub open spec fn rows_view(rows: Seq<(i64, String)>) -> Seq<(i64, Seq<char>)> {
    rows.map_values(|r: (i64, String)| (r.0, r.1@))
}

fn contains_track(ids: &Vec<TrackId>, id: TrackId) -> (r: bool)
    ensures
        r == has_track(ids@, id),
{
    let mut i: usize = 0;
    while i < ids.len()
        invariant
            i <= ids@.len(),
            forall|j: int| 0 <= j < i ==> ids@[j] != id,
        decreases ids.len() - i,
    {
        if ids[i].0 == id.0 {
            return true;
        }
        i += 1;
    }
    false
}

/// What a linked folder adds to its playlist: idempotent, it never adds a
/// track twice.
pub fn folder_candidates(rows: &Vec<(i64, String)>, rel_prefix: &str, already: &Vec<TrackId>) -> (r: Vec<TrackId>)
    ensures
        r@ == folder_candidates_spec(rows_view(rows@), rel_prefix@, already@),
{
    let mut r: Vec<TrackId> = Vec::new();
    let mut i: usize = 0;
    while i < rows.len()
        invariant
            i <= rows@.len(),
            r@ == folder_candidates_spec(rows_view(rows@).take(i as int), rel_prefix@, already@),
        decreases rows.len() - i,
    {
        proof {
            assert(rows_view(rows@).take(i + 1).drop_last() =~= rows_view(rows@).take(i as int));
        }
        let id = rows[i].0;
        if in_folder(rows[i].1.as_str(), rel_prefix) && !contains_track(already, TrackId(id)) {
            r.push(TrackId(id));
        }
        i += 1;
    }
    assert(rows_view(rows@).take(rows@.len() as int) =~= rows_view(rows@));
    r
}

/// Nothing that the folder adds is already in the playlist.
pub proof fn lemma_folder_candidates_new(rows: Seq<(i64, Seq<char>)>, rel_prefix: Seq<char>, already: Seq<TrackId>, k: int)
    requires
        0 <= k < folder_candidates_spec(rows, rel_prefix, already).len(),
    ensures
        !has_track(already, folder_candidates_spec(rows, rel_prefix, already)[k]),
    decreases rows.len(),
{
    let rest = folder_candidates_spec(rows.drop_last(), rel_prefix, already);
    if k < rest.len() {
        lemma_folder_candidates_new(rows.drop_last(), rel_prefix, already, k);
    }
}

proof fn lemma_candidates_covered(rows: Seq<(i64, Seq<char>)>, rel_prefix: Seq<char>, already: Seq<TrackId>, now: Seq<TrackId>)
    requires
        forall|t: TrackId| has_track(already, t) ==> #[trigger] has_track(now, t),
        forall|k: int|
            0 <= k < folder_candidates_spec(rows, rel_prefix, already).len() ==> #[trigger] has_track(
                now,
                folder_candidates_spec(rows, rel_prefix, already)[k],
            ),
    ensures
        folder_candidates_spec(rows, rel_prefix, now).len() == 0,
    decreases rows.len(),
{
    if rows.len() > 0 {
        let rest = folder_candidates_spec(rows.drop_last(), rel_prefix, already);
        let all = folder_candidates_spec(rows, rel_prefix, already);
        assert forall|k: int| 0 <= k < rest.len() implies #[trigger] has_track(now, rest[k]) by {
            assert(all[k] == rest[k]);
        }
        lemma_candidates_covered(rows.drop_last(), rel_prefix, already, now);
        let (id, path) = rows.last();
        if in_folder_spec(path, rel_prefix) && !has_track(already, TrackId(id)) {
            assert(all[all.len() - 1] == TrackId(id));
            assert(has_track(now, all[all.len() - 1]));
        }
    }
}

/// After a sync, every track of the folder is in the playlist: each one
/// either was there or is among the candidates the sync appends.
pub proof fn lemma_folder_sync_complete(rows: Seq<(i64, Seq<char>)>, rel_prefix: Seq<char>, already: Seq<TrackId>, k: int)
    requires
        0 <= k < rows.len(),
        in_folder_spec(rows[k].1, rel_prefix),
    ensures
        has_track(already + folder_candidates_spec(rows, rel_prefix, already), TrackId(rows[k].0)),
    decreases rows.len(),
{
    let cand = folder_candidates_spec(rows, rel_prefix, already);
    let id = TrackId(rows[k].0);
    if has_track(already, id) {
        let i = choose|i: int| 0 <= i < already.len() && already[i] == id;
        assert((already + cand)[i] == id);
    } else if k == rows.len() - 1 {
        assert(cand[cand.len() - 1] == id);
        assert((already + cand)[already.len() + cand.len() - 1] == id);
    } else {
        let rest = folder_candidates_spec(rows.drop_last(), rel_prefix, already);
        assert(rows.drop_last()[k] == rows[k]);
        lemma_folder_sync_complete(rows.drop_last(), rel_prefix, already, k);
        let j = choose|j: int| 0 <= j < (already + rest).len() && (already + rest)[j] == id;
        assert(j >= already.len());
        assert(rest[j - already.len()] == id);
        assert(cand[j - already.len()] == rest[j - already.len()]);
        assert((already + cand)[j] == id);
    }
}

/// What a sync appends are tracks of the folder that the playlist did not
/// have: nothing from outside the folder, nothing already there.
pub proof fn lemma_folder_sync_sound(rows: Seq<(i64, Seq<char>)>, rel_prefix: Seq<char>, already: Seq<TrackId>, c: int)
    requires
        0 <= c < folder_candidates_spec(rows, rel_prefix, already).len(),
    ensures
        !has_track(already, folder_candidates_spec(rows, rel_prefix, already)[c]),
        exists|k: int|
            0 <= k < rows.len() && TrackId(rows[k].0) == folder_candidates_spec(rows, rel_prefix, already)[c]
                && in_folder_spec(#[trigger] rows[k].1, rel_prefix),
    decreases rows.len(),
{
    let rest = folder_candidates_spec(rows.drop_last(), rel_prefix, already);
    let cand = folder_candidates_spec(rows, rel_prefix, already);
    if c < rest.len() {
        assert(cand[c] == rest[c]);
        lemma_folder_sync_sound(rows.drop_last(), rel_prefix, already, c);
        let k = choose|k: int|
            0 <= k < rows.drop_last().len() && TrackId(rows.drop_last()[k].0) == rest[c]
                && in_folder_spec(#[trigger] rows.drop_last()[k].1, rel_prefix);
        assert(rows[k] == rows.drop_last()[k]);
    } else {
        let k = rows.len() - 1;
        assert(rows[k] == rows.last());
    }
}

/// The whole law of a folder sync: afterwards every track of the folder is
/// in the playlist, what was appended comes from the folder and was not
/// there before, and a second sync appends nothing.
pub proof fn lemma_folder_sync(rows: Seq<(i64, Seq<char>)>, rel_prefix: Seq<char>, already: Seq<TrackId>)
    ensures
        forall|k: int| 0 <= k < rows.len() && in_folder_spec(#[trigger] rows[k].1, rel_prefix) ==> has_track(
            already + folder_candidates_spec(rows, rel_prefix, already),
            TrackId(rows[k].0),
        ),
        forall|c: int| 0 <= c < folder_candidates_spec(rows, rel_prefix, already).len() ==> !has_track(
            already,
            #[trigger] folder_candidates_spec(rows, rel_prefix, already)[c],
        ),
        folder_candidates_spec(rows, rel_prefix, already + folder_candidates_spec(rows, rel_prefix, already)).len()
            == 0,
{
    assert forall|k: int| 0 <= k < rows.len() && in_folder_spec(#[trigger] rows[k].1, rel_prefix) implies has_track(
        already + folder_candidates_spec(rows, rel_prefix, already),
        TrackId(rows[k].0),
    ) by {
        lemma_folder_sync_complete(rows, rel_prefix, already, k);
    }
    assert forall|c: int| 0 <= c < folder_candidates_spec(rows, rel_prefix, already).len() implies !has_track(
        already,
        #[trigger] folder_candidates_spec(rows, rel_prefix, already)[c],
    ) by {
        lemma_folder_sync_sound(rows, rel_prefix, already, c);
    }
    lemma_folder_sync_idempotent(rows, rel_prefix, already);
}

/// Syncing a linked folder twice adds nothing the second time: once the
/// candidates of a run are in the playlist, the next run finds none.
pub proof fn lemma_folder_sync_idempotent(rows: Seq<(i64, Seq<char>)>, rel_prefix: Seq<char>, already: Seq<TrackId>)
    ensures
        folder_candidates_spec(rows, rel_prefix, already + folder_candidates_spec(rows, rel_prefix, already)).len()
            == 0,
{
    let cand = folder_candidates_spec(rows, rel_prefix, already);
    let now = already + cand;
    assert forall|t: TrackId| has_track(already, t) implies #[trigger] has_track(now, t) by {
        let i = choose|i: int| 0 <= i < already.len() && already[i] == t;
        assert(now[i] == t);
    }
    assert forall|k: int| 0 <= k < cand.len() implies #[trigger] has_track(now, cand[k]) by {
        assert(now[already.len() + k] == cand[k]);
    }
    lemma_candidates_covered(rows, rel_prefix, already, now);
}

} // verus!
