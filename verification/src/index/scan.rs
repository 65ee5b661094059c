//! Incremental indexing: the decisions of a scan.
//!
//! The fast path is not opening the file. The first thing that happens to
//! each file found is the comparison of `(size, mtime)` with what the index
//! holds: a match means the track is unchanged and it is not even opened.
//! Walking the folder, reading tags and writing rows are the caller's.
use vstd::prelude::*;

use std::collections::HashMap;

use crate::strutil::chars_of;

verus! {

/// Extensions taken as audio: what the decoder plays.
pub const AUDIO_EXT: [&'static str; 12] = [
    "mp3", "flac", "m4a", "mp4", "aac", "ogg", "oga", "opus", "wav", "wave", "aiff", "aif",
];

pub open spec fn audio_exts() -> Seq<Seq<char>> {
    seq![
        seq!['m', 'p', '3'],
        seq!['f', 'l', 'a', 'c'],
        seq!['m', '4', 'a'],
        seq!['m', 'p', '4'],
        seq!['a', 'a', 'c'],
        seq!['o', 'g', 'g'],
        seq!['o', 'g', 'a'],
        seq!['o', 'p', 'u', 's'],
        seq!['w', 'a', 'v'],
        seq!['w', 'a', 'v', 'e'],
        seq!['a', 'i', 'f', 'f'],
        seq!['a', 'i', 'f'],
    ]
}

/// `to_ascii_lowercase` on one char.
pub open spec fn ascii_lower(c: char) -> char {
    if 'A' <= c && c <= 'Z' {
        ((c as int) + 32) as char
    } else {
        c
    }
}

pub open spec fn lower_seq(s: Seq<char>) -> Seq<char> {
    s.map_values(|c: char| ascii_lower(c))
}

/// Whether a file extension names audio, in any ASCII case.
pub open spec fn is_audio_ext_spec(ext: Seq<char>) -> bool {
    audio_exts().contains(lower_seq(ext))
}

fn lower_ascii(c: char) -> (r: char)
    ensures
        r == ascii_lower(c),
{
    if 'A' <= c && c <= 'Z' {
        ((c as u8) + 32) as char
    } else {
        c
    }
}

fn ext_at(i: usize) -> (v: Vec<char>)
    requires
        i < 12,
    ensures
        v@ == audio_exts()[i as int],
{
    let v = match i {
        0 => vec!['m', 'p', '3'],
        1 => vec!['f', 'l', 'a', 'c'],
        2 => vec!['m', '4', 'a'],
        3 => vec!['m', 'p', '4'],
        4 => vec!['a', 'a', 'c'],
        5 => vec!['o', 'g', 'g'],
        6 => vec!['o', 'g', 'a'],
        7 => vec!['o', 'p', 'u', 's'],
        8 => vec!['w', 'a', 'v'],
        9 => vec!['w', 'a', 'v', 'e'],
        10 => vec!['a', 'i', 'f', 'f'],
        _ => vec!['a', 'i', 'f'],
    };
    assert(v@ =~= audio_exts()[i as int]);
    v
}

fn same(a: &Vec<char>, b: &Vec<char>) -> (r: bool)
    ensures
        r == (a@ == b@),
{
    if a.len() != b.len() {
        return false;
    }
    let mut i: usize = 0;
    while i < a.len()
        invariant
            a@.len() == b@.len(),
            i <= a@.len(),
            forall|j: int| 0 <= j < i ==> a@[j] == b@[j],
        decreases a.len() - i,
    {
        if a[i] != b[i] {
            return false;
        }
        i += 1;
    }
    assert(a@ =~= b@);
    true
}

/// Whether a file with extension `ext` is indexed.
pub fn is_audio_ext(ext: &str) -> (r: bool)
    ensures
        r == is_audio_ext_spec(ext@),
{
    let cs = chars_of(ext);
    let mut low: Vec<char> = Vec::new();
    let mut i: usize = 0;
    while i < cs.len()
        invariant
            i <= cs@.len(),
            low@ == lower_seq(cs@.take(i as int)),
        decreases cs.len() - i,
    {
        low.push(lower_ascii(cs[i]));
        i += 1;
        assert(low@ =~= lower_seq(cs@.take(i as int)));
    }
    assert(cs@.take(cs@.len() as int) =~= cs@);
    let ghost target = lower_seq(ext@);
    let mut k: usize = 0;
    while k < 12
        invariant
            k <= 12,
            low@ == target,
            target == lower_seq(ext@),
            forall|j: int| 0 <= j < k ==> audio_exts()[j] != target,
        decreases 12 - k,
    {
        let e = ext_at(k);
        if same(&e, &low) {
            assert(audio_exts()[k as int] == target);
            assert(audio_exts().contains(target));
            return true;
        }
        k += 1;
    }
    assert(!audio_exts().contains(target)) by {
        if audio_exts().contains(target) {
            let j = choose|j: int| 0 <= j < audio_exts().len() && audio_exts()[j] == target;
            assert(j < 12);
        }
    }
    false
}

/// A file seen by the walk, before any parse.
#[derive(Debug, Clone)]
pub struct Found {
    pub rel_path: String,
    pub file_size: u64,
    pub mtime_ns: i64,
}

/// A track the index already holds for the root: its path, id, size and
/// modification time.
#[derive(Debug, Clone)]
pub struct Known {
    pub rel_path: String,
    pub id: i64,
    pub file_size: u64,
    pub mtime_ns: i64,
}

/// The split of a scan before any file is opened.
#[derive(Debug, Clone)]
pub struct ScanPlan {
    /// Indexes into the files found of those to open and parse.
    pub to_parse: Vec<usize>,
    /// Files not even opened: `(size, mtime)` matched the index.
    pub unchanged: usize,
    /// Ids of tracks that left the disk.
    pub removed: Vec<i64>,
}

/// What the index holds under `path`, if anything (the first entry with it).
pub open spec fn known_at(known: Seq<Known>, path: Seq<char>) -> Option<Known>
    decreases known.len(),
{
    if known.len() == 0 {
        None
    } else {
        match known_at(known.drop_last(), path) {
            Some(k) => Some(k),
            None => if known.last().rel_path@ == path {
                Some(known.last())
            } else {
                None
            },
        }
    }
}

/// Whether a found file matches what the index holds: same size, same
/// modification time.
pub open spec fn unchanged_spec(known: Seq<Known>, f: Found) -> bool {
    match known_at(known, f.rel_path@) {
        Some(k) => k.file_size == f.file_size && k.mtime_ns == f.mtime_ns,
        None => false,
    }
}

/// Indexes of the found files that must be parsed, in walk order.
pub open spec fn to_parse_spec(known: Seq<Known>, found: Seq<Found>) -> Seq<usize>
    decreases found.len(),
{
    if found.len() == 0 {
        Seq::empty()
    } else {
        let rest = to_parse_spec(known, found.drop_last());
        if unchanged_spec(known, found.last()) {
            rest
        } else {
            rest.push((found.len() - 1) as usize)
        }
    }
}

pub open spec fn seen(found: Seq<Found>, path: Seq<char>) -> bool {
    exists|i: int| 0 <= i < found.len() && (#[trigger] found[i]).rel_path@ == path
}

/// Ids of the indexed tracks no file was found for, in index order.
pub open spec fn removed_spec(known: Seq<Known>, found: Seq<Found>) -> Seq<i64>
    decreases known.len(),
{
    if known.len() == 0 {
        Seq::empty()
    } else {
        let rest = removed_spec(known.drop_last(), found);
        if seen(found, known.last().rel_path@) {
            rest
        } else {
            rest.push(known.last().id)
        }
    }
}

fn same_str(a: &String, b: &String) -> (r: bool)
    ensures
        r == (a@ == b@),
{
    same(&chars_of(a.as_str()), &chars_of(b.as_str()))
}

/// The bucket of a path in an index of paths: a polynomial hash of its
/// chars, wrapping in 64 bits.
pub open spec fn path_key(s: Seq<char>) -> u64
    decreases s.len(),
{
    if s.len() == 0 {
        0
    } else {
        vstd::wrapping::u64_specs::wrapping_add(
            vstd::wrapping::u64_specs::wrapping_mul(path_key(s.drop_last()), 31),
            (s.last() as u32) as u64,
        )
    }
}

fn path_key_of(path: &String) -> (k: u64)
    ensures
        k == path_key(path@),
{
    let cs = chars_of(path.as_str());
    let mut k: u64 = 0;
    let mut i: usize = 0;
    while i < cs.len()
        invariant
            i <= cs@.len(),
            k == path_key(cs@.take(i as int)),
        decreases cs.len() - i,
    {
        proof {
            assert(cs@.take(i + 1).drop_last() =~= cs@.take(i as int));
        }
        k = k.wrapping_mul(31).wrapping_add(cs[i] as u32 as u64);
        i += 1;
    }
    assert(cs@.take(cs@.len() as int) =~= cs@);
    k
}

/// `m` indexes the keys `keys`: each bucket lists, in increasing order,
/// exactly the positions whose key it is.
pub open spec fn indexes_keys(m: Map<u64, Vec<usize>>, keys: Seq<u64>) -> bool {
    &&& forall|k: u64, q: int| #![trigger m[k]@[q]]
        m.contains_key(k) && 0 <= q < m[k]@.len() ==> m[k]@[q] < keys.len() && keys[m[k]@[q] as int] == k
    &&& forall|k: u64, q: int, r: int| #![trigger m[k]@[q], m[k]@[r]]
        m.contains_key(k) && 0 <= q < r < m[k]@.len() ==> m[k]@[q] < m[k]@[r]
    &&& forall|j: int| 0 <= j < keys.len() ==> m.contains_key(#[trigger] keys[j]) && m[keys[j]]@.contains(j as usize)
}

/// The positions of `keys`, grouped by key.
fn index_keys(keys: &Vec<u64>) -> (m: HashMap<u64, Vec<usize>>)
    ensures
        indexes_keys(m@, keys@),
{
    broadcast use vstd::std_specs::hash::group_hash_axioms;
    let mut m: HashMap<u64, Vec<usize>> = HashMap::new();
    let mut i: usize = 0;
    while i < keys.len()
        invariant
            i <= keys@.len(),
            indexes_keys(m@, keys@.take(i as int)),
            forall|k: u64, q: int| #![trigger m@[k]@[q]] m@.contains_key(k) && 0 <= q < m@[k]@.len() ==> m@[k]@[q] < i,
        decreases keys.len() - i,
    {
        let k = keys[i];
        let ghost t0 = keys@.take(i as int);
        let ghost t1 = keys@.take(i + 1);
        let ghost m0 = m@;
        let mut bucket = match m.remove(&k) {
            Some(b) => b,
            None => Vec::new(),
        };
        let ghost b0 = bucket@;
        bucket.push(i);
        m.insert(k, bucket);
        proof {
            assert(t1 =~= t0.push(k));
            assert forall|kk: u64, q: int| #![trigger m@[kk]@[q]]
                m@.contains_key(kk) && 0 <= q < m@[kk]@.len() implies m@[kk]@[q] < t1.len() && t1[m@[kk]@[q] as int] == kk
                && m@[kk]@[q] < i + 1 by {
                if kk == k {
                    if q < b0.len() {
                        assert(m@[kk]@[q] == m0[k]@[q]);
                        assert(t1[m0[k]@[q] as int] == t0[m0[k]@[q] as int]);
                    }
                } else {
                    assert(m@[kk] == m0[kk]);
                    assert(t1[m0[kk]@[q] as int] == t0[m0[kk]@[q] as int]);
                }
            }
            assert forall|kk: u64, q: int, r: int| #![trigger m@[kk]@[q], m@[kk]@[r]]
                m@.contains_key(kk) && 0 <= q < r < m@[kk]@.len() implies m@[kk]@[q] < m@[kk]@[r] by {
                if kk == k {
                    if r < b0.len() {
                        assert(m@[kk]@[q] == m0[k]@[q] && m@[kk]@[r] == m0[k]@[r]);
                    } else {
                        assert(m@[kk]@[q] == m0[k]@[q]);
                    }
                } else {
                    assert(m@[kk] == m0[kk]);
                }
            }
            assert forall|j: int| 0 <= j < t1.len() implies m@.contains_key(#[trigger] t1[j]) && m@[t1[j]]@.contains(j as usize) by {
                if j == i {
                    assert(m@[k]@[b0.len() as int] == i);
                } else {
                    assert(t1[j] == t0[j]);
                    let kj = t0[j];
                    assert(m0.contains_key(kj) && m0[kj]@.contains(j as usize));
                    let w = choose|w: int| 0 <= w < m0[kj]@.len() && m0[kj]@[w] == j as usize;
                    if kj == k {
                        assert(m@[k]@[w] == b0[w]);
                    } else {
                        assert(m@[kj] == m0[kj]);
                    }
                }
            }
        }
        i += 1;
    }
    proof {
        assert(keys@.take(keys@.len() as int) =~= keys@);
    }
    m
}

/// No entry of `known` has `path`: nothing is found under it.
proof fn lemma_known_at_none(known: Seq<Known>, path: Seq<char>)
    requires
        forall|j: int| 0 <= j < known.len() ==> (#[trigger] known[j]).rel_path@ != path,
    ensures
        known_at(known, path) is None,
    decreases known.len(),
{
    if known.len() > 0 {
        lemma_known_at_none(known.drop_last(), path);
    }
}

/// The key of each known path, in order.
fn known_keys(known: &Vec<Known>) -> (keys: Vec<u64>)
    ensures
        keys@.len() == known@.len(),
        forall|j: int| 0 <= j < known@.len() ==> keys@[j] == path_key((#[trigger] known@[j]).rel_path@),
{
    let mut keys: Vec<u64> = Vec::new();
    let mut i: usize = 0;
    while i < known.len()
        invariant
            i <= known@.len(),
            keys@.len() == i,
            forall|j: int| 0 <= j < i ==> keys@[j] == path_key((#[trigger] known@[j]).rel_path@),
        decreases known.len() - i,
    {
        keys.push(path_key_of(&known[i].rel_path));
        i += 1;
    }
    keys
}

/// The key of each found path, in order.
fn found_keys(found: &Vec<Found>) -> (keys: Vec<u64>)
    ensures
        keys@.len() == found@.len(),
        forall|j: int| 0 <= j < found@.len() ==> keys@[j] == path_key((#[trigger] found@[j]).rel_path@),
{
    let mut keys: Vec<u64> = Vec::new();
    let mut i: usize = 0;
    while i < found.len()
        invariant
            i <= found@.len(),
            keys@.len() == i,
            forall|j: int| 0 <= j < i ==> keys@[j] == path_key((#[trigger] found@[j]).rel_path@),
        decreases found.len() - i,
    {
        keys.push(path_key_of(&found[i].rel_path));
        i += 1;
    }
    keys
}

/// The first entry of `known` under `path`, read from its bucket.
fn lookup(known: &Vec<Known>, index: &HashMap<u64, Vec<usize>>, path: &String, Ghost(keys): Ghost<Seq<u64>>) -> (r: Option<usize>)
    requires
        indexes_keys(index@, keys),
        keys.len() == known@.len(),
        known@.len() <= usize::MAX,
        forall|j: int| 0 <= j < known@.len() ==> keys[j] == path_key((#[trigger] known@[j]).rel_path@),
    ensures
        match known_at(known@, path@) {
            Some(k) => r is Some && r->0 < known@.len() && known@[r->0 as int] == k,
            None => r is None,
        },
{
    broadcast use vstd::std_specs::hash::group_hash_axioms;
    let k = path_key_of(path);
    let bucket = match index.get(&k) {
        Some(b) => b,
        None => {
            proof {
                assert forall|j: int| 0 <= j < known@.len() implies (#[trigger] known@[j]).rel_path@ != path@ by {
                    if known@[j].rel_path@ == path@ {
                        assert(index@.contains_key(keys[j]));
                    }
                }
                lemma_known_at_none(known@, path@);
            }
            return None;
        },
    };
    let mut q: usize = 0;
    while q < bucket.len()
        invariant
            index@.contains_key(k),
            bucket@ == index@[k]@,
            indexes_keys(index@, keys),
            keys.len() == known@.len(),
            known@.len() <= usize::MAX,
            forall|j: int| 0 <= j < known@.len() ==> keys[j] == path_key((#[trigger] known@[j]).rel_path@),
            k == path_key(path@),
            q <= bucket@.len(),
            forall|w: int| 0 <= w < q ==> (#[trigger] known@[bucket@[w] as int]).rel_path@ != path@,
        decreases bucket.len() - q,
    {
        let j = bucket[q];
        assert(index@[k]@[q as int] == j);
        if same_str(&known[j].rel_path, path) {
            proof {
                assert forall|i: int| 0 <= i < j implies (#[trigger] known@.take(j as int)[i]).rel_path@ != path@ by {
                    assert(known@.take(j as int)[i] == known@[i]);
                    if known@[i].rel_path@ == path@ {
                        assert(index@[keys[i]]@.contains(i as usize));
                        let w = choose|w: int| 0 <= w < index@[k]@.len() && index@[k]@[w] == i as usize;
                        if w >= q {
                            if w > q {
                                assert(index@[k]@[q as int] < index@[k]@[w]);
                            }
                        } else {
                            assert(known@[bucket@[w] as int].rel_path@ != path@);
                        }
                    }
                }
                lemma_known_at_none(known@.take(j as int), path@);
                lemma_known_at_prefix(known@, path@, j as int);
            }
            return Some(j);
        }
        q += 1;
    }
    proof {
        assert forall|i: int| 0 <= i < known@.len() implies (#[trigger] known@[i]).rel_path@ != path@ by {
            if known@[i].rel_path@ == path@ {
                assert(keys[i] == k);
                assert(index@[keys[i]]@.contains(i as usize));
                let w = choose|w: int| 0 <= w < index@[k]@.len() && index@[k]@[w] == i as usize;
                assert(bucket@[w] == i as usize);
                assert(known@[bucket@[w] as int].rel_path@ != path@);
            }
        }
        lemma_known_at_none(known@, path@);
    }
    None
}

proof fn lemma_known_at_prefix(known: Seq<Known>, path: Seq<char>, i: int)
    requires
        0 <= i < known.len(),
        known[i].rel_path@ == path,
        known_at(known.take(i), path) is None,
    ensures
        known_at(known, path) == Some(known[i]),
    decreases known.len(),
{
    if i == known.len() - 1 {
        assert(known.drop_last() =~= known.take(i));
    } else {
        assert(known.drop_last().take(i) =~= known.take(i));
        lemma_known_at_prefix(known.drop_last(), path, i);
    }
}

/// Whether some found file has `path`, read from its bucket.
fn was_seen(found: &Vec<Found>, index: &HashMap<u64, Vec<usize>>, path: &String, Ghost(keys): Ghost<Seq<u64>>) -> (r: bool)
    requires
        indexes_keys(index@, keys),
        keys.len() == found@.len(),
        found@.len() <= usize::MAX,
        forall|j: int| 0 <= j < found@.len() ==> keys[j] == path_key((#[trigger] found@[j]).rel_path@),
    ensures
        r == seen(found@, path@),
{
    broadcast use vstd::std_specs::hash::group_hash_axioms;
    let k = path_key_of(path);
    let bucket = match index.get(&k) {
        Some(b) => b,
        None => {
            proof {
                if seen(found@, path@) {
                    let i = choose|i: int| 0 <= i < found@.len() && (#[trigger] found@[i]).rel_path@ == path@;
                    assert(index@.contains_key(keys[i]));
                }
            }
            return false;
        },
    };
    let mut q: usize = 0;
    while q < bucket.len()
        invariant
            index@.contains_key(k),
            bucket@ == index@[k]@,
            indexes_keys(index@, keys),
            keys.len() == found@.len(),
            found@.len() <= usize::MAX,
            forall|j: int| 0 <= j < found@.len() ==> keys[j] == path_key((#[trigger] found@[j]).rel_path@),
            k == path_key(path@),
            q <= bucket@.len(),
            forall|w: int| 0 <= w < q ==> (#[trigger] found@[bucket@[w] as int]).rel_path@ != path@,
        decreases bucket.len() - q,
    {
        let j = bucket[q];
        assert(index@[k]@[q as int] == j);
        if same_str(&found[j].rel_path, path) {
            return true;
        }
        q += 1;
    }
    proof {
        if seen(found@, path@) {
            let i = choose|i: int| 0 <= i < found@.len() && (#[trigger] found@[i]).rel_path@ == path@;
            assert(keys[i] == k);
            assert(index@[keys[i]]@.contains(i as usize));
            let w = choose|w: int| 0 <= w < index@[k]@.len() && index@[k]@[w] == i as usize;
            assert(bucket@[w] == i as usize);
            assert(found@[bucket@[w] as int].rel_path@ != path@);
        }
    }
    false
}

/// Splits the files found against the index: which to parse, how many are
/// unchanged, which indexed tracks left the disk. Both lists are indexed by
/// a hash of their paths first, so each lookup reads one bucket.
pub fn plan_scan(known: &Vec<Known>, found: &Vec<Found>) -> (p: ScanPlan)
    ensures
        p.to_parse@ == to_parse_spec(known@, found@),
        p.unchanged + p.to_parse@.len() == found@.len(),
        p.removed@ == removed_spec(known@, found@),
        forall|i: int|
            0 <= i < found@.len() ==> (p.to_parse@.contains(i as usize) <==> !(known_at(
                known@,
                (#[trigger] found@[i]).rel_path@,
            ) matches Some(k) && k.file_size == found@[i].file_size && k.mtime_ns == found@[i].mtime_ns)),
        forall|j: int|
            0 <= j < known@.len() && !seen(found@, (#[trigger] known@[j]).rel_path@) ==> p.removed@.contains(known@[j].id),
        forall|x: i64|
            #[trigger] p.removed@.contains(x) ==> exists|j: int|
                0 <= j < known@.len() && known@[j].id == x && !seen(found@, (#[trigger] known@[j]).rel_path@),
{
    let n_known = known.len();
    let n_found = found.len();
    let kkeys = known_keys(known);
    let kindex = index_keys(&kkeys);
    let fkeys = found_keys(found);
    let findex = index_keys(&fkeys);
    let mut to_parse: Vec<usize> = Vec::new();
    let mut unchanged: usize = 0;
    let mut i: usize = 0;
    while i < found.len()
        invariant
            i <= found@.len(),
            indexes_keys(kindex@, kkeys@),
            kkeys@.len() == known@.len(),
            known@.len() == n_known,
            forall|j: int| 0 <= j < known@.len() ==> kkeys@[j] == path_key((#[trigger] known@[j]).rel_path@),
            to_parse@ == to_parse_spec(known@, found@.take(i as int)),
            unchanged + to_parse@.len() == i,
        decreases found.len() - i,
    {
        proof {
            assert(found@.take(i + 1).drop_last() =~= found@.take(i as int));
        }
        let same_file = match lookup(known, &kindex, &found[i].rel_path, Ghost(kkeys@)) {
            Some(k) => known[k].file_size == found[i].file_size && known[k].mtime_ns == found[i].mtime_ns,
            None => false,
        };
        if same_file {
            unchanged += 1;
        } else {
            to_parse.push(i);
        }
        i += 1;
    }
    assert(found@.take(found@.len() as int) =~= found@);
    let mut removed: Vec<i64> = Vec::new();
    let mut j: usize = 0;
    while j < known.len()
        invariant
            j <= known@.len(),
            removed@ == removed_spec(known@.take(j as int), found@),
            indexes_keys(findex@, fkeys@),
            fkeys@.len() == found@.len(),
            found@.len() == n_found,
            forall|i: int| 0 <= i < found@.len() ==> fkeys@[i] == path_key((#[trigger] found@[i]).rel_path@),
        decreases known.len() - j,
    {
        proof {
            assert(known@.take(j + 1).drop_last() =~= known@.take(j as int));
        }
        if !was_seen(found, &findex, &known[j].rel_path, Ghost(fkeys@)) {
            removed.push(known[j].id);
        }
        j += 1;
    }
    assert(known@.take(known@.len() as int) =~= known@);
    proof {
        assert forall|i: int| 0 <= i < found@.len() implies (to_parse@.contains(i as usize) <==> !(known_at(
            known@,
            (#[trigger] found@[i]).rel_path@,
        ) matches Some(k) && k.file_size == found@[i].file_size && k.mtime_ns == found@[i].mtime_ns)) by {
            lemma_plan_scan_reads_changes(known@, found@, i);
        }
        lemma_removed_are_missing(known@, found@);
    }
    ScanPlan { to_parse, unchanged, removed }
}

/// An indexed track is reported as gone exactly when no file was found at
/// its path: every such track's id is listed, and every id listed is one.
pub proof fn lemma_removed_are_missing(known: Seq<Known>, found: Seq<Found>)
    ensures
        forall|j: int| 0 <= j < known.len() && !seen(found, (#[trigger] known[j]).rel_path@) ==> removed_spec(
            known,
            found,
        ).contains(known[j].id),
        forall|x: i64|
            #[trigger] removed_spec(known, found).contains(x) ==> exists|j: int|
                0 <= j < known.len() && known[j].id == x && !seen(found, (#[trigger] known[j]).rel_path@),
    decreases known.len(),
{
    if known.len() > 0 {
        let d = known.drop_last();
        lemma_removed_are_missing(d, found);
        let rest = removed_spec(d, found);
        let r = removed_spec(known, found);
        assert forall|j: int| 0 <= j < known.len() && !seen(found, (#[trigger] known[j]).rel_path@) implies r.contains(known[j].id) by {
            if j < known.len() - 1 {
                assert(known[j] == d[j]);
                let w = choose|w: int| 0 <= w < rest.len() && rest[w] == known[j].id;
                assert(r[w] == rest[w]);
            } else {
                assert(r[r.len() - 1] == known[j].id);
            }
        }
        assert forall|x: i64| #[trigger] r.contains(x) implies exists|j: int|
            0 <= j < known.len() && known[j].id == x && !seen(found, (#[trigger] known[j]).rel_path@) by {
            let w = choose|w: int| 0 <= w < r.len() && r[w] == x;
            if w < rest.len() {
                assert(rest[w] == x);
                assert(rest.contains(x));
                let j = choose|j: int| 0 <= j < d.len() && d[j].id == x && !seen(found, (#[trigger] d[j]).rel_path@);
                assert(known[j] == d[j]);
            } else {
                assert(known[known.len() - 1] == known.last());
            }
        }
    }
}

/// A found file is left unopened exactly when the index holds its path with
/// both the same size and the same modification time; a new path, another
/// size or another time sends it to be parsed.
pub proof fn lemma_plan_scan_reads_changes(known: Seq<Known>, found: Seq<Found>, i: int)
    requires
        0 <= i < found.len(),
        found.len() <= usize::MAX,
    ensures
        to_parse_spec(known, found).contains(i as usize) <==> !(known_at(known, found[i].rel_path@) matches Some(k)
            && k.file_size == found[i].file_size && k.mtime_ns == found[i].mtime_ns),
        known_at(known, found[i].rel_path@) is None ==> to_parse_spec(known, found).contains(i as usize),
{
    lemma_plan_parses_only_changes(known, found, i);
}

/// Only the files that changed are parsed: an unchanged file is never in
/// `to_parse`, and every changed or new file is.
pub proof fn lemma_plan_parses_only_changes(known: Seq<Known>, found: Seq<Found>, i: int)
    requires
        0 <= i < found.len(),
        found.len() <= usize::MAX,
    ensures
        to_parse_spec(known, found).contains(i as usize) == !unchanged_spec(known, found[i]),
    decreases found.len(),
{
    let rest = to_parse_spec(known, found.drop_last());
    assert forall|k: int| 0 <= k < rest.len() implies (#[trigger] rest[k]) < found.len() - 1 by {
        lemma_to_parse_bounded(known, found.drop_last(), k);
    }
    if i < found.len() - 1 {
        lemma_plan_parses_only_changes(known, found.drop_last(), i);
        assert(found.drop_last()[i] == found[i]);
        if !unchanged_spec(known, found.last()) {
            let last = (found.len() - 1) as usize;
            assert(rest.push(last).contains(i as usize) == rest.contains(i as usize)) by {
                if rest.push(last).contains(i as usize) {
                    let w = choose|w: int| 0 <= w < rest.push(last).len() && rest.push(last)[w] == i as usize;
                    if w < rest.len() {
                        assert(rest[w] == i as usize);
                    }
                }
                if rest.contains(i as usize) {
                    let w = choose|w: int| 0 <= w < rest.len() && rest[w] == i as usize;
                    assert(rest.push(last)[w] == i as usize);
                }
            }
        }
    } else {
        if !unchanged_spec(known, found.last()) {
            let last = (found.len() - 1) as usize;
            assert(rest.push(last)[rest.len() as int] == last);
        } else {
            if rest.contains(i as usize) {
                let w = choose|w: int| 0 <= w < rest.len() && rest[w] == i as usize;
                assert(rest[w] < found.len() - 1);
            }
        }
    }
}

proof fn lemma_to_parse_bounded(known: Seq<Known>, found: Seq<Found>, k: int)
    requires
        0 <= k < to_parse_spec(known, found).len(),
        found.len() <= usize::MAX,
    ensures
        to_parse_spec(known, found)[k] < found.len(),
    decreases found.len(),
{
    let rest = to_parse_spec(known, found.drop_last());
    if k < rest.len() {
        lemma_to_parse_bounded(known, found.drop_last(), k);
    }
}

/// Counts of a scan.
#[derive(Debug, Default, Clone, Copy, PartialEq, Eq)]
pub struct ScanReport {
    pub added: usize,
    pub updated: usize,
    pub removed: usize,
    /// Files not even opened: `(size, mtime)` matched the index.
    pub unchanged: usize,
    /// Distinct covers decoded.
    pub art_decoded: usize,
}

/// The artist an album is filed under: the album artist of the tag, or
/// else the track's artist, so that an album by one artist does not become
/// one album per track.
pub fn album_artist_name<'a>(album_artist: Option<&'a str>, artist: Option<&'a str>) -> (r: Option<&'a str>)
    ensures
        r == (match album_artist {
            Some(a) => Some(a),
            None => artist,
        }),
{
    match album_artist {
        Some(a) => Some(a),
        None => artist,
    }
}

} // verus!
