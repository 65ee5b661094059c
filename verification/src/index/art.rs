//! The cover cache, deduplicated by content.
//!
//! The same art repeats on every track of an album, so a cover is known by
//! the BLAKE3 of its bytes and only decoded the first time that hash shows
//! up. What stays on disk are two ready thumbnails per cover:
//!
//! ```text
//! <cache>/art/<hex[0..2]>/<hex>_96.jpg    list row
//! <cache>/art/<hex[0..2]>/<hex>_512.jpg   now playing
//! ```
//!
//! This module holds the bookkeeping: which hashes are already materialised
//! and the paths they live at. Decoding and writing the JPEGs is I/O and
//! lives with the caller.
use vstd::prelude::*;

use std::collections::HashMap;

use crate::hex::{encode, hex_lower};
use crate::strutil::{chars_of, decimal, decimal_chars, string_of};

verus! {

/// Longest side of each thumbnail: one for the list row, one for the
/// player. They are ceilings: a smaller cover keeps its size.
pub const THUMB_SIZES: [u32; 2] = [96, 512];

/// The longest side of an image of `width` by `height`.
pub open spec fn longest_side(width: u32, height: u32) -> u32 {
    if width >= height {
        width
    } else {
        height
    }
}

/// The longest side of the thumbnail of `size` for an image of `width` by
/// `height`: `size` as a ceiling, never an enlargement, and at least one
/// pixel.
pub open spec fn thumb_target_spec(size: u32, width: u32, height: u32) -> u32 {
    let m = if size <= longest_side(width, height) {
        size
    } else {
        longest_side(width, height)
    };
    if m >= 1 {
        m
    } else {
        1
    }
}

/// See [`thumb_target_spec`]; the image is scaled down only when this is
/// below its longest side.
pub fn thumb_target(size: u32, width: u32, height: u32) -> (t: u32)
    ensures
        t == thumb_target_spec(size, width, height),
        1 <= t,
        t <= size || size == 0,
        t <= longest_side(width, height) || longest_side(width, height) == 0,
{
    let longest = if width >= height {
        width
    } else {
        height
    };
    let m = if size <= longest {
        size
    } else {
        longest
    };
    if m >= 1 {
        m
    } else {
        1
    }
}

/// The bucket of a hash in an index of hashes: its first four bytes as a
/// number.
pub open spec fn bucket_key(h: Seq<u8>) -> u64 {
    (h[0] as int * 16777216 + h[1] as int * 65536 + h[2] as int * 256 + h[3] as int) as u64
}

pub(crate) fn bucket_of(h: &[u8; 32]) -> (k: u64)
    ensures
        k == bucket_key(h@),
{
    h[0] as u64 * 16777216 + h[1] as u64 * 65536 + h[2] as u64 * 256 + h[3] as u64
}

/// Seed entry for the cache: hash of the cover and the size of its source image.
pub type KnownArt = ([u8; 32], (u32, u32));

/// A cover already materialised in the cache.
#[derive(Debug, Clone, Copy, PartialEq, Eq)]
pub struct ArtRef {
    pub hash: [u8; 32],
    pub width: u32,
    pub height: u32,
}

/// `base` joined with a relative `part`, as `Path::join` does on Unix: a
/// separator is added only when `base` is not empty and does not already
/// end in one.
pub open spec fn path_join(base: Seq<char>, part: Seq<char>) -> Seq<char> {
    if base.len() == 0 {
        part
    } else if base.last() == '/' {
        base + part
    } else {
        base + seq!['/'] + part
    }
}

/// `<dir>/art/<hex[0..2]>/<hex>_<size>.jpg`.
pub open spec fn thumb_path_spec(dir: Seq<char>, hash: Seq<u8>, size: nat) -> Seq<char> {
    let hex = hex_lower(hash);
    path_join(
        path_join(path_join(dir, seq!['a', 'r', 't']), hex.subrange(0, 2)),
        hex + seq!['_'] + decimal(size) + seq!['.', 'j', 'p', 'g'],
    )
}

fn join_chars(base: &Vec<char>, part: &Vec<char>) -> (r: Vec<char>)
    ensures
        r@ == path_join(base@, part@),
{
    let mut r: Vec<char> = Vec::new();
    let mut i: usize = 0;
    while i < base.len()
        invariant
            i <= base@.len(),
            r@ == base@.subrange(0, i as int),
        decreases base.len() - i,
    {
        r.push(base[i]);
        i += 1;
        assert(r@ =~= base@.subrange(0, i as int));
    }
    if base.len() > 0 && base[base.len() - 1] != '/' {
        r.push('/');
    }
    let ghost before = r@;
    let mut j: usize = 0;
    while j < part.len()
        invariant
            j <= part@.len(),
            r@ == before + part@.subrange(0, j as int),
        decreases part.len() - j,
    {
        r.push(part[j]);
        j += 1;
        assert(r@ =~= before + part@.subrange(0, j as int));
    }
    assert(base@.subrange(0, base@.len() as int) =~= base@);
    assert(part@.subrange(0, part@.len() as int) =~= part@);
    assert(r@ =~= path_join(base@, part@));
    r
}

impl ArtRef {
    /// Path of the thumbnail whose longest side is `size`.
    pub fn thumb_path(cache_dir: &str, hash: &[u8; 32], size: u32) -> (p: String)
        ensures
            p@ == thumb_path_spec(cache_dir@, hash@, size as nat),
    {
        let hex = chars_of(encode(hash).as_str());
        let dir = chars_of(cache_dir);
        let art = vec!['a', 'r', 't'];
        let with_art = join_chars(&dir, &art);
        let shard = vec![hex[0], hex[1]];
        assert(shard@ =~= hex@.subrange(0, 2));
        let with_shard = join_chars(&with_art, &shard);
        let mut name = hex.clone();
        name.push('_');
        let digits = decimal_chars(size as u64);
        let mut k: usize = 0;
        let ghost before = name@;
        while k < digits.len()
            invariant
                k <= digits@.len(),
                name@ == before + digits@.subrange(0, k as int),
            decreases digits.len() - k,
        {
            name.push(digits[k]);
            k += 1;
            assert(name@ =~= before + digits@.subrange(0, k as int));
        }
        name.push('.');
        name.push('j');
        name.push('p');
        name.push('g');
        assert(digits@.subrange(0, digits@.len() as int) =~= digits@);
        assert(name@ =~= hex@ + seq!['_'] + decimal(size as nat) + seq!['.', 'j', 'p', 'g']);
        assert(art@ =~= seq!['a', 'r', 't']);
        let full = join_chars(&with_shard, &name);
        string_of(&full)
    }
}

/// What a list of entries knows: each hash to its size, later entries
/// overriding earlier ones.
pub open spec fn known_map(s: Seq<KnownArt>) -> Map<Seq<u8>, (u32, u32)>
    decreases s.len(),
{
    if s.len() == 0 {
        Map::empty()
    } else {
        known_map(s.drop_last()).insert(s.last().0@, s.last().1)
    }
}

/// No hash occurs twice.
pub open spec fn distinct_keys(s: Seq<KnownArt>) -> bool {
    forall|i: int, j: int| 0 <= i < j < s.len() ==> (#[trigger] s[i]).0@ != (#[trigger] s[j]).0@
}

proof fn lemma_known_lookup(s: Seq<KnownArt>, k: Seq<u8>)
    requires
        distinct_keys(s),
    ensures
        known_map(s).contains_key(k) == (exists|i: int| 0 <= i < s.len() && (#[trigger] s[i]).0@ == k),
        forall|i: int| 0 <= i < s.len() && (#[trigger] s[i]).0@ == k ==> known_map(s)[k] == s[i].1,
    decreases s.len(),
{
    if s.len() > 0 {
        let d = s.drop_last();
        lemma_known_lookup(d, k);
        if s.last().0@ != k {
            if exists|i: int| 0 <= i < s.len() && (#[trigger] s[i]).0@ == k {
                let i = choose|i: int| 0 <= i < s.len() && (#[trigger] s[i]).0@ == k;
                assert(d[i] == s[i]);
            }
            if known_map(s).contains_key(k) {
                let i = choose|i: int| 0 <= i < d.len() && (#[trigger] d[i]).0@ == k;
                assert(s[i] == d[i]);
            }
            assert forall|i: int| 0 <= i < s.len() && (#[trigger] s[i]).0@ == k implies known_map(s)[k] == s[i].1 by {
                assert(i < s.len() - 1);
                assert(s[i] == d[i]);
            }
        } else {
            assert(s[s.len() - 1].0@ == k);
            assert forall|i: int| 0 <= i < s.len() && (#[trigger] s[i]).0@ == k implies known_map(s)[k] == s[i].1 by {
                if i < s.len() - 1 {
                    assert(s[i].0@ == s[s.len() - 1].0@);
                }
            }
        }
    }
}

proof fn lemma_known_update(s: Seq<KnownArt>, i: int, e: KnownArt)
    requires
        distinct_keys(s),
        0 <= i < s.len(),
        s[i].0@ == e.0@,
    ensures
        known_map(s.update(i, e)) == known_map(s).insert(e.0@, e.1),
        distinct_keys(s.update(i, e)),
    decreases s.len(),
{
    let u = s.update(i, e);
    assert(distinct_keys(u)) by {
        assert forall|a: int, b: int| 0 <= a < b < u.len() implies (#[trigger] u[a]).0@ != (#[trigger] u[b]).0@ by {
            assert(s[a].0@ != s[b].0@);
        }
    }
    if i == s.len() - 1 {
        assert(u.drop_last() =~= s.drop_last());
        assert(known_map(u) =~= known_map(s).insert(e.0@, e.1));
    } else {
        let d = s.drop_last();
        assert(u.drop_last() =~= d.update(i, e));
        lemma_known_update(d, i, e);
        assert(s.last().0@ != e.0@) by {
            assert(s[i].0@ != s[s.len() - 1].0@);
        }
        assert(known_map(u) =~= known_map(s).insert(e.0@, e.1));
    }
}

proof fn lemma_known_len(s: Seq<KnownArt>)
    requires
        distinct_keys(s),
    ensures
        known_map(s).dom().finite(),
        known_map(s).dom().len() == s.len(),
    decreases s.len(),
{
    if s.len() > 0 {
        let d = s.drop_last();
        assert(distinct_keys(d)) by {
            assert forall|a: int, b: int| 0 <= a < b < d.len() implies (#[trigger] d[a]).0@ != (#[trigger] d[b]).0@ by {
                assert(s[a].0@ != s[b].0@);
            }
        }
        lemma_known_len(d);
        lemma_known_lookup(d, s.last().0@);
        if known_map(d).contains_key(s.last().0@) {
            let i = choose|i: int| 0 <= i < d.len() && (#[trigger] d[i]).0@ == s.last().0@;
            assert(s[i].0@ != s[s.len() - 1].0@);
        }
    }
}

/// Whether two hashes are the same bytes.
pub(crate) fn same_hash(a: &[u8; 32], b: &[u8; 32]) -> (r: bool)
    ensures
        r == (a@ == b@),
{
    let mut i: usize = 0;
    while i < 32
        invariant
            i <= 32,
            a@.len() == 32,
            b@.len() == 32,
            forall|j: int| 0 <= j < i ==> a@[j] == b@[j],
        decreases 32 - i,
    {
        if a[i] != b[i] {
            return false;
        }
        i += 1;
    }
    assert(a@ =~= b@);
    true
}

/// The BLAKE3 digest of `data`.
pub uninterp spec fn blake3_digest(data: Seq<u8>) -> Seq<u8>;

/// Trusted: `blake3::hash(data)` turned into its 32 bytes; a function of
/// the data alone, named here.
#[verifier::external_body]
pub(crate) fn blake3_hash(data: &[u8]) -> (h: [u8; 32])
    ensures
        h@ == blake3_digest(data@),
{
    blake3::hash(data).into()
}

/// The content hash of a file's bytes: their BLAKE3 digest, the key under
/// which the index knows a track across devices.
pub fn content_hash(data: &[u8]) -> (h: [u8; 32])
    ensures
        h@ == blake3_digest(data@),
{
    blake3_hash(data)
}

/// First step of registering a cover blob: either it is already known, or
/// its hash is handed back for the caller to decode the image and write
/// the thumbnails.
#[derive(Debug, Clone, Copy, PartialEq, Eq)]
pub enum StoreStep {
    Known(ArtRef),
    Decode([u8; 32]),
}

#[verifier::external_type_specification]
#[verifier::external_body]
pub struct ExDynamicImage(image::DynamicImage);

/// The width and height of the image that `image::load_from_memory` decodes
/// from `blob` (its format guessed from the bytes); `None` where the bytes
/// are no image it can decode.
pub uninterp spec fn image_size(blob: Seq<u8>) -> Option<(u32, u32)>;

/// Trusted: `image::load_from_memory(blob)` with the decoded image's
/// `width` and `height`; its error turned into `None`. The size is named.
#[verifier::external_body]
fn decoded_image(blob: &[u8]) -> (r: Option<(image::DynamicImage, u32, u32)>)
    ensures
        match image_size(blob@) {
            Some((w, h)) => r matches Some((_, rw, rh)) && rw == w && rh == h,
            None => r is None,
        },
{
    match image::load_from_memory(blob) {
        Ok(i) => {
            let (w, h) = (i.width(), i.height());
            Some((i, w, h))
        },
        Err(_) => None,
    }
}

/// A cover decoded from its blob: its hash and size are the blob's, and
/// only [`decode_cover`] makes one.
#[derive(Debug)]
pub struct Decoded {
    hash: [u8; 32],
    width: u32,
    height: u32,
    image: image::DynamicImage,
}

impl Decoded {
    pub closed spec fn hash_spec(&self) -> [u8; 32] {
        self.hash
    }

    /// Width and height of the decoded image.
    pub closed spec fn size_spec(&self) -> (u32, u32) {
        (self.width, self.height)
    }

    pub closed spec fn image_spec(&self) -> image::DynamicImage {
        self.image
    }

    pub fn hash(&self) -> (h: [u8; 32])
        ensures
            h == self.hash_spec(),
    {
        self.hash
    }

    pub fn size(&self) -> (s: (u32, u32))
        ensures
            s == self.size_spec(),
    {
        (self.width, self.height)
    }

    /// The decoded image, for the thumbnails.
    pub fn image(&self) -> (i: &image::DynamicImage)
        ensures
            *i == self.image_spec(),
    {
        &self.image
    }
}

/// Decodes a cover blob: `None` when it is no image; otherwise the image
/// with the blob's BLAKE3 hash and the decoded size.
pub fn decode_cover(blob: &[u8]) -> (r: Option<Decoded>)
    ensures
        image_size(blob@) is None ==> r is None,
        image_size(blob@) matches Some(sz) ==> (r matches Some(d) && d.hash_spec()@ == blake3_digest(blob@)
            && d.size_spec() == sz),
{
    match decoded_image(blob) {
        None => None,
        Some((image, width, height)) => {
            let hash = blake3_hash(blob);
            Some(Decoded { hash, width, height, image })
        },
    }
}

/// What [`ArtCache::store`] did with a blob.
#[derive(Debug)]
pub enum Stored {
    /// Already known: no decode.
    Known(ArtRef),
    /// Decoded now and remembered; the image is for the thumbnails.
    New(ArtRef, Decoded),
    /// No image: a broken cover must not keep the track out.
    Broken,
}

/// Remembers which covers are already materialised, so the same image is
/// never decoded twice.
#[derive(Debug)]
pub struct ArtCache {
    dir: String,
    /// hash → size of its source image. The memory of the dedupe: the second
    /// track of an album finds the hash here and skips the decode.
    known: Vec<KnownArt>,
    /// Positions in `known`, by the bucket of their hash.
    slots: HashMap<u64, Vec<usize>>,
}

/// `m` finds every entry of `s` in the bucket of its hash, and holds only
/// positions of `s`.
pub open spec fn slots_index(m: Map<u64, Vec<usize>>, s: Seq<KnownArt>) -> bool {
    &&& forall|k: u64, q: int| #![trigger m[k]@[q]] m.contains_key(k) && 0 <= q < m[k]@.len() ==> m[k]@[q] < s.len()
    &&& forall|j: int| 0 <= j < s.len() ==> m.contains_key(bucket_key((#[trigger] s[j]).0@)) && m[bucket_key(s[j].0@)]@.contains(
        j as usize,
    )
}

impl ArtCache {
    /// The cache directory.
    pub closed spec fn dir_spec(&self) -> Seq<char> {
        self.dir@
    }

    /// Which covers are known, and the size of each source image.
    pub closed spec fn known_spec(&self) -> Map<Seq<u8>, (u32, u32)> {
        known_map(self.known@)
    }

    /// The entries never repeat a hash, and the slots find each of them.
    pub closed spec fn wf(&self) -> bool {
        &&& distinct_keys(self.known@)
        &&& slots_index(self.slots@, self.known@)
    }

    pub fn new(dir: String) -> (c: Self)
        ensures
            c.wf(),
            c.dir_spec() == dir@,
            c.known_spec() == Map::<Seq<u8>, (u32, u32)>::empty(),
    {
        ArtCache { dir, known: Vec::new(), slots: HashMap::new() }
    }

    pub fn dir(&self) -> (d: &str)
        ensures
            d@ == self.dir_spec(),
    {
        self.dir.as_str()
    }

    /// Where `hash` stands in `known`, read from its bucket.
    fn position(&self, hash: &[u8; 32]) -> (r: Option<usize>)
        requires
            self.wf(),
        ensures
            match r {
                Some(i) => i < self.known@.len() && self.known@[i as int].0@ == hash@,
                None => forall|j: int| 0 <= j < self.known@.len() ==> (#[trigger] self.known@[j]).0@ != hash@,
            },
    {
        broadcast use vstd::std_specs::hash::group_hash_axioms;
        let len = self.known.len();
        let k = bucket_of(hash);
        let bucket = match self.slots.get(&k) {
            Some(b) => b,
            None => {
                proof {
                    assert forall|j: int| 0 <= j < self.known@.len() implies (#[trigger] self.known@[j]).0@ != hash@ by {
                        if self.known@[j].0@ == hash@ {
                            assert(self.slots@.contains_key(bucket_key(self.known@[j].0@)));
                        }
                    }
                }
                return None;
            },
        };
        let mut q: usize = 0;
        while q < bucket.len()
            invariant
                self.wf(),
                self.slots@.contains_key(k),
                bucket@ == self.slots@[k]@,
                k == bucket_key(hash@),
                len == self.known@.len(),
                q <= bucket@.len(),
                forall|w: int| 0 <= w < q ==> (#[trigger] self.known@[bucket@[w] as int]).0@ != hash@,
            decreases bucket.len() - q,
        {
            let j = bucket[q];
            assert(self.slots@[k]@[q as int] == j);
            if same_hash(&self.known[j].0, hash) {
                return Some(j);
            }
            q += 1;
        }
        proof {
            assert forall|j: int| 0 <= j < self.known@.len() implies (#[trigger] self.known@[j]).0@ != hash@ by {
                if self.known@[j].0@ == hash@ {
                    assert(bucket_key(self.known@[j].0@) == k);
                    assert(self.slots@[k]@.contains(j as usize));
                    let w = choose|w: int| 0 <= w < self.slots@[k]@.len() && self.slots@[k]@[w] == j as usize;
                    assert(bucket@[w] == j as usize);
                    assert(self.known@[bucket@[w] as int].0@ != hash@);
                }
            }
        }
        None
    }

    /// The size of the source image of `hash`, if it is known.
    pub fn lookup(&self, hash: &[u8; 32]) -> (r: Option<(u32, u32)>)
        requires
            self.wf(),
        ensures
            r == (if self.known_spec().contains_key(hash@) {
                Some(self.known_spec()[hash@])
            } else {
                None
            }),
    {
        proof {
            lemma_known_lookup(self.known@, hash@);
        }
        match self.position(hash) {
            Some(i) => Some(self.known[i].1),
            None => None,
        }
    }

    /// The reference of a cover that is already materialised.
    pub fn cached(&self, hash: &[u8; 32]) -> (r: Option<ArtRef>)
        requires
            self.wf(),
        ensures
            r == (if self.known_spec().contains_key(hash@) {
                Some(ArtRef { hash: *hash, width: self.known_spec()[hash@].0, height: self.known_spec()[hash@].1 })
            } else {
                None
            }),
    {
        match self.lookup(hash) {
            Some((width, height)) => Some(ArtRef { hash: *hash, width, height }),
            None => None,
        }
    }

    /// Hashes a cover blob and looks it up: the second track of an album
    /// gets the known reference and never decodes.
    pub fn begin_store(&self, blob: &[u8]) -> (s: StoreStep)
        requires
            self.wf(),
        ensures
            match s {
                StoreStep::Known(a) => a.hash@ == blake3_digest(blob@) && self.known_spec().contains_key(a.hash@)
                    && (a.width, a.height) == self.known_spec()[a.hash@],
                StoreStep::Decode(h) => h@ == blake3_digest(blob@) && !self.known_spec().contains_key(h@),
            },
    {
        let hash = blake3_hash(blob);
        match self.cached(&hash) {
            Some(art) => StoreStep::Known(art),
            None => StoreStep::Decode(hash),
        }
    }

    /// Second step, once the cover is decoded (and its thumbnails written):
    /// remembers it, with the size the decode found, and gives its reference.
    pub fn finish_store(&mut self, d: &Decoded) -> (a: ArtRef)
        requires
            old(self).wf(),
        ensures
            final(self).wf(),
            final(self).dir_spec() == old(self).dir_spec(),
            final(self).known_spec() == old(self).known_spec().insert(d.hash_spec()@, d.size_spec()),
            a == (ArtRef { hash: d.hash_spec(), width: d.size_spec().0, height: d.size_spec().1 }),
    {
        let (width, height) = d.size();
        let hash = d.hash();
        self.record(hash, (width, height));
        ArtRef { hash, width, height }
    }

    /// Registers a cover blob, all in one: the known reference when its
    /// hash is known (nothing changes); otherwise the blob is decoded, and
    /// either it is no image (`Broken`, nothing changes) or the cover is
    /// remembered at the decoded size and handed back with the decoded
    /// image, for the caller to write its thumbnails (`New`).
    pub fn store(&mut self, blob: &[u8]) -> (r: Stored)
        requires
            old(self).wf(),
        ensures
            final(self).wf(),
            final(self).dir_spec() == old(self).dir_spec(),
            old(self).known_spec().contains_key(blake3_digest(blob@)) ==> (r matches Stored::Known(a)
                && a.hash@ == blake3_digest(blob@) && (a.width, a.height) == old(self).known_spec()[blake3_digest(
                blob@,
            )] && final(self).known_spec() == old(self).known_spec()),
            !old(self).known_spec().contains_key(blake3_digest(blob@)) && image_size(blob@) is None ==> (r is Broken
                && final(self).known_spec() == old(self).known_spec()),
            !old(self).known_spec().contains_key(blake3_digest(blob@)) && image_size(blob@) is Some ==> (r matches Stored::New(
                a,
                d,
            ) && a.hash@ == blake3_digest(blob@) && (a.width, a.height) == image_size(blob@)->0
                && d.hash_spec() == a.hash && final(self).known_spec() == old(self).known_spec().insert(
                blake3_digest(blob@),
                image_size(blob@)->0,
            )),
    {
        match self.begin_store(blob) {
            StoreStep::Known(a) => Stored::Known(a),
            StoreStep::Decode(_) => match decode_cover(blob) {
                None => Stored::Broken,
                Some(d) => {
                    let a = self.finish_store(&d);
                    Stored::New(a, d)
                },
            },
        }
    }

    /// Remembers that `hash` is materialised, from a source image of `size`.
    pub fn record(&mut self, hash: [u8; 32], size: (u32, u32))
        requires
            old(self).wf(),
        ensures
            final(self).wf(),
            final(self).dir_spec() == old(self).dir_spec(),
            final(self).known_spec() == old(self).known_spec().insert(hash@, size),
    {
        broadcast use vstd::std_specs::hash::group_hash_axioms;
        let ghost s = self.known@;
        match self.position(&hash) {
            Some(i) => {
                proof {
                    lemma_known_update(s, i as int, (hash, size));
                }
                self.known.set(i, (hash, size));
                proof {
                    let u = s.update(i as int, (hash, size));
                    assert(self.known@ == u);
                    assert forall|j: int| 0 <= j < u.len() implies self.slots@.contains_key(bucket_key((#[trigger] u[j]).0@))
                        && self.slots@[bucket_key(u[j].0@)]@.contains(j as usize) by {
                        assert(u[j].0@ == s[j].0@);
                    }
                }
            },
            None => {
                let n = self.known.len();
                let k = bucket_of(&hash);
                let ghost m0 = self.slots@;
                let mut bucket = match self.slots.remove(&k) {
                    Some(b) => b,
                    None => Vec::new(),
                };
                let ghost b0 = bucket@;
                bucket.push(n);
                self.slots.insert(k, bucket);
                self.known.push((hash, size));
                proof {
                    let p = s.push((hash, size));
                    assert(self.known@ == p);
                    assert(p.drop_last() =~= s);
                    assert forall|a: int, b: int| 0 <= a < b < p.len() implies (#[trigger] p[a]).0@ != (#[trigger] p[b]).0@ by {
                        if b < s.len() {
                            assert(s[a].0@ != s[b].0@);
                        } else {
                            assert(s[a].0@ != hash@);
                        }
                    }
                    assert forall|kk: u64, q: int| #![trigger self.slots@[kk]@[q]]
                        self.slots@.contains_key(kk) && 0 <= q < self.slots@[kk]@.len() implies self.slots@[kk]@[q] < p.len() by {
                        if kk == k {
                            if q < b0.len() {
                                assert(self.slots@[kk]@[q] == m0[k]@[q]);
                            }
                        } else {
                            assert(self.slots@[kk] == m0[kk]);
                        }
                    }
                    assert forall|j: int| 0 <= j < p.len() implies self.slots@.contains_key(bucket_key((#[trigger] p[j]).0@))
                        && self.slots@[bucket_key(p[j].0@)]@.contains(j as usize) by {
                        if j == s.len() {
                            assert(self.slots@[k]@[b0.len() as int] == n);
                        } else {
                            assert(p[j] == s[j]);
                            let kj = bucket_key(s[j].0@);
                            assert(m0.contains_key(kj) && m0[kj]@.contains(j as usize));
                            let w = choose|w: int| 0 <= w < m0[kj]@.len() && m0[kj]@[w] == j as usize;
                            if kj == k {
                                assert(self.slots@[k]@[w] == b0[w]);
                            } else {
                                assert(self.slots@[kj] == m0[kj]);
                            }
                        }
                    }
                }
            },
        }
    }

    /// Seeds the cache with what the index already knows, so a rescan does
    /// not decode any cover again. Later entries override earlier ones.
    pub fn preload(&mut self, entries: Vec<KnownArt>)
        requires
            old(self).wf(),
        ensures
            final(self).wf(),
            final(self).dir_spec() == old(self).dir_spec(),
            final(self).known_spec() == old(self).known_spec().union_prefer_right(known_map(entries@)),
    {
        let ghost start = self.known_spec();
        let mut i: usize = 0;
        while i < entries.len()
            invariant
                self.wf(),
                self.dir_spec() == old(self).dir_spec(),
                start == old(self).known_spec(),
                i <= entries@.len(),
                self.known_spec() == start.union_prefer_right(known_map(entries@.subrange(0, i as int))),
            decreases entries.len() - i,
        {
            let (hash, size) = entries[i];
            self.record(hash, size);
            proof {
                let t = entries@.subrange(0, i + 1);
                assert(t.drop_last() =~= entries@.subrange(0, i as int));
                assert(self.known_spec() =~= start.union_prefer_right(known_map(t)));
            }
            i += 1;
        }
        proof {
            assert(entries@.subrange(0, entries@.len() as int) =~= entries@);
            
        }
    }

    /// How many distinct covers went through here.
    pub fn len(&self) -> (n: usize)
        requires
            self.wf(),
        ensures
            self.known_spec().dom().finite(),
            n == self.known_spec().dom().len(),
    {
        proof {
            lemma_known_len(self.known@);
        }
        self.known.len()
    }

    pub fn is_empty(&self) -> (b: bool)
        requires
            self.wf(),
        ensures
            b == (self.known_spec().dom().len() == 0),
    {
        self.len() == 0
    }
}

/// The same blob never becomes a second cover: once a cover is stored, its
/// hash is known with the same size, and storing it again changes nothing.
pub proof fn lemma_store_dedupes(m: Map<Seq<u8>, (u32, u32)>, h: Seq<u8>, size: (u32, u32))
    ensures
        m.insert(h, size).contains_key(h),
        m.insert(h, size)[h] == size,
        m.insert(h, size).insert(h, size) == m.insert(h, size),
        m.contains_key(h) ==> m.insert(h, size).dom() == m.dom(),
{
    assert(m.insert(h, size).insert(h, size) =~= m.insert(h, size));
    if m.contains_key(h) {
        assert(m.insert(h, size).dom() =~= m.dom());
    }
}

/// One call on an [`ArtCache`]: a preload of entries, or a store of a blob.
pub ghost enum CacheOp {
    Preload(Seq<KnownArt>),
    Store(Seq<u8>),
}

/// How the known covers change on one call, as [`ArtCache::preload`] and
/// [`ArtCache::store`] promise.
pub open spec fn cache_step(before: Map<Seq<u8>, (u32, u32)>, op: CacheOp, after: Map<Seq<u8>, (u32, u32)>) -> bool {
    match op {
        CacheOp::Preload(es) => after == before.union_prefer_right(known_map(es)),
        CacheOp::Store(blob) => {
            let h = blake3_digest(blob);
            &&& before.contains_key(h) ==> after == before
            &&& !before.contains_key(h) && image_size(blob) is None ==> after == before
            &&& !before.contains_key(h) && image_size(blob) is Some ==> after == before.insert(h, image_size(blob)->0)
        },
    }
}

/// The hashes that one call brings: those of the preloaded entries, or the
/// digest of a stored blob that is an image.
pub open spec fn op_hashes(op: CacheOp) -> Set<Seq<u8>> {
    match op {
        CacheOp::Preload(es) => known_map(es).dom(),
        CacheOp::Store(blob) => if image_size(blob) is Some {
            set![blake3_digest(blob)]
        } else {
            Set::empty()
        },
    }
}

/// The hashes that a sequence of calls brings, all together.
pub open spec fn ops_hashes(ops: Seq<CacheOp>) -> Set<Seq<u8>>
    decreases ops.len(),
{
    if ops.len() == 0 {
        Set::empty()
    } else {
        ops_hashes(ops.drop_last()).union(op_hashes(ops.last()))
    }
}

/// Starting from a new (empty) cache, any sequence of preloads and stores
/// leaves exactly the union of the preloaded hashes and of the digests of
/// the stored blobs that are images; storing a known blob again adds
/// nothing.
pub proof fn lemma_cache_union(states: Seq<Map<Seq<u8>, (u32, u32)>>, ops: Seq<CacheOp>)
    requires
        states.len() == ops.len() + 1,
        states[0] == Map::<Seq<u8>, (u32, u32)>::empty(),
        forall|i: int| 0 <= i < ops.len() ==> cache_step(#[trigger] states[i], ops[i], states[i + 1]),
    ensures
        states.last().dom() == ops_hashes(ops),
    decreases ops.len(),
{
    if ops.len() == 0 {
        assert(states.last().dom() =~= Set::<Seq<u8>>::empty());
    } else {
        let n = ops.len() - 1;
        let s2 = states.take(n + 1);
        let o2 = ops.drop_last();
        assert forall|i: int| 0 <= i < o2.len() implies cache_step(#[trigger] s2[i], o2[i], s2[i + 1]) by {
            assert(s2[i] == states[i]);
            assert(s2[i + 1] == states[i + 1]);
            assert(cache_step(states[i], ops[i], states[i + 1]));
        }
        lemma_cache_union(s2, o2);
        let before = states[n];
        let after = states[n + 1];
        assert(cache_step(before, ops[n], after));
        assert(s2.last() == before);
        match ops[n] {
            CacheOp::Preload(es) => {
                assert(after.dom() =~= before.dom().union(known_map(es).dom()));
            },
            CacheOp::Store(blob) => {
                let h = blake3_digest(blob);
                if before.contains_key(h) || image_size(blob) is None {
                    assert(after.dom() =~= before.dom().union(op_hashes(ops[n])));
                } else {
                    assert(after.dom() =~= before.dom().insert(h));
                    assert(after.dom() =~= before.dom().union(op_hashes(ops[n])));
                }
            },
        }
        assert(states.last() == after);
    }
}

} // verus!
