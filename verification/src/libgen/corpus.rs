//! The synthetic library: silent MP3 frames, names, and the plan of artists,
//! albums and covers that a seed determines.
use vstd::prelude::*;

use super::png::{cover, cover_spec};
use super::rng::{scramble, xorshift, Rng, ZERO_SEED_REPLACEMENT};
use crate::strutil::{chars_of, concat, decimal, decimal_chars, lemma_decimal_injective, string_of};

verus! {

/// MPEG-1 Layer III, 128 kbps, 44.1 kHz, stereo, no CRC.
pub const FRAME_HEADER: [u8; 4] = [0xFF, 0xFB, 0x90, 0x00];

/// `144 * 128000 / 44100`, truncated.
pub const FRAME_LEN: usize = 417;

/// A Layer III frame carries 1152 samples.
pub const SAMPLES_PER_FRAME: u32 = 1152;

pub const SAMPLE_RATE: u32 = 44100;

pub open spec fn frame_count(seconds: u32) -> nat {
    ((seconds * SAMPLE_RATE + SAMPLES_PER_FRAME - 1) / (SAMPLES_PER_FRAME as int)) as nat
}

/// Byte `i` of a silent stream: every frame is its header then zeros.
pub open spec fn silent_byte(i: int) -> u8 {
    if i % (FRAME_LEN as int) < 4 {
        FRAME_HEADER@[i % (FRAME_LEN as int)]
    } else {
        0
    }
}

/// An MP3 of silence lasting `seconds`: whole frames whose body is zero,
/// which every decoder reads as silence.
pub fn silent_mp3(seconds: u32) -> (out: Vec<u8>)
    requires
        seconds * SAMPLE_RATE <= u32::MAX,
    ensures
        out.len() == frame_count(seconds) * FRAME_LEN,
        forall|i: int| 0 <= i < out.len() ==> #[trigger] out@[i] == silent_byte(i),
{
    let samples: u32 = seconds * SAMPLE_RATE;
    let whole: u32 = samples / SAMPLES_PER_FRAME;
    let frames32: u32 = if samples % SAMPLES_PER_FRAME == 0 { whole } else { whole + 1 };
    assert(frames32 == frame_count(seconds));
    assert(frames32 <= 3728271);
    let frames = frames32 as usize;
    let total = frames * FRAME_LEN;
    let mut out: Vec<u8> = Vec::new();
    let mut i: usize = 0;
    while i < total
        invariant
            i <= total,
            total == frames * FRAME_LEN,
            out.len() == i,
            forall|j: int| 0 <= j < i ==> #[trigger] out@[j] == silent_byte(j),
        decreases total - i,
    {
        let k = i % FRAME_LEN;
        let b = if k < 4 { FRAME_HEADER[k] } else { 0 };
        out.push(b);
        i += 1;
    }
    out
}

/// Whether `c` breaks a path on some file system.
pub open spec fn unsafe_char(c: char) -> bool {
    c == '/' || c == '\\' || c == ':' || c == '*' || c == '?' || c == '"' || c == '<' || c == '>'
        || c == '|'
}

pub open spec fn sanitize_spec(name: Seq<char>) -> Seq<char> {
    name.map_values(|c: char| if unsafe_char(c) { '_' } else { c })
}

/// Replaces what breaks on some file system by `_`.
pub fn sanitize(name: &str) -> (r: String)
    ensures
        r@ == sanitize_spec(name@),
{
    let chars = chars_of(name);
    let mut out: Vec<char> = Vec::new();
    let mut i: usize = 0;
    while i < chars.len()
        invariant
            i <= chars.len(),
            out@ == sanitize_spec(chars@.take(i as int)),
        decreases chars.len() - i,
    {
        let c = chars[i];
        let bad = c == '/' || c == '\\' || c == ':' || c == '*' || c == '?' || c == '"' || c == '<'
            || c == '>' || c == '|';
        out.push(if bad { '_' } else { c });
        i += 1;
        assert(out@ =~= sanitize_spec(chars@.take(i as int)));
    }
    assert(chars@.take(chars.len() as int) =~= chars@);
    string_of(&out)
}

// ---------------------------------------------------------------------------
// Unique names
// ---------------------------------------------------------------------------

pub open spec fn views(v: Seq<String>) -> Seq<Seq<char>> {
    v.map_values(|s: String| s@)
}

/// `base` followed by a space and the number `n`.
pub open spec fn numbered(base: Seq<char>, n: nat) -> Seq<char> {
    base + seq![' '] + decimal(n)
}

/// The name `unique` picks: `base` if free, else the first free `base n`
/// with `n >= 2`.
pub open spec fn first_free(used: Seq<Seq<char>>, base: Seq<char>) -> Seq<char> {
    if !used.contains(base) {
        base
    } else {
        numbered(
            base,
            choose|n: nat|
                n >= 2 && !used.contains(numbered(base, n)) && forall|k: nat|
                    2 <= k < n ==> used.contains(numbered(base, k)),
        )
    }
}

fn contains(used: &Vec<String>, s: &String) -> (r: bool)
    ensures
        r == views(used@).contains(s@),
{
    let mut i: usize = 0;
    while i < used.len()
        invariant
            i <= used.len(),
            forall|j: int| 0 <= j < i ==> used@[j]@ != s@,
        decreases used.len() - i,
    {
        if used[i] == *s {
            assert(views(used@)[i as int] == s@);
            return true;
        }
        i += 1;
    }
    assert(!views(used@).contains(s@)) by {
        if views(used@).contains(s@) {
            let j = choose|j: int| 0 <= j < views(used@).len() && views(used@)[j] == s@;
            assert(used@[j]@ == s@);
        }
    }
    false
}

/// Makes `base` unique among `used`, numbering it if needed, and records it.
pub fn unique(used: &mut Vec<String>, base: String) -> (r: String)
    requires
        old(used).len() + 3 <= u32::MAX,
    ensures
        !views(old(used)@).contains(r@),
        r@ == first_free(views(old(used)@), base@),
        final(used)@ == old(used)@.push(r),
{
    if !contains(used, &base) {
        let r = base.clone();
        used.push(base);
        return r;
    }
    let ghost seen: Seq<Seq<char>> = Seq::empty();
    let b = chars_of(base.as_str());
    let mut n: u32 = 2;
    loop
        invariant
            2 <= n <= used.len() + 2,
            used@ == old(used)@,
            old(used).len() + 3 <= u32::MAX,
            b@ == base@,
            views(used@).contains(base@),
            seen.len() == n - 2,
            forall|k: nat| 2 <= k < n ==> #[trigger] seen[k - 2] == numbered(base@, k),
            forall|k: nat| 2 <= k < n ==> views(used@).contains(#[trigger] numbered(base@, k)),
        decreases used.len() + 2 - n,
    {
        let space = vec![' '];
        assert(space@ =~= seq![' ']);
        let mut cand = concat(&b, &space);
        let digits = decimal_chars(n as u64);
        cand = concat(&cand, &digits);
        let candidate = string_of(&cand);
        if !contains(used, &candidate) {
            proof {
                let chosen = choose|m: nat|
                    m >= 2 && !views(used@).contains(numbered(base@, m)) && forall|k: nat|
                        2 <= k < m ==> views(used@).contains(numbered(base@, k));
                assert(n >= 2 && !views(used@).contains(numbered(base@, n as nat)) && forall|k: nat|
                    2 <= k < n ==> views(used@).contains(numbered(base@, k)));
                if chosen != n {
                    if chosen < n {
                        assert(views(used@).contains(numbered(base@, chosen)));
                    } else {
                        assert(views(used@).contains(numbered(base@, n as nat)));
                    }
                }
            }
            let r = candidate.clone();
            used.push(candidate);
            return r;
        }
        proof {
            let seen2 = seen.push(numbered(base@, n as nat));
            assert forall|k: nat| 2 <= k < n + 1 implies #[trigger] seen2[k - 2] == numbered(base@, k) by {
                if k < n {
                    assert(seen2[k - 2] == seen[k - 2]);
                }
            }
            lemma_seen_bounded(views(used@), base@, seen2, (n + 1) as nat);
            seen = seen2;
        }
        n += 1;
    }
}

/// Distinct names that are all in `used` are no more than `used` holds.
proof fn lemma_seen_bounded(used: Seq<Seq<char>>, base: Seq<char>, seen: Seq<Seq<char>>, n: nat)
    requires
        n >= 2,
        seen.len() == n - 2,
        forall|k: nat| 2 <= k < n ==> #[trigger] seen[k - 2] == numbered(base, k),
        forall|k: nat| 2 <= k < n ==> used.contains(#[trigger] numbered(base, k)),
    ensures
        seen.len() <= used.len(),
{
    lemma_numbered_distinct(base, seen, n);
    assert forall|x: Seq<char>| seen.to_set().contains(x) implies used.to_set().contains(x) by {
        let i = choose|i: int| 0 <= i < seen.len() && seen[i] == x;
        let k = (i + 2) as nat;
        assert(seen[k - 2] == numbered(base, k));
        assert(used.contains(numbered(base, k)));
    }
    seen.unique_seq_to_set();
    used.lemma_cardinality_of_set();
    vstd::set_lib::lemma_len_subset(seen.to_set(), used.to_set());
}

proof fn lemma_numbered_distinct(base: Seq<char>, seen: Seq<Seq<char>>, n: nat)
    requires
        n >= 2,
        seen.len() == n - 2,
        forall|k: nat| 2 <= k < n ==> #[trigger] seen[k - 2] == numbered(base, k),
    ensures
        seen.no_duplicates(),
{
    assert forall|i: int, j: int| 0 <= i < seen.len() && 0 <= j < seen.len() && i != j implies seen[i] != seen[j] by {
        let ki = (i + 2) as nat;
        let kj = (j + 2) as nat;
        assert(seen[ki - 2] == numbered(base, ki));
        assert(seen[kj - 2] == numbered(base, kj));
        if seen[i] == seen[j] {
            assert(decimal(ki) =~= numbered(base, ki).skip(base.len() as int + 1));
            assert(decimal(kj) =~= numbered(base, kj).skip(base.len() as int + 1));
            lemma_decimal_injective(ki, kj);
        }
    }
}


// ---------------------------------------------------------------------------
// Names
// ---------------------------------------------------------------------------

/// Accents and mixed case on purpose: they exercise key folding and the
/// accent-free search.
pub const ADJ: [&'static str; 14] = [
    "Último",
    "Azul",
    "Silent",
    "Órbita",
    "Elétrico",
    "Vermelho",
    "Distant",
    "Solar",
    "Ínfimo",
    "Nocturnal",
    "Vazio",
    "Golden",
    "Áspero",
    "Quiet",
];

pub const NOUN: [&'static str; 14] = [
    "Verão",
    "Machine",
    "Coração",
    "Signal",
    "Estação",
    "Mirror",
    "Água",
    "Cavalo",
    "Tempest",
    "Sertão",
    "Circuit",
    "Névoa",
    "Harbour",
    "Ilhas",
];

pub const GENRE: [&'static str; 7] = ["Rock", "MPB", "Jazz", "Electronic", "Ambient", "Samba", "Post-Punk"];

/// The two words that a generator in state `s` draws.
pub open spec fn two_words_spec(s: u64) -> Seq<char> {
    let i = (scramble(xorshift(s)) % 14) as int;
    let j = (scramble(xorshift(xorshift(s))) % 14) as int;
    ADJ@[i]@ + seq![' '] + NOUN@[j]@
}

/// An adjective and a noun, drawn from `rng`.
pub fn two_words(rng: &mut Rng) -> (r: String)
    ensures
        r@ == two_words_spec(old(rng).state()),
        final(rng).state() == xorshift(xorshift(old(rng).state())),
{
    let adj: &[&str] = &ADJ;
    let noun: &[&str] = &NOUN;
    let a = rng.pick(adj);
    let n = rng.pick(noun);
    let space = vec![' '];
    let first = concat(&chars_of(a), &space);
    let both = concat(&first, &chars_of(n));
    assert(space@ =~= seq![' ']);
    string_of(&both)
}


// ---------------------------------------------------------------------------
// Plan
// ---------------------------------------------------------------------------

pub struct AlbumPlan {
    pub artist: String,
    pub album: String,
    pub genre: &'static str,
    pub year: u32,
    /// One cover per album, repeated in all of its tracks.
    pub art: Vec<u8>,
    pub titles: Vec<String>,
}

pub open spec fn total_titles(albums: Seq<AlbumPlan>) -> nat
    decreases albums.len(),
{
    if albums.len() == 0 {
        0
    } else {
        total_titles(albums.drop_last()) + albums.last().titles@.len()
    }
}

/// No two albums share the directory `artist/album`.
pub open spec fn distinct_dirs(albums: Seq<AlbumPlan>) -> bool {
    forall|i: int, j: int|
        0 <= i < j < albums.len() ==> (#[trigger] albums[i]).artist@ != (#[trigger] albums[j]).artist@
            || albums[i].album@ != albums[j].album@
}

#[verifier::opaque]
pub open spec fn well_formed_album(a: AlbumPlan, art_px: u32) -> bool {
    &&& 1 <= a.titles.len() <= 14
    &&& 1970 <= a.year < 2025
    &&& exists|s: u64| a.art@ == cover_spec(art_px, s)
    &&& exists|g: int| 0 <= g < 7 && a.genre == GENRE@[g]
}

/// Adding an album of the current artist whose title is new for that
/// artist keeps the directories distinct.
proof fn lemma_push_album(albums: Seq<AlbumPlan>, start: int, artist: Seq<char>, used: Seq<Seq<char>>, a: AlbumPlan)
    requires
        0 <= start <= albums.len(),
        distinct_dirs(albums),
        forall|i: int| 0 <= i < start ==> (#[trigger] albums[i]).artist@ != artist,
        forall|i: int| start <= i < albums.len() ==> (#[trigger] albums[i]).artist@ == artist && used.contains(albums[i].album@),
        a.artist@ == artist,
        !used.contains(a.album@),
    ensures
        distinct_dirs(albums.push(a)),
        forall|i: int| 0 <= i < start ==> (#[trigger] albums.push(a)[i]).artist@ != artist,
        forall|i: int| start <= i < albums.len() + 1 ==> (#[trigger] albums.push(a)[i]).artist@ == artist && used.push(a.album@).contains(albums.push(a)[i].album@),
{
    let s = albums.push(a);
    assert forall|i: int, j: int| 0 <= i < j < s.len() implies (#[trigger] s[i]).artist@ != (#[trigger] s[j]).artist@
        || s[i].album@ != s[j].album@ by {
        if j == albums.len() {
            if i >= start {
                assert(used.contains(s[i].album@));
            }
        } else {
            assert(s[i] == albums[i] && s[j] == albums[j]);
        }
    }
    assert forall|i: int| start <= i < albums.len() + 1 implies (#[trigger] s[i]).artist@ == artist && used.push(a.album@).contains(s[i].album@) by {
        let u = used.push(a.album@);
        if i == albums.len() {
            assert(u[used.len() as int] == a.album@);
        } else {
            assert(s[i] == albums[i]);
            let w = choose|w: int| 0 <= w < used.len() && used[w] == albums[i].album@;
            assert(u[w] == used[w]);
        }
    }
}

proof fn lemma_new_artist(albums: Seq<AlbumPlan>, used: Seq<Seq<char>>, artist: Seq<char>)
    requires
        forall|i: int| 0 <= i < albums.len() ==> used.contains(#[trigger] albums[i].artist@),
        !used.contains(artist),
    ensures
        forall|i: int| 0 <= i < albums.len() ==> used.push(artist).contains(#[trigger] albums[i].artist@)
            && albums[i].artist@ != artist,
        used.push(artist).contains(artist),
{
    let u = used.push(artist);
    assert forall|i: int| 0 <= i < albums.len() implies u.contains(#[trigger] albums[i].artist@)
        && albums[i].artist@ != artist by {
        let w = choose|w: int| 0 <= w < used.len() && used[w] == albums[i].artist@;
        assert(u[w] == used[w]);
    }
    assert(u[used.len() as int] == artist);
}

/// An album of the plan as plain values.
pub ghost struct AlbumView {
    pub artist: Seq<char>,
    pub album: Seq<char>,
    pub genre: Seq<char>,
    pub year: u32,
    pub art: Seq<u8>,
    pub titles: Seq<Seq<char>>,
}

pub open spec fn album_view(a: AlbumPlan) -> AlbumView {
    AlbumView { artist: a.artist@, album: a.album@, genre: a.genre@, year: a.year, art: a.art@, titles: views(a.titles@) }
}

pub open spec fn album_views(albums: Seq<AlbumPlan>) -> Seq<AlbumView> {
    albums.map_values(|a: AlbumPlan| album_view(a))
}

/// The generator after drawing two words.
pub open spec fn step2(s: u64) -> u64 {
    xorshift(xorshift(s))
}

/// The generator after drawing `n` pairs of words.
pub open spec fn step2_n(s: u64, n: nat) -> u64
    decreases n,
{
    if n == 0 {
        s
    } else {
        step2(step2_n(s, (n - 1) as nat))
    }
}

/// The `n` track titles drawn from state `s`.
pub open spec fn titles_from(s: u64, n: nat) -> Seq<Seq<char>>
    decreases n,
{
    if n == 0 {
        Seq::empty()
    } else {
        titles_from(s, (n - 1) as nat).push(sanitize_spec(two_words_spec(step2_n(s, (n - 1) as nat))))
    }
}

/// The album of `artist` with `n` titles drawn from state `s`, named
/// freshly among `used`, and the generator's state afterwards: its name,
/// then its genre, year and cover seed, then its titles.
pub open spec fn album_draw(s: u64, artist: Seq<char>, used: Seq<Seq<char>>, n: nat, art_px: u32) -> (AlbumView, u64) {
    let s1 = step2(s);
    let g = (scramble(xorshift(s1)) % 7) as int;
    let s2 = xorshift(s1);
    let year = (1970 + scramble(xorshift(s2)) % 55) as u32;
    let s3 = xorshift(s2);
    let art_seed = scramble(xorshift(s3));
    let s4 = xorshift(s3);
    (
        AlbumView {
            artist,
            album: first_free(used, sanitize_spec(two_words_spec(s))),
            genre: GENRE@[g]@,
            year,
            art: cover_spec(art_px, art_seed),
            titles: titles_from(s4, n),
        },
        step2_n(s4, n),
    )
}

/// The albums of one artist, from its `k`-th of `count` on, with
/// `remaining` tracks still to place and the generator at `s`: each draws
/// 6 to 14 tracks (no more than remain). Gives the albums, the tracks still
/// to place and the generator's state.
pub open spec fn artist_albums(
    k: nat,
    count: nat,
    remaining: nat,
    s: u64,
    artist: Seq<char>,
    used: Seq<Seq<char>>,
    art_px: u32,
) -> (Seq<AlbumView>, nat, u64)
    decreases count - k,
{
    if k >= count || remaining == 0 {
        (Seq::empty(), remaining, s)
    } else {
        let drawn = 6 + scramble(xorshift(s)) % 9;
        let n: nat = if drawn < remaining { drawn as nat } else { remaining };
        let (a, s2) = album_draw(xorshift(s), artist, used, n, art_px);
        let (rest, rem, s3) = artist_albums(k + 1, count, (remaining - n) as nat, s2, artist, used.push(a.album), art_px);
        (seq![a] + rest, rem, s3)
    }
}

/// The plan from a state: with `remaining` tracks to place, the generator
/// at `s` and the artists named so far `used`, a fresh artist gets 1 to 4
/// albums, until every track has its place.
pub open spec fn plan_from(remaining: nat, s: u64, used: Seq<Seq<char>>, art_px: u32) -> Seq<AlbumView>
    decreases remaining,
{
    if remaining == 0 {
        Seq::empty()
    } else {
        let artist = first_free(used, sanitize_spec(two_words_spec(s)));
        let s1 = step2(s);
        let count = 1 + scramble(xorshift(s1)) % 4;
        let (albums, rem, s2) = artist_albums(0, count as nat, remaining, xorshift(s1), artist, Seq::empty(), art_px);
        if rem < remaining {
            albums + plan_from(rem, s2, used.push(artist), art_px)
        } else {
            albums
        }
    }
}

/// One album drawn: the albums from the `k`-th on are that album and the
/// albums from the next one on.
proof fn lemma_artist_albums_step(
    k: nat,
    count: nat,
    remaining: nat,
    s: u64,
    artist: Seq<char>,
    used: Seq<Seq<char>>,
    art_px: u32,
    n: nat,
    a: AlbumView,
    s2: u64,
)
    requires
        k < count,
        remaining > 0,
        n == (if 6 + scramble(xorshift(s)) % 9 < remaining { (6 + scramble(xorshift(s)) % 9) as nat } else { remaining }),
        (a, s2) == album_draw(xorshift(s), artist, used, n, art_px),
    ensures
        ({
            let cur = artist_albums(k, count, remaining, s, artist, used, art_px);
            let next = artist_albums(k + 1, count, (remaining - n) as nat, s2, artist, used.push(a.album), art_px);
            cur.0 == seq![a] + next.0 && cur.1 == next.1 && cur.2 == next.2
        }),
{
}

/// The library that a seed plans.
pub open spec fn plan_spec(tracks: nat, seed: u64, art_px: u32) -> Seq<AlbumView> {
    plan_from(tracks, if seed == 0 { ZERO_SEED_REPLACEMENT } else { seed }, Seq::empty(), art_px)
}

/// One album of `artist` with `n` titles, named freshly among `used_albums`.
fn draw_album(rng: &mut Rng, artist: &String, used_albums: &mut Vec<String>, n: usize, art_px: u32) -> (a: AlbumPlan)
    requires
        1 <= n <= 14,
        old(used_albums).len() + 3 <= u32::MAX,
        art_px * (art_px * 3 + 1) <= u32::MAX,
    ensures
        well_formed_album(a, art_px),
        a.artist@ == artist@,
        a.titles.len() == n,
        !views(old(used_albums)@).contains(a.album@),
        views(final(used_albums)@) == views(old(used_albums)@).push(a.album@),
        (album_view(a), final(rng).state()) == album_draw(old(rng).state(), artist@, views(old(used_albums)@), n as nat, art_px),
{
    let album_base = two_words(rng);
    let album = unique(used_albums, sanitize(album_base.as_str()));
    let genres: &[&str] = &GENRE;
    let genre = *rng.pick(genres);
    let year = 1970 + rng.below(55) as u32;
    let art_seed = rng.next_u64();
    let art = cover(art_px, art_seed);
    let ghost s4 = rng.state();
    let mut titles: Vec<String> = Vec::new();
    let mut t: usize = 0;
    while t < n
        invariant
            t <= n,
            titles.len() == t,
            views(titles@) == titles_from(s4, t as nat),
            rng.state() == step2_n(s4, t as nat),
        decreases n - t,
    {
        let w = two_words(rng);
        let ghost before = titles@;
        titles.push(sanitize(w.as_str()));
        proof {
            assert(titles@ == before.push(titles@.last()));
            assert(views(titles@) =~= views(before).push(titles@.last()@));
        }
        t += 1;
    }
    let a = AlbumPlan { artist: artist.clone(), album, genre, year, art, titles };
    proof {
        reveal(well_formed_album);
        assert(views(used_albums@) =~= views(old(used_albums)@).push(a.album@));
        assert(exists|g: int| 0 <= g < 7 && a.genre == GENRE@[g]);
        assert(a.art@ == cover_spec(art_px, art_seed));
    }
    a
}

/// The whole library, planned in memory before anything is written, so the
/// corpus depends on the seed alone.
#[verifier::rlimit(100)]
#[verifier::spinoff_prover]
pub fn plan(tracks: usize, seed: u64, art_px: u32) -> (albums: Vec<AlbumPlan>)
    requires
        tracks + 3 <= u32::MAX,
        art_px * (art_px * 3 + 1) <= u32::MAX,
    ensures
        total_titles(albums@) == tracks,
        distinct_dirs(albums@),
        forall|i: int| 0 <= i < albums.len() ==> well_formed_album(#[trigger] albums@[i], art_px),
        album_views(albums@) == plan_spec(tracks as nat, seed, art_px),
{
    let mut rng = Rng::new(seed);
    let mut albums: Vec<AlbumPlan> = Vec::new();
    let mut remaining = tracks;
    let mut used_artists: Vec<String> = Vec::new();
    let ghost whole = plan_spec(tracks as nat, seed, art_px);
    proof {
        assert(album_views(albums@) =~= Seq::<AlbumView>::empty());
        assert(views(used_artists@) =~= Seq::<Seq<char>>::empty());
        assert(Seq::<AlbumView>::empty() + whole =~= whole);
    }
    while remaining > 0
        invariant
            remaining <= tracks,
            tracks + 3 <= u32::MAX,
            art_px * (art_px * 3 + 1) <= u32::MAX,
            total_titles(albums@) + remaining == tracks,
            used_artists.len() + remaining <= tracks,
            distinct_dirs(albums@),
            forall|i: int| 0 <= i < albums.len() ==> well_formed_album(#[trigger] albums@[i], art_px),
            forall|i: int| 0 <= i < albums.len() ==> views(used_artists@).contains(#[trigger] albums@[i].artist@),
            album_views(albums@) + plan_from(remaining as nat, rng.state(), views(used_artists@), art_px) == whole,
        decreases remaining,
    {
        let ghost s0 = rng.state();
        let ghost u0 = views(used_artists@);
        let ghost before = album_views(albums@);
        let base = two_words(&mut rng);
        let ghost artists_before = views(used_artists@);
        let artist = unique(&mut used_artists, sanitize(base.as_str()));
        proof {
            assert(views(used_artists@) =~= artists_before.push(artist@));
            lemma_new_artist(albums@, artists_before, artist@);
        }
        let start = albums.len();
        let ghost rem0 = remaining;
        let mut used_albums: Vec<String> = Vec::new();
        let count = rng.range(1, 4);
        let ghost s2 = rng.state();
        let ghost all = artist_albums(0, count as nat, rem0 as nat, s2, artist@, Seq::empty(), art_px);
        proof {
            assert(views(used_albums@) =~= Seq::<Seq<char>>::empty());
            assert(album_views(albums@) + all.0 =~= before + all.0);
        }
        let mut k: usize = 0;
        while k < count
            invariant
                1 <= count <= 4,
                k <= count,
                start <= albums.len(),
                remaining <= rem0 <= tracks,
                k > 0 ==> remaining < rem0,
                k == 0 ==> remaining == rem0,
                rem0 > 0,
                art_px * (art_px * 3 + 1) <= u32::MAX,
                total_titles(albums@) + remaining == tracks,
                used_albums.len() <= k,
                distinct_dirs(albums@),
                forall|i: int| 0 <= i < albums.len() ==> well_formed_album(#[trigger] albums@[i], art_px),
                forall|i: int| 0 <= i < albums.len() ==> views(used_artists@).contains(#[trigger] albums@[i].artist@),
                views(used_artists@).contains(artist@),
                forall|i: int| 0 <= i < start ==> (#[trigger] albums@[i]).artist@ != artist@,
                forall|i: int| start <= i < albums.len() ==> (#[trigger] albums@[i]).artist@ == artist@
                    && views(used_albums@).contains(albums@[i].album@),
                ({
                    let cur = artist_albums(k as nat, count as nat, remaining as nat, rng.state(), artist@, views(used_albums@), art_px);
                    &&& album_views(albums@) + cur.0 == before + all.0
                    &&& cur.1 == all.1
                    &&& cur.2 == all.2
                }),
            ensures
                remaining < rem0,
                remaining == all.1,
                rng.state() == all.2,
                album_views(albums@) == before + all.0,
            decreases count - k,
        {
            if remaining == 0 {
                proof {
                    assert(album_views(albums@) + Seq::<AlbumView>::empty() =~= album_views(albums@));
                }
                break;
            }
            let ghost sk = rng.state();
            let ghost ua = views(used_albums@);
            let ghost cur = artist_albums(k as nat, count as nat, remaining as nat, sk, artist@, ua, art_px);
            let drawn = rng.range(6, 14);
            let n = if drawn < remaining { drawn } else { remaining };
            remaining -= n;
            let ghost used_before = views(used_albums@);
            let a = draw_album(&mut rng, &artist, &mut used_albums, n, art_px);
            let ghost old_albums = albums@;
            proof {
                lemma_push_album(old_albums, start as int, artist@, used_before, a);
            }
            albums.push(a);
            proof {
                assert(albums@ =~= old_albums.push(a));
                assert(albums@.drop_last() =~= old_albums);
                lemma_artist_albums_step(k as nat, count as nat, (remaining + n) as nat, sk, artist@, ua, art_px, n as nat, album_view(a), rng.state());
                let next = artist_albums((k + 1) as nat, count as nat, remaining as nat, rng.state(), artist@, views(used_albums@), art_px);
                assert(cur.0 == seq![album_view(a)] + next.0);
                assert(album_views(albums@) =~= album_views(old_albums).push(album_view(a)));
                assert(album_views(albums@) + next.0 =~= album_views(old_albums) + cur.0);
            }
            k += 1;
        }
        proof {
            if k >= count {
                assert(album_views(albums@) + Seq::<AlbumView>::empty() =~= album_views(albums@));
            }
            assert(views(used_artists@) == u0.push(artist@));
            let rest = plan_from(remaining as nat, rng.state(), views(used_artists@), art_px);
            assert(plan_from(rem0 as nat, s0, u0, art_px) == all.0 + rest);
            assert(album_views(albums@) + rest =~= before + (all.0 + rest));
        }
    }
    albums
}

} // verus!
