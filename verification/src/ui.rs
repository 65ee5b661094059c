//! What the desktop front end receives: plain rows with hashes already in
//! hex, and the little texts it shows (durations, counts, shortened paths).
use vstd::prelude::*;

use crate::hex::{encode, hex_lower, hex_value};
use crate::index::library::{ArtistBrief, Sort, Stats, TrackRow};
use crate::index::playlist::Item;
use crate::model::{ArtistId, TrackId};
use crate::queue::Repeat;
use crate::strutil::{chars_of, decimal, decimal_chars, opt_view, string_of};

verus! {

/// Which source the list shows. The front sends `{ kind, id? }`.
#[derive(Debug, Clone)]
pub enum SourceArg {
    Library,
    Playlist { id: String },
    Artist { id: i64 },
}

#[derive(Debug, Clone, Copy, PartialEq, Eq, Structural)]
pub enum SortArg {
    ArtistAlbum,
    Title,
    RecentlyAdded,
}

impl Default for SortArg {
    fn default() -> (s: Self)
        ensures
            s == SortArg::ArtistAlbum,
    {
        SortArg::ArtistAlbum
    }
}

pub open spec fn sort_of(s: SortArg) -> Sort {
    match s {
        SortArg::ArtistAlbum => Sort::ArtistAlbum,
        SortArg::Title => Sort::Title,
        SortArg::RecentlyAdded => Sort::RecentlyAdded,
    }
}

impl From<SortArg> for Sort {
    fn from(s: SortArg) -> (r: Sort) {
        match s {
            SortArg::ArtistAlbum => Sort::ArtistAlbum,
            SortArg::Title => Sort::Title,
            SortArg::RecentlyAdded => Sort::RecentlyAdded,
        }
    }
}

impl vstd::std_specs::convert::FromSpecImpl<SortArg> for Sort {
    open spec fn obeys_from_spec() -> bool {
        true
    }

    open spec fn from_spec(s: SortArg) -> Sort {
        sort_of(s)
    }
}

#[derive(Debug, Clone, Copy, PartialEq, Eq, Structural)]
pub struct StatsDto {
    pub tracks: u64,
    pub albums: u64,
    pub artists: u64,
}

impl From<Stats> for StatsDto {
    fn from(s: Stats) -> (r: StatsDto) {
        StatsDto { tracks: s.tracks, albums: s.albums, artists: s.artists }
    }
}

impl vstd::std_specs::convert::FromSpecImpl<Stats> for StatsDto {
    open spec fn obeys_from_spec() -> bool {
        true
    }

    open spec fn from_spec(s: Stats) -> StatsDto {
        StatsDto { tracks: s.tracks, albums: s.albums, artists: s.artists }
    }
}

#[derive(Debug, Clone, PartialEq)]
pub struct TrackRowDto {
    pub id: i64,
    pub title: String,
    pub artist: Option<String>,
    pub artist_id: Option<i64>,
    pub album: Option<String>,
    pub track_no: Option<u32>,
    pub duration_ms: Option<u64>,
    /// Hex of the cover, for `art://localhost/<art>/96`. `None` = no cover.
    pub art: Option<String>,
}

impl TrackRowDto {
    /// The row as the front receives it: ids as numbers, the cover hash in
    /// hex.
    pub fn from_row(r: TrackRow) -> (d: TrackRowDto)
        ensures
            d.id == r.id.0,
            d.title@ == r.title@,
            opt_view(d.artist) == opt_view(r.artist),
            d.artist_id == (match r.artist_id {
                Some(a) => Some(a.0),
                None => None,
            }),
            opt_view(d.album) == opt_view(r.album),
            d.track_no == r.track_no,
            d.duration_ms == r.duration_ms,
            opt_view(d.art) == (match r.art_hash {
                Some(h) => Some(hex_lower(h@)),
                None => None,
            }),
    {
        let art = match &r.art_hash {
            Some(h) => Some(encode(h)),
            None => None,
        };
        let artist_id = match r.artist_id {
            Some(a) => Some(a.0),
            None => None,
        };
        TrackRowDto {
            id: r.id.0,
            title: r.title,
            artist: r.artist,
            artist_id,
            album: r.album,
            track_no: r.track_no,
            duration_ms: r.duration_ms,
            art,
        }
    }
}

#[derive(Debug, Clone)]
pub struct PlaylistDto {
    pub id: String,
    pub name: String,
    pub items: usize,
    /// Up to 4 hex hashes for the mosaic thumbnail and the hero.
    pub covers: Vec<String>,
    /// The playlist has a linked folder.
    pub linked: bool,
}

/// The covers of a playlist tile: its own image first, then those of its
/// tracks, four at most.
pub open spec fn cover_list_spec(image: Option<[u8; 32]>, covers: Seq<[u8; 32]>) -> Seq<Seq<char>> {
    let first: Seq<Seq<char>> = match image {
        Some(h) => seq![hex_lower(h@)],
        None => Seq::empty(),
    };
    let room = 4 - first.len();
    let n = if covers.len() < room {
        covers.len() as int
    } else {
        room
    };
    first + covers.take(n).map_values(|h: [u8; 32]| hex_lower(h@))
}

pub fn cover_list(image: &Option<[u8; 32]>, covers: &Vec<[u8; 32]>) -> (r: Vec<String>)
    ensures
        r@.map_values(|s: String| s@) == cover_list_spec(*image, covers@),
{
    let mut hex: Vec<String> = Vec::new();
    match image {
        Some(h) => hex.push(encode(h)),
        None => {},
    }
    let room: usize = 4 - hex.len();
    let n: usize = if covers.len() < room {
        covers.len()
    } else {
        room
    };
    let ghost first = hex@.map_values(|s: String| s@);
    let mut i: usize = 0;
    while i < n
        invariant
            i <= n <= covers@.len(),
            hex@.map_values(|s: String| s@) == first + covers@.take(i as int).map_values(|h: [u8; 32]| hex_lower(h@)),
        decreases n - i,
    {
        let ghost before = hex@;
        hex.push(encode(&covers[i]));
        proof {
            assert(hex@.map_values(|s: String| s@) =~= before.map_values(|s: String| s@).push(hex_lower(covers@[i as int]@)));
            assert(covers@.take(i + 1).map_values(|h: [u8; 32]| hex_lower(h@)) =~= covers@.take(i as int).map_values(|h: [u8; 32]| hex_lower(h@)).push(hex_lower(covers@[i as int]@)));
        }
        i += 1;
    }
    proof {
        match image {
            Some(h) => assert(first =~= seq![hex_lower(h@)]),
            None => assert(first =~= Seq::<Seq<char>>::empty()),
        }
    }
    hex
}

#[derive(Debug, Clone)]
pub struct ArtistDto {
    pub id: i64,
    pub name: String,
    pub tracks: u64,
}

impl From<ArtistBrief> for ArtistDto {
    fn from(a: ArtistBrief) -> (r: ArtistDto) {
        ArtistDto { id: a.id.0, name: a.name, tracks: a.tracks }
    }
}

impl vstd::std_specs::convert::FromSpecImpl<ArtistBrief> for ArtistDto {
    open spec fn obeys_from_spec() -> bool {
        true
    }

    open spec fn from_spec(a: ArtistBrief) -> ArtistDto {
        ArtistDto { id: a.id.0, name: a.name, tracks: a.tracks }
    }
}

/// What opening a source gives: what the list and the hero need at once.
#[derive(Debug, Clone)]
pub struct OpenResult {
    pub total: usize,
    /// "library" | "playlist" | "artist": decides whether the hero shows.
    pub kind: &'static str,
    pub title: String,
    pub subtitle: String,
    pub hero_art: Option<String>,
}

// ---------------------------------------------------------------------------
// Texts
// ---------------------------------------------------------------------------

/// `n` in at least two digits, as `{n:02}` writes it.
pub open spec fn two_digits(n: nat) -> Seq<char> {
    if n < 10 {
        seq!['0'] + decimal(n)
    } else {
        decimal(n)
    }
}

/// `m:ss` of a number of seconds.
pub open spec fn duration_text(secs: nat) -> Seq<char> {
    decimal(secs / 60) + seq![':'] + two_digits(secs % 60)
}

fn push_all(v: &mut Vec<char>, w: &Vec<char>)
    ensures
        final(v)@ == old(v)@ + w@,
{
    let mut j: usize = 0;
    while j < w.len()
        invariant
            j <= w@.len(),
            v@ == old(v)@ + w@.subrange(0, j as int),
        decreases w.len() - j,
    {
        v.push(w[j]);
        j += 1;
        assert(v@ =~= old(v)@ + w@.subrange(0, j as int));
    }
    assert(w@.subrange(0, w@.len() as int) =~= w@);
}

/// `m:ss` of a duration given in whole seconds.
pub fn format_duration(secs: u64) -> (s: String)
    ensures
        s@ == duration_text(secs as nat),
{
    let mut v = decimal_chars(secs / 60);
    v.push(':');
    let r = secs % 60;
    if r < 10 {
        v.push('0');
    }
    let d = decimal_chars(r);
    push_all(&mut v, &d);
    assert(v@ =~= duration_text(secs as nat));
    string_of(&v)
}

/// `m:ss` of a duration in milliseconds (whole seconds, rounded down), or
/// `--:--` when unknown.
pub fn format_ms(ms: Option<u64>) -> (s: String)
    ensures
        match ms {
            Some(m) => s@ == duration_text(m as nat / 1000),
            None => s@ == seq!['-', '-', ':', '-', '-'],
        },
{
    match ms {
        Some(m) => format_duration(m / 1000),
        None => {
            let v = vec!['-', '-', ':', '-', '-'];
            assert(v@ =~= seq!['-', '-', ':', '-', '-']);
            string_of(&v)
        },
    }
}

/// Shortened from the front with `…`: the end of a path is the part that
/// tells the folder apart.
pub open spec fn shorten_spec(text: Seq<char>, max: nat) -> Seq<char> {
    if text.len() <= max {
        text
    } else {
        seq!['\u{2026}'] + text.skip(text.len() - (max - 1))
    }
}

pub fn shorten(text: &str, max: usize) -> (s: String)
    requires
        max > 0 || text@.len() == 0,
    ensures
        s@ == shorten_spec(text@, max as nat),
{
    let cs = chars_of(text);
    if cs.len() <= max {
        return string_of(&cs);
    }
    let start = cs.len() - (max - 1);
    let mut v: Vec<char> = vec!['\u{2026}'];
    let ghost head = v@;
    let mut i: usize = start;
    while i < cs.len()
        invariant
            start <= i <= cs@.len(),
            v@ == head + cs@.subrange(start as int, i as int),
        decreases cs.len() - i,
    {
        v.push(cs[i]);
        i += 1;
        assert(v@ =~= head + cs@.subrange(start as int, i as int));
    }
    assert(head =~= seq!['\u{2026}']);
    assert(cs@.subrange(start as int, cs@.len() as int) =~= cs@.skip(start as int));
    string_of(&v)
}

/// `1 track`, `n tracks`.
pub open spec fn tracks_label_spec(n: nat) -> Seq<char> {
    if n == 1 {
        seq!['1', ' ', 't', 'r', 'a', 'c', 'k']
    } else {
        decimal(n) + seq![' ', 't', 'r', 'a', 'c', 'k', 's']
    }
}

pub fn tracks_label(n: usize) -> (s: String)
    ensures
        s@ == tracks_label_spec(n as nat),
{
    if n == 1 {
        let v = vec!['1', ' ', 't', 'r', 'a', 'c', 'k'];
        assert(v@ =~= seq!['1', ' ', 't', 'r', 'a', 'c', 'k']);
        string_of(&v)
    } else {
        let mut v = decimal_chars(n as u64);
        let w = vec![' ', 't', 'r', 'a', 'c', 'k', 's'];
        push_all(&mut v, &w);
        assert(w@ =~= seq![' ', 't', 'r', 'a', 'c', 'k', 's']);
        string_of(&v)
    }
}

/// The repeat mode as the front names it.
pub fn repeat_str(r: Repeat) -> (s: &'static str)
    ensures
        r == Repeat::Off ==> s@ == "off"@,
        r == Repeat::All ==> s@ == "all"@,
        r == Repeat::One ==> s@ == "one"@,
{
    match r {
        Repeat::Off => "off",
        Repeat::All => "all",
        Repeat::One => "one",
    }
}

// ---------------------------------------------------------------------------
// The list
// ---------------------------------------------------------------------------

/// The 32 hex digits of a UUID written with hyphens after its 8th, 12th,
/// 16th and 20th digits (36 chars).
pub open spec fn hyphenated_digits(s: Seq<char>) -> Option<Seq<char>> {
    if s.len() == 36 && s[8] == '-' && s[13] == '-' && s[18] == '-' && s[23] == '-' {
        Some(s.subrange(0, 8) + s.subrange(9, 13) + s.subrange(14, 18) + s.subrange(19, 23) + s.subrange(24, 36))
    } else {
        None
    }
}

/// `c` is `t`, or its ASCII upper case.
pub open spec fn ascii_ci_eq(c: char, t: char) -> bool {
    c == t || ('A' <= c && c <= 'Z' && c as int + 32 == t as int)
}

/// The hex digits of the forms that `Uuid::parse_str` takes: 32 digits;
/// the hyphenated form; that form in braces; or `urn:uuid:` (in any case)
/// before it.
pub open spec fn uuid_digits(s: Seq<char>) -> Option<Seq<char>> {
    if s.len() == 32 {
        Some(s)
    } else if s.len() == 36 {
        hyphenated_digits(s)
    } else if s.len() == 38 && s[0] == '{' && s[37] == '}' {
        hyphenated_digits(s.subrange(1, 37))
    } else if s.len() == 45 && forall|k: int| 0 <= k < 9 ==> ascii_ci_eq(#[trigger] s[k], "urn:uuid:"@[k]) {
        hyphenated_digits(s.skip(9))
    } else {
        None
    }
}

/// The bytes of the UUID that `s` spells: its 32 digits, of either case,
/// read two at a time, high nibble first; `None` where `Uuid::parse_str`
/// refuses `s`. (Every accepted form is ASCII, so the byte lengths that the
/// parser tests are these char lengths.)
pub open spec fn uuid_parsed(s: Seq<char>) -> Option<Seq<u8>> {
    match uuid_digits(s) {
        Some(h) => if forall|i: int| 0 <= i < 32 ==> (#[trigger] hex_value(h[i])) is Some {
            Some(Seq::new(16, |i: int| (16 * hex_value(h[2 * i])->0 + hex_value(h[2 * i + 1])->0) as u8))
        } else {
            None
        },
        None => None,
    }
}

/// Trusted: `uuid::Uuid::parse_str(s)`, its bytes taken with
/// `into_bytes`; its error turned into `None`. What it accepts and gives is
/// [`uuid_parsed`], as `try_parse` and `decode_hex32` in the crate's
/// parser read the input.
#[verifier::external_body]
fn parse_uuid(s: &str) -> (r: Option<[u8; 16]>)
    ensures
        match uuid_parsed(s@) {
            Some(b) => r is Some && r->0@ == b,
            None => r is None,
        },
{
    uuid::Uuid::parse_str(s).ok().map(|u| u.into_bytes())
}

/// The source the list shows, resolved.
#[derive(Debug, Clone, Copy, PartialEq, Eq)]
pub enum Source {
    Library,
    /// A playlist, by the bytes of its UUID.
    Playlist([u8; 16]),
    Artist(ArtistId),
}

impl Source {
    /// Resolves what the front sent; a playlist id that is no UUID is
    /// refused with `uuid inválido`.
    pub fn from_arg(arg: &SourceArg) -> (r: Result<Source, String>)
        ensures
            *arg matches SourceArg::Library ==> r == Ok::<Source, String>(Source::Library),
            *arg matches SourceArg::Artist { id } ==> r == Ok::<Source, String>(Source::Artist(ArtistId(id))),
            *arg matches SourceArg::Playlist { id } ==> match uuid_parsed(id@) {
                Some(b) => r matches Ok(Source::Playlist(u)) && u@ == b,
                None => r matches Err(m) && m@ == "uuid inválido"@,
            },
    {
        match arg {
            SourceArg::Library => Ok(Source::Library),
            SourceArg::Playlist { id } => match parse_uuid(id.as_str()) {
                Some(b) => Ok(Source::Playlist(b)),
                None => Err("uuid inválido".to_owned()),
            },
            SourceArg::Artist { id } => Ok(Source::Artist(ArtistId(*id))),
        }
    }
}

/// The ids of a window of the view: `count` from `start`, cut at the end
/// of the view; nothing when `start` is past it.
pub open spec fn view_window_spec(view: Seq<TrackId>, start: nat, count: nat) -> Seq<TrackId> {
    let end = if start + count < view.len() {
        start + count
    } else {
        view.len() as nat
    };
    if start < end {
        view.subrange(start as int, end as int)
    } else {
        Seq::empty()
    }
}

pub fn view_window(view: &Vec<TrackId>, start: usize, count: usize) -> (r: Vec<TrackId>)
    ensures
        r@ == view_window_spec(view@, start as nat, count as nat),
{
    let end: usize = if count < view.len() && start < view.len() - count {
        start + count
    } else {
        view.len()
    };
    let mut r: Vec<TrackId> = Vec::new();
    if start < end {
        let mut i: usize = start;
        while i < end
            invariant
                start <= i <= end <= view@.len(),
                r@ == view@.subrange(start as int, i as int),
            decreases end - i,
        {
            r.push(view[i]);
            i += 1;
            assert(r@ =~= view@.subrange(start as int, i as int));
        }
    }
    r
}

/// The items of a playlist that the list shows: those whose file is here,
/// with the position of each, in order (what remove and move aim at).
pub open spec fn visible_items_spec(items: Seq<Item>) -> (Seq<TrackId>, Seq<Seq<char>>)
    decreases items.len(),
{
    if items.len() == 0 {
        (Seq::empty(), Seq::empty())
    } else {
        let (ids, pos) = visible_items_spec(items.drop_last());
        match items.last().track {
            Some(t) => (ids.push(t), pos.push(items.last().position@)),
            None => (ids, pos),
        }
    }
}

pub fn visible_items(items: &Vec<Item>) -> (r: (Vec<TrackId>, Vec<String>))
    ensures
        r.0@ == visible_items_spec(items@).0,
        r.1@.map_values(|s: String| s@) == visible_items_spec(items@).1,
{
    let mut ids: Vec<TrackId> = Vec::new();
    let mut positions: Vec<String> = Vec::new();
    let mut i: usize = 0;
    while i < items.len()
        invariant
            i <= items@.len(),
            ids@ == visible_items_spec(items@.take(i as int)).0,
            positions@.map_values(|s: String| s@) == visible_items_spec(items@.take(i as int)).1,
        decreases items.len() - i,
    {
        proof {
            assert(items@.take(i + 1).drop_last() =~= items@.take(i as int));
        }
        match items[i].track {
            Some(t) => {
                let ghost before = positions@;
                ids.push(t);
                positions.push(items[i].position.clone());
                assert(positions@.map_values(|s: String| s@) =~= before.map_values(|s: String| s@).push(items@[i as int].position@));
            },
            None => {},
        }
        i += 1;
    }
    assert(items@.take(items@.len() as int) =~= items@);
    (ids, positions)
}

/// `n tracks · m albums`, the subtitle of the whole library.
pub fn library_subtitle(tracks: u64, albums: u64) -> (s: String)
    ensures
        s@ == decimal(tracks as nat) + " tracks · "@ + decimal(albums as nat) + " albums"@,
{
    let mut v = decimal_chars(tracks);
    push_all(&mut v, &chars_of(" tracks · "));
    let a = decimal_chars(albums);
    push_all(&mut v, &a);
    push_all(&mut v, &chars_of(" albums"));
    string_of(&v)
}

// ---------------------------------------------------------------------------
// Sync host
// ---------------------------------------------------------------------------

/// What the front shows of the embedded sync host.
#[derive(Debug, Clone)]
pub struct SyncInfo {
    pub running: bool,
    pub pair_url: Option<String>,
    /// Full SVG of the QR.
    pub qr_svg: Option<String>,
}

impl SyncInfo {
    pub fn running(pair_url: &String, qr_svg: &String) -> (i: SyncInfo)
        ensures
            i.running,
            i.pair_url == Some(*pair_url),
            i.qr_svg == Some(*qr_svg),
    {
        SyncInfo { running: true, pair_url: Some(pair_url.clone()), qr_svg: Some(qr_svg.clone()) }
    }

    pub fn stopped() -> (i: SyncInfo)
        ensures
            !i.running,
            i.pair_url is None,
            i.qr_svg is None,
    {
        SyncInfo { running: false, pair_url: None, qr_svg: None }
    }
}

/// Where the index and the thumbnail cache live.
#[derive(Debug, Clone)]
pub struct Paths {
    /// The SQLite index.
    pub db: String,
    /// Root of the thumbnail cache. Disposable: deleting it costs a rescan.
    pub cache: String,
}

} // verus!
