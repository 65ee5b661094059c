//! What the desktop window decides, apart from drawing it: which text an
//! empty list shows, which entries a row's menu offers, where the selection
//! and a nudged playlist item go, what the play button does, which picture
//! a playlist's tile gets, and how the window follows the audio engine.
use vstd::prelude::*;

use crate::audio::Event;
use crate::hex::{trim, trim_chars};
use crate::model::{ArtistId, TrackId};
use crate::queue::{Queue, Repeat};
use crate::strutil::{chars_of, concat, decimal, decimal_chars, string_of};
use crate::ui::{shorten, shorten_spec, Source};

verus! {

// ---------------------------------------------------------------------------
// The list
// ---------------------------------------------------------------------------

/// The line an empty list shows: a welcome before any folder is chosen,
/// otherwise what the open source lacks.
pub fn empty_text(has_root: bool, source: &Source, query_empty: bool) -> (s: &'static str)
    ensures
        !has_root ==> s@ == "Choose a music folder to get started."@,
        has_root && *source is Playlist
            ==> s@ == "This playlist is empty. Right-click a track in your library to add it."@,
        has_root && *source is Artist ==> s@ == "No tracks by this artist."@,
        has_root && *source is Library && query_empty ==> s@ == "No tracks indexed in this folder."@,
        has_root && *source is Library && !query_empty ==> s@ == "Nothing found."@,
{
    if !has_root {
        return "Choose a music folder to get started.";
    }
    match source {
        Source::Playlist(_) => "This playlist is empty. Right-click a track in your library to add it.",
        Source::Artist(_) => "No tracks by this artist.",
        Source::Library => if query_empty {
            "No tracks indexed in this folder."
        } else {
            "Nothing found."
        },
    }
}

/// The small caps above the name in the header of an open playlist or
/// artist; the library has no header.
pub fn hero_eyebrow(source: &Source) -> (s: &'static str)
    ensures
        *source is Playlist ==> s@ == "PLAYLIST"@,
        *source is Artist ==> s@ == "ARTIST"@,
        *source is Library ==> s@ == ""@,
{
    match source {
        Source::Playlist(_) => "PLAYLIST",
        Source::Artist(_) => "ARTIST",
        Source::Library => "",
    }
}

/// The entries a track row's context menu offers beyond "Add to playlist"
/// and "Choose album cover…", which every row has.
#[derive(Debug, Clone, Copy, PartialEq, Eq, Structural)]
pub struct RowMenu {
    /// "Only tracks by …".
    pub only_by_artist: bool,
    /// "Remove from playlist".
    pub remove: bool,
    /// "Move up", enabled.
    pub move_up: bool,
    /// "Move down", enabled.
    pub move_down: bool,
}

/// The menu of the row at `index` of a list of `total`: the artist filter
/// when the row names an artist (id and name) and the list is not already
/// that artist's; the playlist entries inside a playlist, moving only
/// where there is room.
pub fn row_menu(
    source: &Source,
    artist_id: Option<ArtistId>,
    artist_name: &Option<String>,
    index: usize,
    total: usize,
) -> (m: RowMenu)
    ensures
        m.only_by_artist == (artist_id is Some && artist_name is Some && !(*source matches Source::Artist(a)
            && a == artist_id->0)),
        m.remove == *source is Playlist,
        m.move_up == (*source is Playlist && index > 0),
        m.move_down == (*source is Playlist && index + 1 < total),
{
    let only_by_artist = match (artist_id, artist_name) {
        (Some(id), Some(_)) => match source {
            Source::Artist(a) => a.0 != id.0,
            _ => true,
        },
        _ => false,
    };
    let in_playlist = match source {
        Source::Playlist(_) => true,
        _ => false,
    };
    RowMenu {
        only_by_artist,
        remove: in_playlist,
        move_up: in_playlist && index > 0,
        move_down: in_playlist && total > 0 && index < total - 1,
    }
}

/// Where "Move up" (`delta` -1) or "Move down" (+1) sends the item at
/// `index` of a playlist view of `len` tracks whose first `positions`
/// items have a known position: nowhere outside a playlist, for an item
/// without a position, or past either end of the view.
pub fn nudge_target(source: &Source, positions: usize, index: usize, delta: isize, len: usize) -> (r: Option<usize>)
    ensures
        r == (if *source is Playlist && index < positions && 0 <= index + delta < len {
            Some((index + delta) as usize)
        } else {
            None
        }),
{
    match source {
        Source::Playlist(_) => {},
        _ => return None,
    }
    if index >= positions {
        return None;
    }
    let target: i128 = index as i128 + delta as i128;
    if target < 0 || target >= len as i128 {
        return None;
    }
    Some(target as usize)
}

/// The row selected after an arrow key: the first row when none was, one
/// down (stopping at the last row) or one up (stopping at the first).
pub fn move_selection(selected: Option<usize>, len: usize, down: bool) -> (r: usize)
    ensures
        r == (match selected {
            None => 0,
            Some(i) => if down {
                let last = if len > 0 { len - 1 } else { 0 };
                if i + 1 < last { i + 1 } else { last }
            } else {
                if i > 0 { i - 1 } else { 0 }
            },
        }),
{
    match selected {
        None => 0,
        Some(i) => if down {
            let last = if len > 0 { len - 1 } else { 0 };
            if i < last { i + 1 } else { last }
        } else {
            if i > 0 { i - 1 } else { 0 }
        },
    }
}

// ---------------------------------------------------------------------------
// Playback
// ---------------------------------------------------------------------------

/// What the play/pause button (or the space bar) does.
#[derive(Debug, Clone, Copy, PartialEq, Eq, Structural)]
pub enum Toggle {
    Pause,
    Resume,
    /// Start the view over from this row.
    PlayAt(usize),
}

/// Pauses what plays; resumes a paused track that the queue still holds;
/// otherwise plays the view from the selected row (the first when none is).
pub fn toggle_action(playing: bool, has_now: bool, queue_empty: bool, selected: Option<usize>) -> (t: Toggle)
    ensures
        playing ==> t == Toggle::Pause,
        !playing && has_now && !queue_empty ==> t == Toggle::Resume,
        !playing && !(has_now && !queue_empty) ==> t == Toggle::PlayAt(
            match selected {
                Some(i) => i,
                None => 0,
            },
        ),
{
    if playing {
        Toggle::Pause
    } else if has_now && !queue_empty {
        Toggle::Resume
    } else {
        Toggle::PlayAt(
            match selected {
                Some(i) => i,
                None => 0,
            },
        )
    }
}

/// Whether two sources are the same one.
fn same_source(a: &Source, b: &Source) -> (r: bool)
    ensures
        r == (*a == *b),
{
    match (a, b) {
        (Source::Library, Source::Library) => true,
        (Source::Artist(x), Source::Artist(y)) => x.0 == y.0,
        (Source::Playlist(x), Source::Playlist(y)) => {
            let mut i: usize = 0;
            while i < 16
                invariant
                    i <= 16,
                    *a == Source::Playlist(*x),
                    *b == Source::Playlist(*y),
                    forall|j: int| 0 <= j < i ==> x[j] == y[j],
                decreases 16 - i,
            {
                if x[i] != y[i] {
                    assert(x[i as int] != y[i as int]);
                    return false;
                }
                i += 1;
            }
            assert(*x =~= *y);
            true
        },
        _ => false,
    }
}

/// Opening `new` while `current` is open: nothing happens when it is the
/// same source (`None`); otherwise the list reloads, keeping the name of
/// the artist filter only when the new source is an artist (`Some(keep)`).
pub fn switch_source(current: &Source, new: &Source) -> (r: Option<bool>)
    ensures
        *current == *new ==> r is None,
        *current != *new ==> r == Some(*new is Artist),
{
    if same_source(current, new) {
        None
    } else {
        Some(
            match new {
                Source::Artist(_) => true,
                _ => false,
            },
        )
    }
}

/// The engine's report, as the window follows it.
#[derive(Debug, Clone, PartialEq, Eq)]
pub enum Followed {
    /// The queue moved on with the engine: show this track, and hand the
    /// engine the one after it.
    Adopt(TrackId),
    /// Nothing to show or change.
    Nothing,
    /// Playback ran out: nothing is playing any more.
    Ended,
    /// A message for the status line.
    Status(String),
}

/// Follows one event of the audio engine. The engine has already chained
/// the next track when it reports `Advanced`: the queue only catches up.
pub fn follow_event(queue: &mut Queue, ev: Event) -> (r: Followed)
    requires
        old(queue).wf(),
    ensures
        final(queue).wf(),
        ev is Advanced ==> {
            &&& final(queue).cursor_spec() == (match old(queue).next_cursor_spec() {
                Some(c) => Some(c),
                None => old(queue).cursor_spec(),
            })
            &&& final(queue).tracks_spec() == old(queue).tracks_spec()
            &&& final(queue).order_spec() == old(queue).order_spec()
            &&& final(queue).shuffle_spec() == old(queue).shuffle_spec()
            &&& final(queue).repeat_spec() == old(queue).repeat_spec()
            &&& r == (match final(queue).current_spec() {
                Some(id) => Followed::Adopt(id),
                None => Followed::Nothing,
            })
        },
        !(ev is Advanced) ==> *final(queue) == *old(queue),
        ev is Started ==> r == Followed::Nothing,
        ev is Finished ==> r == Followed::Ended,
        ev matches Event::Error(e) ==> r == Followed::Status(e),
{
    match ev {
        Event::Advanced { .. } => {
            let _ = queue.advance();
            match queue.current() {
                Some(id) => Followed::Adopt(id),
                None => Followed::Nothing,
            }
        },
        Event::Finished => Followed::Ended,
        Event::Error(e) => Followed::Status(e),
        Event::Started { .. } => Followed::Nothing,
    }
}

// ---------------------------------------------------------------------------
// Pictures
// ---------------------------------------------------------------------------

/// What a playlist's tile in the sidebar shows.
#[derive(Debug, Clone, Copy, PartialEq, Eq, Structural)]
pub enum TileChoice {
    /// The picture the user chose for it.
    Chosen,
    /// The covers of its first four tracks, two by two.
    Mosaic,
    /// The cover of its first track.
    FirstCover,
    /// A fixed gradient of its own (see [`tile_gradient`]).
    Gradient,
}

/// The chosen picture when it is loaded; else the mosaic when the first
/// four covers are all loaded; else the first cover when it is loaded;
/// else the gradient. `covers_ready` says, cover by cover in the order of
/// the tracks, whether its texture is loaded.
pub fn tile_choice(chosen_ready: bool, covers_ready: &Vec<bool>) -> (t: TileChoice)
    ensures
        t == (if chosen_ready {
            TileChoice::Chosen
        } else if covers_ready@.len() >= 4 && covers_ready@[0] && covers_ready@[1] && covers_ready@[2]
            && covers_ready@[3] {
            TileChoice::Mosaic
        } else if covers_ready@.len() > 0 && covers_ready@[0] {
            TileChoice::FirstCover
        } else {
            TileChoice::Gradient
        }),
{
    if chosen_ready {
        TileChoice::Chosen
    } else if covers_ready.len() >= 4 && covers_ready[0] && covers_ready[1] && covers_ready[2] && covers_ready[3] {
        TileChoice::Mosaic
    } else if covers_ready.len() > 0 && covers_ready[0] {
        TileChoice::FirstCover
    } else {
        TileChoice::Gradient
    }
}

/// An RGB colour.
pub type Rgb = (u8, u8, u8);

/// The eight gradients (top colour, bottom colour) a tile without a
/// picture may get.
pub open spec fn gradient_at(k: int) -> (Rgb, Rgb) {
    if k == 0 {
        ((0x7C, 0x5C, 0xFF), (0x3A, 0x1F, 0x8C))
    } else if k == 1 {
        ((0x1F, 0x6F, 0x5C), (0x0B, 0x3B, 0x3F))
    } else if k == 2 {
        ((0xB8, 0x42, 0x2F), (0x5A, 0x1F, 0x1F))
    } else if k == 3 {
        ((0x2D, 0x5F, 0xB8), (0x12, 0x24, 0x4F))
    } else if k == 4 {
        ((0xC2, 0x4D, 0x7E), (0x4B, 0x15, 0x28))
    } else if k == 5 {
        ((0xD7, 0x9A, 0x2A), (0x5A, 0x38, 0x06))
    } else if k == 6 {
        ((0x4B, 0x4F, 0x57), (0x1B, 0x1D, 0x22))
    } else {
        ((0x59, 0x42, 0xB8), (0x24, 0x1D, 0x3F))
    }
}

/// The gradient of a tile, picked by a byte of what it stands for (the
/// first byte of a playlist's id): always the same one for it.
pub fn tile_gradient(seed: u8) -> (g: (Rgb, Rgb))
    ensures
        g == gradient_at((seed % 8) as int),
{
    let k = seed % 8;
    if k == 0 {
        ((0x7C, 0x5C, 0xFF), (0x3A, 0x1F, 0x8C))
    } else if k == 1 {
        ((0x1F, 0x6F, 0x5C), (0x0B, 0x3B, 0x3F))
    } else if k == 2 {
        ((0xB8, 0x42, 0x2F), (0x5A, 0x1F, 0x1F))
    } else if k == 3 {
        ((0x2D, 0x5F, 0xB8), (0x12, 0x24, 0x4F))
    } else if k == 4 {
        ((0xC2, 0x4D, 0x7E), (0x4B, 0x15, 0x28))
    } else if k == 5 {
        ((0xD7, 0x9A, 0x2A), (0x5A, 0x38, 0x06))
    } else if k == 6 {
        ((0x4B, 0x4F, 0x57), (0x1B, 0x1D, 0x22))
    } else {
        ((0x59, 0x42, 0xB8), (0x24, 0x1D, 0x3F))
    }
}

/// The cover in the header of the open source: a playlist's chosen
/// picture, else the cover of its first track; for an artist, the cover of
/// the first row of the view; none for the library, which has no header.
pub fn hero_art(
    source: &Source,
    chosen: Option<[u8; 32]>,
    covers: &Vec<[u8; 32]>,
    first_row_art: Option<[u8; 32]>,
) -> (r: Option<[u8; 32]>)
    ensures
        *source is Library ==> r is None,
        *source is Artist ==> r == first_row_art,
        *source is Playlist ==> r == (match chosen {
            Some(h) => Some(h),
            None => if covers@.len() > 0 {
                Some(covers@[0])
            } else {
                None
            },
        }),
{
    match source {
        Source::Library => None,
        Source::Artist(_) => first_row_art,
        Source::Playlist(_) => match chosen {
            Some(h) => Some(h),
            None => if covers.len() > 0 {
                Some(covers[0])
            } else {
                None
            },
        },
    }
}

// ---------------------------------------------------------------------------
// Texts
// ---------------------------------------------------------------------------

/// `Playlist · n tracks`, under a playlist's name in the sidebar.
pub fn playlist_subtitle(items: usize) -> (s: String)
    ensures
        s@ == "Playlist \u{b7} "@ + decimal(items as nat) + " tracks"@,
{
    let head = chars_of("Playlist \u{b7} ");
    let tail = chars_of(" tracks");
    let n = decimal_chars(items as u64);
    let v = concat(&concat(&head, &n), &tail);
    string_of(&v)
}

/// The entry that unlinks a folder from a playlist: the whole library
/// folder, or the linked subfolder by name.
pub fn unlink_label(rel_prefix: &str) -> (s: String)
    ensures
        rel_prefix@.len() == 0 ==> s@ == "Unlink whole folder"@,
        rel_prefix@.len() > 0 ==> s@ == "Unlink \""@ + rel_prefix@ + "\""@,
{
    let p = chars_of(rel_prefix);
    if p.len() == 0 {
        return string_of(&chars_of("Unlink whole folder"));
    }
    let v = concat(&concat(&chars_of("Unlink \""), &p), &chars_of("\""));
    string_of(&v)
}

/// The hint on the repeat button.
pub fn repeat_hint(r: Repeat) -> (s: &'static str)
    ensures
        r == Repeat::Off ==> s@ == "Repeat: off (R)"@,
        r == Repeat::All ==> s@ == "Repeat: all (R)"@,
        r == Repeat::One ==> s@ == "Repeat: one (R)"@,
{
    match r {
        Repeat::Off => "Repeat: off (R)",
        Repeat::All => "Repeat: all (R)",
        Repeat::One => "Repeat: one (R)",
    }
}

/// A tag, or a dash where the track has none.
pub open spec fn or_dash(o: Option<String>) -> Seq<char> {
    match o {
        Some(s) => s@,
        None => "\u{2014}"@,
    }
}

fn or_dash_chars(o: &Option<String>) -> (v: Vec<char>)
    ensures
        v@ == or_dash(*o),
{
    match o {
        Some(s) => chars_of(s.as_str()),
        None => chars_of("\u{2014}"),
    }
}

/// `artist  ·  album` under the title in the player bar, cut to 36 chars.
pub fn now_playing_line(artist: &Option<String>, album: &Option<String>) -> (s: String)
    ensures
        s@ == shorten_spec(or_dash(*artist) + "  \u{b7}  "@ + or_dash(*album), 36),
{
    let v = concat(&concat(&or_dash_chars(artist), &chars_of("  \u{b7}  ")), &or_dash_chars(album));
    let line = string_of(&v);
    shorten(line.as_str(), 36)
}

/// `pos / len`: where in the queue playback is.
pub fn queue_position_text(pos: usize, len: usize) -> (s: String)
    ensures
        s@ == decimal(pos as nat) + " / "@ + decimal(len as nat),
{
    let v = concat(&concat(&decimal_chars(pos as u64), &chars_of(" / ")), &decimal_chars(len as u64));
    string_of(&v)
}

/// `scanning… n` in the top bar while a scan runs.
pub fn scan_status(done: usize) -> (s: String)
    ensures
        s@ == "scanning\u{2026} "@ + decimal(done as nat),
{
    let v = concat(&chars_of("scanning\u{2026} "), &decimal_chars(done as u64));
    string_of(&v)
}

/// The name a playlist is renamed to when the field loses focus: what was
/// typed, without surrounding spaces; nothing when that is empty.
pub fn rename_to(typed: &str) -> (r: Option<String>)
    ensures
        trim(typed@).len() == 0 ==> r is None,
        trim(typed@).len() > 0 ==> (r matches Some(n) && n@ == trim(typed@)),
{
    let t = trim_chars(&chars_of(typed));
    if t.len() == 0 {
        None
    } else {
        Some(string_of(&t))
    }
}

} // verus!
