//! What the scanner reads of an audio file: its tags and its audio
//! properties, taken by `lofty` from the file's bytes, and the row that the
//! index stores for it.
use vstd::prelude::*;

use std::borrow::Cow;
use std::io::Cursor;

use lofty::file::{AudioFile, FileType, TaggedFileExt};
use lofty::probe::Probe;
use lofty::tag::{Accessor, ItemKey};

verus! {

/// The audio properties of a file and the name of its format.
#[derive(Debug, Clone)]
pub struct AudioProps {
    /// The format, as `lofty` names it (`Mpeg`, `Flac`, …).
    pub codec: String,
    pub duration_ms: u128,
    pub sample_rate: Option<u32>,
    pub channels: Option<u8>,
    pub bit_depth: Option<u8>,
    pub bitrate_kbps: Option<u32>,
}

/// The fields that the index takes from one tag of a file.
#[derive(Debug, Clone)]
pub struct TagRecord {
    pub title: Option<String>,
    pub artist: Option<String>,
    pub album: Option<String>,
    pub genre: Option<String>,
    pub album_artist: Option<String>,
    pub track_no: Option<u32>,
    pub disc_no: Option<u32>,
    pub year: Option<u16>,
    /// The bytes of the tag's first picture.
    pub picture: Option<Vec<u8>>,
}

/// A scanned track, as the index stores it; `picture` is the cover found in
/// its tag, still to be registered in the art cache.
#[derive(Debug, Clone)]
pub struct Parsed {
    pub rel_path: String,
    pub file_size: u64,
    pub mtime_ns: i64,
    pub title: Option<String>,
    pub artist: Option<String>,
    pub album: Option<String>,
    pub album_artist: Option<String>,
    pub genre: Option<String>,
    pub disc_no: Option<u32>,
    pub track_no: Option<u32>,
    pub year: Option<i32>,
    pub duration_ms: Option<u64>,
    pub sample_rate: Option<u32>,
    pub channels: Option<u16>,
    pub bit_depth: Option<u8>,
    pub codec: Option<String>,
    pub bitrate_kbps: Option<u32>,
    pub picture: Option<Vec<u8>>,
}

/// The audio properties that `lofty` reads from `bytes`, the file type
/// taken from the extension of `path`; `None` when it cannot read them.
pub uninterp spec fn audio_props_of(path: Seq<char>, bytes: Seq<u8>) -> Option<AudioProps>;

/// The primary tag that `lofty` reads from `bytes` (file type from the
/// extension of `path`); `None` when there is none or the file is unreadable.
pub uninterp spec fn primary_tag_of(path: Seq<char>, bytes: Seq<u8>) -> Option<TagRecord>;

/// The first tag of any type that `lofty` reads from `bytes`.
pub uninterp spec fn first_tag_of(path: Seq<char>, bytes: Seq<u8>) -> Option<TagRecord>;

/// What `Path::file_stem` gives for `path`, when it is valid text.
pub uninterp spec fn file_stem_of(path: Seq<char>) -> Option<Seq<char>>;

/// Trusted: a `lofty::probe::Probe` over the bytes in memory, its file type
/// set from the extension of `rel_path` as `Probe::open` sets it from a
/// path (without one, `read` fails with an unknown format, hence `None`),
/// then `read`; of the result, `file_type` (its `Debug` name) and the
/// `properties`. A function of the path and the bytes, named here.
#[verifier::external_body]
fn read_audio_props(rel_path: &str, bytes: &[u8]) -> (r: Option<AudioProps>)
    ensures
        r == audio_props_of(rel_path@, bytes@),
{
    let f = Probe::new(Cursor::new(bytes)).set_file_type(FileType::from_path(rel_path)?).read().ok()?;
    let p = f.properties();
    Some(AudioProps {
        codec: format!("{:?}", f.file_type()),
        duration_ms: p.duration().as_millis(),
        sample_rate: p.sample_rate(),
        channels: p.channels(),
        bit_depth: p.bit_depth(),
        bitrate_kbps: p.audio_bitrate(),
    })
}

/// Trusted: the same read as [`read_audio_props`], then `primary_tag`, its
/// fields copied out. A function of the path and the bytes, named here.
#[verifier::external_body]
fn read_primary_tag(rel_path: &str, bytes: &[u8]) -> (r: Option<TagRecord>)
    ensures
        r == primary_tag_of(rel_path@, bytes@),
{
    let f = Probe::new(Cursor::new(bytes)).set_file_type(FileType::from_path(rel_path)?).read().ok()?;
    let t = f.primary_tag()?;
    Some(TagRecord {
        title: t.title().map(Cow::into_owned),
        artist: t.artist().map(Cow::into_owned),
        album: t.album().map(Cow::into_owned),
        genre: t.genre().map(Cow::into_owned),
        album_artist: t.get_string(ItemKey::AlbumArtist).map(str::to_owned),
        track_no: t.track(),
        disc_no: t.disk(),
        year: t.date().map(|d| d.year),
        picture: t.pictures().first().map(|p| p.data().to_vec()),
    })
}

/// Trusted: the same read as [`read_audio_props`], then `first_tag`, its
/// fields copied out. A function of the path and the bytes, named here.
#[verifier::external_body]
fn read_first_tag(rel_path: &str, bytes: &[u8]) -> (r: Option<TagRecord>)
    ensures
        r == first_tag_of(rel_path@, bytes@),
{
    let f = Probe::new(Cursor::new(bytes)).set_file_type(FileType::from_path(rel_path)?).read().ok()?;
    let t = f.first_tag()?;
    Some(TagRecord {
        title: t.title().map(Cow::into_owned),
        artist: t.artist().map(Cow::into_owned),
        album: t.album().map(Cow::into_owned),
        genre: t.genre().map(Cow::into_owned),
        album_artist: t.get_string(ItemKey::AlbumArtist).map(str::to_owned),
        track_no: t.track(),
        disc_no: t.disk(),
        year: t.date().map(|d| d.year),
        picture: t.pictures().first().map(|p| p.data().to_vec()),
    })
}

/// Trusted: `std::path::Path::file_stem` of `path`, kept when it is valid
/// text. A function of the path alone, named here.
#[verifier::external_body]
fn path_file_stem(path: &str) -> (r: Option<String>)
    ensures
        r.deep_view() == file_stem_of(path@),
{
    std::path::Path::new(path).file_stem().and_then(|s| s.to_str()).map(str::to_owned)
}

/// The tag the index reads: the primary one, else the first of any type.
pub open spec fn chosen_tag(path: Seq<char>, bytes: Seq<u8>) -> Option<TagRecord> {
    match primary_tag_of(path, bytes) {
        Some(t) => Some(t),
        None => first_tag_of(path, bytes),
    }
}

/// The title stored: the tag's, else the file name without its extension.
pub open spec fn title_of(tag: Option<TagRecord>, stem: Option<Seq<char>>) -> Option<Seq<char>> {
    match tag {
        Some(t) => match t.title {
            Some(s) => Some(s@),
            None => stem,
        },
        None => stem,
    }
}

/// The duration in milliseconds, when it fits in a `u64`.
pub open spec fn duration_of(ms: u128) -> Option<u64> {
    if ms <= u64::MAX {
        Some(ms as u64)
    } else {
        None
    }
}

/// A field of the chosen tag, `None` without a tag.
pub open spec fn tag_field<T>(tag: Option<TagRecord>, f: spec_fn(TagRecord) -> Option<T>) -> Option<T> {
    match tag {
        Some(t) => f(t),
        None => None,
    }
}

/// Whether `p` is the row read from the file at `rel_path` (with that size
/// and time) whose bytes are `bytes`, given what `lofty` read of them.
pub open spec fn parsed_from(p: Parsed, rel_path: Seq<char>, file_size: u64, mtime_ns: i64, bytes: Seq<u8>, props: AudioProps) -> bool {
    let tag = chosen_tag(rel_path, bytes);
    &&& p.rel_path@ == rel_path
    &&& p.file_size == file_size
    &&& p.mtime_ns == mtime_ns
    &&& p.duration_ms == duration_of(props.duration_ms)
    &&& p.sample_rate == props.sample_rate
    &&& p.channels == (match props.channels {
        Some(c) => Some(c as u16),
        None => None,
    })
    &&& p.bit_depth == props.bit_depth
    &&& p.codec == Some(props.codec)
    &&& p.bitrate_kbps == props.bitrate_kbps
    &&& p.title.deep_view() == title_of(tag, file_stem_of(rel_path))
    &&& p.artist == tag_field(tag, |t: TagRecord| t.artist)
    &&& p.album == tag_field(tag, |t: TagRecord| t.album)
    &&& p.genre == tag_field(tag, |t: TagRecord| t.genre)
    &&& p.album_artist == tag_field(tag, |t: TagRecord| t.album_artist)
    &&& p.track_no == tag_field(tag, |t: TagRecord| t.track_no)
    &&& p.disc_no == tag_field(tag, |t: TagRecord| t.disc_no)
    &&& p.year == tag_field(tag, |t: TagRecord| match t.year {
        Some(y) => Some(y as i32),
        None => None,
    })
    &&& p.picture == tag_field(tag, |t: TagRecord| t.picture)
}

/// The index row of a file from its bytes: `None` when `lofty` cannot read
/// the file; otherwise its properties, the fields of its primary tag (else
/// its first tag), and, without a title there, the file name without its
/// extension as the title.
pub fn parse_tags(rel_path: &str, file_size: u64, mtime_ns: i64, bytes: &[u8]) -> (r: Option<Parsed>)
    ensures
        audio_props_of(rel_path@, bytes@) is None ==> r is None,
        audio_props_of(rel_path@, bytes@) matches Some(props) ==> (r matches Some(p)
            && parsed_from(p, rel_path@, file_size, mtime_ns, bytes@, props)),
{
    let props = match read_audio_props(rel_path, bytes) {
        Some(p) => p,
        None => return None,
    };
    let tag = match read_primary_tag(rel_path, bytes) {
        Some(t) => Some(t),
        None => read_first_tag(rel_path, bytes),
    };
    let ghost chosen = tag;
    let duration_ms = if props.duration_ms <= 18446744073709551615u128 {
        Some(props.duration_ms as u64)
    } else {
        None
    };
    let channels = match props.channels {
        Some(c) => Some(c as u16),
        None => None,
    };
    let mut p = Parsed {
        rel_path: rel_path.to_owned(),
        file_size,
        mtime_ns,
        title: None,
        artist: None,
        album: None,
        album_artist: None,
        genre: None,
        disc_no: None,
        track_no: None,
        year: None,
        duration_ms,
        sample_rate: props.sample_rate,
        channels,
        bit_depth: props.bit_depth,
        codec: Some(props.codec),
        bitrate_kbps: props.bitrate_kbps,
        picture: None,
    };
    match tag {
        Some(t) => {
            p.title = t.title;
            p.artist = t.artist;
            p.album = t.album;
            p.genre = t.genre;
            p.album_artist = t.album_artist;
            p.track_no = t.track_no;
            p.disc_no = t.disc_no;
            p.year = match t.year {
                Some(y) => Some(y as i32),
                None => None,
            };
            p.picture = t.picture;
        },
        None => {},
    }
    if p.title.is_none() {
        p.title = path_file_stem(rel_path);
    }
    Some(p)
}

} // verus!
