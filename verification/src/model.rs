//! Domain types.
//!
//! The integer ids are local to a device (SQLite autoincrement). The
//! identity that crosses devices is [`TrackKey`], the hash of the file's
//! content.
use vstd::prelude::*;

verus! {

/// Local id of a track.
#[derive(Debug, Clone, Copy, PartialEq, Eq, PartialOrd, Ord, Hash, Structural)]
pub struct TrackId(pub i64);

/// Local id of an album.
#[derive(Debug, Clone, Copy, PartialEq, Eq, PartialOrd, Ord, Hash, Structural)]
pub struct AlbumId(pub i64);

/// Local id of an artist.
#[derive(Debug, Clone, Copy, PartialEq, Eq, PartialOrd, Ord, Hash, Structural)]
pub struct ArtistId(pub i64);

/// Stable identity of a track across devices: BLAKE3 of the file content.
#[derive(Debug, Clone, Copy, PartialEq, Eq, PartialOrd, Ord, Hash)]
pub struct TrackKey(pub [u8; 32]);

/// Identity of a device: its static Noise public key.
#[derive(Debug, Clone, Copy, PartialEq, Eq, PartialOrd, Ord, Hash)]
pub struct DeviceId(pub [u8; 32]);

impl TrackKey {
    pub fn as_bytes(&self) -> (r: &[u8; 32])
        ensures
            r == &self.0,
    {
        &self.0
    }
}

impl DeviceId {
    pub fn as_bytes(&self) -> (r: &[u8; 32])
        ensures
            r == &self.0,
    {
        &self.0
    }
}

/// A track as the index holds it. Tag fields are optional: an untagged
/// file still plays.
#[derive(Debug, Clone)]
pub struct Track {
    pub id: TrackId,
    pub rel_path: String,
    pub file_size: u64,
    pub mtime_ns: i64,
    pub content_hash: Option<TrackKey>,
    pub title: Option<String>,
    pub album_id: Option<AlbumId>,
    pub artist_id: Option<ArtistId>,
    pub disc_no: Option<u32>,
    pub track_no: Option<u32>,
    pub year: Option<i32>,
    pub duration_ms: Option<u64>,
    pub sample_rate: Option<u32>,
    pub channels: Option<u16>,
    pub codec: Option<String>,
}

#[derive(Debug, Clone)]
pub struct Album {
    pub id: AlbumId,
    pub title: String,
    pub album_artist_id: Option<ArtistId>,
    pub year: Option<i32>,
}

#[derive(Debug, Clone)]
pub struct Artist {
    pub id: ArtistId,
    pub name: String,
}

} // verus!
