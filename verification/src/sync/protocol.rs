//! The messages that travel over the encrypted channel.
//!
//! Order within a session:
//!
//! 1. `Hello` from both sides (protocol version).
//! 2. `UserLayer` from the host, merged by the phone before any audio, so
//!    the library already shows up while the files arrive.
//! 3. `Have` (hashes the phone holds) answered by `Tracks` (metadata of
//!    what it lacks).
//! 4. One `NeedBlob`/`Blob…` per missing track, resumable by `from`.
//! 5. `Done`.
use vstd::prelude::*;

verus! {

/// Version of the wire protocol. Goes up when a `Msg` changes shape in a way
/// the old end does not understand.
pub const PROTO_VERSION: u16 = 1;

/// mDNS service type. The host publishes it; the phone browses for it and
/// matches the `id` (public key) in the TXT record.
pub const SERVICE_TYPE: &'static str = "_yasmine-sync._tcp.local.";

/// Audio carried per `Blob` message: 128 KiB.
pub const CHUNK: usize = 131072;

/// Ceiling of one logical frame. Guards against the other end asking for a
/// huge allocation; audio never comes this way, it comes in `Blob`s.
pub const MAX_FRAME: usize = 67108864;

#[derive(Debug)]
pub enum Msg {
    Hello { proto: u16, device_name: String },
    /// The whole user layer of the host.
    User(UserLayer),
    /// Content hashes the sender already holds, sorted.
    Have { hashes: Vec<[u8; 32]> },
    /// Metadata of the tracks the host has and the peer does not.
    Tracks(Vec<TrackMeta>),
    /// Asks for the audio of a hash from byte `from` on (0 = from the start).
    NeedBlob { hash: [u8; 32], from: u64 },
    Blob {
        hash: [u8; 32],
        offset: u64,
        data: Vec<u8>,
        /// `true` on the last piece of this hash.
        last: bool,
    },
    /// End of the session: everything asked for has come.
    Done,
    Error { msg: String },
}

/// Metadata of one track, enough for the phone to show title, artist and
/// album before the file arrives.
#[derive(Debug, Clone)]
pub struct TrackMeta {
    pub hash: [u8; 32],
    /// Extension of the source file (`mp3`, `flac`, …), to name the copy.
    pub ext: String,
    pub size: u64,
    pub title: Option<String>,
    pub artist: Option<String>,
    pub album: Option<String>,
    pub album_artist: Option<String>,
    pub disc_no: Option<u32>,
    pub track_no: Option<u32>,
    pub year: Option<i32>,
    pub genre: Option<String>,
}

/// The whole user layer, as raw table rows. The merge decides what stays.
#[derive(Debug)]
pub struct UserLayer {
    pub devices: Vec<DeviceRow>,
    pub playlists: Vec<PlaylistRow>,
    pub items: Vec<ItemRow>,
    pub play_counts: Vec<PlayCountRow>,
    pub track_states: Vec<TrackStateRow>,
}

impl Default for UserLayer {
    fn default() -> (l: Self)
        ensures
            l.devices@.len() == 0,
            l.playlists@.len() == 0,
            l.items@.len() == 0,
            l.play_counts@.len() == 0,
            l.track_states@.len() == 0,
    {
        UserLayer {
            devices: Vec::new(),
            playlists: Vec::new(),
            items: Vec::new(),
            play_counts: Vec::new(),
            track_states: Vec::new(),
        }
    }
}

#[derive(Debug, Clone)]
pub struct DeviceRow {
    pub id: [u8; 32],
    pub name: String,
    pub is_self: bool,
    pub paired_at: Option<i64>,
    pub last_sync_at: Option<i64>,
}

#[derive(Debug, Clone)]
pub struct PlaylistRow {
    pub id: [u8; 16],
    pub name: String,
    pub created_at: i64,
    pub updated_at: i64,
    pub deleted: bool,
    pub origin: [u8; 32],
}

#[derive(Debug, Clone)]
pub struct ItemRow {
    pub playlist_id: [u8; 16],
    pub position: String,
    pub track_key: [u8; 32],
    pub added_at: i64,
    pub deleted: bool,
    pub deleted_at: i64,
}

#[derive(Debug, Clone, Copy, PartialEq, Eq)]
pub struct PlayCountRow {
    pub track_key: [u8; 32],
    pub device_id: [u8; 32],
    pub count: i64,
}

#[derive(Debug, Clone, Copy, PartialEq, Eq)]
pub struct TrackStateRow {
    pub track_key: [u8; 32],
    pub last_played_at: Option<i64>,
    pub rating: Option<i32>,
    pub rating_updated_at: i64,
    pub resume_pos_ms: Option<i64>,
    pub resume_updated_at: i64,
}

} // verus!
