//! Flat types that cross to the Android side. They mirror those of the
//! index and of sync, without the id newtypes (Kotlin gets plain `i64` and
//! `String`) and with the hashes already in hex.
use vstd::prelude::*;

use crate::strutil::opt_view;

use crate::hex::{hex_lower, hex_string};
use crate::index::library::{Sort, Stats, TrackRow};
use crate::model::TrackId;
use crate::sync::client::{Phase, Progress, PullReport};
use crate::sync::pairing::PairPayload;

verus! {

#[derive(Debug)]
pub enum FfiError {
    Message(String),
}

impl FfiError {
    /// The error that carries the text of another one.
    pub fn msg(text: String) -> (e: FfiError)
        ensures
            e == FfiError::Message(text),
    {
        FfiError::Message(text)
    }
}

#[derive(Clone, Copy, Debug, PartialEq, Eq, Structural)]
pub enum SortFfi {
    ArtistAlbum,
    Title,
    RecentlyAdded,
}

pub open spec fn sort_of_ffi(s: SortFfi) -> Sort {
    match s {
        SortFfi::ArtistAlbum => Sort::ArtistAlbum,
        SortFfi::Title => Sort::Title,
        SortFfi::RecentlyAdded => Sort::RecentlyAdded,
    }
}

impl From<SortFfi> for Sort {
    fn from(s: SortFfi) -> (r: Sort) {
        match s {
            SortFfi::ArtistAlbum => Sort::ArtistAlbum,
            SortFfi::Title => Sort::Title,
            SortFfi::RecentlyAdded => Sort::RecentlyAdded,
        }
    }
}

impl vstd::std_specs::convert::FromSpecImpl<SortFfi> for Sort {
    open spec fn obeys_from_spec() -> bool {
        true
    }

    open spec fn from_spec(s: SortFfi) -> Sort {
        sort_of_ffi(s)
    }
}

#[derive(Debug, Clone, Copy, PartialEq, Eq, Structural)]
pub struct StatsFfi {
    pub tracks: u64,
    pub albums: u64,
    pub artists: u64,
}

impl From<Stats> for StatsFfi {
    fn from(s: Stats) -> (r: StatsFfi) {
        StatsFfi { tracks: s.tracks, albums: s.albums, artists: s.artists }
    }
}

impl vstd::std_specs::convert::FromSpecImpl<Stats> for StatsFfi {
    open spec fn obeys_from_spec() -> bool {
        true
    }

    open spec fn from_spec(s: Stats) -> StatsFfi {
        StatsFfi { tracks: s.tracks, albums: s.albums, artists: s.artists }
    }
}

#[derive(Debug)]
pub struct TrackRowFfi {
    pub id: i64,
    pub title: String,
    pub artist: Option<String>,
    pub artist_id: Option<i64>,
    pub album: Option<String>,
    pub track_no: Option<u32>,
    pub duration_ms: Option<u64>,
    /// Hash of the cover in hex, for `<cache>/art/<hex[0..2]>/<hex>_96.jpg`.
    pub art_hash: Option<String>,
}

impl TrackRowFfi {
    pub fn from_row(r: TrackRow) -> (f: TrackRowFfi)
        ensures
            f.id == r.id.0,
            f.title@ == r.title@,
            opt_view(f.artist) == opt_view(r.artist),
            f.artist_id == (match r.artist_id {
                Some(a) => Some(a.0),
                None => None,
            }),
            opt_view(f.album) == opt_view(r.album),
            f.track_no == r.track_no,
            f.duration_ms == r.duration_ms,
            opt_view(f.art_hash) == (match r.art_hash {
                Some(h) => Some(hex_lower(h@)),
                None => None,
            }),
    {
        let art_hash = match &r.art_hash {
            Some(h) => Some(hex_string(h.as_slice())),
            None => None,
        };
        let artist_id = match r.artist_id {
            Some(a) => Some(a.0),
            None => None,
        };
        TrackRowFfi {
            id: r.id.0,
            title: r.title,
            artist: r.artist,
            artist_id,
            album: r.album,
            track_no: r.track_no,
            duration_ms: r.duration_ms,
            art_hash,
        }
    }
}

#[derive(Debug)]
pub struct PlaylistFfi {
    pub id: String,
    pub name: String,
    pub items: u32,
    pub updated_at: i64,
}

// --- sync ---

#[derive(Clone, Copy, Debug, PartialEq, Eq, Structural)]
pub enum SyncPhase {
    Connecting,
    MergingUserData,
    FetchingList,
    Downloading,
    Indexing,
    Done,
}

pub open spec fn phase_of(p: Phase) -> SyncPhase {
    match p {
        Phase::Connecting => SyncPhase::Connecting,
        Phase::MergingUserData => SyncPhase::MergingUserData,
        Phase::FetchingList => SyncPhase::FetchingList,
        Phase::Downloading => SyncPhase::Downloading,
        Phase::Indexing => SyncPhase::Indexing,
        Phase::Done => SyncPhase::Done,
    }
}

impl From<Phase> for SyncPhase {
    fn from(p: Phase) -> (r: SyncPhase) {
        match p {
            Phase::Connecting => SyncPhase::Connecting,
            Phase::MergingUserData => SyncPhase::MergingUserData,
            Phase::FetchingList => SyncPhase::FetchingList,
            Phase::Downloading => SyncPhase::Downloading,
            Phase::Indexing => SyncPhase::Indexing,
            Phase::Done => SyncPhase::Done,
        }
    }
}

impl vstd::std_specs::convert::FromSpecImpl<Phase> for SyncPhase {
    open spec fn obeys_from_spec() -> bool {
        true
    }

    open spec fn from_spec(p: Phase) -> SyncPhase {
        phase_of(p)
    }
}

#[derive(Debug)]
pub struct SyncProgressFfi {
    pub phase: SyncPhase,
    pub tracks_done: u64,
    pub tracks_total: u64,
    pub bytes_done: u64,
    pub bytes_total: u64,
    pub current: Option<String>,
}

impl From<Progress> for SyncProgressFfi {
    fn from(p: Progress) -> (r: SyncProgressFfi) {
        SyncProgressFfi {
            phase: SyncPhase::from(p.phase),
            tracks_done: p.tracks_done,
            tracks_total: p.tracks_total,
            bytes_done: p.bytes_done,
            bytes_total: p.bytes_total,
            current: p.current,
        }
    }
}

impl vstd::std_specs::convert::FromSpecImpl<Progress> for SyncProgressFfi {
    open spec fn obeys_from_spec() -> bool {
        true
    }

    open spec fn from_spec(p: Progress) -> SyncProgressFfi {
        SyncProgressFfi {
            phase: phase_of(p.phase),
            tracks_done: p.tracks_done,
            tracks_total: p.tracks_total,
            bytes_done: p.bytes_done,
            bytes_total: p.bytes_total,
            current: p.current,
        }
    }
}

#[derive(Debug)]
pub struct PullReportFfi {
    pub peer: String,
    pub tracks_added: u64,
    pub bytes: u64,
    pub playlists_merged: u32,
    pub hash_mismatch: u64,
}

impl PullReportFfi {
    /// The report with the peer in hex; the merged playlist count is cut to
    /// 32 bits as `as u32` does.
    pub fn from_report(r: PullReport) -> (f: PullReportFfi)
        ensures
            f.peer@ == hex_lower(r.peer.0@),
            f.tracks_added == r.tracks_added,
            f.bytes == r.bytes,
            f.playlists_merged == r.playlists_merged as u32,
            f.hash_mismatch == r.hash_mismatch,
    {
        PullReportFfi {
            peer: hex_string(r.peer.0.as_slice()),
            tracks_added: r.tracks_added,
            bytes: r.bytes,
            playlists_merged: r.playlists_merged as u32,
            hash_mismatch: r.hash_mismatch,
        }
    }
}

#[derive(Debug)]
pub struct PairInfoFfi {
    /// Public key of the host, in hex: its `DeviceId`.
    pub device_id: String,
    pub name: String,
    pub host: Option<String>,
    pub port: Option<u16>,
}

impl PairInfoFfi {
    pub fn from_payload(p: PairPayload) -> (f: PairInfoFfi)
        ensures
            f.device_id@ == hex_lower(p.key@),
            f.name@ == p.name@,
            opt_view(f.host) == opt_view(p.host),
            f.port == p.port,
    {
        PairInfoFfi { device_id: hex_string(p.key.as_slice()), name: p.name, host: p.host, port: p.port }
    }
}

#[derive(Debug)]
pub struct DiscoveredFfi {
    pub device_id: String,
    pub name: String,
    pub addr: String,
}

#[derive(Debug)]
pub struct PairedDeviceFfi {
    pub device_id: String,
    pub name: String,
    pub paired_at: Option<i64>,
    pub last_sync_at: Option<i64>,
}

/// Receives the progress of a pull. The Kotlin side implements it and feeds
/// a `StateFlow` for Compose.
pub trait SyncListener {
    fn on_progress(&self, progress: SyncProgressFfi);
}

/// Track ids as the plain numbers Kotlin receives.
pub fn id_vec(ids: Vec<TrackId>) -> (r: Vec<i64>)
    ensures
        r@ == ids@.map_values(|t: TrackId| t.0),
{
    let mut r: Vec<i64> = Vec::new();
    let mut i: usize = 0;
    while i < ids.len()
        invariant
            i <= ids@.len(),
            r@ == ids@.take(i as int).map_values(|t: TrackId| t.0),
        decreases ids.len() - i,
    {
        r.push(ids[i].0);
        i += 1;
        assert(r@ =~= ids@.take(i as int).map_values(|t: TrackId| t.0));
    }
    assert(ids@.take(ids@.len() as int) =~= ids@);
    r
}

} // verus!
