//! The phone side of a pull: what it reports, and the decisions it takes
//! about each file it receives (where it goes, how it is named, where a
//! download resumes). The connection, the files and the index are the
//! caller's.
use vstd::prelude::*;

use crate::hex::{hex_lower, hex_string, trim, trim_chars, trim_end, trim_start};
use crate::index::art::{blake3_digest, blake3_hash, path_join};
use crate::model::DeviceId;
use crate::strutil::{chars_of, decimal, decimal_chars, opt_view, string_of};
use crate::sync::protocol::{Msg, TrackMeta, UserLayer};

verus! {

#[derive(Debug, Clone, Copy, PartialEq, Eq, Structural)]
pub enum Phase {
    Connecting,
    MergingUserData,
    FetchingList,
    Downloading,
    Indexing,
    Done,
}

#[derive(Debug, Clone)]
pub struct Progress {
    pub phase: Phase,
    pub tracks_done: u64,
    pub tracks_total: u64,
    pub bytes_done: u64,
    pub bytes_total: u64,
    pub current: Option<String>,
}

#[derive(Debug, Clone)]
pub struct PullReport {
    pub peer: DeviceId,
    pub tracks_added: u64,
    pub bytes: u64,
    pub playlists_merged: usize,
    /// Files that arrived but did not match the hash asked for: discarded.
    pub hash_mismatch: u64,
}

/// Why a pull stopped.
#[derive(Debug, Clone, Copy, PartialEq, Eq, Structural)]
pub enum PullError {
    Cancelled,
}

/// Stops the pull between chunks when the user asked for it.
pub fn check_cancel(cancelled: bool) -> (r: Result<(), PullError>)
    ensures
        cancelled ==> r == Err::<(), PullError>(PullError::Cancelled),
        !cancelled ==> r is Ok,
{
    if cancelled {
        Err(PullError::Cancelled)
    } else {
        Ok(())
    }
}

// ---------------------------------------------------------------------------
// File names
// ---------------------------------------------------------------------------

/// Chars that cannot go in a file name on some system: path separators,
/// the reserved ones of Windows, and the control chars.
pub open spec fn bad_name_char(c: char) -> bool {
    c == '/' || c == '\\' || c == ':' || c == '*' || c == '?' || c == '"' || c == '<' || c == '>' || c == '|'
        || (c as int) <= 0x1f
}

pub open spec fn replace_bad(s: Seq<char>) -> Seq<char> {
    s.map_values(|c: char| if bad_name_char(c) { '_' } else { c })
}

pub open spec fn trim_start_dots(s: Seq<char>) -> Seq<char>
    decreases s.len(),
{
    if s.len() > 0 && s[0] == '.' {
        trim_start_dots(s.drop_first())
    } else {
        s
    }
}

pub open spec fn trim_end_dots(s: Seq<char>) -> Seq<char>
    decreases s.len(),
{
    if s.len() > 0 && s.last() == '.' {
        trim_end_dots(s.drop_last())
    } else {
        s
    }
}

/// A tag made safe as one path component: bad chars become `_`, the ends
/// lose White_Space and then dots, nothing left becomes `_`, and at most 120
/// chars stay.
pub open spec fn sanitize_spec(s: Seq<char>) -> Seq<char> {
    let t = trim_end_dots(trim_start_dots(trim(replace_bad(s))));
    let u = if t.len() == 0 {
        seq!['_']
    } else {
        t
    };
    if u.len() > 120 {
        u.take(120)
    } else {
        u
    }
}

fn is_bad_name_char(c: char) -> (r: bool)
    ensures
        r == bad_name_char(c),
{
    c == '/' || c == '\\' || c == ':' || c == '*' || c == '?' || c == '"' || c == '<' || c == '>' || c == '|'
        || (c as u32) <= 0x1f
}

fn trim_dots(s: &Vec<char>) -> (t: Vec<char>)
    ensures
        t@ == trim_end_dots(trim_start_dots(s@)),
{
    let mut lo: usize = 0;
    assert(s@.subrange(0, s@.len() as int) =~= s@);
    while lo < s.len() && s[lo] == '.'
        invariant
            lo <= s@.len(),
            trim_start_dots(s@.subrange(lo as int, s@.len() as int)) == trim_start_dots(s@),
        decreases s.len() - lo,
    {
        assert(s@.subrange(lo as int, s@.len() as int).drop_first() =~= s@.subrange(lo + 1, s@.len() as int));
        lo += 1;
    }
    let ghost front = s@.subrange(lo as int, s@.len() as int);
    let mut hi: usize = s.len();
    while hi > lo && s[hi - 1] == '.'
        invariant
            lo <= hi <= s@.len(),
            front == s@.subrange(lo as int, s@.len() as int),
            trim_start_dots(front) == front,
            trim_end_dots(s@.subrange(lo as int, hi as int)) == trim_end_dots(front),
        decreases hi - lo,
    {
        assert(s@.subrange(lo as int, hi as int).drop_last() =~= s@.subrange(lo as int, hi - 1));
        hi -= 1;
    }
    let mut t: Vec<char> = Vec::new();
    let mut i: usize = lo;
    while i < hi
        invariant
            lo <= i <= hi <= s@.len(),
            t@ == s@.subrange(lo as int, i as int),
        decreases hi - i,
    {
        t.push(s[i]);
        i += 1;
        assert(t@ =~= s@.subrange(lo as int, i as int));
    }
    t
}

/// `s` made safe to be one component of a path.
pub fn sanitize(s: &str) -> (r: String)
    ensures
        r@ == sanitize_spec(s@),
{
    let cs = chars_of(s);
    let mut mapped: Vec<char> = Vec::new();
    let mut i: usize = 0;
    while i < cs.len()
        invariant
            i <= cs@.len(),
            cs@ == s@,
            mapped@ == replace_bad(cs@).take(i as int),
        decreases cs.len() - i,
    {
        let c = cs[i];
        mapped.push(if is_bad_name_char(c) {
            '_'
        } else {
            c
        });
        i += 1;
        assert(mapped@ =~= replace_bad(cs@).take(i as int));
    }
    assert(replace_bad(cs@).take(cs@.len() as int) =~= replace_bad(cs@));
    let trimmed = trim_chars(&mapped);
    let t = trim_dots(&trimmed);
    let u = if t.len() == 0 {
        let v = vec!['_'];
        assert(v@ =~= seq!['_']);
        v
    } else {
        t
    };
    if u.len() > 120 {
        let mut w: Vec<char> = Vec::new();
        let mut j: usize = 0;
        while j < 120
            invariant
                j <= 120 < u@.len(),
                w@ == u@.take(j as int),
            decreases 120 - j,
        {
            w.push(u[j]);
            j += 1;
            assert(w@ =~= u@.take(j as int));
        }
        string_of(&w)
    } else {
        string_of(&u)
    }
}

/// `n` in at least two digits, as `{n:02}` writes it.
pub open spec fn two_digits(n: nat) -> Seq<char> {
    if n < 10 {
        seq!['0'] + decimal(n)
    } else {
        decimal(n)
    }
}

pub open spec fn unwrap_or(o: Option<Seq<char>>, d: Seq<char>) -> Seq<char> {
    match o {
        Some(s) => s,
        None => d,
    }
}

pub open spec fn no_artist() -> Seq<char> {
    seq!['S', 'e', 'm', ' ', 'a', 'r', 't', 'i', 's', 't', 'a']
}

pub open spec fn no_album() -> Seq<char> {
    seq!['S', 'e', 'm', ' ', '\u{e1}', 'l', 'b', 'u', 'm']
}

/// `dest/<artist>/<album>/<NN title>.<ext>`, all sanitised. Without a title
/// the file goes to `dest/<hex>.<ext>` instead: nothing is left without a
/// place.
pub open spec fn target_path_spec(dest: Seq<char>, m: TrackMeta) -> Seq<char> {
    let artist = sanitize_spec(
        match m.album_artist {
            Some(a) => a@,
            None => unwrap_or(opt_view(m.artist), no_artist()),
        },
    );
    let album = sanitize_spec(unwrap_or(opt_view(m.album), no_album()));
    let ext = if m.ext@.len() == 0 {
        seq!['b', 'i', 'n']
    } else {
        m.ext@
    };
    match m.title {
        Some(t) if trim(t@).len() > 0 => {
            let prefix = match m.track_no {
                Some(n) => two_digits(n as nat) + seq![' '],
                None => Seq::empty(),
            };
            path_join(path_join(path_join(dest, artist), album), prefix + sanitize_spec(t@) + seq!['.'] + ext)
        },
        _ => path_join(dest, hex_lower(m.hash@.subrange(0, 16)) + seq!['.'] + ext),
    }
}

fn join(base: &Vec<char>, part: &Vec<char>) -> (r: Vec<char>)
    ensures
        r@ == path_join(base@, part@),
{
    let mut r = base.clone();
    assert(r@ == base@);
    if base.len() > 0 && base[base.len() - 1] != '/' {
        r.push('/');
    }
    let ghost before = r@;
    let mut j: usize = 0;
    while j < part.len()
        invariant
            j <= part@.len(),
            r@ == before + part@.subrange(0, j as int),
        decreases part.len() - j,
    {
        r.push(part[j]);
        j += 1;
        assert(r@ =~= before + part@.subrange(0, j as int));
    }
    assert(part@.subrange(0, part@.len() as int) =~= part@);
    r
}

fn append(v: &mut Vec<char>, w: &Vec<char>)
    ensures
        final(v)@ == old(v)@ + w@,
{
    let mut j: usize = 0;
    while j < w.len()
        invariant
            j <= w@.len(),
            v@ == old(v)@ + w@.subrange(0, j as int),
        decreases w.len() - j,
    {
        v.push(w[j]);
        j += 1;
        assert(v@ =~= old(v)@ + w@.subrange(0, j as int));
    }
    assert(w@.subrange(0, w@.len() as int) =~= w@);
}

/// The first `n` bytes of a hash.
fn hash_prefix(h: &[u8; 32], n: usize) -> (r: Vec<u8>)
    requires
        n <= 32,
    ensures
        r@ == h@.subrange(0, n as int),
{
    let mut r: Vec<u8> = Vec::new();
    let mut i: usize = 0;
    while i < n
        invariant
            i <= n <= 32,
            h@.len() == 32,
            r@ == h@.subrange(0, i as int),
        decreases n - i,
    {
        r.push(h[i]);
        i += 1;
        assert(r@ =~= h@.subrange(0, i as int));
    }
    r
}

/// Where a received file is stored under `dest`.
/// No `/` in `s`.
pub open spec fn no_slash(s: Seq<char>) -> bool {
    forall|i: int| 0 <= i < s.len() ==> s[i] != '/'
}

proof fn lemma_no_slash_drop(s: Seq<char>)
    requires
        no_slash(s),
        s.len() > 0,
    ensures
        no_slash(s.drop_first()),
        no_slash(s.drop_last()),
{
    assert forall|i: int| 0 <= i < s.drop_first().len() implies s.drop_first()[i] != '/' by {
        assert(s.drop_first()[i] == s[i + 1]);
    }
    assert forall|i: int| 0 <= i < s.drop_last().len() implies s.drop_last()[i] != '/' by {
        assert(s.drop_last()[i] == s[i]);
    }
}

proof fn lemma_trims_no_slash(s: Seq<char>)
    requires
        no_slash(s),
    ensures
        no_slash(trim_start(s)),
        no_slash(trim_end(s)),
        no_slash(trim_start_dots(s)),
        no_slash(trim_end_dots(s)),
    decreases s.len(),
{
    if s.len() > 0 {
        lemma_no_slash_drop(s);
        lemma_trims_no_slash(s.drop_first());
        lemma_trims_no_slash(s.drop_last());
    }
}

/// A sanitised name is one path component: never empty, never a `/`.
pub proof fn lemma_sanitize_component(s: Seq<char>)
    ensures
        sanitize_spec(s).len() > 0,
        no_slash(sanitize_spec(s)),
{
    let r = replace_bad(s);
    assert(no_slash(r)) by {
        assert forall|i: int| 0 <= i < r.len() implies r[i] != '/' by {
            if s[i] == '/' {
                assert(bad_name_char(s[i]));
            }
        }
    }
    lemma_trims_no_slash(r);
    lemma_trims_no_slash(trim_start(r));
    let t1 = trim(r);
    lemma_trims_no_slash(t1);
    lemma_trims_no_slash(trim_start_dots(t1));
    let t = trim_end_dots(trim_start_dots(t1));
    let u = if t.len() == 0 {
        seq!['_']
    } else {
        t
    };
    assert(no_slash(u));
    if u.len() > 120 {
        assert forall|i: int| 0 <= i < u.take(120).len() implies u.take(120)[i] != '/' by {
            assert(u.take(120)[i] == u[i]);
        }
    }
}

/// Joining a component that is not empty and ends in no `/`.
proof fn lemma_join_component(base: Seq<char>, part: Seq<char>)
    requires
        part.len() > 0,
        part.last() != '/',
    ensures
        path_join(base, part).len() > 0,
        path_join(base, part).last() == part.last(),
        path_join(base, part).last() != '/',
{
}

/// A track with an album artist and a title is stored under the album
/// artist's folder, whatever its track artist: a compilation stays in one
/// folder.
pub proof fn lemma_target_under_album_artist(dest: Seq<char>, m: TrackMeta, a: String, t: String)
    requires
        m.album_artist == Some(a),
        m.title == Some(t),
        trim(t@).len() > 0,
    ensures
        (path_join(dest, sanitize_spec(a@)) + seq!['/']).is_prefix_of(target_path_spec(dest, m)),
{
    let artist = sanitize_spec(a@);
    let album = sanitize_spec(unwrap_or(opt_view(m.album), no_album()));
    lemma_sanitize_component(a@);
    lemma_sanitize_component(unwrap_or(opt_view(m.album), no_album()));
    assert(artist.last() == artist[artist.len() - 1]);
    lemma_join_component(dest, artist);
    let x = path_join(dest, artist);
    lemma_join_component(x, album);
    let y = path_join(x, album);
    assert(y == x + seq!['/'] + album);
    let ext = if m.ext@.len() == 0 {
        seq!['b', 'i', 'n']
    } else {
        m.ext@
    };
    let prefix = match m.track_no {
        Some(n) => two_digits(n as nat) + seq![' '],
        None => Seq::empty(),
    };
    let file = prefix + sanitize_spec(t@) + seq!['.'] + ext;
    let whole = path_join(y, file);
    assert(whole == y + seq!['/'] + file);
    assert(target_path_spec(dest, m) == whole);
    let px = x + seq!['/'];
    assert(whole.subrange(0, px.len() as int) =~= px);
}

#[verifier::rlimit(60)]
#[verifier::spinoff_prover]
pub fn target_path(dest: &str, m: &TrackMeta) -> (p: String)
    ensures
        p@ == target_path_spec(dest@, *m),
        forall|a: String|
            m.album_artist == Some(a) && m.title is Some && trim(m.title->0@).len() > 0 ==> (path_join(
                dest@,
                #[trigger] sanitize_spec(a@),
            ) + seq!['/']).is_prefix_of(p@),
{
    proof {
        assert forall|a: String|
            m.album_artist == Some(a) && m.title is Some && trim(m.title->0@).len() > 0 implies (path_join(
                dest@,
                #[trigger] sanitize_spec(a@),
            ) + seq!['/']).is_prefix_of(target_path_spec(dest@, *m)) by {
            lemma_target_under_album_artist(dest@, *m, a, m.title->0);
        }
    }
    let na = vec!['S', 'e', 'm', ' ', 'a', 'r', 't', 'i', 's', 't', 'a'];
    assert(na@ =~= no_artist());
    let artist_src: String = match &m.album_artist {
        Some(a) => a.clone(),
        None => match &m.artist {
            Some(a) => a.clone(),
            None => string_of(&na),
        },
    };
    let nb = vec!['S', 'e', 'm', ' ', '\u{e1}', 'l', 'b', 'u', 'm'];
    assert(nb@ =~= no_album());
    let album_src: String = match &m.album {
        Some(a) => a.clone(),
        None => string_of(&nb),
    };
    let mut ext = chars_of(m.ext.as_str());
    if ext.len() == 0 {
        ext = vec!['b', 'i', 'n'];
        assert(ext@ =~= seq!['b', 'i', 'n']);
    }
    let dest_chars = chars_of(dest);
    if let Some(title) = &m.title {
        if trim_chars(&chars_of(title.as_str())).len() > 0 {
            let stem = titled_name(m.track_no, title, &ext);
            let artist = chars_of(sanitize(artist_src.as_str()).as_str());
            let album = chars_of(sanitize(album_src.as_str()).as_str());
            let p1 = join(&dest_chars, &artist);
            let p2 = join(&p1, &album);
            let full = join(&p2, &stem);
            return string_of(&full);
        }
    }
    let first = hash_prefix(&m.hash, 16);
    let mut name = chars_of(hex_string(first.as_slice()).as_str());
    name.push('.');
    append(&mut name, &ext);
    let full = join(&dest_chars, &name);
    string_of(&full)
}

/// `NN title.ext`: the track number in two digits when there is one.
fn titled_name(track_no: Option<u32>, title: &String, ext: &Vec<char>) -> (v: Vec<char>)
    ensures
        v@ == (match track_no {
            Some(n) => two_digits(n as nat) + seq![' '],
            None => Seq::empty(),
        }) + sanitize_spec(title@) + seq!['.'] + ext@,
{
    let mut stem: Vec<char> = Vec::new();
    match track_no {
        Some(n) => {
            if n < 10 {
                stem.push('0');
            }
            let digits = decimal_chars(n as u64);
            append(&mut stem, &digits);
            stem.push(' ');
            assert(stem@ =~= two_digits(n as nat) + seq![' ']);
        },
        None => {
            assert(stem@ =~= Seq::<char>::empty());
        },
    }
    let clean_title = chars_of(sanitize(title.as_str()).as_str());
    append(&mut stem, &clean_title);
    stem.push('.');
    append(&mut stem, ext);
    stem
}

/// What the progress shows for a track being downloaded.
pub open spec fn display_name_spec(m: TrackMeta) -> Seq<char> {
    match (m.artist, m.title) {
        (Some(a), Some(t)) => a@ + seq![' ', '\u{2014}', ' '] + t@,
        (_, Some(t)) => t@,
        _ => hex_lower(m.hash@.subrange(0, 6)),
    }
}

pub fn display_name(m: &TrackMeta) -> (s: String)
    ensures
        s@ == display_name_spec(*m),
{
    match (&m.artist, &m.title) {
        (Some(a), Some(t)) => {
            let mut v = chars_of(a.as_str());
            v.push(' ');
            v.push('\u{2014}');
            v.push(' ');
            append(&mut v, &chars_of(t.as_str()));
            string_of(&v)
        },
        (_, Some(t)) => t.clone(),
        _ => {
            let first = hash_prefix(&m.hash, 6);
            hex_string(first.as_slice())
        },
    }
}

// ---------------------------------------------------------------------------
// Resuming
// ---------------------------------------------------------------------------

/// Where the download of a file resumes, given the size of a partial file
/// left by an earlier pull (if any), and whether that partial file must go
/// first: a partial file longer than the track, or empty, is thrown away
/// and the download starts over.
pub open spec fn resume_spec(part_len: Option<u64>, size: u64) -> (u64, bool) {
    match part_len {
        None => (0, false),
        Some(l) => if l > size || l == 0 {
            (0, true)
        } else {
            (l, false)
        },
    }
}

pub fn resume_from(part_len: Option<u64>, size: u64) -> (r: (u64, bool))
    ensures
        r == resume_spec(part_len, size),
{
    match part_len {
        None => (0, false),
        Some(l) => if l > size || l == 0 {
            (0, true)
        } else {
            (l, false)
        },
    }
}

/// Sum of the sizes of the tracks to download.
pub open spec fn total_size(ms: Seq<TrackMeta>) -> nat
    decreases ms.len(),
{
    if ms.len() == 0 {
        0
    } else {
        total_size(ms.drop_last()) + ms.last().size as nat
    }
}

proof fn lemma_total_size_prefix(ms: Seq<TrackMeta>, i: int)
    requires
        0 <= i <= ms.len(),
    ensures
        total_size(ms.take(i)) <= total_size(ms),
    decreases ms.len() - i,
{
    if i < ms.len() {
        lemma_total_size_prefix(ms, i + 1);
        assert(ms.take(i + 1).drop_last() =~= ms.take(i));
    } else {
        assert(ms.take(i) =~= ms);
    }
}

/// The bytes a pull will move, shown in the progress before it starts.
pub fn bytes_total(metas: &Vec<TrackMeta>) -> (n: u64)
    requires
        total_size(metas@) <= u64::MAX,
    ensures
        n == total_size(metas@),
{
    let mut n: u64 = 0;
    let mut i: usize = 0;
    while i < metas.len()
        invariant
            i <= metas@.len(),
            total_size(metas@) <= u64::MAX,
            n == total_size(metas@.take(i as int)),
        decreases metas.len() - i,
    {
        proof {
            assert(metas@.take(i + 1).drop_last() =~= metas@.take(i as int));
            lemma_total_size_prefix(metas@, i + 1);
        }
        n = n + metas[i].size;
        i += 1;
    }
    assert(metas@.take(metas@.len() as int) =~= metas@);
    n
}

// ---------------------------------------------------------------------------
// The session, message by message
// ---------------------------------------------------------------------------

/// What the phone waits for next from the host.
#[derive(Debug, Clone, Copy, PartialEq, Eq, Structural)]
pub enum Expect {
    Hello,
    User,
    Tracks,
    /// A piece of the file being received.
    Blob,
    /// Nothing: between files, or after the session ended.
    Nothing,
}

/// The phone's side of a session between two messages, with its tallies.
#[derive(Debug, Clone, Copy, PartialEq, Eq)]
pub struct PullState {
    pub expect: Expect,
    /// Hash of the file being received.
    pub hash: [u8; 32],
    /// Bytes of that file on disk so far, a resumed part included.
    pub got: u64,
    /// Bytes of the files finished before it, downloaded or already there.
    pub bytes_base: u64,
    pub tracks_added: u64,
    /// Bytes of the files added.
    pub bytes: u64,
    /// Files that arrived with the wrong content and were discarded.
    pub hash_mismatch: u64,
}

/// What the phone does with a message.
#[derive(Debug)]
pub enum PullAction {
    /// The host said hello: wait for its user layer.
    Continue,
    /// Merge the host's user layer into the index, then send `Have` with
    /// the local hashes.
    Merge(UserLayer),
    /// Download these tracks, one by one.
    Download(Vec<TrackMeta>),
    /// Append these bytes to the part file; `last` ends the file.
    Write { data: Vec<u8>, last: bool },
    /// The host refused: stop with its message.
    Refused(String),
    /// A message other than the one waited for: stop.
    Unexpected(Expect),
    /// A piece of another file than the one asked for: stop.
    WrongHash,
    /// More bytes than a `u64` counts: stop.
    Overflow,
}

/// A session that has just connected: it waits for the host's hello, with
/// every tally at zero.
pub fn pull_start() -> (st: PullState)
    ensures
        st.expect == Expect::Hello,
        st.got == 0,
        st.bytes_base == 0,
        st.tracks_added == 0,
        st.bytes == 0,
        st.hash_mismatch == 0,
{
    PullState { expect: Expect::Hello, hash: [0u8; 32], got: 0, bytes_base: 0, tracks_added: 0, bytes: 0, hash_mismatch: 0 }
}

/// The next state and action for a message. The hello and the blob loop
/// take the host's `Error` as a refusal; at the other steps anything but
/// the message waited for stops the session.
pub open spec fn pull_step_spec(st: PullState, msg: Msg) -> (PullState, PullAction) {
    let stop = PullState { expect: Expect::Nothing, ..st };
    match st.expect {
        Expect::Hello => match msg {
            Msg::Hello { .. } => (PullState { expect: Expect::User, ..st }, PullAction::Continue),
            Msg::Error { msg } => (stop, PullAction::Refused(msg)),
            _ => (stop, PullAction::Unexpected(Expect::Hello)),
        },
        Expect::User => match msg {
            Msg::User(l) => (PullState { expect: Expect::Tracks, ..st }, PullAction::Merge(l)),
            _ => (stop, PullAction::Unexpected(Expect::User)),
        },
        Expect::Tracks => match msg {
            Msg::Tracks(m) => (stop, PullAction::Download(m)),
            _ => (stop, PullAction::Unexpected(Expect::Tracks)),
        },
        Expect::Blob => match msg {
            Msg::Blob { hash, data, last, .. } => if hash@ != st.hash@ {
                (stop, PullAction::WrongHash)
            } else if st.got + data@.len() > u64::MAX {
                (stop, PullAction::Overflow)
            } else {
                (
                    PullState {
                        expect: if last { Expect::Nothing } else { Expect::Blob },
                        got: (st.got + data@.len()) as u64,
                        ..st
                    },
                    PullAction::Write { data, last },
                )
            },
            Msg::Error { msg } => (stop, PullAction::Refused(msg)),
            _ => (stop, PullAction::Unexpected(Expect::Blob)),
        },
        Expect::Nothing => (st, PullAction::Unexpected(Expect::Nothing)),
    }
}

fn same32(a: &[u8; 32], b: &[u8; 32]) -> (r: bool)
    ensures
        r == (a@ == b@),
{
    let mut i: usize = 0;
    while i < 32
        invariant
            i <= 32,
            a@.len() == 32,
            b@.len() == 32,
            forall|j: int| 0 <= j < i ==> a@[j] == b@[j],
        decreases 32 - i,
    {
        if a[i] != b[i] {
            return false;
        }
        i += 1;
    }
    assert(a@ =~= b@);
    true
}

/// One message of the host, taken by the phone.
pub fn pull_step(st: PullState, msg: Msg) -> (r: (PullState, PullAction))
    ensures
        r == pull_step_spec(st, msg),
{
    let stop = PullState { expect: Expect::Nothing, ..st };
    match st.expect {
        Expect::Hello => match msg {
            Msg::Hello { .. } => (PullState { expect: Expect::User, ..st }, PullAction::Continue),
            Msg::Error { msg } => (stop, PullAction::Refused(msg)),
            _ => (stop, PullAction::Unexpected(Expect::Hello)),
        },
        Expect::User => match msg {
            Msg::User(l) => (PullState { expect: Expect::Tracks, ..st }, PullAction::Merge(l)),
            _ => (stop, PullAction::Unexpected(Expect::User)),
        },
        Expect::Tracks => match msg {
            Msg::Tracks(m) => (stop, PullAction::Download(m)),
            _ => (stop, PullAction::Unexpected(Expect::Tracks)),
        },
        Expect::Blob => match msg {
            Msg::Blob { hash, data, last, .. } => {
                if !same32(&hash, &st.hash) {
                    (stop, PullAction::WrongHash)
                } else if data.len() as u64 > u64::MAX - st.got {
                    (stop, PullAction::Overflow)
                } else {
                    let got = st.got + data.len() as u64;
                    (
                        PullState { expect: if last { Expect::Nothing } else { Expect::Blob }, got, ..st },
                        PullAction::Write { data, last },
                    )
                }
            },
            Msg::Error { msg } => (stop, PullAction::Refused(msg)),
            _ => (stop, PullAction::Unexpected(Expect::Blob)),
        },
        Expect::Nothing => (st, PullAction::Unexpected(Expect::Nothing)),
    }
}

/// Asks for the file `hash` from byte `from` on (what a part file already
/// holds): the phone now waits for its pieces.
pub fn start_file(st: PullState, hash: [u8; 32], from: u64) -> (r: PullState)
    ensures
        r == (PullState { expect: Expect::Blob, hash, got: from, ..st }),
{
    PullState { expect: Expect::Blob, hash, got: from, ..st }
}

/// A file already on disk with the right size: its bytes count as done.
/// `None` when the count would pass what a `u64` holds.
pub fn skip_file(st: PullState, size: u64) -> (r: Option<PullState>)
    ensures
        st.bytes_base + size <= u64::MAX ==> r == Some(PullState { bytes_base: (st.bytes_base + size) as u64, ..st }),
        st.bytes_base + size > u64::MAX ==> r is None,
{
    if size > u64::MAX - st.bytes_base {
        None
    } else {
        Some(PullState { bytes_base: st.bytes_base + size, ..st })
    }
}

/// A file fully received, of `size` bytes, whose content did (`ok`) or did
/// not match its hash. A match adds the track and its bytes and closes its
/// part; a mismatch discards it and is counted. `None` when a count would
/// pass what a `u64` holds.
pub fn file_done(st: PullState, size: u64, ok: bool) -> (r: Option<PullState>)
    ensures
        ok && st.tracks_added < u64::MAX && st.bytes + size <= u64::MAX && st.bytes_base + st.got <= u64::MAX ==> r
            == Some(
            PullState {
                expect: Expect::Nothing,
                tracks_added: (st.tracks_added + 1) as u64,
                bytes: (st.bytes + size) as u64,
                bytes_base: (st.bytes_base + st.got) as u64,
                ..st
            },
        ),
        ok && !(st.tracks_added < u64::MAX && st.bytes + size <= u64::MAX && st.bytes_base + st.got <= u64::MAX)
            ==> r is None,
        !ok && st.hash_mismatch < u64::MAX ==> r == Some(
            PullState { expect: Expect::Nothing, hash_mismatch: (st.hash_mismatch + 1) as u64, ..st },
        ),
        !ok && st.hash_mismatch == u64::MAX ==> r is None,
{
    if ok {
        if st.tracks_added == u64::MAX || size > u64::MAX - st.bytes || st.got > u64::MAX - st.bytes_base {
            None
        } else {
            Some(
                PullState {
                    expect: Expect::Nothing,
                    tracks_added: st.tracks_added + 1,
                    bytes: st.bytes + size,
                    bytes_base: st.bytes_base + st.got,
                    ..st
                },
            )
        }
    } else if st.hash_mismatch == u64::MAX {
        None
    } else {
        Some(PullState { expect: Expect::Nothing, hash_mismatch: st.hash_mismatch + 1, ..st })
    }
}

/// Bytes done, for the progress: those of the finished files and of the
/// file being received. `None` when the sum passes what a `u64` holds.
pub fn bytes_done(st: &PullState) -> (r: Option<u64>)
    ensures
        st.bytes_base + st.got <= u64::MAX ==> r == Some((st.bytes_base + st.got) as u64),
        st.bytes_base + st.got > u64::MAX ==> r is None,
{
    if st.got > u64::MAX - st.bytes_base {
        None
    } else {
        Some(st.bytes_base + st.got)
    }
}

/// Whether a downloaded file has the content asked for: its BLAKE3 hash is
/// the one the host announced.
pub fn blob_ok(expected: &[u8; 32], data: &[u8]) -> (r: bool)
    ensures
        r == (blake3_digest(data@) == expected@),
{
    let h = blake3_hash(data);
    same32(&h, expected)
}

} // verus!
