//! Read queries for the UI: what a list shows and in which order.
//!
//! A "view" is a `Vec<TrackId>` in the right order; the UI asks for the rows
//! of the ~40 visible ids only.
use vstd::prelude::*;

use crate::model::{ArtistId, TrackId};
use crate::strutil::{chars_of, is_whitespace, string_of, white_space};

verus! {

/// Order of the list.
#[derive(Debug, Clone, Copy, PartialEq, Eq, Structural)]
pub enum Sort {
    /// Artist, year, album, disc, track: the order an album is meant to be
    /// heard in.
    ArtistAlbum,
    Title,
    /// Most recently scanned first.
    RecentlyAdded,
}

impl Default for Sort {
    fn default() -> (s: Self)
        ensures
            s == Sort::ArtistAlbum,
    {
        Sort::ArtistAlbum
    }
}

impl Sort {
    pub open spec fn order_by_spec(self) -> Seq<char> {
        match self {
            Sort::ArtistAlbum => "aa.name_key, al.year, al.title, t.disc_no, t.track_no, t.title"@,
            Sort::Title => "t.title, aa.name_key"@,
            Sort::RecentlyAdded => "t.scanned_at DESC, t.id DESC"@,
        }
    }

    /// The `ORDER BY` clause of the sort.
    pub fn order_by(self) -> (r: &'static str)
        ensures
            r@ == self.order_by_spec(),
    {
        match self {
            Sort::ArtistAlbum => "aa.name_key, al.year, al.title, t.disc_no, t.track_no, t.title",
            Sort::Title => "t.title, aa.name_key",
            Sort::RecentlyAdded => "t.scanned_at DESC, t.id DESC",
        }
    }
}

/// A visible row of the list.
#[derive(Debug, Clone)]
pub struct TrackRow {
    pub id: TrackId,
    pub title: String,
    pub artist: Option<String>,
    /// The performer's id: what "only this artist" needs.
    pub artist_id: Option<ArtistId>,
    pub album: Option<String>,
    pub track_no: Option<u32>,
    pub duration_ms: Option<u64>,
    /// Hash of the cover, to build the thumbnail path.
    pub art_hash: Option<[u8; 32]>,
}

#[derive(Debug, Clone, Copy, PartialEq, Eq, Structural)]
pub struct Stats {
    pub tracks: u64,
    pub albums: u64,
    pub artists: u64,
}

impl Default for Stats {
    fn default() -> (s: Self)
        ensures
            s == (Stats { tracks: 0, albums: 0, artists: 0 }),
    {
        Stats { tracks: 0, albums: 0, artists: 0 }
    }
}

/// An artist for the sidebar.
#[derive(Debug, Clone)]
pub struct ArtistBrief {
    pub id: ArtistId,
    pub name: String,
    /// Local tracks where the artist is the performer.
    pub tracks: u64,
}

// ---------------------------------------------------------------------------
// Search expression
// ---------------------------------------------------------------------------

/// The words of `s`: maximal runs of non-whitespace chars.
pub open spec fn split_words(s: Seq<char>) -> Seq<Seq<char>>
    decreases s.len(),
{
    if s.len() == 0 {
        Seq::empty()
    } else {
        let rest = split_words(s.drop_last());
        let c = s.last();
        if white_space(c) {
            rest
        } else if s.len() >= 2 && !white_space(s[s.len() - 2]) {
            rest.drop_last().push(rest.last().push(c))
        } else {
            rest.push(seq![c])
        }
    }
}

/// `"` doubled, as SQLite escapes it inside a quoted term.
pub open spec fn escape_quotes(w: Seq<char>) -> Seq<char>
    decreases w.len(),
{
    if w.len() == 0 {
        Seq::empty()
    } else {
        escape_quotes(w.drop_last()) + if w.last() == '"' {
            seq!['"', '"']
        } else {
            seq![w.last()]
        }
    }
}

/// A word as a quoted FTS5 prefix term: `"word"*`.
pub open spec fn fts_term(w: Seq<char>) -> Seq<char> {
    seq!['"'] + escape_quotes(w) + seq!['"', '*']
}

/// The terms joined by single spaces.
pub open spec fn fts_join(words: Seq<Seq<char>>) -> Seq<char>
    decreases words.len(),
{
    if words.len() == 0 {
        Seq::empty()
    } else if words.len() == 1 {
        fts_term(words[0])
    } else {
        fts_join(words.drop_last()) + seq![' '] + fts_term(words.last())
    }
}

pub open spec fn fts_query_spec(input: Seq<char>) -> Option<Seq<char>> {
    let words = split_words(input);
    if words.len() == 0 {
        None
    } else {
        Some(fts_join(words))
    }
}

proof fn lemma_split_words_nonempty(s: Seq<char>)
    ensures
        forall|i: int| 0 <= i < split_words(s).len() ==> #[trigger] split_words(s)[i].len() > 0,
        s.len() > 0 && !white_space(s.last()) ==> split_words(s).len() > 0,
    decreases s.len(),
{
    if s.len() > 0 {
        lemma_split_words_nonempty(s.drop_last());
        let rest = split_words(s.drop_last());
        let c = s.last();
        if white_space(c) {
        } else if s.len() >= 2 && !white_space(s[s.len() - 2]) {
            assert(s.drop_last().last() == s[s.len() - 2]);
            let w = rest.drop_last().push(rest.last().push(c));
            assert forall|i: int| 0 <= i < w.len() implies #[trigger] w[i].len() > 0 by {
                if i < w.len() - 1 {
                    assert(w[i] == rest[i]);
                }
            }
        } else {
            let w = rest.push(seq![c]);
            assert forall|i: int| 0 <= i < w.len() implies #[trigger] w[i].len() > 0 by {
                if i < w.len() - 1 {
                    assert(w[i] == rest[i]);
                }
            }
        }
    }
}

pub open spec fn escape_char(c: char) -> Seq<char> {
    if c == '"' {
        seq!['"', '"']
    } else {
        seq![c]
    }
}

/// `fts_join` without the closing `"*` of its last term.
pub open spec fn fts_join_open(words: Seq<Seq<char>>) -> Seq<char> {
    if words.len() <= 1 {
        seq!['"'] + escape_quotes(words.last())
    } else {
        fts_join(words.drop_last()) + seq![' '] + seq!['"'] + escape_quotes(words.last())
    }
}

proof fn lemma_join_open(words: Seq<Seq<char>>)
    requires
        words.len() > 0,
    ensures
        fts_join(words) == fts_join_open(words) + seq!['"', '*'],
{
    if words.len() == 1 {
        assert(words[0] == words.last());
        assert(fts_join(words) =~= fts_join_open(words) + seq!['"', '*']);
    } else {
        assert(fts_join(words) =~= fts_join_open(words) + seq!['"', '*']);
    }
}

proof fn lemma_escape_push(w: Seq<char>, c: char)
    ensures
        escape_quotes(w.push(c)) == escape_quotes(w) + escape_char(c),
{
    assert(w.push(c).drop_last() =~= w);
}

/// The output after a new word starts with `c`.
proof fn lemma_new_word(wp: Seq<Seq<char>>, out: Seq<char>, c: char)
    requires
        wp.len() > 0 ==> out + seq!['"', '*'] == fts_join(wp),
        wp.len() == 0 ==> out.len() == 0,
    ensures
        ({
            let prefix = if wp.len() > 0 { out + seq!['"', '*', ' '] } else { out };
            prefix + seq!['"'] + escape_char(c) == fts_join_open(wp.push(seq![c]))
        }),
{
    lemma_escape_push(Seq::empty(), c);
    assert(Seq::<char>::empty().push(c) =~= seq![c]);
    assert(wp.push(seq![c]).last() == seq![c]);
    if wp.len() > 0 {
        assert(wp.push(seq![c]).drop_last() =~= wp);
        assert(out + seq!['"', '*', ' '] + seq!['"'] + escape_char(c) =~= fts_join(wp) + seq![' '] + seq!['"']
            + escape_quotes(seq![c]));
    } else {
        assert(out =~= Seq::<char>::empty());
        assert(seq!['"'] + escape_char(c) =~= seq!['"'] + escape_quotes(seq![c]));
    }
}

/// The output after the last word grows by `c`.
proof fn lemma_extend_word(wp: Seq<Seq<char>>, out: Seq<char>, c: char)
    requires
        wp.len() > 0,
        out == fts_join_open(wp),
    ensures
        out + escape_char(c) == fts_join_open(wp.drop_last().push(wp.last().push(c))),
{
    let ws = wp.drop_last().push(wp.last().push(c));
    lemma_escape_push(wp.last(), c);
    assert(ws.drop_last() =~= wp.drop_last());
    assert(ws.last() == wp.last().push(c));
}

/// Turns what the user typed into a safe FTS5 expression: every word a
/// quoted prefix term, all of them required. `None` when nothing was typed.
pub fn fts_query(input: &str) -> (r: Option<String>)
    ensures
        match r {
            Some(s) => fts_query_spec(input@) == Some(s@),
            None => fts_query_spec(input@) is None,
        },
{
    let chars = chars_of(input);
    let mut out: Vec<char> = Vec::new();
    let mut count: usize = 0;
    let mut in_word = false;
    let mut i: usize = 0;
    while i < chars.len()
        invariant
            i <= chars.len(),
            count == split_words(chars@.take(i as int)).len(),
            count <= i,
            in_word == (i > 0 && !white_space(chars@[i - 1])),
            count > 0 ==> out@ == fts_join_open(split_words(chars@.take(i as int))),
            count == 0 ==> out@.len() == 0,
        decreases chars.len() - i,
    {
        let c = chars[i];
        let ghost pre = chars@.take(i as int);
        let ghost now = chars@.take(i + 1);
        let ghost wp = split_words(pre);
        proof {
            assert(now.drop_last() =~= pre);
            assert(now.last() == c);
            if i > 0 {
                assert(now[now.len() - 2] == chars@[i - 1]);
            }
            lemma_split_words_nonempty(pre);
            if count > 0 {
                lemma_join_open(wp);
            }
        }
        if is_whitespace(c) {
            in_word = false;
        } else {
            let ghost before = out@;
            if !in_word {
                if count > 0 {
                    out.push('"');
                    out.push('*');
                    out.push(' ');
                }
                out.push('"');
                count += 1;
            }
            if c == '"' {
                out.push('"');
                out.push('"');
            } else {
                out.push(c);
            }
            proof {
                if !in_word {
                    lemma_new_word(wp, before, c);
                    let prefix = if wp.len() > 0 { before + seq!['"', '*', ' '] } else { before };
                    assert(out@ =~= prefix + seq!['"'] + escape_char(c));
                } else {
                    lemma_extend_word(wp, before, c);
                    assert(out@ =~= before + escape_char(c));
                }
            }
            in_word = true;
        }
        i += 1;
    }
    proof {
        assert(chars@.take(chars.len() as int) =~= chars@);
        if count > 0 {
            lemma_join_open(split_words(chars@));
        }
    }
    if count == 0 {
        None
    } else {
        out.push('"');
        out.push('*');
        Some(string_of(&out))
    }
}


// ---------------------------------------------------------------------------
// Rows of a window
// ---------------------------------------------------------------------------

/// Index of the last row of `found` with id `id`, if any: the one a map
/// keyed by id keeps.
pub open spec fn last_with_id(found: Seq<TrackRow>, id: TrackId) -> Option<int>
    decreases found.len(),
{
    if found.len() == 0 {
        None
    } else if found.last().id == id {
        Some(found.len() - 1)
    } else {
        last_with_id(found.drop_last(), id)
    }
}

pub open spec fn seen_before(ids: Seq<TrackId>, i: int) -> bool {
    exists|j: int| 0 <= j < i && ids[j] == ids[i]
}

/// The rows in the order of the ids asked for: the query comes back in any
/// order, the view decides. An id without a row is left out, and an id
/// asked twice gives its row once, at its first place.
pub open spec fn ordered_rows(ids: Seq<TrackId>, found: Seq<TrackRow>) -> Seq<TrackRow>
    decreases ids.len(),
{
    if ids.len() == 0 {
        Seq::empty()
    } else {
        let rest = ordered_rows(ids.drop_last(), found);
        let i = ids.len() - 1;
        if !seen_before(ids, i) && last_with_id(found, ids[i]) is Some {
            rest.push(found[last_with_id(found, ids[i])->0])
        } else {
            rest
        }
    }
}

fn copy_opt(o: &Option<String>) -> (r: Option<String>)
    ensures
        r == *o,
{
    match o {
        Some(s) => Some(s.clone()),
        None => None,
    }
}

fn copy_row(r: &TrackRow) -> (c: TrackRow)
    ensures
        c == *r,
{
    TrackRow {
        id: r.id,
        title: r.title.clone(),
        artist: copy_opt(&r.artist),
        artist_id: r.artist_id,
        album: copy_opt(&r.album),
        track_no: r.track_no,
        duration_ms: r.duration_ms,
        art_hash: r.art_hash,
    }
}

fn find_last(found: &Vec<TrackRow>, id: TrackId) -> (r: Option<usize>)
    ensures
        match last_with_id(found@, id) {
            Some(j) => r matches Some(x) && x as int == j,
            None => r is None,
        },
        r matches Some(j) ==> j < found@.len(),
{
    let mut k: usize = found.len();
    assert(found@.take(found@.len() as int) =~= found@);
    while k > 0
        invariant
            k <= found@.len(),
            last_with_id(found@, id) == last_with_id(found@.take(k as int), id),
        decreases k,
    {
        assert(found@.take(k as int).last() == found@[k - 1]);
        proof {
            assert(found@.take(k as int).drop_last() =~= found@.take(k - 1));
        }
        if found[k - 1].id.0 == id.0 {
            return Some(k - 1);
        }
        k -= 1;
    }
    None
}

fn asked_before(ids: &Vec<TrackId>, i: usize) -> (r: bool)
    requires
        i < ids@.len(),
    ensures
        r == seen_before(ids@, i as int),
{
    let mut j: usize = 0;
    while j < i
        invariant
            i < ids@.len(),
            j <= i,
            forall|k: int| 0 <= k < j ==> ids@[k] != ids@[i as int],
        decreases i - j,
    {
        if ids[j].0 == ids[i].0 {
            return true;
        }
        j += 1;
    }
    false
}

/// Puts the rows of a window in the order of its ids.
pub fn order_rows(ids: &Vec<TrackId>, found: &Vec<TrackRow>) -> (r: Vec<TrackRow>)
    ensures
        r@ == ordered_rows(ids@, found@),
{
    let mut r: Vec<TrackRow> = Vec::new();
    let mut i: usize = 0;
    assert(found@.take(found@.len() as int) =~= found@);
    while i < ids.len()
        invariant
            i <= ids@.len(),
            r@ == ordered_rows(ids@.take(i as int), found@),
        decreases ids.len() - i,
    {
        let ghost t = ids@.take(i + 1);
        proof {
            assert(t.drop_last() =~= ids@.take(i as int));
            assert(t[i as int] == ids@[i as int]);
            assert(seen_before(t, i as int) == seen_before(ids@, i as int)) by {
                if seen_before(t, i as int) {
                    let j = choose|j: int| 0 <= j < i && t[j] == t[i as int];
                    assert(ids@[j] == ids@[i as int]);
                }
                if seen_before(ids@, i as int) {
                    let j = choose|j: int| 0 <= j < i && ids@[j] == ids@[i as int];
                    assert(t[j] == t[i as int]);
                }
            }
        }
        let ghost before = r@;
        if !asked_before(ids, i) {
            match find_last(found, ids[i]) {
                Some(j) => {
                    r.push(copy_row(&found[j]));
                    assert(r@ == before.push(found@[last_with_id(found@, t[i as int])->0]));
                },
                None => {},
            }
        }
        assert(r@ == ordered_rows(t, found@));
        i += 1;
    }
    assert(ids@.take(ids@.len() as int) =~= ids@);
    r
}

} // verus!
