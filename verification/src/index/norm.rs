//! Text folding for deduplication keys. Only for grouping, never for
//! display: the user always sees the name from the tag.
use vstd::prelude::*;

use unicode_normalization::char::is_combining_mark;
use unicode_normalization::UnicodeNormalization;

use crate::strutil::{chars_of, is_whitespace, lowercase, push_range, string_of, to_lowercase, white_space};

verus! {

/// The canonical decomposition (NFD) of `s`.
pub uninterp spec fn nfd(s: Seq<char>) -> Seq<char>;

/// Whether `c` is a combining mark (`General_Category=Mark`).
pub uninterp spec fn combining_mark(c: char) -> bool;

/// Trusted: `UnicodeNormalization::nfd` (unicode-normalization) on a `&str`,
/// collected in order; the decomposition is named, not spelled out.
#[verifier::external_body]
fn nfd_chars(s: &str) -> (r: Vec<char>)
    ensures
        r@ == nfd(s@),
{
    s.nfd().collect()
}

/// Trusted: `unicode_normalization::char::is_combining_mark`, named.
#[verifier::external_body]
fn is_mark(c: char) -> (r: bool)
    ensures
        r == combining_mark(c),
{
    is_combining_mark(c)
}

/// Folding state: the output so far and whether a space is owed before the
/// next text.
pub open spec fn fold_chars(cs: Seq<char>) -> (Seq<char>, bool)
    decreases cs.len(),
{
    if cs.len() == 0 {
        (Seq::empty(), false)
    } else {
        let (out, pending) = fold_chars(cs.drop_last());
        let c = cs.last();
        if combining_mark(c) {
            (out, pending)
        } else if white_space(c) {
            (out, out.len() > 0)
        } else if pending {
            (out + seq![' '] + lowercase(c), false)
        } else {
            (out + lowercase(c), false)
        }
    }
}

pub open spec fn fold_key_spec(s: Seq<char>) -> Seq<char> {
    fold_chars(nfd(s)).0
}

/// Folds a name into a stable key: lower case, no accents, runs of spaces
/// collapsed, no leading or trailing space.
pub fn fold_key(s: &str) -> (r: String)
    ensures
        r@ == fold_key_spec(s@),
{
    let cs = nfd_chars(s);
    fold_decomposed(&cs)
}

/// The fold of chars already in canonical decomposition: combining marks
/// dropped, White_Space runs collapsed into one space between words, the
/// rest lower-cased.
pub fn fold_decomposed(cs: &Vec<char>) -> (r: String)
    ensures
        r@ == fold_chars(cs@).0,
{
    let mut out: Vec<char> = Vec::new();
    let mut pending_space = false;
    let mut i: usize = 0;
    while i < cs.len()
        invariant
            i <= cs.len(),
            (out@, pending_space) == fold_chars(cs@.take(i as int)),
        decreases cs.len() - i,
    {
        let c = cs[i];
        proof {
            assert(cs@.take(i + 1).drop_last() =~= cs@.take(i as int));
        }
        if is_mark(c) {
        } else if is_whitespace(c) {
            pending_space = out.len() > 0;
        } else {
            if pending_space {
                out.push(' ');
                pending_space = false;
            }
            let lower = to_lowercase(c);
            push_range(&mut out, &lower, 0, lower.len());
            assert(lower@.subrange(0, lower@.len() as int) =~= lower@);
        }
        i += 1;
    }
    assert(cs@.take(cs.len() as int) =~= cs@);
    string_of(&out)
}

/// Separator of the fields of a compound key; U+001F does not occur in tags.
pub const FIELD_SEP: char = '\u{1f}';

pub open spec fn album_key_spec(album_artist: Option<Seq<char>>, title: Seq<char>) -> Seq<char> {
    let artist = match album_artist {
        Some(a) => fold_key_spec(a),
        None => Seq::empty(),
    };
    artist + seq![FIELD_SEP] + fold_key_spec(title)
}

/// Unique key of an album: the artist is part of it, since same-named
/// albums of different artists must not collapse.
pub fn album_key(album_artist: Option<&str>, title: &str) -> (r: String)
    ensures
        r@ == album_key_spec(
            match album_artist {
                Some(a) => Some(a@),
                None => None,
            },
            title@,
        ),
{
    let artist: Vec<char> = match album_artist {
        Some(a) => {
            let f = fold_key(a);
            chars_of(f.as_str())
        },
        None => Vec::new(),
    };
    let mut key: Vec<char> = Vec::new();
    push_range(&mut key, &artist, 0, artist.len());
    key.push(FIELD_SEP);
    let t = fold_key(title);
    let tc = chars_of(t.as_str());
    push_range(&mut key, &tc, 0, tc.len());
    assert(artist@.subrange(0, artist@.len() as int) =~= artist@);
    assert(tc@.subrange(0, tc@.len() as int) =~= tc@);
    string_of(&key)
}

/// The artist part of an album key: the folded artist, empty without one.
pub open spec fn artist_fold(album_artist: Option<Seq<char>>) -> Seq<char> {
    match album_artist {
        Some(a) => fold_key_spec(a),
        None => Seq::empty(),
    }
}

/// Two albums share a key exactly when their folded artists and their
/// folded titles are equal, as long as no folded artist holds the field
/// separator.
pub proof fn lemma_album_key_injective(a1: Option<Seq<char>>, t1: Seq<char>, a2: Option<Seq<char>>, t2: Seq<char>)
    requires
        !artist_fold(a1).contains(FIELD_SEP),
        !artist_fold(a2).contains(FIELD_SEP),
    ensures
        album_key_spec(a1, t1) == album_key_spec(a2, t2) <==> (artist_fold(a1) == artist_fold(a2)
            && fold_key_spec(t1) == fold_key_spec(t2)),
{
    let x1 = artist_fold(a1);
    let x2 = artist_fold(a2);
    let y1 = fold_key_spec(t1);
    let y2 = fold_key_spec(t2);
    let k1 = x1 + seq![FIELD_SEP] + y1;
    let k2 = x2 + seq![FIELD_SEP] + y2;
    assert(album_key_spec(a1, t1) == k1);
    assert(album_key_spec(a2, t2) == k2);
    if k1 == k2 {
        assert(k1[x1.len() as int] == FIELD_SEP);
        assert(k2[x2.len() as int] == FIELD_SEP);
        if x1.len() < x2.len() {
            assert(k2[x1.len() as int] == x2[x1.len() as int]);
            assert(x2.contains(FIELD_SEP));
        }
        if x2.len() < x1.len() {
            assert(k1[x2.len() as int] == x1[x2.len() as int]);
            assert(x1.contains(FIELD_SEP));
        }
        assert(x1.len() == x2.len());
        assert(x1 =~= k1.take(x1.len() as int));
        assert(x2 =~= k2.take(x2.len() as int));
        assert(y1 =~= k1.skip(x1.len() as int + 1));
        assert(y2 =~= k2.skip(x2.len() as int + 1));
    }
}

} // verus!
