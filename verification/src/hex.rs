//! Lower-case hex for 32-byte hashes: the key of a cover in the thumbnail
//! cache and what goes in the `art://…/<hex>/<size>` URL.
use vstd::prelude::*;

use crate::strutil::{ascii_alnum, chars_of, is_whitespace, string_of, white_space};

verus! {

/// The hex digit of a nibble, `0-9a-f`.
pub open spec fn nibble_char(n: int) -> char {
    if n < 10 {
        (48 + n) as char
    } else {
        (87 + n) as char
    }
}

/// Two lower-case hex digits per byte, high nibble first.
pub open spec fn hex_lower(bytes: Seq<u8>) -> Seq<char> {
    Seq::new(
        2 * bytes.len(),
        |i: int|
            if i % 2 == 0 {
                nibble_char(bytes[i / 2] as int / 16)
            } else {
                nibble_char(bytes[i / 2] as int % 16)
            },
    )
}

/// `s` without its leading White_Space chars.
pub open spec fn trim_start(s: Seq<char>) -> Seq<char>
    decreases s.len(),
{
    if s.len() > 0 && white_space(s[0]) {
        trim_start(s.drop_first())
    } else {
        s
    }
}

/// `s` without its trailing White_Space chars.
pub open spec fn trim_end(s: Seq<char>) -> Seq<char>
    decreases s.len(),
{
    if s.len() > 0 && white_space(s.last()) {
        trim_end(s.drop_last())
    } else {
        s
    }
}

/// What `str::trim` leaves of `s`.
pub open spec fn trim(s: Seq<char>) -> Seq<char> {
    trim_end(trim_start(s))
}

/// The value of one hex digit, either case.
pub open spec fn hex_value(c: char) -> Option<int> {
    if '0' <= c && c <= '9' {
        Some(c as int - 48)
    } else if 'a' <= c && c <= 'f' {
        Some(c as int - 87)
    } else if 'A' <= c && c <= 'F' {
        Some(c as int - 55)
    } else {
        None
    }
}

/// The byte that two hex digits spell, high nibble first; `None` unless
/// both are hex digits.
pub open spec fn pair_value(a: char, b: char) -> Option<u8> {
    match (hex_value(a), hex_value(b)) {
        (Some(x), Some(y)) => Some((16 * x + y) as u8),
        _ => None,
    }
}

/// Exactly 64 hex digits, nothing else.
pub open spec fn hex_digits_only(s: Seq<char>) -> bool {
    s.len() == 64 && forall|i: int| 0 <= i < 64 ==> (#[trigger] hex_value(s[i])) is Some
}

/// The bytes that 64 hex digits read two at a time spell.
pub open spec fn pairs_bytes(s: Seq<char>) -> Seq<u8> {
    Seq::new(32, |i: int| pair_value(s[2 * i], s[2 * i + 1])->0)
}

/// What `encode` writes, `decode` reads back: the hex of a hash is made of
/// hex digits only, and reading them two at a time gives the hash again.
pub proof fn lemma_hex_roundtrip(h: Seq<u8>)
    requires
        h.len() == 32,
    ensures
        hex_digits_only(hex_lower(h)),
        pairs_bytes(hex_lower(h)) == h,
{
    let s = hex_lower(h);
    assert forall|i: int| 0 <= i < 64 implies (#[trigger] hex_value(s[i])) is Some by {
        let n = if i % 2 == 0 { h[i / 2] as int / 16 } else { h[i / 2] as int % 16 };
        assert(0 <= n < 16);
        let c = nibble_char(n);
        if n < 10 {
            assert(c as int == 48 + n);
        } else {
            assert(c as int == 87 + n);
        }
    }
    assert forall|i: int| 0 <= i < 32 implies pairs_bytes(s)[i] == h[i] by {
        let hi = h[i] as int / 16;
        let lo = h[i] as int % 16;
        let a = s[2 * i];
        let b = s[2 * i + 1];
        assert(a == nibble_char(hi));
        assert(b == nibble_char(lo));
        if hi < 10 {
            assert(a as int == 48 + hi);
        } else {
            assert(a as int == 87 + hi);
        }
        if lo < 10 {
            assert(b as int == 48 + lo);
        } else {
            assert(b as int == 87 + lo);
        }
        assert(hex_value(a) == Some(hi));
        assert(hex_value(b) == Some(lo));
        assert((16 * hi + lo) as u8 == h[i]);
    }
    assert(pairs_bytes(s) =~= h);
}

/// The 32 bytes that a hex string stands for: once trimmed, exactly 64 hex
/// digits, read two at a time.
pub open spec fn hex_decode_spec(s: Seq<char>) -> Option<Seq<u8>> {
    let t = trim(s);
    if hex_digits_only(t) {
        Some(pairs_bytes(t))
    } else {
        None
    }
}

/// The hex of a hash reads back to the hash, on its own or with White_Space
/// around it (a space before, a newline after, as a line of text has).
pub proof fn lemma_hex_decode_roundtrip(h: Seq<u8>)
    requires
        h.len() == 32,
    ensures
        hex_decode_spec(hex_lower(h)) == Some(h),
        hex_decode_spec(seq![' '] + hex_lower(h) + seq!['\n']) == Some(h),
{
    lemma_hex_roundtrip(h);
    let x = hex_lower(h);
    assert(hex_value(x[0]) is Some);
    assert(hex_value(x[63]) is Some);
    assert(!white_space(x[0]));
    assert(!white_space(x.last()));
    assert(trim_start(x) == x);
    assert(trim_end(x) == x);
    assert(trim(x) == x);
    let p = seq![' '] + x + seq!['\n'];
    assert(p.drop_first() =~= x + seq!['\n']);
    assert((x + seq!['\n'])[0] == x[0]);
    assert(trim_start(x + seq!['\n']) == x + seq!['\n']);
    assert(trim_start(p) == x + seq!['\n']);
    assert((x + seq!['\n']).drop_last() =~= x);
    assert(trim_end(x + seq!['\n']) == x);
    assert(trim(p) == x);
}

fn nibble(n: u8) -> (c: char)
    requires
        n < 16,
    ensures
        c == nibble_char(n as int),
{
    if n < 10 {
        (48u8 + n) as char
    } else {
        (87u8 + n) as char
    }
}

/// The hex of `bytes` as chars.
pub fn hex_chars(bytes: &[u8]) -> (v: Vec<char>)
    ensures
        v@ == hex_lower(bytes@),
{
    let mut v: Vec<char> = Vec::new();
    let mut i: usize = 0;
    while i < bytes.len()
        invariant
            i <= bytes@.len(),
            v@.len() == 2 * i,
            forall|j: int| 0 <= j < 2 * i ==> v@[j] == #[trigger] hex_lower(bytes@)[j],
        decreases bytes.len() - i,
    {
        let b = bytes[i];
        v.push(nibble(b / 16));
        v.push(nibble(b % 16));
        i += 1;
    }
    assert(v@ =~= hex_lower(bytes@));
    v
}

/// Lower-case hex of a 32-byte hash, 64 chars.
pub fn encode(hash: &[u8; 32]) -> (s: String)
    ensures
        s@ == hex_lower(hash@),
        s@.len() == 64,
{
    let v = hex_chars(hash.as_slice());
    string_of(&v)
}

/// Lower-case hex of any bytes, two chars per byte.
pub fn hex_string(bytes: &[u8]) -> (s: String)
    ensures
        s@ == hex_lower(bytes@),
{
    let v = hex_chars(bytes);
    string_of(&v)
}

fn hex_digit_value(c: char) -> (r: Option<u8>)
    ensures
        match hex_value(c) {
            Some(v) => r == Some(v as u8),
            None => r is None,
        },
{
    if '0' <= c && c <= '9' {
        Some((c as u32 - 48) as u8)
    } else if 'a' <= c && c <= 'f' {
        Some((c as u32 - 87) as u8)
    } else if 'A' <= c && c <= 'F' {
        Some((c as u32 - 55) as u8)
    } else {
        None
    }
}

fn parse_pair(a: char, b: char) -> (r: Option<u8>)
    ensures
        r == pair_value(a, b),
{
    match (hex_digit_value(a), hex_digit_value(b)) {
        (Some(x), Some(y)) => Some(16 * x + y),
        _ => None,
    }
}

/// The chars of `s` without the White_Space at either end. Nothing is cut
/// when both ends are ASCII letters or digits.
pub fn trim_chars(s: &Vec<char>) -> (t: Vec<char>)
    ensures
        t@ == trim(s@),
        s@.len() > 0 && ascii_alnum(s@[0]) && ascii_alnum(s@.last()) ==> trim(s@) == s@,
{
    let mut lo: usize = 0;
    assert(s@.subrange(0, s@.len() as int) =~= s@);
    while lo < s.len() && is_whitespace(s[lo])
        invariant
            lo <= s@.len(),
            trim_start(s@.subrange(lo as int, s@.len() as int)) == trim_start(s@),
            s@.len() > 0 && ascii_alnum(s@[0]) ==> lo == 0,
        decreases s.len() - lo,
    {
        let ghost rest = s@.subrange(lo as int, s@.len() as int);
        assert(rest.drop_first() =~= s@.subrange(lo + 1, s@.len() as int));
        lo += 1;
    }
    let ghost front = s@.subrange(lo as int, s@.len() as int);
    let mut hi: usize = s.len();
    while hi > lo && is_whitespace(s[hi - 1])
        invariant
            lo <= hi <= s@.len(),
            front == s@.subrange(lo as int, s@.len() as int),
            trim_start(front) == front,
            trim_end(s@.subrange(lo as int, hi as int)) == trim_end(front),
            s@.len() > 0 && ascii_alnum(s@[0]) ==> lo == 0,
            s@.len() > 0 && ascii_alnum(s@.last()) && lo < s@.len() ==> hi == s@.len(),
        decreases hi - lo,
    {
        let ghost mid = s@.subrange(lo as int, hi as int);
        assert(mid.drop_last() =~= s@.subrange(lo as int, hi - 1));
        hi -= 1;
    }
    let mut t: Vec<char> = Vec::new();
    let mut i: usize = lo;
    while i < hi
        invariant
            lo <= i <= hi <= s@.len(),
            t@ == s@.subrange(lo as int, i as int),
        decreases hi - i,
    {
        t.push(s[i]);
        i += 1;
        assert(t@ =~= s@.subrange(lo as int, i as int));
    }
    t
}

/// The hash that a 64-char hex string stands for; surrounding White_Space
/// is ignored, either case is accepted. `None` for anything else.
pub fn decode(hex: &str) -> (r: Option<[u8; 32]>)
    ensures
        match hex_decode_spec(hex@) {
            Some(bytes) => r is Some && r->0@ == bytes,
            None => r is None,
        },
        hex_digits_only(hex@) ==> r is Some && r->0@ == pairs_bytes(hex@),
{
    let cs = chars_of(hex);
    let t = trim_chars(&cs);
    proof {
        if hex_digits_only(hex@) {
            assert(hex_value(hex@[0]) is Some);
            assert(hex_value(hex@[63]) is Some);
            assert(trim(hex@) == hex@);
        }
    }
    if t.len() != 64 {
        return None;
    }
    let mut out = [0u8; 32];
    let mut i: usize = 0;
    while i < 32
        invariant
            t@ == trim(hex@),
            t@.len() == 64,
            hex_digits_only(hex@) ==> trim(hex@) == hex@,
            i <= 32,
            out@.len() == 32,
            forall|j: int| 0 <= j < 2 * i ==> (#[trigger] hex_value(t@[j])) is Some,
            forall|j: int| 0 <= j < i ==> out@[j] == #[trigger] pairs_bytes(t@)[j],
        decreases 32 - i,
    {
        match parse_pair(t[2 * i], t[2 * i + 1]) {
            Some(b) => {
                out[i] = b;
            },
            None => {
                assert(!hex_digits_only(t@)) by {
                    if hex_digits_only(t@) {
                        assert(hex_value(t@[2 * i as int]) is Some);
                        assert(hex_value(t@[2 * i as int + 1]) is Some);
                    }
                }
                return None;
            },
        }
        i += 1;
    }
    assert(hex_digits_only(t@));
    assert(out@ =~= pairs_bytes(t@));
    Some(out)
}

} // verus!
