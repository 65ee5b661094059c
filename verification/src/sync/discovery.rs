//! Discovery on the LAN over mDNS: the names a host publishes, and how a
//! phone recognises the host it paired with. The host publishes its public
//! key in hex in the `id` TXT entry; the phone matches on that.
use vstd::prelude::*;

use crate::hex::{hex_lower, hex_string};
use crate::model::DeviceId;
use crate::strutil::{chars_of, string_of};
use crate::sync::merge::arr32;

verus! {

/// The value of a lower-case hex digit.
pub open spec fn lower_hex_value(c: char) -> Option<int> {
    if '0' <= c && c <= '9' {
        Some(c as int - 48)
    } else if 'a' <= c && c <= 'f' {
        Some(c as int - 87)
    } else {
        None
    }
}

/// Lower-case hex read back: an even number of lower-case hex digits, two
/// per byte, high nibble first; anything else is refused.
pub open spec fn lower_hex_decoded(s: Seq<char>) -> Option<Seq<u8>> {
    if s.len() % 2 == 0 && forall|i: int| 0 <= i < s.len() ==> (#[trigger] lower_hex_value(s[i])) is Some {
        Some(Seq::new(s.len() / 2, |i: int| (16 * lower_hex_value(s[2 * i])->0 + lower_hex_value(s[2 * i + 1])->0) as u8))
    } else {
        None
    }
}

fn lower_digit(c: char) -> (r: Option<u8>)
    ensures
        match lower_hex_value(c) {
            Some(v) => r == Some(v as u8) && 0 <= v < 16,
            None => r is None,
        },
{
    if '0' <= c && c <= '9' {
        Some((c as u32 - 48) as u8)
    } else if 'a' <= c && c <= 'f' {
        Some((c as u32 - 87) as u8)
    } else {
        None
    }
}

/// The bytes that lower-case hex stands for; `None` for an odd length or
/// any char that is not `0-9a-f`.
pub fn decode_lower_hex(s: &str) -> (r: Option<Vec<u8>>)
    ensures
        match lower_hex_decoded(s@) {
            Some(b) => r is Some && r->0@ == b,
            None => r is None,
        },
{
    let cs = chars_of(s);
    if cs.len() % 2 != 0 {
        return None;
    }
    let half = cs.len() / 2;
    let mut out: Vec<u8> = Vec::new();
    let mut i: usize = 0;
    while i < half
        invariant
            cs@ == s@,
            cs@.len() % 2 == 0,
            half == cs@.len() / 2,
            i <= half,
            out@.len() == i,
            forall|j: int| 0 <= j < 2 * i ==> (#[trigger] lower_hex_value(cs@[j])) is Some,
            forall|j: int| 0 <= j < i ==> out@[j] == (16 * lower_hex_value(cs@[2 * j])->0
                + lower_hex_value(cs@[2 * j + 1])->0) as u8,
        decreases half - i,
    {
        match (lower_digit(cs[2 * i]), lower_digit(cs[2 * i + 1])) {
            (Some(x), Some(y)) => {
                out.push(16 * x + y);
            },
            _ => {
                assert(!(lower_hex_value(cs@[2 * i as int]) is Some && lower_hex_value(cs@[2 * i as int + 1]) is Some));
                return None;
            },
        }
        i += 1;
    }
    assert(out@ =~= Seq::new(s@.len() / 2, |j: int| (16 * lower_hex_value(s@[2 * j])->0 + lower_hex_value(s@[2 * j + 1])->0) as u8));
    Some(out)
}

/// Reading back lower-case hex gives the bytes again.
pub proof fn lemma_lower_hex_roundtrip(b: Seq<u8>)
    ensures
        lower_hex_decoded(hex_lower(b)) == Some(b),
{
    let s = hex_lower(b);
    assert forall|i: int| 0 <= i < s.len() implies (#[trigger] lower_hex_value(s[i])) is Some by {
        let n = if i % 2 == 0 { b[i / 2] as int / 16 } else { b[i / 2] as int % 16 };
        let c = s[i];
        if n < 10 {
            assert(c as int == 48 + n);
        } else {
            assert(c as int == 87 + n);
        }
    }
    assert forall|i: int| 0 <= i < b.len() implies (16 * lower_hex_value(s[2 * i])->0 + lower_hex_value(s[2 * i + 1])->0) as u8 == b[i] by {
        let hi = b[i] as int / 16;
        let lo = b[i] as int % 16;
        let x = s[2 * i];
        let y = s[2 * i + 1];
        if hi < 10 {
            assert(x as int == 48 + hi);
        } else {
            assert(x as int == 87 + hi);
        }
        if lo < 10 {
            assert(y as int == 48 + lo);
        } else {
            assert(y as int == 87 + lo);
        }
    }
    assert(Seq::new(s.len() / 2, |i: int| (16 * lower_hex_value(s[2 * i])->0 + lower_hex_value(s[2 * i + 1])->0) as u8) =~= b);
}

/// The device a TXT `id` entry names: `None` unless it is the lower-case
/// hex of 32 bytes.
pub fn device_from_txt(id_hex: &str) -> (r: Option<DeviceId>)
    ensures
        match lower_hex_decoded(id_hex@) {
            Some(b) => if b.len() == 32 {
                r is Some && (r->0).0@ == b
            } else {
                r is None
            },
            None => r is None,
        },
{
    match decode_lower_hex(id_hex) {
        Some(raw) => match arr32(raw.as_slice()) {
            Some(key) => Some(DeviceId(key)),
            None => None,
        },
        None => None,
    }
}

/// The `id` TXT entry a host publishes: its public key in lower-case hex.
/// A phone that reads it back finds that same device.
pub fn txt_id(id: &DeviceId) -> (s: String)
    ensures
        s@ == hex_lower(id.0@),
        lower_hex_decoded(s@) == Some(id.0@),
{
    proof {
        lemma_lower_hex_roundtrip(id.0@);
    }
    hex_string(id.0.as_slice())
}

/// The mDNS instance name (the first 16 hex digits of the key) and host
/// name (`yasmine-` and the first 12 digits, under `.local.`) of a host.
pub fn advert_names(id: &DeviceId) -> (r: (String, String))
    ensures
        r.0@ == hex_lower(id.0@).take(16),
        r.1@ == seq!['y', 'a', 's', 'm', 'i', 'n', 'e', '-'] + hex_lower(id.0@).take(12) + seq!['.', 'l', 'o', 'c', 'a', 'l', '.'],
{
    let hex = chars_of(hex_string(id.0.as_slice()).as_str());
    let mut instance: Vec<char> = Vec::new();
    let mut i: usize = 0;
    while i < 16
        invariant
            hex@.len() == 64,
            i <= 16,
            instance@ == hex@.take(i as int),
        decreases 16 - i,
    {
        instance.push(hex[i]);
        i += 1;
        assert(instance@ =~= hex@.take(i as int));
    }
    let mut host: Vec<char> = vec!['y', 'a', 's', 'm', 'i', 'n', 'e', '-'];
    let ghost head = host@;
    let mut j: usize = 0;
    while j < 12
        invariant
            hex@.len() == 64,
            j <= 12,
            host@ == head + hex@.take(j as int),
        decreases 12 - j,
    {
        host.push(hex[j]);
        j += 1;
        assert(host@ =~= head + hex@.take(j as int));
    }
    let ghost mid = host@;
    host.push('.');
    host.push('l');
    host.push('o');
    host.push('c');
    host.push('a');
    host.push('l');
    host.push('.');
    assert(head =~= seq!['y', 'a', 's', 'm', 'i', 'n', 'e', '-']);
    assert(host@ =~= mid + seq!['.', 'l', 'o', 'c', 'a', 'l', '.']);
    (string_of(&instance), string_of(&host))
}

} // verus!
