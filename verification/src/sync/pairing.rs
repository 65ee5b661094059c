//! The payload of the pairing QR code.
//!
//! The QR carries the host's **static Noise public key** (which is its
//! `DeviceId`) and, optionally, `host:port` so the first contact can skip
//! mDNS on a network that blocks multicast. The key always goes; the address
//! is a hint.
//!
//! Format: `yasmine://pair?k=<base64url>&h=<host>&p=<port>&n=<name>`
use vstd::prelude::*;

use data_encoding::BASE64URL_NOPAD;

use crate::model::DeviceId;
use crate::strutil::{chars_of, decimal, decimal_chars, opt_view, string_of};
use crate::sync::merge::arr32;

verus! {

// ---------------------------------------------------------------------------
// base64url without padding
// ---------------------------------------------------------------------------

/// The symbol of a 6-bit value in the base64url alphabet.
pub open spec fn b64_symbol(v: int) -> char {
    if v < 26 {
        (65 + v) as char
    } else if v < 52 {
        (97 + v - 26) as char
    } else if v < 62 {
        (48 + v - 52) as char
    } else if v == 62 {
        '-'
    } else {
        '_'
    }
}

/// Byte `i` of `b`, zero past its end.
pub open spec fn byte_or_zero(b: Seq<u8>, i: int) -> int {
    if i < b.len() {
        b[i] as int
    } else {
        0
    }
}

/// The 24-bit value of the `j`-th group of three bytes.
pub open spec fn b64_group(b: Seq<u8>, j: int) -> int {
    byte_or_zero(b, 3 * j) * 65536 + byte_or_zero(b, 3 * j + 1) * 256 + byte_or_zero(b, 3 * j + 2)
}

/// RFC 4648 base64url of `b` without padding: six bits per symbol, the last
/// symbol filled with zero bits, `ceil(8 * len / 6)` symbols.
pub open spec fn base64url(b: Seq<u8>) -> Seq<char> {
    Seq::new(
        ((8 * b.len() + 5) / 6) as nat,
        |i: int|
            {
                let g = b64_group(b, i / 4);
                let r = i % 4;
                b64_symbol(
                    if r == 0 {
                        g / 262144
                    } else if r == 1 {
                        (g / 4096) % 64
                    } else if r == 2 {
                        (g / 64) % 64
                    } else {
                        g % 64
                    },
                )
            },
    )
}

/// The bytes that `BASE64URL_NOPAD` decodes `s` to: the bytes whose
/// encoding `s` is; `None` where `s` is the encoding of no bytes. The
/// decoder takes exactly the encodings: symbols of the alphabet only, no
/// padding, a length that is not 1 modulo 4, and zero bits left over in
/// the last symbol (`check_trailing_bits`).
pub open spec fn base64url_decoded(s: Seq<char>) -> Option<Seq<u8>> {
    if exists|b: Seq<u8>| base64url(b) == s {
        Some(choose|b: Seq<u8>| base64url(b) == s)
    } else {
        None
    }
}

/// Trusted: `data_encoding::BASE64URL_NOPAD.encode` on a 32-byte key. Its
/// result is the RFC 4648 base64url alphabet without padding; the crate
/// documents that decoding what it encoded gives the data back. Only keys
/// pass here, far below the length at which `encode_len` asserts.
#[verifier::external_body]
pub(crate) fn b64url_encode(key: &[u8; 32]) -> (s: String)
    ensures
        s@ == base64url(key@),
        base64url_decoded(s@) == Some(key@),
{
    BASE64URL_NOPAD.encode(key)
}

/// Trusted: `data_encoding::BASE64URL_NOPAD.decode` on the bytes of `s`;
/// its error is turned into `None`. It gives back the bytes whose encoding
/// `s` is, and refuses anything else (see [`base64url_decoded`]).
/// `decode_len` asserts that the input has at most `usize::MAX / 8` bytes;
/// a char takes at most 4 bytes, hence the bound on the chars.
#[verifier::external_body]
pub(crate) fn b64url_decode(s: &str) -> (r: Option<Vec<u8>>)
    requires
        s@.len() <= usize::MAX / 32,
    ensures
        match base64url_decoded(s@) {
            Some(b) => r is Some && r->0@ == b,
            None => r is None,
        },
{
    BASE64URL_NOPAD.decode(s.as_bytes()).ok()
}

// ---------------------------------------------------------------------------
// application/x-www-form-urlencoded
// ---------------------------------------------------------------------------

pub open spec fn pairs_view(ps: Seq<(String, String)>) -> Seq<(Seq<char>, Seq<char>)> {
    ps.map_values(|p: (String, String)| (p.0@, p.1@))
}

/// The query string that `form_urlencoded::Serializer` builds from `ps`.
pub uninterp spec fn urlencoded(ps: Seq<(Seq<char>, Seq<char>)>) -> Seq<char>;

/// The `(name, value)` pairs that `form_urlencoded::parse` reads in `q`.
pub uninterp spec fn url_pairs(q: Seq<char>) -> Seq<(Seq<char>, Seq<char>)>;

/// Trusted: a `form_urlencoded::Serializer` on an empty `String` with
/// `append_pair` for each pair, in order, then `finish`. Names and values
/// are percent-encoded so that neither holds `&` nor `=`, and `parse`
/// decodes them back: parsing the result gives the pairs again.
#[verifier::external_body]
fn urlencode_pairs(pairs: &Vec<(String, String)>) -> (q: String)
    ensures
        q@ == urlencoded(pairs_view(pairs@)),
        url_pairs(q@) == pairs_view(pairs@),
{
    let mut s = form_urlencoded::Serializer::new(String::new());
    for (k, v) in pairs {
        s.append_pair(k, v);
    }
    s.finish()
}

/// Trusted: `form_urlencoded::parse` on the bytes of `q`, each pair made
/// owned. The pairs are named, not spelled out. A value is the decoding of
/// a piece of `q`: `+` becomes a space, `%xx` one byte, and the lossy UTF-8
/// step gives at most one char per char of that piece, so no value is
/// longer than `q`.
#[verifier::external_body]
fn parse_pairs(q: &str) -> (r: Vec<(String, String)>)
    ensures
        pairs_view(r@) == url_pairs(q@),
        forall|i: int| 0 <= i < r@.len() ==> (#[trigger] r@[i]).1@.len() <= q@.len(),
{
    form_urlencoded::parse(q.as_bytes()).into_owned().collect()
}

// ---------------------------------------------------------------------------
// Port numbers
// ---------------------------------------------------------------------------

pub open spec fn is_digit(c: char) -> bool {
    '0' <= c && c <= '9'
}

pub open spec fn all_digits(s: Seq<char>) -> bool {
    forall|i: int| 0 <= i < s.len() ==> is_digit(#[trigger] s[i])
}

pub open spec fn digits_value(s: Seq<char>) -> nat
    decreases s.len(),
{
    if s.len() == 0 {
        0
    } else {
        digits_value(s.drop_last()) * 10 + (s.last() as nat - 48) as nat
    }
}

/// What `str::parse::<u16>` accepts: an optional `+`, then at least one
/// decimal digit, the value fitting in 16 bits.
pub open spec fn parse_u16_spec(s: Seq<char>) -> Option<u16> {
    let d = if s.len() > 0 && s[0] == '+' {
        s.drop_first()
    } else {
        s
    };
    if d.len() > 0 && all_digits(d) && digits_value(d) <= 65535 {
        Some(digits_value(d) as u16)
    } else {
        None
    }
}

proof fn lemma_digits_grow(s: Seq<char>, i: int)
    requires
        0 <= i <= s.len(),
        all_digits(s),
    ensures
        digits_value(s.subrange(0, i)) <= digits_value(s),
    decreases s.len() - i,
{
    if i < s.len() {
        lemma_digits_grow(s, i + 1);
        assert(s.subrange(0, i + 1).drop_last() =~= s.subrange(0, i));
    } else {
        assert(s.subrange(0, i) =~= s);
    }
}

/// The decimal spelling of a number reads back as that number.
pub proof fn lemma_decimal_digits(n: nat)
    ensures
        all_digits(decimal(n)),
        digits_value(decimal(n)) == n,
        decimal(n).len() > 0,
        decimal(n)[0] != '+',
    decreases n,
{
    let c = ('0' as int + n % 10) as char;
    assert(c as int == 48 + n % 10);
    if n >= 10 {
        lemma_decimal_digits(n / 10);
        assert(decimal(n).drop_last() =~= decimal(n / 10));
        assert(decimal(n)[0] == decimal(n / 10)[0]);
        assert(decimal(n).last() == c);
        assert(all_digits(decimal(n))) by {
            assert forall|i: int| 0 <= i < decimal(n).len() implies is_digit(#[trigger] decimal(n)[i]) by {
                if i < decimal(n).len() - 1 {
                    assert(decimal(n)[i] == decimal(n / 10)[i]);
                }
            }
        }
    } else {
        assert(decimal(n) =~= seq![c]);
        assert(decimal(n).drop_last() =~= Seq::<char>::empty());
        assert(digits_value(Seq::<char>::empty()) == 0);
    }
    assert(digits_value(decimal(n)) == digits_value(decimal(n).drop_last()) * 10 + (decimal(n).last() as nat - 48) as nat);
}

/// `s` as a port number, as `str::parse::<u16>` reads it.
pub fn parse_u16(s: &Vec<char>) -> (r: Option<u16>)
    ensures
        r == parse_u16_spec(s@),
{
    let start: usize = if s.len() > 0 && s[0] == '+' {
        1
    } else {
        0
    };
    let ghost d = s@.subrange(start as int, s@.len() as int);
    proof {
        if start == 1 {
            assert(d =~= s@.drop_first());
        } else {
            assert(d =~= s@);
        }
    }
    if start == s.len() {
        return None;
    }
    let mut value: u32 = 0;
    let mut i: usize = start;
    while i < s.len()
        invariant
            start <= i <= s@.len(),
            d == s@.subrange(start as int, s@.len() as int),
            d == (if s@.len() > 0 && s@[0] == '+' {
                s@.drop_first()
            } else {
                s@
            }),
            value <= 65535,
            all_digits(d.subrange(0, i - start)),
            value == digits_value(d.subrange(0, i - start)),
        decreases s.len() - i,
    {
        let c = s[i];
        assert(d[i - start] == c);
        if !('0' <= c && c <= '9') {
            assert(!is_digit(d[i - start]));
            assert(!all_digits(d));
            return None;
        }
        let ghost pre = d.subrange(0, i - start);
        let ghost next = d.subrange(0, i - start + 1);
        assert(next.drop_last() =~= pre);
        let v = value * 10 + (c as u32 - 48);
        assert(next.last() == c);
        assert(digits_value(next) == v);
        if v > 65535 {
            proof {
                assert(all_digits(next)) by {
                    assert forall|j: int| 0 <= j < next.len() implies is_digit(#[trigger] next[j]) by {
                        if j < next.len() - 1 {
                            assert(next[j] == pre[j]);
                        }
                    }
                }
                if all_digits(d) {
                    lemma_digits_grow(d, i - start + 1);
                }
            }
            return None;
        }
        value = v;
        i += 1;
        assert(all_digits(d.subrange(0, i - start))) by {
            let cur = d.subrange(0, i - start);
            assert(cur =~= next);
            assert forall|j: int| 0 <= j < cur.len() implies is_digit(#[trigger] cur[j]) by {
                if j < cur.len() - 1 {
                    assert(cur[j] == pre[j]);
                }
            }
        }
    }
    assert(d.subrange(0, d.len() as int) =~= d);
    Some(value as u16)
}

// ---------------------------------------------------------------------------
// The payload
// ---------------------------------------------------------------------------

/// Why a pairing URL was refused.
#[derive(Debug, Clone, Copy, PartialEq, Eq, Structural)]
pub enum BadPairUrl {
    /// It does not start with `yasmine://pair?`.
    Scheme,
    /// `k` is not base64url.
    KeyNotBase64,
    /// `k` does not have 32 bytes.
    KeyLength,
    /// `p` is not a port.
    Port,
    /// There is no `k` (the key).
    MissingKey,
}

impl BadPairUrl {
    /// The message shown to the user.
    pub fn message(&self) -> (m: &'static str)
        ensures
            *self == BadPairUrl::Scheme ==> m@ == "não começa com yasmine://pair?"@,
            *self == BadPairUrl::KeyNotBase64 ==> m@ == "k não é base64url"@,
            *self == BadPairUrl::KeyLength ==> m@ == "k não tem 32 bytes"@,
            *self == BadPairUrl::Port ==> m@ == "p não é uma porta"@,
            *self == BadPairUrl::MissingKey ==> m@ == "falta k (a chave)"@,
    {
        match self {
            BadPairUrl::Scheme => "não começa com yasmine://pair?",
            BadPairUrl::KeyNotBase64 => "k não é base64url",
            BadPairUrl::KeyLength => "k não tem 32 bytes",
            BadPairUrl::Port => "p não é uma porta",
            BadPairUrl::MissingKey => "falta k (a chave)",
        }
    }
}

#[derive(Debug, Clone, PartialEq, Eq)]
pub struct PairPayload {
    /// Static Noise public key of the host = its `DeviceId`.
    pub key: [u8; 32],
    /// IP or host name of the host, when the QR wanted to skip mDNS.
    pub host: Option<String>,
    pub port: Option<u16>,
    /// Readable name, for the UI only.
    pub name: String,
}

/// The fields of a payload as plain values: key, host, port, name.
pub type PairFields = (Seq<u8>, Option<Seq<char>>, Option<u16>, Seq<char>);

pub open spec fn fields_of(p: PairPayload) -> PairFields {
    (p.key@, opt_view(p.host), p.port, p.name@)
}

/// The pairs that `to_url` puts in the query, in order.
pub open spec fn url_fields(f: PairFields) -> Seq<(Seq<char>, Seq<char>)> {
    let k = seq![(seq!['k'], base64url(f.0))];
    let h = match f.1 {
        Some(h) => seq![(seq!['h'], h)],
        None => Seq::empty(),
    };
    let p = match f.2 {
        Some(p) => seq![(seq!['p'], decimal(p as nat))],
        None => Seq::empty(),
    };
    let n = if f.3.len() > 0 {
        seq![(seq!['n'], f.3)]
    } else {
        Seq::empty()
    };
    k + h + p + n
}

pub open spec fn scheme() -> Seq<char> {
    seq!['y', 'a', 's', 'm', 'i', 'n', 'e', ':', '/', '/', 'p', 'a', 'i', 'r', '?']
}

pub open spec fn scheme_alt() -> Seq<char> {
    seq!['y', 'a', 's', 'm', 'i', 'n', 'e', ':', '/', '/', 'p', 'a', 'i', 'r', '/', '?']
}

/// Fields read so far: key (if any), host, port, name.
pub type PairScan = (Option<Seq<u8>>, Option<Seq<char>>, Option<u16>, Seq<char>);

/// One query pair applied to the fields read so far. Unknown names are
/// ignored; a repeated name overrides the earlier one.
pub open spec fn scan_step(st: PairScan, kv: (Seq<char>, Seq<char>)) -> Result<PairScan, BadPairUrl> {
    let (name, v) = kv;
    if name == seq!['k'] {
        match base64url_decoded(v) {
            None => Err(BadPairUrl::KeyNotBase64),
            Some(raw) => if raw.len() == 32 {
                Ok((Some(raw), st.1, st.2, st.3))
            } else {
                Err(BadPairUrl::KeyLength)
            },
        }
    } else if name == seq!['h'] {
        Ok((st.0, Some(v), st.2, st.3))
    } else if name == seq!['p'] {
        match parse_u16_spec(v) {
            None => Err(BadPairUrl::Port),
            Some(port) => Ok((st.0, st.1, Some(port), st.3)),
        }
    } else if name == seq!['n'] {
        Ok((st.0, st.1, st.2, v))
    } else {
        Ok(st)
    }
}

/// All pairs applied in order; the first refusal stops the scan.
pub open spec fn scan_pairs(ps: Seq<(Seq<char>, Seq<char>)>) -> Result<PairScan, BadPairUrl>
    decreases ps.len(),
{
    if ps.len() == 0 {
        Ok((None, None, None, Seq::empty()))
    } else {
        match scan_pairs(ps.drop_last()) {
            Err(e) => Err(e),
            Ok(st) => scan_step(st, ps.last()),
        }
    }
}

/// The query part of a pairing URL: what follows `yasmine://pair?` (or
/// `yasmine://pair/?`).
pub open spec fn pair_query(url: Seq<char>) -> Option<Seq<char>> {
    if scheme().is_prefix_of(url) {
        Some(url.skip(scheme().len() as int))
    } else if scheme_alt().is_prefix_of(url) {
        Some(url.skip(scheme_alt().len() as int))
    } else {
        None
    }
}

/// What the query's `(name, value)` pairs give: the fields they set, or
/// the first refusal.
pub open spec fn pairs_result(ps: Seq<(Seq<char>, Seq<char>)>) -> Result<PairFields, BadPairUrl> {
    match scan_pairs(ps) {
        Err(e) => Err(e),
        Ok(st) => match st.0 {
            None => Err(BadPairUrl::MissingKey),
            Some(k) => Ok((k, st.1, st.2, st.3)),
        },
    }
}

/// What `from_url` gives for `url`.
pub open spec fn from_url_spec(url: Seq<char>) -> Result<PairFields, BadPairUrl> {
    match pair_query(url) {
        None => Err(BadPairUrl::Scheme),
        Some(q) => pairs_result(url_pairs(q)),
    }
}

proof fn lemma_scan_append(ps: Seq<(Seq<char>, Seq<char>)>, kv: (Seq<char>, Seq<char>))
    ensures
        scan_pairs(ps.push(kv)) == (match scan_pairs(ps) {
            Err(e) => Err(e),
            Ok(st) => scan_step(st, kv),
        }),
{
    assert(ps.push(kv).drop_last() =~= ps);
}

/// Once a pair is refused, the pairs after it change nothing.
proof fn lemma_scan_err_sticky(ps: Seq<(Seq<char>, Seq<char>)>, i: int)
    requires
        0 <= i <= ps.len(),
        scan_pairs(ps.take(i)) is Err,
    ensures
        scan_pairs(ps) == scan_pairs(ps.take(i)),
    decreases ps.len() - i,
{
    if i < ps.len() {
        assert(ps.take(i + 1) =~= ps.take(i).push(ps[i]));
        lemma_scan_append(ps.take(i), ps[i]);
        lemma_scan_err_sticky(ps, i + 1);
    } else {
        assert(ps.take(i) =~= ps);
    }
}

/// Reading back the fields that `to_url` wrote gives the same fields.
proof fn lemma_scan_url_fields(f: PairFields)
    requires
        f.0.len() == 32,
        base64url_decoded(base64url(f.0)) == Some(f.0),
    ensures
        scan_pairs(url_fields(f)) == Ok::<PairScan, BadPairUrl>((Some(f.0), f.1, f.2, f.3)),
{
    let k = seq![(seq!['k'], base64url(f.0))];
    let h: Seq<(Seq<char>, Seq<char>)> = match f.1 {
        Some(h) => seq![(seq!['h'], h)],
        None => Seq::empty(),
    };
    let p: Seq<(Seq<char>, Seq<char>)> = match f.2 {
        Some(p) => seq![(seq!['p'], decimal(p as nat))],
        None => Seq::empty(),
    };
    let n: Seq<(Seq<char>, Seq<char>)> = if f.3.len() > 0 {
        seq![(seq!['n'], f.3)]
    } else {
        Seq::empty()
    };
    let e: Seq<(Seq<char>, Seq<char>)> = Seq::empty();
    lemma_scan_append(e, (seq!['k'], base64url(f.0)));
    assert(e.push((seq!['k'], base64url(f.0))) =~= k);
    assert(seq!['k'] != seq!['h']) by {
        assert(seq!['k'][0] != seq!['h'][0]);
    }
    assert(seq!['k'] != seq!['p']) by {
        assert(seq!['k'][0] != seq!['p'][0]);
    }
    assert(seq!['k'] != seq!['n']) by {
        assert(seq!['k'][0] != seq!['n'][0]);
    }
    assert(seq!['h'] != seq!['p']) by {
        assert(seq!['h'][0] != seq!['p'][0]);
    }
    assert(seq!['h'] != seq!['n']) by {
        assert(seq!['h'][0] != seq!['n'][0]);
    }
    assert(seq!['p'] != seq!['n']) by {
        assert(seq!['p'][0] != seq!['n'][0]);
    }
    assert(scan_pairs(k) == Ok::<PairScan, BadPairUrl>((Some(f.0), None, None, Seq::empty())));
    let kh = k + h;
    match f.1 {
        Some(hv) => {
            lemma_scan_append(k, (seq!['h'], hv));
            assert(k.push((seq!['h'], hv)) =~= kh);
        },
        None => {
            assert(kh =~= k);
        },
    }
    assert(scan_pairs(kh) == Ok::<PairScan, BadPairUrl>((Some(f.0), f.1, None, Seq::empty())));
    let khp = kh + p;
    match f.2 {
        Some(pv) => {
            lemma_decimal_digits(pv as nat);
            assert(parse_u16_spec(decimal(pv as nat)) == Some(pv));
            lemma_scan_append(kh, (seq!['p'], decimal(pv as nat)));
            assert(kh.push((seq!['p'], decimal(pv as nat))) =~= khp);
        },
        None => {
            assert(khp =~= kh);
        },
    }
    assert(scan_pairs(khp) == Ok::<PairScan, BadPairUrl>((Some(f.0), f.1, f.2, Seq::empty())));
    let all = khp + n;
    assert(all =~= url_fields(f));
    if f.3.len() > 0 {
        lemma_scan_append(khp, (seq!['n'], f.3));
        assert(khp.push((seq!['n'], f.3)) =~= all);
    } else {
        assert(all =~= khp);
        assert(f.3 =~= Seq::<char>::empty());
    }
}

fn is_name(v: &Vec<char>, c: char) -> (r: bool)
    ensures
        r == (v@ == seq![c]),
{
    if v.len() == 1 && v[0] == c {
        assert(v@ =~= seq![c]);
        true
    } else {
        proof {
            if v@ == seq![c] {
                assert(v@.len() == 1);
            }
        }
        false
    }
}

/// `v` without `prefix` in front, if it is there.
fn strip_prefix(v: &Vec<char>, prefix: &Vec<char>) -> (r: Option<Vec<char>>)
    ensures
        prefix@.is_prefix_of(v@) ==> r is Some && r->0@ == v@.skip(prefix@.len() as int),
        !prefix@.is_prefix_of(v@) ==> r is None,
{
    if prefix.len() > v.len() {
        return None;
    }
    let mut i: usize = 0;
    while i < prefix.len()
        invariant
            prefix@.len() <= v@.len(),
            i <= prefix@.len(),
            forall|j: int| 0 <= j < i ==> prefix@[j] == v@[j],
        decreases prefix.len() - i,
    {
        if prefix[i] != v[i] {
            return None;
        }
        i += 1;
    }
    assert(prefix@ =~= v@.subrange(0, prefix@.len() as int));
    let mut rest: Vec<char> = Vec::new();
    let mut j: usize = prefix.len();
    while j < v.len()
        invariant
            prefix@.len() <= j <= v@.len(),
            rest@ == v@.subrange(prefix@.len() as int, j as int),
        decreases v.len() - j,
    {
        rest.push(v[j]);
        j += 1;
        assert(rest@ =~= v@.subrange(prefix@.len() as int, j as int));
    }
    Some(rest)
}

fn scheme_chars() -> (v: Vec<char>)
    ensures
        v@ == scheme(),
{
    let v = vec!['y', 'a', 's', 'm', 'i', 'n', 'e', ':', '/', '/', 'p', 'a', 'i', 'r', '?'];
    assert(v@ =~= scheme());
    v
}

fn scheme_alt_chars() -> (v: Vec<char>)
    ensures
        v@ == scheme_alt(),
{
    let v = vec!['y', 'a', 's', 'm', 'i', 'n', 'e', ':', '/', '/', 'p', 'a', 'i', 'r', '/', '?'];
    assert(v@ =~= scheme_alt());
    v
}

fn name_string(c: char) -> (s: String)
    ensures
        s@ == seq![c],
{
    let v = vec![c];
    assert(v@ =~= seq![c]);
    string_of(&v)
}

impl PairPayload {
    pub fn device_id(&self) -> (d: DeviceId)
        ensures
            d.0 == self.key,
    {
        DeviceId(self.key)
    }

    /// `host:port` of the explicit address the QR carried, when it carried
    /// both; only a literal IP resolves from it, a host name is left to
    /// mDNS or DNS.
    pub fn addr_text(&self) -> (r: Option<String>)
        ensures
            match (self.host, self.port) {
                (Some(h), Some(p)) => r is Some && r->0@ == h@ + seq![':'] + decimal(p as nat),
                _ => r is None,
            },
    {
        match (&self.host, self.port) {
            (Some(h), Some(p)) => {
                let mut v = chars_of(h.as_str());
                v.push(':');
                let d = decimal_chars(p as u64);
                let ghost before = v@;
                let mut i: usize = 0;
                while i < d.len()
                    invariant
                        i <= d@.len(),
                        v@ == before + d@.subrange(0, i as int),
                    decreases d.len() - i,
                {
                    v.push(d[i]);
                    i += 1;
                    assert(v@ =~= before + d@.subrange(0, i as int));
                }
                assert(d@.subrange(0, d@.len() as int) =~= d@);
                Some(string_of(&v))
            },
            _ => None,
        }
    }

    /// `yasmine://pair?` followed by the query: the key, then the host, the
    /// port and the name where there are any. Reading it back with
    /// [`PairPayload::from_url`] gives this payload again.
    pub fn to_url(&self) -> (url: String)
        ensures
            url@ == scheme() + urlencoded(url_fields(fields_of(*self))),
            from_url_spec(url@) == Ok::<PairFields, BadPairUrl>(fields_of(*self)),
    {
        let mut pairs: Vec<(String, String)> = Vec::new();
        pairs.push((name_string('k'), b64url_encode(&self.key)));
        match &self.host {
            Some(h) => pairs.push((name_string('h'), h.clone())),
            None => {},
        }
        match self.port {
            Some(p) => {
                let digits = decimal_chars(p as u64);
                pairs.push((name_string('p'), string_of(&digits)));
            },
            None => {},
        }
        if !self.name.as_str().is_empty() {
            pairs.push((name_string('n'), self.name.clone()));
        }
        let ghost f = fields_of(*self);
        assert(pairs_view(pairs@) =~= url_fields(f));
        let q = urlencode_pairs(&pairs);
        let mut out = scheme_chars();
        let qc = chars_of(q.as_str());
        let mut i: usize = 0;
        while i < qc.len()
            invariant
                i <= qc@.len(),
                out@ == scheme() + qc@.subrange(0, i as int),
            decreases qc.len() - i,
        {
            out.push(qc[i]);
            i += 1;
            assert(out@ =~= scheme() + qc@.subrange(0, i as int));
        }
        assert(qc@.subrange(0, qc@.len() as int) =~= qc@);
        proof {
            let url = scheme() + qc@;
            assert(scheme().is_prefix_of(url)) by {
                assert(url.subrange(0, scheme().len() as int) =~= scheme());
            }
            assert(url.skip(scheme().len() as int) =~= qc@);
            lemma_scan_url_fields(f);
        }
        string_of(&out)
    }

    /// Reads a pairing URL. Refused when it does not start with the scheme,
    /// when `k` is missing, is not base64url or is not 32 bytes, or when `p`
    /// is not a port. The URL is bounded by what the base64 decoder takes.
    pub fn from_url(url: &str) -> (r: Result<PairPayload, BadPairUrl>)
        requires
            url@.len() <= usize::MAX / 32,
        ensures
            match from_url_spec(url@) {
                Ok(f) => r is Ok && fields_of(r->Ok_0) == f,
                Err(e) => r == Err::<PairPayload, BadPairUrl>(e),
            },
    {
        let u = chars_of(url);
        let query = match strip_prefix(&u, &scheme_chars()) {
            Some(q) => q,
            None => match strip_prefix(&u, &scheme_alt_chars()) {
                Some(q) => q,
                None => return Err(BadPairUrl::Scheme),
            },
        };
        let qs = string_of(&query);
        let pairs = parse_pairs(qs.as_str());
        PairPayload::from_pairs(&pairs)
    }

    /// Reads the `(name, value)` pairs of a pairing URL's query, in order:
    /// `k` the key in base64url (32 bytes), `h` the host, `p` the port, `n`
    /// the name; other names are ignored and a later pair overrides an
    /// earlier one. Values are bounded by what the base64 decoder takes.
    pub fn from_pairs(pairs: &Vec<(String, String)>) -> (r: Result<PairPayload, BadPairUrl>)
        requires
            forall|j: int| 0 <= j < pairs@.len() ==> (#[trigger] pairs@[j]).1@.len() <= usize::MAX / 32,
        ensures
            match pairs_result(pairs_view(pairs@)) {
                Ok(f) => r is Ok && fields_of(r->Ok_0) == f,
                Err(e) => r == Err::<PairPayload, BadPairUrl>(e),
            },
    {
        let ghost ps = pairs_view(pairs@);
        let mut key: Option<[u8; 32]> = None;
        let mut host: Option<String> = None;
        let mut port: Option<u16> = None;
        let mut name = String::new();
        let mut i: usize = 0;
        while i < pairs.len()
            invariant
                pairs_view(pairs@) == ps,
                forall|j: int| 0 <= j < pairs@.len() ==> (#[trigger] pairs@[j]).1@.len() <= usize::MAX / 32,
                i <= pairs@.len(),
                scan_pairs(ps.take(i as int)) == Ok::<PairScan, BadPairUrl>((
                    match key {
                        Some(k) => Some(k@),
                        None => None,
                    },
                    opt_view(host),
                    port,
                    name@,
                )),
            decreases pairs.len() - i,
        {
            proof {
                assert(ps.take(i + 1) =~= ps.take(i as int).push(ps[i as int]));
                lemma_scan_append(ps.take(i as int), ps[i as int]);
            }
            let k = chars_of(pairs[i].0.as_str());
            let v = &pairs[i].1;
            if is_name(&k, 'k') {
                match b64url_decode(v.as_str()) {
                    None => {
                        proof {
                            assert(ps[i as int] == (k@, v@));
                            lemma_scan_err_sticky(ps, i + 1);
                        }
                        return Err(BadPairUrl::KeyNotBase64);
                    },
                    Some(raw) => match arr32(raw.as_slice()) {
                        Some(a) => key = Some(a),
                        None => {
                            proof {
                                lemma_scan_err_sticky(ps, i + 1);
                            }
                            return Err(BadPairUrl::KeyLength);
                        },
                    },
                }
            } else if is_name(&k, 'h') {
                host = Some(v.clone());
            } else if is_name(&k, 'p') {
                match parse_u16(&chars_of(v.as_str())) {
                    Some(p) => port = Some(p),
                    None => {
                        proof {
                            lemma_scan_err_sticky(ps, i + 1);
                        }
                        return Err(BadPairUrl::Port);
                    },
                }
            } else if is_name(&k, 'n') {
                name = v.clone();
            }
            i += 1;
        }
        assert(ps.take(ps.len() as int) =~= ps);
        match key {
            Some(key) => Ok(PairPayload { key, host, port, name }),
            None => Err(BadPairUrl::MissingKey),
        }
    }
}

} // verus!
