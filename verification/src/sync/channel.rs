//! Framing of the encrypted channel.
//!
//! A Noise transport message carries at most 65535 bytes (16 of them the
//! tag), and a `Msg::Blob` is bigger than that. So each logical message is
//! serialised, prefixed with its `u32` length (big-endian), and cut into
//! transport records; each record goes to the socket behind a `u16` prefix
//! with its encrypted length. The receiver decrypts records, accumulates the
//! plaintext, and cuts a message off once the `u32` prefix is complete.
//!
//! This module holds the byte layout; the handshake, the encryption and the
//! socket belong to the caller.
use vstd::prelude::*;

use crate::sync::protocol::MAX_FRAME;

verus! {

/// Largest Noise message.
pub const NOISE_MSG_MAX: usize = 65535;

/// Authentication tag of each Noise record.
pub const NOISE_TAG_LEN: usize = 16;

/// Largest plaintext per record.
pub const NOISE_PLAIN_MAX: usize = 65519;

/// A framing rule that the other end or the caller broke.
#[derive(Debug, Clone, Copy, PartialEq, Eq, Structural)]
pub enum FrameError {
    /// The serialised message does not fit a `u32` length.
    MessageTooBig,
    /// A record does not fit a `u16` length.
    RecordTooBig,
    /// The announced frame is larger than [`MAX_FRAME`].
    FrameTooBig,
}

impl FrameError {
    pub fn message(&self) -> (m: &'static str)
        ensures
            *self == FrameError::MessageTooBig ==> m@ == "Msg grande demais"@,
            *self == FrameError::RecordTooBig ==> m@ == "record > 64KiB"@,
            *self == FrameError::FrameTooBig ==> m@ == "frame anunciado grande demais"@,
    {
        match self {
            FrameError::MessageTooBig => "Msg grande demais",
            FrameError::RecordTooBig => "record > 64KiB",
            FrameError::FrameTooBig => "frame anunciado grande demais",
        }
    }
}

/// `n` as four big-endian bytes.
pub open spec fn be32(n: nat) -> Seq<u8> {
    seq![(n / 16777216 % 256) as u8, (n / 65536 % 256) as u8, (n / 256 % 256) as u8, (n % 256) as u8]
}

/// The number that four big-endian bytes spell.
pub open spec fn be32_value(b: Seq<u8>) -> nat {
    (b[0] as nat) * 16777216 + (b[1] as nat) * 65536 + (b[2] as nat) * 256 + (b[3] as nat)
}

/// `n` as two big-endian bytes.
pub open spec fn be16(n: nat) -> Seq<u8> {
    seq![(n / 256 % 256) as u8, (n % 256) as u8]
}

pub open spec fn be16_value(b: Seq<u8>) -> nat {
    (b[0] as nat) * 256 + (b[1] as nat)
}

/// A serialised message behind its length.
pub open spec fn frame_spec(plain: Seq<u8>) -> Seq<u8> {
    be32(plain.len()) + plain
}

/// The records a frame is cut into: pieces of [`NOISE_PLAIN_MAX`] bytes,
/// the last one shorter.
pub open spec fn chunks_spec(b: Seq<u8>, n: nat) -> Seq<Seq<u8>>
    recommends
        n > 0,
    decreases b.len(),
{
    if b.len() == 0 || n == 0 {
        Seq::empty()
    } else if b.len() <= n {
        seq![b]
    } else {
        seq![b.subrange(0, n as int)] + chunks_spec(b.skip(n as int), n)
    }
}

/// The bytes of the records, read back in order, give the frame again.
pub open spec fn flatten(s: Seq<Seq<u8>>) -> Seq<u8>
    decreases s.len(),
{
    if s.len() == 0 {
        Seq::empty()
    } else {
        s[0] + flatten(s.drop_first())
    }
}

pub proof fn lemma_be32_roundtrip(n: nat)
    requires
        n < 4294967296,
    ensures
        be32(n).len() == 4,
        be32_value(be32(n)) == n,
{
    let b = be32(n);
    assert(b[0] as nat == n / 16777216 % 256);
    assert(b[1] as nat == n / 65536 % 256);
    assert(b[2] as nat == n / 256 % 256);
    assert(b[3] as nat == n % 256);
    assert(n / 16777216 < 256);
}

pub proof fn lemma_be16_roundtrip(n: nat)
    requires
        n < 65536,
    ensures
        be16(n).len() == 2,
        be16_value(be16(n)) == n,
{
}

/// Cutting into records loses nothing.
pub proof fn lemma_chunks_flatten(b: Seq<u8>, n: nat)
    requires
        n > 0,
    ensures
        flatten(chunks_spec(b, n)) == b,
        forall|i: int| 0 <= i < chunks_spec(b, n).len() ==> 0 < (#[trigger] chunks_spec(b, n)[i]).len() <= n,
    decreases b.len(),
{
    assert(flatten(Seq::<Seq<u8>>::empty()) == Seq::<u8>::empty());
    if b.len() == 0 {
        assert(b =~= Seq::<u8>::empty());
    } else if b.len() <= n {
        assert(seq![b].drop_first() =~= Seq::<Seq<u8>>::empty());
        assert(b + Seq::<u8>::empty() =~= b);
    } else {
        lemma_chunks_flatten(b.skip(n as int), n);
        let c = chunks_spec(b, n);
        assert(c.drop_first() =~= chunks_spec(b.skip(n as int), n));
        assert(b.subrange(0, n as int) + b.skip(n as int) =~= b);
        assert forall|i: int| 0 <= i < c.len() implies 0 < (#[trigger] c[i]).len() <= n by {
            if i > 0 {
                assert(c[i] == chunks_spec(b.skip(n as int), n)[i - 1]);
            }
        }
    }
}

pub(crate) fn push_all(out: &mut Vec<u8>, src: &[u8])
    ensures
        final(out)@ == old(out)@ + src@,
{
    let mut i: usize = 0;
    while i < src.len()
        invariant
            i <= src@.len(),
            out@ == old(out)@ + src@.subrange(0, i as int),
        decreases src.len() - i,
    {
        out.push(src[i]);
        i += 1;
        assert(out@ =~= old(out)@ + src@.subrange(0, i as int));
    }
    assert(src@.subrange(0, src@.len() as int) =~= src@);
}

/// The serialised message prefixed with its `u32` length.
pub fn frame(plain: &[u8]) -> (r: Result<Vec<u8>, FrameError>)
    ensures
        plain@.len() <= u32::MAX ==> r is Ok && r->Ok_0@ == frame_spec(plain@),
        plain@.len() > u32::MAX ==> r == Err::<Vec<u8>, FrameError>(FrameError::MessageTooBig),
{
    if plain.len() > 4294967295 {
        return Err(FrameError::MessageTooBig);
    }
    let n = plain.len() as u32;
    let mut out: Vec<u8> = Vec::new();
    out.push((n / 16777216 % 256) as u8);
    out.push((n / 65536 % 256) as u8);
    out.push((n / 256 % 256) as u8);
    out.push((n % 256) as u8);
    assert(out@ =~= be32(plain@.len()));
    push_all(&mut out, plain);
    Ok(out)
}

/// No record plaintext is longer than the cut.
pub proof fn lemma_chunks_bounded(b: Seq<u8>, n: nat)
    ensures
        forall|i: int| 0 <= i < chunks_spec(b, n).len() ==> (#[trigger] chunks_spec(b, n)[i]).len() <= n,
    decreases b.len(),
{
    if b.len() == 0 || n == 0 {
    } else if b.len() <= n {
    } else {
        lemma_chunks_bounded(b.skip(n as int), n);
        let c = chunks_spec(b, n);
        let rest = chunks_spec(b.skip(n as int), n);
        assert forall|i: int| 0 <= i < c.len() implies (#[trigger] c[i]).len() <= n by {
            if i > 0 {
                assert(c[i] == rest[i - 1]);
            }
        }
    }
}

/// The frame cut into record plaintexts of at most [`NOISE_PLAIN_MAX`]
/// bytes, as `chunks` does.
pub fn split_records(framed: &[u8]) -> (r: Vec<Vec<u8>>)
    ensures
        r@.len() == chunks_spec(framed@, NOISE_PLAIN_MAX as nat).len(),
        forall|i: int| 0 <= i < r@.len() ==> (#[trigger] r@[i])@ == chunks_spec(framed@, NOISE_PLAIN_MAX as nat)[i],
{
    let mut r: Vec<Vec<u8>> = Vec::new();
    let mut start: usize = 0;
    assert(framed@.skip(0) =~= framed@);
    assert(r@.map_values(|v: Vec<u8>| v@) =~= Seq::<Seq<u8>>::empty());
    assert(Seq::<Seq<u8>>::empty() + chunks_spec(framed@, NOISE_PLAIN_MAX as nat) =~= chunks_spec(framed@, NOISE_PLAIN_MAX as nat));
    while start < framed.len()
        invariant
            start <= framed@.len(),
            chunks_spec(framed@, NOISE_PLAIN_MAX as nat) == r@.map_values(|v: Vec<u8>| v@) + chunks_spec(framed@.skip(start as int), NOISE_PLAIN_MAX as nat),
        decreases framed.len() - start,
    {
        let end = if framed.len() - start > NOISE_PLAIN_MAX {
            start + NOISE_PLAIN_MAX
        } else {
            framed.len()
        };
        let mut piece: Vec<u8> = Vec::new();
        let mut i: usize = start;
        while i < end
            invariant
                start <= i <= end <= framed@.len(),
                piece@ == framed@.subrange(start as int, i as int),
            decreases end - i,
        {
            piece.push(framed[i]);
            i += 1;
            assert(piece@ =~= framed@.subrange(start as int, i as int));
        }
        proof {
            let rest = framed@.skip(start as int);
            if end == framed@.len() {
                assert(rest =~= piece@);
                assert(framed@.skip(end as int) =~= Seq::<u8>::empty());
                assert(chunks_spec(rest, NOISE_PLAIN_MAX as nat) == seq![piece@]);
            } else {
                assert(rest.subrange(0, NOISE_PLAIN_MAX as int) =~= piece@);
                assert(rest.skip(NOISE_PLAIN_MAX as int) =~= framed@.skip(end as int));
            }
            assert(chunks_spec(framed@.skip(end as int), NOISE_PLAIN_MAX as nat) =~= chunks_spec(rest, NOISE_PLAIN_MAX as nat).drop_first());
        }
        let ghost before = r@;
        r.push(piece);
        proof {
            assert(r@.map_values(|v: Vec<u8>| v@) =~= before.map_values(|v: Vec<u8>| v@).push(piece@));
            let rest = framed@.skip(start as int);
            assert(chunks_spec(rest, NOISE_PLAIN_MAX as nat) =~= seq![piece@] + chunks_spec(framed@.skip(end as int), NOISE_PLAIN_MAX as nat));
        }
        start = end;
    }
    proof {
        assert(framed@.skip(start as int) =~= Seq::<u8>::empty());
        assert(chunks_spec(framed@, NOISE_PLAIN_MAX as nat) =~= r@.map_values(|v: Vec<u8>| v@));
    }
    r
}

/// A record behind its `u16` length, as it goes to the socket.
pub fn raw_record(bytes: &[u8]) -> (r: Result<Vec<u8>, FrameError>)
    ensures
        bytes@.len() <= u16::MAX ==> r is Ok && r->Ok_0@ == be16(bytes@.len()) + bytes@,
        bytes@.len() > u16::MAX ==> r == Err::<Vec<u8>, FrameError>(FrameError::RecordTooBig),
{
    if bytes.len() > 65535 {
        return Err(FrameError::RecordTooBig);
    }
    let n = bytes.len() as u16;
    let mut out: Vec<u8> = Vec::new();
    out.push((n / 256) as u8);
    out.push((n % 256) as u8);
    assert(out@ =~= be16(bytes@.len()));
    push_all(&mut out, bytes);
    Ok(out)
}

/// The length that a record's `u16` prefix announces.
pub fn record_len(prefix: [u8; 2]) -> (n: usize)
    ensures
        n == be16_value(prefix@),
{
    prefix[0] as usize * 256 + prefix[1] as usize
}

/// What the receive buffer gives: the payload of the first complete frame
/// and what stays after it, nothing while the frame is incomplete, or a
/// refusal when the announced length is over [`MAX_FRAME`].
pub open spec fn take_frame_spec(rx: Seq<u8>) -> Result<Option<(Seq<u8>, Seq<u8>)>, FrameError> {
    if rx.len() < 4 {
        Ok(None)
    } else {
        let need = be32_value(rx);
        if need > MAX_FRAME {
            Err(FrameError::FrameTooBig)
        } else if rx.len() < 4 + need {
            Ok(None)
        } else {
            Ok(Some((rx.subrange(4, 4 + need as int), rx.skip(4 + need as int))))
        }
    }
}

/// Cuts the first complete frame off the receive buffer and gives its
/// payload; the buffer keeps what follows. The buffer is left alone while
/// the frame is incomplete or refused.
pub fn take_frame(rx: &mut Vec<u8>) -> (r: Result<Option<Vec<u8>>, FrameError>)
    ensures
        match take_frame_spec(old(rx)@) {
            Err(e) => r == Err::<Option<Vec<u8>>, FrameError>(e) && final(rx)@ == old(rx)@,
            Ok(None) => r matches Ok(None) && final(rx)@ == old(rx)@,
            Ok(Some((payload, rest))) => r matches Ok(Some(p)) && p@ == payload && final(rx)@ == rest,
        },
{
    if rx.len() < 4 {
        return Ok(None);
    }
    let need: usize = rx[0] as usize * 16777216 + rx[1] as usize * 65536 + rx[2] as usize * 256 + rx[3] as usize;
    if need > MAX_FRAME {
        return Err(FrameError::FrameTooBig);
    }
    if rx.len() - 4 < need {
        return Ok(None);
    }
    let end: usize = 4 + need;
    let mut payload: Vec<u8> = Vec::new();
    let mut i: usize = 4;
    while i < end
        invariant
            end == 4 + need,
            4 <= i <= end <= rx@.len(),
            payload@ == rx@.subrange(4, i as int),
        decreases end - i,
    {
        payload.push(rx[i]);
        i += 1;
        assert(payload@ =~= rx@.subrange(4, i as int));
    }
    let mut rest: Vec<u8> = Vec::new();
    let mut j: usize = end;
    while j < rx.len()
        invariant
            end == 4 + need,
            4 + need <= j <= rx@.len(),
            rest@ == rx@.subrange(4 + need, j as int),
        decreases rx.len() - j,
    {
        rest.push(rx[j]);
        j += 1;
        assert(rest@ =~= rx@.subrange(4 + need, j as int));
    }
    assert(rest@ =~= rx@.skip(4 + need));
    *rx = rest;
    Ok(Some(payload))
}

/// What a frame gives back: a buffer that starts with a whole frame yields
/// its payload and keeps the rest.
pub proof fn lemma_frame_roundtrip(plain: Seq<u8>, rest: Seq<u8>)
    requires
        plain.len() <= MAX_FRAME,
    ensures
        take_frame_spec(frame_spec(plain) + rest) == Ok::<Option<(Seq<u8>, Seq<u8>)>, FrameError>(Some((plain, rest))),
{
    lemma_be32_roundtrip(plain.len());
    let rx = frame_spec(plain) + rest;
    assert(rx.subrange(0, 4) =~= be32(plain.len()));
    assert(be32_value(rx) == be32_value(be32(plain.len())));
    assert(rx.subrange(4, 4 + plain.len() as int) =~= plain);
    assert(rx.skip(4 + plain.len() as int) =~= rest);
}

} // verus!
