//! The encrypted transport of a session, once the Noise handshake is done:
//! each logical message framed, cut into records, each record sealed by the
//! Noise transport and put behind its `u16` length; on the way in, records
//! opened and their plaintext gathered until a frame is complete.
use vstd::prelude::*;

use snow::{Builder, HandshakeState, TransportState};

use crate::sync::identity::Identity;
use crate::sync::protocol::MAX_FRAME;
use crate::sync::merge::arr32;
use crate::sync::channel::{
    be16, chunks_spec, flatten, frame, frame_spec, lemma_chunks_bounded, lemma_chunks_flatten, lemma_frame_roundtrip, push_all,
    split_records, take_frame, take_frame_spec, FrameError, NOISE_PLAIN_MAX, NOISE_TAG_LEN,
};

verus! {

#[verifier::external_type_specification]
#[verifier::external_body]
pub struct ExTransportState(snow::TransportState);

#[verifier::external_type_specification]
#[verifier::external_body]
pub struct ExSnowError(snow::Error);

#[verifier::external_type_specification]
#[verifier::external_body]
pub struct ExHandshakeState(snow::HandshakeState);

/// The Noise pattern of a session: `IK`, because the phone already knows
/// the host's static key (it came in the QR) and sends its own encrypted
/// in the first message.
pub const PARAMS: &'static str = "Noise_IK_25519_ChaChaPoly_BLAKE2s";

/// Trusted: parses [`PARAMS`] and builds the handshake of the side that
/// starts (`Builder::build_initiator`, snow) with this device's secret key
/// and the peer's public key.
#[verifier::external_body]
fn build_initiator(secret: &[u8; 32], remote: &[u8; 32]) -> (r: Result<HandshakeState, snow::Error>) {
    Builder::new(PARAMS.parse()?).local_private_key(secret).remote_public_key(remote).build_initiator()
}

/// Trusted: `HandshakeState::write_message` with an empty payload into a
/// buffer of the largest Noise message, cut to the length it reports.
#[verifier::external_body]
fn handshake_write(hs: &mut HandshakeState) -> (r: Result<Vec<u8>, snow::Error>) {
    let mut buf = vec![0u8; 65535];
    let n = hs.write_message(&[], &mut buf)?;
    buf.truncate(n);
    Ok(buf)
}

/// Trusted: `HandshakeState::read_message` of a handshake message; its
/// payload (empty in this protocol) is dropped.
#[verifier::external_body]
fn handshake_read(hs: &mut HandshakeState, msg: &[u8]) -> (r: Result<(), snow::Error>) {
    let mut buf = vec![0u8; 65535];
    hs.read_message(msg, &mut buf)?;
    Ok(())
}

/// The static key of the phone, as the host whose secret key is `secret`
/// reads it from the first message `msg1` of an `IK` handshake: a function
/// of the two alone, since the key travels in `msg1` encrypted under a
/// Diffie-Hellman of `secret` and the ephemeral key that `msg1` also
/// carries. `None` where the read leaves no static key.
pub uninterp spec fn ik_initiator_static(secret: Seq<u8>, msg1: Seq<u8>) -> Option<Seq<u8>>;

/// Trusted: parses [`PARAMS`], builds the handshake of the side that
/// answers (`Builder::build_responder`, snow) with this device's secret,
/// reads the phone's first message (`HandshakeState::read_message`, its
/// empty payload dropped) and copies out `get_remote_static`. The three
/// stand in one item because the key they give is named over the secret
/// and the message together. Whether the read succeeds is not said.
#[verifier::external_body]
fn responder_read(secret: &[u8; 32], msg1: &[u8]) -> (r: Result<(HandshakeState, Option<Vec<u8>>), snow::Error>)
    ensures
        r matches Ok((_, k)) ==> match ik_initiator_static(secret@, msg1@) {
            Some(p) => k matches Some(v) && v@ == p,
            None => k is None,
        },
{
    let mut hs = Builder::new(PARAMS.parse()?).local_private_key(secret).build_responder()?;
    let mut buf = vec![0u8; 65535];
    hs.read_message(msg1, &mut buf)?;
    let k = hs.get_remote_static().map(|k| k.to_vec());
    Ok((hs, k))
}

/// Trusted: `HandshakeState::into_transport_mode`.
#[verifier::external_body]
fn into_transport(hs: HandshakeState) -> (r: Result<TransportState, snow::Error>) {
    hs.into_transport_mode()
}

/// Trusted: `TransportState::write_message` of one record plaintext into a
/// buffer of the largest Noise message, cut to the length it reports. The
/// ciphers of snow all append a 16-byte tag, so a sealed record is 16 bytes
/// longer than its plaintext. The bytes themselves depend on the key and
/// the nonce inside the transport state: nothing is said of them.
#[verifier::external_body]
fn seal_record(noise: &mut TransportState, piece: &[u8]) -> (r: Result<Vec<u8>, snow::Error>)
    ensures
        r is Ok ==> r->Ok_0@.len() == piece@.len() + 16,
{
    let mut ct = vec![0u8; 65535];
    let n = noise.write_message(piece, &mut ct)?;
    ct.truncate(n);
    Ok(ct)
}

/// Trusted: `TransportState::read_message` of one sealed record into a
/// buffer of its length, cut to the length it reports: the plaintext is the
/// record without its 16-byte tag. It fails when the tag does not verify.
#[verifier::external_body]
fn open_record(noise: &mut TransportState, record: &[u8]) -> (r: Result<Vec<u8>, snow::Error>)
    ensures
        r is Ok ==> r->Ok_0@.len() + 16 == record@.len(),
{
    let mut plain = vec![0u8; record.len()];
    let n = noise.read_message(record, &mut plain)?;
    plain.truncate(n);
    Ok(plain)
}

/// Why a message could not go out or come in.
#[derive(Debug)]
pub enum ChannelError {
    Frame(FrameError),
    /// Noise refused: a handshake that fails, a record that does not
    /// authenticate, a nonce that ran out.
    Noise(snow::Error),
    /// The peer sent no static key.
    NoStaticKey,
    /// The peer's static key does not have 32 bytes.
    StaticKeySize,
}

/// The phone's first handshake message, sent to a host whose public key it
/// knows; the handshake goes on with [`initiator_finish`].
pub fn initiator_hello(identity: &Identity, remote_static: &[u8; 32]) -> (r: Result<(HandshakeState, Vec<u8>), ChannelError>)
    ensures
        r matches Err(e) ==> e is Noise,
{
    let mut hs = match build_initiator(identity.secret(), remote_static) {
        Ok(hs) => hs,
        Err(e) => return Err(ChannelError::Noise(e)),
    };
    match handshake_write(&mut hs) {
        Ok(msg1) => Ok((hs, msg1)),
        Err(e) => Err(ChannelError::Noise(e)),
    }
}

/// Reads the host's answer. When the host's static key is not the one the
/// phone expected, this read fails: that is how the QR's key is held to the host.
pub fn initiator_finish(hs: HandshakeState, msg2: &[u8]) -> (r: Result<NoiseCodec, ChannelError>)
    ensures
        r matches Ok(c) ==> c.pending() == Seq::<u8>::empty(),
        r matches Err(e) ==> e is Noise,
{
    let mut hs = hs;
    if let Err(e) = handshake_read(&mut hs, msg2) {
        return Err(ChannelError::Noise(e));
    }
    match into_transport(hs) {
        Ok(t) => Ok(NoiseCodec::new(t)),
        Err(e) => Err(ChannelError::Noise(e)),
    }
}

/// The peer's static key as the handshake reports it: refused when there
/// is none, or when it is not 32 bytes long.
pub fn peer_key(k: Option<Vec<u8>>) -> (r: Result<[u8; 32], ChannelError>)
    ensures
        match k {
            None => r matches Err(ChannelError::NoStaticKey),
            Some(v) => if v@.len() == 32 {
                r matches Ok(p) && p@ == v@
            } else {
                r matches Err(ChannelError::StaticKeySize)
            },
        },
{
    match k {
        None => Err(ChannelError::NoStaticKey),
        Some(v) => match arr32(v.as_slice()) {
            Some(p) => Ok(p),
            None => Err(ChannelError::StaticKeySize),
        },
    }
}

/// The host's side: reads the phone's first message, learns its static key
/// (its `DeviceId`, for the caller to decide whether to pair) and writes
/// the answer.
pub fn responder_reply(identity: &Identity, msg1: &[u8]) -> (r: Result<(HandshakeState, [u8; 32], Vec<u8>), ChannelError>)
    ensures
        r matches Ok((_, peer, _)) ==> ik_initiator_static(identity.secret_spec()@, msg1@) == Some(peer@),
        r matches Err(ChannelError::NoStaticKey) ==> ik_initiator_static(identity.secret_spec()@, msg1@) is None,
        r matches Err(ChannelError::StaticKeySize) ==> (ik_initiator_static(identity.secret_spec()@, msg1@) matches Some(
            p,
        ) && p.len() != 32),
        r matches Err(e) ==> !(e is Frame),
{
    let (mut hs, k) = match responder_read(identity.secret(), msg1) {
        Ok(x) => x,
        Err(e) => return Err(ChannelError::Noise(e)),
    };
    let peer = match peer_key(k) {
        Ok(p) => p,
        Err(e) => return Err(e),
    };
    match handshake_write(&mut hs) {
        Ok(msg2) => Ok((hs, peer, msg2)),
        Err(e) => Err(ChannelError::Noise(e)),
    }
}

/// The host's transport once its answer is written.
pub fn responder_finish(hs: HandshakeState) -> (r: Result<NoiseCodec, ChannelError>)
    ensures
        r matches Ok(c) ==> c.pending() == Seq::<u8>::empty(),
        r matches Err(e) ==> e is Noise,
{
    match into_transport(hs) {
        Ok(t) => Ok(NoiseCodec::new(t)),
        Err(e) => Err(ChannelError::Noise(e)),
    }
}

/// What goes to the socket for the sealed records `cts`: each, in order,
/// behind its length in two big-endian bytes.
pub open spec fn sealed_wire(cts: Seq<Seq<u8>>) -> Seq<u8>
    decreases cts.len(),
{
    if cts.len() == 0 {
        Seq::empty()
    } else {
        sealed_wire(cts.drop_last()) + be16(cts.last().len()) + cts.last()
    }
}

/// Whether `cts` are sealed records of the plaintexts `ps`, one each, in
/// order: each 16 bytes (the tag) longer than its plaintext.
pub open spec fn seals_of(cts: Seq<Seq<u8>>, ps: Seq<Seq<u8>>) -> bool {
    &&& cts.len() == ps.len()
    &&& forall|k: int| 0 <= k < ps.len() ==> (#[trigger] cts[k]).len() == ps[k].len() + 16
}

/// Puts one sealed record on the wire: its length in two bytes, then the
/// record.
pub fn put_record(out: &mut Vec<u8>, ct: &[u8])
    requires
        ct@.len() < 65536,
    ensures
        final(out)@ == old(out)@ + be16(ct@.len()) + ct@,
{
    let n = ct.len();
    out.push((n / 256) as u8);
    out.push((n % 256) as u8);
    push_all(out, ct);
    assert(old(out)@ + be16(n as nat) =~= old(out)@.push((n / 256) as u8).push((n % 256) as u8));
}

/// The records of a message, opened in order and appended to what was
/// pending, give the message back once the pending bytes before it are
/// taken: sealing cuts the frame into these pieces, and buffering them in
/// order rebuilds the frame.
pub proof fn lemma_records_roundtrip(m: Seq<u8>, rest: Seq<u8>)
    requires
        m.len() <= MAX_FRAME,
    ensures
        take_frame_spec(flatten(chunks_spec(frame_spec(m), NOISE_PLAIN_MAX as nat)) + rest)
            == Ok::<Option<(Seq<u8>, Seq<u8>)>, FrameError>(Some((m, rest))),
{
    lemma_chunks_flatten(frame_spec(m), NOISE_PLAIN_MAX as nat);
    lemma_frame_roundtrip(m, rest);
}

/// Appending the records in turn appends their concatenation.
pub proof fn lemma_flatten_push(ps: Seq<Seq<u8>>, x: Seq<u8>)
    ensures
        flatten(ps.push(x)) == flatten(ps) + x,
    decreases ps.len(),
{
    if ps.len() == 0 {
        assert(ps.push(x).drop_first() =~= Seq::<Seq<u8>>::empty());
        assert(flatten(Seq::<Seq<u8>>::empty()) == Seq::<u8>::empty());
        assert(x + Seq::<u8>::empty() =~= x);
        assert(Seq::<u8>::empty() + x =~= x);
    } else {
        lemma_flatten_push(ps.drop_first(), x);
        assert(ps.push(x).drop_first() =~= ps.drop_first().push(x));
        assert(ps[0] + (flatten(ps.drop_first()) + x) =~= (ps[0] + flatten(ps.drop_first())) + x);
    }
}

pub struct NoiseCodec {
    noise: TransportState,
    rx: Vec<u8>,
}

impl NoiseCodec {
    /// Plaintext already opened but not yet cut into a message.
    pub closed spec fn pending(&self) -> Seq<u8> {
        self.rx@
    }

    /// The Noise transport that seals and opens the records.
    pub closed spec fn transport(&self) -> TransportState {
        self.noise
    }

    /// A codec over the transport of a finished handshake, with nothing
    /// received yet.
    pub fn new(noise: TransportState) -> (c: Self)
        ensures
            c.transport() == noise,
            c.pending() == Seq::<u8>::empty(),
    {
        NoiseCodec { noise, rx: Vec::new() }
    }

    /// The bytes that carry one serialised message to the peer: its frame
    /// cut into records, each sealed by the transport and put on the wire
    /// behind its length. The ciphertext depends on the transport's key and
    /// nonce; what is fixed is the layout.
    pub fn seal(&mut self, plain: &[u8]) -> (r: Result<Vec<u8>, ChannelError>)
        ensures
            final(self).pending() == old(self).pending(),
            plain@.len() > u32::MAX ==> r matches Err(ChannelError::Frame(FrameError::MessageTooBig)),
            r matches Err(e) ==> (e is Noise && plain@.len() <= u32::MAX) || (e matches ChannelError::Frame(
                FrameError::MessageTooBig,
            ) && plain@.len() > u32::MAX),
            r is Ok ==> plain@.len() <= u32::MAX && exists|cts: Seq<Seq<u8>>|
                seals_of(cts, chunks_spec(frame_spec(plain@), NOISE_PLAIN_MAX as nat)) && r->Ok_0@ == sealed_wire(cts),
    {
        let framed = match frame(plain) {
            Ok(f) => f,
            Err(e) => return Err(ChannelError::Frame(e)),
        };
        let pieces = split_records(framed.as_slice());
        let ghost ps = chunks_spec(framed@, NOISE_PLAIN_MAX as nat);
        proof {
            lemma_chunks_bounded(framed@, NOISE_PLAIN_MAX as nat);
        }
        let mut out: Vec<u8> = Vec::new();
        let ghost mut cts: Seq<Seq<u8>> = Seq::empty();
        let mut i: usize = 0;
        while i < pieces.len()
            invariant
                plain@.len() <= u32::MAX,
                ps == chunks_spec(frame_spec(plain@), NOISE_PLAIN_MAX as nat),
                i <= pieces@.len(),
                pieces@.len() == ps.len(),
                forall|k: int| 0 <= k < pieces@.len() ==> (#[trigger] pieces@[k])@ == ps[k],
                forall|k: int| 0 <= k < ps.len() ==> (#[trigger] ps[k]).len() <= NOISE_PLAIN_MAX,
                seals_of(cts, ps.take(i as int)),
                out@ == sealed_wire(cts),
                self.rx@ == old(self).rx@,
            decreases pieces.len() - i,
        {
            let ct = match seal_record(&mut self.noise, pieces[i].as_slice()) {
                Ok(ct) => ct,
                Err(e) => return Err(ChannelError::Noise(e)),
            };
            assert(ct@.len() < 65536);
            put_record(&mut out, ct.as_slice());
            proof {
                let c2 = cts.push(ct@);
                assert(c2.drop_last() =~= cts);
                assert(c2.last() == ct@);
                assert(ps.take(i + 1) =~= ps.take(i as int).push(ps[i as int]));
                assert forall|k: int| 0 <= k < i + 1 implies (#[trigger] c2[k]).len() == ps.take(i + 1)[k].len() + 16 by {
                    if k < i {
                        assert(c2[k] == cts[k]);
                    }
                }
                cts = c2;
            }
            i += 1;
        }
        proof {
            assert(ps.take(ps.len() as int) =~= ps);
        }
        Ok(out)
    }

    /// Appends an opened record's plaintext to what is pending.
    pub fn absorb(&mut self, plain: &[u8])
        ensures
            final(self).pending() == old(self).pending() + plain@,
            final(self).transport() == old(self).transport(),
    {
        push_all(&mut self.rx, plain);
    }

    /// Opens one record from the peer and keeps its plaintext, a record's
    /// length less the 16-byte tag, after what was pending. Nothing is kept
    /// when the record does not authenticate.
    pub fn open(&mut self, record: &[u8]) -> (r: Result<(), ChannelError>)
        ensures
            r is Ok ==> record@.len() >= 16 && exists|p: Seq<u8>|
                p.len() + 16 == record@.len() && final(self).pending() == old(self).pending() + p,
            r is Err ==> final(self).pending() == old(self).pending(),
            r matches Err(e) ==> e is Noise,
    {
        let plain = match open_record(&mut self.noise, record) {
            Ok(p) => p,
            Err(e) => return Err(ChannelError::Noise(e)),
        };
        self.absorb(plain.as_slice());
        assert(plain@.len() + 16 == record@.len() && self.pending() == old(self).pending() + plain@);
        Ok(())
    }

    /// The next complete message from the peer, if its frame is complete.
    pub fn take_frame(&mut self) -> (r: Result<Option<Vec<u8>>, FrameError>)
        ensures
            match take_frame_spec(old(self).pending()) {
                Err(e) => r == Err::<Option<Vec<u8>>, FrameError>(e) && final(self).pending() == old(self).pending(),
                Ok(None) => r matches Ok(None) && final(self).pending() == old(self).pending(),
                Ok(Some((payload, rest))) => r matches Ok(Some(p)) && p@ == payload && final(self).pending() == rest,
            },
    {
        take_frame(&mut self.rx)
    }
}

} // verus!
