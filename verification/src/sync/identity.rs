//! The static identity of this device: an X25519 key pair.
//!
//! The **public** key is the [`DeviceId`]: pairing and identifying are the
//! same operation (the QR carries that key, the Noise handshake proves it).
//! The **secret** key lives in `meta['sync_sk']` in the index itself, as
//! base64url.
use vstd::prelude::*;

use x25519_dalek::{PublicKey, StaticSecret};

use crate::model::DeviceId;
use crate::strutil::chars_of;
use crate::sync::merge::arr32;
use crate::sync::pairing::{b64url_decode, b64url_encode, base64url, base64url_decoded};

verus! {

/// The X25519 public key of a secret key (the secret, clamped, times the
/// base point).
pub uninterp spec fn x25519_public(secret: Seq<u8>) -> Seq<u8>;

/// Trusted: `PublicKey::from(&StaticSecret::from(secret)).to_bytes()`
/// (x25519-dalek), a function of the secret alone; the key is named.
#[verifier::external_body]
fn public_of(secret: [u8; 32]) -> (p: [u8; 32])
    ensures
        p@ == x25519_public(secret@),
{
    PublicKey::from(&StaticSecret::from(secret)).to_bytes()
}

/// Trusted: `getrandom::getrandom` filling 32 bytes from the system's
/// source of randomness; `None` where it reports an error. Nothing is
/// promised of the bytes.
#[verifier::external_body]
fn random_32() -> (r: Option<[u8; 32]>) {
    let mut secret = [0u8; 32];
    match getrandom::getrandom(&mut secret) {
        Ok(()) => Some(secret),
        Err(_) => None,
    }
}

#[derive(Clone)]
pub struct Identity {
    secret: [u8; 32],
    public: [u8; 32],
}

impl Identity {
    pub closed spec fn secret_spec(&self) -> [u8; 32] {
        self.secret
    }

    pub closed spec fn public_spec(&self) -> [u8; 32] {
        self.public
    }

    /// The public key belongs to the secret one.
    pub closed spec fn wf(&self) -> bool {
        self.public@ == x25519_public(self.secret@)
    }

    /// The identity of a secret key.
    pub fn from_secret(secret: [u8; 32]) -> (id: Identity)
        ensures
            id.wf(),
            id.secret_spec() == secret,
            id.public_spec()@ == x25519_public(secret@),
    {
        let public = public_of(secret);
        Identity { secret, public }
    }

    /// A fresh identity from the system's randomness, kept in no index;
    /// `None` when the system gives no randomness.
    pub fn ephemeral() -> (r: Option<Identity>)
        ensures
            r matches Some(id) ==> id.wf(),
    {
        match random_32() {
            Some(secret) => Some(Identity::from_secret(secret)),
            None => None,
        }
    }

    pub fn device_id(&self) -> (d: DeviceId)
        ensures
            d.0 == self.public_spec(),
    {
        DeviceId(self.public)
    }

    pub fn secret(&self) -> (s: &[u8; 32])
        ensures
            *s == self.secret_spec(),
    {
        &self.secret
    }

    pub fn public(&self) -> (p: [u8; 32])
        ensures
            p == self.public_spec(),
    {
        self.public
    }
}

/// The secret key as stored in `meta['sync_sk']`.
pub fn encode_key(bytes: &[u8; 32]) -> (s: String)
    ensures
        s@ == base64url(bytes@),
        base64url_decoded(s@) == Some(bytes@),
{
    b64url_encode(bytes)
}

/// The secret key read back from `meta['sync_sk']`: `None` when the text
/// is not base64url of 32 bytes.
pub fn decode_key(s: &str) -> (r: Option<[u8; 32]>)
    ensures
        match base64url_decoded(s@) {
            Some(b) => if b.len() == 32 {
                r is Some && r->0@ == b
            } else {
                r is None
            },
            None => r is None,
        },
{
    // A 32-byte key is 43 symbols; anything else is no key.
    let cs = chars_of(s);
    if cs.len() != 43 {
        proof {
            if base64url_decoded(s@) is Some {
                let b = base64url_decoded(s@)->0;
                assert(base64url(b) == s@);
                assert(b.len() == 32 ==> s@.len() == 43);
            }
        }
        return None;
    }
    match b64url_decode(s) {
        Some(raw) => arr32(raw.as_slice()),
        None => None,
    }
}

} // verus!
