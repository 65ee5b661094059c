//! The host side of a session: who gets in, what the peer lacks, and how a
//! file goes out in chunks. The sockets, the index and the files are the
//! caller's.
use vstd::prelude::*;

use std::collections::HashMap;

use crate::index::art::{bucket_key, bucket_of};
use crate::model::TrackId;
use crate::sync::protocol::{Msg, PROTO_VERSION};

verus! {

/// What the host decides about a device that just introduced itself.
#[derive(Debug, Clone, Copy, PartialEq, Eq, Structural)]
pub enum AuthDecision {
    Accept,
    Reject,
}

/// The peer's `Hello`: accepted when it speaks this host's protocol
/// version; otherwise the version it speaks.
pub fn check_hello(proto: u16) -> (r: Result<(), u16>)
    ensures
        proto == PROTO_VERSION ==> r is Ok,
        proto != PROTO_VERSION ==> r == Err::<(), u16>(proto),
{
    if proto == PROTO_VERSION {
        Ok(())
    } else {
        Err(proto)
    }
}

pub open spec fn has_hash(hashes: Seq<[u8; 32]>, h: [u8; 32]) -> bool {
    exists|i: int| 0 <= i < hashes.len() && (#[trigger] hashes[i])@ == h@
}

/// The tracks of the host whose content the peer does not have, in the
/// host's order.
pub open spec fn missing_spec(mine: Seq<([u8; 32], TrackId)>, theirs: Seq<[u8; 32]>) -> Seq<([u8; 32], TrackId)> {
    mine.filter(|e: ([u8; 32], TrackId)| !has_hash(theirs, e.0))
}

fn contains_hash(hashes: &Vec<[u8; 32]>, h: &[u8; 32]) -> (r: bool)
    ensures
        r == has_hash(hashes@, *h),
{
    let mut i: usize = 0;
    while i < hashes.len()
        invariant
            i <= hashes@.len(),
            forall|j: int| 0 <= j < i ==> (#[trigger] hashes@[j])@ != h@,
        decreases hashes.len() - i,
    {
        let mut same = true;
        let mut k: usize = 0;
        while k < 32
            invariant
                k <= 32,
                hashes@[i as int]@.len() == 32,
                h@.len() == 32,
                i < hashes@.len(),
                same == (forall|j: int| 0 <= j < k ==> hashes@[i as int]@[j] == h@[j]),
            decreases 32 - k,
        {
            if hashes[i][k] != h[k] {
                same = false;
            }
            k += 1;
        }
        if same {
            assert(hashes@[i as int]@ =~= h@);
            return true;
        }
        assert(hashes@[i as int]@ != h@) by {
            let w = choose|j: int| 0 <= j < 32 && hashes@[i as int]@[j] != h@[j];
        }
        i += 1;
    }
    false
}

/// `m` indexes the hashes `t`: each bucket holds only hashes of `t` with
/// its key, and each hash of `t` is in its bucket.
pub open spec fn indexes(m: Map<u64, Vec<[u8; 32]>>, t: Seq<[u8; 32]>) -> bool {
    &&& forall|k: u64, i: int| #![trigger m[k]@[i]]
        m.contains_key(k) && 0 <= i < m[k]@.len() ==> bucket_key(m[k]@[i]@) == k && has_hash(t, m[k]@[i])
    &&& forall|j: int| 0 <= j < t.len() ==> m.contains_key(bucket_key((#[trigger] t[j])@)) && has_hash(
        m[bucket_key(t[j]@)]@,
        t[j],
    )
}

/// The peer's hashes grouped by bucket, for lookups that do not scan the
/// whole list.
fn index_hashes(theirs: &Vec<[u8; 32]>) -> (m: HashMap<u64, Vec<[u8; 32]>>)
    ensures
        indexes(m@, theirs@),
{
    broadcast use vstd::std_specs::hash::group_hash_axioms;
    let mut m: HashMap<u64, Vec<[u8; 32]>> = HashMap::new();
    let mut i: usize = 0;
    while i < theirs.len()
        invariant
            i <= theirs@.len(),
            indexes(m@, theirs@.take(i as int)),
        decreases theirs.len() - i,
    {
        let h = theirs[i];
        let k = bucket_of(&h);
        let ghost t0 = theirs@.take(i as int);
        let ghost t1 = theirs@.take(i + 1);
        let ghost m0 = m@;
        let mut bucket = match m.remove(&k) {
            Some(b) => b,
            None => Vec::new(),
        };
        let ghost b0 = bucket@;
        bucket.push(h);
        m.insert(k, bucket);
        proof {
            assert(t1 =~= t0.push(h));
            assert(t1[i as int] == h);
            assert forall|x: [u8; 32]| has_hash(t0, x) implies has_hash(t1, x) by {
                let w = choose|w: int| 0 <= w < t0.len() && (#[trigger] t0[w])@ == x@;
                assert(t1[w] == t0[w]);
            }
            assert(has_hash(t1, h)) by {
                assert(t1[i as int]@ == h@);
            }
            assert forall|kk: u64, n: int| #![trigger m@[kk]@[n]]
                m@.contains_key(kk) && 0 <= n < m@[kk]@.len() implies bucket_key(m@[kk]@[n]@) == kk && has_hash(t1, m@[kk]@[n]) by {
                if kk == k {
                    if n < b0.len() {
                        assert(m@[kk]@[n] == b0[n]);
                        assert(m0.contains_key(k) && m0[k]@ == b0);
                        assert(bucket_key(m0[k]@[n]@) == k && has_hash(t0, m0[k]@[n]));
                    } else {
                        assert(m@[kk]@[n] == h);
                    }
                } else {
                    assert(m@[kk] == m0[kk]);
                    assert(bucket_key(m0[kk]@[n]@) == kk && has_hash(t0, m0[kk]@[n]));
                }
            }
            assert forall|j: int| 0 <= j < t1.len() implies m@.contains_key(bucket_key((#[trigger] t1[j])@)) && has_hash(
                m@[bucket_key(t1[j]@)]@,
                t1[j],
            ) by {
                let kj = bucket_key(t1[j]@);
                if j == i {
                    assert(m@[k]@[b0.len() as int] == h);
                } else {
                    assert(t1[j] == t0[j]);
                    assert(m0.contains_key(kj) && has_hash(m0[kj]@, t0[j]));
                    let w = choose|w: int| 0 <= w < m0[kj]@.len() && (#[trigger] m0[kj]@[w])@ == t0[j]@;
                    if kj == k {
                        assert(m@[k]@[w] == b0[w]);
                    } else {
                        assert(m@[kj] == m0[kj]);
                    }
                }
            }
        }
        i += 1;
    }
    proof {
        assert(theirs@.take(theirs@.len() as int) =~= theirs@);
    }
    m
}

/// Whether the peer has `h`, looked up in its bucket.
fn indexed_has(m: &HashMap<u64, Vec<[u8; 32]>>, h: &[u8; 32], Ghost(t): Ghost<Seq<[u8; 32]>>) -> (r: bool)
    requires
        indexes(m@, t),
    ensures
        r == has_hash(t, *h),
{
    broadcast use vstd::std_specs::hash::group_hash_axioms;
    let k = bucket_of(h);
    match m.get(&k) {
        Some(b) => {
            let r = contains_hash(b, h);
            proof {
                if r {
                    let w = choose|w: int| 0 <= w < b@.len() && (#[trigger] b@[w])@ == h@;
                    assert(m@[k]@[w] == b@[w]);
                    let v = choose|v: int| 0 <= v < t.len() && (#[trigger] t[v])@ == b@[w]@;
                    assert(t[v]@ == h@);
                }
                if has_hash(t, *h) {
                    let v = choose|v: int| 0 <= v < t.len() && (#[trigger] t[v])@ == h@;
                    assert(bucket_key(t[v]@) == k);
                    assert(has_hash(m@[k]@, t[v]));
                    let w = choose|w: int| 0 <= w < m@[k]@.len() && (#[trigger] m@[k]@[w])@ == t[v]@;
                    assert(b@[w]@ == h@);
                }
            }
            r
        },
        None => {
            proof {
                if has_hash(t, *h) {
                    let v = choose|v: int| 0 <= v < t.len() && (#[trigger] t[v])@ == h@;
                    assert(bucket_key(t[v]@) == k);
                }
            }
            false
        },
    }
}

/// What the host has that the peer does not: the content-addressed diff.
/// The peer's hashes are indexed first, so each lookup reads one bucket.
pub fn missing(mine: &Vec<([u8; 32], TrackId)>, theirs: &Vec<[u8; 32]>) -> (r: Vec<([u8; 32], TrackId)>)
    ensures
        r@ == missing_spec(mine@, theirs@),
{
    let index = index_hashes(theirs);
    let mut r: Vec<([u8; 32], TrackId)> = Vec::new();
    let mut i: usize = 0;
    proof {
        reveal(Seq::filter);
    }
    while i < mine.len()
        invariant
            i <= mine@.len(),
            indexes(index@, theirs@),
            r@ == missing_spec(mine@.take(i as int), theirs@),
        decreases mine.len() - i,
    {
        let e = mine[i];
        proof {
            reveal(Seq::filter);
            assert(mine@.take(i + 1).drop_last() =~= mine@.take(i as int));
        }
        if !indexed_has(&index, &e.0, Ghost(theirs@)) {
            r.push(e);
        }
        i += 1;
    }
    assert(mine@.take(mine@.len() as int) =~= mine@);
    r
}

/// Where the sending of a file starts: whether to seek, and the offset
/// reported as already sent. An offset past the end sends from the start
/// of the file but reports the whole size as sent.
pub fn blob_start(from: u64, total: u64) -> (r: (bool, u64))
    ensures
        r.0 == (from > 0 && from <= total),
        r.1 == (if from <= total { from } else { total }),
{
    (from > 0 && from <= total, if from <= total { from } else { total })
}

/// After reading `n` bytes at offset `sent`: whether this chunk is the
/// last one (nothing read, or the size reached) and the next offset.
pub fn blob_step(sent: u64, n: u64, total: u64) -> (r: (bool, u64))
    requires
        sent + n <= u64::MAX,
    ensures
        r.0 == (n == 0 || sent + n >= total),
        r.1 == sent + n,
{
    (n == 0 || sent + n >= total, sent + n)
}

// ---------------------------------------------------------------------------
// The session, message by message
// ---------------------------------------------------------------------------

/// Where the host's side of a session stands.
#[derive(Debug, Clone, Copy, PartialEq, Eq, Structural)]
pub enum ServeStage {
    /// Waiting for the phone's hello.
    Hello,
    /// The phone introduced itself: waiting for the pairing decision.
    Authorize,
    /// Hello and user layer sent: waiting for the list of what it has.
    Have,
    /// The list sent: serving files until `Done`.
    Serving,
    /// Over, well or not.
    Closed,
}

/// Why the host stops a session.
#[derive(Debug, Clone, PartialEq, Eq)]
pub enum ServeStop {
    /// The phone speaks another version of the protocol (this one).
    Version(u16),
    /// A message other than the one waited for at this stage.
    Unexpected(ServeStage),
    /// The phone is not paired.
    NotPaired,
    /// The phone reported an error.
    Peer(String),
}

/// What the host does next.
#[derive(Debug)]
pub enum ServeAction {
    /// Ask whether the device called `name` may pair.
    Authorize(String),
    /// Accepted: send this host's hello and its user layer.
    Welcome,
    /// Send the metadata of the tracks missing from these hashes.
    List(Vec<[u8; 32]>),
    /// Send the file of `hash` from byte `from` on.
    Send { hash: [u8; 32], from: u64 },
    /// The phone is done: the session ends well.
    Finish,
    /// Stop: the reply `Error` is owed to the phone only for `NotPaired`.
    Stop(ServeStop),
}

/// The host's next stage and action for a message of the phone.
pub open spec fn serve_step_spec(stage: ServeStage, msg: Msg) -> (ServeStage, ServeAction) {
    match stage {
        ServeStage::Hello => match msg {
            Msg::Hello { proto, device_name } => if proto == PROTO_VERSION {
                (ServeStage::Authorize, ServeAction::Authorize(device_name))
            } else {
                (ServeStage::Closed, ServeAction::Stop(ServeStop::Version(proto)))
            },
            _ => (ServeStage::Closed, ServeAction::Stop(ServeStop::Unexpected(ServeStage::Hello))),
        },
        ServeStage::Have => match msg {
            Msg::Have { hashes } => (ServeStage::Serving, ServeAction::List(hashes)),
            _ => (ServeStage::Closed, ServeAction::Stop(ServeStop::Unexpected(ServeStage::Have))),
        },
        ServeStage::Serving => match msg {
            Msg::NeedBlob { hash, from } => (ServeStage::Serving, ServeAction::Send { hash, from }),
            Msg::Done => (ServeStage::Closed, ServeAction::Finish),
            Msg::Error { msg } => (ServeStage::Closed, ServeAction::Stop(ServeStop::Peer(msg))),
            _ => (ServeStage::Closed, ServeAction::Stop(ServeStop::Unexpected(ServeStage::Serving))),
        },
        _ => (ServeStage::Closed, ServeAction::Stop(ServeStop::Unexpected(stage))),
    }
}

/// One message of the phone, taken by the host.
pub fn serve_step(stage: ServeStage, msg: Msg) -> (r: (ServeStage, ServeAction))
    ensures
        r == serve_step_spec(stage, msg),
{
    match stage {
        ServeStage::Hello => match msg {
            Msg::Hello { proto, device_name } => match check_hello(proto) {
                Ok(()) => (ServeStage::Authorize, ServeAction::Authorize(device_name)),
                Err(theirs) => (ServeStage::Closed, ServeAction::Stop(ServeStop::Version(theirs))),
            },
            _ => (ServeStage::Closed, ServeAction::Stop(ServeStop::Unexpected(ServeStage::Hello))),
        },
        ServeStage::Have => match msg {
            Msg::Have { hashes } => (ServeStage::Serving, ServeAction::List(hashes)),
            _ => (ServeStage::Closed, ServeAction::Stop(ServeStop::Unexpected(ServeStage::Have))),
        },
        ServeStage::Serving => match msg {
            Msg::NeedBlob { hash, from } => (ServeStage::Serving, ServeAction::Send { hash, from }),
            Msg::Done => (ServeStage::Closed, ServeAction::Finish),
            Msg::Error { msg } => (ServeStage::Closed, ServeAction::Stop(ServeStop::Peer(msg))),
            _ => (ServeStage::Closed, ServeAction::Stop(ServeStop::Unexpected(ServeStage::Serving))),
        },
        _ => (ServeStage::Closed, ServeAction::Stop(ServeStop::Unexpected(stage))),
    }
}

/// The pairing decision taken: an accepted device is welcomed and the host
/// waits for its list; a refused one is told and the session closes.
pub fn authorized(stage: ServeStage, decision: AuthDecision) -> (r: (ServeStage, ServeAction))
    ensures
        stage == ServeStage::Authorize && decision == AuthDecision::Accept ==> r matches (
            ServeStage::Have,
            ServeAction::Welcome,
        ),
        stage == ServeStage::Authorize && decision == AuthDecision::Reject ==> r matches (
            ServeStage::Closed,
            ServeAction::Stop(ServeStop::NotPaired),
        ),
        stage != ServeStage::Authorize ==> (r matches (ServeStage::Closed, ServeAction::Stop(ServeStop::Unexpected(s)))
            && s == stage),
{
    match stage {
        ServeStage::Authorize => match decision {
            AuthDecision::Accept => (ServeStage::Have, ServeAction::Welcome),
            AuthDecision::Reject => (ServeStage::Closed, ServeAction::Stop(ServeStop::NotPaired)),
        },
        _ => (ServeStage::Closed, ServeAction::Stop(ServeStop::Unexpected(stage))),
    }
}

} // verus!
