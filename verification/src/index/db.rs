//! Shared bits of the index: the clock its rows are stamped with.
use vstd::prelude::*;

verus! {

/// Trusted: `SystemTime::now().duration_since(UNIX_EPOCH)` (std) in
/// milliseconds; `None` when the clock reads before the epoch. The value
/// depends on the clock: nothing is promised of it.
#[verifier::external_body]
fn millis_since_epoch() -> (r: Option<u128>) {
    std::time::SystemTime::now().duration_since(std::time::UNIX_EPOCH).ok().map(|d| d.as_millis())
}

/// Milliseconds since the Unix epoch; 0 when the clock reads before the
/// epoch or past what an `i64` holds.
pub fn now_ms() -> (t: i64)
    ensures
        t >= 0,
{
    match millis_since_epoch() {
        Some(ms) => if ms <= 9223372036854775807 {
            ms as i64
        } else {
            0
        },
        None => 0,
    }
}

/// Version of the schema kept in `PRAGMA user_version`.
pub const SCHEMA_VERSION: i32 = 5;

/// An index made by a newer version of the player: refused rather than
/// corrupted.
#[derive(Debug, Clone, Copy, PartialEq, Eq, Structural)]
pub struct SchemaTooNew {
    pub found: i32,
    pub supported: i32,
}

/// The migrations an index at `version` needs, in order: each step `k`
/// (from 1 to [`SCHEMA_VERSION`]) that the index has not reached yet.
pub open spec fn migration_steps_spec(version: i32) -> Seq<i32> {
    Seq::new(
        if version < 0 {
            SCHEMA_VERSION as nat
        } else if version >= SCHEMA_VERSION {
            0
        } else {
            (SCHEMA_VERSION - version) as nat
        },
        |i: int| (if version < 0 { 1 + i } else { version + 1 + i }) as i32,
    )
}

/// The migration plan: the steps to apply (none when the index is up to
/// date), or a refusal when the index is newer than this version.
pub fn migration_steps(version: i32) -> (r: Result<Vec<i32>, SchemaTooNew>)
    ensures
        version > SCHEMA_VERSION ==> r == Err::<Vec<i32>, SchemaTooNew>(SchemaTooNew { found: version, supported: SCHEMA_VERSION }),
        version <= SCHEMA_VERSION ==> r is Ok && r->Ok_0@ == migration_steps_spec(version),
{
    if version > SCHEMA_VERSION {
        return Err(SchemaTooNew { found: version, supported: SCHEMA_VERSION });
    }
    let first: i32 = if version < 0 {
        1
    } else {
        version + 1
    };
    let mut steps: Vec<i32> = Vec::new();
    let mut k: i32 = first;
    while k <= SCHEMA_VERSION
        invariant
            first <= k <= SCHEMA_VERSION + 1,
            first == (if version < 0 { 1 } else { version + 1 }),
            version <= SCHEMA_VERSION,
            steps@.len() == k - first,
            forall|i: int| 0 <= i < steps@.len() ==> steps@[i] == first + i,
        decreases SCHEMA_VERSION + 1 - k,
    {
        steps.push(k);
        k += 1;
    }
    assert(steps@ =~= migration_steps_spec(version));
    Ok(steps)
}

} // verus!
