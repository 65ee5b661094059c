//! Tracks still waiting for the loudness leveller.
use vstd::prelude::*;

use crate::model::TrackId;

verus! {

/// A track without leveller data yet, with the path ready to decode.
#[derive(Debug, Clone, PartialEq, Eq)]
pub struct Pending {
    pub id: TrackId,
    pub path: String,
}

} // verus!
