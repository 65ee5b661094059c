use vstd::prelude::*;

pub mod fracidx;
pub mod model;
pub mod libgen;
pub mod queue;
pub mod index;
pub mod strutil;
pub mod hex;
pub mod sync;
pub mod ui;
pub mod desk;
pub mod worker;
pub mod output;
pub mod qr;
pub mod ffi;
pub mod audio;
pub mod host;

verus! {
} // verus!
