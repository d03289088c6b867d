//! Compute core of a tensor backend for a single-threaded linear-memory
//! virtual machine: a bump arena with checkpoint/restore, reference-counted
//! persistent storage, an operation pattern cache, and tensor kernels whose
//! index arithmetic and integer paths are verified.

pub mod arena;
pub mod shape;
pub mod executor;
pub mod memory;
pub mod operations;
pub mod pattern;
pub mod storage;
pub mod types;
pub mod utils;
pub mod view_descriptor;

use vstd::prelude::*;

verus! {

} // verus!
