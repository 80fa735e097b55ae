//! Core of a block-addressable, inode-based filesystem for a teaching
//! operating system, together with the task and syscall state machines
//! that sit above it.
use vstd::prelude::*;

pub mod block_cache;
pub mod block_dev;
pub mod dirent;
pub mod efs;
pub mod layout;
pub mod mm;
pub mod syscall;
pub mod task;
pub mod vfs;

verus! {

/// Size in bytes of one device block.
pub const BLOCK_SZ: usize = 512;

} // verus!
