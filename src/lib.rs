//! A leeching client for the BitTorrent peer wire protocol: the wire codec,
//! the per-peer session state machine, piece scheduling, reassembly and
//! verification, with the I/O left to the caller.

use vstd::prelude::*;

pub mod buffer;
pub mod download;
pub mod hash;
pub mod peers;
pub mod piece;
pub mod session;
pub mod torrent;
pub mod tracker;
pub mod wire;

verus! {

/// The size of a block requested from a peer: 16 KiB.
pub const BLOCK_MAX: usize = 16384;

} // verus!
