//! Erasure-coded UDP broadcast: the wire frame, RaptorQ encoding of an object
//! into frames, round-robin sharding of frames over receivers, and the
//! receiver's per-batch reassembly state machine.
use vstd::prelude::*;

pub mod batch_id;
pub mod codec;
pub mod fanout;
pub mod frame;
pub mod node;
pub mod reassembler;

verus! {

/// Width of a batch identifier in bytes.
pub const BATCH_ID_SIZE: usize = 46;

/// Largest datagram put on the wire: the IPv6 minimum MTU.
pub const MTU_SIZE: usize = 1280;

/// Bytes before the RaptorQ payload: reserved byte, forward flag, batch id.
pub const HEADER_SIZE: usize = 2 + BATCH_ID_SIZE;

/// How many datagrams the socket reader takes per read.
pub const NUM_RCVMMSGS: usize = 32;

} // verus!
