//! The wire frame: `[0, forward_flag, batch_id (46 bytes), payload]`.
use vstd::prelude::*;

use crate::{BATCH_ID_SIZE, HEADER_SIZE, MTU_SIZE};

verus! {

/// Largest payload a frame can carry.
pub const MAX_FRAME_PAYLOAD: usize = MTU_SIZE - HEADER_SIZE;

/// Shortest frame a receiver accepts: the header and one payload byte.
pub const MIN_PACKET_LEN: usize = HEADER_SIZE + 1;

/// The bytes of a frame as the sender writes it: forward flag set.
pub open spec fn frame_bytes(batch_id: Seq<u8>, payload: Seq<u8>) -> Seq<u8> {
    seq![0u8, 1u8] + batch_id + payload
}

/// The fields of the first `len` bytes of `buf`, or `None` where those bytes
/// cannot be a frame.
pub open spec fn packet_fields(buf: Seq<u8>, len: int) -> Option<(Seq<u8>, u8, Seq<u8>)> {
    if MIN_PACKET_LEN <= len <= buf.len() {
        Some((buf.subrange(2, HEADER_SIZE as int), buf[1], buf.subrange(HEADER_SIZE as int, len)))
    } else {
        None
    }
}

/// Why a frame could not be built.
#[derive(Debug, Clone, Copy, PartialEq, Eq)]
pub enum FrameError {
    /// The payload does not fit in one MTU behind the header.
    PayloadTooLarge,
}

/// The fields of a received frame.
#[derive(Debug)]
pub struct ParsedPacket {
    pub batch_id: [u8; BATCH_ID_SIZE],
    pub forward_flag: u8,
    pub payload: Vec<u8>,
}

/// Builds the frame for `payload` in batch `batch_id`, forward flag set.
pub fn create_packet(batch_id: [u8; BATCH_ID_SIZE], payload: Vec<u8>) -> (r: Result<Vec<u8>, FrameError>)
    ensures
        payload@.len() <= MAX_FRAME_PAYLOAD <==> r is Ok,
        r matches Ok(v) ==> v@ == frame_bytes(batch_id@, payload@),
        r matches Err(e) ==> e == FrameError::PayloadTooLarge,
{
    if payload.len() > MAX_FRAME_PAYLOAD {
        return Err(FrameError::PayloadTooLarge);
    }
    let mut mtu: Vec<u8> = Vec::with_capacity(HEADER_SIZE + payload.len());
    mtu.push(0u8);
    mtu.push(1u8);
    for i in 0..BATCH_ID_SIZE
        invariant
            mtu@ == seq![0u8, 1u8] + batch_id@.subrange(0, i as int),
    {
        mtu.push(batch_id[i]);
        assert(batch_id@.subrange(0, i + 1) == batch_id@.subrange(0, i as int).push(batch_id@[i as int]));
    }
    assert(batch_id@.subrange(0, BATCH_ID_SIZE as int) == batch_id@);
    let n = payload.len();
    for j in 0..n
        invariant
            n == payload@.len(),
            mtu@ == seq![0u8, 1u8] + batch_id@ + payload@.subrange(0, j as int),
    {
        mtu.push(payload[j]);
        assert(payload@.subrange(0, j + 1) == payload@.subrange(0, j as int).push(payload@[j as int]));
    }
    assert(payload@.subrange(0, n as int) == payload@);
    Ok(mtu)
}

/// Copies the batch id out of a received buffer (bytes 2 to 47).
pub fn get_batch_id(packet: &[u8; MTU_SIZE]) -> (r: [u8; BATCH_ID_SIZE])
    ensures
        r@ == packet@.subrange(2, HEADER_SIZE as int),
{
    let mut batch_id: [u8; BATCH_ID_SIZE] = [0u8; BATCH_ID_SIZE];
    for i in 0..BATCH_ID_SIZE
        invariant
            batch_id@.len() == BATCH_ID_SIZE,
            forall|k: int| 0 <= k < i ==> batch_id@[k] == packet@[k + 2],
    {
        batch_id[i] = packet[i + 2];
    }
    assert(batch_id@ =~= packet@.subrange(2, HEADER_SIZE as int));
    batch_id
}

/// Splits the first `len` bytes of a received buffer into its fields; `None`
/// where `len` is shorter than a header and one payload byte, or longer than
/// the buffer.
pub fn parse_packet(buf: &[u8; MTU_SIZE], len: usize) -> (r: Option<ParsedPacket>)
    ensures
        match packet_fields(buf@, len as int) {
            None => r is None,
            Some(f) => r matches Some(p) && p.batch_id@ == f.0 && p.forward_flag == f.1
                && p.payload@ == f.2,
        },
{
    if len < MIN_PACKET_LEN || len > MTU_SIZE {
        return None;
    }
    let batch_id = get_batch_id(buf);
    let mut payload: Vec<u8> = Vec::with_capacity(len - HEADER_SIZE);
    for j in HEADER_SIZE..len
        invariant
            HEADER_SIZE <= len <= MTU_SIZE,
            payload@ == buf@.subrange(HEADER_SIZE as int, j as int),
    {
        payload.push(buf[j]);
        assert(buf@.subrange(HEADER_SIZE as int, j + 1)
            == buf@.subrange(HEADER_SIZE as int, j as int).push(buf@[j as int]));
    }
    Some(ParsedPacket { batch_id, forward_flag: buf[1], payload })
}

/// Round trip of the frame: a frame written at the start of a receive buffer
/// parses back into its batch id, a set forward flag and its payload, for
/// every payload of at least one byte that fits in a frame.
pub proof fn lemma_frame_round_trip(batch_id: Seq<u8>, payload: Seq<u8>, buf: Seq<u8>)
    requires
        batch_id.len() == BATCH_ID_SIZE,
        1 <= payload.len() <= MAX_FRAME_PAYLOAD,
        buf.len() == MTU_SIZE,
        buf.subrange(0, frame_bytes(batch_id, payload).len() as int) == frame_bytes(batch_id, payload),
    ensures
        packet_fields(buf, frame_bytes(batch_id, payload).len() as int) == Some((batch_id, 1u8, payload)),
{
    let f = frame_bytes(batch_id, payload);
    let n = f.len() as int;
    assert(buf[1] == f[1]);
    assert(buf.subrange(2, HEADER_SIZE as int) =~= f.subrange(2, HEADER_SIZE as int));
    assert(f.subrange(2, HEADER_SIZE as int) =~= batch_id);
    assert(buf.subrange(HEADER_SIZE as int, n) =~= f.subrange(HEADER_SIZE as int, n));
    assert(f.subrange(HEADER_SIZE as int, n) =~= payload);
}

} // verus!
