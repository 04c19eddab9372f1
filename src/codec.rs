//! RaptorQ encoding of an object into framed packets, and the decoder a
//! receiver keeps per batch. The RaptorQ code itself is the `raptorq` crate's.
use vstd::prelude::*;

use crate::frame::{create_packet, frame_bytes, MAX_FRAME_PAYLOAD};
use crate::{BATCH_ID_SIZE, MTU_SIZE};

verus! {

/// Bytes of RaptorQ's own symbol header (source block number, symbol id).
pub const PACKET_SNO: usize = 4;

/// Bytes of the forward flag.
pub const FLAGS: usize = 1;

/// Most symbol bytes a datagram can carry without IPv6 fragmentation:
/// the MTU less the frame header, an IPv6 header (40) and a fragment header (8).
pub const PAYLOAD_SIZE: usize = MTU_SIZE - PACKET_SNO - BATCH_ID_SIZE - FLAGS - 40 - 8;

/// Largest object this library encodes: just under 4 GiB. Up to this
/// length, with symbols of at least 1024 bytes, RaptorQ's default parameters
/// need at most 75 source blocks, well within the 256 its block number
/// holds; the library bounds objects here rather than at RaptorQ's own,
/// larger limit so that the length also fits a 32-bit `usize`.
pub const MAX_OBJECT_LEN: usize = 4294967295;

/// Most repair symbols per source block: RaptorQ numbers symbols below
/// 2^24, and repair symbols after up to 56403 source symbols.
pub const MAX_REPAIR_SYMBOLS: u32 = 16720813;

/// Largest transfer length RaptorQ admits.
pub const MAX_TRANSFER_LENGTH: u64 = 942574504275;

/// Most source symbols RaptorQ admits in one source block.
pub const MAX_SOURCE_SYMBOLS_PER_BLOCK: u64 = 56403;

#[verifier::external_type_specification]
#[verifier::external_body]
pub struct ExDecoder(raptorq::Decoder);

/// What RaptorQ's encoder, with its default parameters for symbols of at
/// most `max_symbol_size` bytes, produces from `data` with `repair_per_block`
/// repair symbols per source block: each encoding symbol serialized.
pub uninterp spec fn raptorq_symbols(data: Seq<u8>, max_symbol_size: u16, repair_per_block: u32) -> Seq<Seq<u8>>;

/// The object parameters `(transfer length, symbol size, source blocks,
/// sub-blocks, alignment)` RaptorQ chooses by default for an object of
/// `len` bytes and symbols of at most `max_symbol_size` bytes.
pub uninterp spec fn raptorq_default_params(len: u64, max_symbol_size: u16) -> (u64, u16, u8, u16, u8);

/// The object parameters a decoder was built with.
pub uninterp spec fn decoder_params(d: raptorq::Decoder) -> (u64, u16, u8, u16, u8);

/// The symbol size RaptorQ picks for symbols of at most `max_symbol_size`
/// bytes: aligned down to 8 bytes once at least 64 are allowed.
pub open spec fn aligned_symbol_size(max_symbol_size: u16) -> int {
    if max_symbol_size >= 64 {
        max_symbol_size - max_symbol_size % 8
    } else {
        max_symbol_size as int
    }
}

/// The bytes of each packet of a list.
pub open spec fn packets_view(v: Seq<Vec<u8>>) -> Seq<Seq<u8>> {
    v.map_values(|p: Vec<u8>| p@)
}

/// Relies on raptorq's `Encoder::with_defaults`, `get_encoded_packets` and
/// `EncodingPacket::serialize`: the result depends on the arguments alone,
/// and each serialized symbol is its 4-byte payload id followed by one symbol.
/// `PayloadId::new` asserts that every symbol id is below 2^24.
#[verifier::external_body]
fn raptorq_encode(data: &[u8], max_symbol_size: u16, repair_per_block: u32) -> (r: Vec<Vec<u8>>)
    requires
        0 < data@.len() <= MAX_OBJECT_LEN,
        max_symbol_size >= 1024,
        repair_per_block <= MAX_REPAIR_SYMBOLS,
    ensures
        packets_view(r@) == raptorq_symbols(data@, max_symbol_size, repair_per_block),
        forall|i: int| 0 <= i < r@.len() ==> r@[i]@.len() == PACKET_SNO + aligned_symbol_size(max_symbol_size),
{
    let encoder = raptorq::Encoder::with_defaults(data, max_symbol_size);
    encoder.get_encoded_packets(repair_per_block).iter().map(|p| p.serialize()).collect()
}

/// Relies on raptorq's `ObjectTransmissionInformation::with_defaults`: the
/// parameters depend on the arguments alone; the transfer length is `len`
/// and the symbol size is `max_symbol_size` aligned down to 8 bytes.
#[verifier::external_body]
fn raptorq_params(len: u64, max_symbol_size: u16) -> (r: (u64, u16, u8, u16, u8))
    requires
        0 < len <= MAX_OBJECT_LEN,
        max_symbol_size >= 1024,
    ensures
        r == raptorq_default_params(len, max_symbol_size),
        r.0 == len,
        r.1 == aligned_symbol_size(max_symbol_size),
{
    let c = raptorq::ObjectTransmissionInformation::with_defaults(len, max_symbol_size);
    (c.transfer_length(), c.symbol_size(), c.source_blocks(), c.sub_blocks(), c.symbol_alignment())
}

/// Relies on raptorq's `ObjectTransmissionInformation::new` and
/// `Decoder::new`: a fresh decoder for the given parameters. Both panic on
/// parameters outside `TransmissionParams::wf`.
#[verifier::external_body]
fn raptorq_decoder(params: (u64, u16, u8, u16, u8)) -> (r: raptorq::Decoder)
    requires
        params_valid(params),
    ensures
        decoder_params(r) == params,
{
    let (f, t, z, n, al) = params;
    raptorq::Decoder::new(raptorq::ObjectTransmissionInformation::new(f, t, z, n, al))
}

/// Relies on raptorq's `EncodingPacket::deserialize` and `Decoder::decode`:
/// feeds one serialized symbol (payload id, then symbol bytes) to the
/// decoder, which answers with the whole object, truncated to the transfer
/// length, once it can. `decode` indexes its blocks by the symbol's first
/// byte, the source block number.
#[verifier::external_body]
fn raptorq_decode(decoder: &mut raptorq::Decoder, symbol: &[u8]) -> (r: Option<Vec<u8>>)
    requires
        symbol@.len() == PACKET_SNO + decoder_params(*old(decoder)).1,
        symbol@[0] < decoder_params(*old(decoder)).2,
    ensures
        decoder_params(*final(decoder)) == decoder_params(*old(decoder)),
        r matches Some(v) ==> v@.len() == decoder_params(*old(decoder)).0,
{
    decoder.decode(raptorq::EncodingPacket::deserialize(symbol))
}

/// `ceil(a / b)` for `b > 0`.
pub open spec fn div_ceil(a: int, b: int) -> int {
    (a + b - 1) / b
}

/// Parameters on which RaptorQ builds a decoder without panicking: each
/// source block holds at least one symbol and at most the most RaptorQ
/// admits, and each symbol splits into the sub-blocks.
pub open spec fn params_valid(p: (u64, u16, u8, u16, u8)) -> bool {
    &&& 0 < p.0 <= MAX_TRANSFER_LENGTH
    &&& p.1 > 0
    &&& p.2 > 0
    &&& p.3 > 0
    &&& p.4 > 0
    &&& p.1 % (p.4 as u16) == 0
    &&& p.3 <= p.1 / (p.4 as u16)
    &&& p.2 <= div_ceil(p.0 as int, p.1 as int)
    &&& div_ceil(div_ceil(p.0 as int, p.1 as int), p.2 as int) <= MAX_SOURCE_SYMBOLS_PER_BLOCK
}

/// RaptorQ's object transmission information as plain values: what a
/// receiver must know to decode a batch.
#[derive(Debug, Clone, Copy, PartialEq, Eq, Structural)]
pub struct TransmissionParams {
    pub transfer_length: u64,
    pub symbol_size: u16,
    pub source_blocks: u8,
    pub sub_blocks: u16,
    pub alignment: u8,
}

impl TransmissionParams {
    pub open spec fn as_tuple(&self) -> (u64, u16, u8, u16, u8) {
        (self.transfer_length, self.symbol_size, self.source_blocks, self.sub_blocks, self.alignment)
    }

    pub open spec fn wf(&self) -> bool {
        params_valid(self.as_tuple())
    }

    /// The parameters, where RaptorQ accepts them.
    pub fn new(transfer_length: u64, symbol_size: u16, source_blocks: u8, sub_blocks: u16, alignment: u8) -> (r: Option<TransmissionParams>)
        ensures
            r is Some <==> params_valid((transfer_length, symbol_size, source_blocks, sub_blocks, alignment)),
            r matches Some(p) ==> p.as_tuple() == (transfer_length, symbol_size, source_blocks, sub_blocks, alignment),
    {
        if transfer_length == 0 || transfer_length > MAX_TRANSFER_LENGTH || symbol_size == 0 || source_blocks == 0
            || sub_blocks == 0 || alignment == 0 || symbol_size % (alignment as u16) != 0
            || sub_blocks > symbol_size / (alignment as u16) {
            return None;
        }
        let t = symbol_size as u64;
        let symbols = transfer_length / t + if transfer_length % t == 0 { 0 } else { 1 };
        let z = source_blocks as u64;
        let per_block = symbols / z + if symbols % z == 0 { 0 } else { 1 };
        proof {
            lemma_div_ceil(transfer_length as int, t as int);
            lemma_div_ceil(symbols as int, z as int);
        }
        if z > symbols || per_block > MAX_SOURCE_SYMBOLS_PER_BLOCK {
            return None;
        }
        Some(TransmissionParams { transfer_length, symbol_size, source_blocks, sub_blocks, alignment })
    }
}

proof fn lemma_div_ceil(a: int, b: int)
    requires
        a >= 0,
        b > 0,
    ensures
        div_ceil(a, b) == a / b + if a % b == 0 { 0int } else { 1int },
{
    vstd::arithmetic::div_mod::lemma_fundamental_div_mod(a, b);
    vstd::arithmetic::div_mod::lemma_mod_bound(a, b);
    assert((a / b) * b == b * (a / b)) by (nonlinear_arith);
    if a % b == 0 {
        vstd::arithmetic::div_mod::lemma_fundamental_div_mod_converse(a + b - 1, b, a / b, b - 1);
    } else {
        assert((a / b + 1) * b == (a / b) * b + b) by (nonlinear_arith);
        vstd::arithmetic::div_mod::lemma_fundamental_div_mod_converse(a + b - 1, b, a / b + 1, a % b - 1);
    }
}

/// Why an object could not be encoded.
#[derive(Debug, Clone, Copy, PartialEq, Eq, Structural)]
pub enum EncodeError {
    /// RaptorQ has nothing to encode in an empty object.
    EmptyObject,
    /// The object is longer than `MAX_OBJECT_LEN`.
    ObjectTooLarge,
    /// More than `MAX_REPAIR_SYMBOLS` repair symbols per block were asked for.
    TooManyRepairSymbols,
}

/// The encoding symbols of `data` with `erasure_count` repair symbols per
/// source block, each serialized, for symbols that fit one datagram.
pub fn encode_into_packets(unencoded_packet_list: &[u8], erasure_count: u32) -> (r: Result<Vec<Vec<u8>>, EncodeError>)
    ensures
        unencoded_packet_list@.len() == 0 <==> r == Err::<Vec<Vec<u8>>, EncodeError>(EncodeError::EmptyObject),
        unencoded_packet_list@.len() > MAX_OBJECT_LEN <==> r == Err::<Vec<Vec<u8>>, EncodeError>(EncodeError::ObjectTooLarge),
        (0 < unencoded_packet_list@.len() <= MAX_OBJECT_LEN && erasure_count > MAX_REPAIR_SYMBOLS)
            <==> r == Err::<Vec<Vec<u8>>, EncodeError>(EncodeError::TooManyRepairSymbols),
        r matches Ok(v) ==> packets_view(v@) == raptorq_symbols(unencoded_packet_list@, PAYLOAD_SIZE as u16, erasure_count),
        r matches Ok(v) ==> forall|i: int| 0 <= i < v@.len() ==> v@[i]@.len() == PACKET_SNO + aligned_symbol_size(PAYLOAD_SIZE as u16),
{
    if unencoded_packet_list.len() == 0 {
        return Err(EncodeError::EmptyObject);
    }
    if unencoded_packet_list.len() > MAX_OBJECT_LEN {
        return Err(EncodeError::ObjectTooLarge);
    }
    if erasure_count > MAX_REPAIR_SYMBOLS {
        return Err(EncodeError::TooManyRepairSymbols);
    }
    Ok(raptorq_encode(unencoded_packet_list, PAYLOAD_SIZE as u16, erasure_count))
}

/// Encodes `full_list` and frames each symbol for batch `batch_id`, in the
/// order the encoder gives them.
pub fn split_into_packets(full_list: &[u8], batch_id: [u8; BATCH_ID_SIZE], erasure_count: u32) -> (r: Result<Vec<Vec<u8>>, EncodeError>)
    ensures
        full_list@.len() == 0 <==> r == Err::<Vec<Vec<u8>>, EncodeError>(EncodeError::EmptyObject),
        full_list@.len() > MAX_OBJECT_LEN <==> r == Err::<Vec<Vec<u8>>, EncodeError>(EncodeError::ObjectTooLarge),
        (0 < full_list@.len() <= MAX_OBJECT_LEN && erasure_count > MAX_REPAIR_SYMBOLS)
            <==> r == Err::<Vec<Vec<u8>>, EncodeError>(EncodeError::TooManyRepairSymbols),
        r matches Ok(v) ==> packets_view(v@) == raptorq_symbols(full_list@, PAYLOAD_SIZE as u16, erasure_count).map_values(
            |s: Seq<u8>| frame_bytes(batch_id@, s)),
{
    let symbols = match encode_into_packets(full_list, erasure_count) {
        Ok(s) => s,
        Err(e) => return Err(e),
    };
    let ghost encoded = raptorq_symbols(full_list@, PAYLOAD_SIZE as u16, erasure_count);
    let mut headered_packets: Vec<Vec<u8>> = Vec::with_capacity(symbols.len());
    for i in 0..symbols.len()
        invariant
            packets_view(symbols@) == encoded,
            forall|k: int| 0 <= k < symbols@.len() ==> symbols@[k]@.len() == PACKET_SNO + aligned_symbol_size(PAYLOAD_SIZE as u16),
            packets_view(headered_packets@) == encoded.subrange(0, i as int).map_values(
                |s: Seq<u8>| frame_bytes(batch_id@, s)),
    {
        let symbol = symbols[i].clone();
        assert(symbol@ =~= symbols@[i as int]@);
        assert(packets_view(symbols@)[i as int] == symbols@[i as int]@);
        match create_packet(batch_id, symbol) {
            Ok(p) => {
                let ghost before = headered_packets@;
                headered_packets.push(p);
                assert(packets_view(headered_packets@) =~= packets_view(before).push(p@));
                assert(encoded.subrange(0, i + 1) =~= encoded.subrange(0, i as int).push(encoded[i as int]));
                assert(encoded.subrange(0, i + 1).map_values(|s: Seq<u8>| frame_bytes(batch_id@, s))
                    =~= encoded.subrange(0, i as int).map_values(|s: Seq<u8>| frame_bytes(batch_id@, s)).push(
                    frame_bytes(batch_id@, encoded[i as int])));
            },
            Err(_) => {
                assert(false);
            },
        }
    }
    assert(encoded.subrange(0, symbols@.len() as int) =~= encoded);
    Ok(headered_packets)
}

/// The object parameters RaptorQ uses for an object of `object_len` bytes
/// encoded by `encode_into_packets`; a receiver builds its decoders from
/// them. `None` for an empty or too long object, or where the default
/// parameters are outside what a decoder accepts.
pub fn transmission_params_for(object_len: usize) -> (r: Option<TransmissionParams>)
    ensures
        (object_len == 0 || object_len > MAX_OBJECT_LEN) ==> r is None,
        r matches Some(p) ==> p.wf() && p.as_tuple() == raptorq_default_params(object_len as u64, PAYLOAD_SIZE as u16),
        (0 < object_len <= MAX_OBJECT_LEN && params_valid(raptorq_default_params(object_len as u64, PAYLOAD_SIZE as u16)))
            ==> r is Some,
{
    if object_len == 0 || object_len > MAX_OBJECT_LEN {
        return None;
    }
    let (f, t, z, n, al) = raptorq_params(object_len as u64, PAYLOAD_SIZE as u16);
    TransmissionParams::new(f, t, z, n, al)
}

/// A RaptorQ decoder for one batch, with the parameters it was built with.
pub struct BatchDecoder {
    params: TransmissionParams,
    decoder: raptorq::Decoder,
    history: Ghost<Seq<(Seq<u8>, Option<Seq<u8>>)>>,
}

/// The bytes of an optional packet or object.
pub open spec fn bytes_of(o: Option<Vec<u8>>) -> Option<Seq<u8>> {
    match o {
        Some(v) => Some(v@),
        None => None,
    }
}

impl BatchDecoder {
    /// The parameters the decoder was built with.
    pub closed spec fn spec_params(&self) -> TransmissionParams {
        self.params
    }

    /// Each symbol fed to the decoder, in order, with what the decoder
    /// answered to it.
    pub closed spec fn history(&self) -> Seq<(Seq<u8>, Option<Seq<u8>>)> {
        self.history@
    }

    pub closed spec fn wf(&self) -> bool {
        self.params.wf() && decoder_params(self.decoder) == self.params.as_tuple()
    }

    /// Whether the decoder takes `symbol`: a payload id and exactly one
    /// symbol, in one of the object's source blocks.
    pub open spec fn accepts(params: TransmissionParams, symbol: Seq<u8>) -> bool {
        symbol.len() == PACKET_SNO + params.symbol_size && symbol[0] < params.source_blocks
    }

    /// A fresh decoder.
    pub fn new(params: TransmissionParams) -> (r: BatchDecoder)
        requires
            params.wf(),
        ensures
            r.wf(),
            r.spec_params() == params,
            r.history() == Seq::<(Seq<u8>, Option<Seq<u8>>)>::empty(),
    {
        let decoder = raptorq_decoder(
            (params.transfer_length, params.symbol_size, params.source_blocks, params.sub_blocks, params.alignment),
        );
        BatchDecoder { params, decoder, history: Ghost(Seq::empty()) }
    }

    /// Feeds one serialized symbol; the whole object once it can be rebuilt.
    pub fn decode(&mut self, symbol: &[u8]) -> (r: Option<Vec<u8>>)
        requires
            old(self).wf(),
            Self::accepts(old(self).spec_params(), symbol@),
        ensures
            final(self).wf(),
            final(self).spec_params() == old(self).spec_params(),
            final(self).history() == old(self).history().push((symbol@, bytes_of(r))),
            r matches Some(v) ==> v@.len() == old(self).spec_params().transfer_length,
    {
        let r = raptorq_decode(&mut self.decoder, symbol);
        proof {
            self.history@ = self.history@.push((symbol@, bytes_of(r)));
        }
        r
    }
}

} // verus!
