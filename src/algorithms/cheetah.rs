use vstd::prelude::*;

use crate::algorithms::{hash, quad_hash, PLAIN_FLAG, TABLE_SIZE};
use crate::codec::codec::{decode_from, encode_from, Codec};
use crate::codec::decoder::{decode_quads, Decoder, QuadDecoder};
use crate::codec::protection_state::ProtectionState;
use crate::codec::quad_encoder::QuadEncoder;
use crate::errors::decode_error::DecodeError;
use crate::errors::encode_error::EncodeError;
use crate::io::bytes::{
    le_bytes, lemma_read_prefix, lemma_u16_round_trip, lemma_u32_round_trip, u16_of, u32_of,
};
use crate::io::read_buffer::ReadBuffer;
use crate::io::read_signature::ReadSignature;
use crate::io::write_buffer::WriteBuffer;
use crate::io::write_signature::WriteSignature;

verus! {

pub const FLAG_SIZE_BITS: u8 = 2;

pub const MAP_A_FLAG: u64 = 0x1;

pub const MAP_B_FLAG: u64 = 0x2;

pub const PREDICTED_FLAG: u64 = 0x3;

pub const DECODE_FLAG_MASK: u64 = 0x3;

pub const DECODE_FLAG_MASK_BITS: u8 = 2;

/// The two most recent quads seen with one hash, most recent first.
#[derive(Clone, Copy, Debug, PartialEq, Eq)]
pub struct ChunkData {
    pub chunk_a: u32,
    pub chunk_b: u32,
}

/// The quad that followed the last quad seen with one hash.
#[derive(Clone, Copy, Debug, PartialEq, Eq)]
pub struct PredictionData {
    pub next: u32,
}

/// The tables of the middle algorithm, and the hash of the last quad,
/// which selects the prediction for the next one.
pub struct State {
    pub last_hash: u16,
    pub chunk_map: Vec<ChunkData>,
    pub prediction_map: Vec<PredictionData>,
}

/// The middle algorithm: a two-way dictionary and a one-slot prediction per
/// context.
pub struct Cheetah {
    pub state: State,
}

impl View for Cheetah {
    type V = (u16, Seq<ChunkData>, Seq<PredictionData>);

    open spec fn view(&self) -> (u16, Seq<ChunkData>, Seq<PredictionData>) {
        (self.state.last_hash, self.state.chunk_map@, self.state.prediction_map@)
    }
}

/// `quad` becomes the most recent quad of its dictionary slot.
pub open spec fn promoted(c: ChunkData, quad: u32) -> ChunkData {
    ChunkData { chunk_a: quad, chunk_b: c.chunk_a }
}

impl QuadEncoder for Cheetah {
    open spec fn wf(&self) -> bool {
        &&& self.state.chunk_map@.len() == TABLE_SIZE
        &&& self.state.prediction_map@.len() == TABLE_SIZE
    }

    open spec fn wf_model(m: (u16, Seq<ChunkData>, Seq<PredictionData>)) -> bool {
        &&& m.1.len() == TABLE_SIZE
        &&& m.2.len() == TABLE_SIZE
    }

    open spec fn spec_flag_bits() -> u64 {
        FLAG_SIZE_BITS as u64
    }

    open spec fn spec_block_size() -> nat {
        128
    }

    open spec fn spec_quads_per_block() -> nat {
        32
    }

    open spec fn spec_signature_bytes() -> nat {
        8
    }

    open spec fn initial_model() -> (u16, Seq<ChunkData>, Seq<PredictionData>) {
        (
            0,
            Seq::new(TABLE_SIZE as nat, |i: int| ChunkData { chunk_a: 0, chunk_b: 0 }),
            Seq::new(TABLE_SIZE as nat, |i: int| PredictionData { next: 0 }),
        )
    }

    open spec fn spec_encode_quad(m: (u16, Seq<ChunkData>, Seq<PredictionData>), quad: u32) -> (
        (u16, Seq<ChunkData>, Seq<PredictionData>),
        u64,
        Seq<u8>,
    ) {
        let (last_hash, chunks, predictions) = m;
        let h = quad_hash(quad);
        if predictions[last_hash as int].next == quad {
            ((h, chunks, predictions), PREDICTED_FLAG, Seq::empty())
        } else {
            let c = chunks[h as int];
            let predictions1 = predictions.update(last_hash as int, PredictionData { next: quad });
            if c.chunk_a == quad {
                ((h, chunks, predictions1), MAP_A_FLAG, le_bytes(h as u64, 2))
            } else {
                let chunks1 = chunks.update(h as int, promoted(c, quad));
                if c.chunk_b == quad {
                    ((h, chunks1, predictions1), MAP_B_FLAG, le_bytes(h as u64, 2))
                } else {
                    ((h, chunks1, predictions1), PLAIN_FLAG, le_bytes(quad as u64, 4))
                }
            }
        }
    }

    proof fn lemma_framing() {
    }

    proof fn lemma_wf(&self) {
    }

    proof fn lemma_encode_quad(m: (u16, Seq<ChunkData>, Seq<PredictionData>), quad: u32) {
        assert(0u64 >> 2u64 == 0 && 1u64 >> 2u64 == 0 && 2u64 >> 2u64 == 0 && 3u64 >> 2u64 == 0)
            by (bit_vector);
    }

    fn encode_quad(&mut self, quad: u32, out_buffer: &mut WriteBuffer, signature: &mut WriteSignature) {
        let hash_u16 = hash(quad);
        let last = self.state.last_hash as usize;
        let predicted_chunk = self.state.prediction_map[last].next;
        if predicted_chunk != quad {
            let chunk_data = self.state.chunk_map[hash_u16 as usize];
            if chunk_data.chunk_a != quad {
                if chunk_data.chunk_b != quad {
                    signature.push_bits(PLAIN_FLAG, FLAG_SIZE_BITS);
                    out_buffer.push_u32_le(quad);
                } else {
                    signature.push_bits(MAP_B_FLAG, FLAG_SIZE_BITS);
                    out_buffer.push_u16_le(hash_u16);
                }
                self.state.chunk_map.set(
                    hash_u16 as usize,
                    ChunkData { chunk_a: quad, chunk_b: chunk_data.chunk_a },
                );
            } else {
                signature.push_bits(MAP_A_FLAG, FLAG_SIZE_BITS);
                out_buffer.push_u16_le(hash_u16);
            }
            self.state.prediction_map.set(last, PredictionData { next: quad });
        } else {
            signature.push_bits(PREDICTED_FLAG, FLAG_SIZE_BITS);
        }
        self.state.last_hash = hash_u16;
    }
}

impl QuadDecoder for Cheetah {
    open spec fn spec_flag_mask() -> u64 {
        DECODE_FLAG_MASK
    }

    open spec fn spec_unit_quads() -> nat {
        1
    }

    open spec fn spec_decode_quad(
        m: (u16, Seq<ChunkData>, Seq<PredictionData>),
        flag: u64,
        input: Seq<u8>,
    ) -> Option<((u16, Seq<ChunkData>, Seq<PredictionData>), u32, nat)> {
        let (last_hash, chunks, predictions) = m;
        if flag == PLAIN_FLAG {
            if input.len() < 4 {
                None
            } else {
                let quad = u32_of(input);
                let h = quad_hash(quad);
                Some(
                    (
                        (
                            h,
                            chunks.update(h as int, promoted(chunks[h as int], quad)),
                            predictions.update(last_hash as int, PredictionData { next: quad }),
                        ),
                        quad,
                        4,
                    ),
                )
            }
        } else if flag == MAP_A_FLAG || flag == MAP_B_FLAG {
            if input.len() < 2 {
                None
            } else {
                let h = u16_of(input);
                let c = chunks[h as int];
                let quad = if flag == MAP_A_FLAG {
                    c.chunk_a
                } else {
                    c.chunk_b
                };
                let chunks1 = if flag == MAP_A_FLAG {
                    chunks
                } else {
                    chunks.update(h as int, promoted(c, quad))
                };
                Some(
                    (
                        (
                            h,
                            chunks1,
                            predictions.update(last_hash as int, PredictionData { next: quad }),
                        ),
                        quad,
                        2,
                    ),
                )
            }
        } else {
            let quad = predictions[last_hash as int].next;
            Some(((quad_hash(quad), chunks, predictions), quad, 0))
        }
    }

    proof fn lemma_decoder_shape() {
    }

    proof fn lemma_decode_quad_bounds(
        m: (u16, Seq<ChunkData>, Seq<PredictionData>),
        flag: u64,
        input: Seq<u8>,
    ) {
    }

    proof fn lemma_decode_quad(m: (u16, Seq<ChunkData>, Seq<PredictionData>), quad: u32, rest: Seq<
        u8,
    >) {
        let h = quad_hash(quad);
        lemma_u32_round_trip(quad);
        lemma_read_prefix(le_bytes(quad as u64, 4), rest, 4);
        lemma_u16_round_trip(h);
        lemma_read_prefix(le_bytes(h as u64, 2), rest, 2);
    }
}

impl Cheetah {
    pub fn new() -> (r: Cheetah)
        ensures
            r.wf(),
            r@ == Self::initial_model(),
    {
        let mut chunk_map: Vec<ChunkData> = Vec::new();
        let mut prediction_map: Vec<PredictionData> = Vec::new();
        let mut i: usize = 0;
        while i < TABLE_SIZE
            invariant
                i <= TABLE_SIZE,
                chunk_map@ == Seq::new(i as nat, |k: int| ChunkData { chunk_a: 0, chunk_b: 0 }),
                prediction_map@ == Seq::new(i as nat, |k: int| PredictionData { next: 0 }),
            decreases TABLE_SIZE - i,
        {
            chunk_map.push(ChunkData { chunk_a: 0, chunk_b: 0 });
            prediction_map.push(PredictionData { next: 0 });
            i += 1;
            assert(chunk_map@ =~= Seq::new(i as nat, |k: int| ChunkData { chunk_a: 0, chunk_b: 0 }));
            assert(prediction_map@ =~= Seq::new(i as nat, |k: int| PredictionData { next: 0 }));
        }
        Cheetah { state: State { last_hash: 0, chunk_map, prediction_map } }
    }

    /// Encodes `input` into `output` with a fresh instance; answers the size
    /// of the encoded stream, or an error when `output` is too small for it.
    pub fn encode(input: &[u8], output: &mut [u8]) -> (r: Result<usize, EncodeError>)
        ensures
            ({
                let encoded = encode_from::<Cheetah>(
                    Self::initial_model(),
                    ProtectionState::initial(),
                    input@,
                ).1;
                match r {
                    Ok(n) => {
                        &&& n == encoded.len()
                        &&& encoded.len() <= old(output)@.len()
                        &&& final(output)@ == encoded + old(output)@.skip(n as int)
                    },
                    Err(_) => {
                        &&& encoded.len() > old(output)@.len()
                        &&& final(output)@ == old(output)@
                    },
                }
            }),
            old(output)@.len() >= input@.len() + (input@.len() + Self::spec_block_size() - 1)
                / Self::spec_block_size() as int * Self::spec_signature_bytes() ==> r is Ok,
    {
        let mut cheetah = Cheetah::new();
        Codec::encode(&mut cheetah, input, output)
    }

    /// Decodes `input` into `output` with a fresh instance; answers the size
    /// of the decoded data, or an error when the input is cut short or
    /// `output` is too small.
    pub fn decode(input: &[u8], output: &mut [u8]) -> (r: Result<usize, DecodeError>)
        ensures
            match decode_from::<Cheetah>(Self::initial_model(), ProtectionState::initial(), input@) {
                Some((m, decoded)) => if decoded.len() <= old(output)@.len() {
                    &&& r matches Ok(n) && n == decoded.len()
                    &&& final(output)@ == decoded + old(output)@.skip(decoded.len() as int)
                } else {
                    &&& r is Err
                    &&& final(output)@ == old(output)@
                },
                None => {
                    &&& r is Err
                    &&& final(output)@ == old(output)@
                },
            },
    {
        let mut cheetah = Cheetah::new();
        Codec::decode(&mut cheetah, input, output)
    }

    /// Decodes a quad that travels as itself; answers its hash and the quad.
    fn decode_plain(&mut self, in_buffer: &mut ReadBuffer) -> (r: (u16, u32))
        requires
            old(self).wf(),
            old(in_buffer).wf(),
            old(in_buffer).rest().len() >= 4,
        ensures
            final(self).wf(),
            final(self).state.last_hash == old(self).state.last_hash,
            final(in_buffer).wf(),
            final(in_buffer).buffer == old(in_buffer).buffer,
            final(in_buffer).index == old(in_buffer).index + 4,
            Self::spec_decode_quad(old(self)@, PLAIN_FLAG, old(in_buffer).rest()) == Some(
                ((r.0, final(self)@.1, final(self)@.2), r.1, 4nat),
            ),
    {
        let quad = in_buffer.read_u32_le();
        let hash_u16 = hash(quad);
        let chunk_data = self.state.chunk_map[hash_u16 as usize];
        self.state.chunk_map.set(
            hash_u16 as usize,
            ChunkData { chunk_a: quad, chunk_b: chunk_data.chunk_a },
        );
        let last = self.state.last_hash as usize;
        self.state.prediction_map.set(last, PredictionData { next: quad });
        (hash_u16, quad)
    }

    /// Decodes a reference to the most recent quad of a dictionary slot.
    fn decode_map_a(&mut self, in_buffer: &mut ReadBuffer) -> (r: (u16, u32))
        requires
            old(self).wf(),
            old(in_buffer).wf(),
            old(in_buffer).rest().len() >= 2,
        ensures
            final(self).wf(),
            final(self).state.last_hash == old(self).state.last_hash,
            final(in_buffer).wf(),
            final(in_buffer).buffer == old(in_buffer).buffer,
            final(in_buffer).index == old(in_buffer).index + 2,
            Self::spec_decode_quad(old(self)@, MAP_A_FLAG, old(in_buffer).rest()) == Some(
                ((r.0, final(self)@.1, final(self)@.2), r.1, 2nat),
            ),
    {
        let hash_u16 = in_buffer.read_u16_le();
        let quad = self.state.chunk_map[hash_u16 as usize].chunk_a;
        let last = self.state.last_hash as usize;
        self.state.prediction_map.set(last, PredictionData { next: quad });
        (hash_u16, quad)
    }

    /// Decodes a reference to the second quad of a dictionary slot, which
    /// becomes its most recent.
    fn decode_map_b(&mut self, in_buffer: &mut ReadBuffer) -> (r: (u16, u32))
        requires
            old(self).wf(),
            old(in_buffer).wf(),
            old(in_buffer).rest().len() >= 2,
        ensures
            final(self).wf(),
            final(self).state.last_hash == old(self).state.last_hash,
            final(in_buffer).wf(),
            final(in_buffer).buffer == old(in_buffer).buffer,
            final(in_buffer).index == old(in_buffer).index + 2,
            Self::spec_decode_quad(old(self)@, MAP_B_FLAG, old(in_buffer).rest()) == Some(
                ((r.0, final(self)@.1, final(self)@.2), r.1, 2nat),
            ),
    {
        let hash_u16 = in_buffer.read_u16_le();
        let chunk_data = self.state.chunk_map[hash_u16 as usize];
        let quad = chunk_data.chunk_b;
        self.state.chunk_map.set(
            hash_u16 as usize,
            ChunkData { chunk_a: quad, chunk_b: chunk_data.chunk_a },
        );
        let last = self.state.last_hash as usize;
        self.state.prediction_map.set(last, PredictionData { next: quad });
        (hash_u16, quad)
    }

    /// Decodes a quad that its context predicted.
    fn decode_predicted(&self) -> (r: (u16, u32))
        requires
            self.wf(),
        ensures
            r.1 == self@.2[self@.0 as int].next,
            r.0 == quad_hash(r.1),
    {
        let quad = self.state.prediction_map[self.state.last_hash as usize].next;
        (hash(quad), quad)
    }

    /// Decodes one quad whose flag is `flag`, given enough input for it.
    fn decode_flagged(&mut self, flag: u64, in_buffer: &mut ReadBuffer, out_buffer: &mut WriteBuffer)
        requires
            old(self).wf(),
            old(in_buffer).wf(),
            flag == PLAIN_FLAG ==> old(in_buffer).rest().len() >= 4,
            flag == MAP_A_FLAG || flag == MAP_B_FLAG ==> old(in_buffer).rest().len() >= 2,
        ensures
            final(self).wf(),
            final(in_buffer).wf(),
            final(in_buffer).buffer == old(in_buffer).buffer,
            final(in_buffer).index >= old(in_buffer).index,
            Self::spec_decode_quad(old(self)@, flag, old(in_buffer).rest()) matches Some(
                (m1, quad, c),
            ) && m1 == final(self)@ && c == final(in_buffer).index - old(in_buffer).index
                && final(out_buffer)@ == old(out_buffer)@ + le_bytes(quad as u64, 4),
    {
        let (hash_u16, quad) = if flag == PLAIN_FLAG {
            self.decode_plain(in_buffer)
        } else if flag == MAP_A_FLAG {
            self.decode_map_a(in_buffer)
        } else if flag == MAP_B_FLAG {
            self.decode_map_b(in_buffer)
        } else {
            self.decode_predicted()
        };
        self.state.last_hash = hash_u16;
        out_buffer.push_u32_le(quad);
    }
}

impl Decoder for Cheetah {
    fn decode_unit(
        &mut self,
        in_buffer: &mut ReadBuffer,
        signature: &mut ReadSignature,
        out_buffer: &mut WriteBuffer,
    ) {
        let flag = signature.read_bits(DECODE_FLAG_MASK, DECODE_FLAG_MASK_BITS);
        let ghost rest0 = in_buffer.rest();
        self.decode_flagged(flag, in_buffer, out_buffer);
        proof {
            reveal_with_fuel(decode_quads, 2);
            let c = (in_buffer.index - old(in_buffer).index) as int;
            assert(rest0.skip(c) =~= in_buffer.rest());
            assert(out_buffer@.skip(old(out_buffer)@.len() as int) =~= out_buffer@.skip(
                old(out_buffer)@.len() as int,
            ) + Seq::<u8>::empty());
            assert(out_buffer@.take(old(out_buffer)@.len() as int) =~= old(out_buffer)@);
        }
    }

    fn decode_partial_unit(
        &mut self,
        in_buffer: &mut ReadBuffer,
        signature: &mut ReadSignature,
        out_buffer: &mut WriteBuffer,
    ) -> (r: Result<bool, DecodeError>) {
        reveal_with_fuel(decode_quads, 2);
        let flag = signature.read_bits(DECODE_FLAG_MASK, DECODE_FLAG_MASK_BITS);
        let remaining = in_buffer.remaining();
        if flag == PLAIN_FLAG && remaining < 4 {
            let tail = in_buffer.read(remaining);
            out_buffer.push(tail);
            proof {
                assert(old(in_buffer).rest().take(remaining as int) =~= old(in_buffer).rest());
                assert(out_buffer@.skip(old(out_buffer)@.len() as int) =~= tail@);
                assert(out_buffer@.take(old(out_buffer)@.len() as int) =~= old(out_buffer)@);
            }
            return Ok(true);
        }
        if (flag == MAP_A_FLAG || flag == MAP_B_FLAG) && remaining < 2 {
            return Err(DecodeError {  });
        }
        let ghost rest0 = in_buffer.rest();
        self.decode_flagged(flag, in_buffer, out_buffer);
        proof {
            let c = (in_buffer.index - old(in_buffer).index) as int;
            assert(rest0.skip(c) =~= in_buffer.rest());
            assert(out_buffer@.skip(old(out_buffer)@.len() as int) =~= out_buffer@.skip(
                old(out_buffer)@.len() as int,
            ) + Seq::<u8>::empty());
            assert(out_buffer@.take(old(out_buffer)@.len() as int) =~= old(out_buffer)@);
        }
        Ok(false)
    }
}

impl Codec for Cheetah {
    /// Four bytes for each of the thirty-two two-bit flags of a signature.
    fn block_size() -> (r: usize) {
        assert(<Cheetah as QuadEncoder>::spec_block_size() == 128);
        128
    }

    /// One quad, literal at worst.
    fn decode_unit_size() -> (r: usize) {
        assert(<Cheetah as QuadDecoder>::spec_unit_quads() == 1);
        assert(<Cheetah as QuadEncoder>::spec_block_size() == 128);
        assert(<Cheetah as QuadEncoder>::spec_quads_per_block() == 32);
        4
    }

    fn signature_significant_bytes() -> (r: usize) {
        assert(<Cheetah as QuadEncoder>::spec_signature_bytes() == 8);
        8
    }

    fn clear_state(&mut self) {
        self.state.last_hash = 0;
        let mut i: usize = 0;
        while i < TABLE_SIZE
            invariant
                self.state.chunk_map@.len() == TABLE_SIZE,
                self.state.prediction_map@.len() == TABLE_SIZE,
                i <= TABLE_SIZE,
                self.state.last_hash == 0,
                forall|k: int|
                    0 <= k < i ==> self.state.chunk_map@[k] == (ChunkData { chunk_a: 0, chunk_b: 0 }),
                forall|k: int|
                    0 <= k < i ==> self.state.prediction_map@[k] == (PredictionData { next: 0 }),
            decreases TABLE_SIZE - i,
        {
            self.state.chunk_map.set(i, ChunkData { chunk_a: 0, chunk_b: 0 });
            self.state.prediction_map.set(i, PredictionData { next: 0 });
            i += 1;
        }
        assert(self.state.chunk_map@ =~= Self::initial_model().1);
        assert(self.state.prediction_map@ =~= Self::initial_model().2);
    }
}

} // verus!
