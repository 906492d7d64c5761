use vstd::prelude::*;

use crate::algorithms::{hash, quad_hash, PLAIN_FLAG, TABLE_SIZE};
use crate::codec::codec::{decode_from, encode_from, Codec};
use crate::codec::decoder::{decode_quads, lemma_decode_quads_split, Decoder, QuadDecoder};
use crate::codec::protection_state::ProtectionState;
use crate::codec::quad_encoder::QuadEncoder;
use crate::errors::decode_error::DecodeError;
use crate::errors::encode_error::EncodeError;
use crate::io::bytes::{
    le_bytes, lemma_read_prefix, lemma_u16_round_trip, lemma_u32_round_trip, u16_of, u32_of,
};
use crate::io::read_buffer::ReadBuffer;
use crate::io::read_signature::ReadSignature;
use crate::io::write_buffer::WriteBuffer;
use crate::io::write_signature::WriteSignature;

verus! {

pub const FLAG_SIZE_BITS: u8 = 1;

pub const MAP_FLAG: u64 = 0x1;

/// Two flags read at once by `decode_unit`, the first quad's in the low bit.
pub const PLAIN_PLAIN_FLAGS: u64 = 0x0;

pub const MAP_PLAIN_FLAGS: u64 = 0x1;

pub const PLAIN_MAP_FLAGS: u64 = 0x2;

pub const DECODE_TWIN_FLAG_MASK: u64 = 0x3;

pub const DECODE_TWIN_FLAG_MASK_BITS: u8 = 2;

pub const DECODE_FLAG_MASK: u64 = 0x1;

pub const DECODE_FLAG_MASK_BITS: u8 = 1;

/// The dictionary of the simplest algorithm: for each hash, the last quad
/// seen with it.
pub struct State {
    pub chunk_map: Vec<u32>,
}

/// The fastest of the three algorithms: a one-way dictionary and no prediction.
pub struct Chameleon {
    pub state: State,
}

impl View for Chameleon {
    type V = Seq<u32>;

    open spec fn view(&self) -> Seq<u32> {
        self.state.chunk_map@
    }
}

impl QuadEncoder for Chameleon {
    open spec fn wf(&self) -> bool {
        self.state.chunk_map@.len() == TABLE_SIZE
    }

    open spec fn wf_model(m: Seq<u32>) -> bool {
        m.len() == TABLE_SIZE
    }

    open spec fn spec_flag_bits() -> u64 {
        FLAG_SIZE_BITS as u64
    }

    open spec fn spec_encode_quad(m: Seq<u32>, quad: u32) -> (Seq<u32>, u64, Seq<u8>) {
        let h = quad_hash(quad);
        if m[h as int] != quad {
            (m.update(h as int, quad), PLAIN_FLAG, le_bytes(quad as u64, 4))
        } else {
            (m, MAP_FLAG, le_bytes(h as u64, 2))
        }
    }

    open spec fn spec_block_size() -> nat {
        256
    }

    open spec fn spec_quads_per_block() -> nat {
        64
    }

    open spec fn spec_signature_bytes() -> nat {
        8
    }

    open spec fn initial_model() -> Seq<u32> {
        Seq::new(TABLE_SIZE as nat, |i: int| 0u32)
    }

    proof fn lemma_framing() {
    }

    proof fn lemma_wf(&self) {
    }

    proof fn lemma_encode_quad(m: Seq<u32>, quad: u32) {
        assert(0u64 >> 1u64 == 0 && 1u64 >> 1u64 == 0) by (bit_vector);
    }

    fn encode_quad(&mut self, quad: u32, out_buffer: &mut WriteBuffer, signature: &mut WriteSignature) {
        let hash_u16 = hash(quad);
        let dictionary_value = self.state.chunk_map[hash_u16 as usize];
        if dictionary_value != quad {
            signature.push_bits(PLAIN_FLAG, FLAG_SIZE_BITS);
            out_buffer.push_u32_le(quad);
            self.state.chunk_map.set(hash_u16 as usize, quad);
        } else {
            signature.push_bits(MAP_FLAG, FLAG_SIZE_BITS);
            out_buffer.push_u16_le(hash_u16);
        }
    }
}

impl QuadDecoder for Chameleon {
    open spec fn spec_flag_mask() -> u64 {
        DECODE_FLAG_MASK
    }

    open spec fn spec_unit_quads() -> nat {
        2
    }

    open spec fn spec_decode_quad(m: Seq<u32>, flag: u64, input: Seq<u8>) -> Option<
        (Seq<u32>, u32, nat),
    > {
        if flag == PLAIN_FLAG {
            if input.len() < 4 {
                None
            } else {
                let quad = u32_of(input);
                Some((m.update(quad_hash(quad) as int, quad), quad, 4))
            }
        } else {
            if input.len() < 2 {
                None
            } else {
                Some((m, m[u16_of(input) as int], 2))
            }
        }
    }

    proof fn lemma_decoder_shape() {
    }

    proof fn lemma_decode_quad_bounds(m: Seq<u32>, flag: u64, input: Seq<u8>) {
    }

    proof fn lemma_decode_quad(m: Seq<u32>, quad: u32, rest: Seq<u8>) {
        let h = quad_hash(quad);
        if m[h as int] != quad {
            lemma_u32_round_trip(quad);
            lemma_read_prefix(le_bytes(quad as u64, 4), rest, 4);
        } else {
            lemma_u16_round_trip(h);
            lemma_read_prefix(le_bytes(h as u64, 2), rest, 2);
        }
    }
}

impl Chameleon {
    pub fn new() -> (r: Chameleon)
        ensures
            r.wf(),
            r@ == Self::initial_model(),
    {
        let mut chunk_map: Vec<u32> = Vec::new();
        let mut i: usize = 0;
        while i < TABLE_SIZE
            invariant
                i <= TABLE_SIZE,
                chunk_map@ == Seq::new(i as nat, |k: int| 0u32),
            decreases TABLE_SIZE - i,
        {
            chunk_map.push(0);
            i += 1;
            assert(chunk_map@ =~= Seq::new(i as nat, |k: int| 0u32));
        }
        Chameleon { state: State { chunk_map } }
    }

    /// Encodes `input` into `output` with a fresh instance; answers the size
    /// of the encoded stream, or an error when `output` is too small for it.
    pub fn encode(input: &[u8], output: &mut [u8]) -> (r: Result<usize, EncodeError>)
        ensures
            ({
                let encoded = encode_from::<Chameleon>(
                    Self::initial_model(),
                    ProtectionState::initial(),
                    input@,
                ).1;
                match r {
                    Ok(n) => {
                        &&& n == encoded.len()
                        &&& encoded.len() <= old(output)@.len()
                        &&& final(output)@ == encoded + old(output)@.skip(n as int)
                    },
                    Err(_) => {
                        &&& encoded.len() > old(output)@.len()
                        &&& final(output)@ == old(output)@
                    },
                }
            }),
            old(output)@.len() >= input@.len() + (input@.len() + Self::spec_block_size() - 1)
                / Self::spec_block_size() as int * Self::spec_signature_bytes() ==> r is Ok,
    {
        let mut chameleon = Chameleon::new();
        Codec::encode(&mut chameleon, input, output)
    }

    /// Decodes `input` into `output` with a fresh instance; answers the size
    /// of the decoded data, or an error when the input is cut short or
    /// `output` is too small.
    pub fn decode(input: &[u8], output: &mut [u8]) -> (r: Result<usize, DecodeError>)
        ensures
            match decode_from::<Chameleon>(Self::initial_model(), ProtectionState::initial(), input@) {
                Some((m, decoded)) => if decoded.len() <= old(output)@.len() {
                    &&& r matches Ok(n) && n == decoded.len()
                    &&& final(output)@ == decoded + old(output)@.skip(decoded.len() as int)
                } else {
                    &&& r is Err
                    &&& final(output)@ == old(output)@
                },
                None => {
                    &&& r is Err
                    &&& final(output)@ == old(output)@
                },
            },
    {
        let mut chameleon = Chameleon::new();
        Codec::decode(&mut chameleon, input, output)
    }

    fn decode_plain(&mut self, in_buffer: &mut ReadBuffer) -> (r: u32)
        requires
            old(self).wf(),
            old(in_buffer).wf(),
            old(in_buffer).rest().len() >= 4,
        ensures
            final(self).wf(),
            final(in_buffer).wf(),
            final(in_buffer).buffer == old(in_buffer).buffer,
            final(in_buffer).index == old(in_buffer).index + 4,
            Self::spec_decode_quad(old(self)@, PLAIN_FLAG, old(in_buffer).rest()) == Some(
                (final(self)@, r, 4nat),
            ),
    {
        let quad = in_buffer.read_u32_le();
        let hash_u16 = hash(quad);
        self.state.chunk_map.set(hash_u16 as usize, quad);
        quad
    }

    fn decode_map(&mut self, in_buffer: &mut ReadBuffer) -> (r: u32)
        requires
            old(self).wf(),
            old(in_buffer).wf(),
            old(in_buffer).rest().len() >= 2,
        ensures
            final(self).wf(),
            final(in_buffer).wf(),
            final(in_buffer).buffer == old(in_buffer).buffer,
            final(in_buffer).index == old(in_buffer).index + 2,
            Self::spec_decode_quad(old(self)@, MAP_FLAG, old(in_buffer).rest()) == Some(
                (final(self)@, r, 2nat),
            ),
    {
        let hash_u16 = in_buffer.read_u16_le();
        self.state.chunk_map[hash_u16 as usize]
    }

    /// Decodes one quad, or the ragged tail of the stream.
    fn decode_single(
        &mut self,
        in_buffer: &mut ReadBuffer,
        signature: &mut ReadSignature,
        out_buffer: &mut WriteBuffer,
    ) -> (r: Result<bool, DecodeError>)
        requires
            old(self).wf(),
            old(in_buffer).wf(),
        ensures
            final(self).wf(),
            final(in_buffer).wf(),
            final(in_buffer).buffer == old(in_buffer).buffer,
            match r {
                Ok(stop) => decode_quads::<Self>(
                    old(self)@,
                    old(signature).value,
                    old(in_buffer).rest(),
                    1,
                ) == Some(
                    (
                        final(self)@,
                        final(out_buffer)@.skip(old(out_buffer)@.len() as int),
                        (final(in_buffer).index - old(in_buffer).index) as nat,
                        stop,
                        final(signature).value,
                    ),
                ),
                Err(_) => decode_quads::<Self>(
                    old(self)@,
                    old(signature).value,
                    old(in_buffer).rest(),
                    1,
                ) is None,
            },
            final(out_buffer)@.len() >= old(out_buffer)@.len(),
            final(out_buffer)@.take(old(out_buffer)@.len() as int) == old(out_buffer)@,
            final(in_buffer).index >= old(in_buffer).index,
    {
        reveal_with_fuel(decode_quads, 2);
        let flag = signature.read_bits(DECODE_FLAG_MASK, DECODE_FLAG_MASK_BITS);
        let remaining = in_buffer.remaining();
        let quad = if flag == PLAIN_FLAG {
            if remaining < 4 {
                let tail = in_buffer.read(remaining);
                out_buffer.push(tail);
                proof {
                    assert(old(in_buffer).rest().take(remaining as int) =~= old(in_buffer).rest());
                    assert(out_buffer@.skip(old(out_buffer)@.len() as int) =~= tail@);
                    assert(out_buffer@.take(old(out_buffer)@.len() as int) =~= old(out_buffer)@);
                }
                return Ok(true);
            }
            self.decode_plain(in_buffer)
        } else {
            if remaining < 2 {
                return Err(DecodeError {  });
            }
            self.decode_map(in_buffer)
        };
        out_buffer.push_u32_le(quad);
        proof {
            assert(old(in_buffer).rest().skip((in_buffer.index - old(in_buffer).index) as int)
                =~= in_buffer.rest());
            assert(out_buffer@.skip(old(out_buffer)@.len() as int) =~= le_bytes(quad as u64, 4)
                + Seq::<u8>::empty());
            assert(out_buffer@.take(old(out_buffer)@.len() as int) =~= old(out_buffer)@);
        }
        Ok(false)
    }
}

impl Decoder for Chameleon {
    fn decode_unit(
        &mut self,
        in_buffer: &mut ReadBuffer,
        signature: &mut ReadSignature,
        out_buffer: &mut WriteBuffer,
    ) {
        let ghost v = signature.value;
        let ghost rest0 = in_buffer.rest();
        let flags = signature.read_bits(DECODE_TWIN_FLAG_MASK, DECODE_TWIN_FLAG_MASK_BITS);
        proof {
            assert(flags == 0 ==> v & 1 == 0 && (v >> 1u64) & 1 == 0) by (bit_vector)
                requires
                    flags == v & 3,
            ;
            assert(flags == 1 ==> v & 1 == 1 && (v >> 1u64) & 1 == 0) by (bit_vector)
                requires
                    flags == v & 3,
            ;
            assert(flags == 2 ==> v & 1 == 0 && (v >> 1u64) & 1 == 1) by (bit_vector)
                requires
                    flags == v & 3,
            ;
            assert(flags == 3 ==> v & 1 == 1 && (v >> 1u64) & 1 == 1) by (bit_vector)
                requires
                    flags == v & 3,
            ;
            assert(flags <= 3) by (bit_vector)
                requires
                    flags == v & 3,
            ;
            assert(v >> 2u64 == (v >> 1u64) >> 1u64) by (bit_vector);
        }
        let ghost m0 = self@;
        let (quad_a, quad_b) = if flags == PLAIN_PLAIN_FLAGS {
            let a = self.decode_plain(in_buffer);
            let b = self.decode_plain(in_buffer);
            (a, b)
        } else if flags == MAP_PLAIN_FLAGS {
            let a = self.decode_map(in_buffer);
            let b = self.decode_plain(in_buffer);
            (a, b)
        } else if flags == PLAIN_MAP_FLAGS {
            let a = self.decode_plain(in_buffer);
            let b = self.decode_map(in_buffer);
            (a, b)
        } else {
            let a = self.decode_map(in_buffer);
            let b = self.decode_map(in_buffer);
            (a, b)
        };
        out_buffer.push_u32_le(quad_a);
        out_buffer.push_u32_le(quad_b);
        proof {
            reveal_with_fuel(decode_quads, 3);
            let c1: int = if v & 1 == 0 { 4 } else { 2 };
            assert(rest0.skip(c1).skip((in_buffer.index - old(in_buffer).index) - c1)
                =~= in_buffer.rest());
            assert(out_buffer@.skip(old(out_buffer)@.len() as int) =~= le_bytes(quad_a as u64, 4)
                + (le_bytes(quad_b as u64, 4) + Seq::<u8>::empty()));
            assert(out_buffer@.take(old(out_buffer)@.len() as int) =~= old(out_buffer)@);
        }
    }

    fn decode_partial_unit(
        &mut self,
        in_buffer: &mut ReadBuffer,
        signature: &mut ReadSignature,
        out_buffer: &mut WriteBuffer,
    ) -> (r: Result<bool, DecodeError>) {
        let ghost m0 = self@;
        let ghost v0 = signature.value;
        let ghost rest0 = in_buffer.rest();
        let ghost out0 = out_buffer@;
        let ghost index0 = in_buffer.index;
        proof {
            self.lemma_wf();
            lemma_decode_quads_split::<Self>(m0, v0, rest0, 1, 1);
        }
        match self.decode_single(in_buffer, signature, out_buffer) {
            Err(e) => Err(e),
            Ok(true) => Ok(true),
            Ok(false) => {
                let ghost out1 = out_buffer@;
                let ghost index1 = in_buffer.index;
                let r = self.decode_single(in_buffer, signature, out_buffer);
                proof {
                    assert(rest0.skip(index1 - index0) =~= old(in_buffer).buffer@.skip(index1 as int));
                    assert(out_buffer@.take(out1.len() as int) == out1);
                    assert(out1.take(out0.len() as int) == out0);
                    assert(out_buffer@.skip(out0.len() as int) =~= out1.skip(out0.len() as int)
                        + out_buffer@.skip(out1.len() as int));
                    assert(out_buffer@.take(out0.len() as int) =~= out0);
                }
                r
            },
        }
    }
}

impl Codec for Chameleon {
    /// Four bytes for each of the sixty-four one-bit flags of a signature.
    fn block_size() -> (r: usize) {
        assert(<Chameleon as QuadEncoder>::spec_block_size() == 256);
        256
    }

    /// Two quads, both literal at worst.
    fn decode_unit_size() -> (r: usize) {
        assert(<Chameleon as QuadDecoder>::spec_unit_quads() == 2);
        assert(<Chameleon as QuadEncoder>::spec_block_size() == 256);
        assert(<Chameleon as QuadEncoder>::spec_quads_per_block() == 64);
        8
    }

    fn signature_significant_bytes() -> (r: usize) {
        assert(<Chameleon as QuadEncoder>::spec_signature_bytes() == 8);
        8
    }

    fn clear_state(&mut self) {
        let mut i: usize = 0;
        while i < self.state.chunk_map.len()
            invariant
                self.state.chunk_map@.len() == TABLE_SIZE,
                i <= TABLE_SIZE,
                forall|k: int| 0 <= k < i ==> self.state.chunk_map@[k] == 0,
            decreases TABLE_SIZE - i,
        {
            self.state.chunk_map.set(i, 0);
            i += 1;
        }
        assert(self@ =~= Self::initial_model());
    }
}

} // verus!
