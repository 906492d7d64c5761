use vstd::prelude::*;

use crate::codec::decoder::{
    decode_quads, lemma_decode_quads_bounds, lemma_decode_quads_split, then_decode, Decoder,
    QuadDecoder,
};
use crate::codec::laws::lemma_encode_bound;
use crate::codec::protection_state::ProtectionState;
use crate::codec::quad_encoder::{
    encode_quads, lemma_encode_quads_bounds, lemma_encode_quads_push, QuadEncoder,
};
use crate::errors::decode_error::DecodeError;
use crate::errors::encode_error::EncodeError;
use crate::io::bytes::{le_bytes, read_u32_at, u32_of, u64_of};
use crate::io::read_buffer::ReadBuffer;
use crate::io::read_signature::ReadSignature;
use crate::io::write_buffer::{overwrite, WriteBuffer};
use crate::io::write_signature::WriteSignature;

verus! {

/// The aligned quads of a block, read little-endian.
pub open spec fn quads_of(block: Seq<u8>) -> Seq<u32> {
    Seq::new(block.len() / 4, |i: int| u32_of(block.subrange(4 * i, 4 * i + 4)))
}

/// The ragged end of a block that does not fill a quad.
pub open spec fn tail_of(block: Seq<u8>) -> Seq<u8> {
    block.skip(4 * (block.len() / 4) as int)
}

/// An encoded block: its signature, the payloads of its quads, and its
/// ragged end as it stands.
pub open spec fn encode_block<C: QuadEncoder>(m: C::V, block: Seq<u8>) -> (C::V, Seq<u8>) {
    let (m1, flags, payload) = encode_quads::<C>(m, quads_of(block));
    (m1, le_bytes(flags, C::spec_signature_bytes()) + payload + tail_of(block))
}

/// Encoding `input` from the model `m` and the protection state `p`: the
/// model after it, and the encoded stream.
///
/// Each block of `spec_block_size()` bytes (the last may be shorter) is
/// either copied verbatim, as the protection state decides, or encoded; an
/// encoded block that did not shrink counts as incompressible.
pub open spec fn encode_from<C: QuadEncoder>(m: C::V, p: ProtectionState, input: Seq<u8>) -> (
    C::V,
    Seq<u8>,
)
    decreases input.len(),
{
    if input.len() == 0 || C::spec_block_size() == 0 {
        (m, Seq::empty())
    } else {
        let n = if input.len() < C::spec_block_size() {
            input.len()
        } else {
            C::spec_block_size()
        };
        let block = input.take(n as int);
        let p1 = p.spec_revert_to_copy();
        if p.copies() {
            let (m2, rest) = encode_from::<C>(m, p1.spec_decay(), input.skip(n as int));
            (m2, block + rest)
        } else {
            let (m1, encoded) = encode_block::<C>(m, block);
            let (m2, rest) = encode_from::<C>(
                m1,
                p1.spec_update(encoded.len() >= C::spec_block_size()),
                input.skip(n as int),
            );
            (m2, encoded + rest)
        }
    }
}

/// Decoding one encoded block at the start of `input`: the model after it,
/// the bytes it stands for, the number of input bytes it took, and whether
/// the stream ended inside it; `None` where the input is cut short.
pub open spec fn decode_block<C: QuadDecoder>(m: C::V, input: Seq<u8>) -> Option<
    (C::V, Seq<u8>, nat, bool),
> {
    let sig_bytes = C::spec_signature_bytes();
    if input.len() < sig_bytes {
        None
    } else {
        match decode_quads::<C>(
            m,
            u64_of(input, sig_bytes),
            input.skip(sig_bytes as int),
            C::spec_quads_per_block(),
        ) {
            None => None,
            Some((m1, out, consumed, stop, _)) => Some((m1, out, sig_bytes + consumed, stop)),
        }
    }
}

/// Decoding `input` from the model `m` and the protection state `p`: the
/// model after it and the decoded bytes, or `None` where the input is cut
/// short.
///
/// The decoder makes the protection state's calls in the encoder's order,
/// with the number of bytes a block consumed in place of the number it
/// produced, so copied blocks are found without any marker.
pub open spec fn decode_from<C: QuadDecoder>(m: C::V, p: ProtectionState, input: Seq<u8>) -> Option<
    (C::V, Seq<u8>),
>
    decreases input.len(),
{
    let block_size = C::spec_block_size();
    let sig_bytes = C::spec_signature_bytes();
    if input.len() == 0 || block_size == 0 || sig_bytes == 0 {
        Some((m, Seq::empty()))
    } else {
        let p1 = p.spec_revert_to_copy();
        if p.copies() {
            if input.len() > block_size {
                match decode_from::<C>(m, p1.spec_decay(), input.skip(block_size as int)) {
                    None => None,
                    Some((m2, rest)) => Some((m2, input.take(block_size as int) + rest)),
                }
            } else {
                Some((m, input))
            }
        } else {
            match decode_block::<C>(m, input) {
                None => None,
                Some((m1, out, consumed, stop)) => if stop {
                    Some((m1, out))
                } else if consumed > input.len() {
                    None
                } else {
                    match decode_from::<C>(
                        m1,
                        p1.spec_update(consumed >= block_size),
                        input.skip(consumed as int),
                    ) {
                        None => None,
                        Some((m2, rest)) => Some((m2, out + rest)),
                    }
                },
            }
        }
    }
}

/// Decoding `a` more quads after `first`, then `b` more, is decoding `a + b`
/// more quads after it.
pub proof fn lemma_then_decode_step<C: QuadDecoder>(
    first: Option<(C::V, Seq<u8>, nat, bool, u64)>,
    input: Seq<u8>,
    a: nat,
    b: nat,
)
    requires
        first matches Some((m, o, c, stop, v)) && !stop && c <= input.len() && C::wf_model(m),
    ensures
        then_decode::<C>(first, input, a + b) == then_decode::<C>(
            then_decode::<C>(first, input, a),
            input,
            b,
        ),
{
    let (m, o, c, stop, v) = first.unwrap();
    let rest = input.skip(c as int);
    lemma_decode_quads_split::<C>(m, v, rest, a, b);
    lemma_decode_quads_bounds::<C>(m, v, rest, a);
    match decode_quads::<C>(m, v, rest, a) {
        None => {},
        Some((m1, o1, c1, s1, v1)) => {
            if !s1 {
                assert(rest.skip(c1 as int) =~= input.skip((c + c1) as int));
                match decode_quads::<C>(m1, v1, rest.skip(c1 as int), b) {
                    None => {},
                    Some((m2, o2, c2, s2, v2)) => {
                        assert(o + (o1 + o2) =~= (o + o1) + o2);
                    },
                }
            }
        },
    }
}

/// The block driver of an algorithm: framing, signatures, ragged ends and
/// the adaptive fallback to verbatim copies.
pub trait Codec: Decoder {
    fn block_size() -> (r: usize)
        ensures
            r == Self::spec_block_size(),
    ;

    /// Input bytes one `decode_unit` call needs at most.
    fn decode_unit_size() -> (r: usize)
        ensures
            r == 4 * Self::spec_unit_quads(),
            Self::spec_block_size() / (r as nat) * Self::spec_unit_quads() == Self::spec_quads_per_block(),
    ;

    fn signature_significant_bytes() -> (r: usize)
        ensures
            r == Self::spec_signature_bytes(),
    ;

    /// Forgets everything seen: the instance encodes and decodes as a fresh one.
    fn clear_state(&mut self)
        requires
            old(self).wf(),
        ensures
            final(self).wf(),
            final(self)@ == Self::initial_model(),
    ;

    /// The largest encoded size of `size` input bytes: the input itself and
    /// one signature per block.
    fn safe_encode_buffer_size(size: usize) -> (r: usize)
        requires
            size + (size + Self::spec_block_size() - 1) / Self::spec_block_size() as int
                * Self::spec_signature_bytes() <= usize::MAX,
        ensures
            r == size + (size + Self::spec_block_size() - 1) / Self::spec_block_size() as int
                * Self::spec_signature_bytes(),
    {
        proof {
            Self::lemma_framing();
        }
        let block_size = Self::block_size();
        let blocks = size / block_size;
        let extra = if size % block_size > 0 {
            Self::signature_significant_bytes()
        } else {
            0
        };
        proof {
            assert((size + block_size - 1) / block_size as int == blocks + if size % block_size > 0 {
                1int
            } else {
                0int
            }) by (nonlinear_arith)
                requires
                    block_size > 0,
                    blocks == size / block_size,
            ;
            assert(blocks * Self::spec_signature_bytes() <= (size + block_size - 1) / block_size as int
                * Self::spec_signature_bytes()) by (nonlinear_arith)
                requires
                    (size + block_size - 1) / block_size as int >= blocks,
            ;
        }
        size + blocks * Self::signature_significant_bytes() + extra
    }

    /// Writes the signature's significant bytes at the place reserved for it.
    fn write_signature(out_buffer: &mut WriteBuffer, signature: &WriteSignature)
        requires
            signature.pos + Self::spec_signature_bytes() <= old(out_buffer)@.len(),
        ensures
            final(out_buffer)@ == overwrite(
                old(out_buffer)@,
                signature.pos as int,
                le_bytes(signature.value, Self::spec_signature_bytes()),
            ),
    {
        proof {
            Self::lemma_framing();
        }
        out_buffer.ink(signature, Self::signature_significant_bytes());
    }

    /// Reads a block's signature; the bytes the encoder left out read as zeros.
    fn read_signature(in_buffer: &mut ReadBuffer) -> (r: ReadSignature)
        requires
            old(in_buffer).wf(),
            old(in_buffer).rest().len() >= Self::spec_signature_bytes(),
        ensures
            final(in_buffer).wf(),
            final(in_buffer).buffer == old(in_buffer).buffer,
            final(in_buffer).index == old(in_buffer).index + Self::spec_signature_bytes(),
            r.value == u64_of(old(in_buffer).rest(), Self::spec_signature_bytes()),
    {
        proof {
            Self::lemma_framing();
        }
        ReadSignature::new(in_buffer.read_le(Self::signature_significant_bytes()))
    }

    /// Encodes the quads of one block, in order, into a fresh signature.
    fn encode_batch(&mut self, quads: &[u32], out_buffer: &mut WriteBuffer, signature: &mut WriteSignature)
        requires
            old(self).wf(),
            old(signature).value == 0,
            old(signature).shift == 0,
            Self::spec_flag_bits() * quads@.len() <= 64,
        ensures
            final(self).wf(),
            ({
                let (m1, flags, payload) = encode_quads::<Self>(old(self)@, quads@);
                &&& final(self)@ == m1
                &&& final(signature).value == flags
                &&& final(signature).shift == Self::spec_flag_bits() * quads@.len()
                &&& final(signature).pos == old(signature).pos
                &&& final(out_buffer)@ == old(out_buffer)@ + payload
            }),
    {
        let ghost m0 = self@;
        proof {
            self.lemma_wf();
            reveal_with_fuel(encode_quads, 1);
            assert(quads@.take(0) =~= Seq::<u32>::empty());
            assert(old(out_buffer)@ + Seq::<u8>::empty() =~= old(out_buffer)@);
        }
        let mut i: usize = 0;
        while i < quads.len()
            invariant
                self.wf(),
                Self::wf_model(m0),
                m0 == old(self)@,
                i <= quads@.len(),
                Self::spec_flag_bits() * quads@.len() <= 64,
                signature.pos == old(signature).pos,
                ({
                    let (m1, flags, payload) = encode_quads::<Self>(m0, quads@.take(i as int));
                    &&& self@ == m1
                    &&& signature.value == flags
                    &&& signature.shift == Self::spec_flag_bits() * i
                    &&& out_buffer@ == old(out_buffer)@ + payload
                }),
            decreases quads@.len() - i,
        {
            let quad = quads[i];
            proof {
                let w = Self::spec_flag_bits();
                assert(w * (i + 1) <= 64) by (nonlinear_arith)
                    requires
                        w * quads@.len() <= 64,
                        i < quads@.len(),
                ;
                assert(w * i + w == w * (i + 1)) by (nonlinear_arith);
                lemma_encode_quads_push::<Self>(m0, quads@.take(i as int), quad);
                assert(quads@.take(i as int).push(quad) =~= quads@.take(i + 1));
                let (m1, flags, payload) = encode_quads::<Self>(m0, quads@.take(i as int));
                let (m2, flag, last) = Self::spec_encode_quad(m1, quad);
                assert(old(out_buffer)@ + payload + last =~= old(out_buffer)@ + (payload + last));
            }
            self.encode_quad(quad, out_buffer, signature);
            i += 1;
        }
        proof {
            assert(quads@.take(i as int) =~= quads@);
        }
    }

    /// Encodes one block, or copies it verbatim when the protection state
    /// says so, and keeps the protection state's books.
    fn encode_block(
        &mut self,
        block: &[u8],
        out_buffer: &mut WriteBuffer,
        signature: &mut WriteSignature,
        protection_state: &mut ProtectionState,
    )
        requires
            old(self).wf(),
            old(protection_state).wf(),
            old(protection_state).counter < u64::MAX,
            block@.len() <= Self::spec_block_size(),
        ensures
            final(self).wf(),
            final(protection_state).wf(),
            final(protection_state).counter == old(protection_state).counter + 1,
            ({
                let p1 = old(protection_state).spec_revert_to_copy();
                if old(protection_state).copies() {
                    &&& final(self)@ == old(self)@
                    &&& final(out_buffer)@ == old(out_buffer)@ + block@
                    &&& *final(protection_state) == p1.spec_decay()
                } else {
                    let (m1, encoded) = encode_block::<Self>(old(self)@, block@);
                    &&& final(self)@ == m1
                    &&& final(out_buffer)@ == old(out_buffer)@ + encoded
                    &&& *final(protection_state) == p1.spec_update(
                        encoded.len() >= Self::spec_block_size(),
                    )
                }
            }),
    {
        proof {
            Self::lemma_framing();
            self.lemma_wf();
        }
        if protection_state.revert_to_copy() {
            out_buffer.push(block);
            protection_state.decay();
        } else {
            let mark = out_buffer.index();
            signature.init(mark);
            out_buffer.skip(Self::signature_significant_bytes());
            let ghost reserved = out_buffer@;
            let block_len = block.len();
            let quad_count = block_len / 4;
            let mut quads: Vec<u32> = Vec::new();
            let mut i: usize = 0;
            while i < quad_count
                invariant
                    block_len == block@.len(),
                    quad_count == block@.len() / 4,
                    i <= quad_count,
                    quads@ == quads_of(block@).take(i as int),
                decreases quad_count - i,
            {
                let quad = read_u32_at(block, 4 * i);
                quads.push(quad);
                i += 1;
                assert(quads@ =~= quads_of(block@).take(i as int));
            }
            proof {
                assert(quads@ =~= quads_of(block@));
                let w = Self::spec_flag_bits();
                let k = Self::spec_quads_per_block();
                assert(w * quads@.len() <= 64) by (nonlinear_arith)
                    requires
                        quads@.len() <= k,
                        w * k <= 64,
                ;
            }
            self.encode_batch(quads.as_slice(), out_buffer, signature);
            let tail = vstd::slice::slice_subrange(block, 4 * quad_count, block.len());
            out_buffer.push(tail);
            proof {
                lemma_encode_quads_bounds::<Self>(old(self)@, quads@);
            }
            Self::write_signature(out_buffer, signature);
            let ghost (m1, encoded) = encode_block::<Self>(old(self)@, block@);
            proof {
                let (m1, flags, payload) = encode_quads::<Self>(old(self)@, quads@);
                let sig = le_bytes(flags, Self::spec_signature_bytes());
                assert(tail@ =~= tail_of(block@));
                assert(out_buffer@ =~= old(out_buffer)@ + encoded);
            }
            let written = out_buffer.index() - mark;
            protection_state.update(written >= Self::block_size());
        }
    }

    /// Encodes `input` into `output` from the instance's current tables;
    /// answers the size of the encoded stream, or an error when `output` is
    /// too small for it (`output` is then left as it was).
    fn encode(&mut self, input: &[u8], output: &mut [u8]) -> (r: Result<usize, EncodeError>)
        requires
            old(self).wf(),
        ensures
            final(self).wf(),
            final(self)@ == encode_from::<Self>(old(self)@, ProtectionState::initial(), input@).0,
            ({
                let encoded = encode_from::<Self>(old(self)@, ProtectionState::initial(), input@).1;
                match r {
                    Ok(n) => {
                        &&& n == encoded.len()
                        &&& encoded.len() <= old(output)@.len()
                        &&& final(output)@ == encoded + old(output)@.skip(n as int)
                    },
                    Err(_) => {
                        &&& encoded.len() > old(output)@.len()
                        &&& final(output)@ == old(output)@
                    },
                }
            }),
            old(output)@.len() >= input@.len() + (input@.len() + Self::spec_block_size() - 1)
                / Self::spec_block_size() as int * Self::spec_signature_bytes() ==> r is Ok,
    {
        let ghost target = encode_from::<Self>(self@, ProtectionState::initial(), input@);
        proof {
            self.lemma_wf();
            lemma_encode_bound::<Self>(self@, ProtectionState::initial(), input@);
            Self::lemma_framing();
            assert(input@.skip(0) =~= input@);
            assert(Seq::<u8>::empty() + target.1 =~= target.1);
        }
        let mut out_buffer = WriteBuffer::new();
        let mut signature = WriteSignature::new();
        let mut protection_state = ProtectionState::new();
        let block_size = Self::block_size();
        let input_len = input.len();
        let mut pos: usize = 0;
        while pos < input_len
            invariant
                self.wf(),
                protection_state.wf(),
                input_len == input@.len(),
                pos <= input@.len(),
                protection_state.counter <= pos,
                block_size == Self::spec_block_size(),
                block_size > 0,
                target == (
                    encode_from::<Self>(self@, protection_state, input@.skip(pos as int)).0,
                    out_buffer@ + encode_from::<Self>(
                        self@,
                        protection_state,
                        input@.skip(pos as int),
                    ).1,
                ),
            decreases input@.len() - pos,
        {
            let remaining = input_len - pos;
            let end = if remaining < block_size {
                input_len
            } else {
                pos + block_size
            };
            let block = vstd::slice::slice_subrange(input, pos, end);
            proof {
                let rest = input@.skip(pos as int);
                assert(block@ =~= rest.take((end - pos) as int));
                assert(rest.skip((end - pos) as int) =~= input@.skip(end as int));
            }
            let ghost m0 = self@;
            let ghost p0 = protection_state;
            let ghost out0 = out_buffer@;
            self.encode_block(block, &mut out_buffer, &mut signature, &mut protection_state);
            proof {
                let rest = input@.skip(end as int);
                let tail = encode_from::<Self>(self@, protection_state, rest).1;
                if p0.copies() {
                    assert(out0 + (block@ + tail) =~= out_buffer@ + tail);
                } else {
                    let encoded = encode_block::<Self>(m0, block@).1;
                    assert(out0 + (encoded + tail) =~= out_buffer@ + tail);
                }
            }
            pos = end;
        }
        proof {
            assert(input@.skip(pos as int) =~= Seq::<u8>::empty());
            assert(out_buffer@ + Seq::<u8>::empty() =~= out_buffer@);
        }
        let n = out_buffer.index();
        if n > output.len() {
            return Err(EncodeError {  });
        }
        let mut i: usize = 0;
        while i < n
            invariant
                n == out_buffer@.len(),
                n <= old(output)@.len(),
                i <= n,
                output@.len() == old(output)@.len(),
                output@ == out_buffer@.take(i as int) + old(output)@.skip(i as int),
            decreases n - i,
        {
            output[i] = out_buffer.buffer[i];
            i += 1;
            assert(output@ =~= out_buffer@.take(i as int) + old(output)@.skip(i as int));
        }
        proof {
            assert(out_buffer@.take(n as int) =~= out_buffer@);
        }
        Ok(n)
    }

    /// Decodes the encoded block at the start of what is left of the input;
    /// answers whether the stream ended inside it.
    fn decode_block(&mut self, in_buffer: &mut ReadBuffer, out_buffer: &mut WriteBuffer) -> (r: Result<
        bool,
        DecodeError,
    >)
        requires
            old(self).wf(),
            old(in_buffer).wf(),
        ensures
            final(self).wf(),
            final(in_buffer).wf(),
            final(in_buffer).buffer == old(in_buffer).buffer,
            final(in_buffer).index >= old(in_buffer).index,
            match r {
                Ok(stop) => decode_block::<Self>(old(self)@, old(in_buffer).rest()) == Some(
                    (
                        final(self)@,
                        final(out_buffer)@.skip(old(out_buffer)@.len() as int),
                        (final(in_buffer).index - old(in_buffer).index) as nat,
                        stop,
                    ),
                ),
                Err(_) => decode_block::<Self>(old(self)@, old(in_buffer).rest()) is None,
            },
            final(out_buffer)@.len() >= old(out_buffer)@.len(),
            final(out_buffer)@.take(old(out_buffer)@.len() as int) == old(out_buffer)@,
    {
        proof {
            Self::lemma_framing();
            Self::lemma_decoder_shape();
        }
        let block_size = Self::block_size();
        let unit_size = Self::decode_unit_size();
        let iterations = block_size / unit_size;
        if in_buffer.remaining() < Self::signature_significant_bytes() {
            return Err(DecodeError {  });
        }
        let mut signature = Self::read_signature(in_buffer);
        let ghost mb = self@;
        let ghost restb = in_buffer.rest();
        let ghost idxb = in_buffer.index;
        let ghost outb = out_buffer@;
        let ghost block_target = decode_quads::<Self>(
            mb,
            signature.value,
            restb,
            Self::spec_quads_per_block(),
        );
        let ghost sig_bytes = Self::spec_signature_bytes();
        proof {
            self.lemma_wf();
            assert(restb =~= old(in_buffer).rest().skip(Self::spec_signature_bytes() as int));
            assert(decode_block::<Self>(old(self)@, old(in_buffer).rest()) == match block_target {
                None => None,
                Some((m1, out, c, stop, _)) => Some((m1, out, sig_bytes + c, stop)),
            });
            lemma_decode_quads_split::<Self>(
                mb,
                signature.value,
                restb,
                0,
                Self::spec_quads_per_block(),
            );
            assert(restb.skip(0) =~= restb);
            assert(out_buffer@.skip(outb.len() as int) =~= Seq::<u8>::empty());
            match block_target {
                None => {},
                Some((m2, o2, c2, s2, v2)) => {
                    assert(Seq::<u8>::empty() + o2 =~= o2);
                },
            }
        }
        let mut it: usize = 0;
        let mut stop = false;
        while it < iterations && !stop
            invariant
                self.wf(),
                in_buffer.wf(),
                in_buffer.buffer == old(in_buffer).buffer,
                idxb == old(in_buffer).index + sig_bytes,
                outb == old(out_buffer)@,
                decode_block::<Self>(old(self)@, old(in_buffer).rest()) == match block_target {
                    None => None,
                    Some((m1, out, c, stop, _)) => Some((m1, out, sig_bytes + c, stop)),
                },
                idxb <= in_buffer.index,
                restb == in_buffer.buffer@.skip(idxb as int),
                outb.len() <= out_buffer@.len(),
                out_buffer@.take(outb.len() as int) == outb,
                unit_size == 4 * Self::spec_unit_quads(),
                it <= iterations,
                stop ==> block_target == Some(
                    (
                        self@,
                        out_buffer@.skip(outb.len() as int),
                        (in_buffer.index - idxb) as nat,
                        true,
                        signature.value,
                    ),
                ),
                !stop ==> block_target == then_decode::<Self>(
                    Some(
                        (
                            self@,
                            out_buffer@.skip(outb.len() as int),
                            (in_buffer.index - idxb) as nat,
                            false,
                            signature.value,
                        ),
                    ),
                    restb,
                    ((iterations - it) * Self::spec_unit_quads()) as nat,
                ),
            decreases iterations - it,
        {
            let ghost first = Some(
                (
                    self@,
                    out_buffer@.skip(outb.len() as int),
                    (in_buffer.index - idxb) as nat,
                    false,
                    signature.value,
                ),
            );
            let ghost out1 = out_buffer@;
            let ghost idx1 = in_buffer.index;
            let ghost rest1 = in_buffer.rest();
            proof {
                self.lemma_wf();
                assert(((iterations - it) * Self::spec_unit_quads()) as nat == Self::spec_unit_quads()
                    + ((iterations - (it + 1)) * Self::spec_unit_quads()) as nat)
                    by (nonlinear_arith)
                    requires
                        it < iterations,
                ;
                lemma_then_decode_step::<Self>(
                    first,
                    restb,
                    Self::spec_unit_quads(),
                    ((iterations - (it + 1)) * Self::spec_unit_quads()) as nat,
                );
                assert(rest1 =~= restb.skip((idx1 - idxb) as int));
            }
            if in_buffer.remaining() >= unit_size {
                self.decode_unit(in_buffer, &mut signature, out_buffer);
            } else {
                match self.decode_partial_unit(in_buffer, &mut signature, out_buffer) {
                    Err(e) => {
                        return Err(e);
                    },
                    Ok(s) => {
                        stop = s;
                    },
                }
            }
            proof {
                assert(out_buffer@.take(out1.len() as int) == out1);
                assert(out_buffer@.take(outb.len() as int) =~= outb);
                assert(out_buffer@.skip(outb.len() as int) =~= out1.skip(outb.len() as int)
                    + out_buffer@.skip(out1.len() as int));
                if stop {
                    lemma_decode_quads_split::<Self>(
                        first.unwrap().0,
                        first.unwrap().4,
                        rest1,
                        Self::spec_unit_quads(),
                        ((iterations - (it + 1)) * Self::spec_unit_quads()) as nat,
                    );
                }
            }
            it += 1;
        }
        proof {
            let o = out_buffer@.skip(outb.len() as int);
            let c = (in_buffer.index - idxb) as nat;
            if !stop {
                assert(it == iterations);
                assert(((iterations - it) * Self::spec_unit_quads()) as nat == 0)
                    by (nonlinear_arith)
                    requires
                        it == iterations,
                ;
                reveal_with_fuel(decode_quads, 1);
                assert(o + Seq::<u8>::empty() =~= o);
                assert(block_target == Some((self@, o, c, false, signature.value)));
            }
            assert(block_target == Some((self@, o, c, stop, signature.value)));
            assert(sig_bytes + c == in_buffer.index - old(in_buffer).index);
        }
        Ok(stop)
    }

    /// Decodes `input` into `output` from the instance's current tables;
    /// answers the size of the decoded data, or an error when the input is
    /// cut short or `output` is too small (`output` is then left as it was).
    fn decode(&mut self, input: &[u8], output: &mut [u8]) -> (r: Result<usize, DecodeError>)
        requires
            old(self).wf(),
        ensures
            final(self).wf(),
            match decode_from::<Self>(old(self)@, ProtectionState::initial(), input@) {
                Some((m, decoded)) => if decoded.len() <= old(output)@.len() {
                    &&& r matches Ok(n) && n == decoded.len()
                    &&& final(self)@ == m
                    &&& final(output)@ == decoded + old(output)@.skip(decoded.len() as int)
                } else {
                    &&& r is Err
                    &&& final(output)@ == old(output)@
                },
                None => {
                    &&& r is Err
                    &&& final(output)@ == old(output)@
                },
            },
    {
        let ghost target = decode_from::<Self>(self@, ProtectionState::initial(), input@);
        let input_len = input.len();
        let mut in_buffer = ReadBuffer::new(input);
        let mut out_buffer = WriteBuffer::new();
        let mut protection_state = ProtectionState::new();
        let block_size = Self::block_size();
        let mut done = false;
        proof {
            assert(in_buffer.rest() =~= input@);
            match target {
                None => {},
                Some((m, rest)) => {
                    assert(Seq::<u8>::empty() + rest =~= rest);
                },
            }
        }
        while !done && in_buffer.remaining() > 0
            invariant
                self.wf(),
                in_buffer.wf(),
                in_buffer.buffer@ == input@,
                input_len == input@.len(),
                protection_state.wf(),
                protection_state.counter <= in_buffer.index,
                block_size == Self::spec_block_size(),
                target == decode_from::<Self>(old(self)@, ProtectionState::initial(), input@),
                done ==> target == Some((self@, out_buffer@)),
                !done ==> target == match decode_from::<Self>(
                    self@,
                    protection_state,
                    in_buffer.rest(),
                ) {
                    None => None,
                    Some((m, rest)) => Some((m, out_buffer@ + rest)),
                },
            decreases input@.len() - in_buffer.index,
        {
            let ghost m0 = self@;
            let ghost p0 = protection_state;
            let ghost rest0 = in_buffer.rest();
            let ghost out0 = out_buffer@;
            proof {
                Self::lemma_framing();
            }
            if protection_state.revert_to_copy() {
                let remaining = in_buffer.remaining();
                if remaining > block_size {
                    let block = in_buffer.read(block_size);
                    out_buffer.push(block);
                    protection_state.decay();
                    proof {
                        assert(rest0.skip(block_size as int) =~= in_buffer.rest());
                        match decode_from::<Self>(self@, protection_state, in_buffer.rest()) {
                            None => {},
                            Some((m, rest)) => {
                                assert(out0 + (block@ + rest) =~= out_buffer@ + rest);
                            },
                        }
                    }
                } else {
                    let block = in_buffer.read(remaining);
                    out_buffer.push(block);
                    done = true;
                    proof {
                        assert(block@ =~= rest0);
                    }
                }
            } else {
                let mark = in_buffer.index;
                match self.decode_block(&mut in_buffer, &mut out_buffer) {
                    Err(e) => {
                        proof {
                            assert(decode_from::<Self>(m0, p0, rest0) is None);
                        }
                        return Err(e);
                    },
                    Ok(stop) => {
                        proof {
                            assert(out_buffer@ =~= out0 + out_buffer@.skip(out0.len() as int));
                        }
                        if stop {
                            done = true;
                        } else {
                            let consumed = in_buffer.index - mark;
                            protection_state.update(consumed >= block_size);
                            proof {
                                assert(rest0.skip(consumed as int) =~= in_buffer.rest());
                                match decode_from::<Self>(
                                    self@,
                                    protection_state,
                                    in_buffer.rest(),
                                ) {
                                    None => {},
                                    Some((m, rest)) => {
                                        assert(out0 + (out_buffer@.skip(out0.len() as int) + rest)
                                            =~= out_buffer@ + rest);
                                    },
                                }
                            }
                        }
                    },
                }
            }
        }
        proof {
            if !done {
                assert(in_buffer.rest() =~= Seq::<u8>::empty());
                assert(out_buffer@ + Seq::<u8>::empty() =~= out_buffer@);
            }
        }
        let n = out_buffer.index();
        if n > output.len() {
            return Err(DecodeError {  });
        }
        let mut i: usize = 0;
        while i < n
            invariant
                n == out_buffer@.len(),
                n <= old(output)@.len(),
                i <= n,
                output@.len() == old(output)@.len(),
                output@ == out_buffer@.take(i as int) + old(output)@.skip(i as int),
            decreases n - i,
        {
            output[i] = out_buffer.buffer[i];
            i += 1;
            assert(output@ =~= out_buffer@.take(i as int) + old(output)@.skip(i as int));
        }
        proof {
            assert(out_buffer@.take(n as int) =~= out_buffer@);
        }
        Ok(n)
    }
}

} // verus!
