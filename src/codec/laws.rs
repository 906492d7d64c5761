use vstd::prelude::*;

use crate::codec::codec::{decode_block, decode_from, encode_block, encode_from, quads_of, tail_of};
use crate::codec::decoder::{decode_quads, QuadDecoder};
use crate::codec::protection_state::ProtectionState;
use crate::codec::quad_encoder::{encode_quads, lemma_encode_quads_bounds, QuadEncoder};
use crate::io::bytes::{
    le_bytes, lemma_flags_split, lemma_read_prefix, lemma_shift_clear, lemma_u32_bytes_round_trip,
    lemma_u64_round_trip,
};

verus! {

/// The bytes that a run of quads stands for: each quad, little-endian.
pub open spec fn quads_bytes(quads: Seq<u32>) -> Seq<u8>
    decreases quads.len(),
{
    if quads.len() == 0 {
        Seq::empty()
    } else {
        le_bytes(quads[0] as u64, 4) + quads_bytes(quads.skip(1))
    }
}

/// A block is its aligned quads followed by its ragged end.
pub proof fn lemma_quads_of_bytes(block: Seq<u8>)
    ensures
        quads_bytes(quads_of(block)) + tail_of(block) == block,
    decreases block.len(),
{
    if block.len() < 4 {
        assert(quads_of(block) =~= Seq::<u32>::empty());
        assert(tail_of(block) =~= block);
        assert(Seq::<u8>::empty() + block =~= block);
    } else {
        let rest = block.skip(4);
        let qs = quads_of(block);
        assert(qs.skip(1) =~= quads_of(rest)) by {
            assert forall|i: int| 0 <= i < quads_of(rest).len() implies qs.skip(1)[i] == quads_of(
                rest,
            )[i] by {
                assert(block.subrange(4 * (i + 1), 4 * (i + 1) + 4) =~= rest.subrange(4 * i, 4 * i + 4));
            }
        }
        assert(tail_of(block) =~= tail_of(rest));
        lemma_quads_of_bytes(rest);
        lemma_u32_bytes_round_trip(block.subrange(0, 4));
        assert(block =~= block.subrange(0, 4) + rest);
        assert(quads_bytes(qs) + tail_of(block) =~= le_bytes(qs[0] as u64, 4) + (quads_bytes(
            quads_of(rest),
        ) + tail_of(rest)));
    }
}

/// The decoder reads back a run of encoded quads from its flags and payload,
/// consuming the payload exactly and ending on the encoder's model; when the
/// run is shorter than the quads asked for, what follows it is the stream's
/// ragged end.
pub proof fn lemma_decode_encoded_quads<C: QuadDecoder>(
    m: C::V,
    quads: Seq<u32>,
    rest: Seq<u8>,
    n: nat,
)
    requires
        C::wf_model(m),
        quads.len() <= n,
        C::spec_flag_bits() * quads.len() <= 64,
        quads.len() < n ==> rest.len() < 4,
    ensures
        ({
            let (m1, flags, payload) = encode_quads::<C>(m, quads);
            decode_quads::<C>(m, flags, payload + rest, n) matches Some((mm, out, c, stop, f)) && mm
                == m1 && if quads.len() == n {
                &&& out == quads_bytes(quads)
                &&& c == payload.len()
                &&& !stop
            } else {
                &&& out == quads_bytes(quads) + rest
                &&& c == payload.len() + rest.len()
                &&& stop
            }
        }),
    decreases n,
{
    C::lemma_decoder_shape();
    let w = C::spec_flag_bits();
    let mask = C::spec_flag_mask();
    if quads.len() == 0 {
        assert(Seq::<u8>::empty() + rest =~= rest);
        if n > 0 {
            assert(0u64 & mask == 0) by (bit_vector);
        }
    } else {
        let q0 = quads[0];
        let t = quads.skip(1);
        C::lemma_encode_quad(m, q0);
        let (m1, f0, p0) = C::spec_encode_quad(m, q0);
        lemma_encode_quads_bounds::<C>(m1, t);
        let (m2, ft, pt) = encode_quads::<C>(m1, t);
        assert(w * t.len() + w <= 64 && w * t.len() < 64) by (nonlinear_arith)
            requires
                w * quads.len() <= 64,
                quads.len() == t.len() + 1,
                w >= 1,
        ;
        lemma_shift_clear(ft, (w * t.len()) as u64, (64 - w) as u64);
        lemma_flags_split(f0, ft, w, mask);
        C::lemma_decode_quad(m, q0, pt + rest);
        assert((p0 + pt) + rest =~= p0 + (pt + rest));
        assert((p0 + (pt + rest)).skip(p0.len() as int) =~= pt + rest);
        lemma_decode_encoded_quads::<C>(m1, t, rest, (n - 1) as nat);
        let (mm, out, c, stop, f) = decode_quads::<C>(m1, ft, pt + rest, (n - 1) as nat).unwrap();
        assert(le_bytes(q0 as u64, 4) + (quads_bytes(t) + rest) =~= (le_bytes(q0 as u64, 4)
            + quads_bytes(t)) + rest);
    }
}

/// Lockstep of one block: decoding an encoded block, whatever follows it,
/// consumes exactly the bytes the encoder produced for it, gives back the
/// block, and leaves the decoder's tables as the encoder left its own. The
/// stream ends inside the block exactly when the block is a short last one.
pub proof fn lemma_block_lockstep<C: QuadDecoder>(m: C::V, block: Seq<u8>, next: Seq<u8>)
    requires
        C::wf_model(m),
        0 < block.len() <= C::spec_block_size(),
        block.len() < C::spec_block_size() ==> next.len() == 0,
    ensures
        ({
            let (m1, encoded) = encode_block::<C>(m, block);
            decode_block::<C>(m, encoded + next) == Some(
                (m1, block, encoded.len(), block.len() < C::spec_block_size()),
            )
        }),
{
    C::lemma_framing();
    let w = C::spec_flag_bits();
    let s = C::spec_signature_bytes();
    let k = C::spec_quads_per_block();
    let qs = quads_of(block);
    let tail = tail_of(block);
    let (m1, flags, payload) = encode_quads::<C>(m, qs);
    let sig = le_bytes(flags, s);
    let encoded = sig + payload + tail;
    assert(qs.len() <= k && (qs.len() < k ==> block.len() < C::spec_block_size()));
    assert(w * qs.len() <= w * k) by (nonlinear_arith)
        requires
            qs.len() <= k,
            w >= 1,
    ;
    lemma_encode_quads_bounds::<C>(m, qs);
    if s == 6 {
        assert(w * qs.len() <= 48);
        lemma_shift_clear(flags, (w * qs.len()) as u64, 48);
    }
    lemma_u64_round_trip(flags, s);
    let input = encoded + next;
    assert(input =~= sig + (payload + (tail + next)));
    lemma_read_prefix(sig, payload + (tail + next), s);
    assert(input.skip(s as int) =~= payload + (tail + next));
    lemma_decode_encoded_quads::<C>(m, qs, tail + next, k);
    lemma_quads_of_bytes(block);
    if qs.len() == k {
        assert(tail =~= Seq::<u8>::empty());
        assert(quads_bytes(qs) + tail =~= quads_bytes(qs));
    } else {
        assert(next =~= Seq::<u8>::empty());
        assert(tail + next =~= tail);
    }
}

/// Encoding something non-empty produces something non-empty.
pub proof fn lemma_encode_nonempty<C: QuadEncoder>(m: C::V, p: ProtectionState, input: Seq<u8>)
    requires
        input.len() > 0,
    ensures
        encode_from::<C>(m, p, input).1.len() > 0,
{
    C::lemma_framing();
}

/// Round trip: decoding what the encoder produced, from the same tables and
/// the same protection state, gives back the input, and leaves the decoder's
/// tables as the encoder left its own.
pub proof fn lemma_round_trip<C: QuadDecoder>(m: C::V, p: ProtectionState, input: Seq<u8>)
    requires
        C::wf_model(m),
    ensures
        decode_from::<C>(m, p, encode_from::<C>(m, p, input).1) == Some(
            (encode_from::<C>(m, p, input).0, input),
        ),
    decreases input.len(),
{
    C::lemma_framing();
    let b = C::spec_block_size();
    if input.len() > 0 {
        let n = if input.len() < b {
            input.len()
        } else {
            b
        };
        let block = input.take(n as int);
        let rest = input.skip(n as int);
        let p1 = p.spec_revert_to_copy();
        assert(block + rest =~= input);
        if n < b {
            assert(rest =~= Seq::<u8>::empty());
        }
        if p.copies() {
            let (m2, encoded_rest) = encode_from::<C>(m, p1.spec_decay(), rest);
            let encoded = block + encoded_rest;
            lemma_round_trip::<C>(m, p1.spec_decay(), rest);
            if rest.len() > 0 {
                lemma_encode_nonempty::<C>(m, p1.spec_decay(), rest);
            }
            if encoded.len() > b {
                assert(encoded.skip(b as int) =~= encoded_rest);
                assert(encoded.take(b as int) =~= block);
            } else {
                assert(encoded =~= input);
            }
        } else {
            let (m1, encoded_block) = encode_block::<C>(m, block);
            let next_p = p1.spec_update(encoded_block.len() >= b);
            let (m2, encoded_rest) = encode_from::<C>(m1, next_p, rest);
            lemma_block_lockstep::<C>(m, block, encoded_rest);
            lemma_encode_quads_bounds::<C>(m, quads_of(block));
            lemma_round_trip::<C>(m1, next_p, rest);
            assert((encoded_block + encoded_rest).skip(encoded_block.len() as int)
                =~= encoded_rest);
        }
    }
}

/// Bound: the encoded stream is never longer than the input plus one
/// signature per block, which is what `safe_encode_buffer_size` answers.
pub proof fn lemma_encode_bound<C: QuadEncoder>(m: C::V, p: ProtectionState, input: Seq<u8>)
    requires
        C::wf_model(m),
    ensures
        encode_from::<C>(m, p, input).1.len() <= input.len() + (input.len() + C::spec_block_size()
            - 1) / C::spec_block_size() as int * C::spec_signature_bytes(),
    decreases input.len(),
{
    C::lemma_framing();
    let b = C::spec_block_size();
    let s = C::spec_signature_bytes();
    let len = input.len();
    if len > 0 {
        let n = if len < b {
            len
        } else {
            b
        };
        let block = input.take(n as int);
        let rest = input.skip(n as int);
        let p1 = p.spec_revert_to_copy();
        let next_m = if p.copies() {
            m
        } else {
            encode_block::<C>(m, block).0
        };
        let next_p = if p.copies() {
            p1.spec_decay()
        } else {
            p1.spec_update(encode_block::<C>(m, block).1.len() >= b)
        };
        if !p.copies() {
            let qs = quads_of(block);
            lemma_encode_quads_bounds::<C>(m, qs);
            assert(4 * qs.len() + tail_of(block).len() == n);
        }
        lemma_encode_bound::<C>(next_m, next_p, rest);
        assert(encode_from::<C>(m, p, input).1.len() <= n + s + encode_from::<C>(
            next_m,
            next_p,
            rest,
        ).1.len());
        if len <= b {
            assert(rest.len() == 0);
            assert((len + b - 1) / b as int == 1) by (nonlinear_arith)
                requires
                    1 <= len <= b,
            ;
        } else {
            assert((len + b - 1) / b as int == 1 + (rest.len() + b - 1) / b as int)
                by (nonlinear_arith)
                requires
                    rest.len() == len - b,
                    b > 0,
            ;
            assert((len + b - 1) / b as int * s == s + (rest.len() + b - 1) / b as int * s)
                by (nonlinear_arith)
                requires
                    (len + b - 1) / b as int == 1 + (rest.len() + b - 1) / b as int,
            ;
        }
    }
}

/// Determinism: the encoded stream and the tables after it depend on the
/// tables before and the input alone. In particular two fresh instances, or
/// an instance after `clear_state` and a fresh one, encode any input to the
/// same bytes.
pub proof fn lemma_same_tables_same_encoding<C: QuadEncoder>(a: C, b: C, input: Seq<u8>)
    requires
        a@ == b@,
    ensures
        encode_from::<C>(a@, ProtectionState::initial(), input) == encode_from::<C>(
            b@,
            ProtectionState::initial(),
            input,
        ),
{
}

} // verus!
