use density_rs::algorithms::chameleon::Chameleon;
use density_rs::algorithms::cheetah::Cheetah;
use density_rs::algorithms::lion::Lion;
use density_rs::algorithms::{hash, HASH_MULTIPLIER};
use density_rs::codec::codec::Codec;
use density_rs::errors::decode_error::DecodeError;
use density_rs::errors::encode_error::EncodeError;

fn pseudo_random(len: usize, seed: u64) -> Vec<u8> {
    let mut state = seed;
    let mut out = Vec::with_capacity(len);
    for _ in 0..len {
        state = state.wrapping_mul(6364136223846793005).wrapping_add(1442695040888963407);
        out.push((state >> 33) as u8);
    }
    out
}

fn text(len: usize) -> Vec<u8> {
    let words = b"the quick brown fox jumps over the lazy dog while density compresses quads ";
    (0..len).map(|i| words[(i * 7 + i / 13) % words.len()]).collect()
}

fn samples() -> Vec<Vec<u8>> {
    let mut all = vec![
        Vec::new(),
        vec![7],
        vec![1, 2],
        vec![1, 2, 3],
        vec![0, 0, 0, 0],
        vec![9, 8, 7, 6, 5],
        vec![0; 64],
        vec![0; 1000],
        b"abcdabcdabcdabcdabcd".to_vec(),
    ];
    for len in [63, 64, 65, 127, 128, 129, 255, 256, 257, 1023, 4099] {
        all.push(text(len));
        all.push(pseudo_random(len, len as u64));
    }
    let mut mixed = pseudo_random(3000, 11);
    mixed.extend_from_slice(&text(3000));
    mixed.extend_from_slice(&pseudo_random(2001, 12));
    all.push(mixed);
    all
}

/// Encodes with one fresh instance and decodes with another; answers the encoded stream.
fn round_trip<C: Codec>(fresh: fn() -> C, input: &[u8]) -> Vec<u8> {
    let mut encoder = fresh();
    let bound = C::safe_encode_buffer_size(input.len());
    let mut encoded = vec![0u8; bound];
    let size = Codec::encode(&mut encoder, input, &mut encoded).unwrap();
    assert!(size <= bound);
    encoded.truncate(size);
    let mut decoder = fresh();
    let mut decoded = vec![0u8; input.len()];
    let decoded_size = Codec::decode(&mut decoder, &encoded, &mut decoded).unwrap();
    assert_eq!(decoded_size, input.len());
    assert_eq!(&decoded[..], input);
    encoded
}

#[test]
fn chameleon_round_trip_all_samples() {
    for input in samples() {
        round_trip(Chameleon::new, &input);
    }
}

#[test]
fn cheetah_round_trip_all_samples() {
    for input in samples() {
        round_trip(Cheetah::new, &input);
    }
}

#[test]
fn lion_round_trip_all_samples() {
    for input in samples() {
        round_trip(Lion::new, &input);
    }
}

#[test]
fn static_entry_points_round_trip() {
    let input = text(1500);
    let mut encoded = vec![0u8; 2000];
    let mut decoded = vec![0u8; 1500];

    let n = Chameleon::encode(&input, &mut encoded).unwrap();
    assert_eq!(Chameleon::decode(&encoded[..n], &mut decoded), Ok(1500));
    assert_eq!(decoded, input);

    let n = Cheetah::encode(&input, &mut encoded).unwrap();
    assert_eq!(Cheetah::decode(&encoded[..n], &mut decoded), Ok(1500));
    assert_eq!(decoded, input);

    let n = Lion::encode(&input, &mut encoded).unwrap();
    assert_eq!(Lion::decode(&encoded[..n], &mut decoded), Ok(1500));
    assert_eq!(decoded, input);
}

#[test]
fn empty_input_encodes_to_nothing() {
    let mut out = vec![0u8; 4];
    assert_eq!(Chameleon::encode(&[], &mut out), Ok(0));
    assert_eq!(Cheetah::encode(&[], &mut out), Ok(0));
    assert_eq!(Lion::encode(&[], &mut out), Ok(0));
    assert_eq!(Lion::decode(&[], &mut out), Ok(0));
}

#[test]
fn ragged_input_keeps_its_tail() {
    // One quad and three trailing bytes: a signature, the literal quad, the raw tail.
    let input = [1u8, 2, 3, 4, 5, 6, 7];
    let mut out = vec![0u8; 32];
    let n = Chameleon::encode(&input, &mut out).unwrap();
    assert_eq!(&out[..n], &[0, 0, 0, 0, 0, 0, 0, 0, 1, 2, 3, 4, 5, 6, 7]);
    let n = Lion::encode(&input, &mut out).unwrap();
    assert_eq!(&out[..n], &[0, 0, 0, 0, 0, 0, 1, 2, 3, 4, 5, 6, 7]);
}

#[test]
fn zero_quad_is_a_dictionary_hit_on_fresh_tables() {
    // The fresh dictionary holds zeros, and hash(0) is 0: a reference to slot 0.
    let mut out = vec![0u8; 32];
    let n = Chameleon::encode(&[0, 0, 0, 0], &mut out).unwrap();
    assert_eq!(&out[..n], &[1, 0, 0, 0, 0, 0, 0, 0, 0, 0]);
    // In the middle algorithm the fresh prediction for context 0 is also zero.
    let n = Cheetah::encode(&[0, 0, 0, 0], &mut out).unwrap();
    assert_eq!(&out[..n], &[3, 0, 0, 0, 0, 0, 0, 0]);
    // The strongest algorithm finds it in the first prediction slot.
    let n = Lion::encode(&[0, 0, 0, 0], &mut out).unwrap();
    assert_eq!(&out[..n], &[1, 0, 0, 0, 0, 0]);
}

#[test]
fn encoding_is_deterministic() {
    let input = text(5000);
    assert_eq!(round_trip(Chameleon::new, &input), round_trip(Chameleon::new, &input));
    assert_eq!(round_trip(Cheetah::new, &input), round_trip(Cheetah::new, &input));
    assert_eq!(round_trip(Lion::new, &input), round_trip(Lion::new, &input));
}

fn encode_with<C: Codec>(codec: &mut C, input: &[u8]) -> Vec<u8> {
    let mut out = vec![0u8; C::safe_encode_buffer_size(input.len())];
    let n = Codec::encode(codec, input, &mut out).unwrap();
    out.truncate(n);
    out
}

#[test]
fn clear_state_behaves_as_fresh() {
    let first = text(700);
    let second = text(900);

    let mut used = Cheetah::new();
    let warm = encode_with(&mut used, &first);
    let again = encode_with(&mut used, &first);
    // The tables remember the first pass.
    assert_ne!(warm, again);
    used.clear_state();
    assert_eq!(encode_with(&mut used, &second), encode_with(&mut Cheetah::new(), &second));

    let mut used = Lion::new();
    encode_with(&mut used, &first);
    used.clear_state();
    assert_eq!(encode_with(&mut used, &second), encode_with(&mut Lion::new(), &second));

    let mut used = Chameleon::new();
    encode_with(&mut used, &first);
    used.clear_state();
    assert_eq!(encode_with(&mut used, &second), encode_with(&mut Chameleon::new(), &second));
}

#[test]
fn incompressible_data_switches_to_verbatim_copies() {
    // Random data never shrinks: after two such blocks, blocks are copied
    // verbatim, without a signature, so the stream is shorter than one
    // signature per block.
    let input = pseudo_random(64 * 1024, 5);
    let encoded = round_trip(Lion::new, &input);
    let blocks = input.len() / 64;
    assert!(encoded.len() < input.len() + blocks * 6);
    assert!(encoded.len() >= input.len());
    let encoded = round_trip(Chameleon::new, &input);
    assert!(encoded.len() < input.len() + (input.len() / 256) * 8);
}

#[test]
fn safe_encode_buffer_size_values() {
    assert_eq!(Chameleon::safe_encode_buffer_size(0), 0);
    assert_eq!(Chameleon::safe_encode_buffer_size(125), 133);
    assert_eq!(Chameleon::safe_encode_buffer_size(256), 264);
    assert_eq!(Chameleon::safe_encode_buffer_size(257), 273);
    assert_eq!(Cheetah::safe_encode_buffer_size(125), 133);
    assert_eq!(Cheetah::safe_encode_buffer_size(256), 272);
    assert_eq!(Lion::safe_encode_buffer_size(125), 137);
    assert_eq!(Lion::safe_encode_buffer_size(64), 70);
}

#[test]
fn block_constants() {
    assert_eq!(Chameleon::block_size(), 256);
    assert_eq!(Cheetah::block_size(), 128);
    assert_eq!(Lion::block_size(), 64);
    assert_eq!(Chameleon::signature_significant_bytes(), 8);
    assert_eq!(Cheetah::signature_significant_bytes(), 8);
    assert_eq!(Lion::signature_significant_bytes(), 6);
    assert_eq!(Chameleon::decode_unit_size(), 8);
    assert_eq!(Lion::decode_unit_size(), 4);
}

#[test]
fn encode_error_when_output_too_small() {
    let input = text(300);
    let mut small = vec![0u8; 10];
    assert_eq!(Chameleon::encode(&input, &mut small), Err(EncodeError {}));
    assert_eq!(small, vec![0u8; 10]);
    assert_eq!(Cheetah::encode(&input, &mut small), Err(EncodeError {}));
    assert_eq!(Lion::encode(&input, &mut small), Err(EncodeError {}));
}

#[test]
fn decode_error_when_output_too_small() {
    let input = text(300);
    let mut encoded = vec![0u8; 400];
    let n = Cheetah::encode(&input, &mut encoded).unwrap();
    let mut small = vec![0u8; 299];
    assert_eq!(Cheetah::decode(&encoded[..n], &mut small), Err(DecodeError {}));
}

#[test]
fn decode_error_when_input_cut_short() {
    // Fewer bytes than a signature.
    let mut out = vec![0u8; 64];
    assert_eq!(Chameleon::decode(&[1, 2, 3], &mut out), Err(DecodeError {}));
    assert_eq!(Lion::decode(&[1, 2, 3, 4, 5], &mut out), Err(DecodeError {}));
    // A reference flag with a single byte left for its two-byte hash.
    assert_eq!(Cheetah::decode(&[1, 0, 0, 0, 0, 0, 0, 0, 9], &mut out), Err(DecodeError {}));
}

#[test]
fn hash_values() {
    assert_eq!(hash(0), 0);
    assert_eq!(hash(1), (HASH_MULTIPLIER >> 16) as u16);
    assert_eq!(hash(0x7473_6574), ((0x7473_6574u32.wrapping_mul(0x9D6E_F916)) >> 16) as u16);
    assert_eq!(hash(u32::MAX), (0u32.wrapping_sub(0x9D6E_F916) >> 16) as u16);
}

#[test]
fn error_messages() {
    assert_eq!(EncodeError {}.message(), "Encode error");
    assert_eq!(DecodeError {}.message(), "Decode error");
}
