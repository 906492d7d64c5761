use density_rs::buffer::Buffer;
use density_rs::codec::protection_state::ProtectionState;
use density_rs::io::read_buffer::ReadBuffer;
use density_rs::io::read_signature::ReadSignature;
use density_rs::io::write_buffer::WriteBuffer;
use density_rs::io::write_signature::WriteSignature;

#[test]
fn protection_state_starts_idle() {
    let state = ProtectionState::new();
    assert_eq!(state.copy_penalty, 0);
    assert_eq!(state.copy_penalty_start, 1);
    assert!(!state.previous_incompressible);
    assert_eq!(state.counter, 0);
}

#[test]
fn two_incompressible_blocks_start_copying() {
    let mut state = ProtectionState::new();
    assert!(!state.revert_to_copy());
    state.update(true);
    assert_eq!(state.copy_penalty, 0);
    assert!(!state.revert_to_copy());
    state.update(true);
    assert_eq!(state.copy_penalty, 1);
    assert!(state.revert_to_copy());
    state.decay();
    // The run is over and the next one will last one block longer.
    assert_eq!(state.copy_penalty, 0);
    assert_eq!(state.copy_penalty_start, 2);
    assert!(!state.revert_to_copy());
    state.update(true);
    assert_eq!(state.copy_penalty, 2);
}

#[test]
fn a_compressible_block_breaks_the_streak() {
    let mut state = ProtectionState::new();
    state.revert_to_copy();
    state.update(true);
    state.revert_to_copy();
    state.update(false);
    state.revert_to_copy();
    state.update(true);
    assert_eq!(state.copy_penalty, 0);
    assert!(state.previous_incompressible);
}

#[test]
fn every_sixteenth_call_halves_the_escalation() {
    let mut state = ProtectionState::new();
    state.copy_penalty_start = 8;
    // Call 0 halves.
    state.revert_to_copy();
    assert_eq!(state.copy_penalty_start, 4);
    for _ in 1..16 {
        state.revert_to_copy();
    }
    assert_eq!(state.copy_penalty_start, 4);
    assert_eq!(state.counter, 16);
    state.revert_to_copy();
    assert_eq!(state.copy_penalty_start, 2);
    for _ in 0..32 {
        state.revert_to_copy();
    }
    assert_eq!(state.copy_penalty_start, 1);
}

#[test]
fn write_buffer_reserves_and_patches() {
    let mut out = WriteBuffer::new();
    out.push(&[9, 9]);
    let mut signature = WriteSignature::new();
    signature.init(out.index());
    out.skip(8);
    signature.push_bits(1, 1);
    signature.push_bits(0, 1);
    signature.push_bits(3, 2);
    assert_eq!(signature.value, 0b1101);
    assert_eq!(signature.shift, 4);
    out.push_u16_le(0x0102);
    out.push_u32_le(0x0a0b0c0d);
    out.ink(&signature, 6);
    assert_eq!(out.buffer, vec![9, 9, 13, 0, 0, 0, 0, 0, 0, 0, 2, 1, 0x0d, 0x0c, 0x0b, 0x0a]);
    assert_eq!(out.write_at(0, &[7]), 1);
    out.rewind(6);
    assert_eq!(out.buffer, vec![7, 9, 13, 0, 0, 0, 0, 0, 0, 0]);
}

#[test]
fn read_buffer_reads_little_endian() {
    let bytes = [0x0d, 0x0c, 0x0b, 0x0a, 0x02, 0x01, 1, 2, 3, 4, 5, 6, 7, 8, 0xff];
    let mut input = ReadBuffer::new(&bytes);
    assert_eq!(input.remaining(), 15);
    assert_eq!(input.read_u32_le(), 0x0a0b0c0d);
    assert_eq!(input.read_u16_le(), 0x0102);
    assert_eq!(input.read_u64_le(), 0x0807060504030201);
    input.rewind(8);
    assert_eq!(input.read_le(6), 0x060504030201);
    assert_eq!(input.read(3), &[7, 8, 0xff]);
    assert_eq!(input.remaining(), 0);
}

#[test]
fn read_signature_consumes_flags_from_the_low_bits() {
    let mut signature = ReadSignature::new(0b1110_01);
    assert_eq!(signature.read_bits(1, 1), 1);
    assert_eq!(signature.read_bits(1, 1), 0);
    assert_eq!(signature.read_bits(3, 2), 2);
    assert_eq!(signature.read_bits(7, 3), 3);
    assert_eq!(signature.value, 0);
}

#[test]
fn fixed_buffer_fills_from_the_front() {
    let mut buffer: Buffer<8> = Buffer::new();
    assert!(buffer.is_empty());
    assert_eq!(buffer.remaining_space(), 8);
    buffer.push(&[1, 2, 3]);
    buffer.push(&[4, 5]);
    assert_eq!(&buffer.buffer[..buffer.index], &[1, 2, 3, 4, 5]);
    assert_eq!(buffer.remaining_space(), 3);
    assert!(!buffer.is_empty());
    buffer.reset();
    assert!(buffer.is_empty());
    assert_eq!(buffer.remaining_space(), 8);
}
