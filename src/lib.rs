//! Single-pass lossless byte-stream compressors built on 4-byte units
//! ("quads"): three algorithms that trade ratio for speed, and the block
//! driver that frames their output, signs each block with one flag per quad,
//! and falls back to verbatim copies on incompressible data.
//!
//! Every executable function is verified against a model: `codec::codec`
//! states what the encoder and decoder compute, and `codec::laws` proves
//! that decoding undoes encoding, block by block, within a fixed size bound.

pub mod algorithms;
pub mod buffer;
pub mod codec;
pub mod errors;
pub mod io;
