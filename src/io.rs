pub mod bytes;
pub mod read_buffer;
pub mod read_signature;
pub mod write_buffer;
pub mod write_signature;
