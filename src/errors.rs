pub mod decode_error;
pub mod encode_error;
