pub mod codec;
pub mod decoder;
pub mod laws;
pub mod protection_state;
pub mod quad_encoder;
