use vstd::prelude::*;

verus! {

/// The input of a decoder is truncated or malformed, or the output buffer is
/// too small for what it holds.
#[derive(Debug, Clone, Copy, PartialEq, Eq)]
pub struct DecodeError {}

impl DecodeError {
    /// A short description of the failure.
    pub fn message(&self) -> (r: &'static str)
        ensures
            r@ == "Decode error"@,
    {
        "Decode error"
    }
}

} // verus!
