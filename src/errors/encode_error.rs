use vstd::prelude::*;

verus! {

/// The output buffer of an encoder is too small for the encoded stream.
#[derive(Debug, Clone, Copy, PartialEq, Eq)]
pub struct EncodeError {}

impl EncodeError {
    /// A short description of the failure.
    pub fn message(&self) -> (r: &'static str)
        ensures
            r@ == "Encode error"@,
    {
        "Encode error"
    }
}

} // verus!
