use vstd::prelude::*;

verus! {

/// An error from building or decoding a game state, with a message for the
/// user.
#[derive(Debug, Clone)]
pub struct OnoroError {
    pub message: String,
}

impl OnoroError {
    pub fn new(message: String) -> (r: OnoroError)
        ensures
            r.message@ == message@,
    {
        OnoroError { message }
    }

    /// The message of this error.
    pub fn message(&self) -> (r: &String)
        ensures
            r@ == self.message@,
    {
        &self.message
    }
}

} // verus!
