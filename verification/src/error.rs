use vstd::prelude::*;

verus! {

/// An error with its message and, where another error caused it, the text of
/// that cause.
#[derive(Debug)]
pub struct ErrorChain {
    pub message: String,
    pub cause: Option<String>,
}

} // verus!
