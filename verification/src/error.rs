//! The error type of the library.
use vstd::prelude::*;

verus! {

/// An error that a completion request can run into.
#[derive(Debug)]
pub enum GwsError {
    /// The input was rejected; the text says why.
    Validation(String),
}

/// The message of a validation error, as text.
pub open spec fn validation_message(e: GwsError) -> Seq<char> {
    match e {
        GwsError::Validation(m) => m@,
    }
}

} // verus!
