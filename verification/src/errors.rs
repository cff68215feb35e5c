//! The errors that tool handlers hand back.

use vstd::prelude::*;

verus! {

/// Why a tool call failed.
#[derive(Debug, PartialEq, Eq)]
pub enum FunctionCallError {
    /// The message is shown to the model, which may try again.
    RespondToModel(String),
    /// The call cannot be answered at all.
    Fatal(String),
}

/// What a [`FunctionCallError`] holds.
#[verifier::ext_equal]
pub ghost enum CallFault {
    RespondToModel(Seq<char>),
    Fatal(Seq<char>),
}

impl View for FunctionCallError {
    type V = CallFault;

    open spec fn view(&self) -> CallFault {
        match self {
            FunctionCallError::RespondToModel(message) => CallFault::RespondToModel(message@),
            FunctionCallError::Fatal(message) => CallFault::Fatal(message@),
        }
    }
}

/// The outcome of a call that yields text.
pub open spec fn text_outcome(r: Result<String, FunctionCallError>) -> Result<
    Seq<char>,
    CallFault,
> {
    match r {
        Ok(s) => Ok(s@),
        Err(e) => Err(e@),
    }
}

/// The error with a message for the model.
pub fn respond(message: &str) -> (e: FunctionCallError)
    ensures
        e@ == CallFault::RespondToModel(message@),
{
    FunctionCallError::RespondToModel(message.to_string())
}

} // verus!
