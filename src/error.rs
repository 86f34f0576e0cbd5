use vstd::prelude::*;

verus! {

/// Every way an operation of this library can fail.
#[derive(Debug, Clone, PartialEq, Eq)]
pub enum ChatError {
    /// The stored transcript holds a line that is neither blank nor `role:content`.
    MalformedData,
    /// The completion endpoint answered with a failure; carries the body it sent.
    RemoteError(String),
    /// The completion endpoint answered without any candidate text.
    NoCompletion,
    /// No record carries the identifier that was asked for.
    NotFound,
    /// No credential was configured for the completion endpoint.
    MissingCredential,
}

} // verus!
