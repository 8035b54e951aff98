//! The errors of the event loop.
use vstd::prelude::*;

verus! {

/// `std::io::Error`, the error that handlers return. Its contents are not
/// looked into: the loop only carries such a value from a handler to the
/// caller of the loop.
#[verifier::external_type_specification]
#[verifier::external_body]
pub struct ExIoError(std::io::Error);

/// Why an operation of the event loop failed.
#[derive(Debug)]
pub enum Error {
    /// A system call on the notification context failed; the value is the
    /// `errno` that it reported.
    Resource(i32),
    /// A handler failed; the value is the error that it returned.
    Handler(std::io::Error),
}

/// What a dispatch makes of what a handler returned: success stays success,
/// and the handler's error is carried as it is.
pub fn handler_result(outcome: Result<(), std::io::Error>) -> (result: Result<(), Error>)
    ensures
        match outcome {
            Ok(_) => result is Ok,
            Err(error) => result == Err::<(), Error>(Error::Handler(error)),
        },
{
    match outcome {
        Ok(()) => Ok(()),
        Err(error) => Err(Error::Handler(error)),
    }
}

} // verus!
