//! All chain-related errors.

use vstd::prelude::*;
use crate::message::Message;
use crate::traits::Mode;

verus! {

/// Every way a chain operation can fail. Nothing is resolved silently:
/// a failing link aborts the remaining replay rather than skipping it.
#[derive(Debug)]
pub enum Error<A> {
    /// An input/output failure on a named file.
    IoError(String, String),
    /// An input/output failure on an unnamed source.
    IoError2(String),
    /// A malformed persisted line, by 1-based line number.
    SerdeError(usize),
    /// A chain-link acceptance check failed at a specific 1-based line,
    /// carrying both disputed links for diagnosis.
    FailedValidation {
        file_name: String,
        line_number: usize,
        last_message: Message<A>,
        failed_message: Message<A>,
    },
    /// An action was applied or replayed but was not legal for the state
    /// it was applied to.
    BadAction,
    /// A file's declared schema does not match the implementation
    /// attempting to read it.
    WrongMode { mode: Mode, expected_modes: Vec<Mode> },
}

/// Map a parse failure, by 1-based line number, into a chain error.
pub fn dit_result<A, T>(result: Result<T, usize>) -> (r: Result<T, Error<A>>)
    ensures
        match result {
            Ok(t) => r == Ok::<T, Error<A>>(t),
            Err(line) => r == Err::<T, Error<A>>(Error::SerdeError(line)),
        },
{
    match result {
        Ok(t) => Ok(t),
        Err(line) => Err(Error::SerdeError(line)),
    }
}

} // verus!
