//! The error of reading a log file.
use vstd::prelude::*;

verus! {

/// std's input/output error.
#[verifier::external_type_specification]
#[verifier::external_body]
pub struct ExIoError(std::io::Error);

/// A failure of the run as a whole.
#[derive(Debug)]
pub enum AppError {
    IO(std::io::Error),
}

impl From<std::io::Error> for AppError {
    fn from(e: std::io::Error) -> (r: Self) {
        AppError::IO(e)
    }
}

impl vstd::std_specs::convert::FromSpecImpl<std::io::Error> for AppError {
    open spec fn obeys_from_spec() -> bool {
        true
    }

    open spec fn from_spec(e: std::io::Error) -> Self {
        AppError::IO(e)
    }
}

} // verus!
