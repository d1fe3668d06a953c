//! Errors of reading the input files and of the program as a whole.

use crate::spline::FitError;
use vstd::prelude::*;

verus! {

/// Declares std's `ParseFloatError`, which `ReadingError` carries as it came
/// from `str::parse::<f64>`; nothing inside it is read.
#[verifier::external_type_specification]
#[verifier::external_body]
pub struct ExParseFloatError(std::num::ParseFloatError);

/// Declares std's `io::Error`, which the error types carry as it came from a
/// failed read or write; nothing inside it is read.
#[verifier::external_type_specification]
#[verifier::external_body]
pub struct ExIoError(std::io::Error);

/// What can go wrong when reading a points file or a coefficients file.
pub enum ReadingError {
    /// A number could not be read from its text.
    ParseError(std::num::ParseFloatError),
    /// The named file could not be opened or read.
    FileStreamError(std::io::Error, String),
    /// A points file holds fewer than two points.
    NotEnoughPoints,
    /// A coefficient line has fewer than two pairs, or a pair has no comma.
    IllFormedCoeffs,
    /// A point line has no colon, or its pair has no comma.
    IllFormedPoint,
}

impl From<std::num::ParseFloatError> for ReadingError {
    fn from(e: std::num::ParseFloatError) -> (r: ReadingError)
        ensures
            r == ReadingError::ParseError(e),
    {
        ReadingError::ParseError(e)
    }
}

impl vstd::std_specs::convert::FromSpecImpl<std::num::ParseFloatError> for ReadingError {
    open spec fn obeys_from_spec() -> bool {
        true
    }

    open spec fn from_spec(e: std::num::ParseFloatError) -> ReadingError {
        ReadingError::ParseError(e)
    }
}

/// What can go wrong in a run of the program.
pub enum FgError {
    /// An input file could not be read.
    ReadingError(ReadingError),
    /// The output file could not be written.
    IoError(std::io::Error),
    /// No spline could be fitted through the points.
    FitError(FitError),
}

impl From<ReadingError> for FgError {
    fn from(e: ReadingError) -> (r: FgError)
        ensures
            r == FgError::ReadingError(e),
    {
        FgError::ReadingError(e)
    }
}

impl vstd::std_specs::convert::FromSpecImpl<ReadingError> for FgError {
    open spec fn obeys_from_spec() -> bool {
        true
    }

    open spec fn from_spec(e: ReadingError) -> FgError {
        FgError::ReadingError(e)
    }
}

impl From<std::io::Error> for FgError {
    fn from(e: std::io::Error) -> (r: FgError)
        ensures
            r == FgError::IoError(e),
    {
        FgError::IoError(e)
    }
}

impl vstd::std_specs::convert::FromSpecImpl<std::io::Error> for FgError {
    open spec fn obeys_from_spec() -> bool {
        true
    }

    open spec fn from_spec(e: std::io::Error) -> FgError {
        FgError::IoError(e)
    }
}

impl From<FitError> for FgError {
    fn from(e: FitError) -> (r: FgError)
        ensures
            r == FgError::FitError(e),
    {
        FgError::FitError(e)
    }
}

impl vstd::std_specs::convert::FromSpecImpl<FitError> for FgError {
    open spec fn obeys_from_spec() -> bool {
        true
    }

    open spec fn from_spec(e: FitError) -> FgError {
        FgError::FitError(e)
    }
}

} // verus!
