//! The ways the application can end, and their process exit values.
use vstd::prelude::*;

verus! {

/// Enum representing each way the application can fail.
#[derive(Debug, Clone, Copy, Hash, PartialEq, Eq, Structural)]
pub enum Error {
    /// No errors occured, everything executed correctly.
    NoError,
    /// Parsing of command-line options failed.
    OptionParsingError,
    /// Selected and saved hash lengths differ.
    HashLengthDiffers,
    /// Parsing the hashes file failed.
    HashesFileParsingFailure,
    /// The specified amount of files do not match.
    NFilesDiffer(i32),
}

/// The exit value that stands for `e`.
pub open spec fn exit_value_of(e: Error) -> int {
    match e {
        Error::NoError => 0,
        Error::OptionParsingError => 1,
        Error::HashLengthDiffers => 2,
        Error::HashesFileParsingFailure => 3,
        Error::NFilesDiffer(i) => i + 3,
    }
}

/// The error that an exit value stands for.
pub open spec fn error_of_exit_value(i: i32) -> Error {
    if i == 0 {
        Error::NoError
    } else if i == 1 {
        Error::OptionParsingError
    } else if i == 2 {
        Error::HashLengthDiffers
    } else if i == 3 {
        Error::HashesFileParsingFailure
    } else {
        Error::NFilesDiffer(i.wrapping_sub(3))
    }
}

impl Error {
    /// Get the executable exit value from an `Error` instance.
    pub fn exit_value(&self) -> (r: i32)
        requires
            self matches Error::NFilesDiffer(n) ==> n <= i32::MAX - 3,
        ensures
            r == exit_value_of(*self),
    {
        match *self {
            Error::NoError => 0,
            Error::OptionParsingError => 1,
            Error::HashLengthDiffers => 2,
            Error::HashesFileParsingFailure => 3,
            Error::NFilesDiffer(i) => i + 3,
        }
    }
}

impl From<i32> for Error {
    fn from(i: i32) -> (r: Error) {
        match i {
            0 => Error::NoError,
            1 => Error::OptionParsingError,
            2 => Error::HashLengthDiffers,
            3 => Error::HashesFileParsingFailure,
            i => Error::NFilesDiffer(i.wrapping_sub(3)),
        }
    }
}

impl vstd::std_specs::convert::FromSpecImpl<i32> for Error {
    open spec fn obeys_from_spec() -> bool {
        true
    }

    open spec fn from_spec(v: i32) -> Error {
        error_of_exit_value(v)
    }
}

/// Converting an error to its exit value and back gives the same error.
pub proof fn lemma_exit_value_round_trip(e: Error)
    requires
        e matches Error::NFilesDiffer(n) ==> 0 < n <= i32::MAX - 3,
    ensures
        error_of_exit_value(exit_value_of(e) as i32) == e,
{
}

} // verus!
