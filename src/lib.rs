//! Records and verifies the integrity of a directory tree: per-file digests,
//! a line-oriented manifest format, and the reconciliation of two manifests.
use vstd::prelude::*;

pub mod algorithms;
pub mod codec;
pub mod compare;
pub mod error;
pub mod hashing;
pub mod manifest;
pub mod options;
pub mod pipeline;
pub mod utilities;

pub use crate::algorithms::Algorithm;
pub use crate::compare::{CompareError, CompareFileResult, CompareResult, compare_hashes};
pub use crate::error::Error;
pub use crate::hashing::{hash_reader, hash_string};
pub use crate::manifest::Manifest;
pub use crate::options::{Commands, Mode, Options};

verus! {

} // verus!
