//! Errors shared across the crate.

use vstd::prelude::*;

verus! {

/// Everything that can go wrong outside the simulation's own fault
/// taxonomy: resource lookup and parsing.
#[derive(Debug, Clone, PartialEq, Eq)]
pub enum Error {
    FileNotFound,
    BadShaderType,
    ParseError,
    ShaderCompilationError(String),
    InvalidSoundId,
    InvalidTextNameId,
    BadDirection,
    CapacityExceeded,
}

} // verus!
