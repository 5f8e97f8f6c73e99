//! Parsing errors.

use vstd::prelude::*;

verus! {

/// Errors of the log parser.
#[derive(Debug)]
pub enum ParsersError {
    /// An error of no particular kind.
    UnexpectedError,
}

} // verus!
