//! The library's error type.

use vstd::prelude::*;
use crate::grid::{grid_error_text, GridError};
use crate::text::{append_decimal, append_str, decimal};

verus! {

/// Errors produced by CRS resolution, transform construction, and
/// coordinate conversion. Message payloads carry human-readable context.
#[derive(Debug)]
#[non_exhaustive]
pub enum Error {
    UnknownCrs(String),
    UnsupportedProjection(String),
    UnknownOperation(String),
    OperationSelection(String),
    InvalidDefinition(String),
    OutOfRange(String),
    /// A fixed-point iteration exhausted its budget without meeting its
    /// tolerance: the input is outside the domain where the inverse series
    /// contracts.
    NonConvergence { context: &'static str, iterations: usize },
    Grid(GridError),
}

/// The text an error displays.
pub open spec fn error_text(e: Error) -> Seq<char> {
    match e {
        Error::UnknownCrs(m) => "unknown CRS: "@ + m@,
        Error::UnsupportedProjection(m) => "unsupported projection: "@ + m@,
        Error::UnknownOperation(m) => "unknown operation: "@ + m@,
        Error::OperationSelection(m) => "operation selection failed: "@ + m@,
        Error::InvalidDefinition(m) => "invalid CRS definition: "@ + m@,
        Error::OutOfRange(m) => "coordinate out of range: "@ + m@,
        Error::NonConvergence { context, iterations } => context@ + " did not converge after "@
            + decimal(iterations as nat) + " iterations"@,
        Error::Grid(g) => grid_error_text(g@),
    }
}

impl Error {
    /// The error as displayed text.
    pub fn message(&self) -> (r: String)
        ensures
            r@ == error_text(*self),
    {
        match self {
            Error::NonConvergence { context, iterations } => {
                let mut r = (*context).to_owned();
                append_str(&mut r, " did not converge after ");
                append_decimal(&mut r, *iterations as u64);
                append_str(&mut r, " iterations");
                r
            },
            Error::Grid(g) => g.message(),
            Error::UnknownCrs(m) => prefixed("unknown CRS: ", m),
            Error::UnsupportedProjection(m) => prefixed("unsupported projection: ", m),
            Error::UnknownOperation(m) => prefixed("unknown operation: ", m),
            Error::OperationSelection(m) => prefixed("operation selection failed: ", m),
            Error::InvalidDefinition(m) => prefixed("invalid CRS definition: ", m),
            Error::OutOfRange(m) => prefixed("coordinate out of range: ", m),
        }
    }
}

fn prefixed(prefix: &str, m: &String) -> (r: String)
    ensures
        r@ == prefix@ + m@,
{
    let mut r = prefix.to_owned();
    append_str(&mut r, m.as_str());
    r
}

impl From<GridError> for Error {
    fn from(e: GridError) -> (r: Error) {
        Error::Grid(e)
    }
}

impl vstd::std_specs::convert::FromSpecImpl<GridError> for Error {
    open spec fn obeys_from_spec() -> bool {
        true
    }

    open spec fn from_spec(e: GridError) -> Error {
        Error::Grid(e)
    }
}

} // verus!
