//! The error of the connection handler.

use vstd::prelude::*;

verus! {

/// What can go wrong while connections are handled.
#[derive(Clone, Copy, PartialEq, Eq, Structural, Debug)]
pub enum Error {
    /// A message or an identifier did not fit the state of the handler.
    InternalError,
}

} // verus!
