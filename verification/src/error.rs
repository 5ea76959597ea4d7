//! The failures that the library reports.

use crate::data;
use vstd::prelude::*;

verus! {

/// Why an operation of the library failed.
#[derive(Clone, Debug, PartialEq, Eq)]
pub enum Error {
    /// The bytes stored or received for a block do not hash to its name.
    CorruptData(data::Hash),
    /// A request that cannot be served in the shape it was sent.
    BadRequest(String),
    /// Any other failure, with its explanation. The caller may retry.
    Message(String),
}

} // verus!
