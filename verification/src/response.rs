//! The error body the HTTP boundary sends back: a plain message. The
//! envelope around it, and its serialization, belong to that boundary.

use vstd::prelude::*;

verus! {

/// A message describing a failed request.
pub struct Error {
    pub message: String,
}

} // verus!
