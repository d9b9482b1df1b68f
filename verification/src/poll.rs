//! What asking for something that may not be there yet comes to.

use vstd::prelude::*;

verus! {

/// A value that is there, or is not there yet.
#[derive(Debug)]
pub enum Polled<T> {
    /// The value is there.
    Ready(T),
    /// The value is not there yet.
    Pending,
}

} // verus!
