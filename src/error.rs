use vstd::prelude::*;

verus! {

/// The kinds of failure a store operation can report.
#[derive(Clone, Copy, Debug, PartialEq, Eq, Structural)]
pub enum KvError {
    /// A scalar was read from a key that holds nothing.
    NotFound,
    /// The key holds a value of another shape than the operation needs.
    TypeMismatch,
    /// The arguments cannot be applied (a counter update that leaves the `i32` range).
    InvalidArgument,
}

} // verus!
