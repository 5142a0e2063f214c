use vstd::prelude::*;

verus! {

/// The kinds of error a pool operation ends with.
#[derive(Clone, Copy, Debug, PartialEq, Eq, Structural)]
pub enum PoolError {
    /// An invalid request: wrong auction type, duplicate or missing auction, bad amounts.
    BadRequest,
    /// The health of a position does not allow the operation.
    InvalidHf,
    /// A fixed-point step left the range of `i128`.
    ArithmeticOverflow,
    /// An account holds less than a settlement takes from it.
    InsufficientBalance,
}

} // verus!
