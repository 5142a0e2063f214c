use vstd::prelude::*;

verus! {

/// One unit with 7 decimals: the scale of factors, prices and modifiers.
pub const SCALAR_7: i128 = 1_0000000;

/// One unit with 9 decimals: the scale of the reserve exchange rates.
pub const SCALAR_9: i128 = 1_000_000_000;

} // verus!
