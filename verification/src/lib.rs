use vstd::prelude::*;

pub mod records;
pub mod schedule;
pub mod store;
pub mod uint256;

pub use records::{FeeError, PoolId, TickInfo};
pub use schedule::calc_fees_per_ticks;
pub use store::{FeeManager, IFeeManager};

verus! {

/// Ceiling division of `a` by `b` for nonnegative `a` and positive `b`.
pub open spec fn ceil_div(a: int, b: int) -> int {
    (a + b - 1) / b
}

} // verus!
