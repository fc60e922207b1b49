//! Trusted boundary around `alloy_primitives::U256`, the 256-bit unsigned
//! integer that the fee computation accumulates in.
//!
//! A `U256` is opaque to the verifier; `u256_val` names the number it holds,
//! and each wrapper states over that name what the operation does.

use vstd::prelude::*;
use crate::ceil_div;

verus! {

#[verifier::external_type_specification]
#[verifier::external_body]
pub struct ExUint<const BITS: usize, const LIMBS: usize>(alloy_primitives::Uint<BITS, LIMBS>);

/// The number held by a 256-bit unsigned integer.
pub uninterp spec fn u256_val(x: alloy_primitives::U256) -> nat;

/// `2^256`, the first number a `U256` cannot hold.
pub open spec fn u256_lim() -> nat {
    0x10000000000000000000000000000000000000000000000000000000000000000nat
}

/// Relies on `ruint::Uint::from` for `u128`: lossless, since 128 < 256 bits.
#[verifier::external_body]
pub(crate) fn u256_from_u128(x: u128) -> (r: alloy_primitives::U256)
    ensures
        u256_val(r) == x as nat,
{
    alloy_primitives::U256::from(x)
}

/// Relies on `ruint::Uint::from` for `u32`: lossless, since 32 < 256 bits.
#[verifier::external_body]
pub(crate) fn u256_from_u32(x: u32) -> (r: alloy_primitives::U256)
    ensures
        u256_val(r) == x as nat,
{
    alloy_primitives::U256::from(x)
}

/// Relies on `Mul` for `ruint::Uint`, a wrapping multiply: exact while the
/// mathematical product stays below `2^256`.
#[verifier::external_body]
pub(crate) fn u256_mul(a: alloy_primitives::U256, b: alloy_primitives::U256) -> (r: alloy_primitives::U256)
    requires
        u256_val(a) * u256_val(b) < u256_lim(),
    ensures
        u256_val(r) == u256_val(a) * u256_val(b),
{
    a * b
}

/// Relies on `Add` for `ruint::Uint`, a wrapping add: exact while the
/// mathematical sum stays below `2^256`.
#[verifier::external_body]
pub(crate) fn u256_add(a: alloy_primitives::U256, b: alloy_primitives::U256) -> (r: alloy_primitives::U256)
    requires
        u256_val(a) + u256_val(b) < u256_lim(),
    ensures
        u256_val(r) == u256_val(a) + u256_val(b),
{
    a + b
}

/// Relies on `ruint::Uint::div_ceil`: the quotient rounded upward; it panics
/// only on a zero divisor, which the precondition rules out.
#[verifier::external_body]
pub(crate) fn u256_div_ceil(a: alloy_primitives::U256, b: alloy_primitives::U256) -> (r: alloy_primitives::U256)
    requires
        u256_val(b) > 0,
    ensures
        u256_val(r) == ceil_div(u256_val(a) as int, u256_val(b) as int),
{
    a.div_ceil(b)
}

/// Relies on `TryFrom<ruint::Uint> for u32`: `Ok` exactly when the value fits
/// in 32 bits, and then the value itself.
#[verifier::external_body]
pub(crate) fn u256_try_to_u32(a: alloy_primitives::U256) -> (r: Option<u32>)
    ensures
        match r {
            Some(v) => u256_val(a) == v as nat,
            None => u256_val(a) > u32::MAX as nat,
        },
{
    u32::try_from(a).ok()
}

/// Relies on `TryFrom<ruint::Uint> for u128`: `Ok` exactly when the value
/// fits in 128 bits, and then the value itself.
#[verifier::external_body]
pub(crate) fn u256_try_to_u128(a: alloy_primitives::U256) -> (r: Option<u128>)
    ensures
        match r {
            Some(v) => u256_val(a) == v as nat,
            None => u256_val(a) > u128::MAX as nat,
        },
{
    u128::try_from(a).ok()
}

} // verus!
