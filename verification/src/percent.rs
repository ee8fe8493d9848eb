//! Percentages and parts per billion, as `sp_arithmetic::Percent` and
//! `sp_arithmetic::Perbill` compute them.
use vstd::prelude::*;

verus! {

/// The percentage that `sp_arithmetic::Percent::from_percent` keeps of `x`:
/// values above a hundred count as a hundred.
pub open spec fn clamped_percent(x: u8) -> int {
    if x > 100 {
        100
    } else {
        x as int
    }
}

/// `sp_arithmetic::Percent::from_percent(percent).mul_floor(amount)`: the part
/// `percent / 100` of `amount`, rounded down, with `percent` clamped to a
/// hundred by `from_percent`. The crate computes it as
/// `(amount / 100) * p + ((amount % 100) * p) / 100`, which is exactly
/// `amount * p / 100` rounded down and never overflows.
#[verifier::external_body]
pub fn percent_mul_floor(percent: u8, amount: u128) -> (r: u128)
    ensures
        r == amount * clamped_percent(percent) / 100,
{
    sp_arithmetic::Percent::from_percent(percent).mul_floor(amount)
}

/// `sp_arithmetic::Percent::from_percent(percent).mul_ceil(amount)`: the part
/// `percent / 100` of `amount`, rounded up, with `percent` clamped to a
/// hundred. The crate adds one to the rounded-down product exactly when the
/// division leaves a remainder.
#[verifier::external_body]
pub fn percent_mul_ceil(percent: u8, amount: u128) -> (r: u128)
    ensures
        r == (amount * clamped_percent(percent) + 99) / 100,
{
    sp_arithmetic::Percent::from_percent(percent).mul_ceil(amount)
}

/// A billion: the parts of a whole `Perbill`.
pub open spec fn billion() -> int {
    1_000_000_000
}

/// The parts that `Perbill::from_parts` keeps: at most a billion.
pub open spec fn clamped_parts(parts: u32) -> int {
    if parts > billion() {
        billion()
    } else {
        parts as int
    }
}

/// `Perbill::from_rational(p, q)` in parts per billion: `p / q` rounded
/// down, and a whole where `q` is zero or `p` exceeds `q`.
pub open spec fn perbill_ratio(p: u128, q: u128) -> int {
    if q == 0 || p > q {
        billion()
    } else {
        billion() * p / (q as int)
    }
}

/// `Perbill::from_parts(parts) * x`: `x * parts / 10^9` rounded to the nearest
/// integer, halves rounded down.
pub open spec fn perbill_of(parts: u32, x: u128) -> int {
    let c = clamped_parts(parts);
    x * c / billion() + if (x * c) % billion() > billion() / 2 {
        1int
    } else {
        0int
    }
}

/// `sp_arithmetic::Perbill::from_rational(p, q)`, as its parts. The crate
/// divides `10^9 * p` by `q` exactly, rounding down, and falls back to a whole
/// where `q` is zero or the quotient would exceed a whole (`p > q`).
#[verifier::external_body]
pub fn perbill_from_rational(p: u128, q: u128) -> (r: u32)
    ensures
        r == perbill_ratio(p, q),
{
    sp_arithmetic::Perbill::from_rational(p, q).deconstruct()
}

/// `sp_arithmetic::Perbill::from_parts(parts) * x`. `from_parts` clamps the
/// parts to a billion; the product is computed as
/// `(x / 10^9) * parts + (x % 10^9) * parts / 10^9`, the last division rounded
/// to the nearest integer with halves rounded down, which is exactly
/// `x * parts / 10^9` so rounded.
#[verifier::external_body]
pub fn perbill_mul(parts: u32, x: u128) -> (r: u128)
    ensures
        r == perbill_of(parts, x),
{
    sp_arithmetic::Perbill::from_parts(parts) * x
}

} // verus!
