//! Fixed-point price arithmetic: percentage increases and decreases on
//! prices counted in ten-thousandths of a currency unit, with the
//! adjustment expressed in parts per million so that the sell-escalation
//! schedule (0.01%, 0.05%, 0.1%, 0.25%, 0.5%, 1%) is exact.

use vstd::prelude::*;

verus! {

/// One whole, in parts per million: percentage adjustments are scaled by
/// this denominator.
pub const PPM: u64 = 1_000_000;

/// Largest price the arithmetic accepts; keeps doubling a price inside
/// `u64`.
pub const MAX_PRICE: u64 = 0x7fff_ffff_ffff_ffff;

/// `price` scaled by `factor` parts per million, rounded down.
pub open spec fn spec_scale_ppm(price: u64, factor: u64) -> int {
    (price * factor) / 1_000_000
}

/// The price `ppm` parts per million above `price`, rounded down.
pub open spec fn spec_perc_increase(price: u64, ppm: u64) -> int {
    spec_scale_ppm(price, (1_000_000 + ppm) as u64)
}

/// The price `ppm` parts per million below `price`, rounded down.
pub open spec fn spec_perc_decrease(price: u64, ppm: u64) -> int {
    spec_scale_ppm(price, (1_000_000 - ppm) as u64)
}

/// Multiplies a price by `factor` parts per million, rounding down.
fn scale_ppm(price: u64, factor: u64) -> (r: u64)
    requires
        price <= MAX_PRICE,
        factor <= 2_000_000,
    ensures
        r == spec_scale_ppm(price, factor),
{
    proof {
        assert((price as int) * (factor as int) <= (MAX_PRICE as int) * 2_000_000)
            by (nonlinear_arith)
            requires
                price <= MAX_PRICE,
                factor <= 2_000_000,
        {}
        assert((price as int) * (factor as int) >= 0) by (nonlinear_arith)
            requires
                price >= 0,
                factor >= 0,
        {}
    }
    let wide: u128 = (price as u128) * (factor as u128);
    let out: u128 = wide / 1_000_000u128;
    proof {
        assert(out <= 2 * price) by (nonlinear_arith)
            requires
                wide == (price as int) * (factor as int),
                factor <= 2_000_000,
                out == wide / 1_000_000,
        {}
    }
    out as u64
}

/// Raises `current_price` by `ppm` parts per million (rounding down).
pub fn get_perc_increase(current_price: u64, ppm: u64) -> (r: u64)
    requires
        current_price <= MAX_PRICE,
        ppm <= 1_000_000,
    ensures
        r == spec_perc_increase(current_price, ppm),
{
    scale_ppm(current_price, 1_000_000 + ppm)
}

/// Lowers `current_price` by `ppm` parts per million (rounding down).
pub fn get_perc_decrease(current_price: u64, ppm: u64) -> (r: u64)
    requires
        current_price <= MAX_PRICE,
        ppm <= 1_000_000,
    ensures
        r == spec_perc_decrease(current_price, ppm),
{
    scale_ppm(current_price, 1_000_000 - ppm)
}

/// A raised price never falls below the input price.
pub proof fn lemma_perc_increase_ge(price: u64, ppm: u64)
    requires
        ppm <= 1_000_000,
    ensures
        spec_perc_increase(price, ppm) >= price,
{
    assert((price * ((1_000_000 + ppm) as u64)) / 1_000_000 >= price) by (nonlinear_arith)
        requires
            ppm <= 1_000_000,
    {}
}

/// A lowered price never exceeds the input price.
pub proof fn lemma_perc_decrease_le(price: u64, ppm: u64)
    requires
        ppm <= 1_000_000,
    ensures
        spec_perc_decrease(price, ppm) <= price,
{
    assert((price * ((1_000_000 - ppm) as u64)) / 1_000_000 <= price) by (nonlinear_arith)
        requires
            ppm <= 1_000_000,
    {}
}

/// Scaling is monotone in the factor: a smaller adjustment never gives a
/// larger price.
pub proof fn lemma_scale_ppm_monotone(price: u64, f1: u64, f2: u64)
    requires
        f1 <= f2,
    ensures
        spec_scale_ppm(price, f1) <= spec_scale_ppm(price, f2),
{
    assert((price * f1) / 1_000_000 <= (price * f2) / 1_000_000) by (nonlinear_arith)
        requires
            f1 <= f2,
            price >= 0,
    {}
}

} // verus!
