use vstd::prelude::*;

verus! {

/// Prices are counted in millionths of a dollar ("micro-dollars") and held
/// in a `u32`, so a price is at most about $4294.97. This is the price of
/// one dollar, the payout of a winning outcome token.
pub const ONE_DOLLAR: u32 = 1_000_000;

/// Share quantities are counted in millionths of a share and held in a `u64`.
/// This is one whole share.
pub const ONE_SHARE: u64 = 1_000_000;

/// Money amounts (a quantity times a price) are counted in units of
/// `1 / (2 * ONE_DOLLAR * ONE_SHARE)` dollars, so that every product of a
/// share quantity and a price, or half a price (a midpoint of two quotes),
/// is exact. This is the number of such units in one dollar.
pub const AMOUNT_PER_DOLLAR: i128 = 2_000_000_000_000;

/// The exact amount paid for `units` shares at `price` each.
pub open spec fn amount_of(units: u64, price: u32) -> int {
    2 * (units as int * price as int)
}

/// The exact amount gained (negative: lost) on `units` shares whose price
/// went from `from` to `to`.
pub open spec fn gain_of(units: u64, from: u32, to: u32) -> int {
    2 * ((to as int - from as int) * units as int)
}

/// No single trade moves an amount by this much or more: 2^97 exceeds
/// twice every product of a `u64` quantity and a `u32` price.
pub open spec fn trade_bound() -> int {
    0x2_0000_0000_0000_0000_0000_0000
}

pub proof fn lemma_amount_bounds(units: u64, price: u32)
    ensures
        0 <= amount_of(units, price) < trade_bound(),
{
    assert(0 <= units as int * price as int <= 0xFFFF_FFFF_FFFF_FFFF * 0xFFFF_FFFF)
        by (nonlinear_arith);
}

/// A gain on one position is less than `trade_bound()` either way; so is
/// one at a price given in half micro-dollars (`to_halves`).
pub proof fn lemma_gain_bounds(units: u64, from: u32, to: u32, to_halves: int)
    requires
        0 <= to_halves <= 2 * 0xFFFF_FFFF,
    ensures
        -trade_bound() < gain_of(units, from, to) < trade_bound(),
        -trade_bound() < (to_halves - 2 * from as int) * (units as int) < trade_bound(),
{
    let d = to as int - from as int;
    assert(-0xFFFF_FFFF * 0xFFFF_FFFF_FFFF_FFFF <= d * units as int <= 0xFFFF_FFFF
        * 0xFFFF_FFFF_FFFF_FFFF) by (nonlinear_arith)
        requires
            -0xFFFF_FFFF <= d <= 0xFFFF_FFFF,
            0 <= units <= 0xFFFF_FFFF_FFFF_FFFF,
    ;
    let e = to_halves - 2 * from as int;
    assert(-2 * 0xFFFF_FFFF * 0xFFFF_FFFF_FFFF_FFFF <= e * units as int <= 2 * 0xFFFF_FFFF
        * 0xFFFF_FFFF_FFFF_FFFF) by (nonlinear_arith)
        requires
            -2 * 0xFFFF_FFFF <= e <= 2 * 0xFFFF_FFFF,
            0 <= units <= 0xFFFF_FFFF_FFFF_FFFF,
    ;
}

/// Computes the amount paid for `units` shares at `price` each.
pub fn amount(units: u64, price: u32) -> (r: i128)
    ensures
        r == amount_of(units, price),
{
    proof {
        lemma_amount_bounds(units, price);
    }
    2 * ((units as i128) * (price as i128))
}

/// Computes the amount gained on `units` shares whose price went from
/// `from` to `to`.
pub fn gain(units: u64, from: u32, to: u32) -> (r: i128)
    ensures
        r == gain_of(units, from, to),
{
    proof {
        lemma_gain_bounds(units, from, to, 0);
    }
    2 * ((to as i128 - from as i128) * (units as i128))
}

} // verus!
