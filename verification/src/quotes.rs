//! Exchange quotes, which arrive as `rust_decimal::Decimal` dollars, turned
//! into micro-dollar prices.

use rust_decimal::Decimal;
use vstd::prelude::*;
use crate::market::TokenPrice;

verus! {

/// `rust_decimal::Decimal`, a 96-bit integer mantissa with a power-of-ten scale.
#[verifier::external_type_specification]
#[verifier::external_body]
pub struct ExDecimal(Decimal);

/// The mantissa of a decimal: its value is `mantissa_of(d) / 10^scale_of(d)`.
pub uninterp spec fn mantissa_of(d: Decimal) -> int;

/// The scale of a decimal: the power of ten that divides its mantissa.
pub uninterp spec fn scale_of(d: Decimal) -> nat;

/// Calls `Decimal::mantissa`, which returns the signed 96-bit mantissa
/// (`±(lo | mid << 32 | hi << 64)` of three `u32` words).
#[verifier::external_body]
fn decimal_mantissa(d: &Decimal) -> (r: i128)
    ensures
        r == mantissa_of(*d),
        -0x1_0000_0000_0000_0000_0000_0000 < r < 0x1_0000_0000_0000_0000_0000_0000,
{
    d.mantissa()
}

/// Calls `Decimal::scale`, which returns the power of ten that divides the
/// mantissa, read from an 8-bit field of the flags.
#[verifier::external_body]
fn decimal_scale(d: &Decimal) -> (r: u32)
    ensures
        r == scale_of(*d),
        r <= 255,
{
    d.scale()
}

pub open spec fn pow10(e: nat) -> int
    decreases e,
{
    if e == 0 { 1 } else { 10 * pow10((e - 1) as nat) }
}

/// The micro-dollar price of `mantissa / 10^scale` dollars, rounded half
/// up, and kept within 0 and `u32::MAX`.
pub open spec fn micro_of(mantissa: int, scale: nat) -> int {
    let raw = if scale <= 6 {
        mantissa * pow10((6 - scale) as nat)
    } else {
        let d = pow10((scale - 6) as nat);
        (2 * mantissa + d) / (2 * d)
    };
    if raw < 0 { 0 } else if raw > u32::MAX { u32::MAX as int } else { raw }
}

proof fn lemma_pow10_values()
    ensures
        pow10(6) == 1_000_000,
        pow10(30) == 1_000_000_000_000_000_000_000_000_000_000,
        pow10(31) == 10_000_000_000_000_000_000_000_000_000_000,
{
    reveal_with_fuel(pow10, 32);
}

proof fn lemma_pow10_positive(e: nat)
    ensures
        pow10(e) >= 1,
        e >= 1 ==> pow10(e) >= 10,
    decreases e,
{
    if e > 0 {
        lemma_pow10_positive((e - 1) as nat);
    }
}

proof fn lemma_pow10_monotone(a: nat, b: nat)
    requires
        a <= b,
    ensures
        pow10(a) <= pow10(b),
    decreases b,
{
    if a < b {
        lemma_pow10_monotone(a, (b - 1) as nat);
        lemma_pow10_positive((b - 1) as nat);
    }
}

/// Converts `mantissa / 10^scale` dollars to micro-dollars: rounded half
/// up, negative prices as zero, prices above `u32::MAX` micro-dollars as
/// `u32::MAX`.
pub fn micro_from_parts(mantissa: i128, scale: u32) -> (r: u32)
    requires
        -0x1_0000_0000_0000_0000_0000_0000 < mantissa < 0x1_0000_0000_0000_0000_0000_0000,
        scale <= 255,
    ensures
        r == micro_of(mantissa as int, scale as nat),
{
    let limit: i128 = 0xFFFF_FFFF;
    if scale <= 6 {
        // Multiply by 10^(6 - scale), stopping once past the limit.
        let mut raw: i128 = mantissa;
        let mut e: u32 = 0;
        let steps: u32 = 6 - scale;
        proof {
            assert(pow10(0) == 1);
        }
        while e < steps
            invariant
                e <= steps,
                steps == 6 - scale,
                raw == mantissa * pow10(e as nat),
                -0x1_0000_0000_0000_0000_0000_0000 < mantissa < 0x1_0000_0000_0000_0000_0000_0000,
                pow10(e as nat) <= 1_000_000,
            decreases steps - e,
        {
            proof {
                lemma_pow10_monotone((e + 1) as nat, 6);
                lemma_pow10_values();
                lemma_pow10_positive((e + 1) as nat);
                assert(-0x1_0000_0000_0000_0000_0000_0000 * 1_000_000 <= mantissa * pow10((e + 1) as nat) <= 0x1_0000_0000_0000_0000_0000_0000 * 1_000_000)
                    by (nonlinear_arith)
                    requires
                        -0x1_0000_0000_0000_0000_0000_0000 < mantissa < 0x1_0000_0000_0000_0000_0000_0000,
                        1 <= pow10((e + 1) as nat) <= 1_000_000;
                lemma_pow10_positive((e + 1) as nat);
                assert(mantissa * pow10((e + 1) as nat) == (mantissa * pow10(e as nat)) * 10) by (nonlinear_arith)
                    requires pow10((e + 1) as nat) == 10 * pow10(e as nat);
            }
            raw = raw * 10;
            e = e + 1;
        }
        if raw < 0 {
            0
        } else if raw > limit {
            0xFFFF_FFFF
        } else {
            raw as u32
        }
    } else if scale - 6 > 30 {
        // The divisor exceeds twice the mantissa: the price rounds to zero.
        proof {
            lemma_pow10_monotone(31, (scale - 6) as nat);
            lemma_pow10_values();
            let d = pow10((scale - 6) as nat);
            assert(0 <= 2 * mantissa + d < 2 * d);
            assert((2 * mantissa + d) / (2 * d) == 0) by (nonlinear_arith)
                requires 0 <= 2 * mantissa + d < 2 * d;
        }
        0
    } else {
        let steps: u32 = scale - 6;
        let mut d: i128 = 1;
        let mut e: u32 = 0;
        while e < steps
            invariant
                e <= steps,
                steps == scale - 6,
                steps <= 30,
                d == pow10(e as nat),
                d <= 1_000_000_000_000_000_000_000_000_000_000,
            decreases steps - e,
        {
            proof {
                lemma_pow10_monotone((e + 1) as nat, 30);
                lemma_pow10_values();
                assert(pow10((e + 1) as nat) == 10 * pow10(e as nat));
                assert(pow10((e + 1) as nat) <= pow10(30));
                assert(d * 10 == pow10((e + 1) as nat));
                assert(d * 10 <= 1_000_000_000_000_000_000_000_000_000_000);
                lemma_pow10_positive(e as nat);
            }
            d = d * 10;
            e = e + 1;
        }
        proof {
            lemma_pow10_positive(steps as nat);
        }
        let num: i128 = 2 * mantissa + d;
        if num < 0 {
            proof {
                assert((num as int) / (2 * d as int) < 0) by (nonlinear_arith)
                    requires num < 0, d >= 1;
            }
            return 0;
        }
        let raw: i128 = num / (2 * d);
        if raw < 0 {
            0
        } else if raw > limit {
            0xFFFF_FFFF
        } else {
            raw as u32
        }
    }
}

/// The micro-dollar price of a decimal dollar amount (see `micro_from_parts`).
pub fn decimal_to_micro(d: &Decimal) -> (r: u32)
    ensures
        r == micro_of(mantissa_of(*d), scale_of(*d)),
{
    let mantissa = decimal_mantissa(d);
    let scale = decimal_scale(d);
    micro_from_parts(mantissa, scale)
}

/// The quote of a token from decimal bid and ask.
pub fn quote_from_decimals(bid: Option<Decimal>, ask: Option<Decimal>) -> (r: TokenPrice)
    ensures
        r.bid == match bid {
            Some(x) => Some(micro_of(mantissa_of(x), scale_of(x)) as u32),
            None => None,
        },
        r.ask == match ask {
            Some(x) => Some(micro_of(mantissa_of(x), scale_of(x)) as u32),
            None => None,
        },
{
    let b = match bid {
        Some(x) => Some(decimal_to_micro(&x)),
        None => None,
    };
    let a = match ask {
        Some(x) => Some(decimal_to_micro(&x)),
        None => None,
    };
    TokenPrice { bid: b, ask: a }
}

} // verus!
