use vstd::prelude::*;
use crate::defs::Continous;

verus! {

/// The fixed-point representation of 1: a `Continous` holding `x` stands for
/// the real number `x / ONE`.
pub const ONE: i64 = 1_000_000_000;

/// The nearest representable value: results that leave the 64-bit range stay
/// at its ends.
pub open spec fn saturate(x: int) -> int {
    if x < i64::MIN {
        i64::MIN as int
    } else if x > i64::MAX {
        i64::MAX as int
    } else {
        x
    }
}

/// Division that rounds toward zero, for a positive divisor.
pub open spec fn quotient(a: int, b: int) -> int
    recommends
        b > 0,
{
    if a >= 0 {
        a / b
    } else {
        -((-a) / b)
    }
}

/// Fixed-point sum.
pub open spec fn sum_of(a: int, b: int) -> int {
    saturate(a + b)
}

/// Fixed-point product: the exact product of the two raw values, brought
/// back to billionths by rounding toward zero.
pub open spec fn product_of(a: int, b: int) -> int {
    saturate(quotient(a * b, ONE as int))
}

/// Brings a wide intermediate result back into the 64-bit range.
pub fn saturate_wide(x: i128) -> (r: Continous)
    ensures
        r == saturate(x as int),
{
    if x < i64::MIN as i128 {
        i64::MIN
    } else if x > i64::MAX as i128 {
        i64::MAX
    } else {
        x as i64
    }
}

/// Adds two fixed-point numbers.
pub fn fixed_add(a: Continous, b: Continous) -> (r: Continous)
    ensures
        r == sum_of(a as int, b as int),
{
    saturate_wide(a as i128 + b as i128)
}

/// Multiplies two fixed-point numbers.
pub fn fixed_mul(a: Continous, b: Continous) -> (r: Continous)
    ensures
        r == product_of(a as int, b as int),
{
    proof {
        lemma_product_range(a as int, b as int);
    }
    let wide: i128 = (a as i128) * (b as i128);
    saturate_wide(wide / (ONE as i128))
}

/// The raw product of two 64-bit values fits in 128 bits with room to spare.
pub proof fn lemma_product_range(a: int, b: int)
    requires
        i64::MIN <= a <= i64::MAX,
        i64::MIN <= b <= i64::MAX,
    ensures
        -0x4000_0000_0000_0000_0000_0000_0000_0000 <= a * b
            <= 0x4000_0000_0000_0000_0000_0000_0000_0000,
{
    assert(-0x4000_0000_0000_0000_0000_0000_0000_0000 <= a * b
        <= 0x4000_0000_0000_0000_0000_0000_0000_0000) by (nonlinear_arith)
        requires
            -0x8000_0000_0000_0000 <= a <= 0x8000_0000_0000_0000,
            -0x8000_0000_0000_0000 <= b <= 0x8000_0000_0000_0000,
    ;
}

} // verus!
