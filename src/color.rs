//! Quantization of a linear colour channel to an 8-bit level.
use vstd::prelude::*;

verus! {

/// The channel scale factor 255.999, in thousandths.
pub const SCALE_THOUSANDTHS: u128 = 255999;

/// The 8-bit level of the channel value `num / den`: the value scaled by
/// 255.999 and truncated toward zero.
pub open spec fn quantized(num: nat, den: nat) -> nat {
    ((SCALE_THOUSANDTHS as nat) * num) / (1000 * den)
}

/// A channel value in [0, 1] never reaches level 256.
pub proof fn lemma_quantized_fits(num: nat, den: nat)
    requires
        den > 0,
        num <= den,
    ensures
        quantized(num, den) <= 255,
{
    let x: int = SCALE_THOUSANDTHS * num as int;
    let d: int = 1000 * den as int;
    let q: int = x / d;
    let m: int = x % d;
    assert(x == d * q + m && 0 <= m < d) by {
        vstd::arithmetic::div_mod::lemma_fundamental_div_mod(x, d);
    }
    assert(x < 256 * d) by (nonlinear_arith)
        requires
            x == 255999 * num,
            d == 1000 * den,
            num <= den,
            den > 0,
    ;
    assert(q <= 255) by (nonlinear_arith)
        requires
            x == d * q + m,
            0 <= m,
            x < 256 * d,
            d > 0,
            q >= 0,
    ;
}

/// On the gradient over 255 steps, level `i` comes out as `i` itself.
pub proof fn lemma_quantized_steps_of_255(i: nat)
    requires
        i <= 255,
    ensures
        quantized(i, 255) == i,
{
    let x: int = SCALE_THOUSANDTHS * i as int;
    assert(x == 255000 * i + 999 * i);
    assert(999 * i < 255000) by (nonlinear_arith)
        requires
            i <= 255,
    ;
    vstd::arithmetic::div_mod::lemma_fundamental_div_mod_converse(
        x,
        255000,
        i as int,
        999 * i as int,
    );
}

/// Black stays at level 0 and full intensity reaches level 255: the
/// factor 255.999 truncates to the largest byte, never to 256.
pub proof fn lemma_quantized_ends(den: nat)
    requires
        den > 0,
    ensures
        quantized(0, den) == 0,
        quantized(den, den) == 255,
{
    let d: int = 1000 * den as int;
    let x: int = SCALE_THOUSANDTHS * den as int;
    assert(x == 255 * d + 999 * den);
    assert(0 <= 999 * den < d);
    vstd::arithmetic::div_mod::lemma_fundamental_div_mod_converse(x, d, 255, 999 * den as int);
    assert(SCALE_THOUSANDTHS * 0 == 0);
    vstd::arithmetic::div_mod::lemma_fundamental_div_mod_converse(0, d, 0, 0);
}

/// The 8-bit level of the channel value `num / den`, which lies in [0, 1].
pub fn quantize_fraction(num: usize, den: usize) -> (level: u8)
    requires
        den > 0,
        num <= den,
    ensures
        level == quantized(num as nat, den as nat),
{
    proof {
        lemma_quantized_fits(num as nat, den as nat);
    }
    let x: u128 = SCALE_THOUSANDTHS * (num as u128);
    let d: u128 = 1000 * (den as u128);
    (x / d) as u8
}

} // verus!
