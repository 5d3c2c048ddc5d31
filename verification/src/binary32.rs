//! Single-precision numbers, read from their bit pattern into fixed point
//! without any floating-point arithmetic.

use vstd::arithmetic::div_mod::{
    lemma_div_denominator,
    lemma_fundamental_div_mod_converse,
    lemma_small_div_converse,
};
use vstd::prelude::*;
use crate::units::SCALE;

verus! {

/// Two to the power `k`.
pub open spec fn two_to(k: nat) -> nat
    decreases k,
{
    if k == 0 {
        1
    } else {
        2 * two_to((k - 1) as nat)
    }
}

/// The eight bits of the exponent.
pub open spec fn exponent_field(bits: u32) -> int {
    (bits as int / 0x80_0000) % 256
}

/// The twenty-three bits of the fraction.
pub open spec fn fraction_field(bits: u32) -> int {
    bits as int % 0x80_0000
}

/// Whether the sign bit is set.
pub open spec fn is_negative(bits: u32) -> bool {
    bits >= 0x8000_0000
}

/// Whether the pattern stands for a number, not for an infinity or a
/// not-a-number.
pub open spec fn is_finite(bits: u32) -> bool {
    exponent_field(bits) != 255
}

/// The significand as a whole number: the fraction, with the implied leading
/// bit for every number that is not subnormal.
pub open spec fn significand(bits: u32) -> int {
    if exponent_field(bits) == 0 {
        fraction_field(bits)
    } else {
        fraction_field(bits) + 0x80_0000
    }
}

/// The power of two that scales the significand: the number is
/// `significand * 2^binary_exponent`, with its sign.
pub open spec fn binary_exponent(bits: u32) -> int {
    (if exponent_field(bits) == 0 {
        1
    } else {
        exponent_field(bits)
    }) - 150
}

/// The size of the number in millionths, rounded towards zero.
pub open spec fn magnitude_micro(bits: u32) -> int {
    let x = significand(bits) * SCALE;
    let e = binary_exponent(bits);
    if e >= 0 {
        x * two_to(e as nat)
    } else {
        x / (two_to((-e) as nat) as int)
    }
}

/// The number in millionths, rounded towards zero; `None` for what is not a
/// number and for what a coordinate cannot hold.
pub open spec fn single_micro(bits: u32) -> Option<int> {
    let v = if is_negative(bits) {
        -magnitude_micro(bits)
    } else {
        magnitude_micro(bits)
    };
    if is_finite(bits) && i64::MIN <= v <= i64::MAX {
        Some(v)
    } else {
        None
    }
}

/// Powers of two are positive and grow with the exponent.
pub proof fn lemma_two_to_grows(k: nat, n: nat)
    requires
        k <= n,
    ensures
        0 < two_to(k) <= two_to(n),
    decreases n,
{
    if n > k {
        lemma_two_to_grows(k, (n - 1) as nat);
    } else if k > 0 {
        lemma_two_to_grows((k - 1) as nat, (k - 1) as nat);
    }
}

/// Reads a single-precision number, given by its bits, into millionths.
pub fn micro_from_single(bits: u32) -> (r: Option<i64>)
    ensures
        r matches Some(v) ==> single_micro(bits) == Some(v as int),
        r is None ==> single_micro(bits) is None,
{
    let exponent: u32 = (bits / 0x80_0000) % 256;
    let fraction: u32 = bits % 0x80_0000;
    let negative: bool = bits >= 0x8000_0000;
    if exponent == 255 {
        return None;
    }
    let whole: u32 = if exponent == 0 {
        fraction
    } else {
        fraction + 0x80_0000
    };
    let x: u128 = (whole as u128) * 1_000_000;
    let power: u32 = if exponent == 0 {
        1
    } else {
        exponent
    };
    let mut m: u128 = x;
    if power >= 150 {
        let up: u32 = power - 150;
        let mut k: u32 = 0;
        while k < up
            invariant
                k <= up,
                m as int == (x as int) * two_to(k as nat),
                m <= 0x8000_0000_0000_0000,
                x as int == significand(bits) * SCALE,
                binary_exponent(bits) == up as int,
                is_finite(bits),
            decreases up - k,
        {
            m = m * 2;
            k = k + 1;
            proof {
                assert((x as int) * two_to(k as nat) == 2 * ((x as int) * two_to((k - 1) as nat)))
                    by (nonlinear_arith)
                    requires
                        two_to(k as nat) == 2 * two_to((k - 1) as nat),
                ;
            }
            if m > 0x8000_0000_0000_0000 {
                proof {
                    lemma_two_to_grows(k as nat, up as nat);
                    assert((x as int) * two_to(k as nat) <= (x as int) * two_to(up as nat))
                        by (nonlinear_arith)
                        requires
                            two_to(k as nat) <= two_to(up as nat),
                            x >= 0,
                    ;
                }
                return None;
            }
        }
    } else {
        let down: u32 = 150 - power;
        let mut j: u32 = 0;
        proof {
            assert(two_to(0) == 1);
        }
        while j < down && m > 0
            invariant
                j <= down,
                m as int == (x as int) / (two_to(j as nat) as int),
                m <= x,
                x < 0x1000_0000_0000,
                x as int == significand(bits) * SCALE,
                binary_exponent(bits) == -(down as int),
                down >= 1,
                is_finite(bits),
            decreases down - j,
        {
            proof {
                lemma_two_to_grows(j as nat, j as nat);
                lemma_div_denominator(x as int, two_to(j as nat) as int, 2);
            }
            m = m / 2;
            j = j + 1;
        }
        proof {
            if j < down {
                lemma_two_to_grows(j as nat, down as nat);
                lemma_small_div_converse(x as int, two_to(j as nat) as int);
                lemma_fundamental_div_mod_converse(
                    x as int,
                    two_to(down as nat) as int,
                    0,
                    x as int,
                );
            }
        }
    }
    if negative {
        Some((-(m as i128)) as i64)
    } else if m <= 0x7fff_ffff_ffff_ffff {
        Some(m as i64)
    } else {
        None
    }
}

} // verus!
