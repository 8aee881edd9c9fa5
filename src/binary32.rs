//! Reading IEEE-754 binary32 values from their bit patterns: the sign, how a
//! value compares with a whole number, and its floor.
//!
//! A finite value with exponent field `e` and fraction field `f` has
//! magnitude `significand * 2^exponent`, where the significand is `f` (plus
//! `2^23` when `e != 0`) and the exponent is `e - 150` (`-149` when `e == 0`).
use vstd::prelude::*;

use vstd::arithmetic::div_mod::{lemma_basic_div, lemma_fundamental_div_mod};
use vstd::arithmetic::power2::{
    lemma2_to64, lemma_pow2_adds, lemma_pow2_strictly_increases, pow2,
};

verus! {

/// The sign bit is set.
pub open spec fn sign_set(b: u32) -> bool {
    b >= 0x8000_0000
}

/// The eight-bit exponent field.
pub open spec fn exponent_field(b: u32) -> nat {
    ((b % 0x8000_0000) / 0x80_0000) as nat
}

/// The 23-bit fraction field.
pub open spec fn fraction_field(b: u32) -> nat {
    (b % 0x80_0000) as nat
}

/// The bit pattern is a NaN.
pub open spec fn is_nan(b: u32) -> bool {
    exponent_field(b) == 255 && fraction_field(b) != 0
}

/// The bit pattern is an infinity of either sign.
pub open spec fn is_infinite(b: u32) -> bool {
    exponent_field(b) == 255 && fraction_field(b) == 0
}

/// Significand of a finite value.
pub open spec fn significand(b: u32) -> nat {
    if exponent_field(b) == 0 {
        fraction_field(b)
    } else {
        fraction_field(b) + 0x80_0000
    }
}

/// Power of two that scales the significand of a finite value.
pub open spec fn exponent(b: u32) -> int {
    if exponent_field(b) == 0 {
        -149
    } else {
        exponent_field(b) - 150
    }
}

/// The magnitude of a finite value is greater than `n`.
pub open spec fn magnitude_exceeds(b: u32, n: nat) -> bool {
    if exponent(b) >= 0 {
        significand(b) * pow2(exponent(b) as nat) > n
    } else {
        significand(b) > n * pow2((-exponent(b)) as nat)
    }
}

/// The floor of the magnitude of a finite value.
pub open spec fn magnitude_floor(b: u32) -> nat {
    if exponent(b) >= 0 {
        significand(b) * pow2(exponent(b) as nat)
    } else {
        significand(b) / pow2((-exponent(b)) as nat)
    }
}

/// The value is less than zero (negative zero and NaN are not).
pub open spec fn is_negative(b: u32) -> bool {
    sign_set(b) && !is_nan(b) && (exponent_field(b) != 0 || fraction_field(b) != 0)
}

/// The value is greater than `n` (NaN is not).
pub open spec fn is_greater_than(b: u32, n: nat) -> bool {
    !sign_set(b) && !is_nan(b) && (is_infinite(b) || magnitude_exceeds(b, n))
}

/// The value lies outside the closed range `[0, n]`.
pub open spec fn outside(b: u32, n: nat) -> bool {
    is_negative(b) || is_greater_than(b, n)
}

/// The floor of the value as an unsigned integer: a conversion that takes
/// NaN and values at or below zero to zero.
pub open spec fn floor_to_nat(b: u32) -> nat {
    if is_nan(b) || sign_set(b) {
        0
    } else {
        magnitude_floor(b)
    }
}

/// `2^e` for small `e`.
fn pow2_u64(e: u32) -> (r: u64)
    requires
        e <= 24,
    ensures
        r == pow2(e as nat),
        1 <= r <= 0x100_0000,
{
    proof {
        lemma2_to64();
    }
    let mut r: u64 = 1;
    let mut i: u32 = 0;
    while i < e
        invariant
            i <= e <= 24,
            r == pow2(i as nat),
            r >= 1,
            pow2(1) == 2,
            pow2(24) == 0x100_0000,
        decreases e - i,
    {
        proof {
            lemma_pow2_adds(i as nat, 1);
            lemma_pow2_strictly_increases(i as nat, 24);
        }
        r = r * 2;
        i = i + 1;
    }
    proof {
        if e < 24 {
            lemma_pow2_strictly_increases(e as nat, 24);
        }
    }
    r
}

/// Locates the binary32 coordinate `b` on an axis of `n` cells: `None` when
/// it lies outside `[0, n]`, else its floor.
pub fn locate(b: u32, n: usize) -> (r: Option<usize>)
    requires
        n < 0x1_0000_0000,
    ensures
        r is None <==> outside(b, n as nat),
        r matches Some(k) ==> k == floor_to_nat(b) && k <= n,
{
    let exp: u32 = (b % 0x8000_0000) / 0x80_0000;
    let frac: u32 = b % 0x80_0000;
    if exp == 255 {
        if frac != 0 {
            return Some(0);
        }
        return None;
    }
    if b >= 0x8000_0000 {
        if exp == 0 && frac == 0 {
            return Some(0);
        }
        return None;
    }
    let sig: u64 = if exp == 0 {
        frac as u64
    } else {
        frac as u64 + 0x80_0000
    };
    assert(sig == significand(b));
    if exp <= 125 {
        // The magnitude is below one: the floor is zero.
        let ghost k: nat = (-exponent(b)) as nat;
        proof {
            lemma2_to64();
            if k > 25 {
                lemma_pow2_strictly_increases(25, k);
            }
            lemma_basic_div(sig as int, pow2(k) as int);
            assert(n > 0 ==> n * pow2(k) >= pow2(k)) by (nonlinear_arith);
        }
        if n == 0 && sig != 0 {
            return None;
        }
        return Some(0);
    }
    if exp < 150 {
        let k: u32 = 150 - exp;
        let p = pow2_u64(k);
        let fl = sig / p;
        let rem = sig % p;
        proof {
            lemma_fundamental_div_mod(sig as int, p as int);
            let s = n as int;
            if fl > n {
                assert(sig > s * p) by (nonlinear_arith)
                    requires
                        sig == p * fl + rem,
                        fl >= s + 1,
                        rem >= 0,
                        p > 0,
                ;
            } else if fl == n {
                assert(sig > s * p <==> rem > 0) by (nonlinear_arith)
                    requires
                        sig == p * fl + rem,
                        fl == s,
                ;
            } else {
                assert(sig <= s * p) by (nonlinear_arith)
                    requires
                        sig == p * fl + rem,
                        fl + 1 <= s,
                        rem < p,
                ;
            }
        }
        if fl > n as u64 || (fl == n as u64 && rem != 0) {
            return None;
        }
        return Some(fl as usize);
    }
    let e: u32 = exp - 150;
    if e >= 10 {
        proof {
            lemma2_to64();
            if e > 10 {
                lemma_pow2_strictly_increases(10, e as nat);
            }
            assert(sig * pow2(e as nat) >= 0x80_0000 * 0x400) by (nonlinear_arith)
                requires
                    sig >= 0x80_0000,
                    pow2(e as nat) >= 0x400,
            ;
        }
        return None;
    }
    let p = pow2_u64(e);
    proof {
        lemma2_to64();
        if e < 9 {
            lemma_pow2_strictly_increases(e as nat, 9);
        }
        assert(sig * p <= 0x100_0000 * 0x200) by (nonlinear_arith)
            requires
                sig < 0x100_0000,
                p <= 0x200,
        ;
    }
    let v = sig * p;
    if v > n as u64 {
        return None;
    }
    Some(v as usize)
}

} // verus!
