//! Double-precision numbers taken by their bit pattern, in whole units.
//!
//! A finite number is its significand times a power of two. The functions here
//! round and cut that product with integer arithmetic alone.
use vstd::arithmetic::power2::lemma2_to64;
use vstd::arithmetic::power2::lemma_pow2_pos;
use vstd::arithmetic::power2::lemma_pow2_strictly_increases;
use vstd::arithmetic::power2::lemma_pow2_unfold;
use vstd::arithmetic::power2::pow2;
use vstd::prelude::*;

verus! {

/// The number of values of the fraction field, 2 to the power 52.
pub const FRACTION_VALUES: u64 = 0x10_0000_0000_0000;

/// The first bit pattern of a negative number.
pub const SIGN_BIT: u64 = 0x8000_0000_0000_0000;

/// The fraction field of a bit pattern.
pub open spec fn fraction(bits: u64) -> nat {
    (bits % FRACTION_VALUES) as nat
}

/// The exponent field of a bit pattern.
pub open spec fn exponent_field(bits: u64) -> nat {
    ((bits / FRACTION_VALUES) % 0x800) as nat
}

/// The significand, as a whole number.
pub open spec fn significand(bits: u64) -> nat {
    if exponent_field(bits) == 0 {
        fraction(bits)
    } else {
        fraction(bits) + FRACTION_VALUES as nat
    }
}

/// The power of two that the significand is scaled by.
pub open spec fn scale(bits: u64) -> int {
    if exponent_field(bits) == 0 {
        -1074
    } else {
        exponent_field(bits) - 1075
    }
}

/// Whether the bit pattern stands for no number.
pub open spec fn is_nan(bits: u64) -> bool {
    exponent_field(bits) == 0x7ff && fraction(bits) != 0
}

/// The whole part of `m` times 2 to the power `e`.
pub open spec fn whole(m: nat, e: int) -> nat {
    if e >= 0 {
        m * pow2(e as nat)
    } else {
        m / pow2((-e) as nat)
    }
}

/// `n`, or the largest 64-bit value where `n` is larger.
pub open spec fn saturated(n: nat) -> u64 {
    if n <= u64::MAX {
        n as u64
    } else {
        u64::MAX
    }
}

/// The whole part of a number, bounded to 64 bits; 0 below zero and for no
/// number.
pub open spec fn whole_part(bits: u64) -> u64 {
    if is_nan(bits) || bits >= SIGN_BIT {
        0
    } else {
        saturated(whole(significand(bits), scale(bits)))
    }
}

/// How many low binary digits of `p` go beyond 53 significant ones.
pub open spec fn excess(p: nat) -> nat
    decreases p,
{
    if p < 0x20_0000_0000_0000 {
        0
    } else {
        1 + excess(p / 2)
    }
}

/// `p` rounded to 53 significant binary digits, ties to the even one.
pub open spec fn rounded(p: nat) -> nat {
    let unit = pow2(excess(p));
    let q = p / unit;
    let r = p % unit;
    if 2 * r > unit || (2 * r == unit && q % 2 == 1) {
        (q + 1) * unit
    } else {
        q * unit
    }
}

/// The whole part of a thousand times a number, the product rounded as
/// double-precision multiplication rounds it.
pub open spec fn thousandfold(bits: u64) -> u64 {
    if is_nan(bits) || bits >= SIGN_BIT {
        0
    } else {
        saturated(whole(rounded(1000 * significand(bits)), scale(bits)))
    }
}

/// 2 to the power `k`.
fn power_of_two(k: u32) -> (r: u64)
    requires
        k < 64,
    ensures
        r == pow2(k as nat),
        r >= 1,
{
    let mut r: u64 = 1;
    let mut i: u32 = 0;
    proof {
        lemma2_to64();
    }
    while i < k
        invariant
            i <= k < 64,
            r == pow2(i as nat),
            r >= 1,
        decreases k - i,
    {
        proof {
            lemma_pow2_unfold((i + 1) as nat);
            lemma2_to64();
            lemma_pow2_strictly_increases((i + 1) as nat, 64);
        }
        r = r * 2;
        i += 1;
    }
    r
}

/// The whole part of `m` times 2 to the power `e`, bounded to 64 bits.
fn scale_whole(m: u64, e: i32) -> (r: u64)
    requires
        -2000 <= e <= 2000,
    ensures
        r == saturated(whole(m as nat, e as int)),
{
    if e >= 0 {
        if m == 0 {
            assert(whole(0, e as int) == 0) by (nonlinear_arith)
                requires
                    whole(0, e as int) == 0 * pow2(e as nat),
            ;
            0
        } else if e >= 64 {
            proof {
                lemma2_to64();
                if e > 64 {
                    lemma_pow2_strictly_increases(64, e as nat);
                }
                assert(m * pow2(e as nat) >= pow2(e as nat)) by (nonlinear_arith)
                    requires
                        m >= 1,
                ;
            }
            0xffff_ffff_ffff_ffff
        } else {
            let p = power_of_two(e as u32);
            assert(m as int * p as int <= 0xffff_ffff_ffff_ffff * 0xffff_ffff_ffff_ffff)
                by (nonlinear_arith)
                requires
                    0 <= m <= 0xffff_ffff_ffff_ffff,
                    0 <= p <= 0xffff_ffff_ffff_ffff,
            ;
            let wide: u128 = (m as u128) * (p as u128);
            if wide > 0xffff_ffff_ffff_ffff {
                0xffff_ffff_ffff_ffff
            } else {
                wide as u64
            }
        }
    } else {
        let k = (-e) as u32;
        if k >= 64 {
            proof {
                lemma2_to64();
                if k > 64 {
                    lemma_pow2_strictly_increases(64, k as nat);
                }
                assert(m as nat / pow2(k as nat) == 0) by {
                    vstd::arithmetic::div_mod::lemma_basic_div(m as int, pow2(k as nat) as int);
                }
            }
            0
        } else {
            let p = power_of_two(k);
            let r = m / p;
            r
        }
    }
}

/// The significand and the scale of a number that is not negative.
fn parts_of(bits: u64) -> (r: (u64, i32))
    ensures
        r.0 == significand(bits),
        r.1 == scale(bits),
        r.0 < 0x20_0000_0000_0000,
        -1074 <= r.1 <= 972,
{
    let low = bits % FRACTION_VALUES;
    let field = (bits / FRACTION_VALUES) % 0x800;
    if field == 0 {
        (low, -1074)
    } else {
        (low + FRACTION_VALUES, field as i32 - 1075)
    }
}

/// Whether the bit pattern stands for no number or one below zero.
fn no_count(bits: u64) -> (r: bool)
    ensures
        r == (is_nan(bits) || bits >= SIGN_BIT),
{
    ((bits / FRACTION_VALUES) % 0x800 == 0x7ff && bits % FRACTION_VALUES != 0) || bits >= SIGN_BIT
}

/// The whole part of a number given by its bit pattern.
pub fn whole_of_double(bits: u64) -> (r: u64)
    ensures
        r == whole_part(bits),
{
    if no_count(bits) {
        return 0;
    }
    let (m, e) = parts_of(bits);
    scale_whole(m, e)
}

proof fn lemma_excess(p: nat)
    ensures
        p < 0x20_0000_0000_0000 * pow2(excess(p)),
        excess(p) > 0 ==> p >= 0x10_0000_0000_0000 * pow2(excess(p)),
    decreases p,
{
    lemma2_to64();
    if p >= 0x20_0000_0000_0000 {
        lemma_excess(p / 2);
        lemma_pow2_unfold(excess(p));
    }
}

/// Rounds to 53 significant binary digits, ties to the even one.
fn round_to_double(p: u64) -> (r: u64)
    requires
        p < 0x4000_0000_0000_0000 * 2,
    ensures
        r == rounded(p as nat),
{
    let mut k: u32 = 0;
    let mut q: u64 = p;
    proof {
        lemma2_to64();
        lemma_excess(p as nat);
    }
    while q >= 0x20_0000_0000_0000
        invariant
            k <= 10,
            k <= excess(p as nat),
            q == p as nat / pow2(k as nat),
            excess(p as nat) == k + excess(q as nat),
            p < 0x4000_0000_0000_0000 * 2,
        decreases q,
    {
        proof {
            lemma2_to64();
            lemma_excess(p as nat);
            lemma_pow2_unfold((k + 1) as nat);
            lemma_pow2_pos(k as nat);
            vstd::arithmetic::div_mod::lemma_div_denominator(p as int, pow2(k as nat) as int, 2);
            if k == 10 {
                assert(pow2(11) == 2048);
                if excess(p as nat) > 11 {
                    lemma_pow2_strictly_increases(11, excess(p as nat));
                }
                assert(excess(p as nat) >= 11);
                assert(p >= 0x10_0000_0000_0000 * 2048);
                assert(false);
            }
        }
        q = q / 2;
        k += 1;
    }
    let unit = power_of_two(k);
    let r = p % unit;
    proof {
        lemma_excess(p as nat);
        vstd::arithmetic::div_mod::lemma_fundamental_div_mod(p as int, unit as int);
        assert(q as int * unit as int == unit as int * q as int) by (nonlinear_arith);
        assert((q + 1) * unit == q * unit + unit) by (nonlinear_arith);
        lemma2_to64();
        if k < 10 {
            lemma_pow2_strictly_increases(k as nat, 10);
        }
        assert(unit <= 1024);
    }
    if 2 * r > unit || (2 * r == unit && q % 2 == 1) {
        (q + 1) * unit
    } else {
        q * unit
    }
}

/// Seconds, given by the bit pattern of a double-precision number, in whole
/// milliseconds.
pub fn seconds_to_millis(bits: u64) -> (r: u64)
    ensures
        r == thousandfold(bits),
{
    if no_count(bits) {
        return 0;
    }
    let (m, e) = parts_of(bits);
    let p = m * 1000;
    scale_whole(round_to_double(p), e)
}

} // verus!
