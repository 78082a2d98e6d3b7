//! Conversions between integers and the bit patterns of IEEE-754 binary64
//! ("double") and binary32 ("single") values, computed on the bits alone.
//!
//! A host number is a double. It travels through this library as its 64-bit
//! pattern: sign in bit 63, biased exponent in bits 52..62, fraction in bits
//! 0..51.

use vstd::prelude::*;
use vstd::arithmetic::power2::*;

verus! {

/// 2^63: the sign bit of a double.
pub const DOUBLE_SIGN: u64 = 0x8000_0000_0000_0000;

/// 2^52: one unit of the exponent field of a double, and the hidden bit of
/// its significand.
pub const DOUBLE_HIDDEN: u64 = 0x0010_0000_0000_0000;

/// 2^31: the sign bit of a single.
pub const SINGLE_SIGN: u32 = 0x8000_0000;

/// 2^23: one unit of the exponent field of a single, and the hidden bit of
/// its significand.
pub const SINGLE_HIDDEN: u32 = 0x0080_0000;

pub open spec fn double_negative(bits: u64) -> bool {
    bits >= 0x8000_0000_0000_0000
}

/// The biased exponent, 0 to 2047.
pub open spec fn double_exponent(bits: u64) -> int {
    (bits as int / 0x0010_0000_0000_0000) % 0x800
}

pub open spec fn double_fraction(bits: u64) -> int {
    bits as int % 0x0010_0000_0000_0000
}

pub open spec fn double_is_nan(bits: u64) -> bool {
    double_exponent(bits) == 0x7ff && double_fraction(bits) != 0
}

pub open spec fn double_is_infinite(bits: u64) -> bool {
    double_exponent(bits) == 0x7ff && double_fraction(bits) == 0
}

/// The integer `m` of a finite double whose magnitude is `m * 2^(e - 1075)`,
/// with `e` the biased exponent (taken as 1 where the field is 0).
pub open spec fn double_significand(bits: u64) -> int {
    if double_exponent(bits) == 0 {
        double_fraction(bits)
    } else {
        double_fraction(bits) + 0x0010_0000_0000_0000
    }
}

/// The magnitude of a finite double, rounded toward zero to an integer.
pub open spec fn double_floor_magnitude(bits: u64) -> int {
    let e = double_exponent(bits);
    let m = double_significand(bits);
    if e < 1023 {
        0
    } else if e <= 1075 {
        m / (pow2((1075 - e) as nat) as int)
    } else {
        m * pow2((e - 1075) as nat)
    }
}

/// What a cast of a double to `u64` gives: the value rounded toward zero,
/// held to the range of `u64`; 0 for a NaN.
pub open spec fn spec_double_to_u64(bits: u64) -> u64 {
    if double_is_nan(bits) || double_negative(bits) {
        0
    } else if double_is_infinite(bits) || double_floor_magnitude(bits) > u64::MAX {
        u64::MAX
    } else {
        double_floor_magnitude(bits) as u64
    }
}

/// The integer that a double rounds to toward zero, where that integer lies
/// in the range of `i64`; `None` for a NaN, an infinity and a value beyond
/// the range.
pub open spec fn spec_double_to_i64(bits: u64) -> Option<i64> {
    let mag = double_floor_magnitude(bits);
    if double_exponent(bits) == 0x7ff {
        None
    } else if double_negative(bits) {
        if mag <= 0x8000_0000_0000_0000 {
            Some((-mag) as i64)
        } else {
            None
        }
    } else if mag < 0x8000_0000_0000_0000 {
        Some(mag as i64)
    } else {
        None
    }
}

/// The position of the highest set bit of `n`; 0 for 0.
pub open spec fn spec_floor_log2(n: nat) -> nat
    decreases n,
{
    if n <= 1 {
        0
    } else {
        1 + spec_floor_log2(n / 2)
    }
}

/// `q` rounded up by one where the remainder `r` of a division by `2 * half`
/// is above `half`, or equal to it with `q` odd: round to nearest, ties to
/// even.
pub open spec fn round_half_even(q: int, r: int, half: int) -> int {
    if r > half || (r == half && q % 2 == 1) {
        q + 1
    } else {
        q
    }
}

/// The double nearest to the integer `n`, ties going to the even
/// significand.
pub open spec fn spec_u64_to_double(n: u64) -> u64 {
    if n == 0 {
        0
    } else {
        let p = spec_floor_log2(n as nat);
        if p <= 52 {
            ((1023 + p) * 0x0010_0000_0000_0000 + (n * pow2((52 - p) as nat)
                - 0x0010_0000_0000_0000)) as u64
        } else {
            let d = pow2((p - 52) as nat) as int;
            let m = round_half_even(n as int / d, n as int % d, d / 2);
            ((1023 + p) * 0x0010_0000_0000_0000 + (m - 0x0010_0000_0000_0000)) as u64
        }
    }
}

/// The double nearest to the integer `i`.
pub open spec fn spec_i64_to_double(i: i64) -> u64 {
    if i >= 0 {
        spec_u64_to_double(i as u64)
    } else {
        (0x8000_0000_0000_0000 + spec_u64_to_double((-(i as int)) as u64)) as u64
    }
}

pub open spec fn single_negative(bits: u32) -> bool {
    bits >= 0x8000_0000
}

/// The biased exponent, 0 to 255.
pub open spec fn single_exponent(bits: u32) -> int {
    (bits as int / 0x0080_0000) % 0x100
}

pub open spec fn single_fraction(bits: u32) -> int {
    bits as int % 0x0080_0000
}

pub open spec fn single_is_nan(bits: u32) -> bool {
    single_exponent(bits) == 0xff && single_fraction(bits) != 0
}

/// A NaN with the highest fraction bit set.
pub open spec fn single_is_quiet_nan(bits: u32) -> bool {
    single_exponent(bits) == 0xff && single_fraction(bits) >= 0x0040_0000
}

/// The double of the same value as a single. Every single has one. A NaN
/// becomes a quiet NaN that keeps the sign and the fraction bits.
pub open spec fn spec_single_to_double(bits: u32) -> u64 {
    let sign: int = if single_negative(bits) {
        0x8000_0000_0000_0000
    } else {
        0
    };
    let e = single_exponent(bits);
    let f = single_fraction(bits);
    if e == 0xff {
        if f == 0 {
            (sign + 0x7ff0_0000_0000_0000) as u64
        } else {
            (sign + 0x7ff8_0000_0000_0000 + (f % 0x0040_0000) * 0x2000_0000) as u64
        }
    } else if e == 0 {
        if f == 0 {
            sign as u64
        } else {
            let p = spec_floor_log2(f as nat);
            (sign + (874 + p) * 0x0010_0000_0000_0000 + (f * pow2((52 - p) as nat)
                - 0x0010_0000_0000_0000)) as u64
        }
    } else {
        (sign + (e + 896) * 0x0010_0000_0000_0000 + f * 0x2000_0000) as u64
    }
}

/// The single nearest to a double, ties going to the even significand. A
/// magnitude beyond the largest single becomes an infinity, one below the
/// smallest becomes zero, and a NaN becomes a quiet NaN that keeps the sign
/// and the upper fraction bits.
pub open spec fn spec_double_to_single(bits: u64) -> u32 {
    let sign: int = if double_negative(bits) {
        0x8000_0000
    } else {
        0
    };
    let e = double_exponent(bits);
    let f = double_fraction(bits);
    let m = f + 0x0010_0000_0000_0000;
    if e == 0x7ff {
        if f == 0 {
            (sign + 0x7f80_0000) as u32
        } else {
            (sign + 0x7fc0_0000 + (f / 0x2000_0000) % 0x0040_0000) as u32
        }
    } else if e >= 1151 {
        (sign + 0x7f80_0000) as u32
    } else if e >= 897 {
        (sign + (e - 896) * 0x0080_0000 + (round_half_even(
            m / 0x2000_0000,
            m % 0x2000_0000,
            0x1000_0000,
        ) - 0x0080_0000)) as u32
    } else if e >= 872 {
        let d = pow2((926 - e) as nat) as int;
        (sign + round_half_even(m / d, m % d, d / 2)) as u32
    } else {
        sign as u32
    }
}

proof fn lemma_div_bounds(n: int, d: int, lo: int, hi: int)
    by (nonlinear_arith)
    requires
        d > 0,
        lo * d <= n,
        n < hi * d,
    ensures
        lo <= n / d < hi,
{
}

proof fn lemma_mul_bounds(x: int, y: int, xlo: int, xhi: int, ylo: int, yhi: int)
    by (nonlinear_arith)
    requires
        0 <= xlo <= x < xhi,
        0 <= ylo <= y <= yhi,
    ensures
        xlo * ylo <= x * y,
        x * y < xhi * yhi || yhi == 0,
{
}

proof fn lemma_pow2_monotone(a: nat, b: nat)
    requires
        a <= b,
    ensures
        pow2(a) <= pow2(b),
        pow2(a) >= 1,
{
    lemma_pow2_pos(a);
    if a < b {
        lemma_pow2_strictly_increases(a, b);
    }
}

/// 2 to the power `k`.
pub fn pow2_u64(k: u64) -> (r: u64)
    requires
        k < 64,
    ensures
        r == pow2(k as nat),
        r >= 1,
{
    let mut r: u64 = 1;
    let mut i: u64 = 0;
    proof {
        lemma2_to64();
    }
    while i < k
        invariant
            i <= k,
            k < 64,
            r == pow2(i as nat),
            r >= 1,
        decreases k - i,
    {
        proof {
            lemma2_to64();
            lemma2_to64_rest();
            lemma_pow2_unfold((i + 1) as nat);
            lemma_pow2_monotone((i + 1) as nat, 63);
        }
        r = r * 2;
        i = i + 1;
    }
    r
}

/// The position of the highest set bit of `n`.
pub fn floor_log2(n: u64) -> (p: u64)
    requires
        n > 0,
    ensures
        p == spec_floor_log2(n as nat),
        p <= 63,
        pow2(p as nat) <= n,
        n < 2 * pow2(p as nat),
{
    let mut t: u64 = n;
    let mut p: u64 = 0;
    proof {
        lemma2_to64();
    }
    while t > 1
        invariant
            t >= 1,
            p <= 63,
            spec_floor_log2(n as nat) == p + spec_floor_log2(t as nat),
            t * pow2(p as nat) <= n,
            n < (t + 1) * pow2(p as nat),
        decreases t,
    {
        let ghost x = pow2(p as nat) as int;
        let ghost t0 = t as int;
        proof {
            lemma_pow2_pos(p as nat);
            lemma_pow2_unfold((p + 1) as nat);
            lemma2_to64();
            lemma2_to64_rest();
            if p == 63 {
                assert(t0 * x >= 2 * x) by (nonlinear_arith)
                    requires
                        t0 >= 2,
                        x > 0,
                ;
                assert(false);
            }
        }
        t = t / 2;
        p = p + 1;
        proof {
            let t2 = t as int;
            assert(t2 * (2 * x) <= n && n < (t2 + 1) * (2 * x)) by (nonlinear_arith)
                requires
                    t0 * x <= n,
                    n < (t0 + 1) * x,
                    2 * t2 <= t0,
                    t0 <= 2 * t2 + 1,
                    x > 0,
            ;
        }
    }
    proof {
        assert(t == 1);
        assert(1 * pow2(p as nat) == pow2(p as nat)) by (nonlinear_arith);
        assert((1 + 1) * pow2(p as nat) == 2 * pow2(p as nat)) by (nonlinear_arith);
    }
    p
}

/// A double cast to `u64`: rounded toward zero and held to the range.
pub fn double_to_u64(bits: u64) -> (r: u64)
    ensures
        r == spec_double_to_u64(bits),
{
    let negative = bits >= DOUBLE_SIGN;
    let e = (bits / DOUBLE_HIDDEN) % 0x800;
    let f = bits % DOUBLE_HIDDEN;
    if e == 0x7ff {
        if f != 0 || negative {
            0
        } else {
            u64::MAX
        }
    } else if negative || e < 1023 {
        0
    } else {
        let m = f + DOUBLE_HIDDEN;
        proof {
            lemma2_to64();
            lemma2_to64_rest();
        }
        if e <= 1075 {
            let d = pow2_u64(1075 - e);
            proof {
                lemma_div_bounds(m as int, d as int, 0, 0x0020_0000_0000_0000);
            }
            m / d
        } else if e - 1075 >= 12 {
            proof {
                lemma_pow2_monotone(12, (e - 1075) as nat);
                lemma_mul_bounds(
                    m as int,
                    pow2((e - 1075) as nat) as int,
                    0x0010_0000_0000_0000,
                    0x0020_0000_0000_0000,
                    0x1000,
                    pow2((e - 1075) as nat) as int,
                );
            }
            u64::MAX
        } else {
            let d = pow2_u64(e - 1075);
            proof {
                lemma_pow2_monotone((e - 1075) as nat, 11);
                lemma_mul_bounds(
                    m as int,
                    d as int,
                    0x0010_0000_0000_0000,
                    0x0020_0000_0000_0000,
                    1,
                    0x800,
                );
            }
            m * d
        }
    }
}

/// The integer that a double rounds to toward zero, if `i64` holds it.
pub fn double_to_i64(bits: u64) -> (r: Option<i64>)
    ensures
        r == spec_double_to_i64(bits),
{
    let negative = bits >= DOUBLE_SIGN;
    let e = (bits / DOUBLE_HIDDEN) % 0x800;
    let f = bits % DOUBLE_HIDDEN;
    if e == 0x7ff {
        None
    } else if e < 1023 {
        Some(0)
    } else {
        let m = f + DOUBLE_HIDDEN;
        proof {
            lemma2_to64();
            lemma2_to64_rest();
        }
        if e <= 1075 {
            let d = pow2_u64(1075 - e);
            proof {
                lemma_div_bounds(m as int, d as int, 0, 0x0020_0000_0000_0000);
            }
            let mag = m / d;
            if negative {
                Some(-(mag as i64))
            } else {
                Some(mag as i64)
            }
        } else if e - 1075 >= 12 {
            proof {
                lemma_pow2_monotone(12, (e - 1075) as nat);
                lemma_mul_bounds(
                    m as int,
                    pow2((e - 1075) as nat) as int,
                    0x0010_0000_0000_0000,
                    0x0020_0000_0000_0000,
                    0x1000,
                    pow2((e - 1075) as nat) as int,
                );
            }
            None
        } else {
            let d = pow2_u64(e - 1075);
            proof {
                lemma_pow2_monotone((e - 1075) as nat, 11);
                lemma_mul_bounds(
                    m as int,
                    d as int,
                    0x0010_0000_0000_0000,
                    0x0020_0000_0000_0000,
                    1,
                    0x800,
                );
            }
            let mag = m * d;
            if negative {
                if mag < DOUBLE_SIGN {
                    Some(-(mag as i64))
                } else if mag == DOUBLE_SIGN {
                    Some(i64::MIN)
                } else {
                    None
                }
            } else if mag < DOUBLE_SIGN {
                Some(mag as i64)
            } else {
                None
            }
        }
    }
}

/// The double nearest to `n`.
pub fn u64_to_double(n: u64) -> (r: u64)
    ensures
        r == spec_u64_to_double(n),
{
    if n == 0 {
        return 0;
    }
    let p = floor_log2(n);
    proof {
        lemma2_to64();
        lemma2_to64_rest();
    }
    if p <= 52 {
        let d = pow2_u64(52 - p);
        proof {
            lemma_pow2_adds(p as nat, (52 - p) as nat);
            let x = pow2(p as nat) as int;
            assert(p as nat + (52 - p) as nat == 52);
            assert(x * d == 0x0010_0000_0000_0000);
            assert(x * d <= n * d && n * d < 2 * (x * d)) by (nonlinear_arith)
                requires
                    x <= n,
                    n < 2 * x,
                    d >= 1,
            ;
        }
        let m = n * d;
        (1023 + p) * DOUBLE_HIDDEN + (m - DOUBLE_HIDDEN)
    } else {
        let s = p - 52;
        let d = pow2_u64(s);
        let half = pow2_u64(s - 1);
        proof {
            lemma_pow2_adds(52, s as nat);
            lemma_pow2_unfold(s as nat);
            let x = pow2(p as nat) as int;
            assert(52 + s as nat == p as nat);
            assert(x == 0x0010_0000_0000_0000 * d);
            lemma_div_bounds(n as int, d as int, 0x0010_0000_0000_0000, 0x0020_0000_0000_0000);
            assert(d as int / 2 == half);
        }
        let q = n / d;
        let r = n % d;
        let m = if r > half || (r == half && q % 2 == 1) {
            q + 1
        } else {
            q
        };
        (1023 + p) * DOUBLE_HIDDEN + (m - DOUBLE_HIDDEN)
    }
}

/// The double nearest to `i`.
pub fn i64_to_double(i: i64) -> (r: u64)
    ensures
        r == spec_i64_to_double(i),
{
    if i >= 0 {
        u64_to_double(i as u64)
    } else {
        let mag: u64 = ((-(i + 1)) as u64) + 1;
        let d = u64_to_double(mag);
        proof {
            lemma_u64_to_double_range(mag);
        }
        DOUBLE_SIGN + d
    }
}

/// The double of the same value as a single.
pub fn single_to_double(bits: u32) -> (r: u64)
    ensures
        r == spec_single_to_double(bits),
{
    let sign: u64 = if bits >= SINGLE_SIGN {
        DOUBLE_SIGN
    } else {
        0
    };
    let e: u64 = ((bits / SINGLE_HIDDEN) % 0x100) as u64;
    let f: u64 = (bits % SINGLE_HIDDEN) as u64;
    if e == 0xff {
        if f == 0 {
            sign + 0x7ff0_0000_0000_0000
        } else {
            sign + 0x7ff8_0000_0000_0000 + (f % 0x0040_0000) * 0x2000_0000
        }
    } else if e == 0 {
        if f == 0 {
            sign
        } else {
            let p = floor_log2(f);
            proof {
                lemma2_to64();
                lemma2_to64_rest();
                if p >= 23 {
                    lemma_pow2_monotone(23, p as nat);
                }
            }
            let d = pow2_u64(52 - p);
            proof {
                lemma_pow2_adds(p as nat, (52 - p) as nat);
                let x = pow2(p as nat) as int;
                assert(p as nat + (52 - p) as nat == 52);
                assert(x * d == 0x0010_0000_0000_0000);
                assert(x * d <= f * d && f * d < 2 * (x * d)) by (nonlinear_arith)
                    requires
                        x <= f,
                        f < 2 * x,
                        d >= 1,
                ;
            }
            sign + (874 + p) * DOUBLE_HIDDEN + (f * d - DOUBLE_HIDDEN)
        }
    } else {
        sign + (e + 896) * DOUBLE_HIDDEN + f * 0x2000_0000
    }
}

/// The single nearest to a double.
pub fn double_to_single(bits: u64) -> (r: u32)
    ensures
        r == spec_double_to_single(bits),
{
    let sign: u64 = if bits >= DOUBLE_SIGN {
        0x8000_0000
    } else {
        0
    };
    let e = (bits / DOUBLE_HIDDEN) % 0x800;
    let f = bits % DOUBLE_HIDDEN;
    let m = f + DOUBLE_HIDDEN;
    if e == 0x7ff {
        if f == 0 {
            (sign + 0x7f80_0000) as u32
        } else {
            (sign + 0x7fc0_0000 + (f / 0x2000_0000) % 0x0040_0000) as u32
        }
    } else if e >= 1151 {
        (sign + 0x7f80_0000) as u32
    } else if e >= 897 {
        let q = m / 0x2000_0000;
        let r = m % 0x2000_0000;
        let rounded = if r > 0x1000_0000 || (r == 0x1000_0000 && q % 2 == 1) {
            q + 1
        } else {
            q
        };
        (sign + (e - 896) * 0x0080_0000 + (rounded - 0x0080_0000)) as u32
    } else if e >= 872 {
        let shift = 926 - e;
        let d = pow2_u64(shift);
        let half = pow2_u64(shift - 1);
        proof {
            lemma2_to64();
            lemma2_to64_rest();
            lemma_pow2_unfold(shift as nat);
            lemma_pow2_monotone(30, shift as nat);
            lemma_div_bounds(m as int, d as int, 0, 0x0080_0000);
            assert(d as int / 2 == half);
        }
        let q = m / d;
        let r = m % d;
        let rounded = if r > half || (r == half && q % 2 == 1) {
            q + 1
        } else {
            q
        };
        (sign + rounded) as u32
    } else {
        sign as u32
    }
}

/// The double of an unsigned integer is never negative, infinite or a NaN.
pub proof fn lemma_u64_to_double_range(n: u64)
    ensures
        spec_u64_to_double(n) <= 0x43f0_0000_0000_0000,
{
    if n != 0 {
        let p = spec_floor_log2(n as nat);
        lemma_floor_log2_bounds(n as nat);
        lemma2_to64();
        lemma2_to64_rest();
        if p <= 52 {
            lemma_pow2_adds(p, (52 - p) as nat);
            let x = pow2(p) as int;
            let d = pow2((52 - p) as nat) as int;
            lemma_pow2_pos((52 - p) as nat);
            assert(p + (52 - p) as nat == 52);
            assert(x * d == 0x0010_0000_0000_0000);
            assert(x * d <= n * d && n * d < 2 * (x * d)) by (nonlinear_arith)
                requires
                    x <= n,
                    n < 2 * x,
                    d >= 1,
            ;
        } else {
            let s = (p - 52) as nat;
            let d = pow2(s) as int;
            lemma_pow2_adds(52, s);
            lemma_pow2_pos(s);
            assert(52 + s == p);
            assert(pow2(p) == 0x0010_0000_0000_0000 * d);
            lemma_div_bounds(n as int, d, 0x0010_0000_0000_0000, 0x0020_0000_0000_0000);
        }
    }
}

/// The fields of a double put together from a sign, an exponent and a
/// fraction.
proof fn lemma_double_fields(negative: bool, e: int, f: int)
    requires
        0 <= e < 0x800,
        0 <= f < 0x0010_0000_0000_0000,
    ensures
        ({
            let bits = ((if negative {
                0x8000_0000_0000_0000int
            } else {
                0int
            }) + e * 0x0010_0000_0000_0000 + f) as u64;
            &&& bits == (if negative {
                0x8000_0000_0000_0000int
            } else {
                0int
            }) + e * 0x0010_0000_0000_0000 + f
            &&& double_negative(bits) == negative
            &&& double_exponent(bits) == e
            &&& double_fraction(bits) == f
        }),
{
}

/// An integer of at most 53 bits is the same after a trip through its
/// double.
pub proof fn lemma_u64_double_round_trip(k: u64)
    requires
        k <= 0x0020_0000_0000_0000,
    ensures
        spec_double_to_u64(spec_u64_to_double(k)) == k,
        spec_double_to_i64(spec_u64_to_double(k)) == Some(k as i64),
{
    lemma2_to64();
    lemma2_to64_rest();
    if k == 0 {
        lemma_double_fields(false, 0, 0);
    } else {
        let p = spec_floor_log2(k as nat);
        lemma_floor_log2_bounds(k as nat);
        if p >= 54 {
            lemma_pow2_monotone(54, p);
        }
        if p <= 52 {
            let d = pow2((52 - p) as nat) as int;
            let x = pow2(p) as int;
            lemma_pow2_adds(p, (52 - p) as nat);
            lemma_pow2_pos((52 - p) as nat);
            assert(p + (52 - p) as nat == 52);
            assert(x * d == 0x0010_0000_0000_0000);
            assert(x * d <= k * d && k * d < 2 * (x * d)) by (nonlinear_arith)
                requires
                    x <= k,
                    k < 2 * x,
                    d >= 1,
            ;
            let f = k * d - 0x0010_0000_0000_0000;
            lemma_double_fields(false, (1023 + p) as int, f);
            assert((1075 - (1023 + p)) as nat == (52 - p) as nat);
            assert((k * d) / d == k) by (nonlinear_arith)
                requires
                    d >= 1,
            ;
        } else {
            assert(p == 53);
            assert(k == 0x0020_0000_0000_0000);
            lemma_pow2_unfold(1);
            assert(pow2(1) == 2);
            assert(round_half_even(k as int / 2, k as int % 2, 1) == 0x0010_0000_0000_0000);
            lemma_double_fields(false, 1076, 0);
            assert(0x0010_0000_0000_0000 * pow2(1) == 0x0020_0000_0000_0000);
        }
    }
}

/// A single that is no signalling NaN is the same after a trip through its
/// double.
pub proof fn lemma_single_double_round_trip(s: u32)
    requires
        !single_is_nan(s) || single_is_quiet_nan(s),
    ensures
        spec_double_to_single(spec_single_to_double(s)) == s,
{
    lemma2_to64();
    lemma2_to64_rest();
    let negative = single_negative(s);
    let e = single_exponent(s);
    let f = single_fraction(s);
    let sign32: int = if negative {
        0x8000_0000
    } else {
        0
    };
    assert(s == sign32 + e * 0x0080_0000 + f);
    if e == 0xff {
        if f == 0 {
            lemma_double_fields(negative, 0x7ff, 0);
        } else {
            let fd = 0x0008_0000_0000_0000 + (f % 0x0040_0000) * 0x2000_0000;
            lemma_double_fields(negative, 0x7ff, fd);
            assert(fd / 0x2000_0000 == 0x0040_0000 + f % 0x0040_0000);
        }
    } else if e == 0 {
        if f == 0 {
            lemma_double_fields(negative, 0, 0);
        } else {
            let p = spec_floor_log2(f as nat);
            lemma_floor_log2_bounds(f as nat);
            if p >= 23 {
                lemma_pow2_monotone(23, p);
            }
            let d = pow2((52 - p) as nat) as int;
            let x = pow2(p) as int;
            lemma_pow2_adds(p, (52 - p) as nat);
            lemma_pow2_pos((52 - p) as nat);
            lemma_pow2_monotone(30, (52 - p) as nat);
            assert(p + (52 - p) as nat == 52);
            assert(x * d == 0x0010_0000_0000_0000);
            assert(x * d <= f * d && f * d < 2 * (x * d)) by (nonlinear_arith)
                requires
                    x <= f,
                    f < 2 * x,
                    d >= 1,
            ;
            let fd = f * d - 0x0010_0000_0000_0000;
            lemma_double_fields(negative, (874 + p) as int, fd);
            assert((926 - (874 + p)) as nat == (52 - p) as nat);
            assert((f * d) / d == f && (f * d) % d == 0) by (nonlinear_arith)
                requires
                    d >= 1,
            ;
            assert(d / 2 >= 1);
        }
    } else {
        let fd = f * 0x2000_0000;
        lemma_double_fields(negative, e + 896, fd);
        let m = fd + 0x0010_0000_0000_0000;
        assert(m / 0x2000_0000 == f + 0x0080_0000);
        assert(m % 0x2000_0000 == 0);
    }
}

/// The highest set bit of a positive `n` is at position `p` exactly when
/// `2^p <= n < 2^(p+1)`; below 2^64 the position is at most 63.
pub proof fn lemma_floor_log2_bounds(n: nat)
    requires
        n > 0,
    ensures
        pow2(spec_floor_log2(n)) <= n,
        n < 2 * pow2(spec_floor_log2(n)),
        n <= u64::MAX ==> spec_floor_log2(n) <= 63,
    decreases n,
{
    lemma2_to64();
    if n > 1 {
        lemma_floor_log2_bounds(n / 2);
        let p = spec_floor_log2(n / 2);
        lemma_pow2_unfold(p + 1);
        if n <= u64::MAX && p + 1 > 63 {
            lemma_pow2_monotone(64, p + 1);
        }
    } else {
    }
}

} // verus!
