//! Conversion between raw fixed-point values and IEEE-754 binary32 bit
//! patterns, in integer arithmetic.
//!
//! A bit pattern holds a sign bit, eight exponent bits and 23 fraction bits.
//! The pattern is the interchange format at the boundary of a backend; the
//! conversion here never touches floating-point hardware.
use vstd::prelude::*;
use crate::scalar::fixed::{magnitude, unsigned_magnitude};
use vstd::arithmetic::power2::{pow2, lemma_pow2_pos, lemma_pow2_unfold, lemma_pow2_strictly_increases, lemma_pow2_adds, lemma2_to64};

verus! {

/// Whether the sign bit of the pattern is set.
pub open spec fn bits_negative(bits: u32) -> bool {
    bits >= 0x8000_0000
}

/// The exponent field of the pattern.
pub open spec fn bits_exponent(bits: u32) -> int {
    ((bits / 0x80_0000) % 256) as int
}

/// The fraction field of the pattern.
pub open spec fn bits_fraction(bits: u32) -> int {
    (bits % 0x80_0000) as int
}

/// Whether the pattern is a NaN.
pub open spec fn bits_nan(bits: u32) -> bool {
    bits_exponent(bits) == 255 && bits_fraction(bits) != 0
}

/// The magnitude of the pattern's value times `2^16`, rounded toward zero.
/// A normal value is `(2^23 + fraction) * 2^(exponent - 150)`; a subnormal
/// value is below `2^-126` and scales to zero; infinity counts as a value
/// with exponent field 255.
pub open spec fn scaled_magnitude(bits: u32) -> int {
    let e = bits_exponent(bits);
    let sig = 0x80_0000 + bits_fraction(bits);
    if e == 0 {
        0
    } else if e >= 134 {
        sig * pow2((e - 134) as nat)
    } else {
        sig / (pow2((134 - e) as nat) as int)
    }
}

/// The raw fixed-point value of a bit pattern: the pattern's value times
/// `2^16`, rounded toward zero and limited to the range of `i64`; zero for a
/// NaN.
pub open spec fn fixed_from_bits(bits: u32) -> int {
    if bits_nan(bits) {
        0
    } else if bits_negative(bits) {
        if scaled_magnitude(bits) > 0x8000_0000_0000_0000 {
            i64::MIN as int
        } else {
            -scaled_magnitude(bits)
        }
    } else {
        if scaled_magnitude(bits) > i64::MAX {
            i64::MAX as int
        } else {
            scaled_magnitude(bits)
        }
    }
}

/// The power of two with exponent `k`.
pub fn pow2_u64(k: u32) -> (r: u64)
    requires
        k < 64,
    ensures
        r == pow2(k as nat),
{
    let mut r: u64 = 1;
    let mut i: u32 = 0;
    proof {
        lemma2_to64();
    }
    while i < k
        invariant
            i <= k < 64,
            r == pow2(i as nat),
        decreases k - i,
    {
        proof {
            lemma_pow2_unfold((i + 1) as nat);
            lemma_pow2_strictly_increases((i + 1) as nat, 64);
            vstd::arithmetic::power2::lemma2_to64_rest();
        }
        r = r * 2;
        i = i + 1;
    }
    r
}

/// Raw fixed-point value of a binary32 bit pattern.
pub fn from_bits_raw(bits: u32) -> (r: i64)
    ensures
        r == fixed_from_bits(bits),
{
    let negative: bool = bits >= 0x8000_0000;
    let e: u32 = (bits / 0x80_0000) % 256;
    let fraction: u32 = bits % 0x80_0000;
    if e == 255 && fraction != 0 {
        return 0;
    }
    if e == 0 {
        return 0;
    }
    let sig: u64 = 0x80_0000 + (fraction as u64);
    proof {
        lemma2_to64();
        vstd::arithmetic::power2::lemma2_to64_rest();
    }
    if e >= 174 {
        proof {
            if e > 174 {
                lemma_pow2_strictly_increases(40, (e - 134) as nat);
            }
            assert(sig * pow2((e - 134) as nat) >= 0x80_0000 * 0x100_0000_0000) by (nonlinear_arith)
                requires
                    sig >= 0x80_0000,
                    pow2((e - 134) as nat) >= 0x100_0000_0000,
            ;
        }
        if negative {
            i64::MIN
        } else {
            i64::MAX
        }
    } else if e >= 134 {
        let scale: u64 = pow2_u64(e - 134);
        proof {
            if e < 173 {
                lemma_pow2_strictly_increases((e - 134) as nat, 39);
            }
            assert(sig * scale < 0x100_0000 * 0x80_0000_0000) by (nonlinear_arith)
                requires
                    0 <= sig < 0x100_0000,
                    0 <= scale <= 0x80_0000_0000,
            ;
        }
        let mag: u64 = sig * scale;
        if negative {
            -(mag as i64)
        } else {
            mag as i64
        }
    } else if e >= 110 {
        let scale: u64 = pow2_u64(134 - e);
        proof {
            lemma_pow2_pos((134 - e) as nat);
        }
        let mag: u64 = sig / scale;
        if negative {
            -(mag as i64)
        } else {
            mag as i64
        }
    } else {
        proof {
            lemma_pow2_strictly_increases(24, (134 - e) as nat);
            let d = pow2((134 - e) as nat) as int;
            assert((sig as int) / d == 0) by (nonlinear_arith)
                requires
                    0 <= sig < d,
            ;
        }
        0
    }
}

/// Position of the highest set bit of a positive integer.
pub open spec fn floor_log2(a: int) -> nat
    decreases a,
{
    if a <= 1 {
        0
    } else {
        1 + floor_log2(a / 2)
    }
}

/// The 24-bit significand of a positive integer `a` whose highest set bit is
/// at position `p`, rounded to the nearest with ties to the even
/// significand. The result is `2^24` where rounding carries into the next
/// binade.
pub open spec fn rounded_significand(a: int, p: nat) -> int {
    if p <= 23 {
        a * pow2((23 - p) as nat)
    } else {
        let unit = pow2((p - 23) as nat) as int;
        let q = a / unit;
        let rest = a % unit;
        if 2 * rest > unit || (2 * rest == unit && q % 2 == 1) {
            q + 1
        } else {
            q
        }
    }
}

/// The bit pattern of the binary32 value nearest to `v / 2^16`, ties to
/// even: the integer is rounded to 24 significant bits and the exponent is
/// lowered by 16, which is exact.
pub open spec fn fixed_to_bits(v: int) -> int {
    if v == 0 {
        0
    } else {
        let a = magnitude(v);
        let p = floor_log2(a);
        let q = rounded_significand(a, p);
        let sign: int = if v < 0 { 0x8000_0000 } else { 0 };
        if q == 0x100_0000 {
            sign + (p + 112) * 0x80_0000
        } else {
            sign + (p + 111) * 0x80_0000 + (q - 0x80_0000)
        }
    }
}

/// Position of the highest set bit of a positive integer.
pub fn floor_log2_u64(a: u64) -> (p: u32)
    requires
        a > 0,
    ensures
        p == floor_log2(a as int),
        p < 64,
        pow2(p as nat) <= a,
        a < 2 * pow2(p as nat),
{
    let mut t: u64 = a;
    let mut p: u32 = 0;
    proof {
        lemma2_to64();
    }
    while t > 1
        invariant
            t >= 1,
            t * pow2(p as nat) <= a,
            a < (t + 1) * pow2(p as nat),
            floor_log2(a as int) == p + floor_log2(t as int),
            p < 64,
        decreases t,
    {
        proof {
            lemma_pow2_unfold((p + 1) as nat);
            lemma_pow2_pos(p as nat);
            let w = pow2(p as nat) as int;
            let h = (t / 2) as int;
            assert(h * (2 * w) <= t * w && (t + 1) * w <= (h + 1) * (2 * w)) by (nonlinear_arith)
                requires
                    2 * h <= t <= 2 * h + 1,
                    w > 0,
            ;
            if p >= 63 {
                vstd::arithmetic::power2::lemma2_to64_rest();
                lemma_pow2_strictly_increases(63, (p + 1) as nat);
                assert(h * (2 * w) >= 2 * w) by (nonlinear_arith)
                    requires
                        h >= 1,
                        w > 0,
                ;
                assert(false);
            }
        }
        t = t / 2;
        p = p + 1;
    }
    p
}

/// Bit pattern of the binary32 value nearest to a raw fixed-point value.
pub fn to_bits_raw(v: i64) -> (bits: u32)
    ensures
        bits == fixed_to_bits(v as int),
{
    if v == 0 {
        return 0;
    }
    let sign: u32 = if v < 0 { 0x8000_0000 } else { 0 };
    let a: u64 = unsigned_magnitude(v);
    let p: u32 = floor_log2_u64(a);
    proof {
        lemma2_to64();
        vstd::arithmetic::power2::lemma2_to64_rest();
    }
    let q: u64 = if p <= 23 {
        let scale: u64 = pow2_u64(23 - p);
        proof {
            lemma_pow2_adds(p as nat, (23 - p) as nat);
            let w = pow2(p as nat) as int;
            let s = scale as int;
            assert(w * s <= a * s && a * s < 2 * (w * s)) by (nonlinear_arith)
                requires
                    w <= a < 2 * w,
                    s > 0,
            ;
        }
        a * scale
    } else {
        let unit: u64 = pow2_u64(p - 23);
        let quotient: u64 = a / unit;
        let rest: u64 = a % unit;
        proof {
            lemma_pow2_adds((p - 23) as nat, 23);
            lemma_pow2_pos((p - 23) as nat);
            let u = unit as int;
            assert(0x80_0000 <= (a as int) / u && (a as int) / u < 0x100_0000) by (nonlinear_arith)
                requires
                    u > 0,
                    u * 0x80_0000 <= a,
                    a < 2 * (u * 0x80_0000),
            ;
            lemma_pow2_strictly_increases((p - 23) as nat, 41);
        }
        if 2 * rest > unit || (2 * rest == unit && quotient % 2 == 1) {
            quotient + 1
        } else {
            quotient
        }
    };
    if q == 0x100_0000 {
        sign + (p + 112) * 0x80_0000
    } else {
        sign + (p + 111) * 0x80_0000 + ((q - 0x80_0000) as u32)
    }
}

/// A positive integer lies in the binade of its highest set bit.
pub proof fn lemma_floor_log2_bounds(a: int)
    requires
        a >= 1,
    ensures
        pow2(floor_log2(a)) <= a < 2 * pow2(floor_log2(a)),
    decreases a,
{
    lemma2_to64();
    if a > 1 {
        lemma_floor_log2_bounds(a / 2);
        lemma_pow2_unfold(floor_log2(a));
    }
}

/// Of two powers of two the smaller has the smaller exponent.
proof fn lemma_pow2_order(e1: nat, e2: nat)
    requires
        pow2(e1) < pow2(e2),
    ensures
        e1 < e2,
{
    if e1 > e2 {
        lemma_pow2_strictly_increases(e2, e1);
    }
}

/// The fields of a pattern assembled from a sign, an exponent and a
/// fraction are those three.
proof fn lemma_assembled_fields(sign: int, e: int, f: int)
    requires
        sign == 0 || sign == 0x8000_0000,
        0 <= e < 256,
        0 <= f < 0x80_0000,
    ensures
        0 <= sign + e * 0x80_0000 + f <= u32::MAX,
        bits_negative((sign + e * 0x80_0000 + f) as u32) == (sign != 0),
        bits_exponent((sign + e * 0x80_0000 + f) as u32) == e,
        bits_fraction((sign + e * 0x80_0000 + f) as u32) == f,
{
}

/// A raw value with at most 24 significant bits survives the conversion to
/// a bit pattern and back unchanged.
pub proof fn lemma_round_trip_exact(v: int)
    requires
        -0x100_0000 < v < 0x100_0000,
    ensures
        0 <= fixed_to_bits(v) <= u32::MAX,
        fixed_from_bits(fixed_to_bits(v) as u32) == v,
{
    lemma2_to64();
    if v != 0 {
        let a = magnitude(v);
        let p = floor_log2(a);
        lemma_floor_log2_bounds(a);
        lemma_pow2_order(p, 24);
        let up = pow2((23 - p) as nat) as int;
        let q = rounded_significand(a, p);
        lemma_pow2_adds(p, (23 - p) as nat);
        lemma_pow2_pos((23 - p) as nat);
        assert(pow2(p) * up <= a * up && a * up < 2 * (pow2(p) * up)) by (nonlinear_arith)
            requires
                pow2(p) <= a < 2 * pow2(p),
                up > 0,
        ;
        let sign: int = if v < 0 { 0x8000_0000 } else { 0 };
        lemma_assembled_fields(sign, (p + 111) as int, q - 0x80_0000);
        if p < 23 {
            vstd::arithmetic::div_mod::lemma_div_multiples_vanish(a, up);
            assert(a * up == up * a) by (nonlinear_arith);
        } else {
            assert(up == 1);
            assert(a * up == a) by (nonlinear_arith)
                requires
                    up == 1,
            ;
        }
    }
}

/// A raw value below `2^25` in magnitude comes back from the conversion to
/// a bit pattern within one quantum.
pub proof fn lemma_round_trip_within_quantum(v: int)
    requires
        -0x200_0000 < v < 0x200_0000,
    ensures
        0 <= fixed_to_bits(v) <= u32::MAX,
        -1 <= fixed_from_bits(fixed_to_bits(v) as u32) - v <= 1,
{
    lemma2_to64();
    if -0x100_0000 < v < 0x100_0000 {
        lemma_round_trip_exact(v);
    } else {
        let a = magnitude(v);
        let p = floor_log2(a);
        lemma_floor_log2_bounds(a);
        lemma_pow2_order(p, 25);
        if p < 24 {
            lemma_pow2_strictly_increases(p, 24);
        }
        assert(p == 24);
        let q = rounded_significand(a, p);
        let sign: int = if v < 0 { 0x8000_0000 } else { 0 };
        assert(pow2(1) == 2);
        assert(pow2(2) == 4);
        assert(pow2((p - 23) as nat) == 2);
        assert(0x80_0000 <= a / 2 < 0x100_0000);
        assert(q == a / 2 || q == a / 2 + 1);
        if q == 0x100_0000 {
            lemma_assembled_fields(sign, 136, 0);
            let bits = (sign + 136 * 0x80_0000) as u32;
            assert(fixed_to_bits(v) == bits);
            assert(pow2((136 - 134) as nat) == 4);
            assert(scaled_magnitude(bits) == 0x80_0000 * 4);
        } else {
            lemma_assembled_fields(sign, 135, q - 0x80_0000);
            let bits = (sign + 135 * 0x80_0000 + (q - 0x80_0000)) as u32;
            assert(fixed_to_bits(v) == bits);
            assert(pow2((135 - 134) as nat) == 2);
            assert(scaled_magnitude(bits) == q * 2);
        }
    }
}

/// The integer nearest to a positive `a` that has at most 24 significant
/// bits, ties to the even significand.
pub open spec fn rounded_magnitude(a: int) -> int {
    let p = floor_log2(a);
    if p <= 23 {
        a
    } else {
        rounded_significand(a, p) * pow2((p - 23) as nat)
    }
}

/// The raw value that comes back when `v` is converted to a bit pattern and
/// the pattern is converted back: `v` rounded to 24 significant bits and
/// limited to the range of `i64`.
pub open spec fn fixed_round_trip(v: int) -> int {
    if v == 0 {
        0
    } else if v < 0 {
        -rounded_magnitude(-v)
    } else if rounded_magnitude(v) > i64::MAX {
        i64::MAX as int
    } else {
        rounded_magnitude(v)
    }
}

/// Rounding a positive integer to 24 significant bits gives a significand
/// of 24 bits, or `2^24` on a carry, and moves the integer by at most half
/// a unit of its last kept bit.
pub proof fn lemma_rounding_error(a: int)
    requires
        a >= 1,
    ensures
        0x80_0000 <= rounded_significand(a, floor_log2(a)) <= 0x100_0000,
        floor_log2(a) <= 23 ==> rounded_significand(a, floor_log2(a)) < 0x100_0000,
        floor_log2(a) > 23 ==> -pow2((floor_log2(a) - 23) as nat) <= 2 * (rounded_magnitude(a) - a)
            <= pow2((floor_log2(a) - 23) as nat),
{
    lemma2_to64();
    let p = floor_log2(a);
    lemma_floor_log2_bounds(a);
    if p <= 23 {
        let up = pow2((23 - p) as nat) as int;
        lemma_pow2_adds(p, (23 - p) as nat);
        lemma_pow2_pos((23 - p) as nat);
        assert(pow2(p) * up <= a * up && a * up < 2 * (pow2(p) * up)) by (nonlinear_arith)
            requires
                pow2(p) <= a < 2 * pow2(p),
                up > 0,
        ;
    } else {
        let unit = pow2((p - 23) as nat) as int;
        lemma_pow2_adds((p - 23) as nat, 23);
        lemma_pow2_pos((p - 23) as nat);
        let q = a / unit;
        let rest = a % unit;
        vstd::arithmetic::div_mod::lemma_fundamental_div_mod(a, unit);
        assert(0 <= rest < unit);
        assert(0x80_0000 <= q && q < 0x100_0000) by (nonlinear_arith)
            requires
                q == a / unit,
                unit > 0,
                unit * 0x80_0000 <= a,
                a < 2 * (unit * 0x80_0000),
        ;
        assert((q + 1) * unit == unit * q + unit) by (nonlinear_arith);
        assert(q * unit == unit * q) by (nonlinear_arith);
    }
}

/// Converting a raw value to a bit pattern and back gives the value rounded
/// to 24 significant bits and limited to the range of `i64`.
pub proof fn lemma_round_trip_value(v: int)
    requires
        i64::MIN <= v <= i64::MAX,
    ensures
        0 <= fixed_to_bits(v) <= u32::MAX,
        fixed_from_bits(fixed_to_bits(v) as u32) == fixed_round_trip(v),
{
    lemma2_to64();
    vstd::arithmetic::power2::lemma2_to64_rest();
    if v != 0 {
        let a = magnitude(v);
        let p = floor_log2(a);
        lemma_floor_log2_bounds(a);
        lemma_pow2_order(p, 64);
        if p <= 23 {
            if p < 23 {
                lemma_pow2_strictly_increases(p, 23);
            }
            lemma_round_trip_exact(v);
        } else {
            let unit = pow2((p - 23) as nat) as int;
            let q = rounded_significand(a, p);
            lemma_rounding_error(a);
            lemma_pow2_pos((p - 23) as nat);
            let sign: int = if v < 0 { 0x8000_0000 } else { 0 };
            if q == 0x100_0000 {
                lemma_assembled_fields(sign, (p + 112) as int, 0);
                let bits = (sign + (p + 112) * 0x80_0000) as u32;
                assert(fixed_to_bits(v) == bits);
                lemma_pow2_unfold((p - 22) as nat);
                assert(pow2(((p + 112) - 134) as nat) == 2 * unit);
                assert(0x80_0000 * (2 * unit) == 0x100_0000 * unit) by (nonlinear_arith);
                assert(scaled_magnitude(bits) == q * unit);
            } else {
                lemma_assembled_fields(sign, (p + 111) as int, q - 0x80_0000);
                let bits = (sign + (p + 111) * 0x80_0000 + (q - 0x80_0000)) as u32;
                assert(fixed_to_bits(v) == bits);
                assert(pow2(((p + 111) - 134) as nat) == unit);
                assert(scaled_magnitude(bits) == q * unit);
            }
            assert(rounded_magnitude(a) == q * unit);
            if v < 0 {
                if p < 63 {
                    if p < 62 {
                        lemma_pow2_strictly_increases((p - 23) as nat, 39);
                    }
                    assert(q * unit <= 0x100_0000 * 0x80_0000_0000) by (nonlinear_arith)
                        requires
                            0 <= q <= 0x100_0000,
                            0 <= unit <= 0x80_0000_0000,
                    ;
                } else {
                    assert(a == 0x8000_0000_0000_0000);
                    assert(unit == 0x100_0000_0000);
                    assert(a / unit == 0x80_0000);
                    vstd::arithmetic::div_mod::lemma_fundamental_div_mod(a, unit);
                    assert(0x100_0000_0000int * 0x80_0000 == 0x8000_0000_0000_0000);
                    assert(a % unit == 0);
                    assert(q == 0x80_0000);
                }
            }
        }
    }
}

/// A raw value comes back from the conversion to a bit pattern within one
/// quantum exactly where rounding it to 24 significant bits moves it by at
/// most one; that holds for every value below `2^25` in magnitude.
pub proof fn lemma_round_trip_quantum_condition(v: int)
    requires
        i64::MIN <= v <= i64::MAX,
    ensures
        (-1 <= fixed_from_bits(fixed_to_bits(v) as u32) - v <= 1) <==> (-1 <= fixed_round_trip(v) - v
            <= 1),
        -0x200_0000 < v < 0x200_0000 ==> -1 <= fixed_round_trip(v) - v <= 1,
{
    lemma_round_trip_value(v);
    if -0x200_0000 < v < 0x200_0000 {
        lemma_round_trip_within_quantum(v);
    }
}

} // verus!
