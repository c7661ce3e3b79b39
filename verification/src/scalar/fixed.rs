//! Integer arithmetic on values with 16 fractional bits.
//!
//! A raw integer `r` stands for the number `r / 65536`. Every function here
//! works on raw integers and is exact: its result is a function of its
//! arguments alone, on every platform.
use vstd::prelude::*;

verus! {

/// Number of fractional bits.
pub const FIXED_POINT_SHIFT: i64 = 16;

/// Raw representation of `1.0`: two to the power of `FIXED_POINT_SHIFT`.
pub const FIXED_POINT_ONE: i64 = 65536;

/// Raw representation of a quarter turn, `pi / 2`.
pub const FIXED_HALF_PI: i64 = 102944;

/// Raw representation of a half turn, `pi`: twice the quarter turn.
pub const FIXED_PI: i64 = 205888;

/// Raw representation of a full turn, `2 * pi`: four times the quarter turn.
pub const FIXED_TWO_PI: i64 = 411776;

/// Raw representation of `pi / 4`.
pub const FIXED_QUARTER_PI: i64 = 51472;

/// Raw coefficients of the arctangent polynomial, from the linear term
/// upward in odd powers of the ratio.
pub const FIXED_ATAN_C0: i64 = 65527;

pub const FIXED_ATAN_C1: i64 = -21647;

pub const FIXED_ATAN_C2: i64 = 11806;

pub const FIXED_ATAN_C3: i64 = -5579;

pub const FIXED_ATAN_C4: i64 = 1365;

/// Whether `v` is the value of an `i64`.
pub open spec fn fits_i64(v: int) -> bool {
    i64::MIN <= v <= i64::MAX
}

/// The absolute value of an integer.
pub open spec fn magnitude(v: int) -> int {
    if v < 0 {
        -v
    } else {
        v
    }
}

/// The quotient of `a` by a nonzero `b`, rounded toward zero.
pub open spec fn trunc_div(a: int, b: int) -> int {
    if (a < 0) == (b < 0) {
        magnitude(a) / magnitude(b)
    } else {
        -(magnitude(a) / magnitude(b))
    }
}

/// Raw product of two raw values: the exact product with its 16 lowest bits
/// dropped, which rounds toward negative infinity.
pub open spec fn fixed_mul(a: int, b: int) -> int {
    (a * b) / 65536
}

/// Raw quotient of two raw values, for a nonzero `b`: the dividend scaled by
/// `2^16`, divided with rounding toward zero.
pub open spec fn fixed_div(a: int, b: int) -> int {
    trunc_div(a * 65536, b)
}

/// Whether `r` is the square root of `n` rounded down.
pub open spec fn is_floor_sqrt(n: int, r: int) -> bool {
    r >= 0 && r * r <= n < (r + 1) * (r + 1)
}

/// The square root of a non-negative `n`, rounded down.
pub open spec fn floor_sqrt(n: int) -> int {
    choose|r: int| is_floor_sqrt(n, r)
}

/// Raw square root of a raw value; zero for a negative one.
pub open spec fn fixed_sqrt(a: int) -> int {
    if a <= 0 {
        0
    } else {
        floor_sqrt(a * 65536)
    }
}

/// Raw reciprocal square root of a raw value: `1.0` divided by the raw
/// square root; zero where the value is not positive.
pub open spec fn fixed_rsqrt(a: int) -> int {
    if a <= 0 {
        0
    } else {
        0x1_0000_0000int / fixed_sqrt(a)
    }
}

/// At most one integer is the rounded-down square root of `n`.
pub proof fn lemma_floor_sqrt_unique(n: int, r1: int, r2: int)
    requires
        is_floor_sqrt(n, r1),
        is_floor_sqrt(n, r2),
    ensures
        r1 == r2,
{
    if r1 < r2 {
        assert((r1 + 1) * (r1 + 1) <= r2 * r2) by (nonlinear_arith)
            requires
                0 <= r1 + 1 <= r2,
        ;
    } else if r2 < r1 {
        assert((r2 + 1) * (r2 + 1) <= r1 * r1) by (nonlinear_arith)
            requires
                0 <= r2 + 1 <= r1,
        ;
    }
}

/// The absolute value of `v` as an unsigned integer.
pub fn unsigned_magnitude(v: i64) -> (m: u64)
    ensures
        m == magnitude(v as int),
{
    if v >= 0 {
        v as u64
    } else if v == i64::MIN {
        0x8000_0000_0000_0000
    } else {
        (-v) as u64
    }
}

/// Square root of `n`, rounded down.
pub fn isqrt(n: u128) -> (r: u64)
    requires
        n < 0x1_0000_0000_0000_0000_0000,
    ensures
        is_floor_sqrt(n as int, r as int),
        r == floor_sqrt(n as int),
        r < 0x100_0000_0000,
{
    let mut lo: u128 = 0;
    let mut hi: u128 = 0x100_0000_0000;
    assert(0x100_0000_0000u128 * 0x100_0000_0000u128 == 0x1_0000_0000_0000_0000_0000u128);
    while hi - lo > 1
        invariant
            lo < hi <= 0x100_0000_0000,
            lo * lo <= n < hi * hi,
        decreases hi - lo,
    {
        let mid: u128 = lo + (hi - lo) / 2;
        assert(mid * mid < 0x1_0000_0000_0000_0000_0000) by (nonlinear_arith)
            requires
                0 <= mid < 0x100_0000_0000,
        ;
        if mid * mid <= n {
            lo = mid;
        } else {
            hi = mid;
        }
    }
    proof {
        assert(hi == lo + 1);
        lemma_floor_sqrt_unique(n as int, lo as int, floor_sqrt(n as int));
    }
    lo as u64
}

/// Exact product of two raw values with the 16 lowest bits dropped.
pub fn mul_raw(a: i64, b: i64) -> (r: i64)
    requires
        fits_i64(fixed_mul(a as int, b as int)),
    ensures
        r == fixed_mul(a as int, b as int),
{
    assert(-0x4000_0000_0000_0000_0000_0000_0000_0000 <= a * b
        <= 0x4000_0000_0000_0000_0000_0000_0000_0000) by (nonlinear_arith)
        requires
            -0x8000_0000_0000_0000 <= a <= 0x8000_0000_0000_0000,
            -0x8000_0000_0000_0000 <= b <= 0x8000_0000_0000_0000,
    ;
    let p: i128 = (a as i128) * (b as i128);
    let q: i128 = p >> 16;
    assert(q == p / 65536) by (bit_vector)
        requires
            q == p >> 16,
    ;
    q as i64
}

/// Quotient of two raw values, rounded toward zero.
pub fn div_raw(a: i64, b: i64) -> (r: i64)
    requires
        b != 0,
        fits_i64(fixed_div(a as int, b as int)),
    ensures
        r == fixed_div(a as int, b as int),
{
    let ma: u128 = (unsigned_magnitude(a) as u128) * 65536;
    let mb: u128 = unsigned_magnitude(b) as u128;
    let q: u128 = ma / mb;
    assert(magnitude(a * 65536) == magnitude(a as int) * 65536);
    if (a < 0) == (b < 0) {
        q as i64
    } else if q == 0x8000_0000_0000_0000 {
        i64::MIN
    } else {
        -(q as i64)
    }
}

/// Raw square root of a raw value; zero for a negative one.
pub fn sqrt_raw(a: i64) -> (r: i64)
    ensures
        r == fixed_sqrt(a as int),
        0 <= r < 0x100_0000_0000,
        a > 0 ==> r >= 256 && is_floor_sqrt(a * 65536, r as int),
{
    if a <= 0 {
        0
    } else {
        let r: u64 = isqrt((a as u128) * 65536);
        assert(r >= 256) by (nonlinear_arith)
            requires
                r >= 0,
                (r + 1) * (r + 1) > a * 65536,
                a >= 1,
        ;
        r as i64
    }
}

/// Raw reciprocal square root of a raw value; zero where the value is not
/// positive.
pub fn rsqrt_raw(a: i64) -> (r: i64)
    ensures
        r == fixed_rsqrt(a as int),
        0 <= r <= 0x100_0000,
{
    if a <= 0 {
        0
    } else {
        let root: i64 = sqrt_raw(a);
        let r: i64 = 0x1_0000_0000 / root;
        assert(r <= 0x100_0000) by (nonlinear_arith)
            requires
                r == 0x1_0000_0000int / (root as int),
                root >= 256,
        ;
        r
    }
}

/// Raw sine of a raw angle `t` in the first eighth of a turn,
/// `0 <= t <= pi / 4`: the Taylor polynomial
/// `t (1 - t^2/6 (1 - t^2/20 (1 - t^2/42)))`, each step rounded down.
pub open spec fn sin_poly(t: int) -> int {
    let x2 = fixed_mul(t, t);
    let u3 = 65536 - x2 / 42;
    let u2 = 65536 - fixed_mul(x2, u3) / 20;
    let u1 = 65536 - fixed_mul(x2, u2) / 6;
    fixed_mul(t, u1)
}

/// Raw cosine of a raw angle `t` in the first eighth of a turn,
/// `0 <= t <= pi / 4`: the Taylor polynomial
/// `1 - t^2/2 (1 - t^2/12 (1 - t^2/30 (1 - t^2/56)))`, each step rounded
/// down.
pub open spec fn cos_poly(t: int) -> int {
    let x2 = fixed_mul(t, t);
    let w4 = 65536 - x2 / 56;
    let w3 = 65536 - fixed_mul(x2, w4) / 30;
    let w2 = 65536 - fixed_mul(x2, w3) / 12;
    65536 - fixed_mul(x2, w2) / 2
}

/// Raw sine of a raw angle `t` in the first quarter turn,
/// `0 <= t <= pi / 2`: beyond an eighth of a turn it is the cosine of the
/// complement.
pub open spec fn sin_quarter_turn(t: int) -> int {
    if t <= FIXED_QUARTER_PI {
        sin_poly(t)
    } else {
        cos_poly(FIXED_HALF_PI - t)
    }
}

/// Raw cosine of a raw angle `t` in the first quarter turn,
/// `0 <= t <= pi / 2`: beyond an eighth of a turn it is the sine of the
/// complement.
pub open spec fn cos_quarter_turn(t: int) -> int {
    if t <= FIXED_QUARTER_PI {
        cos_poly(t)
    } else {
        sin_poly(FIXED_HALF_PI - t)
    }
}

/// Raw sine of a raw angle `y` in the first half turn, `0 <= y <= pi`: in
/// the second quarter turn it is the cosine of the angle less a quarter
/// turn.
pub open spec fn sin_half_turn(y: int) -> int {
    if y < FIXED_HALF_PI {
        sin_quarter_turn(y)
    } else {
        cos_quarter_turn(y - FIXED_HALF_PI)
    }
}

/// Raw sine of a raw angle `r` within one turn, `0 <= r < 2 pi`: the second
/// half turn mirrors the first with the opposite sign.
pub open spec fn sin_turn(r: int) -> int {
    if r < FIXED_PI {
        sin_half_turn(r)
    } else {
        -sin_half_turn(r - FIXED_PI)
    }
}

/// Raw sine of a raw angle in radians: odd in the angle and periodic in the
/// full turn.
pub open spec fn fixed_sin(a: int) -> int {
    if a >= 0 {
        sin_turn(a % (FIXED_TWO_PI as int))
    } else {
        -sin_turn((-a) % (FIXED_TWO_PI as int))
    }
}

/// Raw cosine of a raw angle in radians: the sine of the angle's magnitude
/// advanced by a quarter turn.
pub open spec fn fixed_cos(a: int) -> int {
    sin_turn((magnitude(a) + FIXED_HALF_PI) % (FIXED_TWO_PI as int))
}

/// Raw tangent of a raw angle in radians: sine divided by cosine. Where the
/// cosine is zero the result is the largest value with the sine's sign.
pub open spec fn fixed_tan(a: int) -> int {
    if fixed_cos(a) == 0 {
        if fixed_sin(a) >= 0 {
            i64::MAX as int
        } else {
            i64::MIN as int
        }
    } else {
        fixed_div(fixed_sin(a), fixed_cos(a))
    }
}

/// A raw product with a factor between zero and `1.0` lies between zero
/// and the other factor.
pub proof fn lemma_fixed_mul_shrinks(a: int, u: int)
    requires
        0 <= a,
        0 <= u <= 65536,
    ensures
        0 <= fixed_mul(a, u) <= a,
{
    assert(0 <= (a * u) / 65536 <= a) by (nonlinear_arith)
        requires
            0 <= a,
            0 <= u <= 65536,
    ;
}

/// In the first eighth of a turn the raw sine lies between zero and the
/// angle, and the raw cosine between a half and `1.0`.
pub proof fn lemma_poly_bounds(t: int)
    requires
        0 <= t <= FIXED_QUARTER_PI,
    ensures
        0 <= fixed_mul(t, t) <= 40427,
        0 <= sin_poly(t) <= t,
        32768 <= cos_poly(t) <= 65536,
{
    let x2 = fixed_mul(t, t);
    assert(0 <= (t * t) / 65536 <= 40427) by (nonlinear_arith)
        requires
            0 <= t <= 51472,
    ;
    let u3 = 65536 - x2 / 42;
    lemma_fixed_mul_shrinks(x2, u3);
    let u2 = 65536 - fixed_mul(x2, u3) / 20;
    lemma_fixed_mul_shrinks(x2, u2);
    let u1 = 65536 - fixed_mul(x2, u2) / 6;
    lemma_fixed_mul_shrinks(t, u1);
    let w4 = 65536 - x2 / 56;
    lemma_fixed_mul_shrinks(x2, w4);
    let w3 = 65536 - fixed_mul(x2, w4) / 30;
    lemma_fixed_mul_shrinks(x2, w3);
    let w2 = 65536 - fixed_mul(x2, w3) / 12;
    lemma_fixed_mul_shrinks(x2, w2);
}

/// The raw sine in the first half turn lies between zero and `1.0`.
pub proof fn lemma_sin_half_turn_bounds(y: int)
    requires
        0 <= y <= FIXED_PI,
    ensures
        0 <= sin_half_turn(y) <= 65536,
{
    let t = if y < FIXED_HALF_PI { y } else { y - FIXED_HALF_PI };
    if t <= FIXED_QUARTER_PI {
        lemma_poly_bounds(t);
    } else {
        lemma_poly_bounds(FIXED_HALF_PI - t);
    }
}

/// The raw product of a raw value and a raw factor of at most `1.0`,
/// rounded down.
pub fn scale_down(a: u64, u: u64) -> (r: u64)
    requires
        a <= 0x1_0000_0000,
        u <= 65536,
    ensures
        r == fixed_mul(a as int, u as int),
        r <= a,
{
    proof {
        lemma_fixed_mul_shrinks(a as int, u as int);
    }
    assert(a * u <= 0x1_0000_0000 * 65536) by (nonlinear_arith)
        requires
            0 <= a <= 0x1_0000_0000,
            0 <= u <= 65536,
    ;
    (a * u) / 65536
}

/// Raw sine in the first eighth of a turn.
pub fn sin_poly_raw(t: u64) -> (r: u64)
    requires
        t <= FIXED_QUARTER_PI,
    ensures
        r == sin_poly(t as int),
        r <= t,
{
    proof {
        lemma_poly_bounds(t as int);
    }
    let x2: u64 = scale_down(t, t);
    let u3: u64 = 65536 - x2 / 42;
    let u2: u64 = 65536 - scale_down(x2, u3) / 20;
    let u1: u64 = 65536 - scale_down(x2, u2) / 6;
    scale_down(t, u1)
}

/// Raw cosine in the first eighth of a turn.
pub fn cos_poly_raw(t: u64) -> (r: u64)
    requires
        t <= FIXED_QUARTER_PI,
    ensures
        r == cos_poly(t as int),
        32768 <= r <= 65536,
{
    proof {
        lemma_poly_bounds(t as int);
    }
    let x2: u64 = scale_down(t, t);
    let w4: u64 = 65536 - x2 / 56;
    let w3: u64 = 65536 - scale_down(x2, w4) / 30;
    let w2: u64 = 65536 - scale_down(x2, w3) / 12;
    65536 - scale_down(x2, w2) / 2
}

/// Raw sine in the first half turn.
pub fn sin_half_turn_raw(y: u64) -> (r: i64)
    requires
        y <= FIXED_PI,
    ensures
        r == sin_half_turn(y as int),
        0 <= r <= 65536,
{
    let half: u64 = FIXED_HALF_PI as u64;
    let quarter: u64 = FIXED_QUARTER_PI as u64;
    let r: u64 = if y < half {
        if y <= quarter {
            sin_poly_raw(y)
        } else {
            cos_poly_raw(half - y)
        }
    } else {
        let t: u64 = y - half;
        if t <= quarter {
            cos_poly_raw(t)
        } else {
            sin_poly_raw(half - t)
        }
    };
    r as i64
}

/// Raw sine within one turn.
pub fn sin_turn_raw(r: u64) -> (s: i64)
    requires
        r < FIXED_TWO_PI,
    ensures
        s == sin_turn(r as int),
        -65536 <= s <= 65536,
{
    let pi: u64 = FIXED_PI as u64;
    if r < pi {
        sin_half_turn_raw(r)
    } else {
        -sin_half_turn_raw(r - pi)
    }
}

/// Raw sine of a raw angle in radians.
pub fn sin_raw(a: i64) -> (s: i64)
    ensures
        s == fixed_sin(a as int),
        -65536 <= s <= 65536,
{
    let m: u64 = unsigned_magnitude(a);
    let r: u64 = m % (FIXED_TWO_PI as u64);
    let s: i64 = sin_turn_raw(r);
    if a >= 0 {
        s
    } else {
        -s
    }
}

/// Raw cosine of a raw angle in radians.
pub fn cos_raw(a: i64) -> (c: i64)
    ensures
        c == fixed_cos(a as int),
        -65536 <= c <= 65536,
{
    let m: u64 = unsigned_magnitude(a);
    let r: u64 = (m + (FIXED_HALF_PI as u64)) % (FIXED_TWO_PI as u64);
    sin_turn_raw(r)
}

/// Raw tangent of a raw angle in radians.
pub fn tan_raw(a: i64) -> (t: i64)
    ensures
        t == fixed_tan(a as int),
{
    let s: i64 = sin_raw(a);
    let c: i64 = cos_raw(a);
    if c == 0 {
        if s >= 0 {
            i64::MAX
        } else {
            i64::MIN
        }
    } else {
        proof {
            lemma_trunc_div_bounded(s * 65536, c as int);
        }
        div_raw(s, c)
    }
}

/// A quotient rounded toward zero is no larger in magnitude than its
/// dividend.
pub proof fn lemma_trunc_div_bounded(a: int, b: int)
    requires
        b != 0,
    ensures
        magnitude(trunc_div(a, b)) <= magnitude(a),
        magnitude(trunc_div(a, b)) == magnitude(a) / magnitude(b),
{
    let ma = magnitude(a);
    let mb = magnitude(b);
    assert(0 <= ma / mb <= ma) by (nonlinear_arith)
        requires
            ma >= 0,
            mb >= 1,
    ;
}

/// The slope of the arctangent polynomial at a raw squared ratio `z2` in
/// `[0, 1]`: the coefficients combined from the highest power down, each
/// product rounded down.
pub open spec fn atan_slope(z2: int) -> int {
    let p3 = FIXED_ATAN_C3 + fixed_mul(z2, FIXED_ATAN_C4 as int);
    let p2 = FIXED_ATAN_C2 + fixed_mul(z2, p3);
    let p1 = FIXED_ATAN_C1 + fixed_mul(z2, p2);
    FIXED_ATAN_C0 + fixed_mul(z2, p1)
}

/// Raw arctangent of a raw ratio `z` in `[0, 1]`: the ratio times the slope
/// of the polynomial at its square, limited to `pi / 4`.
pub open spec fn atan_unit(z: int) -> int {
    let a = fixed_mul(z, atan_slope(fixed_mul(z, z)));
    if a > FIXED_QUARTER_PI {
        FIXED_QUARTER_PI as int
    } else {
        a
    }
}

/// Raw ratio of the smaller to the larger of two magnitudes, rounded down;
/// zero where both are zero.
pub open spec fn unit_ratio(p: int, q: int) -> int {
    let lo = if p <= q { p } else { q };
    let hi = if p <= q { q } else { p };
    if hi == 0 {
        0
    } else {
        (lo * 65536) / hi
    }
}

/// Raw angle in radians of the point `(x, y)`, in `[-pi, pi]`. The angle of
/// the ratio of the smaller to the larger magnitude is reflected into the
/// octant, then into the quadrant of the point. The angle of the origin is
/// zero.
pub open spec fn fixed_atan2(y: int, x: int) -> int {
    let base = atan_unit(unit_ratio(magnitude(y), magnitude(x)));
    let folded = if magnitude(y) > magnitude(x) {
        FIXED_HALF_PI - base
    } else {
        base
    };
    let turned = if x < 0 {
        FIXED_PI - folded
    } else {
        folded
    };
    if y < 0 {
        -turned
    } else {
        turned
    }
}

/// A raw value limited to `[-1.0, 1.0]`.
pub open spec fn unit_clamped(a: int) -> int {
    if a < -65536 {
        -65536
    } else if a > 65536 {
        65536
    } else {
        a
    }
}

/// Raw arcsine, in `[-pi / 2, pi / 2]`, of a raw value limited to
/// `[-1.0, 1.0]`: the angle of the point `(sqrt(1 - a^2), a)`.
pub open spec fn fixed_asin(a: int) -> int {
    let c = unit_clamped(a);
    fixed_atan2(c, fixed_sqrt(65536 - fixed_mul(c, c)))
}

/// Raw arccosine, in `[0, pi]`: a quarter turn less the arcsine.
pub open spec fn fixed_acos(a: int) -> int {
    FIXED_HALF_PI - fixed_asin(a)
}

/// The raw product of a raw factor between zero and `1.0` with a raw value
/// lies between zero and that value.
pub proof fn lemma_fixed_mul_bounds(a: int, u: int)
    requires
        0 <= a <= 65536,
    ensures
        u >= 0 ==> 0 <= fixed_mul(a, u) <= u,
        u <= 0 ==> u <= fixed_mul(a, u) <= 0,
{
    if u >= 0 {
        assert(0 <= (a * u) / 65536 <= u) by (nonlinear_arith)
            requires
                0 <= a <= 65536,
                u >= 0,
        ;
    } else {
        assert(u <= (a * u) / 65536 <= 0) by (nonlinear_arith)
            requires
                0 <= a <= 65536,
                u <= 0,
        ;
    }
}

/// The slope of the arctangent polynomial lies between `0.66` and `1.0`.
pub proof fn lemma_atan_slope_bounds(z2: int)
    requires
        0 <= z2 <= 65536,
    ensures
        -5579 <= FIXED_ATAN_C3 + fixed_mul(z2, FIXED_ATAN_C4 as int) <= -4214,
        6227 <= FIXED_ATAN_C2 + fixed_mul(z2, FIXED_ATAN_C3 + fixed_mul(z2, FIXED_ATAN_C4 as int))
            <= 11806,
        -21647 <= FIXED_ATAN_C1 + fixed_mul(
            z2,
            FIXED_ATAN_C2 + fixed_mul(z2, FIXED_ATAN_C3 + fixed_mul(z2, FIXED_ATAN_C4 as int)),
        ) <= -9841,
        43880 <= atan_slope(z2) <= 65527,
{
    lemma_fixed_mul_bounds(z2, FIXED_ATAN_C4 as int);
    let p3 = FIXED_ATAN_C3 + fixed_mul(z2, FIXED_ATAN_C4 as int);
    lemma_fixed_mul_bounds(z2, p3);
    let p2 = FIXED_ATAN_C2 + fixed_mul(z2, p3);
    lemma_fixed_mul_bounds(z2, p2);
    let p1 = FIXED_ATAN_C1 + fixed_mul(z2, p2);
    lemma_fixed_mul_bounds(z2, p1);
}

/// Raw arctangent of a raw ratio in `[0, 1]`.
pub fn atan_unit_raw(z: u64) -> (r: i64)
    requires
        z <= 65536,
    ensures
        r == atan_unit(z as int),
        0 <= r <= FIXED_QUARTER_PI,
{
    let z2: u64 = scale_down(z, z);
    proof {
        lemma_atan_slope_bounds(z2 as int);
        lemma_fixed_mul_bounds(z2 as int, FIXED_ATAN_C4 as int);
    }
    let square: i64 = z2 as i64;
    let p3: i64 = FIXED_ATAN_C3 + mul_raw(square, FIXED_ATAN_C4);
    proof {
        lemma_fixed_mul_bounds(z2 as int, p3 as int);
    }
    let p2: i64 = FIXED_ATAN_C2 + mul_raw(square, p3);
    proof {
        lemma_fixed_mul_bounds(z2 as int, p2 as int);
    }
    let p1: i64 = FIXED_ATAN_C1 + mul_raw(square, p2);
    proof {
        lemma_fixed_mul_bounds(z2 as int, p1 as int);
    }
    let p0: i64 = FIXED_ATAN_C0 + mul_raw(square, p1);
    let a: u64 = scale_down(z, p0 as u64);
    if a > FIXED_QUARTER_PI as u64 {
        FIXED_QUARTER_PI
    } else {
        a as i64
    }
}

/// Raw angle in radians of the point `(x, y)`.
pub fn atan2_raw(y: i64, x: i64) -> (r: i64)
    ensures
        r == fixed_atan2(y as int, x as int),
        -FIXED_PI <= r <= FIXED_PI,
        x >= 0 ==> -FIXED_HALF_PI <= r <= FIXED_HALF_PI,
{
    let my: u64 = unsigned_magnitude(y);
    let mx: u64 = unsigned_magnitude(x);
    let lo: u64 = if my <= mx { my } else { mx };
    let hi: u64 = if my <= mx { mx } else { my };
    let z: u64 = if hi == 0 {
        0
    } else {
        let q: u128 = ((lo as u128) * 65536) / (hi as u128);
        assert(q <= 65536) by (nonlinear_arith)
            requires
                q == (lo * 65536) / (hi as int),
                0 <= lo <= hi,
                hi > 0,
        ;
        q as u64
    };
    let base: i64 = atan_unit_raw(z);
    let folded: i64 = if my > mx { FIXED_HALF_PI - base } else { base };
    let turned: i64 = if x < 0 { FIXED_PI - folded } else { folded };
    if y < 0 {
        -turned
    } else {
        turned
    }
}

/// Raw arcsine of a raw value limited to `[-1.0, 1.0]`.
pub fn asin_raw(a: i64) -> (r: i64)
    ensures
        r == fixed_asin(a as int),
        -FIXED_HALF_PI <= r <= FIXED_HALF_PI,
{
    let c: i64 = if a < -65536 { -65536 } else if a > 65536 { 65536 } else { a };
    assert(0 <= c * c <= 65536 * 65536) by (nonlinear_arith)
        requires
            -65536 <= c <= 65536,
    ;
    let square: i64 = mul_raw(c, c);
    let rest: i64 = 65536 - square;
    let side: i64 = sqrt_raw(rest);
    atan2_raw(c, side)
}

/// Raw arccosine of a raw value limited to `[-1.0, 1.0]`.
pub fn acos_raw(a: i64) -> (r: i64)
    ensures
        r == fixed_acos(a as int),
        0 <= r <= FIXED_PI,
{
    FIXED_HALF_PI - asin_raw(a)
}

/// The sign of an integer as a factor: `-1` for a negative one, else `1`.
pub open spec fn sign_factor(v: int) -> int {
    if v < 0 {
        -1
    } else {
        1
    }
}

/// The low bits that a raw product drops.
pub open spec fn dropped_bits(a: int, b: int) -> int {
    (a * b) % 65536
}

/// The number of quanta by which dividing the raw product of `a` and a
/// nonzero `b` by `b` falls short of `a`, counted in the direction of the
/// sign of `b`: the dropped bits divided by the magnitude of `b`, rounded up
/// for a non-negative product and down for a negative one.
pub open spec fn recovery_loss(a: int, b: int) -> int {
    if fixed_mul(a, b) >= 0 {
        (dropped_bits(a, b) + magnitude(b) - 1) / magnitude(b)
    } else {
        dropped_bits(a, b) / magnitude(b)
    }
}

/// The raw product of `1.0` with itself is `1.0`.
pub proof fn lemma_one_times_one()
    ensures
        fixed_mul(FIXED_POINT_ONE as int, FIXED_POINT_ONE as int) == FIXED_POINT_ONE,
{
}

/// A quotient lies between two integers whose multiples of the divisor
/// enclose the dividend.
proof fn lemma_quotient_between(n: int, d: int, q: int)
    requires
        d > 0,
        q * d <= n < (q + 1) * d,
    ensures
        n / d == q,
{
    assert((q + 1) * d == q * d + d) by (nonlinear_arith);
    vstd::arithmetic::div_mod::lemma_fundamental_div_mod_converse(n, d, q, n - q * d);
}

/// Dividing the raw product of `a` and a nonzero `b` by `b` gives `a` less
/// the recovery loss in the direction of the sign of `b`.
pub proof fn lemma_mul_div_loss(a: int, b: int)
    requires
        b != 0,
    ensures
        recovery_loss(a, b) >= 0,
        fixed_div(fixed_mul(a, b), b) == a - sign_factor(b) * recovery_loss(a, b),
{
    let m = fixed_mul(a, b);
    let r = dropped_bits(a, b);
    let big = magnitude(b);
    let turned = a * sign_factor(b);
    let n = m * 65536;
    vstd::arithmetic::div_mod::lemma_fundamental_div_mod(a * b, 65536);
    assert(a * b == turned * big) by (nonlinear_arith)
        requires
            turned == a * sign_factor(b),
            big == magnitude(b),
    ;
    assert(n == turned * big - r);
    assert(0 <= r < 65536);
    if m >= 0 {
        let c = (r + big - 1) / big;
        vstd::arithmetic::div_mod::lemma_fundamental_div_mod(r + big - 1, big);
        assert(0 <= (r + big - 1) % big < big);
        assert(c >= 0) by (nonlinear_arith)
            requires
                c == (r + big - 1) / big,
                r + big - 1 >= 0,
                big > 0,
        ;
        assert((turned - c) * big == turned * big - big * c) by (nonlinear_arith);
        assert((turned - c + 1) * big == turned * big - big * c + big) by (nonlinear_arith);
        lemma_quotient_between(n, big, turned - c);
        assert(magnitude(n) == n);
        assert(recovery_loss(a, b) == c);
        if b > 0 {
            assert(turned == a);
            assert(trunc_div(n, b) == a - c);
        } else {
            assert(turned == -a);
            assert(trunc_div(n, b) == a + c);
        }
    } else {
        let f = r / big;
        vstd::arithmetic::div_mod::lemma_fundamental_div_mod(r, big);
        assert(0 <= r % big < big);
        assert(f >= 0) by (nonlinear_arith)
            requires
                f == r / big,
                r >= 0,
                big > 0,
        ;
        assert((f - turned) * big == big * f - turned * big) by (nonlinear_arith);
        assert((f - turned + 1) * big == big * f - turned * big + big) by (nonlinear_arith);
        lemma_quotient_between(-n, big, f - turned);
        assert(magnitude(n) == -n);
        assert(recovery_loss(a, b) == f);
        if b > 0 {
            assert(turned == a);
            assert(trunc_div(n, b) == a - f);
        } else {
            assert(turned == -a);
            assert(trunc_div(n, b) == a + f);
        }
    }
}

/// Dividing the raw product of `a` and `b` by `b` recovers `a` within one
/// quantum exactly where the recovery loss is at most one; that holds in
/// particular for every `b` whose magnitude is at least `65535`, so for
/// every `b` that stands for a number of magnitude `1.0` or more.
pub proof fn lemma_mul_div_recovers(a: int, b: int)
    requires
        b != 0,
    ensures
        magnitude(fixed_div(fixed_mul(a, b), b) - a) == recovery_loss(a, b),
        magnitude(fixed_div(fixed_mul(a, b), b) - a) <= 1 <==> recovery_loss(a, b) <= 1,
        magnitude(b) >= 65535 ==> recovery_loss(a, b) <= 1,
{
    lemma_mul_div_loss(a, b);
    let r = dropped_bits(a, b);
    let big = magnitude(b);
    if big >= 65535 {
        if fixed_mul(a, b) >= 0 {
            assert((r + big - 1) / big <= 1) by (nonlinear_arith)
                requires
                    0 <= r <= 65535,
                    big >= 65535,
            ;
        } else {
            assert(r / big <= 1) by (nonlinear_arith)
                requires
                    0 <= r <= 65535,
                    big >= 65535,
            ;
        }
    }
}

/// Sine and cosine lie between `-1.0` and `1.0` for every angle.
pub proof fn lemma_sin_cos_bounds(a: int)
    ensures
        -65536 <= fixed_sin(a) <= 65536,
        -65536 <= fixed_cos(a) <= 65536,
{
    let turn = FIXED_TWO_PI as int;
    let r = magnitude(a) % turn;
    let c = (magnitude(a) + FIXED_HALF_PI) % turn;
    if r < FIXED_PI {
        lemma_sin_half_turn_bounds(r);
    } else {
        lemma_sin_half_turn_bounds(r - FIXED_PI);
    }
    if c < FIXED_PI {
        lemma_sin_half_turn_bounds(c);
    } else {
        lemma_sin_half_turn_bounds(c - FIXED_PI);
    }
}

/// The sine is odd and the cosine is even in the angle.
pub proof fn lemma_sin_odd_cos_even(a: int)
    ensures
        fixed_sin(-a) == -fixed_sin(a),
        fixed_cos(-a) == fixed_cos(a),
{
    if a == 0 {
        lemma_poly_values();
    }
}

/// Sine and cosine repeat after a full turn.
pub proof fn lemma_sin_cos_periodic(a: int)
    requires
        a >= 0,
    ensures
        fixed_sin(a + FIXED_TWO_PI) == fixed_sin(a),
        fixed_cos(a + FIXED_TWO_PI) == fixed_cos(a),
{
    let turn = FIXED_TWO_PI as int;
    vstd::arithmetic::div_mod::lemma_mod_add_multiples_vanish(a, turn);
    vstd::arithmetic::div_mod::lemma_mod_add_multiples_vanish(a + FIXED_HALF_PI, turn);
}

/// The values of sine and cosine at the quarter turns are exact, and the
/// cosine is the sine a quarter turn ahead.
pub proof fn lemma_sin_cos_quarter_turns(a: int)
    ensures
        fixed_sin(0) == 0,
        fixed_sin(FIXED_HALF_PI as int) == 65536,
        fixed_sin(FIXED_PI as int) == 0,
        fixed_sin(3 * FIXED_HALF_PI) == -65536,
        fixed_cos(0) == 65536,
        fixed_cos(FIXED_HALF_PI as int) == 0,
        fixed_cos(FIXED_PI as int) == -65536,
        fixed_cos(a) == fixed_sin(magnitude(a) + FIXED_HALF_PI),
{
    lemma_poly_values();
}

/// At the angle zero the raw sine is zero and the raw cosine is `1.0`.
pub proof fn lemma_poly_values()
    ensures
        sin_poly(0) == 0,
        cos_poly(0) == 65536,
        sin_half_turn(0) == 0,
        sin_half_turn(FIXED_HALF_PI as int) == 65536,
{
    assert(fixed_mul(0, 0) == 0);
    assert(fixed_mul(0, 65536) == 0);
}

/// The angle of a point lies in `[-pi, pi]`, changes sign with the ordinate,
/// and is exact on the axes and the diagonal of the first quadrant.
pub proof fn lemma_atan2_shape(y: int, x: int)
    ensures
        -FIXED_PI <= fixed_atan2(y, x) <= FIXED_PI,
        x >= 0 ==> -FIXED_HALF_PI <= fixed_atan2(y, x) <= FIXED_HALF_PI,
        y != 0 ==> fixed_atan2(-y, x) == -fixed_atan2(y, x),
        x > 0 ==> fixed_atan2(0, x) == 0,
        x < 0 ==> fixed_atan2(0, x) == FIXED_PI,
        y > 0 ==> fixed_atan2(y, 0) == FIXED_HALF_PI,
        y > 0 ==> fixed_atan2(y, y) == FIXED_QUARTER_PI,
        fixed_atan2(0, 0) == 0,
{
    let z = unit_ratio(magnitude(y), magnitude(x));
    lemma_unit_ratio_bounds(magnitude(y), magnitude(x));
    lemma_atan_unit_bounds(z);
    if y > 0 {
        assert((y * 65536) / y == 65536) by (nonlinear_arith)
            requires
                y > 0,
        ;
        assert((0int * 65536) / y == 0);
    }
    if x != 0 {
        assert((0int * 65536) / magnitude(x) == 0);
    }
}

/// The ratio of the smaller to the larger magnitude lies in `[0, 1]`.
pub proof fn lemma_unit_ratio_bounds(p: int, q: int)
    requires
        p >= 0,
        q >= 0,
    ensures
        0 <= unit_ratio(p, q) <= 65536,
{
    let lo = if p <= q { p } else { q };
    let hi = if p <= q { q } else { p };
    if hi > 0 {
        assert(0 <= (lo * 65536) / hi <= 65536) by (nonlinear_arith)
            requires
                0 <= lo <= hi,
                hi > 0,
        ;
    }
}

/// The arctangent of a ratio in `[0, 1]` lies in `[0, pi / 4]`; it is zero
/// at zero and `pi / 4` at one.
pub proof fn lemma_atan_unit_bounds(z: int)
    requires
        0 <= z <= 65536,
    ensures
        0 <= atan_unit(z) <= FIXED_QUARTER_PI,
        atan_unit(0) == 0,
        atan_unit(65536) == FIXED_QUARTER_PI,
{
    lemma_fixed_mul_shrinks(z, z);
    lemma_atan_slope_bounds(fixed_mul(z, z));
    lemma_fixed_mul_shrinks(z, atan_slope(fixed_mul(z, z)));
    assert(fixed_mul(0, 0) == 0);
    lemma_atan_slope_bounds(0);
    assert(fixed_mul(0, atan_slope(0)) == 0);
    assert(fixed_mul(65536, 65536) == 65536);
    assert(fixed_mul(65536, 1365) == 1365);
    assert(fixed_mul(65536, -4214) == -4214);
    assert(fixed_mul(65536, 7592) == 7592);
    assert(fixed_mul(65536, -14055) == -14055);
    assert(atan_slope(65536) == 51472);
    assert(fixed_mul(65536, 51472) == 51472);
}

/// Arcsine and arccosine lie in their principal ranges, add up to a quarter
/// turn, and the arcsine is odd.
pub proof fn lemma_asin_acos_shape(a: int)
    ensures
        -FIXED_HALF_PI <= fixed_asin(a) <= FIXED_HALF_PI,
        0 <= fixed_acos(a) <= FIXED_PI,
        fixed_asin(a) + fixed_acos(a) == FIXED_HALF_PI,
        fixed_asin(-a) == -fixed_asin(a),
        fixed_asin(0) == 0,
{
    let c = unit_clamped(a);
    assert(0 <= c * c <= 65536 * 65536) by (nonlinear_arith)
        requires
            -65536 <= c <= 65536,
    ;
    assert(c * c == (-c) * (-c)) by (nonlinear_arith);
    let side = fixed_sqrt(65536 - fixed_mul(c, c));
    lemma_fixed_sqrt_nonnegative(65536 - fixed_mul(c, c));
    lemma_atan2_shape(c, side);
    assert(fixed_mul(0, 0) == 0);
    let flat = fixed_sqrt(65536 - fixed_mul(0, 0));
    lemma_fixed_sqrt_nonnegative(65536);
    lemma_atan2_shape(0, flat);
}

/// The raw square root is never negative.
pub proof fn lemma_fixed_sqrt_nonnegative(a: int)
    requires
        0 <= a < 0x8000_0000_0000_0000,
    ensures
        fixed_sqrt(a) >= 0,
        a > 0 ==> is_floor_sqrt(a * 65536, fixed_sqrt(a)),
{
    if a > 0 {
        lemma_floor_sqrt_exists(a * 65536, 0, 0x100_0000_0000);
    }
}

/// Between a lower guess whose square does not exceed `n` and an upper
/// guess whose square does, there is a rounded-down square root of `n`.
pub proof fn lemma_floor_sqrt_exists(n: int, lo: int, hi: int)
    requires
        0 <= lo < hi,
        lo * lo <= n < hi * hi,
    ensures
        is_floor_sqrt(n, floor_sqrt(n)),
        lo <= floor_sqrt(n) < hi,
    decreases hi - lo,
{
    if hi == lo + 1 {
        assert(is_floor_sqrt(n, lo));
    } else {
        let mid = lo + (hi - lo) / 2;
        if mid * mid <= n {
            lemma_floor_sqrt_exists(n, mid, hi);
        } else {
            lemma_floor_sqrt_exists(n, lo, mid);
        }
    }
    let r = floor_sqrt(n);
    if r < lo {
        assert((r + 1) * (r + 1) <= lo * lo) by (nonlinear_arith)
            requires
                0 <= r + 1 <= lo,
        ;
    }
    if r >= hi {
        assert(hi * hi <= r * r) by (nonlinear_arith)
            requires
                0 <= hi <= r,
        ;
    }
}

} // verus!
