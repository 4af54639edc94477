//! Fixed-point arithmetic shared by every module.
//!
//! A physical quantity is an `i64` counting billionths of its SI unit:
//! nanometres, nanoradians, nanoseconds, nanonewtons. Intermediate products
//! are `i128`; each quotient is rounded once, to nearest, halves away from
//! zero, so that negating an input negates the result.
use vstd::prelude::*;

verus! {

/// One whole unit (one metre, radian, second, ...).
pub const ONE: i64 = 1_000_000_000;

pub open spec fn spec_abs(x: int) -> int {
    if x < 0 {
        -x
    } else {
        x
    }
}

pub open spec fn spec_min(a: int, b: int) -> int {
    if a <= b {
        a
    } else {
        b
    }
}

pub open spec fn spec_max(a: int, b: int) -> int {
    if a >= b {
        a
    } else {
        b
    }
}

/// `x` brought into `[lo, hi]`.
pub open spec fn spec_clamp(x: int, lo: int, hi: int) -> int {
    if x < lo {
        lo
    } else if x > hi {
        hi
    } else {
        x
    }
}

/// `x` brought into the range of `i64`.
pub open spec fn sat(x: int) -> int {
    spec_clamp(x, i64::MIN as int, i64::MAX as int)
}

/// The integer nearest to `n / d`, halves away from zero.
pub open spec fn round_div(n: int, d: int) -> int {
    if n >= 0 {
        (2 * n + d) / (2 * d)
    } else {
        -((2 * (-n) + d) / (2 * d))
    }
}

/// The product of two fixed-point numbers.
pub open spec fn fmul(a: int, b: int) -> int {
    round_div(a * b, ONE as int)
}

/// The point `num / den` of the way from `a` to `b`.
pub open spec fn lerp(a: int, b: int, num: int, den: int) -> int {
    a + round_div((b - a) * num, den)
}

/// The largest integer whose square does not exceed `n`.
pub open spec fn is_isqrt(n: int, r: int) -> bool {
    &&& 0 <= r
    &&& r * r <= n
    &&& n < (r + 1) * (r + 1)
}

pub proof fn lemma_isqrt_unique(n: int, r: int, s: int)
    requires
        is_isqrt(n, r),
        is_isqrt(n, s),
    ensures
        r == s,
{
    if r < s {
        assert((r + 1) * (r + 1) <= s * s) by (nonlinear_arith)
            requires
                0 <= r,
                r + 1 <= s,
        ;
    }
    if s < r {
        assert((s + 1) * (s + 1) <= r * r) by (nonlinear_arith)
            requires
                0 <= s,
                s + 1 <= r,
        ;
    }
}

/// The integer square root of `n`.
pub open spec fn isqrt(n: int) -> int {
    choose|r: int| is_isqrt(n, r)
}

/// An integer whose square does not exceed `n` does not exceed its root.
pub proof fn lemma_isqrt_bound(n: int, r: int, k: int)
    requires
        is_isqrt(n, r),
        k * k <= n,
    ensures
        spec_abs(k) <= r,
{
    let a = spec_abs(k);
    assert(a * a == k * k) by (nonlinear_arith)
        requires
            a == k || a == -k,
    ;
    if a > r {
        assert((r + 1) * (r + 1) <= a * a) by (nonlinear_arith)
            requires
                0 <= r,
                r + 1 <= a,
        ;
    }
}

/// What `round_div` means: twice its distance from `n / d` is at most one.
pub proof fn lemma_round_div_near(n: int, d: int)
    requires
        d > 0,
    ensures
        -d <= 2 * (round_div(n, d) * d - n) <= d,
        n >= 0 ==> round_div(n, d) >= 0,
        n <= 0 ==> round_div(n, d) <= 0,
{
    let m = if n >= 0 {
        n
    } else {
        -n
    };
    let q = (2 * m + d) / (2 * d);
    assert(2 * d * q <= 2 * m + d < 2 * d * q + 2 * d && q >= 0) by (nonlinear_arith)
        requires
            d > 0,
            m >= 0,
            q == (2 * m + d) / (2 * d),
    ;
    assert(m == 0 ==> q == 0) by (nonlinear_arith)
        requires
            d > 0,
            2 * d * q <= 2 * m + d,
            q >= 0,
    ;
    assert(2 * d * q == 2 * (q * d)) by (nonlinear_arith);
    assert((-q) * d == -(q * d)) by (nonlinear_arith);
}

/// Negating the dividend negates the quotient.
pub proof fn lemma_round_div_odd(n: int, d: int)
    requires
        d > 0,
    ensures
        round_div(-n, d) == -round_div(n, d),
{
    lemma_round_div_near(0, d);
}

/// A multiple of the divisor divides without rounding.
pub proof fn lemma_round_div_exact(k: int, d: int)
    requires
        d > 0,
    ensures
        round_div(k * d, d) == k,
{
    lemma_round_div_near(k * d, d);
    let q = round_div(k * d, d);
    assert(-d <= 2 * ((q - k) * d) <= d) by {
        assert((q - k) * d == q * d - k * d) by (nonlinear_arith);
    }
    assert(q == k) by (nonlinear_arith)
        requires
            d > 0,
            -d <= 2 * ((q - k) * d) <= d,
    ;
}

/// A larger dividend never has a smaller quotient.
pub proof fn lemma_round_div_mono(a: int, b: int, d: int)
    requires
        d > 0,
        a <= b,
    ensures
        round_div(a, d) <= round_div(b, d),
{
    lemma_round_div_near(a, d);
    lemma_round_div_near(b, d);
    if a >= 0 {
        assert((2 * a + d) / (2 * d) <= (2 * b + d) / (2 * d)) by (nonlinear_arith)
            requires
                d > 0,
                0 <= a <= b,
        ;
    } else if b < 0 {
        assert((2 * (-b) + d) / (2 * d) <= (2 * (-a) + d) / (2 * d)) by (nonlinear_arith)
            requires
                d > 0,
                0 <= -b <= -a,
        ;
    }
}

/// A point part of the way between two ends lies between them, and the ends
/// themselves are met exactly.
pub proof fn lemma_lerp(a: int, b: int, num: int, den: int)
    requires
        den > 0,
        0 <= num <= den,
    ensures
        a <= b ==> a <= lerp(a, b, num, den) <= b,
        b <= a ==> b <= lerp(a, b, num, den) <= a,
        num == 0 ==> lerp(a, b, num, den) == a,
        num == den ==> lerp(a, b, num, den) == b,
{
    let k = b - a;
    lemma_round_div_exact(k, den);
    lemma_round_div_exact(0, den);
    assert(0 * den == 0);
    if k >= 0 {
        assert(0 <= k * num <= k * den) by (nonlinear_arith)
            requires
                k >= 0,
                0 <= num <= den,
        ;
        lemma_round_div_mono(0, k * num, den);
        lemma_round_div_mono(k * num, k * den, den);
    }
    if k <= 0 {
        assert(k * den <= k * num <= 0) by (nonlinear_arith)
            requires
                k <= 0,
                0 <= num <= den,
        ;
        lemma_round_div_mono(k * num, 0, den);
        lemma_round_div_mono(k * den, k * num, den);
    }
    assert(num == 0 ==> k * num == 0) by (nonlinear_arith);
}

pub fn abs(x: i64) -> (r: i128)
    ensures
        r == spec_abs(x as int),
{
    if x < 0 {
        -(x as i128)
    } else {
        x as i128
    }
}

pub fn max(a: i64, b: i64) -> (r: i64)
    ensures
        r == spec_max(a as int, b as int),
{
    if a >= b {
        a
    } else {
        b
    }
}

pub fn clamp(x: i64, lo: i64, hi: i64) -> (r: i64)
    ensures
        r == spec_clamp(x as int, lo as int, hi as int),
{
    if x < lo {
        lo
    } else if x > hi {
        hi
    } else {
        x
    }
}

/// `x`, or the nearest end of the range of `i64`.
pub fn saturate(x: i128) -> (r: i64)
    ensures
        r == sat(x as int),
{
    if x < i64::MIN as i128 {
        i64::MIN
    } else if x > i64::MAX as i128 {
        i64::MAX
    } else {
        x as i64
    }
}

/// Division to nearest.
pub fn div_round(n: i128, d: i128) -> (r: i128)
    requires
        d > 0,
        n > i128::MIN,
    ensures
        r == round_div(n as int, d as int),
{
    let q: i128 = n / d;
    let m: i128 = n % d;
    proof {
        lemma_round_div_near(n as int, d as int);
    }
    let ghost a = spec_abs(n as int);
    let ghost aq = spec_abs(q as int);
    let ghost am = spec_abs(m as int);
    assert(aq == a / (d as int) && am == a % (d as int));
    assert(a == aq * d + am && 0 <= am < d && 0 <= aq <= a) by (nonlinear_arith)
        requires
            d > 0,
            a >= 0,
            aq == a / (d as int),
            am == a % (d as int),
    ;
    assert(2 * am >= d ==> (2 * a + d) / (2 * d as int) == aq + 1) by (nonlinear_arith)
        requires
            d > 0,
            a == aq * d + am,
            0 <= am < d,
            0 <= aq,
    ;
    assert(2 * am < d ==> (2 * a + d) / (2 * d as int) == aq) by (nonlinear_arith)
        requires
            d > 0,
            a == aq * d + am,
            0 <= am < d,
            0 <= aq,
    ;
    assert(2 * am >= d ==> aq < a || a == 0) by (nonlinear_arith)
        requires
            d > 0,
            a == aq * d + am,
            0 <= am < d,
            0 <= aq,
    ;
    if m >= 0 {
        if m >= d - m {
            q + 1
        } else {
            q
        }
    } else if -m >= d + m {
        q - 1
    } else {
        q
    }
}

/// The product of two fixed-point numbers, held at the ends of the range.
pub fn times(a: i64, b: i64) -> (r: i64)
    ensures
        r == sat(fmul(a as int, b as int)),
{
    assert(-0x4000_0000_0000_0000_0000_0000_0000_0000 <= a * b
        <= 0x4000_0000_0000_0000_0000_0000_0000_0000) by (nonlinear_arith)
        requires
            -0x8000_0000_0000_0000 <= a <= 0x7fff_ffff_ffff_ffff,
            -0x8000_0000_0000_0000 <= b <= 0x7fff_ffff_ffff_ffff,
    ;
    saturate(div_round(a as i128 * b as i128, ONE as i128))
}

/// The point `num / den` of the way from `a` to `b`.
pub fn mix(a: i64, b: i64, num: i64, den: i128) -> (r: i64)
    requires
        0 <= num <= den,
        den > 0,
    ensures
        r == lerp(a as int, b as int, num as int, den as int),
{
    mix_wide(a, b, num as i128, den)
}

fn mix_wide(a: i64, b: i64, num: i128, den: i128) -> (r: i64)
    requires
        0 <= num <= den,
        den > 0,
        num <= 0x8000_0000_0000_0000,
    ensures
        r == lerp(a as int, b as int, num as int, den as int),
{
    let k: i128 = b as i128 - a as i128;
    assert(-0x7fff_ffff_ffff_ffff_ffff_ffff_ffff_ffff <= k * num
        <= 0x7fff_ffff_ffff_ffff_ffff_ffff_ffff_ffff) by (nonlinear_arith)
        requires
            -0xffff_ffff_ffff_ffff <= k <= 0xffff_ffff_ffff_ffff,
            0 <= num <= 0x8000_0000_0000_0000,
    ;
    proof {
        lemma_lerp(a as int, b as int, num as int, den as int);
    }
    let step: i128 = div_round(k * num, den);
    (a as i128 + step) as i64
}

/// `a` moved toward `b` by the share `dt / tau`, held between none of the way
/// and all of it. A time constant of 0 arrives at once.
pub open spec fn spec_ease(a: int, b: int, dt: int, tau: int) -> int {
    if tau > 0 {
        lerp(a, b, spec_clamp(dt, 0, tau), tau)
    } else if tau < 0 {
        lerp(a, b, spec_clamp(-dt, 0, -tau), -tau)
    } else if dt > 0 {
        b
    } else {
        a
    }
}

/// One step of a first-order low pass.
pub fn ease(a: i64, b: i64, dt: i64, tau: i64) -> (r: i64)
    ensures
        r == spec_ease(a as int, b as int, dt as int, tau as int),
{
    if tau == 0 {
        if dt > 0 {
            b
        } else {
            a
        }
    } else {
        let (num, den): (i128, i128) = if tau > 0 {
            (dt as i128, tau as i128)
        } else {
            (-(dt as i128), -(tau as i128))
        };
        let held: i128 = if num < 0 {
            0
        } else if num > den {
            den
        } else {
            num
        };
        mix_wide(a, b, held, den)
    }
}

/// The integer square root.
pub fn sqrt(n: u128) -> (r: u64)
    ensures
        is_isqrt(n as int, r as int),
        r == isqrt(n as int),
{
    let mut lo: u64 = 0;
    let mut hi: u64 = u64::MAX;
    while lo < hi
        invariant
            lo <= hi,
            lo * lo <= n,
            n < (hi + 1) * (hi + 1),
        decreases hi - lo,
    {
        let half: u64 = (hi - lo) / 2;
        let mid: u64 = hi - half;
        assert(lo < mid <= hi);
        assert(mid * mid <= u128::MAX) by (nonlinear_arith)
            requires
                0 <= mid <= 0xffff_ffff_ffff_ffff,
        ;
        if mid as u128 * mid as u128 <= n {
            lo = mid;
        } else {
            assert((mid - 1 + 1) * (mid - 1 + 1) == mid * mid);
            hi = mid - 1;
        }
    }
    proof {
        lemma_isqrt_unique(n as int, lo as int, isqrt(n as int));
    }
    lo
}

/// The squared length of a vector.
pub open spec fn norm_sq(a: [i64; 3]) -> int {
    a[0] * a[0] + a[1] * a[1] + a[2] * a[2]
}

/// The squared length of a vector.
pub fn length_sq(a: &[i64; 3]) -> (r: u128)
    ensures
        r == norm_sq(*a),
{
    square(a[0]) + square(a[1]) + square(a[2])
}

/// The square of one component.
pub fn square(x: i64) -> (r: u128)
    ensures
        r == x * x,
        r <= 0x4000_0000_0000_0000_0000_0000_0000_0000,
{
    let m: u128 = abs(x) as u128;
    assert(m * m == x * x && m * m <= 0x4000_0000_0000_0000_0000_0000_0000_0000)
        by (nonlinear_arith)
        requires
            m == x || m == -x,
            0 <= m <= 0x8000_0000_0000_0000,
    ;
    m * m
}

/// Every natural number has an integer square root.
pub proof fn lemma_isqrt_is(n: int)
    requires
        n >= 0,
    ensures
        is_isqrt(n, isqrt(n)),
    decreases n,
{
    if n == 0 {
        assert(is_isqrt(0, 0));
    } else {
        lemma_isqrt_is(n - 1);
        let r = isqrt(n - 1);
        if n < (r + 1) * (r + 1) {
            assert(is_isqrt(n, r));
        } else {
            assert((r + 1) * (r + 1) < (r + 2) * (r + 2)) by (nonlinear_arith)
                requires
                    r >= 0,
            ;
            assert(is_isqrt(n, r + 1));
        }
    }
}

/// The integer square root does not decrease.
pub proof fn lemma_isqrt_mono(a: int, b: int)
    requires
        0 <= a <= b,
    ensures
        0 <= isqrt(a) <= isqrt(b),
{
    lemma_isqrt_is(a);
    lemma_isqrt_is(b);
    let (r, s) = (isqrt(a), isqrt(b));
    if s < r {
        assert((s + 1) * (s + 1) <= r * r) by (nonlinear_arith)
            requires
                0 <= s + 1 <= r,
        ;
    }
}

/// `a + b`, held at the ends of the range.
pub fn plus(a: i64, b: i64) -> (r: i64)
    ensures
        r == sat(a + b),
{
    saturate(a as i128 + b as i128)
}

/// `a - b`, held at the ends of the range.
pub fn minus(a: i64, b: i64) -> (r: i64)
    ensures
        r == sat(a - b),
{
    saturate(a as i128 - b as i128)
}

/// The gain `k` times a difference of two fixed-point numbers.
pub fn scaled(k: i64, d: i128) -> (r: i128)
    requires
        -0xffff_ffff_ffff_ffff <= d <= 0xffff_ffff_ffff_ffff,
    ensures
        r == fmul(k as int, d as int),
        -0x10_0000_0000_0000_0000_0000_0000 <= r <= 0x10_0000_0000_0000_0000_0000_0000,
{
    assert(-0x7fff_ffff_ffff_ffff_8000_0000_0000_0000 <= k * d
        <= 0x7fff_ffff_ffff_ffff_8000_0000_0000_0000) by (nonlinear_arith)
        requires
            -0x8000_0000_0000_0000 <= k <= 0x7fff_ffff_ffff_ffff,
            -0xffff_ffff_ffff_ffff <= d <= 0xffff_ffff_ffff_ffff,
    ;
    let n: i128 = k as i128 * d;
    proof {
        lemma_round_div_mono(n as int, 0x10_0000_0000_0000_0000_0000_0000 * ONE, ONE as int);
        lemma_round_div_mono(-0x10_0000_0000_0000_0000_0000_0000 * ONE, n as int, ONE as int);
        lemma_round_div_exact(0x10_0000_0000_0000_0000_0000_0000, ONE as int);
        lemma_round_div_exact(-0x10_0000_0000_0000_0000_0000_0000, ONE as int);
    }
    div_round(n, ONE as i128)
}

/// The quotient of two fixed-point numbers.
pub open spec fn fdiv(a: int, b: int) -> int {
    round_div(a * ONE, b)
}

/// The quotient of two fixed-point numbers, held at the ends of the range.
pub fn ratio(a: i64, b: i64) -> (r: i64)
    requires
        b > 0,
    ensures
        r == sat(fdiv(a as int, b as int)),
{
    assert(-0x4000_0000_0000_0000_0000_0000_0000_0000 <= a * ONE
        <= 0x4000_0000_0000_0000_0000_0000_0000_0000) by (nonlinear_arith)
        requires
            -0x8000_0000_0000_0000 <= a <= 0x7fff_ffff_ffff_ffff,
            ONE == 1_000_000_000,
    ;
    let n: i128 = a as i128 * ONE as i128;
    saturate(div_round(n, b as i128))
}

/// `x` held at the top of the range of `u128`.
pub open spec fn cap(x: int) -> int {
    spec_min(x, u128::MAX as int)
}

/// `a + b`, held at the top of the range.
pub fn pile(a: u128, b: u128) -> (r: u128)
    ensures
        r == cap(a + b),
{
    if a <= u128::MAX - b {
        a + b
    } else {
        u128::MAX
    }
}

/// The square of a difference.
pub fn square_gap(a: i64, b: i64) -> (r: u128)
    ensures
        r == (a - b) * (a - b),
{
    let d: i128 = a as i128 - b as i128;
    let m: u128 = if d >= 0 {
        d as u128
    } else {
        (-d) as u128
    };
    assert(m * m == (a - b) * (a - b) && m * m <= 0xffff_ffff_ffff_fffe_0000_0000_0000_0001)
        by (nonlinear_arith)
        requires
            m == a - b || m == b - a,
            0 <= m <= 0xffff_ffff_ffff_ffff,
    ;
    m * m
}

/// The integer square root, held at the top of the range of `i64`.
pub fn root(n: u128) -> (r: i64)
    ensures
        r == sat(isqrt(n as int)),
{
    let q: u64 = sqrt(n);
    if q > i64::MAX as u64 {
        i64::MAX
    } else {
        q as i64
    }
}

/// Clamping leaves what is inside alone and brings the rest to the nearer
/// end.
pub proof fn law_clamp(x: int, lo: int, hi: int)
    requires
        lo <= hi,
    ensures
        lo <= x <= hi ==> spec_clamp(x, lo, hi) == x,
        x < lo ==> spec_clamp(x, lo, hi) == lo,
        x > hi ==> spec_clamp(x, lo, hi) == hi,
{
}

/// Saturation leaves every `i64` alone and brings the rest to the nearer end.
pub proof fn law_saturation(x: int)
    ensures
        -0x8000_0000_0000_0000 <= x <= 0x7fff_ffff_ffff_ffff ==> sat(x) == x,
        x < -0x8000_0000_0000_0000 ==> sat(x) == -0x8000_0000_0000_0000,
        x > 0x7fff_ffff_ffff_ffff ==> sat(x) == 0x7fff_ffff_ffff_ffff,
{
}

/// A product of two fixed-point numbers is off by half a billionth at most.
pub proof fn law_product_is_near(a: int, b: int)
    ensures
        -1_000_000_000 <= 2 * (fmul(a, b) * 1_000_000_000 - a * b) <= 1_000_000_000,
        a * b >= 0 ==> fmul(a, b) >= 0,
        a * b <= 0 ==> fmul(a, b) <= 0,
{
    lemma_round_div_near(a * b, ONE as int);
}

/// A quotient of two fixed-point numbers is off by half a billionth at most.
pub proof fn law_quotient_is_near(a: int, b: int)
    requires
        b > 0,
    ensures
        -b <= 2 * (fdiv(a, b) * b - a * 1_000_000_000) <= b,
{
    lemma_round_div_near(a * ONE, b);
}

/// A point part of the way is off by half a unit at most.
pub proof fn law_share_is_near(a: int, b: int, num: int, den: int)
    requires
        den > 0,
    ensures
        -den <= 2 * ((lerp(a, b, num, den) - a) * den - (b - a) * num) <= den,
{
    lemma_round_div_near((b - a) * num, den);
}

/// A low pass moves by the share `dt / tau` of the distance, not at all when
/// no time has passed, and all the way once the time constant has.
pub proof fn law_ease(a: int, b: int, dt: int, tau: int)
    requires
        tau > 0,
    ensures
        0 <= dt <= tau ==> -tau <= 2 * ((spec_ease(a, b, dt, tau) - a) * tau - (b - a) * dt) <= tau,
        dt <= 0 ==> spec_ease(a, b, dt, tau) == a,
        dt >= tau ==> spec_ease(a, b, dt, tau) == b,
{
    law_share_is_near(a, b, spec_clamp(dt, 0, tau), tau);
    lemma_lerp(a, b, spec_clamp(dt, 0, tau), tau);
}

/// The integer square root squared is the largest square that fits.
pub proof fn law_root(n: int)
    requires
        n >= 0,
    ensures
        isqrt(n) >= 0,
        isqrt(n) * isqrt(n) <= n,
        n < (isqrt(n) + 1) * (isqrt(n) + 1),
{
    lemma_isqrt_is(n);
}

/// A vector's squared length counts all three components alike.
pub proof fn law_length(a: [i64; 3])
    ensures
        norm_sq(a) == a[0] * a[0] + a[1] * a[1] + a[2] * a[2],
        norm_sq(a) >= 0,
{
    let (x, y, z) = (a[0] as int, a[1] as int, a[2] as int);
    assert(x * x >= 0 && y * y >= 0 && z * z >= 0) by (nonlinear_arith);
}

} // verus!
