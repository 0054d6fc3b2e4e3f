use vstd::prelude::*;
use vstd::arithmetic::div_mod::lemma_div_is_ordered;

verus! {

/// Fixed-point scale for trigonometric values: 65536 stands for 1.0.
pub const FP: i64 = 65536;

pub open spec fn spec_abs(d: int) -> int {
    if d < 0 {
        -d
    } else {
        d
    }
}

/// Milli-degrees converted to fixed-point radians (65536 per radian):
/// multiply by pi * 65536 / 180000.
pub open spec fn spec_rad_fp(a: int) -> int {
    (a * 11438356) / 10000000
}

/// Fixed-point cosine of an angle in milli-degrees, by the even Taylor terms
/// through the sixth power, computed on the angle's absolute value.
pub open spec fn spec_cos_fp(d: int) -> int {
    let x = spec_rad_fp(spec_abs(d));
    let t = (x * x) / 65536;
    let u = (t * t) / 65536;
    let v = (u * t) / 65536;
    65536 - t / 2 + u / 24 - v / 720
}

/// Fixed-point sine of an angle in milli-degrees, by the odd Taylor terms
/// through the fifth power; odd in its argument.
pub open spec fn spec_sin_fp(d: int) -> int {
    let x = spec_rad_fp(spec_abs(d));
    let t = (x * x) / 65536;
    let u = (t * t) / 65536;
    let s = x - ((x * t) / 65536) / 6 + ((x * u) / 65536) / 120;
    if d < 0 {
        -s
    } else {
        s
    }
}

/// Rounding a fixed-point value to the nearest integer, half away from zero.
pub open spec fn spec_round_fp(v: int) -> int {
    if v >= 0 {
        (v + 32768) / 65536
    } else {
        -(((-v) + 32768) / 65536)
    }
}

/// Fixed-point cosine of `d` milli-degrees.
pub fn cos_fp(d: i64) -> (r: i64)
    requires
        -90000 <= d <= 90000,
    ensures
        r == spec_cos_fp(d as int),
        -131072 <= r <= 131072,
        d == 0 ==> r == 65536,
{
    let a: u64 = if d < 0 {
        (-d) as u64
    } else {
        d as u64
    };
    let x: u64 = (a * 11438356) / 10000000;
    proof {
        lemma_div_is_ordered((a * 11438356) as int, 90000int * 11438356, 10000000);
    }
    assert(x <= 102946);
    proof {
        assert(x * x <= 102946 * 102946) by (nonlinear_arith)
            requires
                x <= 102946,
        ;
    }
    let t: u64 = (x * x) / 65536;
    proof {
        lemma_div_is_ordered((x * x) as int, 102946int * 102946, 65536);
    }
    assert(t <= 161711);
    proof {
        assert(t * t <= 161711 * 161711) by (nonlinear_arith)
            requires
                t <= 161711,
        ;
    }
    let u: u64 = (t * t) / 65536;
    proof {
        lemma_div_is_ordered((t * t) as int, 161711int * 161711, 65536);
    }
    assert(u <= 399024);
    proof {
        assert(u * t <= 399024 * 161711) by (nonlinear_arith)
            requires
                u <= 399024,
                t <= 161711,
        ;
    }
    let v: u64 = (u * t) / 65536;
    proof {
        lemma_div_is_ordered((u * t) as int, 399024int * 161711, 65536);
    }
    assert(v <= 984599);
    let r: i64 = 65536i64 - (t / 2) as i64 + (u / 24) as i64 - (v / 720) as i64;
    proof {
        if d == 0 {
            assert(0int / 10000000 == 0 && 0int / 65536 == 0 && 0int / 2 == 0 && 0int / 24 == 0
                && 0int / 720 == 0) by (nonlinear_arith);
            assert(spec_abs(0) == 0);
            assert(0int * 11438356 == 0);
            assert(spec_rad_fp(0) == 0);
            assert(0int * 0 == 0) by (nonlinear_arith);
            assert(spec_cos_fp(0) == 65536);
        }
    }
    r
}

/// Fixed-point sine of `d` milli-degrees.
pub fn sin_fp(d: i64) -> (r: i64)
    requires
        -90000 <= d <= 90000,
    ensures
        r == spec_sin_fp(d as int),
        -131072 <= r <= 131072,
        d == 0 ==> r == 0,
{
    let a: u64 = if d < 0 {
        (-d) as u64
    } else {
        d as u64
    };
    let x: u64 = (a * 11438356) / 10000000;
    proof {
        lemma_div_is_ordered((a * 11438356) as int, 90000int * 11438356, 10000000);
    }
    assert(x <= 102946);
    proof {
        assert(x * x <= 102946 * 102946) by (nonlinear_arith)
            requires
                x <= 102946,
        ;
    }
    let t: u64 = (x * x) / 65536;
    proof {
        lemma_div_is_ordered((x * x) as int, 102946int * 102946, 65536);
    }
    assert(t <= 161711);
    proof {
        assert(t * t <= 161711 * 161711) by (nonlinear_arith)
            requires
                t <= 161711,
        ;
    }
    let u: u64 = (t * t) / 65536;
    proof {
        lemma_div_is_ordered((t * t) as int, 161711int * 161711, 65536);
        assert(x * t <= 102946 * 161711) by (nonlinear_arith)
            requires
                x <= 102946,
                t <= 161711,
        ;
        assert(x * u <= 102946 * 399024) by (nonlinear_arith)
            requires
                x <= 102946,
                u <= 399024,
        ;
    }
    assert(u <= 399024);
    let xt: u64 = (x * t) / 65536;
    let xu: u64 = (x * u) / 65536;
    proof {
        lemma_div_is_ordered((x * t) as int, 102946int * 161711, 65536);
        lemma_div_is_ordered((x * u) as int, 102946int * 399024, 65536);
    }
    assert(xt <= 254033);
    assert(xu <= 626830);
    let s: i64 = x as i64 - (xt / 6) as i64 + (xu / 120) as i64;
    proof {
        if d == 0 {
            assert(0int / 10000000 == 0 && 0int / 65536 == 0 && 0int / 6 == 0 && 0int / 120 == 0)
                by (nonlinear_arith);
            assert(spec_abs(0) == 0);
            assert(0int * 11438356 == 0);
            assert(spec_rad_fp(0) == 0);
            assert(0int * 0 == 0) by (nonlinear_arith);
            assert(spec_sin_fp(0) == 0);
        }
    }
    if d < 0 {
        -s
    } else {
        s
    }
}

/// Round a fixed-point value to the nearest integer, half away from zero.
pub fn round_fp(v: i64) -> (r: i64)
    requires
        -4000000000000 <= v <= 4000000000000,
    ensures
        r == spec_round_fp(v as int),
        -70000000 <= r <= 70000000,
{
    if v >= 0 {
        let q: u64 = ((v as u64) + 32768) / 65536;
        proof {
            lemma_div_is_ordered((v + 32768) as int, 4000000032768int, 65536);
        }
        q as i64
    } else {
        let q: u64 = (((-v) as u64) + 32768) / 65536;
        proof {
            lemma_div_is_ordered(((-v) + 32768) as int, 4000000032768int, 65536);
        }
        -(q as i64)
    }
}

/// Truncating conversion from milli-pixels to whole pixels, rounding toward
/// zero as a float-to-integer cast does.
pub open spec fn spec_milli_to_px(v: int) -> int {
    if v < 0 {
        -((-v) / 1000)
    } else {
        v / 1000
    }
}

/// Convert milli-pixels to whole pixels, truncating toward zero.
pub fn milli_to_px(v: i64) -> (r: i64)
    requires
        -4000000000000 <= v <= 4000000000000,
    ensures
        r == spec_milli_to_px(v as int),
        -4000000000 <= r <= 4000000000,
{
    if v < 0 {
        let q: u64 = ((-v) as u64) / 1000;
        proof {
            lemma_div_is_ordered((-v) as int, 4000000000000int, 1000);
        }
        -(q as i64)
    } else {
        let q: u64 = (v as u64) / 1000;
        proof {
            lemma_div_is_ordered(v as int, 4000000000000int, 1000);
        }
        q as i64
    }
}

/// A milli-pixel value within `1000 * b` converts to a pixel value within
/// `b`.
pub proof fn lemma_milli_to_px_bound(v: int, b: int)
    requires
        0 <= b,
        -(1000 * b) <= v <= 1000 * b,
    ensures
        -b <= spec_milli_to_px(v) <= b,
{
    if v < 0 {
        lemma_div_is_ordered(-v, 1000 * b, 1000);
        assert((1000 * b) / 1000 == b) by (nonlinear_arith);
        assert(0 <= (-v) / 1000) by (nonlinear_arith)
            requires
                0 <= -v,
        ;
    } else {
        lemma_div_is_ordered(v, 1000 * b, 1000);
        assert((1000 * b) / 1000 == b) by (nonlinear_arith);
        assert(0 <= v / 1000) by (nonlinear_arith)
            requires
                0 <= v,
        ;
    }
}

/// Absolute value of a bounded fixed-point quantity.
pub fn abs_fp(v: i64) -> (r: i64)
    requires
        -4000000000000 <= v <= 4000000000000,
    ensures
        r == spec_abs(v as int),
{
    if v < 0 {
        -v
    } else {
        v
    }
}

/// The integer square root: the largest `r` with `r * r <= n`.
pub open spec fn spec_isqrt(n: int) -> int
    decreases n,
{
    if n <= 0 {
        0
    } else {
        let p = spec_isqrt(n - 1);
        if (p + 1) * (p + 1) <= n {
            p + 1
        } else {
            p
        }
    }
}

/// `spec_isqrt` is sandwiched between the adjacent squares.
pub proof fn lemma_spec_isqrt_bounds(n: int)
    requires
        n >= 0,
    ensures
        spec_isqrt(n) >= 0,
        spec_isqrt(n) * spec_isqrt(n) <= n,
        n < (spec_isqrt(n) + 1) * (spec_isqrt(n) + 1),
    decreases n,
{
    if n > 0 {
        lemma_spec_isqrt_bounds(n - 1);
        let p = spec_isqrt(n - 1);
        if (p + 1) * (p + 1) <= n {
            assert((p + 1 + 1) * (p + 1 + 1) > (p + 1) * (p + 1)) by (nonlinear_arith)
                requires
                    p >= 0,
            ;
        }
    }
}

/// Two values sandwiched between the same adjacent squares are equal.
proof fn lemma_isqrt_unique(n: int, a: int, b: int)
    requires
        a >= 0,
        b >= 0,
        a * a <= n < (a + 1) * (a + 1),
        b * b <= n < (b + 1) * (b + 1),
    ensures
        a == b,
{
    if a < b {
        assert((a + 1) * (a + 1) <= b * b) by (nonlinear_arith)
            requires
                0 <= a + 1 <= b,
        ;
    }
    if b < a {
        assert((b + 1) * (b + 1) <= a * a) by (nonlinear_arith)
            requires
                0 <= b + 1 <= a,
        ;
    }
}

/// Integer square root: the largest `r` with `r * r <= n`.
pub fn isqrt(n: u64) -> (r: u64)
    ensures
        r * r <= n,
        n < (r + 1) * (r + 1),
        r == spec_isqrt(n as int),
{
    let mut lo: u64 = 0;
    let mut hi: u64 = 4294967296;
    proof {
        assert(4294967296int * 4294967296 > u64::MAX as int) by (nonlinear_arith);
    }
    while lo + 1 < hi
        invariant
            lo < hi <= 4294967296,
            lo * lo <= n,
            n < hi * hi,
        decreases hi - lo,
    {
        let mid: u64 = lo + (hi - lo) / 2;
        proof {
            assert(lo < mid < hi) by (nonlinear_arith)
                requires
                    mid == lo + (hi - lo) / 2,
                    lo + 1 < hi,
            ;
            assert(mid * mid <= 4294967295int * 4294967295) by (nonlinear_arith)
                requires
                    mid <= 4294967295,
            ;
        }
        if mid * mid <= n {
            lo = mid;
        } else {
            hi = mid;
        }
    }
    proof {
        lemma_spec_isqrt_bounds(n as int);
        lemma_isqrt_unique(n as int, lo as int, spec_isqrt(n as int));
    }
    lo
}

} // verus!
