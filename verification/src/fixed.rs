//! Fixed-point scalar arithmetic.
//!
//! Every scalar of the renderer is an `i64` holding a real value scaled by
//! `SCALE` (so `SCALE` itself denotes 1.0). Multiplication, division and
//! square root round toward zero; each executable operation is proved to
//! return exactly the value of its mathematical counterpart over `int`.

use vstd::prelude::*;

verus! {

/// Scale of the fixed-point representation: an `i64` value `v` denotes the
/// real number `v / SCALE`.
pub const SCALE: i64 = 65536;

/// Truncating (round-toward-zero) division, for a positive divisor.
pub open spec fn tdiv(a: int, b: int) -> int
    recommends
        b > 0,
{
    if a >= 0 {
        a / b
    } else {
        -((-a) / b)
    }
}

/// Value of the product of two fixed-point scalars.
pub open spec fn fmul(a: int, b: int) -> int {
    tdiv(a * b, 65536)
}

/// Value of the quotient of two fixed-point scalars, for a positive divisor.
pub open spec fn fdiv(a: int, b: int) -> int
    recommends
        b > 0,
{
    tdiv(a * 65536, b)
}

/// Floor of the square root of a nonnegative integer.
pub open spec fn sqrt_floor(n: int) -> int
    recommends
        n >= 0,
{
    choose|r: int| 0 <= r && #[trigger] (r * r) <= n && n < (r + 1) * (r + 1)
}

/// Fixed-point square root: for `a` denoting `a / SCALE`, the result denotes
/// the truncated square root `sqrt(a / SCALE)`.
pub open spec fn fsqrt(a: int) -> int {
    sqrt_floor(a * 65536)
}

/// Whether `v` lies within the symmetric bound `m`.
pub open spec fn in_b(v: int, m: int) -> bool {
    -m <= v <= m
}

proof fn lemma_sqrt_floor_exists(n: int) -> (r: int)
    requires
        n >= 0,
    ensures
        0 <= r,
        r * r <= n,
        n < (r + 1) * (r + 1),
    decreases n,
{
    if n == 0 {
        0
    } else {
        let r0 = lemma_sqrt_floor_exists(n - 1);
        if (r0 + 1) * (r0 + 1) <= n {
            assert(n == (r0 + 1) * (r0 + 1));
            assert(n < (r0 + 2) * (r0 + 2)) by (nonlinear_arith)
                requires
                    n == (r0 + 1) * (r0 + 1),
                    r0 >= 0,
            ;
            r0 + 1
        } else {
            r0
        }
    }
}

/// The square-root floor is unique: any `r` with `r * r <= n < (r+1) * (r+1)`
/// is the one `sqrt_floor` denotes.
pub proof fn lemma_sqrt_floor_unique(n: int, r: int)
    requires
        n >= 0,
        0 <= r,
        r * r <= n,
        n < (r + 1) * (r + 1),
    ensures
        sqrt_floor(n) == r,
{
    let w = lemma_sqrt_floor_exists(n);
    assert(0 <= w && w * w <= n && n < (w + 1) * (w + 1));
    let s = sqrt_floor(n);
    assert(0 <= s && s * s <= n && n < (s + 1) * (s + 1));
    assert(s == r) by (nonlinear_arith)
        requires
            0 <= r,
            r * r <= n,
            n < (r + 1) * (r + 1),
            0 <= s,
            s * s <= n,
            n < (s + 1) * (s + 1),
    ;
}

/// Truncating division is monotone in its dividend.
pub proof fn lemma_tdiv_mono(x: int, y: int, d: int)
    requires
        d > 0,
        x <= y,
    ensures
        tdiv(x, d) <= tdiv(y, d),
{
    if x >= 0 {
        vstd::arithmetic::div_mod::lemma_div_is_ordered(x, y, d);
    } else if y < 0 {
        vstd::arithmetic::div_mod::lemma_div_is_ordered(-y, -x, d);
    } else {
        vstd::arithmetic::div_mod::lemma_div_pos_is_pos(-x, d);
        vstd::arithmetic::div_mod::lemma_div_pos_is_pos(y, d);
    }
}

/// A symmetric bound on the dividend gives the same bound on a truncating
/// quotient (coarsely, since the divisor is at least one).
pub proof fn lemma_tdiv_bound(a: int, b: int, m: int)
    requires
        b > 0,
        0 <= m,
        -m <= a <= m,
    ensures
        -tdiv(m, b) <= tdiv(a, b) <= tdiv(m, b),
        0 <= tdiv(m, b) <= m,
{
    lemma_tdiv_mono(a, m, b);
    lemma_tdiv_mono(-m, a, b);
    assert(tdiv(-m, b) == -tdiv(m, b));
    vstd::arithmetic::div_mod::lemma_div_pos_is_pos(m, b);
    vstd::arithmetic::div_mod::lemma_div_nonincreasing(m, b);
}

/// Bound on a fixed-point product from bounds on its operands.
pub proof fn lemma_fmul_bound(a: int, b: int, ma: int, mb: int)
    requires
        0 <= ma,
        0 <= mb,
        -ma <= a <= ma,
        -mb <= b <= mb,
    ensures
        in_b(fmul(a, b), tdiv(ma * mb, 65536)),
        in_b(fmul(a, b), ma * mb),
        0 <= ma * mb,
{
    assert(-(ma * mb) <= a * b <= ma * mb && 0 <= ma * mb) by (nonlinear_arith)
        requires
            0 <= ma,
            0 <= mb,
            -ma <= a <= ma,
            -mb <= b <= mb,
    ;
    lemma_tdiv_bound(a * b, 65536, ma * mb);
}

/// A fixed-point square is nonnegative.
pub proof fn lemma_fmul_self_nonneg(a: int)
    ensures
        0 <= fmul(a, a),
{
    assert(0 <= a * a) by (nonlinear_arith);
    if a * a >= 0 {
        vstd::arithmetic::div_mod::lemma_div_pos_is_pos(a * a, 65536);
    }
}

/// Negating one operand negates a fixed-point product exactly.
pub proof fn lemma_fmul_neg(a: int, b: int)
    ensures
        fmul(-a, b) == -fmul(a, b),
        fmul(a, -b) == -fmul(a, b),
{
    assert((-a) * b == -(a * b) && a * (-b) == -(a * b)) by (nonlinear_arith);
}

/// A product of two scalars in the unit interval stays in the unit interval.
pub proof fn lemma_fmul_unit(a: int, b: int)
    requires
        0 <= a <= 65536,
        0 <= b <= 65536,
    ensures
        0 <= fmul(a, b) <= if a <= b { a } else { b },
{
    assert(0 <= a * b && a * b <= a * 65536 && a * b <= b * 65536) by (nonlinear_arith)
        requires
            0 <= a <= 65536,
            0 <= b <= 65536,
    ;
    vstd::arithmetic::div_mod::lemma_div_pos_is_pos(a * b, 65536);
    lemma_tdiv_mono(a * b, a * 65536, 65536);
    lemma_tdiv_mono(a * b, b * 65536, 65536);
    assert((a * 65536) / 65536 == a) by (nonlinear_arith);
    assert((b * 65536) / 65536 == b) by (nonlinear_arith);
}

fn abs_to_u128(a: i64) -> (r: u128)
    ensures
        r as int == if a >= 0 {
            a as int
        } else {
            -(a as int)
        },
{
    if a >= 0 {
        a as u128
    } else {
        (-(a as i128)) as u128
    }
}

/// Exact fixed-point multiplication; the result must fit an `i64`.
pub fn fx_mul(a: i64, b: i64) -> (r: i64)
    requires
        in_b(fmul(a as int, b as int), 0x7fff_ffff_ffff_ffff),
    ensures
        r as int == fmul(a as int, b as int),
{
    let neg: bool = (a < 0) != (b < 0);
    let ua = abs_to_u128(a);
    let ub = abs_to_u128(b);
    proof {
        assert(ua < 0x1_0000_0000_0000_0000 && ub < 0x1_0000_0000_0000_0000);
        assert(ua as int * ub as int <= 0xffff_ffff_ffff_ffff * 0xffff_ffff_ffff_ffff)
            by (nonlinear_arith)
            requires
                0 <= ua as int <= 0xffff_ffff_ffff_ffff,
                0 <= ub as int <= 0xffff_ffff_ffff_ffff,
        ;
    }
    let p: u128 = ua * ub;
    proof {
        assert(ua as int * ub as int == if a as int * b as int >= 0 {
            a as int * b as int
        } else {
            -(a as int * b as int)
        }) by (nonlinear_arith)
            requires
                ua as int == if a as int >= 0 {
                    a as int
                } else {
                    -(a as int)
                },
                ub as int == if b as int >= 0 {
                    b as int
                } else {
                    -(b as int)
                },
        ;
    }
    let q: u128 = p / 65536;
    proof {
        if a as int * b as int >= 0 {
            assert(q as int == tdiv(a as int * b as int, 65536));
            if (a as int * b as int > 0) {
                assert(!((a as int) < 0) == !((b as int) < 0)) by (nonlinear_arith)
                    requires
                        a as int * b as int > 0,
                ;
            }
        } else {
            assert(q as int == (-(a as int * b as int)) / 65536);
            assert(((a as int) < 0) != ((b as int) < 0)) by (nonlinear_arith)
                requires
                    (a as int * b as int) < 0,
            ;
            vstd::arithmetic::div_mod::lemma_div_pos_is_pos(-(a as int * b as int), 65536);
        }
    }
    if neg {
        if q == 0 {
            0
        } else {
            (-(q as i128)) as i64
        }
    } else {
        q as i64
    }
}

/// Exact fixed-point division by a positive divisor; the result must fit an
/// `i64`.
pub fn fx_div(a: i64, b: i64) -> (r: i64)
    requires
        b > 0,
        in_b(fdiv(a as int, b as int), 0x7fff_ffff_ffff_ffff),
    ensures
        r as int == fdiv(a as int, b as int),
{
    let neg: bool = a < 0;
    let ua = abs_to_u128(a);
    let n: u128 = ua * 65536;
    proof {
        assert(ua as int * 65536 == if a as int >= 0 {
            a as int * 65536
        } else {
            -(a as int * 65536)
        }) by (nonlinear_arith)
            requires
                ua as int == if a as int >= 0 {
                    a as int
                } else {
                    -(a as int)
                },
        ;
        assert(ua as int * 65536 <= 0xffff_ffff_ffff_ffff * 65536) by (nonlinear_arith)
            requires
                0 <= ua as int <= 0xffff_ffff_ffff_ffff,
        ;
    }
    let q: u128 = n / (b as u128);
    proof {
        if a >= 0 {
            assert(q as int == tdiv(a as int * 65536, b as int));
        } else {
            assert(q as int == (-(a as int * 65536)) / (b as int));
            vstd::arithmetic::div_mod::lemma_div_pos_is_pos(-(a as int * 65536), b as int);
        }
    }
    if neg {
        if q == 0 {
            0
        } else {
            (-(q as i128)) as i64
        }
    } else {
        q as i64
    }
}

/// Exact fixed-point square root of a nonnegative scalar.
pub fn fx_sqrt(a: i64) -> (r: i64)
    requires
        a >= 0,
    ensures
        r as int == fsqrt(a as int),
        0 <= r,
        r * r <= a * 65536,
        a * 65536 < (r + 1) * (r + 1),
{
    let m: u128 = (a as u128) * 65536;
    let mut lo: u128 = 0;
    let mut hi: u128 = 0x100_0000_0000;
    proof {
        assert(m < 0x100_0000_0000 * 0x100_0000_0000) by (nonlinear_arith)
            requires
                m as int == a as int * 65536,
                a as int <= 0x7fff_ffff_ffff_ffff,
        ;
    }
    while lo + 1 < hi
        invariant
            0 <= lo < hi <= 0x100_0000_0000,
            lo * lo <= m,
            m < hi * hi,
        decreases hi - lo,
    {
        let mid: u128 = lo + (hi - lo) / 2;
        assert(lo < mid < hi);
        proof {
            assert(mid as int * mid as int <= 0x100_0000_0000 * 0x100_0000_0000)
                by (nonlinear_arith)
                requires
                    0 <= mid as int <= 0x100_0000_0000,
            ;
        }
        if mid * mid <= m {
            lo = mid;
        } else {
            hi = mid;
        }
    }
    proof {
        assert(hi == lo + 1);
        lemma_sqrt_floor_unique(m as int, lo as int);
    }
    lo as i64
}

/// Clamp a scalar into the inclusive interval `[lo, hi]`.
pub fn fx_clamp(v: i64, lo: i64, hi: i64) -> (r: i64)
    requires
        lo <= hi,
    ensures
        r as int == sclamp(v as int, lo as int, hi as int),
{
    if v < lo {
        lo
    } else if v > hi {
        hi
    } else {
        v
    }
}

/// Value of clamping `v` into `[lo, hi]`.
pub open spec fn sclamp(v: int, lo: int, hi: int) -> int {
    if v < lo {
        lo
    } else if v > hi {
        hi
    } else {
        v
    }
}

} // verus!
