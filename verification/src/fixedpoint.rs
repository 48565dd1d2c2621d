//! Fixed-point arithmetic underneath the embedding distances.
//!
//! Embedding coordinates, similarity values and normalized geometry are
//! integers scaled by `FIXED_SCALE`. This module gives the exact
//! mathematical meaning of the primitive operations the distance
//! functions are built from: sums of products, the integer square root,
//! and division rounded towards zero.

use vstd::prelude::*;
use vstd::arithmetic::mul::lemma_mul_is_commutative;
use vstd::arithmetic::power::{lemma0_pow, lemma1_pow, lemma_pow1, lemma_pow_increases, pow};

verus! {

/// Magnitude of the integer that stands for the real number one.
pub const FIXED_SCALE: i64 = 10_000;

/// Largest embedding coordinate magnitude the library accepts.
pub const COORD_LIMIT: i64 = 1_000_000;

/// Largest embedding dimensionality the library accepts.
pub const DIM_LIMIT: usize = 4_096;

/// Coordinate magnitude bound for intermediate (centered) vectors.
pub const WIDE_COORD_LIMIT: i64 = 0x2_0000_0000;

pub open spec fn abs_val(x: int) -> int {
    if x >= 0 {
        x
    } else {
        -x
    }
}

/// Every coordinate of `a` has magnitude at most `m`.
pub open spec fn coords_bounded(a: Seq<i64>, m: int) -> bool {
    forall|i: int| 0 <= i < a.len() ==> abs_val(#[trigger] a[i] as int) <= m
}

/// Sum of the elements of `a`.
pub open spec fn spec_sum(a: Seq<i64>) -> int
    decreases a.len(),
{
    if a.len() == 0 {
        0
    } else {
        spec_sum(a.drop_last()) + a.last()
    }
}

/// Inner product of `a` and `b` (over their common prefix).
pub open spec fn spec_dot(a: Seq<i64>, b: Seq<i64>) -> int
    decreases a.len(),
{
    if a.len() == 0 || b.len() == 0 {
        0
    } else {
        spec_dot(a.drop_last(), b.drop_last()) + a.last() * b.last()
    }
}

/// Quotient rounded towards zero, the rounding C and Rust use.
pub open spec fn div_to_zero(n: int, d: int) -> int
    recommends
        d > 0,
{
    if n >= 0 {
        n / d
    } else {
        -((-n) / d)
    }
}

/// Floor of the square root of `n` (0 for negative `n`).
pub closed spec fn sqrt_floor(n: int) -> int
    decreases n,
{
    if n <= 0 {
        0
    } else {
        let r = sqrt_floor(n - 1);
        if (r + 1) * (r + 1) <= n {
            r + 1
        } else {
            r
        }
    }
}

/// `sqrt_floor(n)` is the unique `r >= 0` with `r * r <= n < (r + 1) * (r + 1)`.
pub proof fn lemma_sqrt_floor(n: int)
    requires
        n >= 0,
    ensures
        sqrt_floor(n) >= 0,
        sqrt_floor(n) * sqrt_floor(n) <= n,
        n < (sqrt_floor(n) + 1) * (sqrt_floor(n) + 1),
    decreases n,
{
    if n == 0 {
        assert(sqrt_floor(0) == 0);
    } else {
        lemma_sqrt_floor(n - 1);
        let r = sqrt_floor(n - 1);
        if (r + 1) * (r + 1) <= n {
            assert(n - 1 < (r + 1) * (r + 1));
            assert(n < (r + 2) * (r + 2)) by (nonlinear_arith)
                requires
                    n <= (r + 1) * (r + 1),
                    r >= 0,
            ;
        }
    }
}

pub proof fn lemma_sqrt_floor_unique(n: int, r: int)
    requires
        n >= 0,
        r >= 0,
        r * r <= n,
        n < (r + 1) * (r + 1),
    ensures
        r == sqrt_floor(n),
{
    lemma_sqrt_floor(n);
    let s = sqrt_floor(n);
    if r < s {
        assert((r + 1) * (r + 1) <= s * s) by (nonlinear_arith)
            requires
                0 <= r,
                r < s,
        ;
    }
    if s < r {
        assert((s + 1) * (s + 1) <= r * r) by (nonlinear_arith)
            requires
                0 <= s,
                s < r,
        ;
    }
}

/// A sum of squares is never negative.
pub proof fn lemma_self_dot_nonneg(a: Seq<i64>)
    ensures
        spec_dot(a, a) >= 0,
    decreases a.len(),
{
    if a.len() > 0 {
        lemma_self_dot_nonneg(a.drop_last());
        assert(a.last() * a.last() >= 0) by (nonlinear_arith);
    }
}

/// Discrete Cauchy-Schwarz inequality: the inner product of two vectors
/// is bounded by the product of their norms.
pub proof fn lemma_cauchy_schwarz(a: Seq<i64>, b: Seq<i64>)
    requires
        a.len() == b.len(),
    ensures
        spec_dot(a, b) * spec_dot(a, b) <= spec_dot(a, a) * spec_dot(b, b),
    decreases a.len(),
{
    if a.len() == 0 {
    } else {
        let a1 = a.drop_last();
        let b1 = b.drop_last();
        lemma_cauchy_schwarz(a1, b1);
        lemma_self_dot_nonneg(a1);
        lemma_self_dot_nonneg(b1);
        let d = spec_dot(a1, b1);
        let p = spec_dot(a1, a1);
        let q = spec_dot(b1, b1);
        let x = a.last() as int;
        let y = b.last() as int;
        assert(2 * d * x * y <= p * y * y + q * x * x) by (nonlinear_arith)
            requires
                d * d <= p * q,
                p >= 0,
                q >= 0,
        ;
        assert((d + x * y) * (d + x * y) == d * d + 2 * d * x * y + (x * x) * (y * y))
            by (nonlinear_arith);
        assert((p + x * x) * (q + y * y) == p * q + p * y * y + q * x * x + (x * x) * (y * y))
            by (nonlinear_arith);
    }
}

/// A bound on the coordinates gives a linear bound on the inner product.
pub proof fn lemma_dot_bound(a: Seq<i64>, b: Seq<i64>, m: int)
    requires
        a.len() == b.len(),
        m >= 0,
        forall|i: int| 0 <= i < a.len() ==> abs_val(#[trigger] a[i] as int) <= m,
        forall|i: int| 0 <= i < b.len() ==> abs_val(#[trigger] b[i] as int) <= m,
    ensures
        abs_val(spec_dot(a, b)) <= a.len() * m * m,
    decreases a.len(),
{
    if a.len() == 0 {
    } else {
        let a1 = a.drop_last();
        let b1 = b.drop_last();
        assert(forall|i: int| 0 <= i < a1.len() ==> abs_val(#[trigger] a1[i] as int) <= m);
        assert(forall|i: int| 0 <= i < b1.len() ==> abs_val(#[trigger] b1[i] as int) <= m);
        lemma_dot_bound(a1, b1, m);
        let n1 = a1.len() as int;
        let x = a.last() as int;
        let y = b.last() as int;
        assert(abs_val(x * y) <= m * m) by (nonlinear_arith)
            requires
                abs_val(x) <= m,
                abs_val(y) <= m,
                m >= 0,
        ;
        assert(n1 * m * m + m * m == (n1 + 1) * m * m) by (nonlinear_arith);
    }
}

/// Integer square root by bisection.
pub fn isqrt(n: u128) -> (r: u128)
    ensures
        r == sqrt_floor(n as int),
{
    proof {
        lemma_sqrt_floor(n as int);
    }
    if n == 0 {
        proof {
            lemma_sqrt_floor_unique(0, 0);
        }
        return 0;
    }
    let mut lo: u128 = 0;
    let mut hi: u128 = 0x1_0000_0000_0000_0000;
    proof {
        assert(hi * hi > n as int) by (nonlinear_arith)
            requires
                hi == 0x1_0000_0000_0000_0000u128,
                n <= u128::MAX,
        ;
    }
    while lo + 1 < hi
        invariant
            lo < hi,
            hi <= 0x1_0000_0000_0000_0000,
            lo * lo <= n as int,
            (hi * hi) > n as int,
        decreases hi - lo,
    {
        let mid = lo + (hi - lo) / 2;
        proof {
            assert(mid * mid <= u128::MAX) by (nonlinear_arith)
                requires
                    mid < 0x1_0000_0000_0000_0000u128,
            ;
        }
        if mid * mid <= n {
            lo = mid;
        } else {
            hi = mid;
        }
    }
    proof {
        lemma_sqrt_floor_unique(n as int, lo as int);
    }
    lo
}

/// Floor of the `p`-th root of `n` (0 for negative `n`).
pub closed spec fn root_floor(n: int, p: nat) -> int
    decreases n,
{
    if n <= 0 {
        0
    } else {
        let r = root_floor(n - 1, p);
        if pow(r + 1, p) <= n {
            r + 1
        } else {
            r
        }
    }
}

/// Raising to a fixed power is monotone in the base.
pub proof fn lemma_pow_base_ordered(a: int, b: int, e: nat)
    requires
        0 <= a <= b,
    ensures
        0 <= pow(a, e) <= pow(b, e),
    decreases e,
{
    reveal(pow);
    if e == 0 {
    } else {
        lemma_pow_base_ordered(a, b, (e - 1) as nat);
        assert(0 <= a * pow(a, (e - 1) as nat) <= b * pow(b, (e - 1) as nat))
            by (nonlinear_arith)
            requires
                0 <= a <= b,
                0 <= pow(a, (e - 1) as nat) <= pow(b, (e - 1) as nat),
        ;
    }
}

/// ... and strictly monotone for a positive exponent.
pub proof fn lemma_pow_base_strict(a: int, b: int, e: nat)
    requires
        0 <= a < b,
        e >= 1,
    ensures
        pow(a, e) < pow(b, e),
    decreases e,
{
    reveal(pow);
    if e == 1 {
        lemma_pow1(a);
        lemma_pow1(b);
    } else {
        lemma_pow_base_strict(a, b, (e - 1) as nat);
        lemma_pow_base_ordered(a, b, (e - 1) as nat);
        assert(a * pow(a, (e - 1) as nat) < b * pow(b, (e - 1) as nat)) by (nonlinear_arith)
            requires
                0 <= a < b,
                0 <= pow(a, (e - 1) as nat) < pow(b, (e - 1) as nat),
        ;
    }
}

/// `root_floor(n, p)` is the unique `r >= 0` with
/// `pow(r, p) <= n < pow(r + 1, p)`.
pub proof fn lemma_root_floor(n: int, p: nat)
    requires
        n >= 0,
        p >= 1,
    ensures
        root_floor(n, p) >= 0,
        pow(root_floor(n, p), p) <= n,
        n < pow(root_floor(n, p) + 1, p),
    decreases n,
{
    if n == 0 {
        lemma0_pow(p);
        lemma1_pow(p);
    } else {
        lemma_root_floor(n - 1, p);
        let r = root_floor(n - 1, p);
        if pow(r + 1, p) <= n {
            lemma_pow_base_strict(r + 1, r + 2, p);
        }
    }
}

pub proof fn lemma_root_floor_unique(n: int, p: nat, r: int)
    requires
        n >= 0,
        p >= 1,
        r >= 0,
        pow(r, p) <= n,
        n < pow(r + 1, p),
    ensures
        r == root_floor(n, p),
{
    lemma_root_floor(n, p);
    let s = root_floor(n, p);
    if r < s {
        lemma_pow_base_ordered(r + 1, s, p);
    }
    if s < r {
        lemma_pow_base_ordered(s + 1, r, p);
    }
}

/// Whether `pow(x, p) > n`, computed without ever overflowing: the
/// partial power is abandoned as soon as it passes `n`.
fn pow_gt(x: u128, p: u32, n: u128) -> (r: bool)
    requires
        p >= 1,
    ensures
        r == (pow(x as int, p as nat) > n as int),
{
    if x == 0 {
        proof {
            lemma0_pow(p as nat);
        }
        return false;
    }
    if x == 1 {
        proof {
            lemma1_pow(p as nat);
        }
        return n == 0;
    }
    if n == 0 {
        proof {
            lemma_pow1(x as int);
            lemma_pow_increases(x as nat, 1nat, p as nat);
        }
        return true;
    }
    let mut acc: u128 = 1;
    let mut i: u32 = 0;
    proof {
        reveal(pow);
    }
    while i < p
        invariant
            2 <= x,
            i <= p,
            acc as int == pow(x as int, i as nat),
            acc <= n,
        decreases p - i,
    {
        proof {
            reveal(pow);
            vstd::arithmetic::div_mod::lemma_fundamental_div_mod(n as int, x as int);
        }
        if acc > n / x {
            proof {
                assert(acc * x > n) by (nonlinear_arith)
                    requires
                        acc as int >= (n as int) / (x as int) + 1,
                        n as int == (x as int) * ((n as int) / (x as int)) + (n as int) % (
                        x as int),
                        0 <= (n as int) % (x as int) < x as int,
                        x >= 1,
                ;
                assert(pow(x as int, (i + 1) as nat) == (x as int) * pow(x as int, i as nat));
                lemma_mul_is_commutative(x as int, pow(x as int, i as nat));
                lemma_pow_increases(x as nat, (i + 1) as nat, p as nat);
            }
            return true;
        }
        proof {
            assert(acc * x <= n) by (nonlinear_arith)
                requires
                    acc as int <= (n as int) / (x as int),
                    n as int == (x as int) * ((n as int) / (x as int)) + (n as int) % (x as int),
                    0 <= (n as int) % (x as int),
                    x >= 1,
            ;
            assert(pow(x as int, (i + 1) as nat) == (x as int) * pow(x as int, i as nat));
            lemma_mul_is_commutative(x as int, pow(x as int, i as nat));
        }
        acc = acc * x;
        i = i + 1;
    }
    false
}

/// Integer `p`-th root by bisection.
pub fn iroot(n: u128, p: u32) -> (r: u128)
    requires
        p >= 1,
        n < u128::MAX,
    ensures
        r as int == root_floor(n as int, p as nat),
{
    proof {
        lemma_root_floor(n as int, p as nat);
        lemma0_pow(p as nat);
    }
    let mut lo: u128 = 0;
    let mut hi: u128 = n + 1;
    proof {
        lemma_pow1((n + 1) as int);
        lemma_pow_increases((n + 1) as nat, 1nat, p as nat);
    }
    while lo + 1 < hi
        invariant
            p >= 1,
            lo < hi,
            hi <= n + 1,
            pow(lo as int, p as nat) <= n as int,
            pow(hi as int, p as nat) > n as int,
        decreases hi - lo,
    {
        let mid = lo + (hi - lo) / 2;
        if pow_gt(mid, p, n) {
            hi = mid;
        } else {
            lo = mid;
        }
    }
    proof {
        lemma_root_floor_unique(n as int, p as nat, lo as int);
    }
    lo
}

/// Division rounded towards zero, for a positive divisor.
pub fn div_trunc(n: i64, d: i64) -> (r: i64)
    requires
        d > 0,
        n > i64::MIN,
    ensures
        r == div_to_zero(n as int, d as int),
        abs_val(r as int) <= abs_val(n as int),
{
    if n >= 0 {
        proof {
            vstd::arithmetic::div_mod::lemma_div_nonincreasing(n as int, d as int);
            vstd::arithmetic::div_mod::lemma_div_pos_is_pos(n as int, d as int);
        }
        ((n as u64) / (d as u64)) as i64
    } else {
        let m = (-n) as u64;
        proof {
            vstd::arithmetic::div_mod::lemma_div_nonincreasing(m as int, d as int);
            vstd::arithmetic::div_mod::lemma_div_pos_is_pos(m as int, d as int);
        }
        -((m / (d as u64)) as i64)
    }
}

} // verus!
