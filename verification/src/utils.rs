//! Distance and similarity measures between embedding vectors.
//!
//! All vectors are fixed-point: a coordinate `v` stands for the real
//! number `v / FIXED_SCALE`. Every function computes an exact integer
//! quantity that is pinned down by its contract; similarity values are
//! returned at the same scale, so `FIXED_SCALE` means a cosine
//! similarity of one.

use vstd::prelude::*;
use crate::fixedpoint::{
    abs_val, coords_bounded, div_to_zero, spec_dot, spec_sum, sqrt_floor, div_trunc, isqrt,
    lemma_cauchy_schwarz, lemma_dot_bound, lemma_self_dot_nonneg, lemma_sqrt_floor,
    COORD_LIMIT, DIM_LIMIT, FIXED_SCALE, WIDE_COORD_LIMIT,
};
use crate::fixedpoint::{
    iroot, lemma_pow_base_ordered, lemma_pow_base_strict, lemma_root_floor, root_floor,
};
use vstd::arithmetic::mul::lemma_mul_inequality;
use vstd::arithmetic::div_mod::{lemma_div_is_ordered, lemma_div_multiples_vanish};
use vstd::arithmetic::power::{
    lemma_pow1, lemma_pow_distributes, lemma_pow_increases, pow,
};

verus! {

/// Squared euclidean distance between `a` and `b`.
pub open spec fn spec_dist_sq(a: Seq<i64>, b: Seq<i64>) -> int
    decreases a.len(),
{
    if a.len() == 0 || b.len() == 0 {
        0
    } else {
        spec_dist_sq(a.drop_last(), b.drop_last()) + (a.last() - b.last()) * (a.last()
            - b.last())
    }
}

/// Sum of absolute coordinate differences.
pub open spec fn spec_manhattan(a: Seq<i64>, b: Seq<i64>) -> int
    decreases a.len(),
{
    if a.len() == 0 || b.len() == 0 {
        0
    } else {
        spec_manhattan(a.drop_last(), b.drop_last()) + abs_val(a.last() - b.last())
    }
}

/// Largest absolute coordinate difference.
pub open spec fn spec_chebyshev(a: Seq<i64>, b: Seq<i64>) -> int
    decreases a.len(),
{
    if a.len() == 0 || b.len() == 0 {
        0
    } else {
        let rest = spec_chebyshev(a.drop_last(), b.drop_last());
        let d = abs_val(a.last() - b.last());
        if d > rest {
            d
        } else {
            rest
        }
    }
}

/// Cosine similarity at scale `FIXED_SCALE`, rounded towards zero.
/// Zero when either vector has zero norm: such a vector has no
/// direction to compare.
pub open spec fn spec_scaled_cosine(a: Seq<i64>, b: Seq<i64>) -> int {
    let m1 = sqrt_floor(spec_dot(a, a));
    let m2 = sqrt_floor(spec_dot(b, b));
    if m1 == 0 || m2 == 0 {
        0
    } else {
        div_to_zero(spec_dot(a, b) * FIXED_SCALE, m1 * m2)
    }
}

pub open spec fn spec_cosine_similarity(a: Seq<i64>, b: Seq<i64>, normalized: bool) -> int {
    if normalized {
        div_to_zero(spec_dot(a, b), FIXED_SCALE as int)
    } else {
        spec_scaled_cosine(a, b)
    }
}

/// Coordinate `i` of `a` centered on the mean of `a`, with both sides
/// scaled by `a.len()` so that no precision is lost to division.
pub open spec fn spec_center(a: Seq<i64>) -> Seq<i64> {
    Seq::new(a.len(), |i: int| (a.len() * a[i] - spec_sum(a)) as i64)
}

/// Pearson correlation at scale `FIXED_SCALE`: the cosine of the two
/// mean-centered vectors.
pub open spec fn spec_pearson(a: Seq<i64>, b: Seq<i64>) -> int {
    spec_scaled_cosine(spec_center(a), spec_center(b))
}

/// Inner product, exactly.
fn dot_wide(a: &Vec<i64>, b: &Vec<i64>) -> (r: i128)
    requires
        a@.len() == b@.len(),
        a@.len() <= DIM_LIMIT,
        coords_bounded(a@, WIDE_COORD_LIMIT as int),
        coords_bounded(b@, WIDE_COORD_LIMIT as int),
    ensures
        r == spec_dot(a@, b@),
{
    let n = a.len();
    let mut acc: i128 = 0;
    let mut i: usize = 0;
    while i < n
        invariant
            i <= n,
            n == a@.len() == b@.len(),
            n <= DIM_LIMIT,
            coords_bounded(a@, WIDE_COORD_LIMIT as int),
            coords_bounded(b@, WIDE_COORD_LIMIT as int),
            acc == spec_dot(a@.take(i as int), b@.take(i as int)),
        decreases n - i,
    {
        proof {
            let w = WIDE_COORD_LIMIT as int;
            lemma_dot_bound(a@.take(i as int), b@.take(i as int), w);
            lemma_mul_inequality(i as int, DIM_LIMIT as int, w * w);
            assert(abs_val(a@[i as int] * b@[i as int]) <= w * w) by (nonlinear_arith)
                requires
                    abs_val(a@[i as int] as int) <= w,
                    abs_val(b@[i as int] as int) <= w,
                    w >= 0,
            ;
            assert((i as int) * (w * w) + w * w <= (DIM_LIMIT as int) * (w * w) + w * w)
                by (nonlinear_arith)
                requires
                    i as int <= DIM_LIMIT as int,
                    w * w >= 0,
            ;
            assert((DIM_LIMIT as int) * ((WIDE_COORD_LIMIT as int) * (WIDE_COORD_LIMIT as int))
                + (WIDE_COORD_LIMIT as int) * (WIDE_COORD_LIMIT as int) < i128::MAX);
            assert((i as int) * ((WIDE_COORD_LIMIT as int) * (WIDE_COORD_LIMIT as int))
                == (i as int) * (WIDE_COORD_LIMIT as int) * (WIDE_COORD_LIMIT as int))
                by (nonlinear_arith);
            assert(a@.take(i as int + 1).drop_last() =~= a@.take(i as int));
            assert(b@.take(i as int + 1).drop_last() =~= b@.take(i as int));
        }
        acc = acc + (a[i] as i128) * (b[i] as i128);
        i = i + 1;
    }
    proof {
        assert(a@.take(n as int) =~= a@);
        assert(b@.take(n as int) =~= b@);
    }
    acc
}

/// Cosine of two (possibly centered, hence widely bounded) vectors,
/// at scale `FIXED_SCALE`.
fn scaled_cosine(a: &Vec<i64>, b: &Vec<i64>) -> (r: i64)
    requires
        a@.len() == b@.len(),
        a@.len() <= DIM_LIMIT,
        coords_bounded(a@, WIDE_COORD_LIMIT as int),
        coords_bounded(b@, WIDE_COORD_LIMIT as int),
    ensures
        r == spec_scaled_cosine(a@, b@),
        abs_val(r as int) <= 3 * FIXED_SCALE,
{
    let d = dot_wide(a, b);
    let p = dot_wide(a, a);
    let q = dot_wide(b, b);
    proof {
        lemma_self_dot_nonneg(a@);
        lemma_self_dot_nonneg(b@);
    }
    let m1 = isqrt(p as u128);
    let m2 = isqrt(q as u128);
    proof {
        lemma_sqrt_floor(p as int);
        lemma_sqrt_floor(q as int);
    }
    if m1 == 0 || m2 == 0 {
        return 0;
    }
    proof {
        let w = WIDE_COORD_LIMIT as int;
        lemma_dot_bound(a@, b@, w);
        lemma_dot_bound(a@, a@, w);
        lemma_dot_bound(b@, b@, w);
        lemma_mul_inequality(a@.len() as int, DIM_LIMIT as int, w * w);
        assert((a@.len() as int) * (w * w) == (a@.len() as int) * w * w) by (nonlinear_arith);
    }
    let da: u128 = if d >= 0 {
        d as u128
    } else {
        (-d) as u128
    };
    proof {
        let w = WIDE_COORD_LIMIT as int;
        // da * FIXED_SCALE stays far below u128::MAX
        assert(da * (FIXED_SCALE as u128) <= ((DIM_LIMIT as int) * (w * w)) * (
        FIXED_SCALE as int)) by (nonlinear_arith)
            requires
                (da as int) <= (DIM_LIMIT as int) * (w * w),
                FIXED_SCALE > 0,
        ;
        // the two root factors are small enough to multiply
        assert((m1 as int) * (m1 as int) <= p as int);
        assert((m2 as int) * (m2 as int) <= q as int);
        assert(m1 as int <= 0x8000_0000_0000 && m2 as int <= 0x8000_0000_0000)
            by (nonlinear_arith)
            requires
                (m1 as int) * (m1 as int) <= p as int,
                (m2 as int) * (m2 as int) <= q as int,
                (p as int) <= (DIM_LIMIT as int) * ((WIDE_COORD_LIMIT as int) * (
                WIDE_COORD_LIMIT as int)),
                (q as int) <= (DIM_LIMIT as int) * ((WIDE_COORD_LIMIT as int) * (
                WIDE_COORD_LIMIT as int)),
                m1 >= 0,
                m2 >= 0,
        ;
    }
    proof {
        assert(1 <= (m1 as int) * (m2 as int) <= 0x8000_0000_0000 * 0x8000_0000_0000)
            by (nonlinear_arith)
            requires
                1 <= m1 as int <= 0x8000_0000_0000,
                1 <= m2 as int <= 0x8000_0000_0000,
        ;
    }
    let num: u128 = da * (FIXED_SCALE as u128);
    let den: u128 = m1 * m2;
    let qv: u128 = num / den;
    proof {
        // Cauchy-Schwarz bounds the quotient by three times the scale.
        lemma_cauchy_schwarz(a@, b@);
        let di = d as int;
        let m1i = m1 as int;
        let m2i = m2 as int;
        assert((p as int) * (q as int) < ((m1i + 1) * (m2i + 1)) * ((m1i + 1) * (m2i + 1)))
            by (nonlinear_arith)
            requires
                0 <= (p as int) < (m1i + 1) * (m1i + 1),
                0 <= (q as int) < (m2i + 1) * (m2i + 1),
                m1i >= 0,
                m2i >= 0,
        ;
        assert(abs_val(di) < (m1i + 1) * (m2i + 1)) by (nonlinear_arith)
            requires
                di * di <= (p as int) * (q as int),
                (p as int) * (q as int) < ((m1i + 1) * (m2i + 1)) * ((m1i + 1) * (m2i + 1)),
                (m1i + 1) * (m2i + 1) >= 0,
        ;
        assert(abs_val(di) * (FIXED_SCALE as int) <= (3 * FIXED_SCALE) * (m1i * m2i))
            by (nonlinear_arith)
            requires
                abs_val(di) < (m1i + 1) * (m2i + 1),
                m1i >= 1,
                m2i >= 1,
                FIXED_SCALE > 0,
        ;
        assert(num as int == abs_val(di) * (FIXED_SCALE as int));
        assert(den as int == m1i * m2i);
        lemma_div_is_ordered(
            abs_val(di) * (FIXED_SCALE as int),
            (3 * FIXED_SCALE) * (m1i * m2i),
            m1i * m2i,
        );
        assert((3 * FIXED_SCALE) * (m1i * m2i) == (m1i * m2i) * (3 * FIXED_SCALE))
            by (nonlinear_arith);
        lemma_div_multiples_vanish(3 * FIXED_SCALE as int, m1i * m2i);
        assert(((m1i * m2i) * (3 * FIXED_SCALE)) / (m1i * m2i) == 3 * FIXED_SCALE);
        assert(qv <= 3 * FIXED_SCALE);
    }
    if d >= 0 {
        qv as i64
    } else {
        -(qv as i64)
    }
}

/// Cosine similarity of `vec1` and `vec2` at scale `FIXED_SCALE`.
/// When the caller knows both vectors are unit-norm (`normalized`),
/// the inner product alone is returned, brought back to the scale.
pub fn cosine_similarity(vec1: &Vec<i64>, vec2: &Vec<i64>, normalized: bool) -> (r: i64)
    requires
        vec1@.len() == vec2@.len(),
        vec1@.len() <= DIM_LIMIT,
        coords_bounded(vec1@, COORD_LIMIT as int),
        coords_bounded(vec2@, COORD_LIMIT as int),
    ensures
        r == spec_cosine_similarity(vec1@, vec2@, normalized),
{
    proof {
        lemma_wide_from_coord(vec1@);
        lemma_wide_from_coord(vec2@);
    }
    if normalized {
        let d = dot_wide(vec1, vec2);
        proof {
            let c = COORD_LIMIT as int;
            lemma_dot_bound(vec1@, vec2@, c);
            lemma_mul_inequality(vec1@.len() as int, DIM_LIMIT as int, c * c);
            assert((vec1@.len() as int) * (c * c) == (vec1@.len() as int) * c * c)
                by (nonlinear_arith);
        }
        let dn: i64 = d as i64;
        div_trunc(dn, FIXED_SCALE)
    } else {
        scaled_cosine(vec1, vec2)
    }
}

/// Any vector bounded for embeddings is bounded for intermediates.
proof fn lemma_wide_from_coord(a: Seq<i64>)
    requires
        coords_bounded(a, COORD_LIMIT as int),
    ensures
        coords_bounded(a, WIDE_COORD_LIMIT as int),
{
}

/// Euclidean distance, at scale `FIXED_SCALE`: the floor of the square
/// root of the exact sum of squared coordinate differences.
pub fn euclidean_distance(vec1: &Vec<i64>, vec2: &Vec<i64>) -> (r: i64)
    requires
        vec1@.len() == vec2@.len(),
        vec1@.len() <= DIM_LIMIT,
        coords_bounded(vec1@, COORD_LIMIT as int),
        coords_bounded(vec2@, COORD_LIMIT as int),
    ensures
        r == sqrt_floor(spec_dist_sq(vec1@, vec2@)),
{
    let n = vec1.len();
    let mut acc: u128 = 0;
    let mut i: usize = 0;
    proof {
        lemma_dist_sq_bound(vec1@.take(0), vec2@.take(0));
    }
    while i < n
        invariant
            i <= n,
            n == vec1@.len() == vec2@.len(),
            n <= DIM_LIMIT,
            coords_bounded(vec1@, COORD_LIMIT as int),
            coords_bounded(vec2@, COORD_LIMIT as int),
            acc == spec_dist_sq(vec1@.take(i as int), vec2@.take(i as int)),
            acc <= (i as int) * (4 * (COORD_LIMIT as int) * (COORD_LIMIT as int)),
        decreases n - i,
    {
        let d: i64 = vec1[i] - vec2[i];
        proof {
            let c = COORD_LIMIT as int;
            assert(d * d <= 4 * c * c) by (nonlinear_arith)
                requires
                    -2 * c <= d as int <= 2 * c,
                    c >= 0,
            ;
            assert(d * d >= 0) by (nonlinear_arith);
            assert((i as int) * (4 * c * c) + 4 * c * c == (i as int + 1) * (4 * c * c))
                by (nonlinear_arith);
            lemma_mul_inequality(i as int + 1, DIM_LIMIT as int, 4 * c * c);
            assert(vec1@.take(i as int + 1).drop_last() =~= vec1@.take(i as int));
            assert(vec2@.take(i as int + 1).drop_last() =~= vec2@.take(i as int));
        }
        let dd: u128 = ((d as i128) * (d as i128)) as u128;
        acc = acc + dd;
        i = i + 1;
    }
    proof {
        assert(vec1@.take(n as int) =~= vec1@);
        assert(vec2@.take(n as int) =~= vec2@);
        let c = COORD_LIMIT as int;
        lemma_mul_inequality(n as int, DIM_LIMIT as int, 4 * c * c);
        lemma_sqrt_floor(acc as int);
        let r = sqrt_floor(acc as int);
        assert(r <= acc as int) by (nonlinear_arith)
            requires
                r >= 0,
                r * r <= acc as int,
        ;
    }
    isqrt(acc) as i64
}

proof fn lemma_dist_sq_bound(a: Seq<i64>, b: Seq<i64>)
    ensures
        spec_dist_sq(a, b) >= 0,
    decreases a.len(),
{
    if a.len() > 0 && b.len() > 0 {
        lemma_dist_sq_bound(a.drop_last(), b.drop_last());
        let d = a.last() - b.last();
        assert(d * d >= 0) by (nonlinear_arith);
    }
}

/// Manhattan distance: the exact sum of absolute coordinate differences.
pub fn manhattan_distance(vec1: &Vec<i64>, vec2: &Vec<i64>) -> (r: i64)
    requires
        vec1@.len() == vec2@.len(),
        vec1@.len() <= DIM_LIMIT,
        coords_bounded(vec1@, COORD_LIMIT as int),
        coords_bounded(vec2@, COORD_LIMIT as int),
    ensures
        r == spec_manhattan(vec1@, vec2@),
{
    let n = vec1.len();
    let mut acc: i64 = 0;
    let mut i: usize = 0;
    while i < n
        invariant
            i <= n,
            n == vec1@.len() == vec2@.len(),
            n <= DIM_LIMIT,
            coords_bounded(vec1@, COORD_LIMIT as int),
            coords_bounded(vec2@, COORD_LIMIT as int),
            acc == spec_manhattan(vec1@.take(i as int), vec2@.take(i as int)),
            0 <= acc <= (i as int) * (2 * (COORD_LIMIT as int)),
        decreases n - i,
    {
        let d: i64 = vec1[i] - vec2[i];
        let ad: i64 = if d >= 0 {
            d
        } else {
            -d
        };
        proof {
            let c = COORD_LIMIT as int;
            assert((i as int) * (2 * c) + 2 * c == (i as int + 1) * (2 * c)) by (nonlinear_arith);
            lemma_mul_inequality(i as int + 1, DIM_LIMIT as int, 2 * c);
            assert(vec1@.take(i as int + 1).drop_last() =~= vec1@.take(i as int));
            assert(vec2@.take(i as int + 1).drop_last() =~= vec2@.take(i as int));
        }
        acc = acc + ad;
        i = i + 1;
    }
    proof {
        assert(vec1@.take(n as int) =~= vec1@);
        assert(vec2@.take(n as int) =~= vec2@);
    }
    acc
}

/// Chebyshev distance: the largest absolute coordinate difference.
pub fn chebyshev_distance(a: &Vec<i64>, b: &Vec<i64>) -> (r: i64)
    requires
        a@.len() == b@.len(),
        a@.len() <= DIM_LIMIT,
        coords_bounded(a@, COORD_LIMIT as int),
        coords_bounded(b@, COORD_LIMIT as int),
    ensures
        r == spec_chebyshev(a@, b@),
{
    let n = a.len();
    let mut acc: i64 = 0;
    let mut i: usize = 0;
    while i < n
        invariant
            i <= n,
            n == a@.len() == b@.len(),
            coords_bounded(a@, COORD_LIMIT as int),
            coords_bounded(b@, COORD_LIMIT as int),
            acc == spec_chebyshev(a@.take(i as int), b@.take(i as int)),
            0 <= acc <= 2 * (COORD_LIMIT as int),
        decreases n - i,
    {
        let d: i64 = a[i] - b[i];
        let ad: i64 = if d >= 0 {
            d
        } else {
            -d
        };
        proof {
            assert(a@.take(i as int + 1).drop_last() =~= a@.take(i as int));
            assert(b@.take(i as int + 1).drop_last() =~= b@.take(i as int));
        }
        if ad > acc {
            acc = ad;
        }
        i = i + 1;
    }
    proof {
        assert(a@.take(n as int) =~= a@);
        assert(b@.take(n as int) =~= b@);
    }
    acc
}

/// Cosine distance at scale `FIXED_SCALE`: one minus cosine similarity.
/// Smaller values mean greater similarity.
pub fn cosine_distance(vec1: &Vec<i64>, vec2: &Vec<i64>) -> (r: i64)
    requires
        vec1@.len() == vec2@.len(),
        vec1@.len() <= DIM_LIMIT,
        coords_bounded(vec1@, COORD_LIMIT as int),
        coords_bounded(vec2@, COORD_LIMIT as int),
    ensures
        r == FIXED_SCALE - spec_scaled_cosine(vec1@, vec2@),
{
    proof {
        lemma_wide_from_coord(vec1@);
        lemma_wide_from_coord(vec2@);
    }
    let sc = scaled_cosine(vec1, vec2);
    FIXED_SCALE - sc
}

/// Inner product brought back to scale `FIXED_SCALE` (larger values mean
/// more similar vectors, so callers using it as a distance negate it).
pub fn dot_product_distance(vec1: &Vec<i64>, vec2: &Vec<i64>) -> (r: i64)
    requires
        vec1@.len() == vec2@.len(),
        vec1@.len() <= DIM_LIMIT,
        coords_bounded(vec1@, COORD_LIMIT as int),
        coords_bounded(vec2@, COORD_LIMIT as int),
    ensures
        r == div_to_zero(spec_dot(vec1@, vec2@), FIXED_SCALE as int),
{
    cosine_similarity(vec1, vec2, true)
}

/// Pearson correlation at scale `FIXED_SCALE`: cosine similarity of the
/// two vectors after each is centered on its own mean.
pub fn pearson_correlation(vec1: &Vec<i64>, vec2: &Vec<i64>) -> (r: i64)
    requires
        vec1@.len() == vec2@.len(),
        vec1@.len() <= DIM_LIMIT,
        coords_bounded(vec1@, COORD_LIMIT as int),
        coords_bounded(vec2@, COORD_LIMIT as int),
    ensures
        r == spec_pearson(vec1@, vec2@),
{
    let c1 = center(vec1);
    let c2 = center(vec2);
    scaled_cosine(&c1, &c2)
}

/// Sum of `p`-th powers of absolute coordinate differences.
pub open spec fn spec_minkowski_sum(a: Seq<i64>, b: Seq<i64>, p: nat) -> int
    decreases a.len(),
{
    if a.len() == 0 || b.len() == 0 {
        0
    } else {
        spec_minkowski_sum(a.drop_last(), b.drop_last(), p) + pow(
            abs_val(a.last() - b.last()),
            p,
        )
    }
}

/// `x` to a small power, exactly.
fn pow_small(x: u128, p: u32) -> (r: u128)
    requires
        1 <= p <= 4,
        x <= 2_000_000,
    ensures
        r == pow(x as int, p as nat),
{
    proof {
        vstd::arithmetic::power::lemma_pow0(x as int);
        vstd::arithmetic::power::lemma_pow0(2_000_000);
    }
    let mut acc: u128 = 1;
    let mut i: u32 = 0;
    while i < p
        invariant
            i <= p,
            p <= 4,
            x <= 2_000_000,
            acc as int == pow(x as int, i as nat),
            acc as int <= pow(2_000_000, i as nat),
        decreases p - i,
    {
        proof {
            lemma_pow_base_ordered(x as int, 2_000_000, i as nat);
            lemma_pow_increases(2_000_000nat, i as nat, 3nat);
            assert(pow(2_000_000, 3nat) == 8_000_000_000_000_000_000) by {
                reveal_with_fuel(pow, 4);
            }
            assert(acc * x <= 8_000_000_000_000_000_000 * 2_000_000) by (nonlinear_arith)
                requires
                    0 <= acc as int <= 8_000_000_000_000_000_000,
                    0 <= x <= 2_000_000,
            ;
            assert(pow(x as int, (i + 1) as nat) == (x as int) * pow(x as int, i as nat)) by {
                reveal(pow);
            }
            assert(pow(2_000_000, (i + 1) as nat) == 2_000_000 * pow(2_000_000, i as nat)) by {
                reveal(pow);
            }
            assert((acc as int) * (x as int) == (x as int) * (acc as int)) by (nonlinear_arith);
            assert((x as int) * (acc as int) <= 2_000_000 * pow(2_000_000, i as nat))
                by (nonlinear_arith)
                requires
                    0 <= x <= 2_000_000,
                    0 <= acc as int <= pow(2_000_000, i as nat),
            ;
        }
        acc = acc * x;
        i = i + 1;
    }
    acc
}

/// Minkowski distance of order `p`: the floor of the `p`-th root of the
/// exact sum of `p`-th powers of absolute coordinate differences. For
/// `p` of one this is the Manhattan distance; for two, the euclidean.
pub fn minkowski_distance(vec1: &Vec<i64>, vec2: &Vec<i64>, p: u32) -> (r: i64)
    requires
        vec1@.len() == vec2@.len(),
        vec1@.len() <= DIM_LIMIT,
        coords_bounded(vec1@, COORD_LIMIT as int),
        coords_bounded(vec2@, COORD_LIMIT as int),
        1 <= p <= 4,
    ensures
        r == root_floor(spec_minkowski_sum(vec1@, vec2@, p as nat), p as nat),
{
    let ghost pmax = pow(2_000_000, p as nat);
    proof {
        lemma_pow_base_ordered(0, 2_000_000, p as nat);
        lemma_pow_increases(2_000_000nat, p as nat, 4nat);
        assert(pow(2_000_000, 4nat) == 16_000_000_000_000_000_000_000_000) by {
            reveal_with_fuel(pow, 5);
        }
    }
    let n = vec1.len();
    let mut acc: u128 = 0;
    let mut i: usize = 0;
    while i < n
        invariant
            i <= n,
            n == vec1@.len() == vec2@.len(),
            n <= DIM_LIMIT,
            1 <= p <= 4,
            coords_bounded(vec1@, COORD_LIMIT as int),
            coords_bounded(vec2@, COORD_LIMIT as int),
            pmax == pow(2_000_000, p as nat),
            0 <= pmax <= 16_000_000_000_000_000_000_000_000,
            acc as int == spec_minkowski_sum(vec1@.take(i as int), vec2@.take(i as int), p as nat),
            acc as int <= (i as int) * pmax,
        decreases n - i,
    {
        let d: i64 = vec1[i] - vec2[i];
        let ad: u128 = if d >= 0 {
            d as u128
        } else {
            (-d) as u128
        };
        let pw = pow_small(ad, p);
        proof {
            lemma_pow_base_ordered(ad as int, 2_000_000, p as nat);
            assert((i as int) * pmax + pmax == (i as int + 1) * pmax) by (nonlinear_arith);
            lemma_mul_inequality(i as int + 1, DIM_LIMIT as int, pmax);
            assert(vec1@.take(i as int + 1).drop_last() =~= vec1@.take(i as int));
            assert(vec2@.take(i as int + 1).drop_last() =~= vec2@.take(i as int));
        }
        acc = acc + pw;
        i = i + 1;
    }
    proof {
        assert(vec1@.take(n as int) =~= vec1@);
        assert(vec2@.take(n as int) =~= vec2@);
        lemma_mul_inequality(n as int, DIM_LIMIT as int, pmax);
    }
    let root = iroot(acc, p);
    proof {
        lemma_root_floor(acc as int, p as nat);
        let rt = root_floor(acc as int, p as nat);
        let bound: int = 8_192_000_000;
        if rt > bound {
            lemma_pow_base_ordered(bound + 1, rt, p as nat);
            lemma_pow_base_strict(bound, bound + 1, p as nat);
            lemma_pow_distributes(4096, 2_000_000, p as nat);
            lemma_pow1(4096);
            lemma_pow_increases(4096nat, 1nat, p as nat);
            assert(pow(4096, p as nat) * pow(2_000_000, p as nat) >= 4096 * pow(
                2_000_000,
                p as nat,
            )) by (nonlinear_arith)
                requires
                    pow(4096, p as nat) >= 4096,
                    pow(2_000_000, p as nat) >= 0,
            ;
            assert((DIM_LIMIT as int) * pmax <= 4096 * pow(2_000_000, p as nat));
            assert(false);
        }
    }
    root as i64
}

/// Center a vector on its mean, with both sides scaled by the length so
/// that no precision is lost: coordinate `i` becomes `n * a[i] - sum(a)`.
fn center(a: &Vec<i64>) -> (r: Vec<i64>)
    requires
        a@.len() <= DIM_LIMIT,
        coords_bounded(a@, COORD_LIMIT as int),
    ensures
        r@ == spec_center(a@),
        coords_bounded(r@, WIDE_COORD_LIMIT as int),
{
    let n = a.len();
    let mut s: i64 = 0;
    let mut i: usize = 0;
    while i < n
        invariant
            i <= n,
            n == a@.len(),
            n <= DIM_LIMIT,
            coords_bounded(a@, COORD_LIMIT as int),
            s == spec_sum(a@.take(i as int)),
            abs_val(s as int) <= (i as int) * (COORD_LIMIT as int),
        decreases n - i,
    {
        proof {
            let c = COORD_LIMIT as int;
            assert((i as int) * c + c == (i as int + 1) * c) by (nonlinear_arith);
            lemma_mul_inequality(i as int + 1, DIM_LIMIT as int, c);
            assert(a@.take(i as int + 1).drop_last() =~= a@.take(i as int));
        }
        s = s + a[i];
        i = i + 1;
    }
    proof {
        assert(a@.take(n as int) =~= a@);
    }
    let mut r: Vec<i64> = Vec::new();
    let mut j: usize = 0;
    while j < n
        invariant
            j <= n,
            n == a@.len(),
            n <= DIM_LIMIT,
            coords_bounded(a@, COORD_LIMIT as int),
            s == spec_sum(a@),
            abs_val(s as int) <= (n as int) * (COORD_LIMIT as int),
            r@.len() == j,
            forall|k: int|
                0 <= k < j ==> #[trigger] r@[k] == (a@.len() * a@[k] - spec_sum(a@)) as i64,
            coords_bounded(r@, WIDE_COORD_LIMIT as int),
        decreases n - j,
    {
        proof {
            let c = COORD_LIMIT as int;
            assert(abs_val((n as int) * (a@[j as int] as int)) <= (n as int) * c)
                by (nonlinear_arith)
                requires
                    abs_val(a@[j as int] as int) <= c,
                    n >= 0,
            ;
            lemma_mul_inequality(n as int, DIM_LIMIT as int, c);
        }
        let v: i64 = (n as i64) * a[j] - s;
        r.push(v);
        j = j + 1;
    }
    proof {
        assert(r@ =~= spec_center(a@));
    }
    r
}

} // verus!
