//! Bounding-box geometry: validation of detector output, denormalization
//! into pixel coordinates, and the crop region a face is cut with.
//!
//! A detector reports boxes in normalized coordinates, fixed-point at
//! scale `FIXED_SCALE` (so `FIXED_SCALE` is the right or bottom edge of
//! the image). Before cropping, a box is denormalized against the
//! original image's width and height — never against the model's input
//! resolution.

use vstd::prelude::*;
use crate::fixedpoint::{abs_val, FIXED_SCALE};
use vstd::arithmetic::mul::lemma_mul_inequality;
use vstd::arithmetic::div_mod::{
    lemma_div_is_ordered, lemma_div_multiples_vanish, lemma_div_pos_is_pos,
};

verus! {

/// A detector box in normalized coordinates at scale `FIXED_SCALE`.
#[derive(Clone, Copy, PartialEq, Eq, Structural, Debug)]
pub struct NormalizedBox {
    pub x_tl: i64,
    pub y_tl: i64,
    pub x_br: i64,
    pub y_br: i64,
}

/// A box in pixel coordinates of a concrete image.
#[derive(Clone, Copy, PartialEq, Eq, Structural, Debug)]
pub struct PixelBox {
    pub x_tl: u32,
    pub y_tl: u32,
    pub x_br: u32,
    pub y_br: u32,
}

impl NormalizedBox {
    /// Both corners lie inside the unit square and are ordered.
    pub open spec fn spec_valid(&self) -> bool {
        &&& 0 <= self.x_tl <= self.x_br <= FIXED_SCALE
        &&& 0 <= self.y_tl <= self.y_br <= FIXED_SCALE
    }

    pub fn valid(&self) -> (r: bool)
        ensures
            r == self.spec_valid(),
    {
        0 <= self.x_tl && self.x_tl <= self.x_br && self.x_br <= FIXED_SCALE && 0 <= self.y_tl
            && self.y_tl <= self.y_br && self.y_br <= FIXED_SCALE
    }
}

/// A normalized coordinate scaled against an image extent of `d` pixels.
pub open spec fn spec_denorm(c: int, d: int) -> int {
    c * d / (FIXED_SCALE as int)
}

/// A normalized coordinate in `[0, FIXED_SCALE]` lands in `[0, d]`:
/// denormalization cannot leave the image.
pub proof fn lemma_denorm_in_range(c: int, d: int)
    requires
        0 <= c <= FIXED_SCALE,
        0 <= d,
    ensures
        0 <= spec_denorm(c, d) <= d,
{
    lemma_mul_inequality(c, FIXED_SCALE as int, d);
    lemma_div_is_ordered(c * d, (FIXED_SCALE as int) * d, FIXED_SCALE as int);
    lemma_div_multiples_vanish(d, FIXED_SCALE as int);
    if c * d > 0 {
        lemma_div_pos_is_pos(c * d, FIXED_SCALE as int);
    } else {
        vstd::arithmetic::mul::lemma_mul_nonnegative(c, d);
    }
}

/// Denormalization is monotone in the coordinate.
pub proof fn lemma_denorm_ordered(a: int, b: int, d: int)
    requires
        a <= b,
        0 <= d,
    ensures
        spec_denorm(a, d) <= spec_denorm(b, d),
{
    lemma_mul_inequality(a, b, d);
    lemma_div_is_ordered(a * d, b * d, FIXED_SCALE as int);
}

/// Scale a box of normalized coordinates to the pixel grid of an image
/// that is `width` by `height` pixels. The result stays inside the
/// image and keeps its corners ordered.
pub fn denormalize_box(b: &NormalizedBox, width: u32, height: u32) -> (r: PixelBox)
    requires
        b.spec_valid(),
    ensures
        r.x_tl == spec_denorm(b.x_tl as int, width as int),
        r.x_br == spec_denorm(b.x_br as int, width as int),
        r.y_tl == spec_denorm(b.y_tl as int, height as int),
        r.y_br == spec_denorm(b.y_br as int, height as int),
        r.x_tl <= r.x_br <= width,
        r.y_tl <= r.y_br <= height,
{
    proof {
        lemma_denorm_in_range(b.x_tl as int, width as int);
        lemma_denorm_in_range(b.x_br as int, width as int);
        lemma_denorm_in_range(b.y_tl as int, height as int);
        lemma_denorm_in_range(b.y_br as int, height as int);
        lemma_denorm_ordered(b.x_tl as int, b.x_br as int, width as int);
        lemma_denorm_ordered(b.y_tl as int, b.y_br as int, height as int);
    }
    let sx_tl = ((b.x_tl as u64) * (width as u64)) / (FIXED_SCALE as u64);
    let sx_br = ((b.x_br as u64) * (width as u64)) / (FIXED_SCALE as u64);
    let sy_tl = ((b.y_tl as u64) * (height as u64)) / (FIXED_SCALE as u64);
    let sy_br = ((b.y_br as u64) * (height as u64)) / (FIXED_SCALE as u64);
    PixelBox { x_tl: sx_tl as u32, y_tl: sy_tl as u32, x_br: sx_br as u32, y_br: sy_br as u32 }
}

/// Area a valid normalized box covers, in squared fixed-point units.
pub open spec fn spec_norm_area(b: NormalizedBox) -> int
    recommends
        b.spec_valid(),
{
    (b.x_br - b.x_tl) * (b.y_br - b.y_tl)
}

/// Area of the intersection of two valid normalized boxes.
pub open spec fn spec_inter_area(a: NormalizedBox, b: NormalizedBox) -> int {
    let x1 = if a.x_tl >= b.x_tl {
        a.x_tl
    } else {
        b.x_tl
    };
    let x2 = if a.x_br <= b.x_br {
        a.x_br
    } else {
        b.x_br
    };
    let y1 = if a.y_tl >= b.y_tl {
        a.y_tl
    } else {
        b.y_tl
    };
    let y2 = if a.y_br <= b.y_br {
        a.y_br
    } else {
        b.y_br
    };
    if x2 > x1 && y2 > y1 {
        (x2 - x1) * (y2 - y1)
    } else {
        0
    }
}

/// Whether two boxes overlap at least `thr` by intersection over
/// union, at scale `FIXED_SCALE`, stated without a division:
/// `inter / union >= thr / FIXED_SCALE` exactly when
/// `inter * FIXED_SCALE >= thr * union`.
pub open spec fn spec_boxes_overlap(a: NormalizedBox, b: NormalizedBox, thr: i64) -> bool {
    let inter = spec_inter_area(a, b);
    let union_area = spec_norm_area(a) + spec_norm_area(b) - inter;
    inter * FIXED_SCALE >= thr * union_area
}

/// Intersection-over-union test of two detector boxes.
pub fn boxes_overlap(a: &NormalizedBox, b: &NormalizedBox, thr: i64) -> (r: bool)
    requires
        a.spec_valid(),
        b.spec_valid(),
        0 <= thr <= FIXED_SCALE,
    ensures
        r == spec_boxes_overlap(*a, *b, thr),
{
    let x1 = if a.x_tl >= b.x_tl {
        a.x_tl
    } else {
        b.x_tl
    };
    let x2 = if a.x_br <= b.x_br {
        a.x_br
    } else {
        b.x_br
    };
    let y1 = if a.y_tl >= b.y_tl {
        a.y_tl
    } else {
        b.y_tl
    };
    let y2 = if a.y_br <= b.y_br {
        a.y_br
    } else {
        b.y_br
    };
    let inter: i64 = if x2 > x1 && y2 > y1 {
        proof {
            assert((x2 - x1) * (y2 - y1) <= FIXED_SCALE * FIXED_SCALE) by (nonlinear_arith)
                requires
                    0 < x2 - x1 <= FIXED_SCALE,
                    0 < y2 - y1 <= FIXED_SCALE,
            ;
            assert((x2 - x1) * (y2 - y1) >= 0) by (nonlinear_arith)
                requires
                    x2 - x1 >= 0,
                    y2 - y1 >= 0,
            ;
        }
        (x2 - x1) * (y2 - y1)
    } else {
        0
    };
    proof {
        assert(0 <= (a.x_br - a.x_tl) * (a.y_br - a.y_tl) <= FIXED_SCALE * FIXED_SCALE)
            by (nonlinear_arith)
            requires
                0 <= a.x_br - a.x_tl <= FIXED_SCALE,
                0 <= a.y_br - a.y_tl <= FIXED_SCALE,
        ;
        assert(0 <= (b.x_br - b.x_tl) * (b.y_br - b.y_tl) <= FIXED_SCALE * FIXED_SCALE)
            by (nonlinear_arith)
            requires
                0 <= b.x_br - b.x_tl <= FIXED_SCALE,
                0 <= b.y_br - b.y_tl <= FIXED_SCALE,
        ;
    }
    let area_a: i64 = (a.x_br - a.x_tl) * (a.y_br - a.y_tl);
    let area_b: i64 = (b.x_br - b.x_tl) * (b.y_br - b.y_tl);
    let union_area: i64 = area_a + area_b - inter;
    proof {
        assert(inter * FIXED_SCALE <= (FIXED_SCALE * FIXED_SCALE) * FIXED_SCALE
            && inter * FIXED_SCALE >= 0) by (nonlinear_arith)
            requires
                0 <= inter as int <= FIXED_SCALE * FIXED_SCALE,
                FIXED_SCALE > 0,
        ;
        assert(abs_val(thr * union_area) <= FIXED_SCALE * (2 * (FIXED_SCALE * FIXED_SCALE)))
            by (nonlinear_arith)
            requires
                0 <= thr <= FIXED_SCALE,
                abs_val(union_area as int) <= 2 * (FIXED_SCALE * FIXED_SCALE),
        ;
    }
    inter * FIXED_SCALE >= thr * union_area
}

impl PixelBox {
    /// Width of the region the box spans.
    pub fn region_width(&self) -> (r: u32)
        requires
            self.x_tl <= self.x_br,
        ensures
            r == self.x_br - self.x_tl,
    {
        self.x_br - self.x_tl
    }

    /// Height of the region the box spans.
    pub fn region_height(&self) -> (r: u32)
        requires
            self.y_tl <= self.y_br,
        ensures
            r == self.y_br - self.y_tl,
    {
        self.y_br - self.y_tl
    }

    /// A box can be cut only if it spans at least one pixel each way.
    pub open spec fn spec_cuttable(&self) -> bool {
        self.x_tl < self.x_br && self.y_tl < self.y_br
    }

    pub fn cuttable(&self) -> (r: bool)
        ensures
            r == self.spec_cuttable(),
    {
        self.x_tl < self.x_br && self.y_tl < self.y_br
    }
}

} // verus!
