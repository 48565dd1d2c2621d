//! The image preprocessor: a decoded image is stretched to a model's
//! fixed input resolution and normalized per channel into a channel-first
//! fixed-point tensor of shape `(1, C, H, W)`.
//!
//! A tensor value is `((pixel / 255) - mean[c]) / std[c]`, computed
//! exactly in fixed-point at scale `FIXED_SCALE`. The preprocessor is a
//! pure function of the bytes and the configuration; its output shape
//! depends on the configuration alone, never on the source image.

use vstd::prelude::*;
use crate::fixedpoint::{div_to_zero, div_trunc, FIXED_SCALE};
use crate::imaging::{resize_image, resized_rgb, rgb_at, RgbImageBuf, MAX_IMAGE_DIM};

verus! {

/// Per-model preprocessing parameters: the input resolution and the
/// per-channel normalization constants, fixed-point at `FIXED_SCALE`.
pub struct PreprocessConfig {
    pub width: u32,
    pub height: u32,
    pub mean: Vec<i64>,
    pub std: Vec<i64>,
}

impl PreprocessConfig {
    pub open spec fn wf(&self) -> bool {
        &&& 1 <= self.width <= MAX_IMAGE_DIM
        &&& 1 <= self.height <= MAX_IMAGE_DIM
        &&& self.mean@.len() == 3
        &&& self.std@.len() == 3
        &&& forall|c: int| 0 <= c < 3 ==> 0 <= #[trigger] self.mean@[c] <= FIXED_SCALE
        &&& forall|c: int| 0 <= c < 3 ==> 1 <= #[trigger] self.std@[c] <= FIXED_SCALE
    }
}

/// Input contract of the face detector model: 640 by 480, normalized
/// with the usual per-channel image statistics.
pub fn ultraface_config() -> (r: PreprocessConfig)
    ensures
        r.wf(),
        r.width == 640 && r.height == 480,
        r.mean@ == seq![4850i64, 4560i64, 4060i64],
        r.std@ == seq![2290i64, 2240i64, 2250i64],
{
    let mut mean: Vec<i64> = Vec::new();
    mean.push(4850);
    mean.push(4560);
    mean.push(4060);
    let mut std: Vec<i64> = Vec::new();
    std.push(2290);
    std.push(2240);
    std.push(2250);
    proof {
        assert(mean@ =~= seq![4850i64, 4560i64, 4060i64]);
        assert(std@ =~= seq![2290i64, 2240i64, 2250i64]);
    }
    PreprocessConfig { width: 640, height: 480, mean, std }
}

/// Input contract of the face embedding model: 112 by 112, each channel
/// mapped to `(p / 255 - 0.5) / 0.5`.
pub fn arcface_config() -> (r: PreprocessConfig)
    ensures
        r.wf(),
        r.width == 112 && r.height == 112,
        r.mean@ == seq![5000i64, 5000i64, 5000i64],
        r.std@ == seq![5000i64, 5000i64, 5000i64],
{
    let mut mean: Vec<i64> = Vec::new();
    mean.push(5000);
    mean.push(5000);
    mean.push(5000);
    let mut std: Vec<i64> = Vec::new();
    std.push(5000);
    std.push(5000);
    std.push(5000);
    proof {
        assert(mean@ =~= seq![5000i64, 5000i64, 5000i64]);
        assert(std@ =~= seq![5000i64, 5000i64, 5000i64]);
    }
    PreprocessConfig { width: 112, height: 112, mean, std }
}

/// A channel-first fixed-point tensor with batch size one.
pub struct ImageTensor {
    pub channels: u32,
    pub height: u32,
    pub width: u32,
    pub data: Vec<i64>,
}

/// Tensor element `(c, y, x)` of a channel-first `(h, w)` layout.
pub open spec fn tensor_at(data: Seq<i64>, h: int, w: int, c: int, y: int, x: int) -> i64 {
    data[(c * h + y) * w + x]
}

impl ImageTensor {
    pub open spec fn wf(&self) -> bool {
        &&& self.channels == 3
        &&& 1 <= self.height <= MAX_IMAGE_DIM
        &&& 1 <= self.width <= MAX_IMAGE_DIM
        &&& self.data@.len() == 3 * (self.height as int) * (self.width as int)
    }

    /// The tensor's shape, leading batch dimension included.
    pub fn shape(&self) -> (r: (usize, usize, usize, usize))
        ensures
            r.0 == 1usize,
            r.1 == self.channels,
            r.2 == self.height,
            r.3 == self.width,
    {
        (1, self.channels as usize, self.height as usize, self.width as usize)
    }
}

/// Exact fixed-point normalization of one sample.
pub open spec fn spec_normalize_value(p: u8, mean: i64, std: i64) -> int {
    div_to_zero(((p * FIXED_SCALE) / 255 - mean) * FIXED_SCALE, std as int)
}

fn normalize_value(p: u8, mean: i64, std: i64) -> (r: i64)
    requires
        0 <= mean <= FIXED_SCALE,
        1 <= std <= FIXED_SCALE,
    ensures
        r == spec_normalize_value(p, mean, std),
{
    proof {
        assert((p as int) * (FIXED_SCALE as int) <= 255 * 10000) by (nonlinear_arith)
            requires
                0 <= p <= 255,
                FIXED_SCALE == 10000,
        ;
    }
    let pv: i64 = (((p as u64) * (FIXED_SCALE as u64)) / 255) as i64;
    proof {
        vstd::arithmetic::div_mod::lemma_div_pos_is_pos((p as int) * (FIXED_SCALE as int), 255);
        vstd::arithmetic::div_mod::lemma_div_is_ordered(
            (p as int) * (FIXED_SCALE as int),
            255 * (FIXED_SCALE as int),
            255,
        );
        vstd::arithmetic::div_mod::lemma_div_multiples_vanish(FIXED_SCALE as int, 255);
    }
    div_trunc((pv - mean) * FIXED_SCALE, std)
}

/// Every tensor entry below position `n` carries the normalized value of
/// its resized source pixel.
pub open spec fn tensor_filled(
    data: Seq<i64>,
    rp: Seq<u8>,
    cfg: PreprocessConfig,
    n: int,
) -> bool {
    forall|c: int, y: int, x: int|
        0 <= c < 3 && 0 <= y < cfg.height && 0 <= x < cfg.width && (c * (cfg.height as int) + y)
            * (cfg.width as int) + x < n ==> tensor_at(
            data,
            cfg.height as int,
            cfg.width as int,
            c,
            y,
            x,
        ) == spec_normalize_value(
            rgb_at(rp, cfg.width as int, x, y, c),
            cfg.mean@[c],
            cfg.std@[c],
        )
}

/// A valid tensor position has a unique index below `3 * h * w`.
proof fn lemma_tensor_index(c: int, y: int, x: int, h: int, w: int)
    requires
        0 <= c < 3,
        0 <= y < h,
        0 <= x < w,
        1 <= h,
        1 <= w,
    ensures
        0 <= (c * h + y) * w + x < 3 * h * w,
{
    assert(0 <= (c * h + y) * w + x < 3 * h * w) by (nonlinear_arith)
        requires
            0 <= c < 3,
            0 <= y < h,
            0 <= x < w,
            1 <= h,
            1 <= w,
    ;
}

/// Distinct tensor positions have distinct indices.
proof fn lemma_tensor_index_inj(cc: int, yy: int, xx: int, c: int, y: int, x: int, h: int, w: int)
    requires
        0 <= cc < 3,
        0 <= yy < h,
        0 <= xx < w,
        0 <= c < 3,
        0 <= y < h,
        0 <= x < w,
        (cc * h + yy) * w + xx == (c * h + y) * w + x,
    ensures
        cc == c && yy == y && xx == x,
{
    assert(cc == c && yy == y && xx == x) by (nonlinear_arith)
        requires
            0 <= cc < 3,
            0 <= yy < h,
            0 <= xx < w,
            0 <= c < 3,
            0 <= y < h,
            0 <= x < w,
            (cc * h + yy) * w + xx == (c * h + y) * w + x,
    ;
}

/// Stretch `img` to the configured resolution and normalize it into a
/// `(1, 3, height, width)` channel-first tensor. The output shape is
/// exactly the configured one, whatever the source dimensions were.
pub fn get_image_tensor(img: &RgbImageBuf, cfg: &PreprocessConfig) -> (t: ImageTensor)
    requires
        img.wf(),
        cfg.wf(),
    ensures
        t.wf(),
        t.channels == 3 && t.height == cfg.height && t.width == cfg.width,
        tensor_filled(
            t.data@,
            resized_rgb(
                img.data@,
                img.width as int,
                img.height as int,
                cfg.width as int,
                cfg.height as int,
            ),
            *cfg,
            3 * (cfg.height as int) * (cfg.width as int),
        ),
{
    let resized = resize_image(img, cfg.width, cfg.height);
    let ghost rp = resized.data@;
    let h = cfg.height as usize;
    let w = cfg.width as usize;
    let mut data: Vec<i64> = Vec::new();
    let mut c: usize = 0;
    proof {
        assert(0 * (h as int) * (w as int) == 0) by (nonlinear_arith);
    }
    while c < 3
        invariant
            c <= 3,
            h == cfg.height && w == cfg.width,
            cfg.wf(),
            resized.wf(),
            resized.width == cfg.width && resized.height == cfg.height,
            rp == resized.data@,
            data@.len() == (c as int) * (h as int) * (w as int),
            tensor_filled(data@, rp, *cfg, data@.len() as int),
        decreases 3 - c,
    {
        let mut y: usize = 0;
        proof {
            assert(((c as int) * (h as int) + 0) * (w as int) == (c as int) * (h as int) * (
            w as int)) by (nonlinear_arith);
        }
        while y < h
            invariant
                c < 3,
                y <= h,
                h == cfg.height && w == cfg.width,
                cfg.wf(),
                resized.wf(),
                resized.width == cfg.width && resized.height == cfg.height,
                rp == resized.data@,
                data@.len() == ((c as int) * (h as int) + y as int) * (w as int),
                tensor_filled(data@, rp, *cfg, data@.len() as int),
            decreases h - y,
        {
            let mut x: usize = 0;
            while x < w
                invariant
                    c < 3,
                    y < h,
                    x <= w,
                    h == cfg.height && w == cfg.width,
                    cfg.wf(),
                    resized.wf(),
                    resized.width == cfg.width && resized.height == cfg.height,
                    rp == resized.data@,
                    data@.len() == ((c as int) * (h as int) + y as int) * (w as int) + x as int,
                    tensor_filled(data@, rp, *cfg, data@.len() as int),
                decreases w - x,
            {
                proof {
                    lemma_tensor_index(c as int, y as int, x as int, h as int, w as int);
                    assert(((y as int) * (w as int) + (x as int)) < (h as int) * (w as int)
                        && (h as int) * (w as int) <= 67108864 && 3 * ((y as int) * (w as int)
                        + (x as int)) + (c as int) < 3 * (w as int) * (h as int))
                        by (nonlinear_arith)
                        requires
                            0 <= y < h,
                            0 <= x < w,
                            0 <= c < 3,
                            1 <= h <= MAX_IMAGE_DIM,
                            1 <= w <= MAX_IMAGE_DIM,
                            MAX_IMAGE_DIM == 8192,
                    ;
                }
                proof {
                    assert(3 * (w as int) * (h as int) == 3 * (h as int) * (w as int))
                        by (nonlinear_arith);
                }
                let pidx: usize = 3 * (y * w + x) + c;
                let p: u8 = resized.data[pidx];
                let v = normalize_value(p, cfg.mean[c], cfg.std[c]);
                let ghost pre = data@;
                data.push(v);
                proof {
                    assert(rgb_at(rp, w as int, x as int, y as int, c as int) == p);
                    assert forall|cc: int, yy: int, xx: int|
                        0 <= cc < 3 && 0 <= yy < cfg.height && 0 <= xx < cfg.width && (cc * (
                        cfg.height as int) + yy) * (cfg.width as int) + xx
                            < data@.len() implies tensor_at(
                        data@,
                        cfg.height as int,
                        cfg.width as int,
                        cc,
                        yy,
                        xx,
                    ) == spec_normalize_value(
                        rgb_at(rp, cfg.width as int, xx, yy, cc),
                        cfg.mean@[cc],
                        cfg.std@[cc],
                    ) by {
                        lemma_tensor_index(cc, yy, xx, h as int, w as int);
                        let idx = (cc * (h as int) + yy) * (w as int) + xx;
                        if idx < pre.len() {
                            assert(tensor_at(pre, cfg.height as int, cfg.width as int, cc, yy, xx)
                                == spec_normalize_value(
                                rgb_at(rp, cfg.width as int, xx, yy, cc),
                                cfg.mean@[cc],
                                cfg.std@[cc],
                            ));
                            assert(data@[idx] == pre[idx]);
                        } else {
                            lemma_tensor_index_inj(
                                cc,
                                yy,
                                xx,
                                c as int,
                                y as int,
                                x as int,
                                h as int,
                                w as int,
                            );
                            assert(data@[idx] == v);
                        }
                    }
                }
                x = x + 1;
            }
            y = y + 1;
            proof {
                assert(((c as int) * (h as int) + (y - 1) as int) * (w as int) + (w as int) == ((
                c as int) * (h as int) + y as int) * (w as int)) by (nonlinear_arith);
            }
        }
        c = c + 1;
        proof {
            assert(((c - 1) as int * (h as int) + (h as int)) * (w as int) == (c as int) * (
            h as int) * (w as int)) by (nonlinear_arith);
        }
    }
    proof {
        assert(data@.len() == 3 * (h as int) * (w as int)) by (nonlinear_arith)
            requires
                data@.len() == (3 as int) * (h as int) * (w as int),
        ;
    }
    ImageTensor { channels: 3, height: cfg.height, width: cfg.width, data }
}

} // verus!
