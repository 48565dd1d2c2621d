//! Decoded images and the operations the pipeline needs on them:
//! format-agnostic decoding, resize-to-fill, and cropping.
//!
//! The pixel work itself is done by the `image` crate behind small
//! trusted wrappers; everything around them — validation, bounds, the
//! relation between a crop and its source — is verified.

use vstd::prelude::*;
use crate::errors::CreatePhotoError;
use crate::geometry::PixelBox;

verus! {

/// Largest width or height of an image the pipeline accepts.
pub const MAX_IMAGE_DIM: u32 = 8192;

/// What `image::load_from_memory` accepts: whether `bytes` is a
/// well-formed image in a format the decoder knows.
pub uninterp spec fn image_decodable(bytes: Seq<u8>) -> bool;

/// Width in pixels of the image encoded in `bytes`.
pub uninterp spec fn decoded_width(bytes: Seq<u8>) -> int;

/// Height in pixels of the image encoded in `bytes`.
pub uninterp spec fn decoded_height(bytes: Seq<u8>) -> int;

/// Row-major interleaved RGB bytes of the image encoded in `bytes`.
pub uninterp spec fn decoded_rgb(bytes: Seq<u8>) -> Seq<u8>;

/// Row-major interleaved RGB bytes of `data` (a `w0` by `h0` image)
/// stretched — not letterboxed — to `w1` by `h1` with a triangle filter.
pub uninterp spec fn resized_rgb(data: Seq<u8>, w0: int, h0: int, w1: int, h1: int) -> Seq<u8>;

/// Sample `c` of the pixel at `(x, y)` of a row-major interleaved RGB
/// buffer that is `w` samples wide.
pub open spec fn rgb_at(data: Seq<u8>, w: int, x: int, y: int, c: int) -> u8 {
    data[3 * (y * w + x) + c]
}

/// Relies on `image::load_from_memory` (format-agnostic decode) and
/// `DynamicImage::to_rgb8`: the raw container of an `RgbImage` holds
/// exactly `3 * width * height` interleaved samples, row-major.
#[verifier::external_body]
fn decode_rgb(bytes: &Vec<u8>) -> (r: Option<(u32, u32, Vec<u8>)>)
    ensures
        r is Some <==> image_decodable(bytes@),
        r matches Some(t) ==> t.0 == decoded_width(bytes@) && t.1 == decoded_height(bytes@)
            && t.2@ == decoded_rgb(bytes@) && t.2@.len() == 3 * (t.0 as int) * (t.1 as int),
{
    match image::load_from_memory(bytes.as_slice()) {
        Ok(img) => {
            let rgb = img.to_rgb8();
            let w = rgb.width();
            let h = rgb.height();
            Some((w, h, rgb.into_raw()))
        },
        Err(_) => None,
    }
}

/// Relies on `image::imageops::resize`: the output has exactly the
/// requested dimensions, and its pixels are a function of the input
/// pixels and the filter alone.
#[verifier::external_body]
fn resize_rgb(w: u32, h: u32, data: &Vec<u8>, nw: u32, nh: u32) -> (r: Vec<u8>)
    requires
        data@.len() == 3 * (w as int) * (h as int),
        1 <= w,
        1 <= h,
        1 <= nw,
        1 <= nh,
        w <= MAX_IMAGE_DIM,
        h <= MAX_IMAGE_DIM,
        nw <= MAX_IMAGE_DIM,
        nh <= MAX_IMAGE_DIM,
    ensures
        r@ == resized_rgb(data@, w as int, h as int, nw as int, nh as int),
        r@.len() == 3 * (nw as int) * (nh as int),
{
    let img = image::RgbImage::from_raw(w, h, data.clone()).unwrap();
    image::imageops::resize(&img, nw, nh, image::imageops::FilterType::Triangle).into_raw()
}

/// Relies on `image::imageops::crop_imm` and `SubImage::to_image`: with
/// the region inside the image, the output pixel at `(i, j)` is the
/// input pixel at `(x + i, y + j)`.
#[verifier::external_body]
fn crop_rgb(w: u32, h: u32, data: &Vec<u8>, x: u32, y: u32, cw: u32, ch: u32) -> (r: Vec<u8>)
    requires
        data@.len() == 3 * (w as int) * (h as int),
        x + cw <= w,
        y + ch <= h,
        1 <= cw,
        1 <= ch,
    ensures
        r@.len() == 3 * (cw as int) * (ch as int),
        forall|j: int, i: int, c: int|
            0 <= j < ch && 0 <= i < cw && 0 <= c < 3 ==> #[trigger] rgb_at(r@, cw as int, i, j, c)
                == rgb_at(data@, w as int, x + i, y + j, c),
{
    let img = image::RgbImage::from_raw(w, h, data.clone()).unwrap();
    image::imageops::crop_imm(&img, x, y, cw, ch).to_image().into_raw()
}

/// A decoded image: interleaved RGB samples, row-major.
pub struct RgbImageBuf {
    pub width: u32,
    pub height: u32,
    pub data: Vec<u8>,
}

impl RgbImageBuf {
    pub open spec fn wf(&self) -> bool {
        &&& 1 <= self.width <= MAX_IMAGE_DIM
        &&& 1 <= self.height <= MAX_IMAGE_DIM
        &&& self.data@.len() == 3 * (self.width as int) * (self.height as int)
    }

    /// Sample `c` of the pixel at `(x, y)`.
    pub open spec fn spec_pixel(&self, x: int, y: int, c: int) -> u8 {
        rgb_at(self.data@, self.width as int, x, y, c)
    }
}

/// Decode uploaded bytes into an RGB image. Fails with `DecodeError`
/// exactly when the bytes are malformed or the decoded image is empty
/// or larger than `MAX_IMAGE_DIM` on a side.
pub fn decode_photo(bytes: &Vec<u8>) -> (r: Result<RgbImageBuf, CreatePhotoError>)
    ensures
        match r {
            Ok(img) => {
                &&& image_decodable(bytes@)
                &&& img.wf()
                &&& img.width == decoded_width(bytes@)
                &&& img.height == decoded_height(bytes@)
                &&& img.data@ == decoded_rgb(bytes@)
            },
            Err(e) => {
                &&& e == CreatePhotoError::DecodeError
                &&& (image_decodable(bytes@) ==> !(1 <= decoded_width(bytes@)
                    <= MAX_IMAGE_DIM as int && 1 <= decoded_height(bytes@)
                    <= MAX_IMAGE_DIM as int))
            },
        },
{
    match decode_rgb(bytes) {
        Some((w, h, data)) => {
            if 1 <= w && w <= MAX_IMAGE_DIM && 1 <= h && h <= MAX_IMAGE_DIM {
                Ok(RgbImageBuf { width: w, height: h, data })
            } else {
                Err(CreatePhotoError::DecodeError)
            }
        },
        None => Err(CreatePhotoError::DecodeError),
    }
}

/// Stretch `img` to exactly `nw` by `nh` pixels, without preserving the
/// aspect ratio.
pub fn resize_image(img: &RgbImageBuf, nw: u32, nh: u32) -> (r: RgbImageBuf)
    requires
        img.wf(),
        1 <= nw <= MAX_IMAGE_DIM,
        1 <= nh <= MAX_IMAGE_DIM,
    ensures
        r.wf(),
        r.width == nw,
        r.height == nh,
        r.data@ == resized_rgb(
            img.data@,
            img.width as int,
            img.height as int,
            nw as int,
            nh as int,
        ),
{
    let data = resize_rgb(img.width, img.height, &img.data, nw, nh);
    RgbImageBuf { width: nw, height: nh, data }
}

/// Cut the region of `bb` out of `image`. The result is exactly the
/// boxed region: its pixel at `(i, j)` is the source pixel at
/// `(bb.x_tl + i, bb.y_tl + j)`.
pub fn cut_image(image: &RgbImageBuf, bb: &PixelBox) -> (r: RgbImageBuf)
    requires
        image.wf(),
        bb.x_tl <= bb.x_br <= image.width,
        bb.y_tl <= bb.y_br <= image.height,
        bb.spec_cuttable(),
    ensures
        r.wf(),
        r.width == bb.x_br - bb.x_tl,
        r.height == bb.y_br - bb.y_tl,
        forall|j: int, i: int, c: int|
            0 <= j < r.height && 0 <= i < r.width && 0 <= c < 3 ==> #[trigger] rgb_at(
                r.data@,
                r.width as int,
                i,
                j,
                c,
            ) == image.spec_pixel(bb.x_tl + i, bb.y_tl + j, c),
{
    let cw = bb.region_width();
    let ch = bb.region_height();
    let data = crop_rgb(image.width, image.height, &image.data, bb.x_tl, bb.y_tl, cw, ch);
    RgbImageBuf { width: cw, height: ch, data }
}

} // verus!
