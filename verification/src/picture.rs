use vstd::prelude::*;

use crate::bitmap::{luma_to_ink, LabelBitmap};

verus! {

/// An 8-bit grayscale image in row-major order (0 = black, 255 = white).
pub struct LumaImage {
    pub width: u32,
    pub height: u32,
    pub luma: Vec<u8>,
}

impl LumaImage {
    /// The buffer holds exactly `width * height` levels.
    pub open spec fn wf(&self) -> bool {
        self.luma@.len() == self.width * self.height
    }
}

/// What `image::imageops::resize` with the triangle (bilinear) filter
/// returns for a `width` × `height` grayscale buffer resized to
/// `new_width` × `new_height`, as a row-major buffer; it depends on these
/// arguments alone.
pub uninterp spec fn resized_luma(
    width: u32,
    height: u32,
    luma: Seq<u8>,
    new_width: u32,
    new_height: u32,
) -> Seq<u8>;

/// `image::imageops::resize` on a grayscale buffer, bilinear filter.
///
/// Its result is named by `resized_luma`; the source shows three facts that
/// are stated here: the result has `new_width * new_height` levels, an empty
/// source gives a black buffer, and resizing to the same dimensions copies.
/// What resampling computes otherwise is left unsaid.
#[verifier::external_body]
fn resize_luma(width: u32, height: u32, luma: &[u8], new_width: u32, new_height: u32) -> (r: Vec<
    u8,
>)
    requires
        luma@.len() == width * height,
        new_width * new_height <= u32::MAX,
        width * new_height * 4 <= usize::MAX,
    ensures
        r@ == resized_luma(width, height, luma@, new_width, new_height),
        r@.len() == new_width * new_height,
        width == 0 || height == 0 ==> r@ == Seq::new(
            (new_width * new_height) as nat,
            |i: int| 0u8,
        ),
        width == new_width && height == new_height ==> r@ == luma@,
{
    let img = image::GrayImage::from_raw(width, height, luma.to_vec()).expect(
        "buffer length matches the dimensions",
    );
    image::imageops::resize(&img, new_width, new_height, image::imageops::FilterType::Triangle).into_raw()
}

/// Width of an image scaled to `tape_px` rows, keeping its aspect ratio
/// (rounded to the nearest column, at least one column for a non-empty image).
pub open spec fn scaled_width(width: u32, height: u32, tape_px: u32) -> nat {
    if width == 0 || height == 0 {
        0
    } else {
        let w = (width * tape_px + height / 2) / height as int;
        if w == 0 {
            1
        } else {
            w as nat
        }
    }
}

/// The image scaled to `tape_px` rows can be held: its pixel count fits in
/// `u32`, and the resampling buffer fits in memory addresses.
pub open spec fn scalable(image: LumaImage, tape_px: u32) -> bool {
    &&& image.wf()
    &&& scaled_width(image.width, image.height, tape_px) * tape_px <= u32::MAX
    &&& image.width * tape_px * 4 <= usize::MAX
}

/// The ink of an image scaled to `tape_px` rows and thresholded.
pub open spec fn scaled_ink(image: LumaImage, tape_px: u32) -> Seq<u8> {
    let w = scaled_width(image.width, image.height, tape_px);
    let levels = resized_luma(image.width, image.height, image.luma@, w as u32, tape_px);
    Seq::new(levels.len(), |i: int| luma_to_ink(levels[i]))
}

pub fn scaled_width_of(width: u32, height: u32, tape_px: u32) -> (w: u32)
    requires
        scaled_width(width, height, tape_px) * tape_px <= u32::MAX,
    ensures
        w == scaled_width(width, height, tape_px),
{
    if width == 0 || height == 0 {
        return 0;
    }
    assert(width as int * tape_px as int <= 0xffff_ffff * 0xffff_ffff) by (nonlinear_arith)
        requires
            width <= 0xffff_ffff,
            tape_px <= 0xffff_ffff,
    ;
    let num: u64 = width as u64 * tape_px as u64 + (height / 2) as u64;
    let w: u64 = num / height as u64;
    if w == 0 {
        1
    } else {
        proof {
            if tape_px > 0 {
                assert(w * tape_px >= w) by (nonlinear_arith)
                    requires
                        tape_px > 0,
                ;
            } else {
                assert(width as int * tape_px as int == 0) by (nonlinear_arith)
                    requires
                        tape_px == 0,
                ;
                assert(num < height);
                assert(w == 0) by (nonlinear_arith)
                    requires
                        w as int == num as int / height as int,
                        num < height,
                        height > 0,
                ;
            }
        }
        w as u32
    }
}

/// Whether an image, scaled to `tape_px` rows after `text_width` columns of
/// text, stays within the sizes that `assemble_label` accepts.
pub open spec fn fits_after_text(image_width: u32, image_height: u32, text_width: u32, tape_px: u32) -> bool {
    let w = scaled_width(image_width, image_height, tape_px);
    &&& w * tape_px <= u32::MAX
    &&& image_width * tape_px * 4 <= usize::MAX
    &&& text_width + w <= u32::MAX
    &&& (text_width + w) * tape_px <= u32::MAX
}

pub fn check_fits_after_text(image_width: u32, image_height: u32, text_width: u32, tape_px: u32) -> (r: bool)
    ensures
        r == fits_after_text(image_width, image_height, text_width, tape_px),
{
    let ghost w = scaled_width(image_width, image_height, tape_px);
    let t = tape_px as u128;
    let m: u128 = 0xffff_ffff;
    proof {
        assert(image_width as int * t <= m * m) by (nonlinear_arith)
            requires
                image_width <= m,
                t <= m,
        ;
    }
    let prod: u128 = image_width as u128 * t;
    let sw: u128 = if image_width == 0 || image_height == 0 {
        0
    } else {
        let num: u128 = prod + (image_height / 2) as u128;
        let q: u128 = num / image_height as u128;
        proof {
            assert(q <= num) by (nonlinear_arith)
                requires
                    q as int == num as int / image_height as int,
                    image_height >= 1,
            ;
        }
        if q == 0 {
            1
        } else {
            q
        }
    };
    assert(sw == w);
    proof {
        assert(sw * t <= (m * m + m) * m) by (nonlinear_arith)
            requires
                sw <= m * m + m,
                t <= m,
        ;
        assert(prod * 4 <= m * m * 4) by (nonlinear_arith)
            requires
                prod <= m * m,
        ;
        assert((text_width + sw) * t <= (m * m + 2 * m) * m) by (nonlinear_arith)
            requires
                sw <= m * m + m,
                text_width <= m,
                t <= m,
        ;
    }
    sw * t <= m && prod * 4 <= usize::MAX as u128 && text_width as u128 + sw <= m && (
    text_width as u128 + sw) * t <= m
}

/// Scale an image to the tape height, keeping its aspect ratio, and turn it
/// into ink: levels darker than 128 become ink.
pub fn scale_to_tape(image: &LumaImage, tape_px: u32) -> (r: LabelBitmap)
    requires
        scalable(*image, tape_px),
    ensures
        r.wf(),
        r.height == tape_px,
        r.width == scaled_width(image.width, image.height, tape_px),
        r.pixels@ == scaled_ink(*image, tape_px),
{
    let w = scaled_width_of(image.width, image.height, tape_px);
    let levels = resize_luma(image.width, image.height, image.luma.as_slice(), w, tape_px);
    LabelBitmap::from_luma(w, tape_px, levels.as_slice())
}

} // verus!
