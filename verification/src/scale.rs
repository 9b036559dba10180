//! The display rescaler: fits a rasterized image into an arbitrary window
//! width without ever upscaling, and composites the result onto a
//! window-sized background anchored at the top left.

use crate::raster::{
    blank, generate, get_pixel, rendered_data, set_pixel, RasterImage, Rgb, BANDH, BG_GREY, SPACE,
};
use crate::sample::Sample;
use vstd::prelude::*;

verus! {

/// Grey level of the window background the fitted image sits on.
pub const WINDOW_GREY: u8 = 0xff;

/// The plain white the window is filled with outside the image.
pub open spec fn window_rgb() -> Rgb {
    Rgb { r: WINDOW_GREY, g: WINDOW_GREY, b: WINDOW_GREY }
}

/// What the image crate's triangle-filter resampler produces from a
/// row-major RGB buffer of the given dimensions when scaled to `target`
/// columns at unchanged height: a pure function of its arguments.
pub uninterp spec fn triangle_resized(data: Seq<u8>, width: int, height: int, target: int) -> Seq<
    u8,
>;

/// Relies on image::imageops::resize with FilterType::Triangle: the
/// output buffer has exactly the requested dimensions, three bytes per
/// pixel, and depends on nothing but the input buffer and the dimensions.
/// image::RgbImage::from_vec accepts the buffer because a well-formed
/// image holds exactly three bytes per pixel.
#[verifier::external_body]
fn resize_triangle(img: &RasterImage, target: u32) -> (r: RasterImage)
    requires
        img.wf(),
        1 <= target < img.width,
    ensures
        r.wf(),
        r.width == target,
        r.height == img.height,
        r.data@ == triangle_resized(
            img.data@,
            img.width as int,
            img.height as int,
            target as int,
        ),
{
    let buf = image::RgbImage::from_vec(img.width, img.height, img.data.clone()).expect(
        "three bytes per pixel",
    );
    let out = image::imageops::resize(
        &buf,
        target,
        img.height,
        image::imageops::FilterType::Triangle,
    );
    RasterImage { width: target, height: img.height, data: out.into_raw() }
}

/// The width an image of `width` columns has after fitting to `target`:
/// never wider than either.
pub open spec fn fitted_width(width: int, target: int) -> int {
    if width <= target {
        width
    } else {
        target
    }
}

/// The buffer an image holds after fitting to `target` columns: unchanged
/// when it already fits, else the triangle-resampled buffer.
pub open spec fn fitted_data(data: Seq<u8>, width: int, height: int, target: int) -> Seq<u8> {
    if width <= target {
        data
    } else if target == 0 {
        Seq::empty()
    } else {
        triangle_resized(data, width, height, target)
    }
}

/// Fit `image` to `target` columns: never upscale, only downscale through
/// the smooth triangle filter when the raw width exceeds the target.
/// The height is preserved for every image and every target.
pub fn fit(image: RasterImage, target: u32) -> (r: RasterImage)
    requires
        image.wf(),
    ensures
        r.wf(),
        r.height == image.height,
        r.width as int == fitted_width(image.width as int, target as int),
        r.data@ == fitted_data(
            image.data@,
            image.width as int,
            image.height as int,
            target as int,
        ),
        image.width <= target ==> r == image,
{
    if image.width <= target {
        image
    } else if target == 0 {
        proof {
            assert((0 as int) * (image.height as int) * 3 == 0) by (nonlinear_arith);
        }
        let r = blank(0, image.height, BG_GREY);
        proof {
            assert(r.data@ =~= Seq::<u8>::empty());
        }
        r
    } else {
        resize_triangle(&image, target)
    }
}

/// The height of the single-band image that `generate1` always produces.
pub open spec fn single_row_height() -> int {
    (BANDH as int) + 2 * (SPACE as int)
}

/// Rasterize the whole sequence as one band at full resolution, one
/// column per sample, then fit the result to `width` columns: downscaled
/// through the triangle filter when there are more samples than columns,
/// left at native resolution otherwise.
pub fn generate1(samples: &Vec<Sample>, width: u32) -> (img: RasterImage)
    requires
        (samples@.len() as int) * single_row_height() * 3 <= u32::MAX,
    ensures
        img.wf(),
        img.height as int == single_row_height(),
        img.width as int == fitted_width(samples@.len() as int, width as int),
        img.data@ == fitted_data(
            rendered_data(samples@, samples@.len() as int, single_row_height()),
            samples@.len() as int,
            single_row_height(),
            width as int,
        ),
{
    proof {
        let l = samples@.len() as int;
        assert(single_row_height() == 96);
        assert(l * single_row_height() * 3 == l * 96 * 3) by (nonlinear_arith)
            requires
                single_row_height() == 96,
        ;
        assert(l <= u32::MAX);
    }
    let len: usize = samples.len();
    let full = generate(samples, len as u32, BANDH + SPACE * 2);
    proof {
        crate::raster::lemma_rendered_data(full, samples@);
    }
    fit(full, width)
}

/// Composite `image` onto a `win_w` x `win_h` window background: the
/// image is anchored at the top left and cropped to the window; every
/// window pixel outside it is plain white. The image never stretches to
/// fill the window.
pub fn compose(image: &RasterImage, win_w: u32, win_h: u32) -> (r: RasterImage)
    requires
        image.wf(),
        (win_w as int) * (win_h as int) * 3 <= u32::MAX,
    ensures
        r.wf(),
        r.width == win_w,
        r.height == win_h,
        forall|x: int, y: int|
            0 <= x < win_w && 0 <= y < win_h ==> r.pixel(x, y) == (if x < image.width && y
                < image.height {
                image.pixel(x, y)
            } else {
                window_rgb()
            }),
{
    let mut out = blank(win_w, win_h, WINDOW_GREY);
    let copy_w: u32 = if image.width < win_w {
        image.width
    } else {
        win_w
    };
    let copy_h: u32 = if image.height < win_h {
        image.height
    } else {
        win_h
    };
    let mut y: u32 = 0;
    while y < copy_h
        invariant
            out.wf(),
            out.width == win_w,
            out.height == win_h,
            y <= copy_h,
            copy_w <= image.width,
            copy_w <= win_w,
            copy_h <= image.height,
            copy_h <= win_h,
            copy_w == if image.width < win_w {
                image.width as int
            } else {
                win_w as int
            },
            copy_h == if image.height < win_h {
                image.height as int
            } else {
                win_h as int
            },
            image.wf(),
            forall|px: int, py: int|
                0 <= px < win_w && 0 <= py < win_h ==> out.pixel(px, py) == (if px < copy_w && py
                    < y {
                    image.pixel(px, py)
                } else {
                    window_rgb()
                }),
        decreases copy_h - y,
    {
        let mut x: u32 = 0;
        while x < copy_w
            invariant
                out.wf(),
                out.width == win_w,
                out.height == win_h,
                y < copy_h,
                x <= copy_w,
                copy_w <= image.width,
                copy_w <= win_w,
                copy_h <= image.height,
                copy_h <= win_h,
                image.wf(),
                forall|px: int, py: int|
                    0 <= px < win_w && 0 <= py < win_h ==> out.pixel(px, py) == (if (px < copy_w
                        && py < y) || (py == y && px < x) {
                        image.pixel(px, py)
                    } else {
                        window_rgb()
                    }),
            decreases copy_w - x,
        {
            let c = get_pixel(image, x, y);
            set_pixel(&mut out, x, y, c);
            x = x + 1;
        }
        y = y + 1;
    }
    out
}

} // verus!
