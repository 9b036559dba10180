//! The waveform rasterizer: maps a one-dimensional sample sequence onto a
//! two-dimensional banded pixel grid, with clip accenting and gap-free
//! vertical segment drawing.

use crate::sample::Sample;
use vstd::arithmetic::div_mod::{
    lemma_div_by_multiple, lemma_div_is_ordered, lemma_div_pos_is_pos, lemma_fundamental_div_mod,
    lemma_fundamental_div_mod_converse, lemma_mod_division_less_than_divisor,
};
use vstd::arithmetic::mul::{lemma_mul_inequality, lemma_mul_nonnegative};
use vstd::pervasive::VecAdditionalExecFns;
use vstd::prelude::*;

verus! {

/// Height of one waveform band, in pixels.
pub const BANDH: u32 = 64;

/// Vertical space above each band (and below the last one), in pixels.
pub const SPACE: u32 = 16;

/// Vertical distance from the top of one band to the top of the next.
pub const ROW_PITCH: u32 = BANDH + SPACE;

/// Grey level of the background fill.
pub const BG_GREY: u8 = 0xfc;

/// Grey level of each band's midline.
pub const MID_GREY: u8 = 0xee;

/// Grey level of a normal (unclipped) trace.
pub const TRACE_GREY: u8 = 0x33;

/// One RGB pixel.
#[derive(Clone, Copy, Debug, PartialEq, Eq, Structural)]
pub struct Rgb {
    pub r: u8,
    pub g: u8,
    pub b: u8,
}

/// The background fill color: a near-white neutral grey.
pub open spec fn background_rgb() -> Rgb {
    Rgb { r: BG_GREY, g: BG_GREY, b: BG_GREY }
}

/// The light grey of each band's midline.
pub open spec fn midline_rgb() -> Rgb {
    Rgb { r: MID_GREY, g: MID_GREY, b: MID_GREY }
}

/// The dark grey of a normal trace segment.
pub open spec fn normal_rgb() -> Rgb {
    Rgb { r: TRACE_GREY, g: TRACE_GREY, b: TRACE_GREY }
}

/// The reddish accent of a clipped trace segment.
pub open spec fn accent_rgb() -> Rgb {
    Rgb { r: 0xcc, g: 0x33, b: 0x33 }
}

/// The color a sample's trace is drawn in: accent when it clips, else the
/// normal dark grey. The clip test uses the unclamped stored value.
pub open spec fn trace_rgb(s: Sample) -> Rgb {
    if s.is_clipped() {
        accent_rgb()
    } else {
        normal_rgb()
    }
}

/// A width x height grid of RGB pixels, row-major, three bytes per pixel.
pub struct RasterImage {
    pub width: u32,
    pub height: u32,
    pub data: Vec<u8>,
}

impl RasterImage {
    /// The byte buffer holds exactly three bytes for every pixel.
    pub open spec fn wf(self) -> bool {
        self.data@.len() == (self.width as int) * (self.height as int) * 3
    }

    /// The pixel at column `x`, row `y`.
    pub open spec fn pixel(self, x: int, y: int) -> Rgb {
        let k = 3 * (y * (self.width as int) + x);
        Rgb { r: self.data@[k], g: self.data@[k + 1], b: self.data@[k + 2] }
    }
}

/// The first byte of pixel `(x, y)` lies within the buffer.
pub proof fn lemma_pixel_index_bound(w: int, h: int, x: int, y: int)
    requires
        0 <= x < w,
        0 <= y < h,
    ensures
        0 <= y * w,
        0 <= 3 * (y * w + x),
        y * w + x < w * h,
        w * h <= w * h * 3,
        3 * (y * w + x) + 2 < w * h * 3,
{
    assert(0 <= y * w && y * w + x < w * h && 0 <= w * h) by (nonlinear_arith)
        requires
            0 <= x < w,
            0 <= y < h,
    ;
}

/// Distinct in-bounds cells occupy distinct row-major positions.
pub proof fn lemma_row_major_injective(w: int, x1: int, y1: int, x2: int, y2: int)
    requires
        0 <= x1 < w,
        0 <= x2 < w,
        0 <= y1,
        0 <= y2,
        !(x1 == x2 && y1 == y2),
    ensures
        y1 * w + x1 != y2 * w + x2,
{
    assert(y1 * w + x1 != y2 * w + x2) by (nonlinear_arith)
        requires
            0 <= x1 < w,
            0 <= x2 < w,
            0 <= y1,
            0 <= y2,
            !(x1 == x2 && y1 == y2),
    ;
}

/// Blank single-color image.
pub fn blank(width: u32, height: u32, grey: u8) -> (img: RasterImage)
    requires
        (width as int) * (height as int) * 3 <= u32::MAX,
    ensures
        img.wf(),
        img.width == width,
        img.height == height,
        forall|x: int, y: int|
            0 <= x < width && 0 <= y < height ==> img.pixel(x, y) == (Rgb {
                r: grey,
                g: grey,
                b: grey,
            }),
{
    let n: u32 = width * height * 3;
    let mut data: Vec<u8> = Vec::new();
    let mut k: u32 = 0;
    while k < n
        invariant
            k <= n,
            data@.len() == k,
            forall|j: int| 0 <= j < k ==> data@[j] == grey,
        decreases n - k,
    {
        data.push(grey);
        k = k + 1;
    }
    let img = RasterImage { width, height, data };
    proof {
        assert forall|x: int, y: int| 0 <= x < width && 0 <= y < height implies img.pixel(x, y)
            == (Rgb { r: grey, g: grey, b: grey }) by {
            lemma_pixel_index_bound(width as int, height as int, x, y);
            let k = 3 * (y * (width as int) + x);
            assert(img.data@[k] == grey);
            assert(img.data@[k + 1] == grey);
            assert(img.data@[k + 2] == grey);
        }
    }
    img
}

/// Overwrite the single pixel `(x, y)` with `color`; every other pixel is
/// unchanged.
pub fn set_pixel(img: &mut RasterImage, x: u32, y: u32, color: Rgb)
    requires
        old(img).wf(),
        x < old(img).width,
        y < old(img).height,
    ensures
        final(img).wf(),
        final(img).width == old(img).width,
        final(img).height == old(img).height,
        forall|px: int, py: int|
            0 <= px < final(img).width && 0 <= py < final(img).height ==> final(img).pixel(px, py)
                == (if px == x && py == y {
                color
            } else {
                old(img).pixel(px, py)
            }),
{
    let buf_len: usize = img.data.len();
    proof {
        lemma_pixel_index_bound(img.width as int, img.height as int, x as int, y as int);
        assert(buf_len == img.data@.len());
    }
    let k: usize = 3 * ((y as usize) * (img.width as usize) + (x as usize));
    img.data.set(k, color.r);
    img.data.set(k + 1, color.g);
    img.data.set(k + 2, color.b);
    proof {
        let w = img.width as int;
        let h = img.height as int;
        assert forall|px: int, py: int| 0 <= px < w && 0 <= py < h implies img.pixel(px, py) == (
        if px == x && py == y {
            color
        } else {
            old(img).pixel(px, py)
        }) by {
            lemma_pixel_index_bound(w, h, px, py);
            if !(px == x && py == y) {
                lemma_row_major_injective(w, px, py, x as int, y as int);
            }
        }
    }
}

/// Draw a solid vertical segment in `color` at column `x`, spanning rows
/// `lo` to `hi` inclusive; rows at or past the image height are skipped
/// without affecting the rest.
pub fn draw_segment(img: &mut RasterImage, x: u32, lo: u64, hi: u64, color: Rgb)
    requires
        old(img).wf(),
        x < old(img).width,
        lo <= hi,
        hi < u64::MAX,
    ensures
        final(img).wf(),
        final(img).width == old(img).width,
        final(img).height == old(img).height,
        forall|px: int, py: int|
            0 <= px < final(img).width && 0 <= py < final(img).height ==> final(img).pixel(px, py)
                == (if px == x && lo <= py <= hi {
                color
            } else {
                old(img).pixel(px, py)
            }),
{
    let mut j: u64 = lo;
    while j <= hi
        invariant
            img.wf(),
            img.width == old(img).width,
            img.height == old(img).height,
            x < img.width,
            lo <= j <= hi + 1,
            hi < u64::MAX,
            forall|px: int, py: int|
                0 <= px < img.width && 0 <= py < img.height ==> img.pixel(px, py) == (if px == x
                    && lo <= py < j {
                    color
                } else {
                    old(img).pixel(px, py)
                }),
        decreases hi + 1 - j,
    {
        if j < img.height as u64 {
            set_pixel(img, x, j as u32, color);
        }
        j = j + 1;
    }
}

/// The band row that sample `i` falls in when wrapped at `width`.
pub open spec fn row_of(i: int, width: int) -> int {
    i / width
}

/// The column that sample `i` falls in when wrapped at `width`.
pub open spec fn col_of(i: int, width: int) -> int {
    i % width
}

/// The y coordinate of band `row`'s midline.
pub open spec fn band_center_y(row: int) -> int {
    (SPACE as int) + row * (ROW_PITCH as int) + (BANDH as int) / 2
}

/// Whether pixel row `y` lies within the vertical extent of some band,
/// that is, within half a band height of some band's midline.
pub open spec fn in_band(y: int) -> bool {
    y >= SPACE && (y - SPACE) % (ROW_PITCH as int) <= BANDH
}

/// The band row whose vertical extent contains `y`.
pub open spec fn band_row(y: int) -> int {
    (y - SPACE) / (ROW_PITCH as int)
}

/// How many band rows have their midline above an image bottom of `height`.
pub open spec fn rows_fitting(height: int) -> int {
    if height > (SPACE as int) + (BANDH as int) / 2 {
        (height - ((SPACE as int) + (BANDH as int) / 2 + 1)) / (ROW_PITCH as int) + 1
    } else {
        0
    }
}

/// How many leading samples are drawn: every sample of a band whose midline
/// is out of the image is a hard stop for it and all later samples.
pub open spec fn drawn_count(len: int, width: int, height: int) -> int {
    let cap = width * rows_fitting(height);
    if len <= cap {
        len
    } else {
        cap
    }
}

/// The y coordinate of the endpoint drawn for sample `i`: its band midline
/// shifted up by the sample's offset.
pub open spec fn sample_y(samples: Seq<Sample>, i: int, width: int) -> int {
    band_center_y(row_of(i, width)) - samples[i].offset()
}

/// The reference endpoint that sample `i`'s vertical segment starts from:
/// the previous sample's endpoint, or its own at a row boundary.
pub open spec fn prev_sample_y(samples: Seq<Sample>, i: int, width: int) -> int {
    if col_of(i, width) == 0 {
        sample_y(samples, i, width)
    } else {
        sample_y(samples, i - 1, width)
    }
}

/// Top end (inclusive) of sample `i`'s vertical segment.
pub open spec fn seg_lo(samples: Seq<Sample>, i: int, width: int) -> int {
    if prev_sample_y(samples, i, width) < sample_y(samples, i, width) {
        prev_sample_y(samples, i, width)
    } else {
        sample_y(samples, i, width)
    }
}

/// Bottom end (inclusive) of sample `i`'s vertical segment.
pub open spec fn seg_hi(samples: Seq<Sample>, i: int, width: int) -> int {
    if prev_sample_y(samples, i, width) < sample_y(samples, i, width) {
        sample_y(samples, i, width)
    } else {
        prev_sample_y(samples, i, width)
    }
}

/// What the pixel at `(x, y)` holds once the first `drawn` samples have
/// been rendered: its column's trace segment where that covers it, else the
/// band midline grey on the midline, else the background. Each in-bounds
/// cell is owned by at most the one sample at its column and band row.
pub open spec fn rendered_pixel_upto(
    samples: Seq<Sample>,
    width: int,
    drawn: int,
    x: int,
    y: int,
) -> Rgb {
    let r = band_row(y);
    let i = r * width + x;
    if in_band(y) && 0 <= i && i < drawn {
        if seg_lo(samples, i, width) <= y && y <= seg_hi(samples, i, width) {
            trace_rgb(samples[i])
        } else if y == band_center_y(r) {
            midline_rgb()
        } else {
            background_rgb()
        }
    } else {
        background_rgb()
    }
}

/// The pixel at `(x, y)` of the fully rendered image.
pub open spec fn rendered_pixel(
    samples: Seq<Sample>,
    width: int,
    height: int,
    x: int,
    y: int,
) -> Rgb {
    rendered_pixel_upto(samples, width, drawn_count(samples.len() as int, width, height), x, y)
}

/// Any y within half a band height of band `r`'s midline lies in band `r`.
pub proof fn lemma_in_band_of_center(r: int, y: int)
    requires
        r >= 0,
        band_center_y(r) - (BANDH as int) / 2 <= y <= band_center_y(r) + (BANDH as int) / 2,
    ensures
        in_band(y),
        band_row(y) == r,
{
    let rem = y - (SPACE as int) - r * (ROW_PITCH as int);
    lemma_fundamental_div_mod_converse(y - (SPACE as int), ROW_PITCH as int, r, rem);
}

/// A y within some band lies within half a band height of its own band's
/// midline.
pub proof fn lemma_band_row_extent(y: int)
    requires
        in_band(y),
    ensures
        band_row(y) >= 0,
        band_center_y(band_row(y)) - (BANDH as int) / 2 <= y <= band_center_y(band_row(y)) + (
        BANDH as int) / 2,
{
    lemma_fundamental_div_mod(y - (SPACE as int), ROW_PITCH as int);
    lemma_mod_division_less_than_divisor(y - (SPACE as int), ROW_PITCH as int);
    lemma_div_pos_is_pos(y - (SPACE as int), ROW_PITCH as int);
}

/// A band's midline is inside the image exactly when the band's row number
/// is under `rows_fitting`.
pub proof fn lemma_center_fits_iff(r: int, height: int)
    requires
        r >= 0,
    ensures
        band_center_y(r) < height <==> r < rows_fitting(height),
        rows_fitting(height) >= 0,
{
    let pitch = ROW_PITCH as int;
    let base = (SPACE as int) + (BANDH as int) / 2;
    if height > base {
        let q = (height - base - 1) / pitch;
        lemma_div_pos_is_pos(height - base - 1, pitch);
        if band_center_y(r) < height {
            // pitch * r <= height - base - 1, so r <= q
            lemma_div_is_ordered(r * pitch, height - base - 1, pitch);
            lemma_div_by_multiple(r, pitch);
            assert(r <= q);
        }
        if r < rows_fitting(height) {
            // r <= q, so pitch * r <= pitch * q <= height - base - 1
            lemma_mul_inequality(r, q, pitch);
            lemma_fundamental_div_mod(height - base - 1, pitch);
            lemma_mod_division_less_than_divisor(height - base - 1, pitch);
            assert(band_center_y(r) < height);
        }
    }
}

/// At the first sample of a row whose midline missed the image, the pass
/// has drawn exactly the capped number of samples.
proof fn lemma_stopped_row(len: int, width: int, height: int, i: int)
    requires
        width >= 1,
        0 <= i < len,
        i <= width * rows_fitting(height),
        band_center_y(i / width) >= height,
    ensures
        i == drawn_count(len, width, height),
{
    let r = i / width;
    lemma_div_pos_is_pos(i, width);
    lemma_center_fits_iff(r, height);
    assert(r >= rows_fitting(height));
    lemma_mul_inequality(rows_fitting(height), r, width);
    lemma_fundamental_div_mod(i, width);
    lemma_mod_division_less_than_divisor(i, width);
    assert(i >= width * (i / width)) by (nonlinear_arith)
        requires
            i == width * (i / width) + i % width,
            i % width >= 0,
    ;
    assert(rows_fitting(height) * width == width * rows_fitting(height)) by (nonlinear_arith);
    assert(r * width == width * r) by (nonlinear_arith);
}

/// Rasterize `samples` into a `width` x `height` image: background fill,
/// one light-grey midline pixel per drawn sample, and one vertical trace
/// segment per drawn sample in its trace color. A sample whose band
/// midline falls outside the image stops the pass for it and for every
/// later sample; a segment pixel outside the image is skipped without
/// stopping the pass.
pub fn generate(samples: &Vec<Sample>, width: u32, height: u32) -> (img: RasterImage)
    requires
        samples.len() > 0 ==> width >= 1,
        (width as int) * (height as int) * 3 <= u32::MAX,
    ensures
        img.wf(),
        img.width == width,
        img.height == height,
        forall|x: int, y: int|
            0 <= x < width && 0 <= y < height ==> img.pixel(x, y) == rendered_pixel(
                samples@,
                width as int,
                height as int,
                x,
                y,
            ),
{
    let mut img = blank(width, height, BG_GREY);
    if samples.len() == 0 {
        proof {
            lemma_center_fits_iff(0, height as int);
            lemma_mul_nonnegative(width as int, rows_fitting(height as int));
        }
        return img;
    }
    let len: usize = samples.len();
    let w64: u64 = width as u64;
    let h64: u64 = height as u64;
    let mut i: usize = 0;
    let mut prev: u64 = 0;
    while i < len
        invariant
            img.wf(),
            img.width == width,
            img.height == height,
            width >= 1,
            i <= len,
            len == samples.len(),
            w64 == width,
            h64 == height,
            i as int <= (width as int) * rows_fitting(height as int),
            col_of(i as int, width as int) != 0 ==> prev == sample_y(
                samples@,
                i as int - 1,
                width as int,
            ),
            forall|x: int, y: int|
                0 <= x < width && 0 <= y < height ==> img.pixel(x, y) == rendered_pixel_upto(
                    samples@,
                    width as int,
                    i as int,
                    x,
                    y,
                ),
        ensures
            img.wf(),
            img.width == width,
            img.height == height,
            i as int == drawn_count(len as int, width as int, height as int),
        decreases len - i,
    {
        let iu: u64 = i as u64;
        let x64: u64 = iu % w64;
        let r64: u64 = iu / w64;
        proof {
            lemma_fundamental_div_mod(i as int, width as int);
            lemma_mod_division_less_than_divisor(i as int, width as int);
            lemma_div_pos_is_pos(i as int, width as int);
        }
        // The midline row grows with the band row, so computing it stays
        // within u64 whenever the row number itself is still under the
        // image height; a row at or past it is a hard stop either way.
        if r64 >= h64 {
            proof {
                lemma_stopped_row(len as int, width as int, height as int, i as int);
            }
            break ;
        }
        let center: u64 = SPACE as u64 + r64 * ROW_PITCH as u64 + (BANDH / 2) as u64;
        if center >= h64 {
            proof {
                lemma_stopped_row(len as int, width as int, height as int, i as int);
            }
            break ;
        }
        let x: u32 = x64 as u32;
        let c: u32 = center as u32;
        proof {
            // the next index still lies within the fitting rows
            lemma_center_fits_iff(r64 as int, height as int);
            lemma_mul_inequality(r64 as int + 1, rows_fitting(height as int), width as int);
            assert((r64 as int + 1) * (width as int) == r64 as int * (width as int) + (
            width as int)) by (nonlinear_arith);
            assert(r64 as int * (width as int) == (width as int) * (r64 as int))
                by (nonlinear_arith);
            assert(rows_fitting(height as int) * (width as int) == (width as int) * rows_fitting(
                height as int,
            )) by (nonlinear_arith);
        }
        let ghost img0 = img;
        set_pixel(&mut img, x, c, Rgb { r: MID_GREY, g: MID_GREY, b: MID_GREY });
        let ghost img1 = img;
        let s: Sample = samples[i];
        let off: i32 = s.offset_px();
        let yy: u64 = if off >= 0 {
            center - (off as u64)
        } else {
            center + ((-off) as u64)
        };
        proof {
            if col_of(i as int, width as int) != 0 {
                lemma_fundamental_div_mod_converse(
                    i as int - 1,
                    width as int,
                    r64 as int,
                    x64 as int - 1,
                );
                samples@[i as int - 1].lemma_offset_bounds();
            }
        }
        let p: u64 = if x == 0 {
            yy
        } else {
            prev
        };
        let lo: u64 = if p < yy {
            p
        } else {
            yy
        };
        let hi: u64 = if p < yy {
            yy
        } else {
            p
        };
        let color: Rgb = if s.clipped() {
            Rgb { r: 0xcc, g: 0x33, b: 0x33 }
        } else {
            Rgb { r: TRACE_GREY, g: TRACE_GREY, b: TRACE_GREY }
        };
        draw_segment(&mut img, x, lo, hi, color);
        proof {
            let sw = width as int;
            let ii = i as int;
            let r = r64 as int;
            assert(sample_y(samples@, ii, sw) == yy as int);
            assert(prev_sample_y(samples@, ii, sw) == p as int);
            assert(seg_lo(samples@, ii, sw) == lo as int);
            assert(seg_hi(samples@, ii, sw) == hi as int);
            assert(trace_rgb(samples@[ii]) == color);
            assert(ii == r * sw + x64 as int) by (nonlinear_arith)
                requires
                    ii == sw * r + x64 as int,
            ;
            samples@[ii].lemma_offset_bounds();
            assert(center as int - (BANDH as int) / 2 <= lo as int && hi as int <= center as int
                + (BANDH as int) / 2);
            assert forall|px: int, py: int| 0 <= px < width && 0 <= py < height implies img.pixel(
                px,
                py,
            ) == rendered_pixel_upto(samples@, sw, ii + 1, px, py) by {
                let rr = band_row(py);
                let cand = rr * sw + px;
                if in_band(py) {
                    lemma_band_row_extent(py);
                    lemma_mul_nonnegative(rr, sw);
                    if px == x as int && rr == r {
                        assert(cand == ii);
                    } else {
                        lemma_row_major_injective(sw, px, rr, x64 as int, r);
                        assert(cand != ii);
                        if px == x as int {
                            // a write row would pin py to band r, not rr
                            if lo as int <= py <= hi as int || py == c as int {
                                lemma_in_band_of_center(r, py);
                                assert(false);
                            }
                        }
                    }
                } else {
                    // no write lands outside every band
                    if px == x as int && (lo as int <= py <= hi as int || py == c as int) {
                        lemma_in_band_of_center(r, py);
                        assert(false);
                    }
                }
            }
        }
        prev = yy;
        i = i + 1;
    }
    proof {
        assert(i as int == drawn_count(samples@.len() as int, width as int, height as int));
    }
    img
}

/// How many band rows the layout needs to hold `len` samples wrapped at
/// `width`: one even when empty, else the count of full and partial rows.
pub open spec fn rows_needed(len: int, width: int) -> int {
    if len == 0 {
        1
    } else {
        (len - 1) / width + 1
    }
}

/// The natural image height for `len` samples wrapped at `width`: space
/// above every band and below the last, a function of the row count alone.
pub open spec fn raster_height(len: int, width: int) -> int {
    (SPACE as int) + rows_needed(len, width) * (ROW_PITCH as int)
}

/// With the natural height, every band's midline fits, and so every sample
/// is drawn: there is no hard stop.
pub proof fn lemma_natural_height_draws_all(len: int, width: int)
    requires
        width >= 1,
        len >= 0,
    ensures
        rows_needed(len, width) >= 1,
        rows_fitting(raster_height(len, width)) == rows_needed(len, width),
        drawn_count(len, width, raster_height(len, width)) == len,
{
    let pitch = ROW_PITCH as int;
    let rows = rows_needed(len, width);
    if len > 0 {
        lemma_div_pos_is_pos(len - 1, width);
    }
    // rows_fitting(16 + rows * 80) == rows
    let base = (SPACE as int) + (BANDH as int) / 2;
    let h = raster_height(len, width);
    assert(h - base - 1 == (rows - 1) * pitch + (pitch - (BANDH as int) / 2 - 1)) by {
        assert(rows * pitch == (rows - 1) * pitch + pitch) by (nonlinear_arith);
    }
    lemma_fundamental_div_mod_converse(
        h - base - 1,
        pitch,
        rows - 1,
        pitch - (BANDH as int) / 2 - 1,
    );
    // len <= width * rows
    if len > 0 {
        let q = (len - 1) / width;
        lemma_fundamental_div_mod(len - 1, width);
        lemma_mod_division_less_than_divisor(len - 1, width);
        assert(width * rows == width * q + width) by (nonlinear_arith)
            requires
                rows == q + 1,
        ;
    } else {
        assert(width * 1 == width) by (nonlinear_arith);
    }
}

/// Rasterize `samples` wrapped at `width` columns into a fresh image of
/// the natural height: the height depends only on how many rows the
/// sample count implies, never on the sample values, and every sample is
/// drawn.
pub fn rasterize(samples: &Vec<Sample>, width: u32) -> (img: RasterImage)
    requires
        width >= 1,
        (width as int) * raster_height(samples@.len() as int, width as int) * 3 <= u32::MAX,
    ensures
        img.wf(),
        img.width == width,
        img.height as int == raster_height(samples@.len() as int, width as int),
        forall|x: int, y: int|
            0 <= x < img.width && 0 <= y < img.height ==> img.pixel(x, y) == rendered_pixel(
                samples@,
                width as int,
                img.height as int,
                x,
                y,
            ),
        drawn_count(samples@.len() as int, width as int, img.height as int) == samples@.len(),
{
    proof {
        lemma_natural_height_draws_all(samples@.len() as int, width as int);
        assert((width as int) * raster_height(samples@.len() as int, width as int) >= raster_height(
            samples@.len() as int,
            width as int,
        ) * 1) by (nonlinear_arith)
            requires
                width >= 1,
                raster_height(samples@.len() as int, width as int) >= 0,
        ;
    }
    let len: usize = samples.len();
    let rows: u64 = if len == 0 {
        1
    } else {
        ((len - 1) as u64) / (width as u64) + 1
    };
    let height64: u64 = SPACE as u64 + rows * ROW_PITCH as u64;
    let height: u32 = height64 as u32;
    generate(samples, width, height)
}

/// The rasterized image's height is a function of the row count implied
/// by the sample count and the width alone: sequences of equal length
/// get equal heights whatever their values.
pub proof fn lemma_height_value_independent(a: Seq<Sample>, b: Seq<Sample>, width: int)
    requires
        a.len() == b.len(),
    ensures
        raster_height(a.len() as int, width) == raster_height(b.len() as int, width),
{
}

/// The midline pixel of a drawn sample is the fixed light grey whenever
/// the sample's own trace segment leaves the midline uncovered; it is laid
/// down for clipped and silent samples alike, whatever their amplitude.
pub proof fn lemma_midline_grey(samples: Seq<Sample>, width: int, height: int, i: int)
    requires
        width >= 1,
        0 <= i < drawn_count(samples.len() as int, width, height),
        !(seg_lo(samples, i, width) <= band_center_y(row_of(i, width)) <= seg_hi(
            samples,
            i,
            width,
        )),
    ensures
        rendered_pixel(
            samples,
            width,
            height,
            col_of(i, width),
            band_center_y(row_of(i, width)),
        ) == midline_rgb(),
{
    let r = row_of(i, width);
    let c = band_center_y(r);
    lemma_div_pos_is_pos(i, width);
    lemma_fundamental_div_mod(i, width);
    lemma_mod_division_less_than_divisor(i, width);
    lemma_in_band_of_center(r, c);
    assert(r * width + col_of(i, width) == i) by (nonlinear_arith)
        requires
            i == width * r + col_of(i, width),
    ;
}

/// Every pixel of a drawn sample's vertical segment carries that sample's
/// trace color: the accent color exactly when the sample clips, the
/// normal dark grey otherwise.
pub proof fn lemma_segment_colored(samples: Seq<Sample>, width: int, height: int, i: int, y: int)
    requires
        width >= 1,
        0 <= i < drawn_count(samples.len() as int, width, height),
        seg_lo(samples, i, width) <= y <= seg_hi(samples, i, width),
    ensures
        rendered_pixel(samples, width, height, col_of(i, width), y) == trace_rgb(samples[i]),
        samples[i].is_clipped() ==> rendered_pixel(samples, width, height, col_of(i, width), y)
            == accent_rgb(),
        !samples[i].is_clipped() ==> rendered_pixel(samples, width, height, col_of(i, width), y)
            == normal_rgb(),
{
    let r = row_of(i, width);
    let c = band_center_y(r);
    lemma_div_pos_is_pos(i, width);
    lemma_fundamental_div_mod(i, width);
    lemma_mod_division_less_than_divisor(i, width);
    samples[i].lemma_offset_bounds();
    if col_of(i, width) != 0 {
        lemma_fundamental_div_mod_converse(i - 1, width, r, col_of(i, width) - 1);
        samples[i - 1].lemma_offset_bounds();
    }
    assert(c - (BANDH as int) / 2 <= y <= c + (BANDH as int) / 2);
    lemma_in_band_of_center(r, y);
    assert(r * width + col_of(i, width) == i) by (nonlinear_arith)
        requires
            i == width * r + col_of(i, width),
    ;
}

/// The endpoint of a drawn sample's segment sits exactly the sample's
/// offset above its band midline, and is itself drawn in the trace color.
pub proof fn lemma_endpoint_drawn(samples: Seq<Sample>, width: int, height: int, i: int)
    requires
        width >= 1,
        0 <= i < drawn_count(samples.len() as int, width, height),
    ensures
        sample_y(samples, i, width) == band_center_y(row_of(i, width)) - samples[i].offset(),
        rendered_pixel(samples, width, height, col_of(i, width), sample_y(samples, i, width))
            == trace_rgb(samples[i]),
{
    lemma_segment_colored(samples, width, height, i, sample_y(samples, i, width));
}

/// Rasterization has no hidden state: any two images that satisfy the
/// rasterizer's contract for the same samples and dimensions are identical
/// byte for byte.
pub proof fn lemma_rasterize_deterministic(a: RasterImage, b: RasterImage, samples: Seq<Sample>)
    requires
        a.wf(),
        b.wf(),
        a.width == b.width,
        a.height == b.height,
        forall|x: int, y: int|
            0 <= x < a.width && 0 <= y < a.height ==> a.pixel(x, y) == rendered_pixel(
                samples,
                a.width as int,
                a.height as int,
                x,
                y,
            ),
        forall|x: int, y: int|
            0 <= x < b.width && 0 <= y < b.height ==> b.pixel(x, y) == rendered_pixel(
                samples,
                b.width as int,
                b.height as int,
                x,
                y,
            ),
    ensures
        a.data@ == b.data@,
{
    lemma_rendered_data(a, samples);
    lemma_rendered_data(b, samples);
}

/// The pixel at `(x, y)` of a row-major RGB byte sequence `width` wide.
pub open spec fn data_pixel(data: Seq<u8>, width: int, x: int, y: int) -> Rgb {
    let k = 3 * (y * width + x);
    Rgb { r: data[k], g: data[k + 1], b: data[k + 2] }
}

/// The byte at position `k` of the fully rendered image's buffer.
pub open spec fn rendered_byte(samples: Seq<Sample>, width: int, height: int, k: int) -> u8 {
    let q = k / 3;
    let c = k % 3;
    let y = q / width;
    let x = q % width;
    let px = rendered_pixel(samples, width, height, x, y);
    if c == 0 {
        px.r
    } else if c == 1 {
        px.g
    } else {
        px.b
    }
}

/// The whole buffer of the fully rendered image, row-major RGB.
pub open spec fn rendered_data(samples: Seq<Sample>, width: int, height: int) -> Seq<u8> {
    Seq::new((width * height * 3) as nat, |k: int| rendered_byte(samples, width, height, k))
}

/// An image whose every pixel satisfies the rasterizer's pixel contract
/// holds exactly the rendered buffer, byte for byte.
pub proof fn lemma_rendered_data(a: RasterImage, samples: Seq<Sample>)
    requires
        a.wf(),
        forall|x: int, y: int|
            0 <= x < a.width && 0 <= y < a.height ==> a.pixel(x, y) == rendered_pixel(
                samples,
                a.width as int,
                a.height as int,
                x,
                y,
            ),
    ensures
        a.data@ == rendered_data(samples, a.width as int, a.height as int),
{
    let w = a.width as int;
    let h = a.height as int;
    assert(rendered_data(samples, w, h).len() == a.data@.len());
    assert forall|k: int| 0 <= k < a.data@.len() implies a.data@[k] == rendered_data(
        samples,
        w,
        h,
    )[k] by {
        let q = k / 3;
        let c = k % 3;
        lemma_fundamental_div_mod(k, 3);
        lemma_mod_division_less_than_divisor(k, 3);
        lemma_div_pos_is_pos(k, 3);
        let y = q / w;
        let x = q % w;
        assert(w >= 1 && h >= 1) by (nonlinear_arith)
            requires
                w * h * 3 > k >= 0,
                w >= 0,
                h >= 0,
        ;
        assert(q < w * h) by (nonlinear_arith)
            requires
                3 * q + c == k,
                k < w * h * 3,
                c >= 0,
        ;
        lemma_fundamental_div_mod(q, w);
        lemma_mod_division_less_than_divisor(q, w);
        lemma_div_pos_is_pos(q, w);
        assert(y < h) by (nonlinear_arith)
            requires
                q == w * y + x,
                0 <= x < w,
                q < w * h,
                y >= 0,
        ;
        assert(k == 3 * (y * w + x) + c) by (nonlinear_arith)
            requires
                k == 3 * q + c,
                q == w * y + x,
        ;
        assert(a.pixel(x, y) == rendered_pixel(samples, w, h, x, y));
    }
    assert(a.data@ =~= rendered_data(samples, w, h));
}

/// Read the pixel at `(x, y)`.
pub fn get_pixel(img: &RasterImage, x: u32, y: u32) -> (c: Rgb)
    requires
        img.wf(),
        x < img.width,
        y < img.height,
    ensures
        c == img.pixel(x as int, y as int),
{
    proof {
        lemma_pixel_index_bound(img.width as int, img.height as int, x as int, y as int);
        assert(img.data@.len() == img.data.len());
    }
    let k: usize = 3 * ((y as usize) * (img.width as usize) + (x as usize));
    Rgb { r: img.data[k], g: img.data[k + 1], b: img.data[k + 2] }
}

} // verus!
