//! Presentation: an explicit, checked pixel-format conversion from the
//! raster's RGB bytes to the host surface's packed channel order, and the
//! full render path from samples to a presentable buffer.

use crate::raster::{data_pixel, get_pixel, rendered_data, Rgb};
use crate::sample::Sample;
use crate::scale::{compose, fitted_data, fitted_width, generate1, single_row_height, window_rgb};
use vstd::arithmetic::div_mod::{
    lemma_div_pos_is_pos, lemma_fundamental_div_mod, lemma_mod_division_less_than_divisor,
};
use vstd::prelude::*;

verus! {

/// The host surface's packed form of one pixel: red in bits 16 to 23,
/// green in 8 to 15, blue in 0 to 7, high byte zero.
pub open spec fn packed(c: Rgb) -> int {
    c.r * 0x10000 + c.g * 0x100 + c.b
}

/// Pack one pixel into the host surface's channel order.
pub fn pack_pixel(c: Rgb) -> (v: u32)
    ensures
        v == packed(c),
{
    (c.r as u32) * 0x10000 + (c.g as u32) * 0x100 + (c.b as u32)
}

/// The pixel the render path shows at `(x, y)` of a `win_w` x `win_h`
/// window: the fitted single-band raster anchored at the top left, plain
/// white everywhere else.
pub open spec fn frame_pixel(samples: Seq<Sample>, win_w: int, win_h: int, x: int, y: int) -> Rgb {
    let len = samples.len() as int;
    let fw = fitted_width(len, win_w);
    let fh = single_row_height();
    if x < fw && y < fh {
        data_pixel(fitted_data(rendered_data(samples, len, fh), len, fh, win_w), fw, x, y)
    } else {
        window_rgb()
    }
}

/// Render one frame for a `win_w` x `win_h` window: rasterize the whole
/// sequence as one band, fit it to the window width without upscaling,
/// composite onto the window background, and pack row-major for the host
/// surface.
pub fn render_frame(samples: &Vec<Sample>, win_w: u32, win_h: u32) -> (buf: Vec<u32>)
    requires
        (samples@.len() as int) * single_row_height() * 3 <= u32::MAX,
        (win_w as int) * (win_h as int) * 3 <= u32::MAX,
    ensures
        buf@.len() == (win_w as int) * (win_h as int),
        forall|k: int|
            0 <= k < buf@.len() ==> buf@[k] == packed(
                frame_pixel(
                    samples@,
                    win_w as int,
                    win_h as int,
                    k % (win_w as int),
                    k / (win_w as int),
                ),
            ),
{
    let fitted = generate1(samples, win_w);
    let screen = compose(&fitted, win_w, win_h);
    proof {
        assert forall|x: int, y: int| 0 <= x < win_w && 0 <= y < win_h implies screen.pixel(x, y)
            == frame_pixel(samples@, win_w as int, win_h as int, x, y) by {}
    }
    let n: u32 = win_w * win_h;
    let mut buf: Vec<u32> = Vec::new();
    let mut k: u32 = 0;
    while k < n
        invariant
            k <= n,
            buf@.len() == k,
            n == (win_w as int) * (win_h as int),
            screen.wf(),
            screen.width == win_w,
            screen.height == win_h,
            forall|x: int, y: int|
                0 <= x < win_w && 0 <= y < win_h ==> screen.pixel(x, y) == frame_pixel(
                    samples@,
                    win_w as int,
                    win_h as int,
                    x,
                    y,
                ),
            forall|j: int|
                0 <= j < k ==> buf@[j] == packed(
                    frame_pixel(
                        samples@,
                        win_w as int,
                        win_h as int,
                        j % (win_w as int),
                        j / (win_w as int),
                    ),
                ),
        decreases n - k,
    {
        proof {
            assert(win_w >= 1) by (nonlinear_arith)
                requires
                    (win_w as int) * (win_h as int) > (k as int),
                    (k as int) >= 0,
                    (win_w as int) >= 0,
                    (win_h as int) >= 0,
            ;
        }
        let x: u32 = k % win_w;
        let y: u32 = k / win_w;
        proof {
            lemma_fundamental_div_mod(k as int, win_w as int);
            lemma_mod_division_less_than_divisor(k as int, win_w as int);
            lemma_div_pos_is_pos(k as int, win_w as int);
            assert(y < win_h) by (nonlinear_arith)
                requires
                    (k as int) == (win_w as int) * (y as int) + (x as int),
                    0 <= (x as int) && (x as int) < (win_w as int),
                    (k as int) < (win_w as int) * (win_h as int),
                    (y as int) >= 0,
            ;
        }
        let c = get_pixel(&screen, x, y);
        let v = pack_pixel(c);
        buf.push(v);
        k = k + 1;
    }
    buf
}

/// The render path has no hidden state: any two buffers that satisfy its
/// contract for the same samples and window size are identical.
pub proof fn lemma_frame_deterministic(
    a: Seq<u32>,
    b: Seq<u32>,
    samples: Seq<Sample>,
    win_w: int,
    win_h: int,
)
    requires
        a.len() == win_w * win_h,
        b.len() == win_w * win_h,
        forall|k: int|
            0 <= k < a.len() ==> a[k] == packed(
                frame_pixel(samples, win_w, win_h, k % win_w, k / win_w),
            ),
        forall|k: int|
            0 <= k < b.len() ==> b[k] == packed(
                frame_pixel(samples, win_w, win_h, k % win_w, k / win_w),
            ),
    ensures
        a == b,
{
    assert(a =~= b);
}

} // verus!
