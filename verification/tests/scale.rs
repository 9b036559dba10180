use waveview::raster::{get_pixel, rasterize, Rgb};
use waveview::sample::Sample;
use waveview::scale::{compose, fit, generate1};

fn wave(n: i32) -> Vec<Sample> {
    (0..n).map(|i: i32| Sample::new((i % 2000) - 1000)).collect()
}

#[test]
fn fit_preserves_height() {
    let img = rasterize(&wave(40), 8);
    let h = img.height;
    assert_eq!(fit(img, 3).height, h);
    let img = rasterize(&wave(40), 8);
    assert_eq!(fit(img, 8).height, h);
    let img = rasterize(&wave(40), 8);
    assert_eq!(fit(img, 500).height, h);
    let img = rasterize(&wave(40), 8);
    assert_eq!(fit(img, 0).height, h);
}

#[test]
fn fit_never_upscales() {
    let img = rasterize(&wave(6), 6);
    let before = img.data.clone();
    let fitted = fit(img, 640);
    assert_eq!(fitted.width, 6);
    assert_eq!(fitted.data, before);
}

#[test]
fn fit_downscales_through_resampler() {
    // A real downscale: if the resampler were skipped the width would
    // still be 2000.
    let img = rasterize(&wave(2000), 2000);
    assert_eq!(img.width, 2000);
    let fitted = fit(img, 500);
    assert_eq!(fitted.width, 500);
    assert_eq!(fitted.height, 96);
    assert_eq!(fitted.data.len(), 500 * 96 * 3);
}

#[test]
fn widening_rerenders_from_samples() {
    // Downscale to a quarter, then "widen the window back": the wide
    // image is re-rendered from the sample sequence, not from the
    // downscaled pixels, so it is identical to the first wide render.
    let samples = wave(2000);
    let wide = generate1(&samples, 2000);
    assert_eq!(wide.width, 2000);
    let narrow = generate1(&samples, 500);
    assert_eq!(narrow.width, 500);
    let wide_again = generate1(&samples, 2000);
    assert_eq!(wide_again.width, 2000);
    assert_eq!(wide_again.data, wide.data);
}

#[test]
fn generate1_matches_single_row_raster() {
    let samples = wave(5);
    let via_window = generate1(&samples, 64);
    let direct = rasterize(&samples, 5);
    assert_eq!(via_window.width, 5);
    assert_eq!(via_window.height, 96);
    assert_eq!(via_window.data, direct.data);
}

#[test]
fn compose_anchors_top_left_on_white() {
    let img = rasterize(&wave(2), 2);
    let out = compose(&img, 4, 100);
    assert_eq!(out.width, 4);
    assert_eq!(out.height, 100);
    // inside the image: the raster's own pixels
    assert_eq!(get_pixel(&out, 0, 0), get_pixel(&img, 0, 0));
    assert_eq!(get_pixel(&out, 1, 48), get_pixel(&img, 1, 48));
    // right of it and below it: plain white window background
    let white = Rgb { r: 0xff, g: 0xff, b: 0xff };
    assert_eq!(get_pixel(&out, 2, 0), white);
    assert_eq!(get_pixel(&out, 3, 99), white);
    assert_eq!(get_pixel(&out, 0, 96), white);
}

#[test]
fn compose_crops_to_window() {
    let img = rasterize(&wave(8), 4);
    let out = compose(&img, 2, 3);
    assert_eq!(out.width, 2);
    assert_eq!(out.height, 3);
    assert_eq!(get_pixel(&out, 1, 2), get_pixel(&img, 1, 2));
}
