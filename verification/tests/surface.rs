use waveview::raster::Rgb;
use waveview::sample::Sample;
use waveview::surface::{pack_pixel, render_frame};

#[test]
fn packs_host_channel_order() {
    assert_eq!(pack_pixel(Rgb { r: 0xff, g: 0x00, b: 0x00 }), 0x00ff0000);
    assert_eq!(pack_pixel(Rgb { r: 0x00, g: 0xff, b: 0x00 }), 0x0000ff00);
    assert_eq!(pack_pixel(Rgb { r: 0x00, g: 0x00, b: 0xff }), 0x000000ff);
    assert_eq!(pack_pixel(Rgb { r: 0xcc, g: 0x33, b: 0x33 }), 0x00cc3333);
    assert_eq!(pack_pixel(Rgb { r: 0xfc, g: 0xfc, b: 0xfc }), 0x00fcfcfc);
}

#[test]
fn frame_is_window_sized_and_padded() {
    // One silent sample: a one-column band image sits at the top left of
    // a 3 x 2 window; everything else is the white window background.
    let samples = vec![Sample::new(0)];
    let buf = render_frame(&samples, 3, 2);
    assert_eq!(buf.len(), 6);
    assert_eq!(buf[0], 0x00fcfcfc);
    assert_eq!(buf[1], 0x00ffffff);
    assert_eq!(buf[2], 0x00ffffff);
    assert_eq!(buf[3], 0x00fcfcfc);
    assert_eq!(buf[4], 0x00ffffff);
    assert_eq!(buf[5], 0x00ffffff);
}

#[test]
fn frame_shows_trace_pixels() {
    // A clipped sample's endpoint lands at row 16 of column 0; a window
    // tall enough shows it in the packed accent color.
    let samples = vec![Sample::new(1000)];
    let buf = render_frame(&samples, 2, 96);
    assert_eq!(buf[16 * 2], 0x00cc3333);
    // its band midline keeps the light grey where uncovered
    assert_eq!(buf[48 * 2], 0x00eeeeee);
    // around the endpoint: image background, then window background right
    assert_eq!(buf[15 * 2], 0x00fcfcfc);
    assert_eq!(buf[17 * 2], 0x00fcfcfc);
    assert_eq!(buf[15 * 2 + 1], 0x00ffffff);
}

#[test]
fn empty_window_renders_empty() {
    let samples = vec![Sample::new(0)];
    let buf = render_frame(&samples, 0, 50);
    assert_eq!(buf.len(), 0);
}
