use waveview::raster::{blank, get_pixel, rasterize, Rgb};
use waveview::sample::Sample;

fn grey(v: u8) -> Rgb {
    Rgb { r: v, g: v, b: v }
}

fn accent() -> Rgb {
    Rgb { r: 0xcc, g: 0x33, b: 0x33 }
}

#[test]
fn blank_is_uniform() {
    let img = blank(4, 3, 0xfc);
    assert_eq!(img.width, 4);
    assert_eq!(img.height, 3);
    assert_eq!(img.data.len(), 36);
    assert_eq!(get_pixel(&img, 0, 0), grey(0xfc));
    assert_eq!(get_pixel(&img, 3, 2), grey(0xfc));
}

#[test]
fn single_row_scenario() {
    // Amplitudes 0.0, 1.0, -1.0, 2.0 in thousandths, wrapped at width 4:
    // one band, midline at y = 48, endpoints at 48, 16, 80 and 16.
    let samples = vec![
        Sample::new(0),
        Sample::new(1000),
        Sample::new(-1000),
        Sample::new(2000),
    ];
    let img = rasterize(&samples, 4);
    assert_eq!(img.width, 4);
    assert_eq!(img.height, 96);

    // Column 0: a silent sample still draws its one-pixel trace on the
    // midline, in the normal color.
    assert_eq!(get_pixel(&img, 0, 48), grey(0x33));
    assert_eq!(get_pixel(&img, 0, 47), grey(0xfc));
    assert_eq!(get_pixel(&img, 0, 49), grey(0xfc));

    // Column 1: full scale reaches the clip threshold; the segment runs
    // from the previous endpoint (48) up to 16, all accent.
    assert_eq!(get_pixel(&img, 1, 16), accent());
    assert_eq!(get_pixel(&img, 1, 48), accent());
    assert_eq!(get_pixel(&img, 1, 15), grey(0xfc));
    assert_eq!(get_pixel(&img, 1, 49), grey(0xfc));

    // Column 2: negative full scale clips too; the segment runs from 16
    // down to 80.
    assert_eq!(get_pixel(&img, 2, 16), accent());
    assert_eq!(get_pixel(&img, 2, 80), accent());
    assert_eq!(get_pixel(&img, 2, 81), grey(0xfc));

    // Column 3: beyond full scale is clamped to an endpoint of 16 for
    // positioning but drawn in the accent color.
    assert_eq!(get_pixel(&img, 3, 16), accent());
    assert_eq!(get_pixel(&img, 3, 80), accent());
    assert_eq!(get_pixel(&img, 3, 15), grey(0xfc));
}

#[test]
fn midline_stays_grey_beside_traces() {
    // Offsets 16 and 8 pixels above the midline: the segments never touch
    // the midline, which keeps its fixed light grey whatever the values.
    let samples = vec![Sample::new(500), Sample::new(250)];
    let img = rasterize(&samples, 2);
    assert_eq!(get_pixel(&img, 0, 48), grey(0xee));
    assert_eq!(get_pixel(&img, 1, 48), grey(0xee));
    // endpoints at 48 - 16 = 32 and 48 - 8 = 40, joined gap-free
    assert_eq!(get_pixel(&img, 0, 32), grey(0x33));
    assert_eq!(get_pixel(&img, 1, 40), grey(0x33));
    assert_eq!(get_pixel(&img, 1, 32), grey(0x33));
    assert_eq!(get_pixel(&img, 1, 36), grey(0x33));
}

#[test]
fn row_boundary_resets_reference() {
    // Width 1: each sample sits in its own band, and no segment bleeds
    // from one band into the next; each band's first sample starts from
    // its own endpoint.
    let samples = vec![Sample::new(1000), Sample::new(-1000)];
    let img = rasterize(&samples, 1);
    assert_eq!(img.height, 16 + 2 * 80);
    // band 0 midline 48: endpoint 16, one-pixel segment only
    assert_eq!(get_pixel(&img, 0, 16), accent());
    assert_eq!(get_pixel(&img, 0, 17), grey(0xfc));
    assert_eq!(get_pixel(&img, 0, 48), grey(0xee));
    // band 1 midline 128: endpoint 160, one-pixel segment only
    assert_eq!(get_pixel(&img, 0, 160), accent());
    assert_eq!(get_pixel(&img, 0, 159), grey(0xfc));
    assert_eq!(get_pixel(&img, 0, 128), grey(0xee));
}

#[test]
fn height_depends_only_on_row_count() {
    // ceil(10 / 3) = 4 rows
    let tall: Vec<Sample> = (0..10).map(|i: i32| Sample::new(i * 100)).collect();
    let img = rasterize(&tall, 3);
    assert_eq!(img.height, 16 + 4 * 80);
    // same count, very different values: same height
    let loud: Vec<Sample> = (0..10).map(|_| Sample::new(5000)).collect();
    assert_eq!(rasterize(&loud, 3).height, 16 + 4 * 80);
    // one row when the count fits the width
    assert_eq!(rasterize(&tall, 10).height, 96);
    // empty input: the empty background band
    let none: Vec<Sample> = Vec::new();
    let img = rasterize(&none, 5);
    assert_eq!(img.height, 96);
    assert_eq!(get_pixel(&img, 2, 48), grey(0xfc));
}

#[test]
fn rasterize_twice_is_identical() {
    let samples = vec![
        Sample::new(300),
        Sample::new(-700),
        Sample::new(1500),
        Sample::new(0),
        Sample::new(999),
    ];
    let a = rasterize(&samples, 2);
    let b = rasterize(&samples, 2);
    assert_eq!(a.width, b.width);
    assert_eq!(a.height, b.height);
    assert_eq!(a.data, b.data);
}
