use waveview::sample::Sample;

#[test]
fn clipping_threshold_is_full_scale() {
    assert!(Sample::new(1000).clipped());
    assert!(Sample::new(-1000).clipped());
    assert!(Sample::new(2000).clipped());
    assert!(Sample::new(i32::MIN + 1).clipped());
    assert!(!Sample::new(999).clipped());
    assert!(!Sample::new(-999).clipped());
    assert!(!Sample::new(0).clipped());
}

#[test]
fn offset_scales_to_half_band() {
    assert_eq!(Sample::new(0).offset_px(), 0);
    assert_eq!(Sample::new(1000).offset_px(), 32);
    assert_eq!(Sample::new(-1000).offset_px(), -32);
    // beyond full scale is clamped before scaling
    assert_eq!(Sample::new(90_000).offset_px(), 32);
    assert_eq!(Sample::new(-90_000).offset_px(), -32);
    // truncation toward zero, on both sides
    assert_eq!(Sample::new(500).offset_px(), 16);
    assert_eq!(Sample::new(-500).offset_px(), -16);
    assert_eq!(Sample::new(999).offset_px(), 31);
    assert_eq!(Sample::new(-999).offset_px(), -31);
    assert_eq!(Sample::new(31).offset_px(), 0);
    assert_eq!(Sample::new(-31).offset_px(), 0);
    assert_eq!(Sample::new(32).offset_px(), 1);
}
