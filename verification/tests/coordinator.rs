use waveview::coordinator::{plan_event, Debouncer, Viewer, ViewerAction, ViewerEvent};
use waveview::sample::Sample;
use waveview::surface::render_frame;

#[test]
fn burst_yields_one_wake() {
    // Two change notifications 50 ms apart, well inside the 250 ms
    // window: exactly one wake-up is delivered, when the window closes.
    let mut d = Debouncer::new();
    d.note_change(0);
    d.note_change(50);
    assert!(!d.poll(100));
    assert!(!d.poll(249));
    assert!(d.poll(250));
    assert!(!d.poll(251));
    assert!(!d.poll(10_000));
}

#[test]
fn separate_bursts_wake_separately() {
    let mut d = Debouncer::new();
    d.note_change(0);
    assert!(d.poll(300));
    d.note_change(1_000);
    assert!(!d.poll(1_249));
    assert!(d.poll(1_250));
    assert!(!d.poll(1_251));
}

#[test]
fn no_wake_without_change() {
    let mut d = Debouncer::new();
    assert!(!d.poll(0));
    assert!(!d.poll(u64::MAX));
}

#[test]
fn event_plan() {
    assert_eq!(plan_event(&ViewerEvent::Wake), ViewerAction::ReloadAndRedraw);
    assert_eq!(plan_event(&ViewerEvent::Redraw), ViewerAction::RedrawOnly);
    assert_eq!(plan_event(&ViewerEvent::Close), ViewerAction::Exit);
    assert_eq!(plan_event(&ViewerEvent::Other), ViewerAction::Ignore);
}

#[test]
fn failed_reload_keeps_frame() {
    // A wake-up arrives but the decode fails: the held sequence is
    // retained, and the next frame is pixel-identical to the one before.
    let samples = vec![Sample::new(400), Sample::new(-1200), Sample::new(0)];
    let mut viewer = Viewer::new(samples);
    let before = render_frame(&viewer.samples, 30, 20);
    let replaced = viewer.apply_reload(None);
    assert!(!replaced);
    let after = render_frame(&viewer.samples, 30, 20);
    assert_eq!(before, after);
}

#[test]
fn successful_reload_replaces_wholesale() {
    let mut viewer = Viewer::new(vec![Sample::new(1)]);
    let replaced = viewer.apply_reload(Some(vec![Sample::new(7), Sample::new(8)]));
    assert!(replaced);
    assert_eq!(viewer.samples.len(), 2);
    assert_eq!(viewer.samples[0], Sample::new(7));
    assert_eq!(viewer.samples[1], Sample::new(8));
}
