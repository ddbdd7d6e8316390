//! The real clock.

use narvo_app::frame::Monotonic;

#[test]
fn the_clock_does_not_go_backwards() {
    let mut clock = Monotonic::new();
    let first = clock.now();
    let second = clock.now();
    assert!(second >= first);
}

#[test]
fn a_default_clock_starts_now() {
    let mut clock = Monotonic::default();
    assert!(clock.now() < std::time::Duration::from_secs(60));
}

use narvo_app::frame::{Capture, Overlay};

#[test]
fn asking_twice_before_a_frame_is_one_screenshot() {
    let mut capture: Capture<u32> = Capture::new();
    capture.request_capture();
    capture.request_capture();
    capture.serve(Some(7));
    assert_eq!(capture.take_capture(), Some(7));
    assert_eq!(capture.take_capture(), None);
}

#[test]
fn a_request_survives_a_frame_with_nowhere_to_draw() {
    let mut capture: Capture<u32> = Capture::new();
    capture.request_capture();
    capture.serve(None);
    assert_eq!(capture.take_capture(), None, "not served yet");
    capture.serve(Some(3));
    assert_eq!(capture.take_capture(), Some(3));
}

#[test]
fn a_frame_nobody_asked_about_is_never_read_back() {
    let mut capture: Capture<u32> = Capture::new();
    capture.serve(Some(1));
    assert_eq!(capture.take_capture(), None);
}

#[test]
fn a_picture_waiting_to_be_taken_is_not_overwritten() {
    let mut capture: Capture<u32> = Capture::new();
    capture.request_capture();
    capture.serve(Some(1));
    capture.request_capture();
    capture.serve(Some(2));
    assert_eq!(capture.take_capture(), Some(1));
}

#[test]
fn the_overlay_is_off_until_asked_for_and_then_on() {
    let mut overlay = Overlay::new();
    assert!(!overlay.inspector_on());
    assert!(!overlay.atlas_built);
    assert!(overlay.toggle_inspector());
    assert!(overlay.inspector_on());
    assert!(overlay.atlas_built);
    assert!(!overlay.toggle_inspector());
    assert!(overlay.atlas_built, "the atlas is kept once built");
}

#[test]
fn stepping_shows_the_next_entity_and_wraps() {
    let mut overlay = Overlay::new();
    overlay.inspect_next();
    assert_eq!(overlay.selected, 1);
    overlay.selected = usize::MAX;
    overlay.inspect_next();
    assert_eq!(overlay.selected, 0);
}
