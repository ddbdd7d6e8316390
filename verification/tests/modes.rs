//! The simulations the command line can name.

use narvo_app::modes::{MEASURED_SPRITES, Mode};

#[test]
fn every_mode_parses_back_from_its_name() {
    for mode in Mode::ALL {
        assert_eq!(Mode::parse(mode.name()), Some(mode));
    }
}

#[test]
fn the_names_are_the_ones_the_usage_text_lists() {
    let names: Vec<&str> = Mode::ALL.iter().map(|mode| mode.name()).collect();
    assert_eq!(names, vec!["motion", "chance", "input", "scene", "scene-file", "physics"]);
}

#[test]
fn a_near_miss_is_not_a_mode() {
    assert_eq!(Mode::parse("Motion"), None);
    assert_eq!(Mode::parse("scene_file"), None);
    assert_eq!(Mode::parse(""), None);
    assert_eq!(Mode::parse("motion "), None);
}

#[test]
fn the_default_is_the_frozen_simulation() {
    assert_eq!(Mode::default(), Mode::Motion);
}

#[test]
fn the_measured_scene_has_fifty_thousand_sprites() {
    assert_eq!(MEASURED_SPRITES, 50_000);
}
