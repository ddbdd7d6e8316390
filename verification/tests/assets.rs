//! Where a scene's assets are looked for.

use narvo_app::assets::directory_for;
use std::path::PathBuf;

#[test]
fn the_assets_directory_sits_beside_the_scene() {
    assert_eq!(
        directory_for("levels/one.ron"),
        PathBuf::from("levels").join("assets").to_string_lossy()
    );
    // A bare filename's parent is the empty path, so this is `assets` and not
    // `./assets` — the same directory, spelled the way `Path` spells it.
    assert_eq!(directory_for("one.ron"), PathBuf::from("assets").to_string_lossy());
}

#[test]
fn a_nested_scene_keeps_its_whole_parent() {
    assert_eq!(directory_for("games/click/levels/one.ron"), "games/click/levels/assets");
}

#[test]
fn a_path_with_no_parent_is_treated_as_a_bare_file() {
    // The root has no parent at all, and is then taken as the empty path.
    assert_eq!(directory_for("/"), "assets");
    assert_eq!(directory_for(""), "assets");
}
