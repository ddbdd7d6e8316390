//! What the overlay says about an entity, and how it keeps that drawable.

use narvo_app::inspector::{ComponentReading, Reading, UNDRAWABLE, drawable, lines_for, shown};
use narvo_app::ipc::EntityName;

/// The substitution preserves length in characters.
#[test]
fn replacing_keeps_one_character_per_character() {
    let source = "aébÿc";
    let drawn = drawable(source);

    assert_eq!(drawn.chars().count(), source.chars().count());
    assert_eq!(drawn, format!("a{UNDRAWABLE}b{UNDRAWABLE}c"));
}

/// A control character would be replaced rather than skipped.
#[test]
fn a_control_character_is_replaced_even_though_ron_never_emits_one() {
    assert_eq!(drawable("a\nb"), format!("a{UNDRAWABLE}b"));
    assert_eq!(drawable("a\tb"), format!("a{UNDRAWABLE}b"));
}

/// Everything the atlas can draw passes through untouched.
#[test]
fn every_drawable_character_survives_unchanged() {
    let printable: String = (32_u8..=126).map(char::from).collect();
    assert_eq!(drawable(&printable), printable);
}

/// The delete character is a control character too.
#[test]
fn the_delete_character_is_replaced() {
    assert_eq!(drawable("x\u{7f}"), "x?");
}

fn two_entities() -> Vec<EntityName> {
    vec![
        EntityName { index: 0, generation: 1 },
        EntityName { index: 1, generation: 1 },
    ]
}

fn value(name: &str, text: &str) -> ComponentReading {
    ComponentReading { name: name.to_owned(), reading: Reading::Value(text.to_owned()) }
}

fn absent(name: &str) -> ComponentReading {
    ComponentReading { name: name.to_owned(), reading: Reading::Absent }
}

#[test]
fn an_empty_world_says_so_rather_than_showing_nothing() {
    let lines = lines_for(&Vec::new(), 0, &Vec::new());
    assert_eq!(lines, vec!["no entities".to_owned()]);
}

#[test]
fn the_head_names_which_entity_of_how_many() {
    let world = two_entities();
    let lines = lines_for(&world, 0, &vec![value("layer", "(z:0.5)")]);
    assert_eq!(lines[0], "inspector 1/2");
    assert_eq!(lines[1], "entity 0v1");
    assert_eq!(lines[2], "  layer (z:0.5)");

    let second = lines_for(&world, 1, &vec![absent("layer")]);
    assert_eq!(second[0], "inspector 2/2");
    assert_eq!(second[1], "entity 1v1");
}

#[test]
fn the_selection_wraps_around_the_entity_count() {
    assert_eq!(shown(2, 2), 0);
    assert_eq!(shown(2, 3), 1);
    let world = two_entities();
    assert_eq!(lines_for(&world, 2, &Vec::new()), lines_for(&world, 0, &Vec::new()));
}

#[test]
fn an_entity_with_no_components_says_so() {
    let world = two_entities();
    let lines = lines_for(&world, 1, &vec![absent("transform"), absent("layer")]);
    assert_eq!(lines[0], "inspector 2/2");
    assert_eq!(lines[2], "  (no registered components)");
    assert_eq!(lines.len(), 3, "no component lines for an empty entity");
}

#[test]
fn a_component_that_fails_to_serialize_is_shown_rather_than_skipped() {
    let world = two_entities();
    let lines = lines_for(
        &world,
        0,
        &vec![ComponentReading {
            name: "sprite".to_owned(),
            reading: Reading::Failed("no".to_owned()),
        }],
    );
    assert_eq!(lines[2], "  sprite <error: no>");
}

#[test]
fn a_non_ascii_value_is_marked_rather_than_silently_shortened() {
    let world = vec![EntityName { index: 0, generation: 1 }];
    let lines = lines_for(&world, 0, &vec![value("sprite", "(region:\"héro\")")]);
    let sprite = lines
        .iter()
        .find(|line| line.starts_with("  sprite "))
        .expect("the entity carries a sprite");
    assert!(sprite.contains("h?ro"), "{sprite:?}");
    assert!(sprite.is_ascii());
}
