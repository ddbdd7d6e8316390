//! What the debug overlay says about one entity, as text.
//!
//! The component lines are exactly what the canonical dump writes for that
//! entity: `entity {index}v{generation}` for the head, then two spaces, the
//! stable name, one space and the serialized value for each component. The
//! serializing is the registry's; this module only arranges the lines.

use vstd::prelude::*;

use crate::ipc::{EntityName, entity_text};
use crate::text::{DIGITS, append_decimal, decimal_text, push_char};

verus! {

/// What replaces a character the glyph atlas cannot draw.
///
/// The atlas covers ASCII 32 to 126 and skips anything else without advancing,
/// so an unreplaced character would leave the text silently short.
pub const UNDRAWABLE: char = '?';

/// Whether the atlas can draw `c`: printable ASCII, no control character.
pub open spec fn can_draw(c: char) -> bool {
    ' ' <= c && c <= '~'
}

/// `c`, or [`UNDRAWABLE`] when the atlas cannot draw it.
pub open spec fn drawable_char(c: char) -> char {
    if can_draw(c) {
        c
    } else {
        UNDRAWABLE
    }
}

/// `text` with every character the atlas cannot draw replaced.
pub open spec fn drawable_text(text: Seq<char>) -> Seq<char> {
    text.map_values(|c: char| drawable_char(c))
}

/// `text` with every character the atlas cannot draw replaced by
/// [`UNDRAWABLE`].
///
/// One output character per input character, so the length in characters is
/// kept and a truncation cannot hide in it.
pub fn drawable(text: &str) -> (drawn: String)
    ensures
        drawn@ == drawable_text(text@),
{
    let n = text.unicode_len();
    let mut drawn = String::new();
    let mut i: usize = 0;
    while i < n
        invariant
            n == text@.len(),
            i <= n,
            drawn@ == drawable_text(text@.take(i as int)),
        decreases n - i,
    {
        let c = text.get_char(i);
        let shown = if ' ' <= c && c <= '~' {
            c
        } else {
            UNDRAWABLE
        };
        push_char(&mut drawn, shown);
        i = i + 1;
        assert(drawn@ =~= drawable_text(text@.take(i as int)));
    }
    assert(text@.take(n as int) =~= text@);
    drawn
}

/// Replacing twice changes nothing the first replacement did not.
pub proof fn lemma_drawable_is_idempotent(text: Seq<char>)
    ensures
        drawable_text(drawable_text(text)) == drawable_text(text),
        drawable_text(text).len() == text.len(),
        forall|i: int| 0 <= i < text.len() ==> can_draw(#[trigger] drawable_text(text)[i]),
{
    assert(drawable_text(drawable_text(text)) =~= drawable_text(text));
}

/// Text the atlas can already draw passes through untouched.
pub proof fn lemma_drawable_text_is_kept(text: Seq<char>)
    requires
        forall|i: int| 0 <= i < text.len() ==> can_draw(#[trigger] text[i]),
    ensures
        drawable_text(text) == text,
{
    assert(drawable_text(text) =~= text);
}

/// What the registry said about one component of the inspected entity.
#[derive(Debug, Clone, PartialEq, Eq)]
pub enum Reading {
    /// The entity carries it, and this is its serialized value.
    Value(String),
    /// The entity does not carry it.
    Absent,
    /// The component could not be serialized, and this is why.
    Failed(String),
}

/// One component of the registry, by its stable name, and what reading it
/// said. The registry walks its components in stable-name order.
#[derive(Debug, Clone, PartialEq, Eq)]
pub struct ComponentReading {
    /// The stable name the component is registered under.
    pub name: String,
    /// What the registry said.
    pub reading: Reading,
}

/// Which of `count` entities `selected` shows: stepping past the end wraps.
pub open spec fn shown_index(count: nat, selected: nat) -> nat {
    selected % count
}

/// The line a reading contributes, if any.
pub open spec fn component_line(name: Seq<char>, reading: Reading) -> Option<Seq<char>> {
    match reading {
        Reading::Value(value) => Some("  "@ + name + " "@ + value@),
        Reading::Absent => None,
        Reading::Failed(error) => Some("  "@ + name + " <error: "@ + error@ + ">"@),
    }
}

/// The component lines, in the registry's order.
pub open spec fn component_lines(readings: Seq<ComponentReading>) -> Seq<Seq<char>>
    decreases readings.len(),
{
    if readings.len() == 0 {
        Seq::empty()
    } else {
        let rest = component_lines(readings.drop_last());
        match component_line(readings.last().name@, readings.last().reading) {
            Some(line) => rest.push(line),
            None => rest,
        }
    }
}

/// The lines the overlay shows, before the replacement of undrawable
/// characters.
pub open spec fn overlay_lines(
    entities: Seq<EntityName>,
    selected: nat,
    readings: Seq<ComponentReading>,
) -> Seq<Seq<char>> {
    if entities.len() == 0 {
        seq!["no entities"@]
    } else {
        let index = shown_index(entities.len(), selected);
        let head = seq![
            "inspector "@ + decimal_text(index + 1) + "/"@ + decimal_text(entities.len()),
            "entity "@ + entity_text(entities[index as int]),
        ];
        let components = component_lines(readings);
        if components.len() == 0 {
            head.push("  (no registered components)"@)
        } else {
            head + components
        }
    }
}

/// Whether a reading shows on the overlay: the entity carries the component,
/// or reading it failed.
pub open spec fn shows(reading: ComponentReading) -> bool {
    !(reading.reading is Absent)
}

/// The component lines are the readings that show, in the registry's order.
proof fn lemma_component_lines_are_the_readings_that_show(readings: Seq<ComponentReading>)
    ensures
        component_lines(readings).len() == readings.filter(|r: ComponentReading| shows(r)).len(),
        forall|i: int|
            0 <= i < component_lines(readings).len() ==> #[trigger] component_lines(readings)[i]
                == match readings.filter(|r: ComponentReading| shows(r))[i].reading {
                Reading::Value(value) => "  "@ + readings.filter(|r: ComponentReading| shows(r))[i].name@
                    + " "@ + value@,
                Reading::Failed(error) => "  "@ + readings.filter(
                    |r: ComponentReading| shows(r),
                )[i].name@ + " <error: "@ + error@ + ">"@,
                Reading::Absent => Seq::empty(),
            },
    decreases readings.len(),
{
    reveal(Seq::filter);
    if readings.len() > 0 {
        lemma_component_lines_are_the_readings_that_show(readings.drop_last());
    }
}

/// Readings that are all absent leave nothing to show.
proof fn lemma_nothing_shows(readings: Seq<ComponentReading>)
    requires
        forall|i: int| 0 <= i < readings.len() ==> #[trigger] readings[i].reading is Absent,
    ensures
        readings.filter(|r: ComponentReading| shows(r)).len() == 0,
    decreases readings.len(),
{
    reveal(Seq::filter);
    if readings.len() > 0 {
        let rest = readings.drop_last();
        assert forall|i: int| 0 <= i < rest.len() implies #[trigger] rest[i].reading is Absent by {
            assert(rest[i] == readings[i]);
        }
        lemma_nothing_shows(rest);
        assert(readings[readings.len() - 1].reading is Absent);
    }
}

/// **One line per component the entity carries.** For a world with entities,
/// the overlay is the two head lines (which entity of how many, and its
/// name), then exactly one line per reading that is not absent, in the
/// registry's order: `  name value` for a value and `  name <error: why>` for
/// a failure. The placeholder appears exactly when every reading is absent.
pub proof fn lemma_one_line_per_carried_component(
    entities: Seq<EntityName>,
    selected: nat,
    readings: Seq<ComponentReading>,
)
    requires
        entities.len() > 0,
    ensures
        ({
            let lines = overlay_lines(entities, selected, readings);
            let index = selected % entities.len();
            let carried = readings.filter(|r: ComponentReading| shows(r));
            &&& lines[0] == "inspector "@ + decimal_text(index + 1) + "/"@ + decimal_text(
                entities.len(),
            )
            &&& lines[1] == "entity "@ + entity_text(entities[index as int])
            &&& (carried.len() == 0 <==> (forall|i: int|
                0 <= i < readings.len() ==> #[trigger] readings[i].reading is Absent))
            &&& carried.len() == 0 ==> lines == seq![lines[0], lines[1], "  (no registered components)"@]
            &&& carried.len() > 0 ==> lines.len() == 2 + carried.len() && forall|i: int|
                0 <= i < carried.len() ==> #[trigger] lines[2 + i] == match carried[i].reading {
                    Reading::Value(value) => "  "@ + carried[i].name@ + " "@ + value@,
                    Reading::Failed(error) => "  "@ + carried[i].name@ + " <error: "@ + error@
                        + ">"@,
                    Reading::Absent => Seq::empty(),
                }
        }),
{
    lemma_component_lines_are_the_readings_that_show(readings);
    let carried = readings.filter(|r: ComponentReading| shows(r));
    let lines = overlay_lines(entities, selected, readings);
    let components = component_lines(readings);
    if carried.len() > 0 {
        assert forall|i: int| 0 <= i < carried.len() implies #[trigger] lines[2 + i]
            == components[i] by {}
    }
    if forall|i: int| 0 <= i < readings.len() ==> #[trigger] readings[i].reading is Absent {
        lemma_nothing_shows(readings);
    }
    if carried.len() == 0 {
        assert forall|i: int| 0 <= i < readings.len() implies #[trigger] readings[i].reading is Absent by {
            if !(readings[i].reading is Absent) {
                readings.lemma_filter_contains(|r: ComponentReading| shows(r), i);
            }
        }
        assert(lines =~= seq![lines[0], lines[1], "  (no registered components)"@]);
    }
}

/// Which entity the overlay shows for `selected`, among `count` of them.
pub fn shown(count: usize, selected: usize) -> (index: usize)
    requires
        count > 0,
    ensures
        index == shown_index(count as nat, selected as nat),
        index < count,
{
    selected % count
}

/// `first` followed by each of `rest`.
fn concat(first: &str, rest: &[&str]) -> (text: String)
    ensures
        text@ == first@ + crate::cli::joined_of(rest@.map_values(|piece: &str| piece@)),
{
    let mut text = first.to_owned();
    let mut i: usize = 0;
    while i < rest.len()
        invariant
            i <= rest@.len(),
            text@ == first@ + crate::cli::joined_of(rest@.map_values(|piece: &str| piece@).take(i as int)),
        decreases rest@.len() - i,
    {
        let ghost pieces = rest@.map_values(|piece: &str| piece@);
        assert(pieces.take(i + 1).drop_last() =~= pieces.take(i as int));
        text.append(rest[i]);
        i = i + 1;
    }
    assert(rest@.map_values(|piece: &str| piece@).take(rest@.len() as int) =~= rest@.map_values(
        |piece: &str| piece@,
    ));
    text
}

/// The lines the overlay shows for the entity at `selected`.
///
/// `entities` are the world's entities in canonical order, and `readings` are
/// what the registry said about each of its components for the entity
/// `shown(entities.len(), selected)` picks. An empty world yields one line
/// saying so rather than nothing. Every line is passed through [`drawable`].
pub fn lines_for(entities: &Vec<EntityName>, selected: usize, readings: &Vec<ComponentReading>) -> (lines:
    Vec<String>)
    ensures
        lines@.len() == overlay_lines(entities@, selected as nat, readings@).len(),
        forall|i: int|
            0 <= i < lines@.len() ==> #[trigger] lines@[i]@ == drawable_text(
                overlay_lines(entities@, selected as nat, readings@)[i],
            ),
{
    let mut raw: Vec<String> = Vec::new();
    if entities.len() == 0 {
        raw.push("no entities".to_owned());
    } else {
        let index = shown(entities.len(), selected);
        let mut head = "inspector ".to_owned();
        append_decimal(&mut head, index as u64 + 1);
        push_char(&mut head, '/');
        append_decimal(&mut head, entities.len() as u64);
        assert(head@ =~= "inspector "@ + decimal_text((index + 1) as nat) + "/"@ + decimal_text(
            entities@.len(),
        )) by {
            reveal_strlit("/");
        }
        raw.push(head);
        let mut line = "entity ".to_owned();
        let name = entities[index];
        append_decimal(&mut line, name.index as u64);
        push_char(&mut line, 'v');
        append_decimal(&mut line, name.generation as u64);
        assert(line@ =~= "entity "@ + entity_text(entities@[index as int])) by {
            reveal_strlit("v");
        }
        raw.push(line);
        proof {
            reveal_strlit("/");
            reveal_strlit("v");
        }
        assert(raw@.map_values(|l: String| l@) =~= seq![
            "inspector "@ + decimal_text((index + 1) as nat) + "/"@ + decimal_text(entities@.len()),
            "entity "@ + entity_text(entities@[index as int]),
        ]);
        let ghost head_lines = raw@.map_values(|l: String| l@);
        let mut k: usize = 0;
        while k < readings.len()
            invariant
                k <= readings@.len(),
                raw@.map_values(|l: String| l@) == head_lines + component_lines(readings@.take(k as int)),
            decreases readings@.len() - k,
        {
            let ghost seen = readings@.take(k + 1);
            assert(seen.drop_last() =~= readings@.take(k as int));
            let reading = &readings[k];
            assert(seen.last() == readings@[k as int]);
            let ghost before = raw@;
            match &reading.reading {
                Reading::Value(value) => {
                    let line = concat("  ", &[reading.name.as_str(), " ", value.as_str()]);
                    proof {
                        reveal_with_fuel(crate::cli::joined_of, 4);
                    }
                    assert(line@ =~= "  "@ + reading.name@ + " "@ + value@);
                    raw.push(line);
                    assert(raw@.map_values(|l: String| l@) =~= before.map_values(|l: String| l@).push(
                        line@,
                    ));
                },
                Reading::Absent => {},
                Reading::Failed(error) => {
                    let line = concat(
                        "  ",
                        &[reading.name.as_str(), " <error: ", error.as_str(), ">"],
                    );
                    proof {
                        reveal_with_fuel(crate::cli::joined_of, 5);
                    }
                    assert(line@ =~= "  "@ + reading.name@ + " <error: "@ + error@ + ">"@);
                    raw.push(line);
                    assert(raw@.map_values(|l: String| l@) =~= before.map_values(|l: String| l@).push(
                        line@,
                    ));
                },
            }
            assert(before.map_values(|l: String| l@) == head_lines + component_lines(readings@.take(k as int)));
            k = k + 1;
            assert(raw@.map_values(|l: String| l@) =~= head_lines + component_lines(readings@.take(k as int)));
        }
        assert(readings@.take(readings@.len() as int) =~= readings@);
        if raw.len() == 2 {
            raw.push("  (no registered components)".to_owned());
            assert(raw@.map_values(|l: String| l@) =~= head_lines.push("  (no registered components)"@));
        }
    }
    let ghost expected = overlay_lines(entities@, selected as nat, readings@);
    assert(raw@.map_values(|l: String| l@) =~= expected);
    let mut lines: Vec<String> = Vec::new();
    let mut i: usize = 0;
    while i < raw.len()
        invariant
            i <= raw@.len(),
            raw@.map_values(|l: String| l@) == expected,
            lines@.len() == i,
            forall|j: int| 0 <= j < i ==> #[trigger] lines@[j]@ == drawable_text(expected[j]),
        decreases raw@.len() - i,
    {
        assert(raw@[i as int]@ == expected[i as int]);
        lines.push(drawable(raw[i].as_str()));
        i = i + 1;
    }
    lines
}

} // verus!
