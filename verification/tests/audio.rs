//! What the click demo's counters sound like.

use narvo_app::audio::{BUY, Cue, CueMemory, Sound, Tally, cues_of};

fn tally(entity: u64, action: &str, count: i64) -> Tally {
    Tally { entity, action: action.to_owned(), count }
}

fn buys(count: i64) -> Vec<Tally> {
    vec![tally(3, BUY, count)]
}

fn play(tick: u64, sound: Sound) -> Cue {
    Cue { tick, sound }
}

/// Buys at ticks 1, 4 and 9: the bed first, a click per buy, and the layer on
/// the tick of the third, after its click.
#[test]
fn the_scripted_run_produces_exactly_this_cue_list() {
    let mut memory = CueMemory::new(&buys(0));
    let mut cues = Vec::new();
    let mut count = 0;
    for tick in 0..12 {
        if [1, 4, 9].contains(&tick) {
            count += 1;
        }
        cues.extend(cues_of(&buys(count), tick, &mut memory));
    }

    assert_eq!(
        cues,
        vec![
            play(0, Sound::MusicBase),
            play(1, Sound::Click),
            play(4, Sound::Click),
            play(9, Sound::Click),
            play(9, Sound::MusicLayer),
        ]
    );
}

#[test]
fn three_buys_in_one_tick_are_three_clicks() {
    let mut memory = CueMemory::new(&buys(0));
    let first = cues_of(&buys(0), 0, &mut memory);
    assert_eq!(first, vec![play(0, Sound::MusicBase)]);

    let cues = cues_of(&buys(3), 1, &mut memory);
    assert_eq!(
        cues,
        vec![
            play(1, Sound::Click),
            play(1, Sound::Click),
            play(1, Sound::Click),
            play(1, Sound::MusicLayer),
        ]
    );
}

#[test]
fn a_world_without_a_tally_produces_nothing() {
    let mut memory = CueMemory::new(&Vec::new());
    for tick in 0..5 {
        assert!(cues_of(&Vec::new(), tick, &mut memory).is_empty());
    }
    assert!(!memory.started);
}

#[test]
fn the_layer_arrives_once_and_not_again() {
    let mut memory = CueMemory::new(&buys(0));
    let mut layers = 0;
    for tick in 0..40 {
        let cues = cues_of(&buys(tick as i64), tick, &mut memory);
        layers += cues.iter().filter(|cue| cue.sound == Sound::MusicLayer).count();
    }
    assert_eq!(layers, 1);
}

/// A reload hands the same counters to a new memory: the bed starts again, the
/// layer is re-raised because the count is already past it, and no click is
/// invented for the purchases that already happened.
#[test]
fn a_fresh_memory_does_not_reissue_past_clicks() {
    let counted = buys(3);
    let mut reloaded = CueMemory::new(&counted);
    let cues = cues_of(&counted, 12, &mut reloaded);
    assert_eq!(cues, vec![play(12, Sound::MusicBase), play(12, Sound::MusicLayer)]);
}

#[test]
fn a_counter_of_another_action_is_silent_and_does_not_count_towards_the_layer() {
    let mut memory = CueMemory::new(&vec![tally(1, "sell", 0)]);
    let cues = cues_of(&vec![tally(1, "sell", 5)], 0, &mut memory);
    assert_eq!(cues, vec![play(0, Sound::MusicBase)]);
}

#[test]
fn a_counter_that_appears_mid_run_sets_a_baseline_first() {
    let mut memory = CueMemory::new(&Vec::new());
    let first = cues_of(&buys(2), 0, &mut memory);
    assert_eq!(first, vec![play(0, Sound::MusicBase)]);
    let second = cues_of(&buys(3), 1, &mut memory);
    assert_eq!(second, vec![play(1, Sound::Click), play(1, Sound::MusicLayer)]);
}

#[test]
fn a_count_that_goes_down_sounds_nothing() {
    let mut memory = CueMemory::new(&buys(2));
    let _ = cues_of(&buys(2), 0, &mut memory);
    assert_eq!(cues_of(&buys(1), 1, &mut memory), Vec::new());
}

#[test]
fn two_counters_are_clicked_in_entity_order() {
    let before = vec![tally(1, BUY, 0), tally(2, BUY, 0)];
    let mut memory = CueMemory::new(&before);
    let _ = cues_of(&before, 0, &mut memory);
    let cues = cues_of(&vec![tally(1, BUY, 1), tally(2, BUY, 1)], 1, &mut memory);
    assert_eq!(cues, vec![play(1, Sound::Click), play(1, Sound::Click)]);
    assert_eq!(memory.counts.get(&1), Some(&1));
    assert_eq!(memory.counts.get(&2), Some(&1));
}
