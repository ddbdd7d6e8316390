//! Replaying a recording, tick by tick.

use narvo_app::headless::{
    FRAME_TIMES_US, InputEvent, Replayed, RunError, TimedInput, frame_time_us, replay_ticks,
};

fn input(tick: u64, value: i64) -> TimedInput {
    TimedInput { tick, event: InputEvent { action: "thrust".to_owned(), value } }
}

#[test]
fn each_tick_gets_the_inputs_recorded_for_it_and_only_those() {
    let mut replayed = Replayed::new(vec![input(0, 1), input(0, 2), input(3, 3), input(4, 4)]);

    let values = |events: Vec<InputEvent>| events.iter().map(|e| e.value).collect::<Vec<_>>();
    assert_eq!(values(replayed.take(0)), vec![1, 2]);
    assert_eq!(values(replayed.take(1)), Vec::<i64>::new());
    assert_eq!(values(replayed.take(2)), Vec::<i64>::new());
    assert_eq!(values(replayed.take(3)), vec![3]);
    assert_eq!(values(replayed.take(4)), vec![4]);
    assert_eq!(values(replayed.take(5)), Vec::<i64>::new());
}

#[test]
fn a_tick_is_matched_exactly() {
    // A runner that skipped tick 2 would find its input waiting at the cursor
    // and not matching tick 3, so nothing is handed to the wrong tick.
    let mut replayed = Replayed::new(vec![input(2, 1)]);
    assert!(replayed.take(3).is_empty());
    assert_eq!(replayed.take(2).len(), 1);
    assert!(replayed.take(2).is_empty(), "delivered once");
}

#[test]
fn a_full_length_replay_needs_no_tick_count() {
    assert_eq!(replay_ticks(None, 10_000), Ok(10_000));
    assert_eq!(replay_ticks(Some(500), 10_000), Ok(500));
    assert_eq!(replay_ticks(Some(0), 0), Ok(0));
}

#[test]
fn a_replay_past_the_end_of_its_recording_is_refused() {
    let error = replay_ticks(Some(101), 100).expect_err("there is no recorded input past tick 99");
    assert_eq!(error, RunError::TooShort { asked: 101, covered: 100 });
    assert!(error.message().contains("100"));
    assert_eq!(
        error.message(),
        "this recording covers 100 ticks and 101 were asked for; past the end of a recording a \
         replay would run on with no input at all, which reproduces nothing. Record a longer \
         run, or ask for at most 100"
    );
}

#[test]
fn a_scene_file_run_without_a_scene_says_what_to_pass() {
    assert!(RunError::SceneMissing.message().contains("--scene <file>"));
}

#[test]
fn the_frame_durations_repeat() {
    assert_eq!(frame_time_us(0), 16_700);
    assert_eq!(frame_time_us(6), 16_700);
    assert_eq!(frame_time_us(5), FRAME_TIMES_US[5]);
}

use narvo_app::cli::Report;
use narvo_app::headless::render_report;

#[test]
fn the_summary_says_how_many_ticks_over_how_many_entities() {
    assert_eq!(
        render_report(Report::Summary, 600, 12, String::new(), 0),
        "headless: 600 ticks over 12 entities\n"
    );
}

#[test]
fn the_hash_is_sixteen_lowercase_hex_digits_zero_padded() {
    for hash in [0_u64, 0xabc, 0xdead_beef_0123_4567, u64::MAX] {
        let text = render_report(Report::Hash, 1, 1, String::new(), hash);
        assert_eq!(text, format!("{hash:016x}\n"));
        assert_eq!(text.len(), 17);
    }
}

#[test]
fn the_dump_is_the_dump_itself() {
    let dump = "tick 3\nentity 0v1\n  layer (z:0.5)\n".to_owned();
    assert_eq!(render_report(Report::Dump, 3, 1, dump.clone(), 99), dump);
}

use narvo_app::headless::{Between, Pace, WorldFrom, describe_run, world_from};
use narvo_app::ipc::After;
use narvo_app::modes::Mode;

/// Drives a pace the way the runner does, with the accumulator handing out
/// `due` ticks per frame and nobody attached.
fn unattended(budget: u64, due: u32) -> (u64, Vec<u64>) {
    let mut pace = Pace::new(budget);
    let mut frames = Vec::new();
    loop {
        match pace.between(false) {
            Between::Frame { micros } => {
                frames.push(micros);
                for _ in 0..due {
                    if pace.due().is_none() {
                        break;
                    }
                    assert!(pace.ticked(After::Carry));
                }
            }
            Between::Finish { ticks } => return (ticks, frames),
            Between::Wait { .. } => panic!("nobody is attached"),
        }
    }
}

#[test]
fn a_run_nobody_talks_to_runs_exactly_its_budget() {
    let (ticks, frames) = unattended(10, 3);
    assert_eq!(ticks, 10);
    assert_eq!(frames, vec![16_700, 9_100, 33_400, 4_250]);
    // A frame that hands out more ticks than are left stops at the budget.
    assert_eq!(unattended(7, 5).0, 7);
    assert_eq!(unattended(0, 2), (0, vec![]));
}

#[test]
fn a_frame_that_hands_out_no_ticks_still_moves_the_pattern_on() {
    let mut pace = Pace::new(1);
    let micros: Vec<u64> = (0..7)
        .map(|_| match pace.between(false) {
            Between::Frame { micros } => micros,
            other => panic!("expected a frame, got {other:?}"),
        })
        .collect();
    assert_eq!(micros, vec![16_700, 9_100, 33_400, 4_250, 21_900, 12_000, 16_700]);
}

#[test]
fn a_spent_budget_waits_only_while_somebody_is_attached() {
    let mut pace = Pace::new(2);
    pace.tick = 2;
    assert_eq!(pace.between(true), Between::Wait { ticks_run: 2 });
    assert_eq!(pace.between(false), Between::Finish { ticks: 2 });
    // A granted step lets the run go on from where it stood.
    pace.budget = 3;
    assert_eq!(pace.due(), Some(2));
    assert!(matches!(pace.between(true), Between::Frame { .. }));
}

#[test]
fn a_replay_start_begins_the_count_again_and_ends_the_frame() {
    let mut pace = Pace::new(5);
    assert!(pace.ticked(After::Carry));
    assert!(pace.ticked(After::Carry));
    assert_eq!(pace.tick, 2);
    assert!(!pace.ticked(After::Restart));
    assert_eq!(pace.tick, 0);
    assert_eq!(pace.due(), Some(0));

    let mut waiting = Pace::new(0);
    waiting.waited(After::Carry);
    assert_eq!(waiting.tick, 0);
    waiting.tick = 4;
    waiting.budget = 4;
    waiting.waited(After::Restart);
    assert_eq!(waiting.tick, 0);
}

#[test]
fn a_world_comes_from_the_scene_when_there_is_one() {
    assert_eq!(world_from(true, Mode::Motion), Ok(WorldFrom::SceneText));
    assert_eq!(world_from(true, Mode::SceneFile), Ok(WorldFrom::SceneText));
    assert_eq!(world_from(false, Mode::Physics), Ok(WorldFrom::Code));
    assert_eq!(world_from(false, Mode::SceneFile), Err(RunError::SceneMissing));
}

#[test]
fn the_line_beside_the_report_names_mode_seed_and_what_is_reported() {
    assert_eq!(
        describe_run(Mode::Chance, 42, 600, 12, 3, Report::Hash),
        "narvo: mode chance, seed 42, 600 ticks over 12 entities, 3 recorded inputs, reporting \
         the state hash"
    );
    assert!(describe_run(Mode::SceneFile, 0, 0, 0, 0, Report::Summary).ends_with("a summary"));
    assert!(describe_run(Mode::Motion, 1, 1, 1, 1, Report::Dump).ends_with("the canonical dump"));
}

/// Ticks an accumulator at sixty hertz hands out for a frame of `micros`,
/// carrying the remainder: a stand-in for the engine's fixed timestep, which
/// decides only how the ticks are spread over frames.
fn sixty_hertz(carry: &mut u64, micros: u64) -> u64 {
    const STEP_NS: u64 = 16_666_667;
    *carry += micros * 1_000;
    let due = *carry / STEP_NS;
    *carry %= STEP_NS;
    due
}

#[test]
fn a_run_executes_exactly_the_ticks_it_was_asked_for() {
    for ticks in [0, 1, 7, 100] {
        let mut pace = Pace::new(ticks);
        let mut carry = 0;
        let ran = loop {
            match pace.between(false) {
                Between::Frame { micros } => {
                    for _ in 0..sixty_hertz(&mut carry, micros) {
                        if pace.due().is_none() {
                            break;
                        }
                        pace.ticked(After::Carry);
                    }
                }
                Between::Finish { ticks } => break ticks,
                Between::Wait { .. } => unreachable!("nobody is attached"),
            }
        };
        assert_eq!(ran, ticks);
    }
}
