//! The command line, read the way the runner reads it.

use narvo_app::cli::{
    CliError, Command, DEFAULT_SCREENSHOT_PATH, DEFAULT_SEED, HeadlessOptions, MODE_NAMES, Report,
    USAGE, WindowOptions, parse,
};
use narvo_app::modes::Mode;

/// Turns string literals into what `parse` expects.
fn args(raw: &[&str]) -> Vec<String> {
    raw.iter().map(|argument| (*argument).to_owned()).collect()
}

/// The headless options with everything left at its default.
fn options() -> HeadlessOptions {
    HeadlessOptions {
        scene: None,
        mode: Mode::default(),
        seed: DEFAULT_SEED,
        ticks: None,
        report: Report::Summary,
        record: None,
        replay: None,
        expect: None,
        ipc: None,
    }
}

/// The headless command with everything but ticks and report at its default.
fn headless(ticks: Option<u64>, report: Report) -> Command {
    Command::Headless(HeadlessOptions {
        ticks,
        report,
        ..options()
    })
}

#[test]
fn no_arguments_means_the_window() {
    assert_eq!(
        parse(args(&[])),
        Ok(Command::Window(WindowOptions::default()))
    );
}

#[test]
fn a_mapping_is_a_window_flag_and_carries_its_path() {
    assert_eq!(
        parse(args(&["--mapping", "keys.ron"])),
        Ok(Command::Window(WindowOptions {
            scene: None,
            mapping: Some("keys.ron".to_owned()),
        }))
    );

    assert_eq!(
        parse(args(&["--scene", "live.ron", "--mapping", "keys.ron"])),
        Ok(Command::Window(WindowOptions {
            scene: Some("live.ron".to_owned()),
            mapping: Some("keys.ron".to_owned()),
        }))
    );
}

#[test]
fn a_mapping_without_a_window_is_refused_and_names_the_flag_that_took_it() {
    // Three runs have no keyboard: no window at all, one offscreen frame,
    // and an unattended measurement.
    for (arguments, other) in [
        (vec!["--headless", "--mapping", "keys.ron"], "--headless"),
        (vec!["--ticks", "10", "--mapping", "keys.ron"], "--ticks"),
        (
            vec!["--screenshot", "--mapping", "keys.ron"],
            "--screenshot",
        ),
        (vec!["--frames", "10", "--mapping", "keys.ron"], "--frames"),
    ] {
        assert_eq!(
            parse(args(&arguments)),
            Err(CliError::MappingWithoutWindow { other }),
            "{arguments:?}"
        );
    }

    assert_eq!(
        CliError::MappingWithoutWindow {
            other: "--headless"
        }
        .message(),
        "`--mapping` binds keys for a window, and `--headless` asks for a run that has no \
         keyboard to bind; drop one of the two"
    );
}

#[test]
fn a_mapping_without_a_value_says_so() {
    assert_eq!(
        parse(args(&["--mapping"])),
        Err(CliError::MissingValue("--mapping"))
    );
}

#[test]
fn a_scene_on_its_own_opens_a_window_on_it() {
    // M4.6. `--scene` used to imply `--headless`, which made the window
    // unable to show a scene at all and made `--frames --scene` a
    // contradiction. It says *what* to run, not *how*.
    assert_eq!(
        parse(args(&["--scene", "live.ron"])),
        Ok(Command::Window(WindowOptions {
            scene: Some("live.ron".to_owned()),
            mapping: None,
        }))
    );
}

#[test]
fn naming_the_scene_file_mode_still_asks_for_a_headless_run() {
    // The other half of the same rule, and the half a recording needs: a
    // mode is a headless concept, so spelling it out keeps the old meaning.
    assert_eq!(
        parse(args(&["--mode", "scene-file", "--scene", "live.ron"])),
        Ok(Command::Headless(HeadlessOptions {
            mode: Mode::SceneFile,
            scene: Some("live.ron".to_owned()),
            ..options()
        }))
    );
}

#[test]
fn a_measured_run_may_name_the_scene_it_measures() {
    // What makes the hot-reload latency of §6/M4 scriptable: `--frames`
    // ends by itself, so a script can start a windowed run over a scene,
    // edit the file mid-run, and read the log afterwards.
    let Ok(Command::Frames(options)) =
        parse(args(&["--frames", "1200", "--scene", "live.ron"]))
    else {
        panic!("a measured run over a scene is a `Frames` command");
    };
    assert_eq!(options.frames, 1_200);
    assert_eq!(options.scene, Some("live.ron".to_owned()));
}

#[test]
fn the_headless_flag_is_recognised() {
    assert_eq!(
        parse(args(&["--headless"])),
        Ok(headless(None, Report::Summary))
    );
}

#[test]
fn ticks_are_read_and_imply_a_headless_run() {
    assert_eq!(
        parse(args(&["--ticks", "10000"])),
        Ok(headless(Some(10_000), Report::Summary))
    );
}

#[test]
fn zero_ticks_is_a_legitimate_run() {
    // The state before any system has run is a state like any other, and
    // being able to dump it is how a divergence gets bisected.
    assert_eq!(
        parse(args(&["--ticks", "0", "--dump"])),
        Ok(headless(Some(0), Report::Dump))
    );
}

#[test]
fn hash_and_dump_each_imply_a_headless_run() {
    assert_eq!(parse(args(&["--hash"])), Ok(headless(None, Report::Hash)));
    assert_eq!(parse(args(&["--dump"])), Ok(headless(None, Report::Dump)));
}

#[test]
fn the_cross_platform_invocation_parses() {
    assert_eq!(
        parse(args(&["--headless", "--ticks", "10000", "--hash"])),
        Ok(headless(Some(10_000), Report::Hash))
    );
}

#[test]
fn repeating_the_same_report_is_not_a_conflict() {
    assert_eq!(
        parse(args(&["--hash", "--hash"])),
        Ok(headless(None, Report::Hash))
    );
}

#[test]
fn asking_for_two_different_reports_is_rejected_rather_than_guessed() {
    assert_eq!(
        parse(args(&["--hash", "--dump"])),
        Err(CliError::AmbiguousReport("--hash", "--dump"))
    );
}

#[test]
fn ticks_without_a_number_says_so() {
    assert_eq!(
        parse(args(&["--ticks"])),
        Err(CliError::MissingValue("--ticks"))
    );
    assert_eq!(
        parse(args(&["--ticks", "--hash"])),
        Err(CliError::MissingValue("--ticks"))
    );
}

#[test]
fn a_tick_count_that_is_not_a_number_names_what_was_given() {
    let error = parse(args(&["--ticks", "many"])).expect_err("`many` is not a number");

    assert_eq!(
        error,
        CliError::InvalidValue {
            flag: "--ticks",
            value: "many".to_owned(),
            expected: "a whole number of ticks",
        }
    );
    assert!(error.message().contains("many"));
}

#[test]
fn the_mode_is_read_and_implies_a_headless_run() {
    assert_eq!(
        parse(args(&["--mode", "chance"])),
        Ok(Command::Headless(HeadlessOptions {
            mode: Mode::Chance,
            ..options()
        }))
    );
}

#[test]
fn the_seed_is_read_and_implies_a_headless_run() {
    assert_eq!(
        parse(args(&["--seed", "12345"])),
        Ok(Command::Headless(HeadlessOptions {
            seed: 12_345,
            ..options()
        }))
    );
}

#[test]
fn the_cross_platform_chance_invocation_parses() {
    // The exact line the cross-platform comparison is run with, so a typo in
    // it is a failing test rather than two runs of two different things.
    assert_eq!(
        parse(args(&[
            "--mode", "chance", "--seed", "1", "--ticks", "10000", "--hash"
        ])),
        Ok(Command::Headless(HeadlessOptions {
            mode: Mode::Chance,
            seed: 1,
            ticks: Some(10_000),
            report: Report::Hash,
            ..options()
        }))
    );
}

#[test]
fn an_unknown_mode_is_rejected_and_the_message_lists_the_ones_that_exist() {
    let error = parse(args(&["--mode", "chaos"])).expect_err("`chaos` is not a mode");

    assert_eq!(
        error,
        CliError::InvalidValue {
            flag: "--mode",
            value: "chaos".to_owned(),
            expected: MODE_NAMES,
        }
    );

    let message = error.message();
    assert!(
        message.contains("chaos"),
        "the message must name what was given: {message}"
    );
    for mode in Mode::ALL {
        assert!(
            message.contains(mode.name()),
            "the message has to offer `{}`: {message}",
            mode.name()
        );
    }
}

#[test]
fn a_seed_that_is_not_a_number_names_the_flag_rather_than_ticks() {
    // The message used to be hard-coded to ticks, which sent the reader of a
    // `--seed` or `--mode` error looking in the wrong place.
    let error = parse(args(&["--seed", "soon"])).expect_err("`soon` is not a number");
    let message = error.message();

    assert!(message.contains("--seed"), "{message}");
    assert!(!message.contains("ticks"), "{message}");
}

#[test]
fn a_mode_or_seed_without_a_value_says_so() {
    assert_eq!(
        parse(args(&["--mode"])),
        Err(CliError::MissingValue("--mode"))
    );
    assert_eq!(
        parse(args(&["--mode", "--hash"])),
        Err(CliError::MissingValue("--mode"))
    );
    assert_eq!(
        parse(args(&["--seed"])),
        Err(CliError::MissingValue("--seed"))
    );
}

#[test]
fn the_defaults_are_the_frozen_simulation() {
    // `narvo --ticks 10000 --hash` has to keep meaning what it meant when
    // the M2.2 hash was recorded: the motion mode, unaffected by any seed.
    let Ok(Command::Headless(options)) = parse(args(&["--hash"])) else {
        panic!("--hash has to imply a headless run");
    };

    assert_eq!(options.mode, Mode::Motion);
}

#[test]
fn the_screenshot_flag_takes_the_next_argument_as_its_path() {
    assert_eq!(
        parse(args(&["--screenshot", "out/frame.png"])),
        Ok(Command::Screenshot("out/frame.png".to_owned()))
    );
}

#[test]
fn a_screenshot_flag_without_a_path_falls_back_to_the_default_under_target() {
    assert_eq!(
        parse(args(&["--screenshot"])),
        Ok(Command::Screenshot(DEFAULT_SCREENSHOT_PATH.to_owned()))
    );
}

#[test]
fn the_default_screenshot_path_stays_under_target() {
    // The point of the default is that a screenshot never lands in the
    // working tree. If this ever moves out from under `target/`, it would
    // start leaving untracked files behind again.
    assert!(
        DEFAULT_SCREENSHOT_PATH.starts_with("target/"),
        "the default must stay inside the ignored build directory, got {}",
        DEFAULT_SCREENSHOT_PATH
    );
}

/// The two flags a conflict is between, whatever the reason given.
fn conflict(raw: &[&str]) -> (&'static str, &'static str) {
    match parse(args(raw)).expect_err("these flags conflict") {
        CliError::Conflicting { first, second, why } => {
            assert!(!why.is_empty(), "a conflict has to say why");
            (first, second)
        }
        other => panic!("expected a conflict, got {other:?}"),
    }
}

#[test]
fn a_flag_after_screenshot_is_not_mistaken_for_a_path() {
    assert_eq!(
        conflict(&["--screenshot", "--headless"]),
        ("--headless", "--screenshot")
    );
}

#[test]
fn headless_and_screenshot_together_are_rejected_rather_than_guessed() {
    assert_eq!(
        conflict(&["--headless", "--screenshot", "frame.png"]),
        ("--headless", "--screenshot")
    );
}

#[test]
fn the_conflict_names_the_flag_that_was_actually_typed() {
    assert_eq!(
        conflict(&["--hash", "--screenshot", "frame.png"]),
        ("--hash", "--screenshot")
    );
}

#[test]
fn recording_and_replaying_take_paths_and_imply_a_headless_run() {
    assert_eq!(
        parse(args(&["--record", "bug.rec"])),
        Ok(Command::Headless(HeadlessOptions {
            record: Some("bug.rec".to_owned()),
            ..options()
        }))
    );
    assert_eq!(
        parse(args(&["--replay", "bug.rec"])),
        Ok(Command::Headless(HeadlessOptions {
            replay: Some("bug.rec".to_owned()),
            ..options()
        }))
    );
}

#[test]
fn a_replay_may_be_shortened_to_bisect_a_divergence() {
    // The one thing a replay does take alongside the file, and the reason it
    // does: finding where two runs first differ means running the same
    // recording to a series of shorter lengths.
    assert_eq!(
        parse(args(&["--replay", "bug.rec", "--ticks", "500"])),
        Ok(Command::Headless(HeadlessOptions {
            ticks: Some(500),
            replay: Some("bug.rec".to_owned()),
            ..options()
        }))
    );
}

#[test]
fn a_replay_refuses_a_second_opinion_about_what_it_is_replaying() {
    // Mode and seed are in the recording. Accepting them again would let a
    // command line say one thing and a file another, and a replay that
    // quietly follows the wrong one is the failure this whole feature is
    // meant to rule out.
    assert_eq!(
        conflict(&["--replay", "bug.rec", "--mode", "input"]),
        ("--replay", "--mode")
    );
    assert_eq!(
        conflict(&["--replay", "bug.rec", "--seed", "3"]),
        ("--replay", "--seed")
    );
    assert_eq!(
        conflict(&["--replay", "bug.rec", "--record", "again.rec"]),
        ("--replay", "--record")
    );
}

#[test]
fn the_order_of_replay_and_the_flag_it_conflicts_with_does_not_matter() {
    assert_eq!(
        conflict(&["--mode", "input", "--replay", "bug.rec"]),
        ("--replay", "--mode")
    );
}

#[test]
fn recording_and_replaying_without_a_path_say_so() {
    assert_eq!(
        parse(args(&["--record"])),
        Err(CliError::MissingValue("--record"))
    );
    assert_eq!(
        parse(args(&["--replay", "--hash"])),
        Err(CliError::MissingValue("--replay"))
    );
}

#[test]
fn an_expected_state_takes_a_path_and_implies_a_headless_run() {
    assert_eq!(
        parse(args(&["--expect", "expected.dump"])),
        Ok(Command::Headless(HeadlessOptions {
            expect: Some("expected.dump".to_owned()),
            ..options()
        }))
    );
}

#[test]
fn a_repro_is_a_replay_with_an_expected_state_and_a_tick_count() {
    // The line M6.7a exists to make runnable, parsed as one thing: the
    // recording says what to feed, the tick count says where to stop, and the
    // expected state says what the answer has to be.
    assert_eq!(
        parse(args(&[
            "--replay",
            "bug.rec",
            "--ticks",
            "500",
            "--expect",
            "expected.dump"
        ])),
        Ok(Command::Headless(HeadlessOptions {
            ticks: Some(500),
            replay: Some("bug.rec".to_owned()),
            expect: Some("expected.dump".to_owned()),
            ..options()
        }))
    );
}

#[test]
fn an_expected_state_and_a_report_are_independent_of_each_other() {
    // `--dump` decides what reaches stdout, `--expect` decides what the exit
    // code means. Asking for both is a run that prints its state *and* is
    // judged on it, which is how a repro is bisected without a second run.
    assert_eq!(
        parse(args(&["--expect", "expected.dump", "--dump"])),
        Ok(Command::Headless(HeadlessOptions {
            report: Report::Dump,
            expect: Some("expected.dump".to_owned()),
            ..options()
        }))
    );
}

#[test]
fn an_expected_state_without_a_path_says_so() {
    assert_eq!(
        parse(args(&["--expect"])),
        Err(CliError::MissingValue("--expect"))
    );
    assert_eq!(
        parse(args(&["--expect", "--hash"])),
        Err(CliError::MissingValue("--expect"))
    );
}

#[test]
fn an_expected_state_is_refused_for_the_runs_that_have_no_final_state() {
    // A screenshot writes one frame and a measurement times a window; neither
    // ends with a simulation state anybody could expect anything of.
    assert_eq!(
        conflict(&["--expect", "expected.dump", "--screenshot", "frame.png"]),
        ("--expect", "--screenshot")
    );
    assert_eq!(
        conflict(&["--expect", "expected.dump", "--frames", "10"]),
        ("--frames", "--expect")
    );
    assert_eq!(
        parse(args(&[
            "--expect",
            "expected.dump",
            "--mapping",
            "keys.ron"
        ])),
        Err(CliError::MappingWithoutWindow { other: "--expect" })
    );
}

#[test]
fn recording_alongside_a_screenshot_is_still_a_conflict() {
    assert_eq!(
        conflict(&["--record", "bug.rec", "--screenshot", "frame.png"]),
        ("--record", "--screenshot")
    );
}

#[test]
fn the_usage_text_mentions_every_mode_and_every_flag_that_exists() {
    // The usage text is the only documentation a caller gets, and it is a
    // string constant nothing else would notice going stale.
    for mode in Mode::ALL {
        assert!(
            USAGE.contains(mode.name()),
            "the usage text does not mention mode `{}`",
            mode.name()
        );
        assert!(
            MODE_NAMES.contains(mode.name()),
            "the --mode error message does not offer `{}`",
            mode.name()
        );
    }

    for flag in [
        "--headless",
        "--mode",
        "--seed",
        "--ticks",
        "--record",
        "--replay",
        "--expect",
        "--hash",
        "--dump",
        "--screenshot",
        "--resize-probe",
        "--help",
    ] {
        assert!(
            USAGE.contains(flag),
            "the usage text does not mention {flag}"
        );
    }
}

#[test]
fn an_unknown_argument_is_named_in_the_error() {
    let error = parse(args(&["--wat"])).expect_err("an unknown flag must be rejected");

    assert_eq!(error, CliError::UnknownArgument("--wat".to_owned()));
    assert!(
        error.message().contains("--wat"),
        "the message must name the argument: {}",
        error.message()
    );
}

/// The resize probe is off unless it is asked for, and asking works.
///
/// M7.1c's instrument, and the reason it has a test of its own: a flag that
/// parses into nothing is exactly the shape M7.1a found — the run reports
/// what it always reported, and the report reads like an answer. Removing
/// the parser arm turns the second half red, and the first half is what says
/// an ordinary `--frames` run is not silently resizing itself.
#[test]
fn the_resize_probe_is_off_unless_it_is_asked_for() {
    let Ok(Command::Frames(plain)) = parse(args(&["--frames", "400"])) else {
        panic!("a measured run is a `Frames` command");
    };
    assert!(
        !plain.resize_probe,
        "an ordinary measured run must not move its own window"
    );

    let Ok(Command::Frames(probed)) = parse(args(&["--frames", "400", "--resize-probe"]))
    else {
        panic!("a measured run is a `Frames` command");
    };
    assert!(
        probed.resize_probe,
        "--resize-probe parsed into nothing, so the run measures a still window \
         while reporting the flag was given"
    );
    assert_eq!(probed.frames, 400, "the probe changed an unrelated field");
}

#[test]
fn both_spellings_of_help_work() {
    assert_eq!(parse(args(&["--help"])), Ok(Command::Help));
    assert_eq!(parse(args(&["-h"])), Ok(Command::Help));
}

#[test]
fn a_scene_beside_a_replay_is_refused_as_that() {
    // A recording names its own scene; the scene on the command line is the
    // second opinion, not a mode the user never typed.
    let error = parse(args(&["--replay", "bug.rec", "--scene", "x.ron"]))
        .expect_err("a recording already names its scene");
    assert_eq!(error, CliError::SceneWithReplay);
    assert_eq!(
        error.message(),
        "`--replay` already knows which scene its recording was made against, and checks the \
         file against it; `--scene` would be a second opinion that could only disagree"
    );
    assert_eq!(
        parse(args(&["--scene", "x.ron", "--replay", "bug.rec", "--mode", "scene-file"])),
        Err(CliError::SceneWithReplay)
    );
    // A replay without a scene still refuses a mode.
    assert!(matches!(
        parse(args(&["--replay", "bug.rec", "--mode", "input"])),
        Err(CliError::Conflicting { first: "--replay", second: "--mode", .. })
    ));
}
