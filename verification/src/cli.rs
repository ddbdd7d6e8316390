//! Command line parsing.
//!
//! Hand-rolled on purpose: the surface is a handful of flags. Which commands can
//! actually run depends on how the runner was built, but which ones can be named
//! does not, so the parser works the same in every configuration.
//!
//! Paths travel as text. The runner turns them into paths where it opens a file.

use vstd::prelude::*;

use crate::modes::{Mode, MEASURED_SPRITES, mode_named};
use crate::text::{
    dashed, parse_u64, parse_usize, same_text, starts_with_dash, u64_of, usize_of,
};

verus! {

/// What the process was asked to do.
#[derive(Debug, Clone, PartialEq, Eq)]
pub enum Command {
    /// Open a window and show the render output. The default.
    Window(WindowOptions),
    /// Run the simulation with no window and no GPU.
    Headless(HeadlessOptions),
    /// Render one frame offscreen, write it to this path as a PNG, and exit.
    Screenshot(String),
    /// Run the frame loop for a fixed number of frames, report the timings, exit.
    Frames(FrameOptions),
    /// Print usage and exit.
    Help,
}

/// What a windowed run was asked for.
#[derive(Debug, Clone, PartialEq, Eq)]
pub struct WindowOptions {
    /// The scene file to constitute the world from, and watch.
    pub scene: Option<String>,
    /// The input mapping to drive the keyboard through. There is no default.
    pub mapping: Option<String>,
}

impl Default for WindowOptions {
    /// A window on the demo, with no mapping.
    fn default() -> (options: WindowOptions)
        ensures
            options.scene is None,
            options.mapping is None,
    {
        WindowOptions { scene: None, mapping: None }
    }
}

/// How a frame-time measurement is configured.
#[derive(Debug, Clone, PartialEq, Eq)]
pub struct FrameOptions {
    /// Frames to run after the warm-up.
    pub frames: usize,
    /// Frames to run and discard before measuring.
    pub warmup: usize,
    /// Sprites in the scene.
    pub sprites: usize,
    /// Take a present mode that does not wait for the display.
    pub uncapped: bool,
    /// Block on the GPU each frame, so its execution time is attributable.
    pub drain: bool,
    /// The scene to run instead of the sprite-field demo, if any.
    pub scene: Option<String>,
    /// Ask the window for a fixed series of sizes as the run goes.
    pub resize_probe: bool,
}

/// How a headless run is configured.
#[derive(Debug, Clone, PartialEq, Eq)]
pub struct HeadlessOptions {
    /// Which demo simulation to drive. Ignored when replaying.
    pub mode: Mode,
    /// The seed handed to the simulation. Ignored when replaying.
    pub seed: u64,
    /// Simulation ticks to execute; `None` is the default for a live run and
    /// the recording's full length for a replay.
    pub ticks: Option<u64>,
    /// What the run writes to stdout when it is over.
    pub report: Report,
    /// Where to write the run's input stream, if anywhere.
    pub record: Option<String>,
    /// A recording to replay instead of generating input.
    pub replay: Option<String>,
    /// The scene file a `scene-file` run is constituted from.
    pub scene: Option<String>,
    /// A canonical dump this run's final state has to be, if one was named.
    pub expect: Option<String>,
    /// Where to listen for an agent, if anywhere.
    pub ipc: Option<String>,
}

/// What a headless run puts on stdout.
#[derive(Debug, Clone, Copy, PartialEq, Eq, Structural)]
pub enum Report {
    /// A line of prose about what the run did. The default.
    Summary,
    /// The 64-bit state hash as sixteen hex digits, on its own line.
    Hash,
    /// The full canonical dump of the final state.
    Dump,
}

/// Ticks a headless run executes unless `--ticks` says otherwise.
pub const DEFAULT_TICKS: u64 = 600;

/// Seed a headless run uses unless `--seed` says otherwise.
pub const DEFAULT_SEED: u64 = 1;

/// What `--mode` accepts, as the error message spells it.
pub const MODE_NAMES: &'static str = "one of `motion`, `chance`, `input`, `scene`, `scene-file` or `physics`";

/// Frames a measurement runs unless `--frames` says otherwise.
pub const DEFAULT_FRAMES: usize = 1_000;

/// Frames discarded before measuring, unless `--warmup` says otherwise.
pub const DEFAULT_WARMUP: usize = 60;

/// Where `--screenshot` writes when no path is given.
pub const DEFAULT_SCREENSHOT_PATH: &'static str = "target/screenshots/screenshot.png";

/// Usage text, printed for `--help` and after a parse error.
pub const USAGE: &'static str = "\
narvo - runner for the Narvo engine

Usage:
  narvo                     Open a window and show the render output
  narvo --headless          Run the simulation with no window
  narvo --mode NAME         Which simulation to run (implies --headless)
                             motion: integer movement plus one f32 (default)
                             chance: seeded randomness and events
                             input:  driven only by the input stream
                             physics: rigid bodies falling onto a ground
  narvo --seed N            Seed for the simulation (implies --headless, default 1)
  narvo --ticks N           Run N ticks (implies --headless, default 600)
  narvo --record PATH       Write the run's input stream to PATH
  narvo --replay PATH       Replay PATH instead of generating input
  narvo --scene PATH        Constitute the world from a scene file. On its own it
                             opens a window and reloads when the file changes
  narvo --mapping PATH      Bind the window's keyboard through a mapping file.
                             Without it, keys do nothing; there is no default
  narvo --hash              Print the state hash after the run, nothing else
  narvo --dump              Print the canonical state dump after the run
  narvo --expect PATH       Require the run's final state to be the canonical dump
                             in PATH. Exit 1 and say where they part if it is not
  narvo --screenshot [PATH] Render one frame offscreen, write it as a PNG, exit
  narvo --frames N          Run N frames of the scene in a window and time them
  narvo --warmup N          Discard N frames before measuring (default 60)
  narvo --sprites N         Sprites in the measured scene (default 50000)
  narvo --uncapped          Take a present mode that does not wait for the display
  narvo --resize-probe      Resize the window four times while measuring, so the
                             `acquire` row is about a surface reconfigure
  narvo --drain             Block on the GPU each frame, so its cost is attributable
                             Without PATH: target/screenshots/screenshot.png
  narvo --help              Print this text

The simulations --mode accepts are `motion`, `chance`, `input`, `scene`,
`scene-file` and `physics`. `physics` is the one the rigid-body solver drives: a
stack of boxes falling onto a ground, and the first mode whose state a
dependency computes.
`scene-file` builds its world from a scene file given with --scene,
and a recording of such a run refuses to replay against a changed file. Naming
the mode implies --headless; --scene on its own opens a window on the file and
watches it, so editing the file reloads the world between two ticks.
`scene` is the one that draws: a field of sprites and a camera that follows a
wandering target. The window runs it, and --frames measures it.

Everything except --screenshot and the window needs no GPU. Those two need a
build with the `render` feature, which is on by default.

--hash and --dump write to stdout and nothing else does, so

  narvo --mode chance --seed 1 --ticks 10000 --hash > run.txt

is comparable byte for byte between machines.

A recording carries its own mode, seed and length, so --replay takes none of
them. --ticks may still shorten a replay, which is how a divergence is bisected:

  narvo --mode input --ticks 10000 --record bug.rec --hash
  narvo --replay bug.rec --ticks 500 --dump

Those two lines and --expect are a repro test. The first writes the recording,
the second writes down the state it produces, and the third is what anybody runs
afterwards to see whether that state comes back:

  narvo --replay bug.rec --ticks 500 --dump > expected.dump
  narvo --replay bug.rec --ticks 500 --expect expected.dump

The expected state is a file and never a value in this repository (ADR-0035): it
is written by a run and handed over, not committed.";

/// Why `--frames` cannot join a headless-implying flag.
pub const FRAMES_NEED_A_WINDOW: &'static str = "a frame-time measurement needs a window, and that flag asks for no window";

/// Why `--frames` cannot join `--screenshot`.
pub const FRAMES_OR_SCREENSHOT: &'static str = "one writes a file and exits, the other runs a loop and times it";

/// Why a headless-implying flag cannot join `--screenshot`.
pub const LOOP_OR_SCREENSHOT: &'static str = "one writes a file and exits, the other runs a loop";

/// Why `--replay` cannot join `--record`.
pub const REPLAY_OR_RECORD: &'static str = "a run either consumes a recording or produces one";

/// Why `--replay` cannot join `--mode`.
pub const REPLAY_KNOWS_MODE: &'static str = "the recording already says which simulation it is of";

/// Why `--replay` cannot join `--seed`.
pub const REPLAY_KNOWS_SEED: &'static str = "the recording already carries the seed it was made with";

/// Why a command line could not be understood.
#[derive(Debug, Clone, PartialEq, Eq)]
pub enum CliError {
    /// `--mode scene-file` was given without a scene to constitute a world from.
    SceneRequired,
    /// `--scene` was given for a mode that is built from code.
    SceneWithoutSceneFile {
        /// The mode that was asked for.
        mode: Mode,
    },
    /// `--scene` was given alongside `--replay`.
    SceneWithReplay,
    /// `--mapping` was given for a run that has no keyboard.
    MappingWithoutWindow {
        /// The flag that took the window away, or that made the run unattended.
        other: &'static str,
    },
    /// An argument that is not one of the known flags.
    UnknownArgument(String),
    /// Two flags were given that cannot both apply.
    Conflicting {
        /// The flag that was seen first.
        first: &'static str,
        /// The one that cannot join it.
        second: &'static str,
        /// Why they exclude each other, as a clause.
        why: &'static str,
    },
    /// Two flags were given that both say what to print.
    AmbiguousReport(&'static str, &'static str),
    /// A flag that needs a value was given without one.
    MissingValue(&'static str),
    /// A flag's value could not be read as what the flag needs.
    InvalidValue {
        /// The flag whose value was wrong.
        flag: &'static str,
        /// What was given instead.
        value: String,
        /// What the flag would have accepted, as a noun phrase.
        expected: &'static str,
    },
}

// ---------------------------------------------------------------------------
// The model: the same values with text as sequences of characters.
// ---------------------------------------------------------------------------

/// A windowed run, as text.
pub struct WindowModel {
    pub scene: Option<Seq<char>>,
    pub mapping: Option<Seq<char>>,
}

/// A measured run, as text.
pub struct FrameModel {
    pub frames: usize,
    pub warmup: usize,
    pub sprites: usize,
    pub uncapped: bool,
    pub drain: bool,
    pub scene: Option<Seq<char>>,
    pub resize_probe: bool,
}

/// A headless run, as text.
pub struct HeadlessModel {
    pub mode: Mode,
    pub seed: u64,
    pub ticks: Option<u64>,
    pub report: Report,
    pub record: Option<Seq<char>>,
    pub replay: Option<Seq<char>>,
    pub scene: Option<Seq<char>>,
    pub expect: Option<Seq<char>>,
    pub ipc: Option<Seq<char>>,
}

/// A command, as text.
pub enum CommandModel {
    Window(WindowModel),
    Headless(HeadlessModel),
    Screenshot(Seq<char>),
    Frames(FrameModel),
    Help,
}

/// A refusal, as text.
pub enum CliErrorModel {
    SceneRequired,
    SceneWithoutSceneFile { mode: Mode },
    SceneWithReplay,
    MappingWithoutWindow { other: Seq<char> },
    UnknownArgument(Seq<char>),
    Conflicting { first: Seq<char>, second: Seq<char>, why: Seq<char> },
    AmbiguousReport(Seq<char>, Seq<char>),
    MissingValue(Seq<char>),
    InvalidValue { flag: Seq<char>, value: Seq<char>, expected: Seq<char> },
}

/// Text that may be absent, as a sequence of characters.
pub open spec fn text_of(text: Option<String>) -> Option<Seq<char>> {
    match text {
        Some(t) => Some(t@),
        None => None,
    }
}

/// A flag name that may be absent, as a sequence of characters.
pub open spec fn flag_of(flag: Option<&'static str>) -> Option<Seq<char>> {
    match flag {
        Some(f) => Some(f@),
        None => None,
    }
}

impl View for WindowOptions {
    type V = WindowModel;

    open spec fn view(&self) -> WindowModel {
        WindowModel { scene: text_of(self.scene), mapping: text_of(self.mapping) }
    }
}

impl View for FrameOptions {
    type V = FrameModel;

    open spec fn view(&self) -> FrameModel {
        FrameModel {
            frames: self.frames,
            warmup: self.warmup,
            sprites: self.sprites,
            uncapped: self.uncapped,
            drain: self.drain,
            scene: text_of(self.scene),
            resize_probe: self.resize_probe,
        }
    }
}

impl View for HeadlessOptions {
    type V = HeadlessModel;

    open spec fn view(&self) -> HeadlessModel {
        HeadlessModel {
            mode: self.mode,
            seed: self.seed,
            ticks: self.ticks,
            report: self.report,
            record: text_of(self.record),
            replay: text_of(self.replay),
            scene: text_of(self.scene),
            expect: text_of(self.expect),
            ipc: text_of(self.ipc),
        }
    }
}

impl View for Command {
    type V = CommandModel;

    open spec fn view(&self) -> CommandModel {
        match self {
            Command::Window(options) => CommandModel::Window(options@),
            Command::Headless(options) => CommandModel::Headless(options@),
            Command::Screenshot(path) => CommandModel::Screenshot(path@),
            Command::Frames(options) => CommandModel::Frames(options@),
            Command::Help => CommandModel::Help,
        }
    }
}

impl View for CliError {
    type V = CliErrorModel;

    open spec fn view(&self) -> CliErrorModel {
        match self {
            CliError::SceneRequired => CliErrorModel::SceneRequired,
            CliError::SceneWithoutSceneFile { mode } => CliErrorModel::SceneWithoutSceneFile {
                mode: *mode,
            },
            CliError::SceneWithReplay => CliErrorModel::SceneWithReplay,
            CliError::MappingWithoutWindow { other } => CliErrorModel::MappingWithoutWindow {
                other: other@,
            },
            CliError::UnknownArgument(argument) => CliErrorModel::UnknownArgument(argument@),
            CliError::Conflicting { first, second, why } => CliErrorModel::Conflicting {
                first: first@,
                second: second@,
                why: why@,
            },
            CliError::AmbiguousReport(first, second) => CliErrorModel::AmbiguousReport(
                first@,
                second@,
            ),
            CliError::MissingValue(flag) => CliErrorModel::MissingValue(flag@),
            CliError::InvalidValue { flag, value, expected } => CliErrorModel::InvalidValue {
                flag: flag@,
                value: value@,
                expected: expected@,
            },
        }
    }
}

/// A parse outcome, as text.
pub open spec fn outcome_of(outcome: Result<Command, CliError>) -> Result<CommandModel, CliErrorModel> {
    match outcome {
        Ok(command) => Ok(command@),
        Err(error) => Err(error@),
    }
}

// ---------------------------------------------------------------------------
// What the flags say, read left to right.
// ---------------------------------------------------------------------------

/// Everything the flags of one command line have said so far.
pub struct Seen {
    /// Which headless-implying flag was seen first.
    pub headless: Option<Seq<char>>,
    pub mode: Option<Mode>,
    pub seed: Option<u64>,
    pub ticks: Option<u64>,
    /// The report asked for, and the flag that asked for it.
    pub report: Option<(Seq<char>, Report)>,
    pub screenshot: Option<Seq<char>>,
    pub record: Option<Seq<char>>,
    pub replay: Option<Seq<char>>,
    pub expect: Option<Seq<char>>,
    pub scene: Option<Seq<char>>,
    pub ipc: Option<Seq<char>>,
    pub mapping: Option<Seq<char>>,
    pub frames: Option<usize>,
    pub warmup: Option<usize>,
    pub sprites: Option<usize>,
    pub uncapped: bool,
    pub resize_probe: bool,
    pub drain: bool,
}

/// Nothing said yet.
pub open spec fn nothing_seen() -> Seen {
    Seen {
        headless: None,
        mode: None,
        seed: None,
        ticks: None,
        report: None,
        screenshot: None,
        record: None,
        replay: None,
        expect: None,
        scene: None,
        ipc: None,
        mapping: None,
        frames: None,
        warmup: None,
        sprites: None,
        uncapped: false,
        resize_probe: false,
        drain: false,
    }
}

/// The first headless-implying flag, which a later one does not displace.
pub open spec fn claim(headless: Option<Seq<char>>, flag: Seq<char>) -> Option<Seq<char>> {
    match headless {
        Some(first) => Some(first),
        None => Some(flag),
    }
}

/// The value that follows the flag at `i`, if one does.
///
/// Anything starting with `-` is the next flag rather than a value.
pub open spec fn value_after(args: Seq<Seq<char>>, i: int) -> Option<Seq<char>> {
    if 0 <= i + 1 < args.len() && !dashed(args[i + 1]) {
        Some(args[i + 1])
    } else {
        None
    }
}

/// The report slot after `flag` asks for `report`: a second, different report
/// is refused.
pub open spec fn report_after(
    slot: Option<(Seq<char>, Report)>,
    flag: Seq<char>,
    report: Report,
) -> Result<Option<(Seq<char>, Report)>, CliErrorModel> {
    match slot {
        Some((previous, chosen)) => if chosen != report {
            Err(CliErrorModel::AmbiguousReport(previous, flag))
        } else {
            Ok(Some((flag, report)))
        },
        None => Ok(Some((flag, report))),
    }
}

/// What reading one argument did.
pub enum Scanned {
    /// Help was asked for, which ends the reading.
    Help,
    /// The argument was refused.
    Failed(CliErrorModel),
    /// The argument was taken, with the value after it when `two`.
    Read { two: bool, seen: Seen },
}

/// A flag that takes a whole number, read.
pub open spec fn number_flag<T>(
    args: Seq<Seq<char>>,
    i: int,
    flag: Seq<char>,
    expected: Seq<char>,
    read: spec_fn(Seq<char>) -> Option<T>,
    store: spec_fn(T) -> Seen,
) -> Scanned {
    match value_after(args, i) {
        None => Scanned::Failed(CliErrorModel::MissingValue(flag)),
        Some(value) => match read(value) {
            None => Scanned::Failed(
                CliErrorModel::InvalidValue { flag, value, expected },
            ),
            Some(n) => Scanned::Read { two: true, seen: store(n) },
        },
    }
}

/// A flag that takes a path, read.
pub open spec fn path_flag(
    args: Seq<Seq<char>>,
    i: int,
    flag: Seq<char>,
    store: spec_fn(Seq<char>) -> Seen,
) -> Scanned {
    match value_after(args, i) {
        None => Scanned::Failed(CliErrorModel::MissingValue(flag)),
        Some(value) => Scanned::Read { two: true, seen: store(value) },
    }
}

/// What the argument at `i` says, given what was said before it.
pub open spec fn scan_one(args: Seq<Seq<char>>, i: int, s: Seen) -> Scanned {
    let a = args[i];
    if a == "--help"@ || a == "-h"@ {
        Scanned::Help
    } else if a == "--headless"@ {
        Scanned::Read { two: false, seen: Seen { headless: claim(s.headless, "--headless"@), ..s } }
    } else if a == "--hash"@ {
        match report_after(s.report, "--hash"@, Report::Hash) {
            Err(error) => Scanned::Failed(error),
            Ok(report) => Scanned::Read {
                two: false,
                seen: Seen { report, headless: claim(s.headless, "--hash"@), ..s },
            },
        }
    } else if a == "--dump"@ {
        match report_after(s.report, "--dump"@, Report::Dump) {
            Err(error) => Scanned::Failed(error),
            Ok(report) => Scanned::Read {
                two: false,
                seen: Seen { report, headless: claim(s.headless, "--dump"@), ..s },
            },
        }
    } else if a == "--mode"@ {
        number_flag(
            args,
            i,
            "--mode"@,
            MODE_NAMES@,
            |v: Seq<char>| mode_named(v),
            |m: Mode| Seen { mode: Some(m), headless: claim(s.headless, "--mode"@), ..s },
        )
    } else if a == "--seed"@ {
        number_flag(
            args,
            i,
            "--seed"@,
            "a whole number"@,
            |v: Seq<char>| u64_of(v),
            |n: u64| Seen { seed: Some(n), headless: claim(s.headless, "--seed"@), ..s },
        )
    } else if a == "--ticks"@ {
        number_flag(
            args,
            i,
            "--ticks"@,
            "a whole number of ticks"@,
            |v: Seq<char>| u64_of(v),
            |n: u64| Seen { ticks: Some(n), headless: claim(s.headless, "--ticks"@), ..s },
        )
    } else if a == "--ipc"@ {
        path_flag(
            args,
            i,
            "--ipc"@,
            |v: Seq<char>| Seen { ipc: Some(v), headless: claim(s.headless, "--ipc"@), ..s },
        )
    } else if a == "--record"@ {
        path_flag(
            args,
            i,
            "--record"@,
            |v: Seq<char>| Seen { record: Some(v), headless: claim(s.headless, "--record"@), ..s },
        )
    } else if a == "--replay"@ {
        path_flag(
            args,
            i,
            "--replay"@,
            |v: Seq<char>| Seen { replay: Some(v), headless: claim(s.headless, "--replay"@), ..s },
        )
    } else if a == "--expect"@ {
        path_flag(
            args,
            i,
            "--expect"@,
            |v: Seq<char>| Seen { expect: Some(v), headless: claim(s.headless, "--expect"@), ..s },
        )
    } else if a == "--scene"@ {
        path_flag(args, i, "--scene"@, |v: Seq<char>| Seen { scene: Some(v), ..s })
    } else if a == "--mapping"@ {
        path_flag(args, i, "--mapping"@, |v: Seq<char>| Seen { mapping: Some(v), ..s })
    } else if a == "--frames"@ {
        number_flag(
            args,
            i,
            "--frames"@,
            "a whole number of frames"@,
            |v: Seq<char>| usize_of(v),
            |n: usize| Seen { frames: Some(n), ..s },
        )
    } else if a == "--warmup"@ {
        number_flag(
            args,
            i,
            "--warmup"@,
            "a whole number of frames"@,
            |v: Seq<char>| usize_of(v),
            |n: usize| Seen { warmup: Some(n), ..s },
        )
    } else if a == "--sprites"@ {
        number_flag(
            args,
            i,
            "--sprites"@,
            "a whole number of sprites"@,
            |v: Seq<char>| usize_of(v),
            |n: usize| Seen { sprites: Some(n), ..s },
        )
    } else if a == "--uncapped"@ {
        Scanned::Read { two: false, seen: Seen { uncapped: true, ..s } }
    } else if a == "--resize-probe"@ {
        Scanned::Read { two: false, seen: Seen { resize_probe: true, ..s } }
    } else if a == "--drain"@ {
        Scanned::Read { two: false, seen: Seen { drain: true, ..s } }
    } else if a == "--screenshot"@ {
        // The path is optional, and a dash starts the next flag instead.
        match value_after(args, i) {
            Some(path) => Scanned::Read { two: true, seen: Seen { screenshot: Some(path), ..s } },
            None => Scanned::Read {
                two: false,
                seen: Seen { screenshot: Some(DEFAULT_SCREENSHOT_PATH@), ..s },
            },
        }
    } else {
        Scanned::Failed(CliErrorModel::UnknownArgument(a))
    }
}

/// Everything the arguments from `i` on say, added to `seen`; `Ok(None)` when
/// help was asked for.
pub open spec fn scan(args: Seq<Seq<char>>, i: int, seen: Seen) -> Result<Option<Seen>, CliErrorModel>
    decreases args.len() - i,
{
    if i < 0 || i >= args.len() {
        Ok(Some(seen))
    } else {
        match scan_one(args, i, seen) {
            Scanned::Help => Ok(None),
            Scanned::Failed(error) => Err(error),
            Scanned::Read { two, seen: next } => scan(
                args,
                if two { i + 2 } else { i + 1 },
                next,
            ),
        }
    }
}

/// Whether any flag of a frame-time measurement was given.
pub open spec fn measuring(s: Seen) -> bool {
    s.frames is Some || s.warmup is Some || s.sprites is Some || s.uncapped || s.drain
}

/// What a headless run is, or why the flags that asked for one disagree.
pub open spec fn headless_of(s: Seen, mode: Option<Mode>) -> Result<CommandModel, CliErrorModel> {
    if s.replay is Some && s.record is Some {
        Err(CliErrorModel::Conflicting {
            first: "--replay"@,
            second: "--record"@,
            why: REPLAY_OR_RECORD@,
        })
    } else if s.replay is Some && s.scene is Some {
        Err(CliErrorModel::SceneWithReplay)
    } else if s.replay is Some && mode is Some {
        Err(CliErrorModel::Conflicting {
            first: "--replay"@,
            second: "--mode"@,
            why: REPLAY_KNOWS_MODE@,
        })
    } else if s.replay is Some && s.seed is Some {
        Err(CliErrorModel::Conflicting {
            first: "--replay"@,
            second: "--seed"@,
            why: REPLAY_KNOWS_SEED@,
        })
    } else {
        let mode = match mode {
            Some(m) => m,
            None => Mode::Motion,
        };
        if mode == Mode::SceneFile && s.scene is None && s.replay is None {
            Err(CliErrorModel::SceneRequired)
        } else if mode != Mode::SceneFile && s.scene is Some {
            Err(CliErrorModel::SceneWithoutSceneFile { mode })
        } else {
            Ok(
                CommandModel::Headless(
                    HeadlessModel {
                        mode,
                        seed: match s.seed {
                            Some(n) => n,
                            None => DEFAULT_SEED,
                        },
                        ticks: s.ticks,
                        report: match s.report {
                            Some((_, report)) => report,
                            None => Report::Summary,
                        },
                        record: s.record,
                        replay: s.replay,
                        expect: s.expect,
                        scene: s.scene,
                        ipc: s.ipc,
                    },
                ),
            )
        }
    }
}

/// The command a finished reading of the flags describes.
pub open spec fn decide(s: Seen) -> Result<CommandModel, CliErrorModel> {
    if s.mapping is Some && (measuring(s) || s.headless is Some || s.screenshot is Some) {
        Err(CliErrorModel::MappingWithoutWindow {
            other: match s.headless {
                Some(flag) => flag,
                None => if s.screenshot is Some {
                    "--screenshot"@
                } else {
                    "--frames"@
                },
            },
        })
    } else if measuring(s) {
        if s.headless is Some {
            Err(CliErrorModel::Conflicting {
                first: "--frames"@,
                second: s.headless->0,
                why: FRAMES_NEED_A_WINDOW@,
            })
        } else if s.screenshot is Some {
            Err(CliErrorModel::Conflicting {
                first: "--frames"@,
                second: "--screenshot"@,
                why: FRAMES_OR_SCREENSHOT@,
            })
        } else {
            Ok(
                CommandModel::Frames(
                    FrameModel {
                        frames: match s.frames {
                            Some(n) => n,
                            None => DEFAULT_FRAMES,
                        },
                        warmup: match s.warmup {
                            Some(n) => n,
                            None => DEFAULT_WARMUP,
                        },
                        sprites: match s.sprites {
                            Some(n) => n,
                            None => MEASURED_SPRITES,
                        },
                        uncapped: s.uncapped,
                        resize_probe: s.resize_probe,
                        drain: s.drain,
                        scene: s.scene,
                    },
                ),
            )
        }
    } else {
        // A scene names the world, and the world names the mode.
        let mode = if s.mode is None && s.scene is Some {
            Some(Mode::SceneFile)
        } else {
            s.mode
        };
        match (s.headless, s.screenshot) {
            (Some(flag), Some(_)) => Err(
                CliErrorModel::Conflicting {
                    first: flag,
                    second: "--screenshot"@,
                    why: LOOP_OR_SCREENSHOT@,
                },
            ),
            (_, Some(path)) => Ok(CommandModel::Screenshot(path)),
            (Some(_), None) => headless_of(s, mode),
            (None, None) => Ok(
                CommandModel::Window(WindowModel { scene: s.scene, mapping: s.mapping }),
            ),
        }
    }
}

/// What a command line asks for, or why it cannot be understood.
pub open spec fn parse_outcome(args: Seq<Seq<char>>) -> Result<CommandModel, CliErrorModel> {
    match scan(args, 0, nothing_seen()) {
        Err(error) => Err(error),
        Ok(None) => Ok(CommandModel::Help),
        Ok(Some(seen)) => decide(seen),
    }
}


// ---------------------------------------------------------------------------
// Reading the flags.
// ---------------------------------------------------------------------------

/// What the flags read so far have said, as the parser holds it.
struct Flags {
    headless: Option<&'static str>,
    mode: Option<Mode>,
    seed: Option<u64>,
    ticks: Option<u64>,
    report: Option<(&'static str, Report)>,
    screenshot: Option<String>,
    record: Option<String>,
    replay: Option<String>,
    expect: Option<String>,
    scene: Option<String>,
    ipc: Option<String>,
    mapping: Option<String>,
    frames: Option<usize>,
    warmup: Option<usize>,
    sprites: Option<usize>,
    uncapped: bool,
    resize_probe: bool,
    drain: bool,
}

/// The report slot as text.
pub open spec fn slot_of(slot: Option<(&'static str, Report)>) -> Option<(Seq<char>, Report)> {
    match slot {
        Some((flag, report)) => Some((flag@, report)),
        None => None,
    }
}

impl View for Flags {
    type V = Seen;

    closed spec fn view(&self) -> Seen {
        Seen {
            headless: flag_of(self.headless),
            mode: self.mode,
            seed: self.seed,
            ticks: self.ticks,
            report: slot_of(self.report),
            screenshot: text_of(self.screenshot),
            record: text_of(self.record),
            replay: text_of(self.replay),
            expect: text_of(self.expect),
            scene: text_of(self.scene),
            ipc: text_of(self.ipc),
            mapping: text_of(self.mapping),
            frames: self.frames,
            warmup: self.warmup,
            sprites: self.sprites,
            uncapped: self.uncapped,
            resize_probe: self.resize_probe,
            drain: self.drain,
        }
    }
}

/// What reading one argument did, as the parser holds it.
enum ReadOne {
    Help,
    Failed(CliError),
    Read(bool),
}

/// Remembers `flag` as the one that asked for a headless run, unless an earlier
/// one already did.
fn claim_headless(flags: &mut Flags, flag: &'static str)
    ensures
        final(flags)@ == (Seen { headless: claim(old(flags)@.headless, flag@), ..old(flags)@ }),
{
    if flags.headless.is_none() {
        flags.headless = Some(flag);
    }
}

/// Takes the value that follows the flag at `i`.
///
/// Anything starting with `-` is the next flag rather than a value, so
/// `--ticks --hash` reports that `--ticks` is missing its value instead of
/// complaining that `--hash` is not a number.
fn take_value(args: &Vec<String>, i: usize, flag: &'static str) -> (value: Result<String, CliError>)
    requires
        i < args.len(),
    ensures
        match value_after(args.deep_view(), i as int) {
            None => value matches Err(e) && e@ == CliErrorModel::MissingValue(flag@),
            Some(v) => value matches Ok(text) && text@ == v,
        },
{
    let ghost all = args.deep_view();
    if i + 1 < args.len() {
        assert(all[i + 1] == args@[i + 1]@);
        if !starts_with_dash(args[i + 1].as_str()) {
            return Ok(args[i + 1].clone());
        }
    }
    Err(CliError::MissingValue(flag))
}

/// Records which report was asked for, refusing a second, different one.
fn set_report(slot: &mut Option<(&'static str, Report)>, flag: &'static str, report: Report) -> (done:
    Result<(), CliError>)
    ensures
        match report_after(slot_of(*old(slot)), flag@, report) {
            Err(e) => done matches Err(x) && x@ == e && *final(slot) == *old(slot),
            Ok(next) => done is Ok && slot_of(*final(slot)) == next && *final(slot) == Some(
                (flag, report),
            ),
        },
{
    match *slot {
        Some((previous, chosen)) => {
            if chosen != report {
                return Err(CliError::AmbiguousReport(previous, flag));
            }
        },
        None => {},
    }
    *slot = Some((flag, report));
    Ok(())
}

/// Reads the argument at `i`, and the value after it when it takes one.
fn read_one(args: &Vec<String>, i: usize, flags: &mut Flags) -> (read: ReadOne)
    requires
        i < args.len(),
    ensures
        match scan_one(args.deep_view(), i as int, old(flags)@) {
            Scanned::Help => read is Help,
            Scanned::Failed(e) => read matches ReadOne::Failed(x) && x@ == e,
            Scanned::Read { two, seen } => read matches ReadOne::Read(t) && t == two
                && final(flags)@ == seen,
        },
        read matches ReadOne::Read(true) ==> i + 1 < args.len(),
{
    let ghost all = args.deep_view();
    assert(all[i as int] == args@[i as int]@);
    let a = args[i].as_str();
    if same_text(a, "--help") || same_text(a, "-h") {
        ReadOne::Help
    } else if same_text(a, "--headless") {
        claim_headless(flags, "--headless");
        ReadOne::Read(false)
    } else if same_text(a, "--hash") {
        match set_report(&mut flags.report, "--hash", Report::Hash) {
            Err(e) => ReadOne::Failed(e),
            Ok(()) => {
                claim_headless(flags, "--hash");
                ReadOne::Read(false)
            },
        }
    } else if same_text(a, "--dump") {
        match set_report(&mut flags.report, "--dump", Report::Dump) {
            Err(e) => ReadOne::Failed(e),
            Ok(()) => {
                claim_headless(flags, "--dump");
                ReadOne::Read(false)
            },
        }
    } else if same_text(a, "--mode") {
        match take_value(args, i, "--mode") {
            Err(e) => ReadOne::Failed(e),
            Ok(value) => match Mode::parse(value.as_str()) {
                None => ReadOne::Failed(
                    CliError::InvalidValue { flag: "--mode", value, expected: MODE_NAMES },
                ),
                Some(chosen) => {
                    flags.mode = Some(chosen);
                    claim_headless(flags, "--mode");
                    ReadOne::Read(true)
                },
            },
        }
    } else if same_text(a, "--seed") {
        match take_value(args, i, "--seed") {
            Err(e) => ReadOne::Failed(e),
            Ok(value) => match parse_u64(value.as_str()) {
                None => ReadOne::Failed(
                    CliError::InvalidValue { flag: "--seed", value, expected: "a whole number" },
                ),
                Some(n) => {
                    flags.seed = Some(n);
                    claim_headless(flags, "--seed");
                    ReadOne::Read(true)
                },
            },
        }
    } else if same_text(a, "--ticks") {
        match take_value(args, i, "--ticks") {
            Err(e) => ReadOne::Failed(e),
            Ok(value) => match parse_u64(value.as_str()) {
                None => ReadOne::Failed(
                    CliError::InvalidValue {
                        flag: "--ticks",
                        value,
                        expected: "a whole number of ticks",
                    },
                ),
                Some(n) => {
                    flags.ticks = Some(n);
                    claim_headless(flags, "--ticks");
                    ReadOne::Read(true)
                },
            },
        }
    } else if same_text(a, "--ipc") {
        match take_value(args, i, "--ipc") {
            Err(e) => ReadOne::Failed(e),
            Ok(value) => {
                flags.ipc = Some(value);
                claim_headless(flags, "--ipc");
                ReadOne::Read(true)
            },
        }
    } else if same_text(a, "--record") {
        match take_value(args, i, "--record") {
            Err(e) => ReadOne::Failed(e),
            Ok(value) => {
                flags.record = Some(value);
                claim_headless(flags, "--record");
                ReadOne::Read(true)
            },
        }
    } else if same_text(a, "--replay") {
        match take_value(args, i, "--replay") {
            Err(e) => ReadOne::Failed(e),
            Ok(value) => {
                flags.replay = Some(value);
                claim_headless(flags, "--replay");
                ReadOne::Read(true)
            },
        }
    } else if same_text(a, "--expect") {
        match take_value(args, i, "--expect") {
            Err(e) => ReadOne::Failed(e),
            Ok(value) => {
                flags.expect = Some(value);
                claim_headless(flags, "--expect");
                ReadOne::Read(true)
            },
        }
    } else if same_text(a, "--scene") {
        // Says what to run, not how: it implies nothing.
        match take_value(args, i, "--scene") {
            Err(e) => ReadOne::Failed(e),
            Ok(value) => {
                flags.scene = Some(value);
                ReadOne::Read(true)
            },
        }
    } else if same_text(a, "--mapping") {
        match take_value(args, i, "--mapping") {
            Err(e) => ReadOne::Failed(e),
            Ok(value) => {
                flags.mapping = Some(value);
                ReadOne::Read(true)
            },
        }
    } else if same_text(a, "--frames") {
        match take_value(args, i, "--frames") {
            Err(e) => ReadOne::Failed(e),
            Ok(value) => match parse_usize(value.as_str()) {
                None => ReadOne::Failed(
                    CliError::InvalidValue {
                        flag: "--frames",
                        value,
                        expected: "a whole number of frames",
                    },
                ),
                Some(n) => {
                    flags.frames = Some(n);
                    ReadOne::Read(true)
                },
            },
        }
    } else if same_text(a, "--warmup") {
        match take_value(args, i, "--warmup") {
            Err(e) => ReadOne::Failed(e),
            Ok(value) => match parse_usize(value.as_str()) {
                None => ReadOne::Failed(
                    CliError::InvalidValue {
                        flag: "--warmup",
                        value,
                        expected: "a whole number of frames",
                    },
                ),
                Some(n) => {
                    flags.warmup = Some(n);
                    ReadOne::Read(true)
                },
            },
        }
    } else if same_text(a, "--sprites") {
        match take_value(args, i, "--sprites") {
            Err(e) => ReadOne::Failed(e),
            Ok(value) => match parse_usize(value.as_str()) {
                None => ReadOne::Failed(
                    CliError::InvalidValue {
                        flag: "--sprites",
                        value,
                        expected: "a whole number of sprites",
                    },
                ),
                Some(n) => {
                    flags.sprites = Some(n);
                    ReadOne::Read(true)
                },
            },
        }
    } else if same_text(a, "--uncapped") {
        flags.uncapped = true;
        ReadOne::Read(false)
    } else if same_text(a, "--resize-probe") {
        flags.resize_probe = true;
        ReadOne::Read(false)
    } else if same_text(a, "--drain") {
        flags.drain = true;
        ReadOne::Read(false)
    } else if same_text(a, "--screenshot") {
        // The path is optional. A dash starts the next flag rather than a file
        // name, so `--screenshot --headless` reports the conflict.
        let takes_next = i + 1 < args.len() && !starts_with_dash(args[i + 1].as_str());
        if takes_next {
            assert(all[i + 1] == args@[i + 1]@);
            flags.screenshot = Some(args[i + 1].clone());
            ReadOne::Read(true)
        } else {
            if i + 1 < args.len() {
                assert(all[i + 1] == args@[i + 1]@);
            }
            flags.screenshot = Some(DEFAULT_SCREENSHOT_PATH.to_owned());
            ReadOne::Read(false)
        }
    } else {
        ReadOne::Failed(CliError::UnknownArgument(a.to_owned()))
    }
}


/// Whichever of the two was given, falling back to the default.
fn or_default<T: Copy>(given: Option<T>, default: T) -> (chosen: T)
    ensures
        chosen == (match given {
            Some(v) => v,
            None => default,
        }),
{
    match given {
        Some(v) => v,
        None => default,
    }
}

/// What a headless run is, or why the flags that asked for one disagree.
fn headless_from(flags: Flags, mode: Option<Mode>) -> (command: Result<Command, CliError>)
    ensures
        outcome_of(command) == headless_of(flags@, mode),
{
    // A recording carries the mode, the seed and the length of the run it was
    // made from, and a second opinion on any of them could only disagree.
    if flags.replay.is_some() {
        if flags.record.is_some() {
            return Err(
                CliError::Conflicting {
                    first: "--replay",
                    second: "--record",
                    why: REPLAY_OR_RECORD,
                },
            );
        }
        // A recording names its own scene, and checks the file against it. A
        // scene on the command line is refused as that, before it is read as
        // saying which mode the run is.
        if flags.scene.is_some() {
            return Err(CliError::SceneWithReplay);
        }
        if mode.is_some() {
            return Err(
                CliError::Conflicting {
                    first: "--replay",
                    second: "--mode",
                    why: REPLAY_KNOWS_MODE,
                },
            );
        }
        if flags.seed.is_some() {
            return Err(
                CliError::Conflicting {
                    first: "--replay",
                    second: "--seed",
                    why: REPLAY_KNOWS_SEED,
                },
            );
        }
    }
    let mode = match mode {
        Some(m) => m,
        None => Mode::default(),
    };
    // The mode that is constituted from a file needs one, and a mode built
    // from code has nothing to do with one.
    if mode == Mode::SceneFile && flags.scene.is_none() && flags.replay.is_none() {
        return Err(CliError::SceneRequired);
    }
    if mode != Mode::SceneFile && flags.scene.is_some() {
        return Err(CliError::SceneWithoutSceneFile { mode });
    }
    let report = match flags.report {
        Some((_, report)) => report,
        None => Report::Summary,
    };
    Ok(
        Command::Headless(
            HeadlessOptions {
                mode,
                seed: or_default(flags.seed, DEFAULT_SEED),
                ticks: flags.ticks,
                report,
                record: flags.record,
                replay: flags.replay,
                expect: flags.expect,
                scene: flags.scene,
                ipc: flags.ipc,
            },
        ),
    )
}

/// The command a finished reading of the flags describes.
fn decide_flags(flags: Flags) -> (command: Result<Command, CliError>)
    ensures
        outcome_of(command) == decide(flags@),
{
    // A measurement is a third thing a run can be, and any of its flags
    // selects it.
    let measuring = flags.frames.is_some() || flags.warmup.is_some() || flags.sprites.is_some()
        || flags.uncapped || flags.drain;

    // Only the window has a keyboard.
    if flags.mapping.is_some() && (measuring || flags.headless.is_some()
        || flags.screenshot.is_some()) {
        let other = match flags.headless {
            Some(flag) => flag,
            None => if flags.screenshot.is_some() {
                "--screenshot"
            } else {
                "--frames"
            },
        };
        return Err(CliError::MappingWithoutWindow { other });
    }

    if measuring {
        if let Some(flag) = flags.headless {
            return Err(
                CliError::Conflicting {
                    first: "--frames",
                    second: flag,
                    why: FRAMES_NEED_A_WINDOW,
                },
            );
        }
        if flags.screenshot.is_some() {
            return Err(
                CliError::Conflicting {
                    first: "--frames",
                    second: "--screenshot",
                    why: FRAMES_OR_SCREENSHOT,
                },
            );
        }
        return Ok(
            Command::Frames(
                FrameOptions {
                    frames: or_default(flags.frames, DEFAULT_FRAMES),
                    warmup: or_default(flags.warmup, DEFAULT_WARMUP),
                    sprites: or_default(flags.sprites, MEASURED_SPRITES),
                    uncapped: flags.uncapped,
                    resize_probe: flags.resize_probe,
                    drain: flags.drain,
                    scene: flags.scene,
                },
            ),
        );
    }

    // A scene names the world, and the world names the mode: `--scene x.ron`
    // alone is a scene-file run.
    let mode = if flags.mode.is_none() && flags.scene.is_some() {
        Some(Mode::SceneFile)
    } else {
        flags.mode
    };

    if let Some(flag) = flags.headless {
        if flags.screenshot.is_some() {
            return Err(
                CliError::Conflicting {
                    first: flag,
                    second: "--screenshot",
                    why: LOOP_OR_SCREENSHOT,
                },
            );
        }
        return headless_from(flags, mode);
    }
    match flags.screenshot {
        Some(path) => Ok(Command::Screenshot(path)),
        None => Ok(Command::Window(WindowOptions { scene: flags.scene, mapping: flags.mapping })),
    }
}

/// Parses arguments, which must already have the program name removed.
///
/// The outcome is exactly [`parse_outcome`] of the arguments' text: the flags
/// are read left to right, help ends the reading, the first refused argument
/// is the error, and what was read decides the command.
pub fn parse(arguments: Vec<String>) -> (command: Result<Command, CliError>)
    ensures
        outcome_of(command) == parse_outcome(arguments.deep_view()),
{
    let ghost all = arguments.deep_view();
    let mut flags = Flags {
        headless: None,
        mode: None,
        seed: None,
        ticks: None,
        report: None,
        screenshot: None,
        record: None,
        replay: None,
        expect: None,
        scene: None,
        ipc: None,
        mapping: None,
        frames: None,
        warmup: None,
        sprites: None,
        uncapped: false,
        resize_probe: false,
        drain: false,
    };
    assert(flags@ == nothing_seen());
    let n = arguments.len();
    let mut i: usize = 0;
    while i < n
        invariant
            n == arguments.len(),
            all == arguments.deep_view(),
            i <= n,
            scan(all, 0, nothing_seen()) == scan(all, i as int, flags@),
        decreases n - i,
    {
        match read_one(&arguments, i, &mut flags) {
            ReadOne::Help => return Ok(Command::Help),
            ReadOne::Failed(error) => return Err(error),
            ReadOne::Read(two) => {
                i = if two {
                    i + 2
                } else {
                    i + 1
                };
            },
        }
    }
    decide_flags(flags)
}


// ---------------------------------------------------------------------------
// What a refusal says.
// ---------------------------------------------------------------------------

/// What `--mode scene-file` without a scene is told.
pub const SCENE_REQUIRED_TEXT: &'static str = "`--mode scene-file` builds its world from a scene file, so it needs `--scene <file>` saying which one";

/// What `--scene` beside `--replay` is told.
pub const SCENE_WITH_REPLAY_TEXT: &'static str = "`--replay` already knows which scene its recording was made against, and checks the file against it; `--scene` would be a second opinion that could only disagree";

/// The sentence a refusal is reported with: what was wrong, and what to do.
pub open spec fn message_of(error: CliErrorModel) -> Seq<char> {
    match error {
        CliErrorModel::SceneRequired => SCENE_REQUIRED_TEXT@,
        CliErrorModel::SceneWithoutSceneFile { mode } => "`--scene` applies to `--mode scene-file`, and `"@
            + crate::modes::mode_name(mode) + "` builds its world in code; drop one of the two"@,
        CliErrorModel::SceneWithReplay => SCENE_WITH_REPLAY_TEXT@,
        CliErrorModel::MappingWithoutWindow { other } => "`--mapping` binds keys for a window, and `"@
            + other + "` asks for a run that has no keyboard to bind; drop one of the two"@,
        CliErrorModel::UnknownArgument(argument) => "unknown argument `"@ + argument + "`"@,
        CliErrorModel::Conflicting { first, second, why } => "`"@ + first + "` and `"@ + second
            + "` cannot both be given: "@ + why,
        CliErrorModel::AmbiguousReport(first, second) => "`"@ + first + "` and `"@ + second
            + "` both say what to print, and a run prints one thing; give one of them"@,
        CliErrorModel::MissingValue(flag) => "`"@ + flag + "` needs a value after it"@,
        CliErrorModel::InvalidValue { flag, value, expected } => "`"@ + flag + "` needs "@
            + expected + ", got `"@ + value + "`"@,
    }
}

/// `first`, then each of `rest` after it.
fn joined(first: &str, rest: &[&str]) -> (text: String)
    ensures
        text@ == first@ + joined_of(rest@.map_values(|piece: &str| piece@)),
{
    let mut text = first.to_owned();
    let mut i: usize = 0;
    while i < rest.len()
        invariant
            i <= rest@.len(),
            text@ == first@ + joined_of(rest@.map_values(|piece: &str| piece@).take(i as int)),
        decreases rest@.len() - i,
    {
        let ghost pieces = rest@.map_values(|piece: &str| piece@);
        assert(pieces.take(i + 1).drop_last() =~= pieces.take(i as int));
        text.append(rest[i]);
        i = i + 1;
    }
    assert(rest@.map_values(|piece: &str| piece@).take(rest@.len() as int) =~= rest@.map_values(
        |piece: &str| piece@,
    ));
    text
}

/// Pieces of text one after another.
pub open spec fn joined_of(pieces: Seq<Seq<char>>) -> Seq<char>
    decreases pieces.len(),
{
    if pieces.len() == 0 {
        Seq::empty()
    } else {
        joined_of(pieces.drop_last()) + pieces.last()
    }
}

impl CliError {
    /// The sentence this refusal is reported with.
    ///
    /// Every one says what was wrong and what to do about it, and names what
    /// was given where something was.
    pub fn message(&self) -> (text: String)
        ensures
            text@ == message_of(self@),
    {
        let text = match self {
            CliError::SceneRequired => SCENE_REQUIRED_TEXT.to_owned(),
            CliError::SceneWithoutSceneFile { mode } => joined(
                "`--scene` applies to `--mode scene-file`, and `",
                &[mode.name(), "` builds its world in code; drop one of the two"],
            ),
            CliError::SceneWithReplay => SCENE_WITH_REPLAY_TEXT.to_owned(),
            CliError::MappingWithoutWindow { other } => joined(
                "`--mapping` binds keys for a window, and `",
                &[*other, "` asks for a run that has no keyboard to bind; drop one of the two"],
            ),
            CliError::UnknownArgument(argument) => joined(
                "unknown argument `",
                &[argument.as_str(), "`"],
            ),
            CliError::Conflicting { first, second, why } => joined(
                "`",
                &[*first, "` and `", *second, "` cannot both be given: ", *why],
            ),
            CliError::AmbiguousReport(first, second) => joined(
                "`",
                &[
                    *first,
                    "` and `",
                    *second,
                    "` both say what to print, and a run prints one thing; give one of them",
                ],
            ),
            CliError::MissingValue(flag) => joined("`", &[*flag, "` needs a value after it"]),
            CliError::InvalidValue { flag, value, expected } => joined(
                "`",
                &[*flag, "` needs ", *expected, ", got `", value.as_str(), "`"],
            ),
        };
        proof {
            reveal_with_fuel(joined_of, 7);
        }
        text
    }
}


// ---------------------------------------------------------------------------
// What holds of every command line.
// ---------------------------------------------------------------------------

/// The two things the flags say that a later flag never takes back: that a
/// headless run was implied, and that a mapping was given.
pub open spec fn keeps(before: Seen, after: Seen) -> bool {
    &&& before.headless is Some ==> after.headless is Some
    &&& before.mapping is Some ==> after.mapping is Some
}

/// The flags that ask for a run with no window.
pub open spec fn implies_headless(text: Seq<char>) -> bool {
    ||| text == "--headless"@
    ||| text == "--hash"@
    ||| text == "--dump"@
    ||| text == "--mode"@
    ||| text == "--seed"@
    ||| text == "--ticks"@
    ||| text == "--ipc"@
    ||| text == "--record"@
    ||| text == "--replay"@
    ||| text == "--expect"@
}

/// Reading one argument never takes back what [`keeps`] names.
proof fn lemma_step_keeps(args: Seq<Seq<char>>, i: int, s: Seen)
    requires
        0 <= i < args.len(),
    ensures
        scan_one(args, i, s) matches Scanned::Read { seen, .. } ==> keeps(s, seen),
        scan_one(args, i, s) matches Scanned::Read { two, .. } ==> (two ==> value_after(args, i)
            is Some),
{
}

/// Reading the rest of the arguments never takes back what [`keeps`] names.
proof fn lemma_scan_keeps(args: Seq<Seq<char>>, i: int, s: Seen)
    requires
        0 <= i,
        scan(args, i, s) matches Ok(Some(_)),
    ensures
        scan(args, i, s) matches Ok(Some(f)) ==> keeps(s, f),
    decreases args.len() - i,
{
    if i < args.len() {
        lemma_step_keeps(args, i, s);
        match scan_one(args, i, s) {
            Scanned::Read { two, seen } => {
                let next = if two {
                    i + 2
                } else {
                    i + 1
                };
                lemma_scan_keeps(args, next, seen);
            },
            _ => {},
        }
    }
}

/// A flag is never taken for the value of the one before it, so a reading
/// that gets past position `j` stops at `j`, holding at least what it held.
proof fn lemma_scan_visits(args: Seq<Seq<char>>, i: int, s: Seen, j: int) -> (t: Seen)
    requires
        0 <= i <= j < args.len(),
        dashed(args[j]),
        scan(args, i, s) matches Ok(Some(_)),
    ensures
        keeps(s, t),
        scan(args, i, s) == scan(args, j, t),
    decreases j - i,
{
    if i == j {
        s
    } else {
        lemma_step_keeps(args, i, s);
        match scan_one(args, i, s) {
            Scanned::Read { two, seen } => {
                let next = if two {
                    i + 2
                } else {
                    i + 1
                };
                let t = lemma_scan_visits(args, next, seen, j);
                t
            },
            _ => s,
        }
    }
}

/// The literals the reader compares against, spelled out.
proof fn lemma_flags_spelled_out()
    ensures
        "--help"@.len() == 6 && "--help"@[2] == 'h' && "--help"@[3] == 'e',
        "-h"@.len() == 2,
        "--headless"@.len() == 10,
        "--hash"@.len() == 6 && "--hash"@[2] == 'h' && "--hash"@[3] == 'a',
        "--dump"@.len() == 6 && "--dump"@[2] == 'd',
        "--mode"@.len() == 6 && "--mode"@[2] == 'm',
        "--seed"@.len() == 6 && "--seed"@[2] == 's',
        "--ticks"@.len() == 7 && "--ticks"@[2] == 't',
        "--ipc"@.len() == 5,
        "--record"@.len() == 8 && "--record"@[2] == 'r' && "--record"@[4] == 'c',
        "--replay"@.len() == 8 && "--replay"@[2] == 'r' && "--replay"@[4] == 'p',
        "--expect"@.len() == 8 && "--expect"@[2] == 'e',
        "--scene"@.len() == 7 && "--scene"@[2] == 's',
        "--mapping"@.len() == 9,
        dashed("--headless"@) && dashed("--hash"@) && dashed("--dump"@) && dashed("--mode"@)
            && dashed("--seed"@) && dashed("--ticks"@) && dashed("--ipc"@) && dashed("--record"@)
            && dashed("--replay"@) && dashed("--expect"@) && dashed("--mapping"@),
{
    reveal_strlit("--help");
    reveal_strlit("-h");
    reveal_strlit("--headless");
    reveal_strlit("--hash");
    reveal_strlit("--dump");
    reveal_strlit("--mode");
    reveal_strlit("--seed");
    reveal_strlit("--ticks");
    reveal_strlit("--ipc");
    reveal_strlit("--record");
    reveal_strlit("--replay");
    reveal_strlit("--expect");
    reveal_strlit("--scene");
    reveal_strlit("--mapping");
}

/// A flag that asks for a headless run, once read, leaves the reading holding
/// that request.
proof fn lemma_headless_flag_is_read(args: Seq<Seq<char>>, j: int, t: Seen)
    requires
        0 <= j < args.len(),
        implies_headless(args[j]),
    ensures
        scan_one(args, j, t) matches Scanned::Read { seen, .. } ==> seen.headless is Some,
{
    lemma_flags_spelled_out();
    let a = args[j];
    assert(a != "--help"@ && a != "-h"@) by {
        if a == "--hash"@ {
            assert(a[3] != "--help"@[3]);
        }
        if a == "--dump"@ || a == "--mode"@ || a == "--seed"@ {
            assert(a[2] != "--help"@[2]);
        }
    }
    if a == "--dump"@ {
        assert(a != "--hash"@) by {
            assert(a[2] != "--hash"@[2]);
        }
    }
    if a == "--mode"@ {
        assert(a != "--hash"@ && a != "--dump"@) by {
            assert(a[2] != "--hash"@[2]);
            assert(a[2] != "--dump"@[2]);
        }
    }
    if a == "--seed"@ {
        assert(a != "--hash"@ && a != "--dump"@ && a != "--mode"@) by {
            assert(a[2] != "--hash"@[2]);
            assert(a[2] != "--dump"@[2]);
            assert(a[2] != "--mode"@[2]);
        }
    }
    if a == "--replay"@ {
        assert(a != "--record"@) by {
            assert(a[4] != "--record"@[4]);
        }
    }
    if a == "--expect"@ {
        assert(a != "--record"@ && a != "--replay"@) by {
            assert(a[2] != "--replay"@[2]);
            assert(a[2] != "--record"@[2]);
        }
    }
}

/// A mapping, once read, leaves the reading holding it.
proof fn lemma_mapping_flag_is_read(args: Seq<Seq<char>>, j: int, t: Seen)
    requires
        0 <= j < args.len(),
        args[j] == "--mapping"@,
    ensures
        scan_one(args, j, t) matches Scanned::Read { seen, .. } ==> seen.mapping is Some,
{
    lemma_flags_spelled_out();
}

/// **Only the window has a keyboard.** A command line that names `--mapping`
/// and is accepted asks for help or for a window; every other run is refused
/// rather than having the mapping quietly ignored.
pub proof fn lemma_a_mapping_is_never_ignored(args: Seq<Seq<char>>, j: int)
    requires
        0 <= j < args.len(),
        args[j] == "--mapping"@,
        parse_outcome(args) is Ok,
    ensures
        parse_outcome(args) matches Ok(command) ==> (command is Help || command is Window),
{
    lemma_flags_spelled_out();
    if scan(args, 0, nothing_seen()) matches Ok(Some(f)) {
        let t = lemma_scan_visits(args, 0, nothing_seen(), j);
        lemma_mapping_flag_is_read(args, j, t);
        lemma_step_keeps(args, j, t);
        match scan_one(args, j, t) {
            Scanned::Read { two, seen } => {
                let next = if two {
                    j + 2
                } else {
                    j + 1
                };
                lemma_scan_keeps(args, next, seen);
            },
            _ => {},
        }
    }
}

/// The literals of the flags the laws below follow, told apart from the
/// others the reader compares against first.
proof fn lemma_counted_flags_spelled_out()
    ensures
        "--frames"@.len() == 8 && "--frames"@[2] == 'f',
        "--warmup"@.len() == 8 && "--warmup"@[2] == 'w',
        "--sprites"@.len() == 9 && "--sprites"@[2] == 's',
        "--uncapped"@.len() == 10 && "--uncapped"@[2] == 'u',
        "--resize-probe"@.len() == 14,
        "--drain"@.len() == 7 && "--drain"@[2] == 'd',
        "--sprites"@ != "--mapping"@,
        dashed("--scene"@),
        dashed("--frames"@) && dashed("--warmup"@) && dashed("--sprites"@) && dashed(
            "--uncapped"@,
        ) && dashed("--resize-probe"@) && dashed("--drain"@),
{
    reveal_strlit("--frames");
    reveal_strlit("--warmup");
    reveal_strlit("--sprites");
    reveal_strlit("--uncapped");
    reveal_strlit("--resize-probe");
    reveal_strlit("--drain");
    reveal_strlit("--mapping");
    reveal_strlit("--scene");
    assert("--sprites"@[2] != "--mapping"@[2]);
}

/// Reading any argument other than `flag` leaves `field` of the reading as it
/// was.
pub open spec fn untouched<T>(args: Seq<Seq<char>>, flag: Seq<char>, field: spec_fn(Seen) -> T) -> bool {
    forall|k: int, t: Seen|
        0 <= k < args.len() && args[k] != flag ==> (#[trigger] scan_one(args, k, t) matches Scanned::Read {
            seen,
            ..
        } ==> field(seen) == field(t))
}

/// With no `flag` from `i` on, the rest of the reading keeps `field`.
proof fn lemma_untouched_from<T>(
    args: Seq<Seq<char>>,
    i: int,
    s: Seen,
    flag: Seq<char>,
    field: spec_fn(Seen) -> T,
)
    requires
        0 <= i,
        untouched(args, flag, field),
        forall|k: int| i <= k < args.len() ==> #[trigger] args[k] != flag,
    ensures
        scan(args, i, s) matches Ok(Some(f)) ==> field(f) == field(s),
    decreases args.len() - i,
{
    if i < args.len() {
        assert(args[i] != flag);
        match scan_one(args, i, s) {
            Scanned::Read { two, seen } => {
                let next = if two {
                    i + 2
                } else {
                    i + 1
                };
                lemma_untouched_from(args, next, seen, flag, field);
            },
            _ => {},
        }
    }
}

/// What an accepted reading holds of a flag that takes a value: what the
/// flag's own reading stores at its last occurrence, or what it held before
/// when the flag never occurs.
proof fn lemma_the_last_occurrence_decides<T>(
    args: Seq<Seq<char>>,
    j: int,
    flag: Seq<char>,
    field: spec_fn(Seen) -> T,
)
    requires
        dashed(flag),
        untouched(args, flag, field),
        scan(args, 0, nothing_seen()) matches Ok(Some(_)),
    ensures
        (forall|k: int| 0 <= k < args.len() ==> #[trigger] args[k] != flag) ==> (scan(
            args,
            0,
            nothing_seen(),
        ) matches Ok(Some(f)) && field(f) == field(nothing_seen())),
        (0 <= j < args.len() && args[j] == flag && forall|k: int|
            j < k < args.len() ==> #[trigger] args[k] != flag) ==> exists|t: Seen|
            (#[trigger] scan_one(args, j, t) matches Scanned::Read { two, seen } && scan(
                args,
                0,
                nothing_seen(),
            ) == scan(args, if two { j + 2 } else { j + 1 }, seen) && (scan(args, 0, nothing_seen())
                matches Ok(Some(f)) && field(f) == field(seen))),
{
    if forall|k: int| 0 <= k < args.len() ==> #[trigger] args[k] != flag {
        lemma_untouched_from(args, 0, nothing_seen(), flag, field);
    }
    if 0 <= j < args.len() && args[j] == flag && forall|k: int|
        j < k < args.len() ==> #[trigger] args[k] != flag {
        let t = lemma_scan_visits(args, 0, nothing_seen(), j);
        match scan_one(args, j, t) {
            Scanned::Read { two, seen } => {
                let next = if two {
                    j + 2
                } else {
                    j + 1
                };
                if two {
                    assert(args[j + 1] != flag);
                }
                lemma_untouched_from(args, next, seen, flag, field);
            },
            _ => {},
        }
    }
}

/// **A measurement counts as it was told.** An accepted command line that
/// asks for a frame-time measurement measures the number of frames, warms up
/// for the number of frames, and draws the number of sprites given after the
/// last `--frames`, `--warmup` and `--sprites`; each takes its default only
/// when its flag was not given at all.
pub proof fn lemma_a_measurement_counts_as_told(args: Seq<Seq<char>>, j: int)
    ensures
        parse_outcome(args) matches Ok(CommandModel::Frames(m)) ==> {
            &&& (forall|k: int| 0 <= k < args.len() ==> #[trigger] args[k] != "--frames"@)
                ==> m.frames == DEFAULT_FRAMES
            &&& (0 <= j < args.len() && args[j] == "--frames"@ && forall|k: int|
                j < k < args.len() ==> #[trigger] args[k] != "--frames"@) ==> j + 1 < args.len()
                && usize_of(args[j + 1]) == Some(m.frames)
            &&& (forall|k: int| 0 <= k < args.len() ==> #[trigger] args[k] != "--warmup"@)
                ==> m.warmup == DEFAULT_WARMUP
            &&& (0 <= j < args.len() && args[j] == "--warmup"@ && forall|k: int|
                j < k < args.len() ==> #[trigger] args[k] != "--warmup"@) ==> j + 1 < args.len()
                && usize_of(args[j + 1]) == Some(m.warmup)
            &&& (forall|k: int| 0 <= k < args.len() ==> #[trigger] args[k] != "--sprites"@)
                ==> m.sprites == MEASURED_SPRITES
            &&& (0 <= j < args.len() && args[j] == "--sprites"@ && forall|k: int|
                j < k < args.len() ==> #[trigger] args[k] != "--sprites"@) ==> j + 1 < args.len()
                && usize_of(args[j + 1]) == Some(m.sprites)
        },
{
    lemma_flags_spelled_out();
    lemma_counted_flags_spelled_out();
    if scan(args, 0, nothing_seen()) matches Ok(Some(f)) {
        let frames = |s: Seen| s.frames;
        let warmup = |s: Seen| s.warmup;
        let sprites = |s: Seen| s.sprites;
        assert(untouched(args, "--frames"@, frames));
        assert(untouched(args, "--warmup"@, warmup));
        assert(untouched(args, "--sprites"@, sprites));
        lemma_the_last_occurrence_decides(args, j, "--frames"@, frames);
        lemma_the_last_occurrence_decides(args, j, "--warmup"@, warmup);
        lemma_the_last_occurrence_decides(args, j, "--sprites"@, sprites);
        if 0 <= j < args.len() && args[j] == "--frames"@ && forall|k: int|
            j < k < args.len() ==> #[trigger] args[k] != "--frames"@ {
            let t = choose|t: Seen|
                (#[trigger] scan_one(args, j, t) matches Scanned::Read { two, seen } && scan(
                    args,
                    0,
                    nothing_seen(),
                ) == scan(args, if two { j + 2 } else { j + 1 }, seen) && (scan(
                    args,
                    0,
                    nothing_seen(),
                ) matches Ok(Some(f)) && frames(f) == frames(seen)));
            assert(scan_one(args, j, t) matches Scanned::Read { two: true, .. });
        }
        if 0 <= j < args.len() && args[j] == "--warmup"@ && forall|k: int|
            j < k < args.len() ==> #[trigger] args[k] != "--warmup"@ {
            let t = choose|t: Seen|
                (#[trigger] scan_one(args, j, t) matches Scanned::Read { two, seen } && scan(
                    args,
                    0,
                    nothing_seen(),
                ) == scan(args, if two { j + 2 } else { j + 1 }, seen) && (scan(
                    args,
                    0,
                    nothing_seen(),
                ) matches Ok(Some(f)) && warmup(f) == warmup(seen)));
            assert(scan_one(args, j, t) matches Scanned::Read { two: true, .. });
        }
        if 0 <= j < args.len() && args[j] == "--sprites"@ && forall|k: int|
            j < k < args.len() ==> #[trigger] args[k] != "--sprites"@ {
            let t = choose|t: Seen|
                (#[trigger] scan_one(args, j, t) matches Scanned::Read { two, seen } && scan(
                    args,
                    0,
                    nothing_seen(),
                ) == scan(args, if two { j + 2 } else { j + 1 }, seen) && (scan(
                    args,
                    0,
                    nothing_seen(),
                ) matches Ok(Some(f)) && sprites(f) == sprites(seen)));
            assert(scan_one(args, j, t) matches Scanned::Read { two: true, .. });
        }
    }
}

/// Once `field` holds, reading any argument keeps it holding.
pub open spec fn kept_on(args: Seq<Seq<char>>, field: spec_fn(Seen) -> bool) -> bool {
    forall|k: int, t: Seen|
        0 <= k < args.len() && field(t) ==> (#[trigger] scan_one(args, k, t) matches Scanned::Read {
            seen,
            ..
        } ==> field(seen))
}

/// A switch that is on stays on for the rest of the reading.
proof fn lemma_stays_on(args: Seq<Seq<char>>, i: int, s: Seen, field: spec_fn(Seen) -> bool)
    requires
        0 <= i,
        kept_on(args, field),
        field(s),
    ensures
        scan(args, i, s) matches Ok(Some(f)) ==> field(f),
    decreases args.len() - i,
{
    if i < args.len() {
        match scan_one(args, i, s) {
            Scanned::Read { two, seen } => {
                let next = if two {
                    i + 2
                } else {
                    i + 1
                };
                lemma_stays_on(args, next, seen, field);
            },
            _ => {},
        }
    }
}

/// An accepted reading holds a switch exactly when its flag occurs.
proof fn lemma_a_switch_is_on_when_named(args: Seq<Seq<char>>, flag: Seq<char>, field: spec_fn(Seen) -> bool)
    requires
        dashed(flag),
        !field(nothing_seen()),
        untouched(args, flag, field),
        kept_on(args, field),
        forall|k: int, t: Seen|
            0 <= k < args.len() && args[k] == flag ==> (#[trigger] scan_one(args, k, t) matches Scanned::Read {
                seen,
                ..
            } ==> field(seen)),
    ensures
        scan(args, 0, nothing_seen()) matches Ok(Some(f)) ==> (field(f) <==> exists|k: int|
            0 <= k < args.len() && #[trigger] args[k] == flag),
{
    if scan(args, 0, nothing_seen()) matches Ok(Some(f)) {
        if exists|k: int| 0 <= k < args.len() && #[trigger] args[k] == flag {
            let k = choose|k: int| 0 <= k < args.len() && #[trigger] args[k] == flag;
            let t = lemma_scan_visits(args, 0, nothing_seen(), k);
            match scan_one(args, k, t) {
                Scanned::Read { two, seen } => {
                    let next = if two {
                        k + 2
                    } else {
                        k + 1
                    };
                    lemma_stays_on(args, next, seen, field);
                },
                _ => {},
            }
        } else {
            lemma_untouched_from(args, 0, nothing_seen(), flag, field);
        }
    }
}

/// **A measurement takes the switches it was given.** An accepted frame-time
/// measurement runs uncapped, drains the device, and probes a resize exactly
/// when `--uncapped`, `--drain` and `--resize-probe` appear among its
/// arguments.
pub proof fn lemma_a_measurement_takes_its_switches(args: Seq<Seq<char>>)
    ensures
        parse_outcome(args) matches Ok(CommandModel::Frames(m)) ==> {
            &&& m.uncapped == exists|k: int| 0 <= k < args.len() && #[trigger] args[k] == "--uncapped"@
            &&& m.drain == exists|k: int| 0 <= k < args.len() && #[trigger] args[k] == "--drain"@
            &&& m.resize_probe == exists|k: int|
                0 <= k < args.len() && #[trigger] args[k] == "--resize-probe"@
        },
{
    lemma_flags_spelled_out();
    lemma_counted_flags_spelled_out();
    reveal_strlit("--resize-probe");
    reveal_strlit("--screenshot");
    reveal_strlit("--headless");
    assert("--drain"@ != "--scene"@) by {
        assert("--drain"@[2] != "--scene"@[2]);
    }
    assert("--uncapped"@ != "--headless"@) by {
        assert("--uncapped"@[2] != "--headless"@[2]);
    }
    let uncapped = |s: Seen| s.uncapped;
    let drain = |s: Seen| s.drain;
    let probe = |s: Seen| s.resize_probe;
    assert(untouched(args, "--uncapped"@, uncapped));
    assert(untouched(args, "--drain"@, drain));
    assert(untouched(args, "--resize-probe"@, probe));
    assert(kept_on(args, uncapped));
    assert(kept_on(args, drain));
    assert(kept_on(args, probe));
    lemma_a_switch_is_on_when_named(args, "--uncapped"@, uncapped);
    lemma_a_switch_is_on_when_named(args, "--drain"@, drain);
    lemma_a_switch_is_on_when_named(args, "--resize-probe"@, probe);
}

/// **A headless run takes the numbers it was given.** An accepted headless
/// run uses the seed given after its last `--seed`, and [`DEFAULT_SEED`] only
/// when no `--seed` was given; it runs for the ticks given after its last
/// `--ticks`, and for no count of its own when none was.
pub proof fn lemma_a_headless_run_takes_its_numbers(args: Seq<Seq<char>>, j: int)
    ensures
        parse_outcome(args) matches Ok(CommandModel::Headless(h)) ==> {
            &&& (forall|k: int| 0 <= k < args.len() ==> #[trigger] args[k] != "--seed"@)
                ==> h.seed == DEFAULT_SEED
            &&& (0 <= j < args.len() && args[j] == "--seed"@ && forall|k: int|
                j < k < args.len() ==> #[trigger] args[k] != "--seed"@) ==> j + 1 < args.len()
                && u64_of(args[j + 1]) == Some(h.seed)
            &&& (forall|k: int| 0 <= k < args.len() ==> #[trigger] args[k] != "--ticks"@)
                ==> h.ticks is None
            &&& (0 <= j < args.len() && args[j] == "--ticks"@ && forall|k: int|
                j < k < args.len() ==> #[trigger] args[k] != "--ticks"@) ==> j + 1 < args.len()
                && u64_of(args[j + 1]) == h.ticks
        },
{
    lemma_flags_spelled_out();
    if scan(args, 0, nothing_seen()) matches Ok(Some(f)) {
        let seed = |s: Seen| s.seed;
        let ticks = |s: Seen| s.ticks;
        assert(untouched(args, "--seed"@, seed));
        assert(untouched(args, "--ticks"@, ticks));
        lemma_the_last_occurrence_decides(args, j, "--seed"@, seed);
        lemma_the_last_occurrence_decides(args, j, "--ticks"@, ticks);
        if 0 <= j < args.len() && args[j] == "--seed"@ && forall|k: int|
            j < k < args.len() ==> #[trigger] args[k] != "--seed"@ {
            let t = choose|t: Seen|
                (#[trigger] scan_one(args, j, t) matches Scanned::Read { two, seen } && scan(
                    args,
                    0,
                    nothing_seen(),
                ) == scan(args, if two { j + 2 } else { j + 1 }, seen) && (scan(
                    args,
                    0,
                    nothing_seen(),
                ) matches Ok(Some(f)) && seed(f) == seed(seen)));
            assert(scan_one(args, j, t) matches Scanned::Read { two: true, .. });
        }
        if 0 <= j < args.len() && args[j] == "--ticks"@ && forall|k: int|
            j < k < args.len() ==> #[trigger] args[k] != "--ticks"@ {
            let t = choose|t: Seen|
                (#[trigger] scan_one(args, j, t) matches Scanned::Read { two, seen } && scan(
                    args,
                    0,
                    nothing_seen(),
                ) == scan(args, if two { j + 2 } else { j + 1 }, seen) && (scan(
                    args,
                    0,
                    nothing_seen(),
                ) matches Ok(Some(f)) && ticks(f) == ticks(seen)));
            assert(scan_one(args, j, t) matches Scanned::Read { two: true, .. });
        }
    }
}

/// What the last occurrence of a flag stores is what an accepted reading
/// ends with.
proof fn lemma_the_last_value_stands<T>(
    args: Seq<Seq<char>>,
    j: int,
    flag: Seq<char>,
    field: spec_fn(Seen) -> T,
    value: T,
)
    requires
        dashed(flag),
        untouched(args, flag, field),
        scan(args, 0, nothing_seen()) matches Ok(Some(_)),
        0 <= j < args.len(),
        args[j] == flag,
        forall|k: int| j < k < args.len() ==> #[trigger] args[k] != flag,
        forall|t: Seen|
            #[trigger] scan_one(args, j, t) matches Scanned::Read { seen, .. } ==> field(seen)
                == value,
    ensures
        scan(args, 0, nothing_seen()) matches Ok(Some(f)) && field(f) == value,
{
    lemma_the_last_occurrence_decides(args, j, flag, field);
    let t = choose|t: Seen|
        (#[trigger] scan_one(args, j, t) matches Scanned::Read { two, seen } && scan(
            args,
            0,
            nothing_seen(),
        ) == scan(args, if two { j + 2 } else { j + 1 }, seen) && (scan(args, 0, nothing_seen())
            matches Ok(Some(f)) && field(f) == field(seen)));
    assert(scan_one(args, j, t) matches Scanned::Read { .. });
}

/// **A headless run keeps the paths it was given.** An accepted headless run
/// records to, replays, expects, is built from the scene at, and serves an
/// agent on the path given after the last `--record`, `--replay`, `--expect`,
/// `--scene` and `--ipc`; each is absent exactly when its flag was not given.
pub proof fn lemma_a_headless_run_keeps_its_paths(args: Seq<Seq<char>>, j: int)
    ensures
        parse_outcome(args) matches Ok(CommandModel::Headless(h)) ==> {
            &&& (forall|k: int| 0 <= k < args.len() ==> #[trigger] args[k] != "--record"@)
                ==> h.record is None
            &&& (0 <= j < args.len() && args[j] == "--record"@ && forall|k: int|
                j < k < args.len() ==> #[trigger] args[k] != "--record"@) ==> j + 1 < args.len()
                && h.record == Some(args[j + 1])
            &&& (forall|k: int| 0 <= k < args.len() ==> #[trigger] args[k] != "--replay"@)
                ==> h.replay is None
            &&& (0 <= j < args.len() && args[j] == "--replay"@ && forall|k: int|
                j < k < args.len() ==> #[trigger] args[k] != "--replay"@) ==> j + 1 < args.len()
                && h.replay == Some(args[j + 1])
            &&& (forall|k: int| 0 <= k < args.len() ==> #[trigger] args[k] != "--expect"@)
                ==> h.expect is None
            &&& (0 <= j < args.len() && args[j] == "--expect"@ && forall|k: int|
                j < k < args.len() ==> #[trigger] args[k] != "--expect"@) ==> j + 1 < args.len()
                && h.expect == Some(args[j + 1])
            &&& (forall|k: int| 0 <= k < args.len() ==> #[trigger] args[k] != "--scene"@)
                ==> h.scene is None
            &&& (0 <= j < args.len() && args[j] == "--scene"@ && forall|k: int|
                j < k < args.len() ==> #[trigger] args[k] != "--scene"@) ==> j + 1 < args.len()
                && h.scene == Some(args[j + 1])
            &&& (forall|k: int| 0 <= k < args.len() ==> #[trigger] args[k] != "--ipc"@)
                ==> h.ipc is None
            &&& (0 <= j < args.len() && args[j] == "--ipc"@ && forall|k: int|
                j < k < args.len() ==> #[trigger] args[k] != "--ipc"@) ==> j + 1 < args.len()
                && h.ipc == Some(args[j + 1])
        },
{
    lemma_flags_spelled_out();
    lemma_counted_flags_spelled_out();
    if scan(args, 0, nothing_seen()) matches Ok(Some(f)) {
        let record = |s: Seen| s.record;
        let replay = |s: Seen| s.replay;
        let expect = |s: Seen| s.expect;
        let scene = |s: Seen| s.scene;
        let ipc = |s: Seen| s.ipc;
        assert(untouched(args, "--record"@, record));
        assert(untouched(args, "--replay"@, replay));
        assert(untouched(args, "--expect"@, expect));
        assert(untouched(args, "--scene"@, scene));
        assert(untouched(args, "--ipc"@, ipc));
        lemma_the_last_occurrence_decides(args, j, "--record"@, record);
        lemma_the_last_occurrence_decides(args, j, "--replay"@, replay);
        lemma_the_last_occurrence_decides(args, j, "--expect"@, expect);
        lemma_the_last_occurrence_decides(args, j, "--scene"@, scene);
        lemma_the_last_occurrence_decides(args, j, "--ipc"@, ipc);
        if 0 <= j < args.len() && j + 1 < args.len() {
            let v = Some(args[j + 1]);
            if args[j] == "--record"@ && forall|k: int| j < k < args.len() ==> #[trigger] args[k]
                != "--record"@ {
                lemma_the_last_value_stands(args, j, "--record"@, record, v);
            }
            if args[j] == "--replay"@ && forall|k: int| j < k < args.len() ==> #[trigger] args[k]
                != "--replay"@ {
                lemma_the_last_value_stands(args, j, "--replay"@, replay, v);
            }
            if args[j] == "--expect"@ && forall|k: int| j < k < args.len() ==> #[trigger] args[k]
                != "--expect"@ {
                lemma_the_last_value_stands(args, j, "--expect"@, expect, v);
            }
            if args[j] == "--scene"@ && forall|k: int| j < k < args.len() ==> #[trigger] args[k]
                != "--scene"@ {
                lemma_the_last_value_stands(args, j, "--scene"@, scene, v);
            }
            if args[j] == "--ipc"@ && forall|k: int| j < k < args.len() ==> #[trigger] args[k]
                != "--ipc"@ {
                lemma_the_last_value_stands(args, j, "--ipc"@, ipc, v);
            }
        }
        if 0 <= j < args.len() && j + 1 >= args.len() {
            if args[j] == "--record"@ || args[j] == "--replay"@ || args[j] == "--expect"@
                || args[j] == "--scene"@ || args[j] == "--ipc"@ {
                let t = lemma_scan_visits(args, 0, nothing_seen(), j);
                assert(scan_one(args, j, t) is Failed);
            }
        }
    }
}

/// **A window keeps the paths it was given.** An accepted window opens on the
/// scene and binds keys from the mapping given after the last `--scene` and
/// `--mapping`; each is absent exactly when its flag was not given.
pub proof fn lemma_a_window_keeps_its_paths(args: Seq<Seq<char>>, j: int)
    ensures
        parse_outcome(args) matches Ok(CommandModel::Window(w)) ==> {
            &&& (forall|k: int| 0 <= k < args.len() ==> #[trigger] args[k] != "--scene"@)
                ==> w.scene is None
            &&& (0 <= j < args.len() && args[j] == "--scene"@ && forall|k: int|
                j < k < args.len() ==> #[trigger] args[k] != "--scene"@) ==> j + 1 < args.len()
                && w.scene == Some(args[j + 1])
            &&& (forall|k: int| 0 <= k < args.len() ==> #[trigger] args[k] != "--mapping"@)
                ==> w.mapping is None
            &&& (0 <= j < args.len() && args[j] == "--mapping"@ && forall|k: int|
                j < k < args.len() ==> #[trigger] args[k] != "--mapping"@) ==> j + 1 < args.len()
                && w.mapping == Some(args[j + 1])
        },
{
    lemma_flags_spelled_out();
    lemma_counted_flags_spelled_out();
    if scan(args, 0, nothing_seen()) matches Ok(Some(f)) {
        let scene = |s: Seen| s.scene;
        let mapping = |s: Seen| s.mapping;
        assert(untouched(args, "--scene"@, scene));
        assert(untouched(args, "--mapping"@, mapping));
        lemma_the_last_occurrence_decides(args, j, "--scene"@, scene);
        lemma_the_last_occurrence_decides(args, j, "--mapping"@, mapping);
        if 0 <= j < args.len() && j + 1 < args.len() {
            let v = Some(args[j + 1]);
            if args[j] == "--scene"@ && forall|k: int| j < k < args.len() ==> #[trigger] args[k]
                != "--scene"@ {
                lemma_the_last_value_stands(args, j, "--scene"@, scene, v);
            }
            if args[j] == "--mapping"@ && forall|k: int| j < k < args.len() ==> #[trigger] args[k]
                != "--mapping"@ {
                lemma_the_last_value_stands(args, j, "--mapping"@, mapping, v);
            }
        }
        if 0 <= j < args.len() && j + 1 >= args.len() {
            if args[j] == "--scene"@ || args[j] == "--mapping"@ {
                let t = lemma_scan_visits(args, 0, nothing_seen(), j);
                assert(scan_one(args, j, t) is Failed);
            }
        }
    }
}

/// The hash report, read flag by flag: only `--hash` asks for it, and once
/// asked for it stays.
#[verifier::rlimit(50)]
proof fn lemma_hash_report_slot(args: Seq<Seq<char>>)
    ensures
        untouched(args, "--hash"@, |s: Seen| s.report matches Some((_, Report::Hash))),
        kept_on(args, |s: Seen| s.report matches Some((_, Report::Hash))),
{
    lemma_flags_spelled_out();
    lemma_counted_flags_spelled_out();
}

/// The dump report, read flag by flag: only `--dump` asks for it, and once
/// asked for it stays.
#[verifier::rlimit(50)]
proof fn lemma_dump_report_slot(args: Seq<Seq<char>>)
    ensures
        untouched(args, "--dump"@, |s: Seen| s.report matches Some((_, Report::Dump))),
        kept_on(args, |s: Seen| s.report matches Some((_, Report::Dump))),
{
    lemma_flags_spelled_out();
    lemma_counted_flags_spelled_out();
}

/// The report slots, read flag by flag.
proof fn lemma_report_switches(args: Seq<Seq<char>>)
    ensures
        untouched(args, "--hash"@, |s: Seen| s.report matches Some((_, Report::Hash))),
        untouched(args, "--dump"@, |s: Seen| s.report matches Some((_, Report::Dump))),
        kept_on(args, |s: Seen| s.report matches Some((_, Report::Hash))),
        kept_on(args, |s: Seen| s.report matches Some((_, Report::Dump))),
{
    lemma_hash_report_slot(args);
    lemma_dump_report_slot(args);
}

/// The scene slot and the mode slot, read flag by flag.
proof fn lemma_scene_and_mode_slots(args: Seq<Seq<char>>)
    ensures
        untouched(args, "--scene"@, |s: Seen| s.scene is Some),
        kept_on(args, |s: Seen| s.scene is Some),
        untouched(args, "--mode"@, |s: Seen| s.mode),
{
    lemma_flags_spelled_out();
    lemma_counted_flags_spelled_out();
}

/// **A headless run reports what it was asked to.** An accepted headless run
/// reports the state hash exactly when `--hash` was given, the canonical dump
/// exactly when `--dump` was, and a summary when neither was.
pub proof fn lemma_a_headless_run_reports_as_told(args: Seq<Seq<char>>)
    ensures
        parse_outcome(args) matches Ok(CommandModel::Headless(h)) ==> {
            &&& (h.report == Report::Hash) == exists|k: int|
                0 <= k < args.len() && #[trigger] args[k] == "--hash"@
            &&& (h.report == Report::Dump) == exists|k: int|
                0 <= k < args.len() && #[trigger] args[k] == "--dump"@
        },
{
    lemma_flags_spelled_out();
    lemma_report_switches(args);
    let hash = |s: Seen| s.report matches Some((_, Report::Hash));
    let dump = |s: Seen| s.report matches Some((_, Report::Dump));
    assert forall|k: int, t: Seen|
        0 <= k < args.len() && args[k] == "--hash"@ implies (#[trigger] scan_one(args, k, t) matches Scanned::Read {
            seen,
            ..
        } ==> hash(seen)) by {
        lemma_flags_spelled_out();
    }
    assert forall|k: int, t: Seen|
        0 <= k < args.len() && args[k] == "--dump"@ implies (#[trigger] scan_one(args, k, t) matches Scanned::Read {
            seen,
            ..
        } ==> dump(seen)) by {
        lemma_flags_spelled_out();
    }
    lemma_a_switch_is_on_when_named(args, "--hash"@, hash);
    lemma_a_switch_is_on_when_named(args, "--dump"@, dump);
}

/// **A headless run runs the mode it was told.** An accepted headless run
/// drives the mode named after its last `--mode`; with no `--mode` it drives
/// the scene-file mode when it was given a scene, and the default mode
/// otherwise.
pub proof fn lemma_a_headless_run_runs_the_mode_it_was_told(args: Seq<Seq<char>>, j: int)
    ensures
        parse_outcome(args) matches Ok(CommandModel::Headless(h)) ==> {
            &&& (0 <= j < args.len() && args[j] == "--mode"@ && forall|k: int|
                j < k < args.len() ==> #[trigger] args[k] != "--mode"@) ==> j + 1 < args.len()
                && mode_named(args[j + 1]) == Some(h.mode)
            &&& (forall|k: int| 0 <= k < args.len() ==> #[trigger] args[k] != "--mode"@) ==> h.mode
                == if exists|k: int| 0 <= k < args.len() && #[trigger] args[k] == "--scene"@ {
                Mode::SceneFile
            } else {
                Mode::Motion
            }
        },
{
    lemma_flags_spelled_out();
    lemma_counted_flags_spelled_out();
    lemma_scene_and_mode_slots(args);
    if scan(args, 0, nothing_seen()) matches Ok(Some(f)) {
        let mode = |s: Seen| s.mode;
        let scene = |s: Seen| s.scene is Some;
        assert forall|k: int, t: Seen|
            0 <= k < args.len() && args[k] == "--scene"@ implies (#[trigger] scan_one(args, k, t) matches Scanned::Read {
                seen,
                ..
            } ==> scene(seen)) by {
            lemma_flags_spelled_out();
            lemma_counted_flags_spelled_out();
        }
        lemma_a_switch_is_on_when_named(args, "--scene"@, scene);
        lemma_the_last_occurrence_decides(args, j, "--mode"@, mode);
        if 0 <= j < args.len() && args[j] == "--mode"@ && forall|k: int|
            j < k < args.len() ==> #[trigger] args[k] != "--mode"@ {
            let t = lemma_scan_visits(args, 0, nothing_seen(), j);
            if j + 1 < args.len() {
                lemma_the_last_value_stands(args, j, "--mode"@, mode, mode_named(args[j + 1]));
            }
            assert(scan_one(args, j, t) matches Scanned::Read { .. });
        }
    }
}

/// **A screenshot is written where it was told.** An accepted screenshot
/// goes to the path given after the last `--screenshot`, or to the default
/// path when that `--screenshot` has no path after it.
pub proof fn lemma_a_screenshot_goes_where_it_was_told(args: Seq<Seq<char>>, j: int)
    ensures
        parse_outcome(args) matches Ok(CommandModel::Screenshot(path)) ==> (0 <= j < args.len()
            && args[j] == "--screenshot"@ && forall|k: int|
            j < k < args.len() ==> #[trigger] args[k] != "--screenshot"@) ==> path == match value_after(
            args,
            j,
        ) {
            Some(given) => given,
            None => DEFAULT_SCREENSHOT_PATH@,
        },
{
    lemma_flags_spelled_out();
    lemma_counted_flags_spelled_out();
    reveal_strlit("--screenshot");
    if scan(args, 0, nothing_seen()) matches Ok(Some(f)) {
        if 0 <= j < args.len() && args[j] == "--screenshot"@ && forall|k: int|
            j < k < args.len() ==> #[trigger] args[k] != "--screenshot"@ {
            let shot = |s: Seen| s.screenshot;
            assert(untouched(args, "--screenshot"@, shot));
            let v = match value_after(args, j) {
                Some(given) => Some(given),
                None => Some(DEFAULT_SCREENSHOT_PATH@),
            };
            lemma_the_last_value_stands(args, j, "--screenshot"@, shot, v);
        }
    }
}

/// **A measurement discards the frames it was told to.** An accepted command
/// line that asks for a frame-time measurement warms up for the number given
/// after its last `--warmup`, and for [`DEFAULT_WARMUP`] frames only when no
/// `--warmup` was given.
pub proof fn lemma_a_measurement_warms_up_as_told(args: Seq<Seq<char>>, j: int)
    ensures
        parse_outcome(args) matches Ok(CommandModel::Frames(m)) ==> {
            &&& (forall|k: int| 0 <= k < args.len() ==> #[trigger] args[k] != "--warmup"@)
                ==> m.warmup == DEFAULT_WARMUP
            &&& (0 <= j < args.len() && args[j] == "--warmup"@ && forall|k: int|
                j < k < args.len() ==> #[trigger] args[k] != "--warmup"@) ==> j + 1 < args.len()
                && usize_of(args[j + 1]) == Some(m.warmup)
        },
{
    lemma_a_measurement_counts_as_told(args, j);
}

/// **A flag that implies a headless run is never ignored either.** A command
/// line that names one of them and is accepted asks for help or for a headless
/// run: a window, a screenshot and a measurement all refuse it.
pub proof fn lemma_headless_flags_mean_headless(args: Seq<Seq<char>>, j: int)
    requires
        0 <= j < args.len(),
        implies_headless(args[j]),
        parse_outcome(args) is Ok,
    ensures
        parse_outcome(args) matches Ok(command) ==> (command is Help || command is Headless),
{
    lemma_flags_spelled_out();
    if scan(args, 0, nothing_seen()) matches Ok(Some(f)) {
        let t = lemma_scan_visits(args, 0, nothing_seen(), j);
        lemma_headless_flag_is_read(args, j, t);
        lemma_step_keeps(args, j, t);
        match scan_one(args, j, t) {
            Scanned::Read { two, seen } => {
                let next = if two {
                    j + 2
                } else {
                    j + 1
                };
                lemma_scan_keeps(args, next, seen);
            },
            _ => {},
        }
    }
}

/// **A replay takes no second opinion.** A recording carries its own mode,
/// seed and scene, so an accepted replay has none of them from the command
/// line and produces no recording of its own.
pub proof fn lemma_a_replay_takes_its_run_from_the_recording(args: Seq<Seq<char>>)
    requires
        parse_outcome(args) matches Ok(CommandModel::Headless(h)) && h.replay is Some,
    ensures
        parse_outcome(args) matches Ok(CommandModel::Headless(h)) && h.record is None && h.seed
            == DEFAULT_SEED && h.mode == Mode::Motion && h.scene is None,
{
}

/// **A scene file is there exactly when the run is built from one.** An
/// accepted headless run names a scene exactly when it is a live `scene-file`
/// run; a replay takes its scene from the recording.
pub proof fn lemma_a_scene_belongs_to_a_scene_file_run(args: Seq<Seq<char>>)
    requires
        parse_outcome(args) matches Ok(CommandModel::Headless(_)),
    ensures
        parse_outcome(args) matches Ok(CommandModel::Headless(h)) && (h.scene is Some <==> (h.mode
            == Mode::SceneFile && h.replay is None)),
{
}

} // verus!
