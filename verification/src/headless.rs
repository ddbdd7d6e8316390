//! The parts of the headless runner that decide things without a world: where
//! a tick's input comes from when a recording is replayed, whether a replay can
//! be made at all, how the loop counts frames and ticks and when it waits, and
//! what a finished run reports.
//!
//! A run of `n` ticks is exactly the prefix of a run of more, which is what
//! lets a replay be compared against the recorded run at an intermediate tick.

use vstd::prelude::*;

use crate::cli::Report;
use crate::ipc::After;
use crate::modes::{Mode, mode_name};
use crate::text::{append_decimal, append_hex, decimal_text, hex_text, push_char};

verus! {

/// Frame durations fed to the accumulator, in microseconds: ragged and
/// synthetic, so a headless run produces the same numbers on every machine.
pub const FRAME_TIMES_US: [u64; 6] = [16_700, 9_100, 33_400, 4_250, 21_900, 12_000];

/// An action and the value it carries, as the simulation reads it.
#[derive(Debug, Clone, PartialEq, Eq)]
pub struct InputEvent {
    /// The action's name.
    pub action: String,
    /// Its value.
    pub value: i64,
}

impl InputEvent {
    /// The same event again.
    pub fn duplicate(&self) -> (copy: InputEvent)
        ensures
            copy == *self,
    {
        InputEvent { action: self.action.clone(), value: self.value }
    }
}

/// One recorded input: the tick it belongs to, and what it was.
#[derive(Debug, Clone, PartialEq, Eq)]
pub struct TimedInput {
    /// The tick whose systems read it.
    pub tick: u64,
    /// What was fed.
    pub event: InputEvent,
}

/// A recording, walked in order.
#[derive(Debug)]
pub struct Replayed {
    /// The inputs, in tick order.
    inputs: Vec<TimedInput>,
    /// Index of the next input not yet delivered.
    next: usize,
}

/// Whether the inputs are in tick order, as a recording keeps them.
pub open spec fn in_tick_order(inputs: Seq<TimedInput>) -> bool {
    forall|i: int, j: int| 0 <= i <= j < inputs.len() ==> inputs[i].tick <= inputs[j].tick
}

/// Where the run of inputs for `tick` that starts at `from` ends.
pub open spec fn run_end(inputs: Seq<TimedInput>, from: int, tick: u64) -> int
    decreases inputs.len() - from,
{
    if from < 0 || from >= inputs.len() || inputs[from].tick != tick {
        from
    } else {
        run_end(inputs, from + 1, tick)
    }
}

/// The events of the inputs from `from` to `to`.
pub open spec fn events_between(inputs: Seq<TimedInput>, from: int, to: int) -> Seq<InputEvent> {
    inputs.subrange(from, to).map_values(|input: TimedInput| input.event)
}

/// Whether `next` sits exactly at the first input of `tick` or later: every
/// input before it is earlier, and none from it on is.
pub open spec fn cursor_at(inputs: Seq<TimedInput>, next: int, tick: u64) -> bool {
    &&& 0 <= next <= inputs.len()
    &&& forall|i: int| 0 <= i < next ==> inputs[i].tick < tick
    &&& forall|i: int| next <= i < inputs.len() ==> inputs[i].tick >= tick
}

impl Replayed {
    /// The recorded inputs.
    pub closed spec fn inputs(&self) -> Seq<TimedInput> {
        self.inputs@
    }

    /// How many inputs have been delivered.
    pub closed spec fn delivered(&self) -> int {
        self.next as int
    }

    /// A recording about to be replayed from its first tick.
    pub fn new(inputs: Vec<TimedInput>) -> (replayed: Replayed)
        ensures
            replayed.inputs() == inputs@,
            replayed.delivered() == 0,
    {
        Replayed { inputs, next: 0 }
    }

    /// Everything that belongs to `tick`.
    ///
    /// The inputs are in tick order and the runner visits every tick from zero
    /// upwards, so everything for this tick is one contiguous run starting at
    /// the cursor. A tick is matched exactly: an input for a tick already gone
    /// past is not delivered late.
    pub fn take(&mut self, tick: u64) -> (events: Vec<InputEvent>)
        requires
            0 <= old(self).delivered() <= old(self).inputs().len(),
        ensures
            final(self).inputs() == old(self).inputs(),
            final(self).delivered() == run_end(old(self).inputs(), old(self).delivered(), tick),
            events@ == events_between(
                old(self).inputs(),
                old(self).delivered(),
                final(self).delivered(),
            ),
    {
        let ghost start = self.next as int;
        let mut events: Vec<InputEvent> = Vec::new();
        while self.next < self.inputs.len() && self.inputs[self.next].tick == tick
            invariant
                self.inputs@ == old(self).inputs@,
                start <= self.next <= self.inputs@.len(),
                start == old(self).next,
                run_end(self.inputs@, start, tick) == run_end(self.inputs@, self.next as int, tick),
                events@ == events_between(self.inputs@, start, self.next as int),
            decreases self.inputs@.len() - self.next,
        {
            events.push(self.inputs[self.next].event.duplicate());
            self.next = self.next + 1;
            assert(events@ =~= events_between(self.inputs@, start, self.next as int));
        }
        events
    }
}

/// A recording in tick order, walked one tick after another from zero,
/// delivers each tick exactly the inputs recorded for it: the cursor that sat
/// at the first input of `tick` ends at the first input of the tick after, and
/// what lies between is every input of `tick`.
pub proof fn lemma_each_tick_gets_its_own_inputs(inputs: Seq<TimedInput>, next: int, tick: u64)
    requires
        in_tick_order(inputs),
        cursor_at(inputs, next, tick),
        tick < u64::MAX,
    ensures
        cursor_at(inputs, run_end(inputs, next, tick), (tick + 1) as u64),
        forall|i: int|
            next <= i < run_end(inputs, next, tick) ==> #[trigger] inputs[i].tick == tick,
        next <= run_end(inputs, next, tick),
{
    lemma_run_end(inputs, next, next, tick);
}

/// The walk of [`lemma_each_tick_gets_its_own_inputs`], from anywhere inside
/// the run of `tick`.
proof fn lemma_run_end(inputs: Seq<TimedInput>, next: int, at: int, tick: u64)
    requires
        in_tick_order(inputs),
        0 <= next <= at <= inputs.len(),
        forall|i: int| 0 <= i < next ==> inputs[i].tick < tick,
        forall|i: int| next <= i < at ==> inputs[i].tick == tick,
        forall|i: int| at <= i < inputs.len() ==> inputs[i].tick >= tick,
        tick < u64::MAX,
    ensures
        cursor_at(inputs, run_end(inputs, at, tick), (tick + 1) as u64),
        forall|i: int|
            next <= i < run_end(inputs, at, tick) ==> #[trigger] inputs[i].tick == tick,
        at <= run_end(inputs, at, tick),
    decreases inputs.len() - at,
{
    if at < inputs.len() && inputs[at].tick == tick {
        lemma_run_end(inputs, next, at + 1, tick);
    } else if at < inputs.len() {
        assert forall|i: int| at <= i < inputs.len() implies inputs[i].tick >= tick + 1 by {
            assert(inputs[at].tick <= inputs[i].tick);
        }
    }
}

/// Why a replay could not be made.
#[derive(Debug, Clone, PartialEq, Eq)]
pub enum RunError {
    /// A `scene-file` run reached the runner without a scene to build from.
    SceneMissing,
    /// A scene file could not constitute a world; the loader's own words.
    Scene {
        /// What the loader said.
        message: String,
    },
    /// Building or dumping the simulation failed; the engine's own words.
    Ecs {
        /// What the engine said.
        message: String,
    },
    /// The recording asks for something the mode it names cannot do; the
    /// check's own words.
    Mismatch {
        /// What the check said.
        message: String,
    },
    /// A replay was asked to run past the end of its recording.
    TooShort {
        /// Ticks that were asked for.
        asked: u64,
        /// Ticks the recording covers.
        covered: u64,
    },
}

/// What a `scene-file` run without a scene is told.
pub const SCENE_MISSING_TEXT: &'static str = "a scene-file run needs a scene to constitute its world from, and none reached the runner; pass --scene <file> for a live run, and for a replay use a recording that carries its scene anchor";

/// The sentence a refused run is reported with.
pub open spec fn run_error_message(error: RunError) -> Seq<char> {
    match error {
        RunError::SceneMissing => SCENE_MISSING_TEXT@,
        RunError::Scene { message } => message@,
        RunError::Ecs { message } => message@,
        RunError::Mismatch { message } => message@,
        RunError::TooShort { asked, covered } => "this recording covers "@ + decimal_text(
            covered as nat,
        ) + " ticks and "@ + decimal_text(asked as nat)
            + " were asked for; past the end of a recording a replay would run on with no input at all, which reproduces nothing. Record a longer run, or ask for at most "@
            + decimal_text(covered as nat),
    }
}

impl RunError {
    /// The sentence this refusal is reported with.
    pub fn message(&self) -> (text: String)
        ensures
            text@ == run_error_message(*self),
    {
        match self {
            RunError::SceneMissing => SCENE_MISSING_TEXT.to_owned(),
            RunError::Scene { message } => message.clone(),
            RunError::Ecs { message } => message.clone(),
            RunError::Mismatch { message } => message.clone(),
            RunError::TooShort { asked, covered } => {
                let mut text = "this recording covers ".to_owned();
                append_decimal(&mut text, *covered);
                text.append(" ticks and ");
                append_decimal(&mut text, *asked);
                text.append(
                    " were asked for; past the end of a recording a replay would run on with no input at all, which reproduces nothing. Record a longer run, or ask for at most ",
                );
                append_decimal(&mut text, *covered);
                text
            },
        }
    }
}

/// How many ticks a replay runs: the ticks asked for, or the whole recording
/// when none were, and never past its end — past the end a replay would run on
/// with no input at all, which reproduces nothing.
pub fn replay_ticks(asked: Option<u64>, covered: u64) -> (ticks: Result<u64, RunError>)
    ensures
        match asked {
            None => ticks == Ok::<u64, RunError>(covered),
            Some(n) => if n > covered {
                ticks == Err::<u64, RunError>(RunError::TooShort { asked: n, covered })
            } else {
                ticks == Ok::<u64, RunError>(n)
            },
        },
{
    let ticks = match asked {
        Some(n) => n,
        None => covered,
    };
    if ticks > covered {
        return Err(RunError::TooShort { asked: ticks, covered });
    }
    Ok(ticks)
}

/// The duration fed to the accumulator for frame `frame`.
pub fn frame_time_us(frame: usize) -> (micros: u64)
    ensures
        micros == FRAME_TIMES_US@[(frame % 6) as int],
{
    FRAME_TIMES_US[frame % 6]
}


/// Where a run's world is constituted from.
#[derive(Debug, Clone, Copy, PartialEq, Eq, Structural)]
pub enum WorldFrom {
    /// The scene text the run was handed, already checked against its anchor.
    SceneText,
    /// The code that builds the mode's own world from the seed.
    Code,
}

/// Where the world of a run comes from.
///
/// A scene the run was handed wins whatever the mode; without one, a
/// `scene-file` run has nothing to constitute its world from and every other
/// mode builds its world in code.
pub fn world_from(has_scene: bool, mode: Mode) -> (from: Result<WorldFrom, RunError>)
    ensures
        has_scene ==> from == Ok::<WorldFrom, RunError>(WorldFrom::SceneText),
        !has_scene && mode == Mode::SceneFile ==> from == Err::<WorldFrom, RunError>(
            RunError::SceneMissing,
        ),
        !has_scene && mode != Mode::SceneFile ==> from == Ok::<WorldFrom, RunError>(
            WorldFrom::Code,
        ),
{
    if has_scene {
        return Ok(WorldFrom::SceneText);
    }
    match mode {
        Mode::SceneFile => Err(RunError::SceneMissing),
        _ => Ok(WorldFrom::Code),
    }
}

/// What a run does next, at the top of its loop.
#[derive(Debug, Clone, Copy, PartialEq, Eq, Structural)]
pub enum Between {
    /// The budget is spent and somebody is attached who could extend it: wait
    /// for one command and answer it at this moment.
    Wait {
        /// Ticks run so far, which is what the answer is dated with.
        ticks_run: u64,
    },
    /// Feed the accumulator one frame of this many microseconds and run the
    /// ticks it hands out.
    Frame {
        /// The frame's duration.
        micros: u64,
    },
    /// The run is over.
    Finish {
        /// Ticks that ran, which is what the run reports.
        ticks: u64,
    },
}

/// The counters of a run's loop: how many ticks have run, how many the run is
/// for, and where in the frame pattern it is.
///
/// The budget is the one a `step` raises and a replay start replaces; the
/// runner hands it to the drain and reads it back here.
#[derive(Debug)]
pub struct Pace {
    /// Ticks run so far in this run.
    pub tick: u64,
    /// How many ticks the run is for, as it now stands.
    pub budget: u64,
    /// The position of the next frame in `FRAME_TIMES_US`.
    pub frame: usize,
}

impl Pace {
    /// The position of the next frame in the frame pattern.
    pub open spec fn frame(&self) -> int {
        self.frame as int
    }

    /// Whether the frame position is one the pattern has.
    pub open spec fn wf(&self) -> bool {
        self.frame < 6
    }

    /// A run of `budget` ticks, before its first frame.
    pub fn new(budget: u64) -> (pace: Pace)
        ensures
            pace.wf(),
            pace.tick == 0,
            pace.budget == budget,
            pace.frame() == 0,
    {
        Pace { tick: 0, budget, frame: 0 }
    }

    /// What the run does next.
    ///
    /// While budget is left it runs another frame, whose duration is the next
    /// in the ragged pattern. Once it is spent the run waits, but only when
    /// somebody is attached who could extend it: with nobody there it ends, and
    /// it ends having run exactly the ticks it ran. A wait that nobody answers
    /// is asked again as not attached, and ends the run the same way.
    pub fn between(&mut self, attached: bool) -> (next: Between)
        requires
            old(self).wf(),
        ensures
            final(self).wf(),
            final(self).tick == old(self).tick,
            final(self).budget == old(self).budget,
            old(self).tick < old(self).budget ==> next == (Between::Frame {
                micros: FRAME_TIMES_US@[old(self).frame()],
            }) && final(self).frame() == (old(self).frame() + 1) % 6,
            old(self).tick >= old(self).budget && attached ==> next == (Between::Wait {
                ticks_run: old(self).tick,
            }) && final(self).frame() == old(self).frame(),
            old(self).tick >= old(self).budget && !attached ==> next == (Between::Finish {
                ticks: old(self).tick,
            }) && final(self).frame() == old(self).frame(),
    {
        if self.tick < self.budget {
            let micros = FRAME_TIMES_US[self.frame];
            self.frame = if self.frame >= 5 {
                0
            } else {
                self.frame + 1
            };
            Between::Frame { micros }
        } else if attached {
            Between::Wait { ticks_run: self.tick }
        } else {
            Between::Finish { ticks: self.tick }
        }
    }

    /// After a command answered while waiting: a replay start is a different
    /// run, whose count begins again at zero.
    pub fn waited(&mut self, after: After)
        ensures
            final(self).budget == old(self).budget,
            final(self).frame() == old(self).frame(),
            final(self).wf() == old(self).wf(),
            after == After::Restart ==> final(self).tick == 0,
            after == After::Carry ==> final(self).tick == old(self).tick,
    {
        if after == After::Restart {
            self.tick = 0;
        }
    }

    /// The tick a frame's next due tick would be, or `None` once the budget
    /// is spent, which ends the frame early whatever the accumulator handed
    /// out: a run counts to its budget exactly.
    pub fn due(&self) -> (tick: Option<u64>)
        ensures
            self.tick < self.budget ==> tick == Some(self.tick),
            self.tick >= self.budget ==> tick is None,
    {
        if self.tick < self.budget {
            Some(self.tick)
        } else {
            None
        }
    }

    /// After a tick and its drain: whether the frame goes on to its next due
    /// tick.
    ///
    /// A replay start puts the count back to zero and ends the frame here,
    /// rather than letting the increment turn the replay's tick zero into tick
    /// one, where its first inputs would be looked for too late.
    pub fn ticked(&mut self, after: After) -> (more: bool)
        requires
            old(self).tick < old(self).budget,
        ensures
            final(self).budget == old(self).budget,
            final(self).frame() == old(self).frame(),
            final(self).wf() == old(self).wf(),
            after == After::Restart ==> final(self).tick == 0 && !more,
            after == After::Carry ==> final(self).tick == old(self).tick + 1 && more,
            final(self).tick <= final(self).budget,
    {
        if after == After::Restart {
            self.tick = 0;
            false
        } else {
            self.tick = self.tick + 1;
            true
        }
    }
}

/// Where a frame that the accumulator handed `due` ticks leaves the count,
/// when each of them is asked for with `Pace::due` and run with
/// `Pace::ticked` and nothing restarts: it runs them all, or stops at the
/// budget.
pub open spec fn frame_end(tick: nat, budget: nat, due: nat) -> nat {
    if tick >= budget {
        tick
    } else if tick + due <= budget {
        tick + due
    } else {
        budget
    }
}

/// Where frame after frame leaves the count, by `Pace::between`: frames run
/// while budget is left, and once it is spent a run nobody is attached to
/// finishes with the count it has.
pub open spec fn count_after(tick: nat, budget: nat, dues: Seq<nat>) -> nat
    decreases dues.len(),
{
    if dues.len() == 0 || tick >= budget {
        tick
    } else {
        count_after(frame_end(tick, budget, dues[0]), budget, dues.drop_first())
    }
}

/// How many ticks the accumulator handed out over some frames.
pub open spec fn handed_out(dues: Seq<nat>) -> nat
    decreases dues.len(),
{
    if dues.len() == 0 {
        0
    } else {
        dues[0] + handed_out(dues.drop_first())
    }
}

/// A run executes exactly the ticks it was asked for: whatever the frames
/// hand out, a run that starts within its budget runs every tick handed out
/// until the budget is reached and not one past it. So once enough have been
/// handed out, it finishes having run its budget exactly.
pub proof fn lemma_a_run_executes_exactly_its_budget(tick: nat, budget: nat, dues: Seq<nat>)
    requires
        tick <= budget,
    ensures
        count_after(tick, budget, dues) == if tick + handed_out(dues) <= budget {
            tick + handed_out(dues)
        } else {
            budget
        },
        count_after(tick, budget, dues) <= budget,
        tick + handed_out(dues) >= budget ==> count_after(tick, budget, dues) == budget,
    decreases dues.len(),
{
    if dues.len() > 0 && tick < budget {
        lemma_a_run_executes_exactly_its_budget(frame_end(tick, budget, dues[0]), budget, dues.drop_first());
    } else if dues.len() > 0 {
        assert(tick == budget);
    }
}

/// How a report is described on the line that goes beside it.
pub open spec fn report_words(report: Report) -> Seq<char> {
    match report {
        Report::Summary => "a summary"@,
        Report::Hash => "the state hash"@,
        Report::Dump => "the canonical dump"@,
    }
}

/// The line a finished run writes to stderr, beside its report.
///
/// The mode and the seed are on it because they decide the result: a hash
/// without them says nothing. They are the run's own, read back off what it
/// recorded, because a replay takes both from its file.
pub open spec fn run_line(mode: Mode, seed: u64, ticks: u64, entities: u32, inputs: u64, report: Report) -> Seq<char> {
    "narvo: mode "@ + mode_name(mode) + ", seed "@ + decimal_text(seed as nat) + ", "@
        + decimal_text(ticks as nat) + " ticks over "@ + decimal_text(entities as nat)
        + " entities, "@ + decimal_text(inputs as nat) + " recorded inputs, reporting "@
        + report_words(report)
}

/// The line a finished run writes to stderr, beside its report.
pub fn describe_run(mode: Mode, seed: u64, ticks: u64, entities: u32, inputs: u64, report: Report) -> (line: String)
    ensures
        line@ == run_line(mode, seed, ticks, entities, inputs, report),
{
    let mut line = "narvo: mode ".to_owned();
    line.append(mode.name());
    line.append(", seed ");
    append_decimal(&mut line, seed);
    line.append(", ");
    append_decimal(&mut line, ticks);
    line.append(" ticks over ");
    append_decimal(&mut line, entities as u64);
    line.append(" entities, ");
    append_decimal(&mut line, inputs);
    line.append(" recorded inputs, reporting ");
    let words = match report {
        Report::Summary => "a summary",
        Report::Hash => "the state hash",
        Report::Dump => "the canonical dump",
    };
    line.append(words);
    line
}

/// What a finished run writes to stdout, and nothing else does: a line of
/// prose, the state hash as sixteen lowercase hex digits zero padded so two
/// hashes are the same width, or the canonical dump itself.
pub open spec fn report_text(report: Report, ticks: u64, entities: u32, dump: Seq<char>, hash: u64) -> Seq<
    char,
> {
    match report {
        Report::Summary => "headless: "@ + decimal_text(ticks as nat) + " ticks over "@
            + decimal_text(entities as nat) + " entities\n"@,
        Report::Hash => hex_text(hash as nat, 16).push('\n'),
        Report::Dump => dump,
    }
}

/// The report a finished run writes to stdout.
///
/// `hash` is the state hash of `dump`, which the engine computes.
pub fn render_report(report: Report, ticks: u64, entities: u32, dump: String, hash: u64) -> (text:
    String)
    ensures
        text@ == report_text(report, ticks, entities, dump@, hash),
{
    match report {
        Report::Summary => {
            let mut text = "headless: ".to_owned();
            append_decimal(&mut text, ticks);
            text.append(" ticks over ");
            append_decimal(&mut text, entities as u64);
            text.append(" entities\n");
            text
        },
        Report::Hash => {
            let mut text = String::new();
            append_hex(&mut text, hash, 16);
            push_char(&mut text, '\n');
            assert(text@ =~= hex_text(hash as nat, 16).push('\n'));
            text
        },
        Report::Dump => dump,
    }
}

/// Every hash report is the same width: sixteen digits and a newline.
pub proof fn lemma_hash_reports_are_one_width(hash: u64, other: u64)
    ensures
        report_text(Report::Hash, 0, 0, Seq::empty(), hash).len() == 17,
        report_text(Report::Hash, 0, 0, Seq::empty(), hash).len() == report_text(
            Report::Hash,
            0,
            0,
            Seq::empty(),
            other,
        ).len(),
{
    lemma_hex_width(hash as nat, 16);
    lemma_hex_width(other as nat, 16);
}

/// Hex text is exactly as wide as asked for.
proof fn lemma_hex_width(n: nat, width: nat)
    ensures
        hex_text(n, width).len() == width,
    decreases width,
{
    if width > 0 {
        lemma_hex_width(n / 16, (width - 1) as nat);
    }
}

} // verus!
