//! Where a request from the agent protocol meets a running run, and when.

use vstd::prelude::*;

use std::collections::VecDeque;

use crate::cli::joined_of;
use crate::headless::{RunError, run_error_message};
use crate::inspector::{ComponentReading, Reading};
use crate::text::{append_decimal, decimal_text, push_char, same_text};

verus! {

/// An entity as the agent protocol and the canonical dump name it: a slot
/// index and a generation, where generations count from one.
#[derive(Debug, Clone, Copy, PartialEq, Eq, Structural)]
pub struct EntityName {
    /// The slot.
    pub index: u32,
    /// How many entities have held the slot, this one included.
    pub generation: u32,
}

/// How an entity is written: `{index}v{generation}`.
pub open spec fn entity_text(name: EntityName) -> Seq<char> {
    decimal_text(name.index as nat) + "v"@ + decimal_text(name.generation as nat)
}


impl EntityName {
    /// How the entity is written: `{index}v{generation}`.
    pub fn text(&self) -> (text: String)
        ensures
            text@ == entity_text(*self),
    {
        let mut text = String::new();
        append_decimal(&mut text, self.index as u64);
        push_char(&mut text, 'v');
        append_decimal(&mut text, self.generation as u64);
        proof {
            reveal_strlit("v");
        }
        assert(text@ =~= entity_text(*self));
        text
    }
}

/// One component of an entity, by its stable name and serialized value.
#[derive(Debug, Clone, PartialEq, Eq)]
pub struct ComponentValue {
    /// The stable name.
    pub name: String,
    /// The value, in the canonical dump's own text.
    pub value: String,
}

/// What an agent can ask of a run.
#[derive(Debug, Clone, PartialEq, Eq)]
pub enum Request {
    /// Every entity, in canonical order.
    ListEntities,
    /// Every registered component one entity carries.
    GetEntity { entity: EntityName },
    /// One component of one entity.
    GetComponent { entity: EntityName, component: String },
    /// The whole world as the canonical dump writes it.
    Dump,
    /// Write one component of one entity.
    SetComponent { entity: EntityName, component: String, value: String },
    /// Grant the run more ticks.
    Step { ticks: u64 },
    /// Constitute the world afresh from a scene file.
    LoadScene { path: String },
    /// Make the run a replay of a recording.
    Replay { path: String },
}

/// What a run answers.
#[derive(Debug, Clone, PartialEq, Eq)]
pub enum Response {
    /// The request could not be answered, and this says why.
    Error { message: String },
    /// The entities there are.
    ListEntities { entities: Vec<EntityName>, ticks_run: u64 },
    /// The components one entity carries.
    GetEntity { entity: EntityName, components: Vec<ComponentValue>, ticks_run: u64 },
    /// One component, or `None` when the entity does not carry it.
    GetComponent { entity: EntityName, component: String, value: Option<String>, ticks_run: u64 },
    /// The whole world.
    Dump { state: String, ticks_run: u64 },
    /// A write was accepted; `previous` is `None` when it added the component.
    SetComponent {
        entity: EntityName,
        component: String,
        previous: Option<String>,
        ticks_run: u64,
    },
    /// The run's budget as it now stands.
    Step { granted: u64, ticks_run: u64 },
    /// A scene was loaded.
    LoadScene { path: String, digest: String, entities: u32, ticks_run: u64 },
    /// A replay was started.
    Replay { path: String, mode: String, seed: u64, ticks: u64, ticks_run: u64 },
}

/// What a drain leaves for the runner to do, beyond taking the answers.
///
/// The tick counter is the loop's, and the loop increments it one line after
/// the drain, so a replay start cannot reset it from inside: it says so here
/// instead.
#[derive(Debug, Clone, Copy, PartialEq, Eq, Structural)]
pub enum After {
    /// Nothing. Every drain that took no replay start.
    Carry,
    /// The run is a different run now, and its tick count begins again at zero.
    Restart,
}

/// When a drain is happening, of the two moments there are.
///
/// Both observe the same world: no tick runs between the last drain inside a
/// tick and a wait. What differs is only how many ticks have run.
#[derive(Debug, Clone, Copy, PartialEq, Eq, Structural)]
pub enum Moment {
    /// Inside tick `n`, after its systems and before the counter moves.
    Tick(u64),
    /// Between ticks, with the run waiting for a command. `ticks_run` have run.
    Waiting {
        /// How many ticks the run has executed.
        ticks_run: u64,
    },
}

/// How many ticks have run by a moment: inside tick `n` its systems have
/// already run, so that is `n + 1`, saturating at the largest count there is.
pub open spec fn ticks_run_at(at: Moment) -> u64 {
    match at {
        Moment::Tick(n) => if n == u64::MAX {
            u64::MAX
        } else {
            (n + 1) as u64
        },
        Moment::Waiting { ticks_run } => ticks_run,
    }
}

impl Moment {
    /// How many ticks have run by this moment.
    pub fn ticks_run(self) -> (ticks: u64)
        ensures
            ticks == ticks_run_at(self),
    {
        match self {
            Moment::Tick(n) => n.saturating_add(1),
            Moment::Waiting { ticks_run } => ticks_run,
        }
    }

    /// The tick this moment is inside, if it is inside one.
    pub fn tick(self) -> (tick: Option<u64>)
        ensures
            match self {
                Moment::Tick(n) => tick == Some(n),
                Moment::Waiting { .. } => tick is None,
            },
    {
        match self {
            Moment::Tick(n) => Some(n),
            Moment::Waiting { .. } => None,
        }
    }
}

/// Where requests come from and where answers go, between ticks.
///
/// The seam a transport plugs into, and it knows no world.
pub trait Channel {
    /// Requests that have arrived since the last call. Never blocks.
    fn arrived(&mut self) -> Vec<Request>;

    /// Blocks until a request arrives, or until nothing can arrive any more.
    fn awaited(&mut self) -> Option<Request>;

    /// Whether waiting could produce anything at all.
    fn attached(&self) -> bool;

    /// Hands answers back to whoever asked.
    fn answered(&mut self, answers: &[Response]);
}

/// The channel of a run that nobody is talking to: every method is the empty
/// answer, and nobody is attached.
#[derive(Debug, Default)]
pub struct Silent;

impl Channel for Silent {
    fn arrived(&mut self) -> (requests: Vec<Request>)
        ensures
            requests@.len() == 0,
    {
        Vec::new()
    }

    fn awaited(&mut self) -> (request: Option<Request>)
        ensures
            request is None,
    {
        None
    }

    fn attached(&self) -> (attached: bool)
        ensures
            !attached,
    {
        false
    }

    fn answered(&mut self, answers: &[Response]) {
    }
}

/// A channel that keeps every answer instead of sending it anywhere, and that
/// speaks: a script of requests handed out one per wait, in order.
///
/// A client that never races the tick loop, so what a wait consumed and in
/// which order is exactly the script. It is attached while the script has
/// something left, so a run waits for as long as it has something to say and
/// ends when it stops, which is what a client disconnecting does.
#[derive(Debug)]
pub struct Collected {
    /// Every answer handed over, in the order it was handed over.
    pub answers: Vec<Response>,
    /// What a waiting run is handed, one per wait.
    script: VecDeque<Request>,
}

impl Collected {
    /// What is left of the script.
    pub closed spec fn script(&self) -> Seq<Request> {
        self.script@
    }

    /// The answers handed over so far, in order.
    pub closed spec fn kept(&self) -> Seq<Response> {
        self.answers@
    }

    /// A channel that will hand `script` to a waiting run, in order.
    pub fn speaking(script: Vec<Request>) -> (channel: Collected)
        ensures
            channel.script() == script@,
            channel.kept().len() == 0,
    {
        let mut queue: VecDeque<Request> = VecDeque::new();
        let mut rest = script;
        let ghost all = rest@;
        while rest.len() > 0
            invariant
                queue@ + rest@ == all,
            decreases rest@.len(),
        {
            let ghost before = rest@;
            let request = rest.remove(0);
            queue.push_back(request);
            assert(queue@ + rest@ =~= all) by {
                assert(before =~= seq![request] + rest@);
            }
        }
        assert(queue@ =~= all);
        Collected { answers: Vec::new(), script: queue }
    }
}

impl Channel for Collected {
    fn arrived(&mut self) -> (requests: Vec<Request>)
        ensures
            requests@.len() == 0,
            final(self).script() == old(self).script(),
            final(self).kept() == old(self).kept(),
    {
        Vec::new()
    }

    fn awaited(&mut self) -> (request: Option<Request>)
        ensures
            old(self).script().len() == 0 ==> request is None && final(self).script() == old(
                self,
            ).script(),
            old(self).script().len() > 0 ==> request == Some(old(self).script()[0])
                && final(self).script() == old(self).script().drop_first(),
            final(self).kept() == old(self).kept(),
    {
        self.script.pop_front()
    }

    fn attached(&self) -> (attached: bool)
        ensures
            attached == (self.script().len() > 0),
    {
        self.script.len() > 0
    }

    fn answered(&mut self, answers: &[Response])
        ensures
            final(self).script() == old(self).script(),
            final(self).kept().len() == old(self).kept().len() + answers@.len(),
            forall|i: int|
                0 <= i < old(self).kept().len() ==> final(self).kept()[i] == old(self).kept()[i],
            forall|i: int|
                0 <= i < answers@.len() ==> cloned::<Response>(
                    answers@[i],
                    #[trigger] final(self).kept()[old(self).kept().len() + i],
                ),
    {
        self.answers.extend_from_slice(answers);
        proof {
            assert forall|i: int| 0 <= i < answers@.len() implies cloned::<Response>(
                answers@[i],
                #[trigger] self.answers@[old(self).kept().len() + i],
            ) by {
                let k = old(self).kept().len() + i;
                assert(self.answers@[k] == self.answers@[k]);
            }
        }
    }
}

/// What answering a request did beyond producing an answer.
#[derive(Debug, Clone, Copy, PartialEq, Eq, Structural)]
pub enum Effect {
    /// Nothing outside the answer. Every read, and every refusal.
    Nothing,
    /// The world was written to, which cuts the band.
    Wrote,
    /// The world was written to and the run is a different run now.
    Restarted,
    /// The run's budget was raised, which the band follows.
    Granted,
}

/// What answering `request` did, given whether it was accepted.
///
/// Decided by an exhaustive match, so a command added later cannot be
/// classified by omission. A refused request changed nothing.
pub open spec fn effect_of(request: Request, accepted: bool) -> Effect {
    if !accepted {
        Effect::Nothing
    } else {
        match request {
            Request::ListEntities => Effect::Nothing,
            Request::GetEntity { .. } => Effect::Nothing,
            Request::GetComponent { .. } => Effect::Nothing,
            Request::Dump => Effect::Nothing,
            Request::SetComponent { .. } => Effect::Wrote,
            Request::Step { .. } => Effect::Granted,
            Request::LoadScene { .. } => Effect::Wrote,
            Request::Replay { .. } => Effect::Restarted,
        }
    }
}

/// **A read changes nothing.** Whether or not it is accepted, a read has no
/// effect beyond its answer, so filing it leaves the band where it was; only
/// a write or a scene load counts as writing, only a replay start restarts
/// the run, only a step grants ticks; and a refused request does nothing.
pub proof fn lemma_only_commands_that_steer_have_effects(
    request: Request,
    accepted: bool,
    cut: Option<u64>,
    at: Moment,
)
    ensures
        (request is ListEntities || request is GetEntity || request is GetComponent
            || request is Dump) ==> effect_of(request, accepted) == Effect::Nothing && cut_by(
            cut,
            effect_of(request, accepted),
            at,
        ) == cut,
        (effect_of(request, true) == Effect::Wrote) <==> (request is SetComponent
            || request is LoadScene),
        (effect_of(request, true) == Effect::Restarted) <==> request is Replay,
        (effect_of(request, true) == Effect::Granted) <==> request is Step,
        !accepted ==> effect_of(request, accepted) == Effect::Nothing,
{
}

/// What answering `request` did, given whether it was accepted.
pub fn effect(request: &Request, accepted: bool) -> (effect: Effect)
    ensures
        effect == effect_of(*request, accepted),
{
    if !accepted {
        return Effect::Nothing;
    }
    match request {
        Request::ListEntities | Request::GetEntity { .. } | Request::GetComponent { .. }
        | Request::Dump => Effect::Nothing,
        Request::SetComponent { .. } => Effect::Wrote,
        Request::Step { .. } => Effect::Granted,
        Request::LoadScene { .. } => Effect::Wrote,
        Request::Replay { .. } => Effect::Restarted,
    }
}

/// What the recording being produced has to do after an answer.
#[derive(Debug, Clone, Copy, PartialEq, Eq, Structural)]
pub enum BandChange {
    /// Nothing.
    Keep,
    /// Cut to this many ticks: it is reproducible up to the first accepted
    /// write and no further.
    CutTo(u64),
    /// Lengthened to this many ticks, following a granted step.
    ExtendTo(u64),
}

/// The requests waiting for a tick boundary, and the answers taken at one.
///
/// Held by the runner rather than by the world: a pending request is not
/// simulation state.
#[derive(Debug)]
pub struct Inbox {
    /// Requests that have arrived and not yet been answered, in arrival order.
    pending: VecDeque<Request>,
    /// Answers produced at tick boundaries and not yet taken.
    answers: Vec<Response>,
    /// The tick count the first accepted write was answered at, once one has
    /// been.
    cut_at: Option<u64>,
    /// Requests waiting for a tick that has not come yet, each with the tick
    /// whose drain is to answer it, in the order they were scheduled.
    scheduled: Vec<(u64, Request)>,
}

impl Inbox {
    /// The requests waiting, oldest first.
    pub closed spec fn pending(&self) -> Seq<Request> {
        self.pending@
    }

    /// The answers not yet taken, oldest first.
    pub closed spec fn answers(&self) -> Seq<Response> {
        self.answers@
    }

    /// Where the band was cut, if it was.
    pub closed spec fn cut(&self) -> Option<u64> {
        self.cut_at
    }

    /// The requests scheduled for later ticks, in the order they were
    /// scheduled.
    pub closed spec fn scheduled(&self) -> Seq<(u64, Request)> {
        self.scheduled@
    }

    /// An inbox with nothing in it.
    pub fn new() -> (inbox: Inbox)
        ensures
            inbox.pending().len() == 0,
            inbox.answers().len() == 0,
            inbox.cut() is None,
            inbox.scheduled().len() == 0,
    {
        Inbox { pending: VecDeque::new(), answers: Vec::new(), cut_at: None, scheduled: Vec::new() }
    }

    /// Puts a request in the queue, to be answered at the next tick boundary.
    pub fn push(&mut self, request: Request)
        ensures
            final(self).pending() == old(self).pending().push(request),
            final(self).answers() == old(self).answers(),
            final(self).cut() == old(self).cut(),
            final(self).scheduled() == old(self).scheduled(),
    {
        self.pending.push_back(request);
    }

    /// Takes the oldest waiting request, which is then gone: a request is
    /// answered once, however many ticks follow.
    pub fn next_request(&mut self) -> (request: Option<Request>)
        ensures
            old(self).pending().len() == 0 ==> request is None && final(self).pending() == old(
                self,
            ).pending(),
            old(self).pending().len() > 0 ==> request == Some(old(self).pending()[0])
                && final(self).pending() == old(self).pending().drop_first(),
            final(self).answers() == old(self).answers(),
            final(self).cut() == old(self).cut(),
            final(self).scheduled() == old(self).scheduled(),
    {
        self.pending.pop_front()
    }

    /// Files the answer to a request and says what the band has to do.
    ///
    /// The band is cut at the first accepted write, at the tick count of the
    /// moment it was accepted, and not again: the promise is "reproducible up
    /// to the first write", and a second cut could only move it past a write
    /// the band cannot account for. A cut band is not lengthened either.
    pub fn record(&mut self, answer: Response, effect: Effect, at: Moment, budget: u64) -> (change:
        BandChange)
        ensures
            final(self).pending() == old(self).pending(),
            final(self).scheduled() == old(self).scheduled(),
            final(self).answers() == old(self).answers().push(answer),
            final(self).cut() == cut_by(old(self).cut(), effect, at),
            match effect {
                Effect::Wrote | Effect::Restarted => match old(self).cut() {
                    None => final(self).cut() == Some(ticks_run_at(at)) && change
                        == BandChange::CutTo(ticks_run_at(at)),
                    Some(_) => final(self).cut() == old(self).cut() && change == BandChange::Keep,
                },
                Effect::Granted => final(self).cut() == old(self).cut() && change == (
                match old(self).cut() {
                    None => BandChange::ExtendTo(budget),
                    Some(_) => BandChange::Keep,
                }),
                Effect::Nothing => final(self).cut() == old(self).cut() && change
                    == BandChange::Keep,
            },
    {
        self.answers.push(answer);
        match effect {
            Effect::Nothing => BandChange::Keep,
            Effect::Wrote | Effect::Restarted => {
                if self.cut_at.is_none() {
                    let at_tick = at.ticks_run();
                    self.cut_at = Some(at_tick);
                    BandChange::CutTo(at_tick)
                } else {
                    BandChange::Keep
                }
            },
            Effect::Granted => {
                if self.cut_at.is_none() {
                    BandChange::ExtendTo(budget)
                } else {
                    BandChange::Keep
                }
            },
        }
    }

    /// Schedules `request` so the drain inside `tick`, and no earlier one,
    /// answers it.
    ///
    /// Stands in for a client whose request arrives later in a run: everything
    /// pushed with [`push`](Self::push) lands at the next drain, and a cut at
    /// an arbitrary tick needs one that arrives at that tick.
    pub fn push_at(&mut self, tick: u64, request: Request)
        ensures
            final(self).scheduled() == old(self).scheduled().push((tick, request)),
            final(self).pending() == old(self).pending(),
            final(self).answers() == old(self).answers(),
            final(self).cut() == old(self).cut(),
    {
        self.scheduled.push((tick, request));
    }

    /// Moves everything scheduled for `tick` into the queue, in schedule order.
    ///
    /// Exact equality on the tick, not "due by now": an entry for a tick the
    /// run never reaches is never delivered, and
    /// [`undelivered`](Self::undelivered) says so.
    pub fn deliver_scheduled(&mut self, tick: u64)
        ensures
            final(self).pending() == old(self).pending() + due_at(old(self).scheduled(), tick),
            final(self).scheduled() == not_due_at(old(self).scheduled(), tick),
            final(self).answers() == old(self).answers(),
            final(self).cut() == old(self).cut(),
    {
        let ghost all = self.scheduled@;
        let ghost start = self.pending@;
        let ghost mut seen: int = 0;
        let mut index: usize = 0;
        proof {
            reveal(Seq::filter);
            assert(all.take(0) =~= Seq::<(u64, Request)>::empty());
            assert(due_at(all.take(0), tick) =~= Seq::<Request>::empty());
            assert(self.scheduled@ =~= not_due_at(all.take(0), tick) + all.skip(0));
        }
        while index < self.scheduled.len()
            invariant
                0 <= seen <= all.len(),
                self.scheduled@ == not_due_at(all.take(seen), tick) + all.skip(seen),
                index == not_due_at(all.take(seen), tick).len(),
                self.pending@ == start + due_at(all.take(seen), tick),
                self.answers@ == old(self).answers@,
                self.cut_at == old(self).cut_at,
                all == old(self).scheduled@,
                start == old(self).pending@,
            decreases all.len() - seen,
        {
            let ghost kept = not_due_at(all.take(seen), tick);
            proof {
                reveal(Seq::filter);
                assert(all.take(seen + 1).drop_last() =~= all.take(seen));
                assert(all.take(seen + 1).last() == all[seen]);
                assert(self.scheduled@[index as int] == all[seen]);
            }
            if self.scheduled[index].0 == tick {
                let entry = self.scheduled.remove(index);
                self.pending.push_back(entry.1);
                proof {
                    assert(not_due_at(all.take(seen + 1), tick) == kept);
                    assert(self.scheduled@ =~= kept + all.skip(seen + 1));
                    assert(due_at(all.take(seen + 1), tick) =~= due_at(all.take(seen), tick).push(
                        all[seen].1,
                    ));
                    assert(self.pending@ =~= start + due_at(all.take(seen + 1), tick));
                }
            } else {
                index = index + 1;
                proof {
                    assert(not_due_at(all.take(seen + 1), tick) == kept.push(all[seen]));
                    assert(self.scheduled@ =~= kept.push(all[seen]) + all.skip(seen + 1));
                    assert(due_at(all.take(seen + 1), tick) =~= due_at(all.take(seen), tick));
                }
            }
            proof {
                seen = seen + 1;
            }
        }
        proof {
            assert(seen == all.len()) by {
                if seen < all.len() {
                    assert(self.scheduled@.len() > index);
                }
            }
            assert(all.take(seen) =~= all);
            assert(all.skip(seen) =~= Seq::<(u64, Request)>::empty());
            assert(self.scheduled@ =~= not_due_at(all, tick));
        }
    }

    /// How many scheduled requests never came due.
    pub fn undelivered(&self) -> (count: usize)
        ensures
            count == self.scheduled().len(),
    {
        self.scheduled.len()
    }

    /// Whether the band is still recording, which it is until a write lands.
    pub fn band_is_open(&self) -> (open: bool)
        ensures
            open == (self.cut() is None),
    {
        self.cut_at.is_none()
    }

    /// Takes the answers produced since the last call. Drained rather than
    /// borrowed, so the same answer cannot be delivered twice.
    pub fn take_answers(&mut self) -> (answers: Vec<Response>)
        ensures
            answers@ == old(self).answers(),
            final(self).answers().len() == 0,
            final(self).pending() == old(self).pending(),
            final(self).cut() == old(self).cut(),
            final(self).scheduled() == old(self).scheduled(),
    {
        let mut taken: Vec<Response> = Vec::new();
        std::mem::swap(&mut taken, &mut self.answers);
        taken
    }
}

/// Whether an accepted request of this effect wrote to the world.
pub open spec fn writes(effect: Effect) -> bool {
    effect == Effect::Wrote || effect == Effect::Restarted
}

/// Where the band is cut after one more answer: at the moment of the answer
/// if it is the first accepted write, and wherever it already was otherwise.
pub open spec fn cut_by(cut: Option<u64>, effect: Effect, at: Moment) -> Option<u64> {
    if writes(effect) && cut is None {
        Some(ticks_run_at(at))
    } else {
        cut
    }
}

/// Where the band is cut after a run of answers, each with the moment it was
/// given at, starting from `cut`.
pub open spec fn cut_over(cut: Option<u64>, answers: Seq<(Effect, Moment)>) -> Option<u64>
    decreases answers.len(),
{
    if answers.len() == 0 {
        cut
    } else {
        cut_over(cut_by(cut, answers[0].0, answers[0].1), answers.drop_first())
    }
}

/// A band is cut at the first accepted write and not again: over any run of
/// answers, an uncut band ends cut at the moment of the first answer that
/// wrote, or uncut if none did, and a cut band stays where it was cut.
pub proof fn lemma_the_band_is_cut_at_the_first_write_and_not_again(
    answers: Seq<(Effect, Moment)>,
    earlier: u64,
)
    ensures
        cut_over(Some(earlier), answers) == Some(earlier),
        (forall|j: int| 0 <= j < answers.len() ==> !writes(#[trigger] answers[j].0)) ==> cut_over(
            None,
            answers,
        ) is None,
        forall|k: int|
            0 <= k < answers.len() && writes(#[trigger] answers[k].0) && (forall|j: int|
                0 <= j < k ==> !writes(#[trigger] answers[j].0)) ==> cut_over(None, answers)
                == Some(ticks_run_at(answers[k].1)),
    decreases answers.len(),
{
    if answers.len() > 0 {
        let rest = answers.drop_first();
        lemma_the_band_is_cut_at_the_first_write_and_not_again(rest, earlier);
        if writes(answers[0].0) {
            lemma_the_band_is_cut_at_the_first_write_and_not_again(rest, ticks_run_at(answers[0].1));
            assert forall|k: int|
                0 <= k < answers.len() && writes(#[trigger] answers[k].0) && (forall|j: int|
                    0 <= j < k ==> !writes(#[trigger] answers[j].0)) implies cut_over(None, answers)
                == Some(ticks_run_at(answers[k].1)) by {
                if k > 0 {
                    assert(!writes(answers[0].0));
                }
            }
        } else {
            assert forall|k: int|
                0 <= k < answers.len() && writes(#[trigger] answers[k].0) && (forall|j: int|
                    0 <= j < k ==> !writes(#[trigger] answers[j].0)) implies cut_over(None, answers)
                == Some(ticks_run_at(answers[k].1)) by {
                assert(k > 0);
                assert(rest[k - 1] == answers[k]);
                assert forall|j: int| 0 <= j < k - 1 implies !writes(#[trigger] rest[j].0) by {
                    assert(rest[j] == answers[j + 1]);
                }
            }
            if forall|j: int| 0 <= j < answers.len() ==> !writes(#[trigger] answers[j].0) {
                assert forall|j: int| 0 <= j < rest.len() implies !writes(#[trigger] rest[j].0) by {
                    assert(rest[j] == answers[j + 1]);
                }
            }
        }
    }
}

/// What a drain leaves for the runner after one more answer: a restart once
/// any answer in it started a replay, and nothing otherwise.
pub open spec fn after_by(after: After, effect: Effect) -> After {
    if effect == Effect::Restarted {
        After::Restart
    } else {
        after
    }
}

/// What a drain leaves for the runner after a run of answers, starting from
/// `after`.
pub open spec fn after_over(after: After, effects: Seq<Effect>) -> After
    decreases effects.len(),
{
    if effects.len() == 0 {
        after
    } else {
        after_over(after_by(after, effects[0]), effects.drop_first())
    }
}

/// What a drain leaves for the runner once the answer with `effect` has been
/// filed, given what it left before: the tick count is the loop's, so a
/// replay start cannot reset it from inside the drain and says so here.
pub fn after_answer(after: After, effect: Effect) -> (next: After)
    ensures
        next == after_by(after, effect),
{
    match effect {
        Effect::Restarted => After::Restart,
        _ => after,
    }
}

/// A drain that starts at `Carry` ends at `Restart` exactly when one of its
/// answers started a replay.
pub proof fn lemma_a_drain_restarts_only_for_a_replay(effects: Seq<Effect>)
    ensures
        after_over(After::Restart, effects) == After::Restart,
        (after_over(After::Carry, effects) == After::Restart) <==> exists|k: int|
            0 <= k < effects.len() && #[trigger] effects[k] == Effect::Restarted,
    decreases effects.len(),
{
    if effects.len() > 0 {
        let rest = effects.drop_first();
        lemma_a_drain_restarts_only_for_a_replay(rest);
        if effects[0] == Effect::Restarted {
            assert(effects[0] == Effect::Restarted);
        } else {
            if exists|k: int| 0 <= k < effects.len() && #[trigger] effects[k] == Effect::Restarted {
                let k = choose|k: int| 0 <= k < effects.len() && #[trigger] effects[k] == Effect::Restarted;
                assert(rest[k - 1] == effects[k]);
            }
            if exists|k: int| 0 <= k < rest.len() && #[trigger] rest[k] == Effect::Restarted {
                let k = choose|k: int| 0 <= k < rest.len() && #[trigger] rest[k] == Effect::Restarted;
                assert(effects[k + 1] == rest[k]);
            }
        }
    }
}

/// The requests scheduled for `tick`, in the order they were scheduled.
pub open spec fn due_at(scheduled: Seq<(u64, Request)>, tick: u64) -> Seq<Request> {
    scheduled.filter(|entry: (u64, Request)| entry.0 == tick).map_values(
        |entry: (u64, Request)| entry.1,
    )
}

/// The schedule entries for any tick but `tick`, in their order.
pub open spec fn not_due_at(scheduled: Seq<(u64, Request)>, tick: u64) -> Seq<(u64, Request)> {
    scheduled.filter(|entry: (u64, Request)| entry.0 != tick)
}

/// What a `step` would do to a replay.
pub const STEP_STEERS: &'static str = "a replay's length is its recording's, and past the end of a recording a run continues with no input at all, which reproduces nothing";

/// What a `set_component` would do to one.
pub const SET_STEERS: &'static str = "a write leaves the world in a state the recording does not describe, and the band cut cannot say so — a band cut to the length it already had is byte-identical to one that was never cut";

/// What a scene load would do to one.
pub const LOAD_SCENE_STEERS: &'static str = "a world constituted from another file is not the one the recording was made against, and its remaining inputs would arrive in it meaning nothing (ADR-0019)";

/// What a second replay would do to the first.
pub const REPLAY_STEERS: &'static str = "a second recording would abandon the one being reproduced part-way, and neither of the two would then have been replayed";

/// Why a request could not be answered.
///
/// Every variant says what was wrong and what to do about it; the sentence is
/// the whole of the feedback an agent gets.
#[derive(Debug, Clone, PartialEq, Eq)]
pub enum RequestError {
    /// Nothing occupies the slot a name addresses.
    NoSuchEntity { name: EntityName },
    /// The slot exists and holds a different entity than the one named.
    Recycled { name: EntityName, current: EntityName },
    /// Nothing is registered under that stable component name.
    UnknownComponent { name: String, known: Vec<String> },
    /// A command that would change what a replay reproduces arrived during one.
    NotWhileReplaying { command: &'static str, consequence: &'static str },
    /// The recording named for a replay could not be read; the reader's own
    /// message.
    Recording { message: String },
    /// The engine refused to read a component it was asked for; `source` is
    /// what the engine said.
    Engine { name: EntityName, source: String },
    /// The text offered for a component is not a value of that component;
    /// `source` is what the registry's reader said, position included.
    Rejected { name: EntityName, component: String, source: String },
    /// The scene file named for a load is not there to be read; `source` is
    /// what the file system said.
    SceneUnreadable { path: String, source: String },
    /// The scene file named for a load could not be loaded for another reason
    /// about the path itself; `source` is what the anchor reader said.
    Scene { path: String, source: String },
    /// The scene file was read and is not a scene this build can constitute a
    /// world from; `source` is what the loader said.
    SceneStart { path: String, source: String },
    /// The runner refused to start the replay that was asked for.
    Replay { source: RunError },
    /// The world could not be dumped; `source` is what the engine said.
    Dump { source: String },
}

/// What a refused dump adds after the engine's own words: why a dump refuses
/// where a reading of one entity would not.
pub const DUMP_ADVICE: &'static str = ". A dump is of the whole world and refuses to leave anything out, which is what makes it comparable with `narvo --dump`; get_entity is the reading that answers about one entity and skips what the registry does not know";

/// Names separated by a comma and a space.
pub open spec fn comma_list(names: Seq<Seq<char>>) -> Seq<char>
    decreases names.len(),
{
    if names.len() == 0 {
        Seq::empty()
    } else if names.len() == 1 {
        names[0]
    } else {
        comma_list(names.drop_last()) + ", "@ + names.last()
    }
}

/// The sentence a refusal is answered with.
pub open spec fn request_message(error: RequestError) -> Seq<char> {
    match error {
        RequestError::NoSuchEntity { name } => "there is no entity "@ + entity_text(name)
            + " in this world, and slot "@ + decimal_text(name.index as nat)
            + " holds nothing at all; ask list_entities for the entities there are"@,
        RequestError::Recycled { name, current } => "there is no entity "@ + entity_text(name)
            + " in this world: slot "@ + decimal_text(name.index as nat) + " holds "@
            + entity_text(current) + " now, so "@ + entity_text(name)
            + " was despawned and its slot handed out again. Generations count up, so a name from before a despawn never addresses what took its place"@,
        RequestError::UnknownComponent { name, known } => "no component is registered under the stable name \""@
            + name@ + "\"; this world registers "@ + if known@.len() == 0 {
            "no components at all"@
        } else {
            comma_list(known@.map_values(|k: String| k@))
        },
        RequestError::NotWhileReplaying { command, consequence } => command@
            + " is refused during a replay: a replay reproduces the run its recording describes, and "@
            + consequence@
            + ". A replay answers questions and takes no orders — let it finish, or start a live run to steer"@,
        RequestError::Recording { message } => message@,
        RequestError::Engine { name, source } => "entity "@ + entity_text(name)
            + " could not be read: "@ + source@,
        RequestError::Rejected { name, component, source } => "the value offered for \""@
            + component@ + "\" of entity "@ + entity_text(name)
            + " is not one the registry can read: "@ + source@,
        RequestError::SceneUnreadable { path, source } => "the scene "@ + path@
            + " could not be read: "@ + source@
            + ". load_scene takes a path relative to the directory the run was started in"@,
        RequestError::Scene { path, source } => "the scene "@ + path@ + " could not be loaded: "@
            + source@,
        RequestError::SceneStart { path, source } => "the scene "@ + path@
            + " was read and did not load, so the running world is unchanged: "@ + source@,
        RequestError::Replay { source } => "this recording cannot be replayed: "@
            + run_error_message(source),
        RequestError::Dump { source } => "this world cannot be dumped, so there is no state to report: "@
            + source@ + DUMP_ADVICE@,
    }
}

impl RequestError {
    /// The sentence this refusal is answered with.
    pub fn message(&self) -> (text: String)
        ensures
            text@ == request_message(*self),
    {
        match self {
            RequestError::NoSuchEntity { name } => {
                let mut text = "there is no entity ".to_owned();
                text.append(name.text().as_str());
                text.append(" in this world, and slot ");
                append_decimal(&mut text, name.index as u64);
                text.append(" holds nothing at all; ask list_entities for the entities there are");
                text
            },
            RequestError::Recycled { name, current } => {
                let mut text = "there is no entity ".to_owned();
                text.append(name.text().as_str());
                text.append(" in this world: slot ");
                append_decimal(&mut text, name.index as u64);
                text.append(" holds ");
                text.append(current.text().as_str());
                text.append(" now, so ");
                text.append(name.text().as_str());
                text.append(
                    " was despawned and its slot handed out again. Generations count up, so a name from before a despawn never addresses what took its place",
                );
                text
            },
            RequestError::UnknownComponent { name, known } => {
                let mut text = "no component is registered under the stable name \"".to_owned();
                text.append(name.as_str());
                text.append("\"; this world registers ");
                if known.len() == 0 {
                    text.append("no components at all");
                } else {
                    let ghost start = text@;
                    let ghost names = known@.map_values(|k: String| k@);
                    text.append(known[0].as_str());
                    let mut i: usize = 1;
                    assert(names.take(1) =~= seq![names[0]]);
                    while i < known.len()
                        invariant
                            1 <= i <= known@.len(),
                            names == known@.map_values(|k: String| k@),
                            text@ == start + comma_list(names.take(i as int)),
                        decreases known@.len() - i,
                    {
                        assert(names.take(i + 1).drop_last() =~= names.take(i as int));
                        text.append(", ");
                        text.append(known[i].as_str());
                        i = i + 1;
                    }
                    assert(names.take(known@.len() as int) =~= names);
                }
                text
            },
            RequestError::NotWhileReplaying { command, consequence } => {
                let mut text = (*command).to_owned();
                text.append(
                    " is refused during a replay: a replay reproduces the run its recording describes, and ",
                );
                text.append(*consequence);
                text.append(
                    ". A replay answers questions and takes no orders — let it finish, or start a live run to steer",
                );
                text
            },
            RequestError::Recording { message } => message.clone(),
            RequestError::Engine { name, source } => {
                let mut text = "entity ".to_owned();
                text.append(name.text().as_str());
                text.append(" could not be read: ");
                text.append(source.as_str());
                text
            },
            RequestError::Rejected { name, component, source } => {
                let mut text = "the value offered for \"".to_owned();
                text.append(component.as_str());
                text.append("\" of entity ");
                text.append(name.text().as_str());
                text.append(" is not one the registry can read: ");
                text.append(source.as_str());
                text
            },
            RequestError::SceneUnreadable { path, source } => {
                let mut text = "the scene ".to_owned();
                text.append(path.as_str());
                text.append(" could not be read: ");
                text.append(source.as_str());
                text.append(
                    ". load_scene takes a path relative to the directory the run was started in",
                );
                text
            },
            RequestError::Scene { path, source } => {
                let mut text = "the scene ".to_owned();
                text.append(path.as_str());
                text.append(" could not be loaded: ");
                text.append(source.as_str());
                text
            },
            RequestError::SceneStart { path, source } => {
                let mut text = "the scene ".to_owned();
                text.append(path.as_str());
                text.append(" was read and did not load, so the running world is unchanged: ");
                text.append(source.as_str());
                text
            },
            RequestError::Replay { source } => {
                let mut text = "this recording cannot be replayed: ".to_owned();
                text.append(source.message().as_str());
                text
            },
            RequestError::Dump { source } => {
                let mut text = "this world cannot be dumped, so there is no state to report: ".to_owned();
                text.append(source.as_str());
                text.append(DUMP_ADVICE);
                text
            },
        }
    }
}

/// Refuses a command that would change what a replay is reproducing.
///
/// A replay answers questions and takes no orders: the rule is in one place,
/// with the consequence as its parameter.
pub fn refuse_while_replaying(command: &'static str, consequence: &'static str, replaying: bool) -> (refusal:
    Result<(), RequestError>)
    ensures
        replaying ==> refusal == Err::<(), RequestError>(
            RequestError::NotWhileReplaying { command, consequence },
        ),
        !replaying ==> refusal is Ok,
{
    if replaying {
        return Err(RequestError::NotWhileReplaying { command, consequence });
    }
    Ok(())
}

/// The name a steering command is refused under during a replay, and what it
/// would do to the replay; `None` for a read, which a replay answers.
pub open spec fn steering(request: Request) -> Option<(&'static str, &'static str)> {
    match request {
        Request::ListEntities => None,
        Request::GetEntity { .. } => None,
        Request::GetComponent { .. } => None,
        Request::Dump => None,
        Request::SetComponent { .. } => Some(("set_component", SET_STEERS)),
        Request::Step { .. } => Some(("step", STEP_STEERS)),
        Request::LoadScene { .. } => Some(("load_scene", LOAD_SCENE_STEERS)),
        Request::Replay { .. } => Some(("replay", REPLAY_STEERS)),
    }
}

/// The name a steering command is refused under during a replay, and what it
/// would do to the replay; `None` for a read.
///
/// An exhaustive match, so a command added later cannot be classified by
/// omission.
pub fn steers(request: &Request) -> (steer: Option<(&'static str, &'static str)>)
    ensures
        steer == steering(*request),
{
    match request {
        Request::ListEntities | Request::GetEntity { .. } | Request::GetComponent { .. }
        | Request::Dump => None,
        Request::SetComponent { .. } => Some(("set_component", SET_STEERS)),
        Request::Step { .. } => Some(("step", STEP_STEERS)),
        Request::LoadScene { .. } => Some(("load_scene", LOAD_SCENE_STEERS)),
        Request::Replay { .. } => Some(("replay", REPLAY_STEERS)),
    }
}

/// Whether a replay takes `request`: it answers every read and refuses every
/// command that would change what it reproduces, with that command's own
/// consequence. A live run takes everything.
pub fn refuse_request(request: &Request, replaying: bool) -> (refusal: Result<(), RequestError>)
    ensures
        match steering(*request) {
            Some((command, consequence)) => if replaying {
                refusal == Err::<(), RequestError>(
                    RequestError::NotWhileReplaying { command, consequence },
                )
            } else {
                refusal is Ok
            },
            None => refusal is Ok,
        },
{
    match steers(request) {
        Some((command, consequence)) => refuse_while_replaying(command, consequence, replaying),
        None => Ok(()),
    }
}

/// The entity holding the slot a name addresses, the last of them in
/// canonical order, if any does.
pub open spec fn slot_holder(live: Seq<EntityName>, name: EntityName) -> Option<EntityName>
    decreases live.len(),
{
    if live.len() == 0 {
        None
    } else if live.last().index == name.index {
        Some(live.last())
    } else {
        slot_holder(live.drop_last(), name)
    }
}

/// Whether a name addresses a live entity, or the refusal it gets: the slot
/// holds something else now, or nothing at all.
pub open spec fn resolved(live: Seq<EntityName>, name: EntityName) -> Result<(), RequestError> {
    if live.contains(name) {
        Ok(())
    } else {
        match slot_holder(live, name) {
            Some(current) => Err(RequestError::Recycled { name, current }),
            None => Err(RequestError::NoSuchEntity { name }),
        }
    }
}

/// What `slot_holder` finds, by the positions in the slot.
proof fn lemma_slot_holder(live: Seq<EntityName>, name: EntityName)
    ensures
        (forall|j: int| 0 <= j < live.len() ==> !#[trigger] in_slot(live, name, j)) ==> slot_holder(
            live,
            name,
        ) is None,
        forall|k: int|
            #[trigger] in_slot(live, name, k) && (forall|j: int|
                k < j < live.len() ==> !#[trigger] in_slot(live, name, j)) ==> slot_holder(live, name)
                == Some(live[k]),
    decreases live.len(),
{
    if live.len() > 0 {
        let rest = live.drop_last();
        lemma_slot_holder(rest, name);
        assert forall|k: int|
            #[trigger] in_slot(live, name, k) && (forall|j: int|
                k < j < live.len() ==> !#[trigger] in_slot(live, name, j)) implies slot_holder(live, name)
            == Some(live[k]) by {
            if k < live.len() - 1 {
                assert(!in_slot(live, name, live.len() - 1));
                assert(in_slot(rest, name, k));
                assert forall|j: int| k < j < rest.len() implies !#[trigger] in_slot(rest, name, j) by {
                    assert(!in_slot(live, name, j));
                }
            }
        }
        if forall|j: int| 0 <= j < live.len() ==> !#[trigger] in_slot(live, name, j) {
            assert(!in_slot(live, name, live.len() - 1));
            assert forall|j: int| 0 <= j < rest.len() implies !#[trigger] in_slot(rest, name, j) by {
                assert(!in_slot(live, name, j));
            }
        }
    }
}

/// What `resolve` answered, as `resolved` states it.
proof fn lemma_resolve_is_resolved(live: Seq<EntityName>, name: EntityName, found: Result<usize, RequestError>)
    requires
        match found {
            Ok(k) => k < live.len() && live[k as int] == name,
            Err(RequestError::Recycled { name: asked, current }) => asked == name && (forall|j: int|
                0 <= j < live.len() ==> live[j] != name) && exists|k: int|
                #[trigger] in_slot(live, name, k) && live[k] == current && forall|j: int|
                    k < j < live.len() ==> !#[trigger] in_slot(live, name, j),
            Err(RequestError::NoSuchEntity { name: asked }) => asked == name && forall|j: int|
                0 <= j < live.len() ==> !#[trigger] in_slot(live, name, j),
            Err(_) => false,
        },
    ensures
        match found {
            Ok(_) => resolved(live, name) == Ok::<(), RequestError>(()),
            Err(e) => resolved(live, name) == Err::<(), RequestError>(e),
        },
{
    lemma_slot_holder(live, name);
    match found {
        Ok(k) => {
            assert(live[k as int] == name);
            assert(live.contains(name));
            assert(resolved(live, name) == Ok::<(), RequestError>(()));
        },
        Err(RequestError::Recycled { name: asked, current }) => {
            let k = choose|k: int|
                #[trigger] in_slot(live, name, k) && live[k] == current && forall|j: int|
                    k < j < live.len() ==> !#[trigger] in_slot(live, name, j);
            assert(slot_holder(live, name) == Some(live[k]));
            assert(!live.contains(name));
            assert(resolved(live, name) == Err::<(), RequestError>(
                RequestError::Recycled { name, current },
            ));
        },
        Err(RequestError::NoSuchEntity { name: asked }) => {
            assert(!live.contains(name)) by {
                if live.contains(name) {
                    let j = choose|j: int| 0 <= j < live.len() && live[j] == name;
                    assert(in_slot(live, name, j));
                }
            }
            assert(slot_holder(live, name) is None);
        },
        _ => {},
    }
}

/// The components an entity carries, by stable name and value, in the
/// registry's order; or the engine's words for the first component it could
/// not read.
pub open spec fn carried(readings: Seq<ComponentReading>) -> Result<Seq<(Seq<char>, Seq<char>)>, Seq<char>>
    decreases readings.len(),
{
    if readings.len() == 0 {
        Ok(Seq::empty())
    } else {
        match carried(readings.drop_last()) {
            Err(why) => Err(why),
            Ok(before) => match readings.last().reading {
                Reading::Failed(why) => Err(why@),
                Reading::Value(text) => Ok(before.push((readings.last().name@, text@))),
                Reading::Absent => Ok(before),
            },
        }
    }
}

/// The name and value of a reading the entity carries.
pub open spec fn name_and_value(reading: ComponentReading) -> (Seq<char>, Seq<char>) {
    match reading.reading {
        Reading::Value(text) => (reading.name@, text@),
        _ => (reading.name@, Seq::empty()),
    }
}

/// **An entity's answer lists every component it carries, in order, or says
/// which one could not be read.** With no failed reading, the components are
/// exactly the readings that hold a value, in the registry's order, each with
/// its name and value; otherwise the answer is the engine's words for the
/// first reading that failed.
pub proof fn lemma_an_entity_lists_what_it_carries(readings: Seq<ComponentReading>, k: int)
    ensures
        (forall|j: int| 0 <= j < readings.len() ==> !(#[trigger] readings[j].reading is Failed))
            ==> carried(readings) == Ok::<Seq<(Seq<char>, Seq<char>)>, Seq<char>>(
            readings.filter(|r: ComponentReading| r.reading is Value).map_values(
                |r: ComponentReading| name_and_value(r),
            ),
        ),
        (0 <= k < readings.len() && readings[k].reading is Failed && forall|j: int|
            0 <= j < k ==> !(#[trigger] readings[j].reading is Failed)) ==> carried(readings)
            == Err::<Seq<(Seq<char>, Seq<char>)>, Seq<char>>(readings[k].reading->Failed_0@),
    decreases readings.len(),
{
    reveal(Seq::filter);
    if readings.len() > 0 {
        let rest = readings.drop_last();
        lemma_an_entity_lists_what_it_carries(rest, k);
        if forall|j: int| 0 <= j < readings.len() ==> !(#[trigger] readings[j].reading is Failed) {
            assert forall|j: int| 0 <= j < rest.len() implies !(#[trigger] rest[j].reading is Failed) by {
                assert(rest[j] == readings[j]);
            }
            assert(!(readings[readings.len() - 1].reading is Failed));
            if readings.last().reading is Value {
                assert(readings.filter(|r: ComponentReading| r.reading is Value) == rest.filter(
                    |r: ComponentReading| r.reading is Value,
                ).push(readings.last()));
                assert(readings.filter(|r: ComponentReading| r.reading is Value).map_values(
                    |r: ComponentReading| name_and_value(r),
                ) =~= rest.filter(|r: ComponentReading| r.reading is Value).map_values(
                    |r: ComponentReading| name_and_value(r),
                ).push(name_and_value(readings.last())));
            } else {
                assert(readings.filter(|r: ComponentReading| r.reading is Value) == rest.filter(
                    |r: ComponentReading| r.reading is Value,
                ));
            }
        }
        if 0 <= k < readings.len() && readings[k].reading is Failed && forall|j: int|
            0 <= j < k ==> !(#[trigger] readings[j].reading is Failed) {
            if k < readings.len() - 1 {
                assert(rest[k] == readings[k]);
                assert forall|j: int| 0 <= j < k implies !(#[trigger] rest[j].reading is Failed) by {
                    assert(rest[j] == readings[j]);
                }
            } else {
                assert forall|j: int| 0 <= j < rest.len() implies !(#[trigger] rest[j].reading is Failed) by {
                    assert(rest[j] == readings[j]);
                }
            }
        }
    } else {
        assert(readings.filter(|r: ComponentReading| r.reading is Value).map_values(
            |r: ComponentReading| name_and_value(r),
        ) =~= Seq::<(Seq<char>, Seq<char>)>::empty());
    }
}

/// Once a reading has failed, reading further does not change the refusal.
proof fn lemma_carried_stays_failed(readings: Seq<ComponentReading>, i: int)
    requires
        0 <= i <= readings.len(),
        carried(readings.take(i)) is Err,
    ensures
        carried(readings) == carried(readings.take(i)),
    decreases readings.len() - i,
{
    if i < readings.len() {
        assert(readings.take(i + 1).drop_last() =~= readings.take(i));
        lemma_carried_stays_failed(readings, i + 1);
    } else {
        assert(readings.take(i) =~= readings);
    }
}

/// The reading of the first component registered under `name`, if one is.
pub open spec fn reading_named(readings: Seq<ComponentReading>, name: Seq<char>) -> Option<Reading>
    decreases readings.len(),
{
    if readings.len() == 0 {
        None
    } else if readings[0].name@ == name {
        Some(readings[0].reading)
    } else {
        reading_named(readings.drop_first(), name)
    }
}

/// **A component's value is the reading of the first component registered
/// under its name.** Whatever position that is, the first entry of that name
/// is the one read, and a name no entry has reads as nothing.
pub proof fn lemma_the_first_entry_of_a_name_is_the_one_read(
    readings: Seq<ComponentReading>,
    name: Seq<char>,
    k: int,
)
    ensures
        0 <= k < readings.len() && readings[k].name@ == name && (forall|j: int|
            0 <= j < k ==> #[trigger] readings[j].name@ != name) ==> reading_named(readings, name)
            == Some(readings[k].reading),
        (forall|j: int| 0 <= j < readings.len() ==> #[trigger] readings[j].name@ != name)
            ==> reading_named(readings, name) is None,
    decreases readings.len(),
{
    if readings.len() > 0 {
        let rest = readings.drop_first();
        lemma_the_first_entry_of_a_name_is_the_one_read(rest, name, k - 1);
        if 0 < k < readings.len() && readings[k].name@ == name && (forall|j: int|
            0 <= j < k ==> #[trigger] readings[j].name@ != name) {
            assert(readings[0].name@ != name);
            assert(rest[k - 1] == readings[k]);
            assert forall|j: int| 0 <= j < k - 1 implies #[trigger] rest[j].name@ != name by {
                assert(rest[j] == readings[j + 1]);
            }
        }
        if forall|j: int| 0 <= j < readings.len() ==> #[trigger] readings[j].name@ != name {
            assert(readings[0].name@ != name);
            assert forall|j: int| 0 <= j < rest.len() implies #[trigger] rest[j].name@ != name by {
                assert(rest[j] == readings[j + 1]);
            }
        }
    }
}

/// The stable names of the registry, as the readings list them.
pub open spec fn names_of(readings: Seq<ComponentReading>) -> Seq<Seq<char>> {
    readings.map_values(|r: ComponentReading| r.name@)
}

/// The live entities, in canonical order.
fn entity_list(live: &Vec<EntityName>) -> (list: Vec<EntityName>)
    ensures
        list@ == live@,
{
    let mut list: Vec<EntityName> = Vec::new();
    let mut i: usize = 0;
    while i < live.len()
        invariant
            i <= live@.len(),
            list@ == live@.take(i as int),
        decreases live@.len() - i,
    {
        list.push(live[i]);
        i = i + 1;
        assert(list@ =~= live@.take(i as int));
    }
    assert(live@.take(live@.len() as int) =~= live@);
    list
}

/// The components an entity carries, in the registry's order, or the words
/// of the first reading that failed.
fn entity_components(readings: &Vec<ComponentReading>) -> (components: Result<Vec<ComponentValue>, String>)
    ensures
        match carried(readings@) {
            Ok(pairs) => components matches Ok(list) && list@.map_values(
                |c: ComponentValue| (c.name@, c.value@),
            ) == pairs,
            Err(why) => components matches Err(text) && text@ == why,
        },
{
    let mut list: Vec<ComponentValue> = Vec::new();
    let mut i: usize = 0;
    assert(readings@.take(0) =~= Seq::<ComponentReading>::empty());
    while i < readings.len()
        invariant
            i <= readings@.len(),
            carried(readings@.take(i as int)) matches Ok(pairs) && list@.map_values(
                |c: ComponentValue| (c.name@, c.value@),
            ) == pairs,
        decreases readings@.len() - i,
    {
        let ghost before = list@;
        assert(readings@.take(i + 1).drop_last() =~= readings@.take(i as int));
        assert(readings@.take(i + 1).last() == readings@[i as int]);
        match &readings[i].reading {
            Reading::Failed(why) => {
                proof {
                    lemma_carried_stays_failed(readings@, i + 1);
                }
                return Err(why.clone());
            },
            Reading::Value(text) => {
                list.push(ComponentValue { name: readings[i].name.clone(), value: text.clone() });
                assert(list@.map_values(|c: ComponentValue| (c.name@, c.value@)) =~= before.map_values(
                    |c: ComponentValue| (c.name@, c.value@),
                ).push((readings@[i as int].name@, text@)));
            },
            Reading::Absent => {},
        }
        i = i + 1;
    }
    assert(readings@.take(readings@.len() as int) =~= readings@);
    Ok(list)
}

/// The reading of the first component registered under `name`, if one is.
fn find_reading(readings: &Vec<ComponentReading>, name: &str) -> (found: Option<Reading>)
    ensures
        match reading_named(readings@, name@) {
            None => found is None,
            Some(Reading::Absent) => found == Some(Reading::Absent),
            Some(Reading::Value(t)) => found matches Some(Reading::Value(u)) && u@ == t@,
            Some(Reading::Failed(t)) => found matches Some(Reading::Failed(u)) && u@ == t@,
        },
{
    let mut i: usize = 0;
    assert(readings@.subrange(0, readings@.len() as int) =~= readings@);
    while i < readings.len()
        invariant
            i <= readings@.len(),
            reading_named(readings@, name@) == reading_named(
                readings@.subrange(i as int, readings@.len() as int),
                name@,
            ),
        decreases readings@.len() - i,
    {
        let ghost rest = readings@.subrange(i as int, readings@.len() as int);
        assert(rest[0] == readings@[i as int]);
        assert(rest.drop_first() =~= readings@.subrange(i + 1, readings@.len() as int));
        if same_text(readings[i].name.as_str(), name) {
            let found = match &readings[i].reading {
                Reading::Absent => Reading::Absent,
                Reading::Value(t) => Reading::Value(t.clone()),
                Reading::Failed(t) => Reading::Failed(t.clone()),
            };
            return Some(found);
        }
        i = i + 1;
    }
    None
}

/// The registry's names, as the readings list them.
fn registered_names(readings: &Vec<ComponentReading>) -> (names: Vec<String>)
    ensures
        names@.map_values(|k: String| k@) == names_of(readings@),
{
    let mut names: Vec<String> = Vec::new();
    let mut i: usize = 0;
    while i < readings.len()
        invariant
            i <= readings@.len(),
            names@.len() == i,
            names@.map_values(|k: String| k@) == names_of(readings@.take(i as int)),
        decreases readings@.len() - i,
    {
        let ghost before = names@;
        let name = readings[i].name.clone();
        assert(name@ == readings@[i as int].name@);
        names.push(name);
        assert(names@ == before.push(name));
        assert(readings@.take(i + 1) =~= readings@.take(i as int).push(readings@[i as int]));
        assert forall|j: int| 0 <= j <= i implies names@.map_values(|k: String| k@)[j]
            == #[trigger] names_of(readings@.take(i + 1))[j] by {
            if j < i {
                assert(names@[j] == before[j]);
                assert(before.map_values(|k: String| k@)[j] == names_of(readings@.take(i as int))[j]);
                assert(readings@.take(i + 1)[j] == readings@.take(i as int)[j]);
            }
        }
        assert(names@.map_values(|k: String| k@) =~= names_of(readings@.take(i + 1)));
        i = i + 1;
    }
    assert(readings@.take(readings@.len() as int) =~= readings@);
    names
}

/// Answers a read against the world as plain values.
///
/// `live` is the world's entities in canonical order; `readings` is what the
/// registry says of each of its components, in stable-name order, for the
/// entity the request names; `dump` is the canonical dump, or the engine's
/// words for why there is none. Only reads come here: a command that steers
/// is answered by its own handler.
///
/// A name is looked up first, then a component name is checked against the
/// registry, and only then is a value read; the engine's refusal to read a
/// component is the answer rather than a stop.
pub fn read(
    request: &Request,
    live: &Vec<EntityName>,
    readings: &Vec<ComponentReading>,
    dump: Result<String, String>,
    at: Moment,
) -> (answer: Result<Response, RequestError>)
    requires
        steering(*request) is None,
    ensures
        match *request {
            Request::ListEntities => answer matches Ok(Response::ListEntities { entities, ticks_run })
                && entities@ == live@ && ticks_run == ticks_run_at(at),
            Request::Dump => match dump {
                Ok(state) => answer == Ok::<Response, RequestError>(
                    Response::Dump { state, ticks_run: ticks_run_at(at) },
                ),
                Err(source) => answer == Err::<Response, RequestError>(RequestError::Dump { source }),
            },
            Request::GetEntity { entity } => match resolved(live@, entity) {
                Err(refusal) => answer == Err::<Response, RequestError>(refusal),
                Ok(()) => match carried(readings@) {
                    Err(why) => answer matches Err(RequestError::Engine { name, source })
                        && name == entity && source@ == why,
                    Ok(pairs) => answer matches Ok(
                        Response::GetEntity { entity: named, components, ticks_run },
                    ) && named == entity && ticks_run == ticks_run_at(at) && components@.map_values(
                        |c: ComponentValue| (c.name@, c.value@),
                    ) == pairs,
                },
            },
            Request::GetComponent { entity, component } => match resolved(live@, entity) {
                Err(refusal) => answer == Err::<Response, RequestError>(refusal),
                Ok(()) => if !names_of(readings@).contains(component@) {
                    answer matches Err(RequestError::UnknownComponent { name, known }) && name@
                        == component@ && known@.map_values(|k: String| k@) == names_of(readings@)
                } else {
                    match reading_named(readings@, component@) {
                        Some(Reading::Failed(why)) => answer matches Err(
                            RequestError::Engine { name, source },
                        ) && name == entity && source@ == why@,
                        Some(Reading::Value(text)) => answer matches Ok(
                            Response::GetComponent { entity: named, component: asked, value, ticks_run },
                        ) && named == entity && asked@ == component@ && ticks_run == ticks_run_at(at)
                            && (value matches Some(v) && v@ == text@),
                        _ => answer matches Ok(
                            Response::GetComponent { entity: named, component: asked, value, ticks_run },
                        ) && named == entity && asked@ == component@ && ticks_run == ticks_run_at(at)
                            && value is None,
                    }
                },
            },
            _ => false,
        },
        match *request {
            Request::GetComponent { entity, component } => live@.contains(entity) ==> forall|k: int|
                0 <= k < readings@.len() && #[trigger] readings@[k].name@ == component@ && (forall|
                    j: int,
                | 0 <= j < k ==> #[trigger] readings@[j].name@ != component@) ==> match readings@[k].reading {
                    Reading::Value(text) => answer matches Ok(
                        Response::GetComponent { value: Some(v), .. },
                    ) && v@ == text@,
                    Reading::Absent => answer matches Ok(Response::GetComponent { value: None, .. }),
                    Reading::Failed(why) => answer matches Err(RequestError::Engine { source, .. })
                        && source@ == why@,
                },
            _ => true,
        },
{
    let ticks_run = at.ticks_run();
    match request {
        Request::ListEntities => Ok(Response::ListEntities { entities: entity_list(live), ticks_run }),
        Request::Dump => match dump {
            Ok(state) => Ok(Response::Dump { state, ticks_run }),
            Err(source) => Err(RequestError::Dump { source }),
        },
        Request::GetEntity { entity } => {
            let found = resolve(*entity, live);
            proof {
                lemma_resolve_is_resolved(live@, *entity, found);
            }
            match found {
                Err(refusal) => Err(refusal),
                Ok(_) => match entity_components(readings) {
                    Err(source) => Err(RequestError::Engine { name: *entity, source }),
                    Ok(components) => Ok(
                        Response::GetEntity { entity: *entity, components, ticks_run },
                    ),
                },
            }
        },
        Request::GetComponent { entity, component } => {
            let found = resolve(*entity, live);
            proof {
                lemma_resolve_is_resolved(live@, *entity, found);
                assert forall|k: int|
                    0 <= k < readings@.len() && #[trigger] readings@[k].name@ == component@ && (forall|
                        j: int,
                    | 0 <= j < k ==> #[trigger] readings@[j].name@ != component@) implies reading_named(
                    readings@,
                    component@,
                ) == Some(readings@[k].reading) && names_of(readings@).contains(component@) by {
                    lemma_the_first_entry_of_a_name_is_the_one_read(readings@, component@, k);
                    assert(names_of(readings@)[k] == component@);
                }
            }
            match found {
                Err(refusal) => Err(refusal),
                Ok(_) => {
                    let names = registered_names(readings);
                    let checked = known_component(component.as_str(), &names);
                    proof {
                        assert(registers(names@, component@) == names_of(readings@).contains(
                            component@,
                        )) by {
                            if registers(names@, component@) {
                                let k = choose|k: int|
                                    0 <= k < names@.len() && #[trigger] names@[k]@ == component@;
                                assert(names@.map_values(|t: String| t@)[k] == names_of(readings@)[k]);
                            }
                            if names_of(readings@).contains(component@) {
                                let k = choose|k: int|
                                    0 <= k < names_of(readings@).len() && names_of(readings@)[k]
                                        == component@;
                                assert(names@.map_values(|t: String| t@)[k] == names_of(readings@)[k]);
                            }
                        }
                    }
                    match checked {
                        Err(refusal) => Err(refusal),
                        Ok(()) => match find_reading(readings, component.as_str()) {
                            Some(Reading::Failed(source)) => Err(
                                RequestError::Engine { name: *entity, source },
                            ),
                            Some(Reading::Value(text)) => Ok(
                                Response::GetComponent {
                                    entity: *entity,
                                    component: component.clone(),
                                    value: Some(text),
                                    ticks_run,
                                },
                            ),
                            _ => Ok(
                                Response::GetComponent {
                                    entity: *entity,
                                    component: component.clone(),
                                    value: None,
                                    ticks_run,
                                },
                            ),
                        },
                    }
                },
            }
        },
        _ => {
            proof {
                assert(false);
            }
            Err(RequestError::Dump { source: String::new() })
        },
    }
}

/// Grants the run more ticks.
///
/// Adds rather than sets, so two commands of one tick each grant two ticks.
/// Saturating, so an enormous grant is a run that effectively never ends rather
/// than an overflow. Refused during a replay, whose length is its recording's.
pub fn step(ticks: u64, replaying: bool, budget: &mut u64, at: Moment) -> (answer: Result<
    Response,
    RequestError,
>)
    ensures
        replaying ==> answer == Err::<Response, RequestError>(
            RequestError::NotWhileReplaying { command: "step", consequence: STEP_STEERS },
        ) && *final(budget) == *old(budget),
        !replaying ==> *final(budget) == (if *old(budget) + ticks > u64::MAX {
            u64::MAX
        } else {
            (*old(budget) + ticks) as u64
        }) && answer == Ok::<Response, RequestError>(
            Response::Step { granted: *final(budget), ticks_run: ticks_run_at(at) },
        ),
{
    refuse_while_replaying("step", STEP_STEERS, replaying)?;
    *budget = budget.saturating_add(ticks);
    Ok(Response::Step { granted: *budget, ticks_run: at.ticks_run() })
}

/// The answer a request gets, and what giving it did, from how handling it
/// went.
///
/// An accepted request is answered with what its handler produced and has the
/// effect its command has; a refused one is answered with the sentence that
/// says why, and did nothing at all: the world is untouched and the budget did
/// not move, so neither the band's cut nor its length has anything to follow.
pub fn settle(request: &Request, outcome: Result<Response, RequestError>) -> (settled: (Response, Effect))
    ensures
        match outcome {
            Ok(response) => settled == (response, effect_of(*request, true)),
            Err(error) => settled.1 == Effect::Nothing && (settled.0 matches Response::Error {
                message,
            } && message@ == request_message(error)),
        },
{
    match outcome {
        Ok(response) => {
            let done = effect(request, true);
            (response, done)
        },
        Err(error) => (Response::Error { message: error.message() }, Effect::Nothing),
    }
}

/// Whether some registered name is `name`.
pub open spec fn registers(registered: Seq<String>, name: Seq<char>) -> bool {
    exists|k: int| 0 <= k < registered.len() && #[trigger] registered[k]@ == name
}

/// Checks a component name against the names a world registers, in the
/// registry's own order.
///
/// Asked before any lookup, so that an unknown name is answered with the names
/// there are rather than with advice meant for whoever builds the world.
pub fn known_component(name: &str, registered: &Vec<String>) -> (checked: Result<(), RequestError>)
    ensures
        registers(registered@, name@) ==> checked is Ok,
        !registers(registered@, name@) ==> (checked matches Err(
            RequestError::UnknownComponent { name: asked, known },
        ) && asked@ == name@ && known@.map_values(|k: String| k@) == registered@.map_values(
            |k: String| k@,
        )),
{
    let mut i: usize = 0;
    while i < registered.len()
        invariant
            i <= registered@.len(),
            forall|j: int| 0 <= j < i ==> registered@[j]@ != name@,
        decreases registered@.len() - i,
    {
        if same_text(registered[i].as_str(), name) {
            return Ok(());
        }
        i = i + 1;
    }
    let mut known: Vec<String> = Vec::new();
    let mut k: usize = 0;
    while k < registered.len()
        invariant
            k <= registered@.len(),
            known@.len() == k,
            forall|j: int| 0 <= j < k ==> #[trigger] known@[j]@ == registered@[j]@,
        decreases registered@.len() - k,
    {
        known.push(registered[k].clone());
        k = k + 1;
    }
    assert(known@.map_values(|t: String| t@) =~= registered@.map_values(|t: String| t@));
    Err(RequestError::UnknownComponent { name: name.to_owned(), known })
}

/// Whether a live entity is in the slot a name addresses.
pub open spec fn in_slot(live: Seq<EntityName>, name: EntityName, k: int) -> bool {
    0 <= k < live.len() && live[k].index == name.index
}

/// Finds the live entity a name addresses, or says why there is none.
///
/// A lookup and not a conversion: the only entity it can return is one the
/// world itself listed, so a name that addresses nothing cannot become a
/// handle that addresses something. `live` is the world's entities in
/// canonical order; the answer is the position of the one named.
pub fn resolve(name: EntityName, live: &Vec<EntityName>) -> (found: Result<usize, RequestError>)
    ensures
        match found {
            Ok(k) => k < live@.len() && live@[k as int] == name && forall|j: int|
                0 <= j < k ==> live@[j] != name,
            Err(RequestError::Recycled { name: asked, current }) => asked == name && (forall|j: int|
                0 <= j < live@.len() ==> live@[j] != name) && exists|k: int|
                #[trigger] in_slot(live@, name, k) && live@[k] == current && forall|j: int|
                    k < j < live@.len() ==> !#[trigger] in_slot(live@, name, j),
            Err(RequestError::NoSuchEntity { name: asked }) => asked == name && forall|j: int|
                0 <= j < live@.len() ==> !#[trigger] in_slot(live@, name, j),
            Err(_) => false,
        },
{
    let mut in_that_slot: Option<EntityName> = None;
    let ghost mut at: int = -1;
    let mut i: usize = 0;
    while i < live.len()
        invariant
            i <= live@.len(),
            forall|j: int| 0 <= j < i ==> live@[j] != name,
            match in_that_slot {
                None => forall|j: int| 0 <= j < i ==> !#[trigger] in_slot(live@, name, j),
                Some(current) => 0 <= at < i && in_slot(live@, name, at) && live@[at] == current
                    && forall|j: int| at < j < i ==> !#[trigger] in_slot(live@, name, j),
            },
        decreases live@.len() - i,
    {
        let id = live[i];
        if id.index == name.index {
            if id.generation == name.generation {
                return Ok(i);
            }
            // A slot holds at most one live entity; remember what holds it.
            in_that_slot = Some(id);
            proof {
                at = i as int;
            }
        }
        i = i + 1;
    }
    match in_that_slot {
        Some(current) => {
            assert(in_slot(live@, name, at));
            Err(RequestError::Recycled { name, current })
        },
        None => Err(RequestError::NoSuchEntity { name }),
    }
}

} // verus!
