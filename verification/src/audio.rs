//! The click demo's cue mapping: what its counters should sound like.
//!
//! The extraction reads counters and never writes them. What it remembers
//! between ticks lives in a [`CueMemory`] the runner owns, outside the world.
//!
//! It runs once per tick, never once per frame: a counter is cumulative, so the
//! movement since the last tick is exactly how many purchases arrived, and three
//! buys inside one catch-up burst are three clicks rather than one.
//!
//! A counter is read as a [`Tally`]: which entity carries it, which action it
//! counts, and its count. Entities are named by their handle's number, in the
//! world's canonical ascending order.

use std::collections::BTreeMap;

use vstd::prelude::*;

use crate::text::same_text;

verus! {

broadcast use vstd::std_specs::btree::group_btree_axioms;

/// The action the click demo counts, and the only one that makes a sound.
pub const BUY: &'static str = "buy";

/// The count at which the second music layer arrives.
pub const LAYER_AT: i64 = 3;

/// How long the layer takes to fade in, in ticks: one second at the default
/// tick rate.
pub const LAYER_TWEEN_TICKS: u32 = 60;

/// One counter as the world holds it at the end of a tick.
#[derive(Debug, Clone, PartialEq, Eq)]
pub struct Tally {
    /// The handle of the entity carrying the counter.
    pub entity: u64,
    /// The action the counter counts.
    pub action: String,
    /// How many times that action has happened, in total.
    pub count: i64,
}

/// The three sounds the demo makes.
#[derive(Debug, Clone, Copy, PartialEq, Eq, Structural)]
pub enum Sound {
    /// The music bed, started once.
    MusicBase,
    /// One click per purchase, on the effects channel.
    Click,
    /// The second music layer, faded in over [`LAYER_TWEEN_TICKS`] ticks.
    MusicLayer,
}

/// A sound asked for at a tick.
#[derive(Debug, Clone, Copy, PartialEq, Eq, Structural)]
pub struct Cue {
    /// The tick that asked for it.
    pub tick: u64,
    /// What is to be heard.
    pub sound: Sound,
}

/// What the extractor remembers between ticks.
#[derive(Debug)]
pub struct CueMemory {
    /// The last count seen for each counter, by entity.
    pub counts: BTreeMap<u64, i64>,
    /// Whether the music bed has been started.
    pub started: bool,
    /// Whether the layer has been asked for.
    pub layered: bool,
}

/// A counter as a value.
pub struct TallyModel {
    pub entity: u64,
    pub action: Seq<char>,
    pub count: i64,
}

impl View for Tally {
    type V = TallyModel;

    open spec fn view(&self) -> TallyModel {
        TallyModel { entity: self.entity, action: self.action@, count: self.count }
    }
}

/// The counters as values.
pub open spec fn tallies_of(tallies: Seq<Tally>) -> Seq<TallyModel> {
    tallies.map_values(|t: Tally| t@)
}

/// Every counter sits on an entity of its own, as a world's counters do.
pub open spec fn distinct_entities(tallies: Seq<TallyModel>) -> bool {
    forall|i: int, j: int|
        0 <= i < tallies.len() && 0 <= j < tallies.len() && i != j ==> tallies[i].entity
            != tallies[j].entity
}

/// The counts by entity, each counter laid over the ones before it.
pub open spec fn baseline(tallies: Seq<TallyModel>) -> Map<u64, i64>
    decreases tallies.len(),
{
    if tallies.len() == 0 {
        Map::empty()
    } else {
        baseline(tallies.drop_last()).insert(tallies.last().entity, tallies.last().count)
    }
}

/// How many purchases a counter says arrived since `memory` last saw it.
///
/// A counter never seen before establishes a baseline and sounds nothing; a
/// count that went down sounds nothing either.
pub open spec fn arrivals(memory: Map<u64, i64>, tally: TallyModel) -> nat {
    if memory.contains_key(tally.entity) && tally.count > memory[tally.entity] {
        (tally.count - memory[tally.entity]) as nat
    } else {
        0
    }
}

/// `n` clicks at `tick`.
pub open spec fn clicks_at(tick: u64, n: nat) -> Seq<Cue> {
    Seq::new(n, |_i: int| Cue { tick, sound: Sound::Click })
}

/// The clicks a tick's counters produce, in the counters' order.
pub open spec fn clicks(memory: Map<u64, i64>, tallies: Seq<TallyModel>, tick: u64) -> Seq<Cue>
    decreases tallies.len(),
{
    if tallies.len() == 0 {
        Seq::empty()
    } else {
        clicks(memory, tallies.drop_last(), tick) + if tallies.last().action == BUY@ {
            clicks_at(tick, arrivals(memory, tallies.last()))
        } else {
            Seq::empty()
        }
    }
}

/// Everything the purchase counters have counted, together.
pub open spec fn bought(tallies: Seq<TallyModel>) -> int
    decreases tallies.len(),
{
    if tallies.len() == 0 {
        0
    } else {
        bought(tallies.drop_last()) + if tallies.last().action == BUY@ {
            tallies.last().count as int
        } else {
            0
        }
    }
}

/// Whether every running total of the purchase counters fits the counter type.
pub open spec fn totals_fit(tallies: Seq<TallyModel>) -> bool {
    forall|k: int| 0 <= k <= tallies.len() ==> i64::MIN <= #[trigger] bought(tallies.take(k)) <= i64::MAX
}

/// Whether each counter's movement since `memory` fits the counter type.
pub open spec fn movements_fit(memory: Map<u64, i64>, tallies: Seq<TallyModel>) -> bool {
    forall|k: int|
        0 <= k < tallies.len() && memory.contains_key(#[trigger] tallies[k].entity) ==> i64::MIN
            <= tallies[k].count - memory[tallies[k].entity] <= i64::MAX
}

/// The cues one tick produces: the bed if it has not started, one click per
/// purchase, and the layer once the purchases reach [`LAYER_AT`].
pub open spec fn cues_for(
    memory: Map<u64, i64>,
    started: bool,
    layered: bool,
    tallies: Seq<TallyModel>,
    tick: u64,
) -> Seq<Cue> {
    if tallies.len() == 0 {
        Seq::empty()
    } else {
        (if started {
            Seq::empty()
        } else {
            seq![Cue { tick, sound: Sound::MusicBase }]
        }) + clicks(memory, tallies, tick) + if !layered && bought(tallies) >= LAYER_AT {
            seq![Cue { tick, sound: Sound::MusicLayer }]
        } else {
            Seq::empty()
        }
    }
}

impl CueMemory {
    /// A memory whose baseline is the counters as they stand.
    ///
    /// A counter's value is state and its movement is the event, so a scene
    /// authored with a count of five is not heard as five purchases.
    pub fn new(tallies: &Vec<Tally>) -> (memory: CueMemory)
        ensures
            memory.counts@ == baseline(tallies_of(tallies@)),
            !memory.started,
            !memory.layered,
    {
        let mut counts: BTreeMap<u64, i64> = BTreeMap::new();
        let mut i: usize = 0;
        while i < tallies.len()
            invariant
                i <= tallies@.len(),
                counts@ == baseline(tallies_of(tallies@).take(i as int)),
            decreases tallies@.len() - i,
        {
            let ghost seen = tallies_of(tallies@).take(i + 1);
            assert(seen.drop_last() =~= tallies_of(tallies@).take(i as int));
            counts.insert(tallies[i].entity, tallies[i].count);
            i = i + 1;
        }
        assert(tallies_of(tallies@).take(tallies@.len() as int) =~= tallies_of(tallies@));
        CueMemory { counts, started: false, layered: false }
    }
}

/// Appends `n` clicks at `tick`.
fn push_clicks(cues: &mut Vec<Cue>, tick: u64, n: i64)
    requires
        n >= 0,
    ensures
        final(cues)@ == old(cues)@ + clicks_at(tick, n as nat),
{
    let mut k: i64 = 0;
    while k < n
        invariant
            0 <= k <= n,
            cues@ == old(cues)@ + clicks_at(tick, k as nat),
        decreases n - k,
    {
        cues.push(Cue { tick, sound: Sound::Click });
        k = k + 1;
        assert(cues@ =~= old(cues)@ + clicks_at(tick, k as nat));
    }
}

/// The cues tick `tick` produced, given the counters it left behind.
///
/// Nothing at all for a world with no counter: that is not the click demo.
/// Otherwise the bed first if it has not started, then one click per purchase
/// in the counters' order, then the layer the first time the purchase counters
/// together reach [`LAYER_AT`].
pub fn cues_of(tallies: &Vec<Tally>, tick: u64, memory: &mut CueMemory) -> (cues: Vec<Cue>)
    requires
        distinct_entities(tallies_of(tallies@)),
        totals_fit(tallies_of(tallies@)),
        movements_fit(old(memory).counts@, tallies_of(tallies@)),
    ensures
        cues@ == cues_for(
            old(memory).counts@,
            old(memory).started,
            old(memory).layered,
            tallies_of(tallies@),
            tick,
        ),
        tallies@.len() == 0 ==> *final(memory) == *old(memory),
        tallies@.len() > 0 ==> {
            &&& final(memory).started
            &&& final(memory).layered == (old(memory).layered || bought(tallies_of(tallies@))
                >= LAYER_AT)
            &&& final(memory).layered == (old(memory).layered || purchases(tallies_of(tallies@))
                >= LAYER_AT)
            &&& final(memory).counts@ == old(memory).counts@.union_prefer_right(
                baseline(tallies_of(tallies@)),
            )
        },
{
    let ghost all = tallies_of(tallies@);
    let ghost before = memory.counts@;
    if tallies.len() == 0 {
        return Vec::new();
    }
    let mut cues: Vec<Cue> = Vec::new();
    if !memory.started {
        memory.started = true;
        cues.push(Cue { tick, sound: Sound::MusicBase });
    }
    let ghost opening = cues@;
    assert(opening =~= (if old(memory).started {
        Seq::empty()
    } else {
        seq![Cue { tick, sound: Sound::MusicBase }]
    }));
    let mut total: i64 = 0;
    let mut i: usize = 0;
    while i < tallies.len()
        invariant
            all == tallies_of(tallies@),
            distinct_entities(all),
            totals_fit(all),
            movements_fit(before, all),
            i <= tallies@.len(),
            total == bought(all.take(i as int)),
            cues@ == opening + clicks(before, all.take(i as int), tick),
            memory.counts@ == before.union_prefer_right(baseline(all.take(i as int))),
            memory.started,
            memory.layered == old(memory).layered,
            opening == (if old(memory).started {
                Seq::empty()
            } else {
                seq![Cue { tick, sound: Sound::MusicBase }]
            }),
        decreases tallies@.len() - i,
    {
        let ghost seen = all.take(i + 1);
        assert(seen.drop_last() =~= all.take(i as int));
        assert(seen.last() == all[i as int]);
        let tally = &tallies[i];
        // The counter was last seen in `before`: no earlier counter shares its
        // entity.
        assert(!baseline(all.take(i as int)).contains_key(all[i as int].entity)) by {
            lemma_baseline_keys(all.take(i as int), all[i as int].entity);
        }
        let previous = memory.counts.insert(tally.entity, tally.count);
        let arrived: i64 = match previous {
            None => 0,
            Some(p) => if tally.count > p {
                tally.count - p
            } else {
                0
            },
        };
        assert(arrived == arrivals(before, all[i as int]));
        if same_text(tally.action.as_str(), BUY) {
            push_clicks(&mut cues, tick, arrived);
            assert(all.take(i + 1) =~= all.take(i as int).push(all[i as int]));
            assert(totals_fit(all) ==> i64::MIN <= bought(all.take(i + 1)) <= i64::MAX);
            total = total + tally.count;
        }
        i = i + 1;
        assert(cues@ =~= opening + clicks(before, all.take(i as int), tick));
        assert(memory.counts@ =~= before.union_prefer_right(baseline(all.take(i as int))));
    }
    assert(all.take(tallies@.len() as int) =~= all);
    if !memory.layered && total >= LAYER_AT {
        memory.layered = true;
        cues.push(Cue { tick, sound: Sound::MusicLayer });
    }
    proof {
        lemma_bought_is_the_sum(all);
    }
    cues
}

/// Every key of the baseline belongs to one of the counters it was laid from.
proof fn lemma_baseline_keys(tallies: Seq<TallyModel>, entity: u64)
    ensures
        baseline(tallies).contains_key(entity) <==> exists|k: int|
            0 <= k < tallies.len() && tallies[k].entity == entity,
    decreases tallies.len(),
{
    if tallies.len() > 0 {
        lemma_baseline_keys(tallies.drop_last(), entity);
        if baseline(tallies.drop_last()).contains_key(entity) {
            let k = choose|k: int| 0 <= k < tallies.drop_last().len() && tallies.drop_last()[k].entity == entity;
            assert(tallies[k].entity == entity);
        }
        if exists|k: int| 0 <= k < tallies.len() && tallies[k].entity == entity {
            let k = choose|k: int| 0 <= k < tallies.len() && tallies[k].entity == entity;
            if k < tallies.len() - 1 {
                assert(tallies.drop_last()[k].entity == entity);
            }
        }
    }
}


/// Every cue in the clicks is a click at `tick`.
proof fn lemma_clicks_are_clicks(memory: Map<u64, i64>, tallies: Seq<TallyModel>, tick: u64)
    ensures
        forall|i: int|
            0 <= i < clicks(memory, tallies, tick).len() ==> #[trigger] clicks(
                memory,
                tallies,
                tick,
            )[i] == (Cue { tick, sound: Sound::Click }),
    decreases tallies.len(),
{
    if tallies.len() > 0 {
        lemma_clicks_are_clicks(memory, tallies.drop_last(), tick);
    }
}

/// **The bed starts once and the layer arrives once.** A memory that has
/// started the bed never asks for it again, and one that has raised the layer
/// never raises it again, however long the run continues.
pub proof fn lemma_bed_and_layer_are_asked_for_once(
    memory: Map<u64, i64>,
    started: bool,
    layered: bool,
    tallies: Seq<TallyModel>,
    tick: u64,
)
    ensures
        started ==> forall|i: int|
            0 <= i < cues_for(memory, started, layered, tallies, tick).len() ==> (#[trigger] cues_for(
                memory,
                started,
                layered,
                tallies,
                tick,
            )[i]).sound != Sound::MusicBase,
        layered ==> forall|i: int|
            0 <= i < cues_for(memory, started, layered, tallies, tick).len() ==> (#[trigger] cues_for(
                memory,
                started,
                layered,
                tallies,
                tick,
            )[i]).sound != Sound::MusicLayer,
{
    lemma_clicks_are_clicks(memory, tallies, tick);
    let c = clicks(memory, tallies, tick);
    if tallies.len() > 0 {
        let opening: Seq<Cue> = if started {
            Seq::empty()
        } else {
            seq![Cue { tick, sound: Sound::MusicBase }]
        };
        let closing: Seq<Cue> = if !layered && bought(tallies) >= LAYER_AT {
            seq![Cue { tick, sound: Sound::MusicLayer }]
        } else {
            Seq::empty()
        };
        let all = cues_for(memory, started, layered, tallies, tick);
        assert(all == opening + c + closing);
        assert forall|i: int| 0 <= i < all.len() implies (started ==> all[i].sound
            != Sound::MusicBase) && (layered ==> all[i].sound != Sound::MusicLayer) by {
            if i < opening.len() {
            } else if i < opening.len() + c.len() {
                assert(all[i] == c[i - opening.len()]);
            } else {
                assert(all[i] == closing[i - opening.len() - c.len()]);
            }
        }
    }
}

/// The count of a purchase counter, and nothing for any other counter.
pub open spec fn purchase_count(tally: TallyModel) -> int {
    if tally.action == BUY@ {
        tally.count as int
    } else {
        0
    }
}

/// The sum of the purchase counters' counts, as a plain sum over the
/// counters.
pub open spec fn purchases(tallies: Seq<TallyModel>) -> int {
    tallies.map_values(|t: TallyModel| purchase_count(t)).fold_left(0int, |sum: int, n: int| sum + n)
}

/// What the layer decision counts is every purchase counter's count added
/// together, whichever counter comes last.
proof fn lemma_bought_is_the_sum(tallies: Seq<TallyModel>)
    ensures
        bought(tallies) == purchases(tallies),
    decreases tallies.len(),
{
    if tallies.len() > 0 {
        lemma_bought_is_the_sum(tallies.drop_last());
        let counts = tallies.map_values(|t: TallyModel| purchase_count(t));
        assert(counts.drop_last() =~= tallies.drop_last().map_values(|t: TallyModel| purchase_count(t)));
    }
}

/// **The layer arrives when the purchases together reach it.** For a memory
/// that has not raised the layer yet, a tick's cues end with the layer exactly
/// when the counts of all the purchase counters, added together, are at least
/// [`LAYER_AT`]; and it is then that the memory records the layer as raised.
/// No purchase counter is left out of the sum, whichever comes last.
pub proof fn lemma_the_layer_arrives_when_purchases_reach_it(
    memory: Map<u64, i64>,
    started: bool,
    tallies: Seq<TallyModel>,
    tick: u64,
)
    requires
        tallies.len() > 0,
    ensures
        ({
            let cues = cues_for(memory, started, false, tallies, tick);
            (cues.len() > 0 && cues.last() == (Cue { tick, sound: Sound::MusicLayer }))
                <==> purchases(tallies) >= LAYER_AT
        }),
        (bought(tallies) >= LAYER_AT) == (purchases(tallies) >= LAYER_AT),
{
    lemma_bought_is_the_sum(tallies);
    lemma_clicks_are_clicks(memory, tallies, tick);
    let c = clicks(memory, tallies, tick);
    let opening: Seq<Cue> = if started {
        Seq::empty()
    } else {
        seq![Cue { tick, sound: Sound::MusicBase }]
    };
    let cues = cues_for(memory, started, false, tallies, tick);
    if purchases(tallies) >= LAYER_AT {
        assert(cues == opening + c + seq![Cue { tick, sound: Sound::MusicLayer }]);
    } else {
        assert(cues == opening + c + Seq::<Cue>::empty());
        assert(cues =~= opening + c);
        if cues.len() > 0 {
            if c.len() > 0 {
                assert(cues.last() == c[c.len() - 1]);
            } else {
                assert(cues.last() == opening.last());
            }
        }
    }
}

/// How many purchases a counter says arrived, when it is a purchase counter.
pub open spec fn purchase_arrivals(memory: Map<u64, i64>, tally: TallyModel) -> int {
    if tally.action == BUY@ {
        arrivals(memory, tally) as int
    } else {
        0
    }
}

/// Every purchase that arrived at any purchase counter, as a plain sum over
/// the counters.
pub open spec fn arrived(memory: Map<u64, i64>, tallies: Seq<TallyModel>) -> int {
    tallies.map_values(|t: TallyModel| purchase_arrivals(memory, t)).fold_left(
        0int,
        |sum: int, n: int| sum + n,
    )
}

/// The clicks are one per purchase that arrived, whichever counter it
/// arrived at.
proof fn lemma_clicks_count_every_arrival(memory: Map<u64, i64>, tallies: Seq<TallyModel>, tick: u64)
    ensures
        arrived(memory, tallies) >= 0,
        clicks(memory, tallies, tick) == clicks_at(tick, arrived(memory, tallies) as nat),
    decreases tallies.len(),
{
    if tallies.len() > 0 {
        lemma_clicks_count_every_arrival(memory, tallies.drop_last(), tick);
        let all = tallies.map_values(|t: TallyModel| purchase_arrivals(memory, t));
        assert(all.drop_last() =~= tallies.drop_last().map_values(
            |t: TallyModel| purchase_arrivals(memory, t),
        ));
        let before = arrived(memory, tallies.drop_last());
        if tallies.last().action == BUY@ {
            assert(clicks(memory, tallies, tick) =~= clicks_at(tick, arrived(memory, tallies) as nat));
        } else {
            assert(clicks(memory, tallies, tick) =~= clicks_at(tick, before as nat));
        }
    } else {
        assert(clicks(memory, tallies, tick) =~= clicks_at(tick, 0));
    }
}

/// **A tick sounds what its counters say.** For a world with counters, a
/// tick's cues are the bed if it has not started, then one click for every
/// purchase that arrived at any purchase counter since the memory last saw
/// it, then the layer if it has not been raised and the purchase counters'
/// counts together reach [`LAYER_AT`]; nothing else.
pub proof fn lemma_a_tick_sounds_what_its_counters_say(
    memory: Map<u64, i64>,
    started: bool,
    layered: bool,
    tallies: Seq<TallyModel>,
    tick: u64,
)
    requires
        tallies.len() > 0,
    ensures
        arrived(memory, tallies) >= 0,
        cues_for(memory, started, layered, tallies, tick) == (if started {
            Seq::empty()
        } else {
            seq![Cue { tick, sound: Sound::MusicBase }]
        }) + clicks_at(tick, arrived(memory, tallies) as nat) + (if !layered && purchases(tallies)
            >= LAYER_AT {
            seq![Cue { tick, sound: Sound::MusicLayer }]
        } else {
            Seq::empty()
        }),
{
    lemma_clicks_count_every_arrival(memory, tallies, tick);
    lemma_bought_is_the_sum(tallies);
}

/// The clicks a counter's whole history makes, one tick at a time.
pub open spec fn clicks_over(entity: u64, counts: Seq<i64>) -> nat
    decreases counts.len(),
{
    if counts.len() < 2 {
        0
    } else {
        clicks_over(entity, counts.drop_last()) + arrivals(
            map![entity => counts[counts.len() - 2]],
            TallyModel { entity, action: BUY@, count: counts.last() },
        )
    }
}

/// **Counting is lossless.** A purchase counter that only ever rises, read
/// once per tick against what the memory saw the tick before, clicks exactly
/// as often as it rose in total — however the purchases were spread over the
/// ticks, a catch-up burst included.
pub proof fn lemma_every_purchase_clicks_once(entity: u64, counts: Seq<i64>)
    requires
        counts.len() >= 1,
        forall|i: int, j: int| 0 <= i <= j < counts.len() ==> counts[i] <= counts[j],
    ensures
        clicks_over(entity, counts) == counts.last() - counts[0],
    decreases counts.len(),
{
    if counts.len() >= 2 {
        lemma_every_purchase_clicks_once(entity, counts.drop_last());
        assert(map![entity => counts[counts.len() - 2]].contains_key(entity));
    }
}

} // verus!
