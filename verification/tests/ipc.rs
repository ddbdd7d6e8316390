//! The agent seam's bookkeeping: moments, the band, the budget and names.

use narvo_app::ipc::{
    BandChange, Channel, Effect, EntityName, Inbox, Moment, Request, RequestError, Response,
    STEP_STEERS, Silent, effect, resolve, step,
};

fn name(index: u32, generation: u32) -> EntityName {
    EntityName { index, generation }
}

#[test]
fn inside_a_tick_its_systems_have_already_run() {
    assert_eq!(Moment::Tick(0).ticks_run(), 1);
    assert_eq!(Moment::Tick(299).ticks_run(), 300);
    assert_eq!(Moment::Tick(u64::MAX).ticks_run(), u64::MAX);
    assert_eq!(Moment::Waiting { ticks_run: 0 }.ticks_run(), 0);
    assert_eq!(Moment::Tick(4).tick(), Some(4));
    assert_eq!(Moment::Waiting { ticks_run: 4 }.tick(), None);
}

#[test]
fn a_silent_channel_is_nobody() {
    let mut channel = Silent;
    assert!(channel.arrived().is_empty());
    assert!(channel.awaited().is_none());
    assert!(!channel.attached());
    channel.answered(&[]);
}

#[test]
fn requests_are_answered_once_in_the_order_they_arrived() {
    let mut inbox = Inbox::new();
    inbox.push(Request::ListEntities);
    inbox.push(Request::Dump);
    assert_eq!(inbox.next_request(), Some(Request::ListEntities));
    assert_eq!(inbox.next_request(), Some(Request::Dump));
    assert_eq!(inbox.next_request(), None);
}

#[test]
fn the_band_is_cut_at_the_first_accepted_write_and_not_again() {
    let mut inbox = Inbox::new();
    assert!(inbox.band_is_open());
    let answer = Response::Error { message: "x".to_owned() };

    assert_eq!(inbox.record(answer.clone(), Effect::Nothing, Moment::Tick(3), 10), BandChange::Keep);
    assert!(inbox.band_is_open());
    assert_eq!(
        inbox.record(answer.clone(), Effect::Granted, Moment::Tick(3), 12),
        BandChange::ExtendTo(12)
    );
    assert_eq!(
        inbox.record(answer.clone(), Effect::Wrote, Moment::Tick(4), 12),
        BandChange::CutTo(5)
    );
    assert!(!inbox.band_is_open());
    assert_eq!(inbox.record(answer.clone(), Effect::Restarted, Moment::Tick(8), 12), BandChange::Keep);
    assert_eq!(inbox.record(answer, Effect::Granted, Moment::Tick(8), 20), BandChange::Keep);

    let answers = inbox.take_answers();
    assert_eq!(answers.len(), 5);
    assert!(inbox.take_answers().is_empty());
}

#[test]
fn a_write_while_waiting_cuts_at_the_ticks_that_ran() {
    let mut inbox = Inbox::new();
    let answer = Response::Error { message: String::new() };
    assert_eq!(
        inbox.record(answer, Effect::Wrote, Moment::Waiting { ticks_run: 0 }, 0),
        BandChange::CutTo(0)
    );
}

#[test]
fn a_refused_request_changes_nothing() {
    let set = Request::SetComponent {
        entity: name(0, 1),
        component: "mark".to_owned(),
        value: "(n:7)".to_owned(),
    };
    assert_eq!(effect(&set, false), Effect::Nothing);
    assert_eq!(effect(&set, true), Effect::Wrote);
    assert_eq!(effect(&Request::Step { ticks: 1 }, true), Effect::Granted);
    assert_eq!(effect(&Request::LoadScene { path: "a.ron".to_owned() }, true), Effect::Wrote);
    assert_eq!(effect(&Request::Replay { path: "a.rec".to_owned() }, true), Effect::Restarted);
    assert_eq!(effect(&Request::Dump, true), Effect::Nothing);
}

#[test]
fn two_steps_of_one_tick_grant_two_ticks() {
    let mut budget = 10;
    assert_eq!(
        step(1, false, &mut budget, Moment::Waiting { ticks_run: 10 }),
        Ok(Response::Step { granted: 11, ticks_run: 10 })
    );
    assert_eq!(
        step(1, false, &mut budget, Moment::Waiting { ticks_run: 10 }),
        Ok(Response::Step { granted: 12, ticks_run: 10 })
    );
    assert_eq!(budget, 12);
}

#[test]
fn an_enormous_grant_saturates() {
    let mut budget = 5;
    let _ = step(u64::MAX, false, &mut budget, Moment::Tick(4));
    assert_eq!(budget, u64::MAX);
}

#[test]
fn a_step_during_a_replay_is_refused_and_grants_nothing() {
    let mut budget = 100;
    let refusal = step(5, true, &mut budget, Moment::Tick(3)).expect_err("a replay takes no orders");
    assert_eq!(
        refusal,
        RequestError::NotWhileReplaying { command: "step", consequence: STEP_STEERS }
    );
    assert_eq!(budget, 100);
    assert_eq!(
        refusal.message(),
        "step is refused during a replay: a replay reproduces the run its recording describes, \
         and a replay's length is its recording's, and past the end of a recording a run \
         continues with no input at all, which reproduces nothing. A replay answers questions \
         and takes no orders — let it finish, or start a live run to steer"
    );
}

#[test]
fn a_name_on_an_empty_slot_says_so_and_says_what_to_ask_instead() {
    let live = vec![name(0, 1), name(1, 1)];
    let error = resolve(name(4_000_000, 1), &live).expect_err("nothing is in that slot");
    assert_eq!(error, RequestError::NoSuchEntity { name: name(4_000_000, 1) });
    assert_eq!(
        error.message(),
        "there is no entity 4000000v1 in this world, and slot 4000000 holds nothing at all; \
         ask list_entities for the entities there are"
    );
}

#[test]
fn a_name_on_a_recycled_slot_names_what_holds_it_now() {
    let live = vec![name(0, 2), name(1, 1)];
    let error = resolve(name(0, 1), &live).expect_err("0v1 is gone");
    assert_eq!(error, RequestError::Recycled { name: name(0, 1), current: name(0, 2) });
    assert_eq!(
        error.message(),
        "there is no entity 0v1 in this world: slot 0 holds 0v2 now, so 0v1 was despawned and \
         its slot handed out again. Generations count up, so a name from before a despawn never \
         addresses what took its place"
    );
    assert_eq!(resolve(name(0, 2), &live), Ok(0));
    assert_eq!(resolve(name(1, 1), &live), Ok(1));
}

#[test]
fn an_unknown_component_name_lists_the_ones_this_world_has() {
    let error = RequestError::UnknownComponent {
        name: "markk".to_owned(),
        known: vec!["layer".to_owned(), "mark".to_owned()],
    };
    assert_eq!(
        error.message(),
        "no component is registered under the stable name \"markk\"; this world registers layer, mark"
    );
    let empty = RequestError::UnknownComponent { name: "mark".to_owned(), known: Vec::new() };
    assert!(empty.message().ends_with("this world registers no components at all"));
}

#[test]
fn an_entity_is_written_as_the_dump_writes_it() {
    assert_eq!(name(0, 1).text(), "0v1");
    assert_eq!(name(4_000_000, 12).text(), "4000000v12");
}

use narvo_app::ipc::{known_component, settle};

#[test]
fn a_component_name_is_checked_against_what_the_world_registers() {
    let registered: Vec<String> =
        ["camera", "follow", "layer", "sampling", "shake", "transform", "wander"]
            .iter()
            .map(|n| (*n).to_owned())
            .collect();
    assert_eq!(known_component("transform", &registered), Ok(()));
    let error = known_component("postion", &registered).expect_err("nothing is registered so");
    assert_eq!(
        error.message(),
        "no component is registered under the stable name \"postion\"; this world registers \
         camera, follow, layer, sampling, shake, transform, wander"
    );
    assert_eq!(
        known_component("mark", &Vec::new()).expect_err("an empty registry knows nothing").message(),
        "no component is registered under the stable name \"mark\"; this world registers no \
         components at all"
    );
}

#[test]
fn an_unanswerable_request_becomes_an_error_answer_that_changed_nothing() {
    let write = Request::SetComponent {
        entity: name(1, 1),
        component: "mark".to_owned(),
        value: "(count: 1)".to_owned(),
    };
    let refused = settle(&write, Err(RequestError::NoSuchEntity { name: name(1, 1) }));
    assert_eq!(
        refused,
        (
            Response::Error {
                message: "there is no entity 1v1 in this world, and slot 1 holds nothing at all; \
                          ask list_entities for the entities there are"
                    .to_owned()
            },
            Effect::Nothing
        )
    );

    let accepted = Response::SetComponent {
        entity: name(1, 1),
        component: "mark".to_owned(),
        previous: None,
        ticks_run: 4,
    };
    assert_eq!(settle(&write, Ok(accepted.clone())), (accepted, Effect::Wrote));
    let granted = Response::Step { granted: 3, ticks_run: 0 };
    assert_eq!(
        settle(&Request::Step { ticks: 3 }, Ok(granted.clone())),
        (granted, Effect::Granted)
    );
    let dumped = Response::Dump { state: String::new(), ticks_run: 0 };
    assert_eq!(settle(&Request::Dump, Ok(dumped.clone())), (dumped, Effect::Nothing));
}

#[test]
fn the_instrument_delivers_at_the_tick_it_was_given_and_not_before() {
    let mut inbox = Inbox::new();
    inbox.push_at(5, Request::ListEntities);
    assert_eq!(inbox.undelivered(), 1);

    for tick in 0..5 {
        inbox.deliver_scheduled(tick);
        assert!(inbox.next_request().is_none(), "delivered at tick {tick}");
        assert_eq!(inbox.undelivered(), 1, "it left the schedule early");
    }

    inbox.deliver_scheduled(5);
    assert_eq!(inbox.next_request(), Some(Request::ListEntities));
    assert_eq!(inbox.undelivered(), 0);

    // Delivered once: a later drain finds nothing left.
    inbox.deliver_scheduled(6);
    assert!(inbox.next_request().is_none());
}

#[test]
fn scheduled_requests_arrive_behind_what_was_waiting_in_schedule_order() {
    let mut inbox = Inbox::new();
    inbox.push(Request::Dump);
    inbox.push_at(3, Request::Step { ticks: 1 });
    inbox.push_at(9, Request::ListEntities);
    inbox.push_at(3, Request::Step { ticks: 2 });

    inbox.deliver_scheduled(3);
    assert_eq!(inbox.undelivered(), 1, "the entry for tick 9 stays put");
    assert_eq!(inbox.next_request(), Some(Request::Dump));
    assert_eq!(inbox.next_request(), Some(Request::Step { ticks: 1 }));
    assert_eq!(inbox.next_request(), Some(Request::Step { ticks: 2 }));
    assert_eq!(inbox.next_request(), None);

    // A tick the run never reaches leaves its request undelivered.
    inbox.deliver_scheduled(8);
    inbox.deliver_scheduled(10);
    assert_eq!(inbox.undelivered(), 1);
}

use narvo_app::ipc::Collected;

#[test]
fn a_speaking_client_hands_its_script_out_one_wait_at_a_time() {
    let mut client = Collected::speaking(vec![Request::Step { ticks: 2 }, Request::Dump]);
    assert!(client.arrived().is_empty(), "it never interrupts a tick");
    assert!(client.attached());
    assert_eq!(client.awaited(), Some(Request::Step { ticks: 2 }));
    assert!(client.attached());
    assert_eq!(client.awaited(), Some(Request::Dump));
    assert!(!client.attached(), "a client with nothing left to say has gone");
    assert_eq!(client.awaited(), None);

    let nobody = Collected::speaking(Vec::new());
    assert!(!nobody.attached());
}

#[test]
fn a_collecting_client_keeps_every_answer_in_order() {
    let mut client = Collected::speaking(Vec::new());
    let first = Response::Step { granted: 1, ticks_run: 0 };
    let second = Response::Error { message: "no".to_owned() };
    client.answered(&[first.clone()]);
    client.answered(&[]);
    client.answered(&[second.clone(), first.clone()]);
    assert_eq!(client.answers, vec![first.clone(), second, first]);
}

use narvo_app::headless::RunError;
use narvo_app::inspector::{ComponentReading, Reading};
use narvo_app::ipc::{After, ComponentValue, after_answer, read, refuse_request, steers};

#[test]
fn a_drain_restarts_only_after_a_replay_start() {
    let mut after = After::Carry;
    for effect in [Effect::Nothing, Effect::Granted, Effect::Wrote] {
        after = after_answer(after, effect);
    }
    assert_eq!(after, After::Carry);
    after = after_answer(after, Effect::Restarted);
    assert_eq!(after, After::Restart);
    assert_eq!(after_answer(after, Effect::Nothing), After::Restart);
}

#[test]
fn a_replay_refuses_every_command_that_steers_and_answers_every_read() {
    for read in [
        Request::ListEntities,
        Request::Dump,
        Request::GetEntity { entity: name(0, 1) },
        Request::GetComponent { entity: name(0, 1), component: "mark".to_owned() },
    ] {
        assert_eq!(steers(&read), None);
        assert_eq!(refuse_request(&read, true), Ok(()));
    }
    let load = Request::LoadScene { path: "x.ron".to_owned() };
    let refusal = refuse_request(&load, true).expect_err("a replay takes no orders");
    assert!(refusal.message().starts_with("load_scene is refused during a replay"));
    assert_eq!(refuse_request(&load, false), Ok(()));
    assert_eq!(steers(&Request::Step { ticks: 1 }), Some(("step", STEP_STEERS)));
    assert_eq!(
        steers(&Request::Replay { path: String::new() }).map(|(command, _)| command),
        Some("replay")
    );
    assert_eq!(
        steers(&Request::SetComponent {
            entity: name(0, 1),
            component: String::new(),
            value: String::new()
        })
        .map(|(command, _)| command),
        Some("set_component")
    );
}

#[test]
fn every_refusal_says_what_went_wrong_in_its_own_sentence() {
    assert_eq!(
        RequestError::Engine { name: name(2, 1), source: "it broke".to_owned() }.message(),
        "entity 2v1 could not be read: it broke"
    );
    assert_eq!(
        RequestError::Rejected {
            name: name(2, 1),
            component: "mark".to_owned(),
            source: "at 3".to_owned()
        }
        .message(),
        "the value offered for \"mark\" of entity 2v1 is not one the registry can read: at 3"
    );
    assert_eq!(
        RequestError::SceneUnreadable { path: "x.ron".to_owned(), source: "no such file".to_owned() }
            .message(),
        "the scene x.ron could not be read: no such file. load_scene takes a path relative to \
         the directory the run was started in"
    );
    assert_eq!(
        RequestError::Scene { path: "/x.ron".to_owned(), source: "absolute".to_owned() }.message(),
        "the scene /x.ron could not be loaded: absolute"
    );
    assert_eq!(
        RequestError::SceneStart { path: "x.ron".to_owned(), source: "line 2".to_owned() }
            .message(),
        "the scene x.ron was read and did not load, so the running world is unchanged: line 2"
    );
    assert_eq!(
        RequestError::Replay { source: RunError::SceneMissing }.message(),
        format!("this recording cannot be replayed: {}", RunError::SceneMissing.message())
    );
    assert!(
        RequestError::Dump { source: "unregistered".to_owned() }
            .message()
            .starts_with("this world cannot be dumped, so there is no state to report: unregistered. ")
    );
    assert_eq!(RunError::Mismatch { message: "motion takes no input".to_owned() }.message(), "motion takes no input");
}

fn readings() -> Vec<ComponentReading> {
    vec![
        ComponentReading { name: "layer".to_owned(), reading: Reading::Value("(z: 1)".to_owned()) },
        ComponentReading { name: "mark".to_owned(), reading: Reading::Absent },
        ComponentReading { name: "transform".to_owned(), reading: Reading::Value("(x: 0)".to_owned()) },
    ]
}

#[test]
fn reads_answer_from_the_world_as_it_stands() {
    let live = vec![name(0, 1), name(2, 3)];
    let at = Moment::Tick(4);
    assert_eq!(
        read(&Request::ListEntities, &live, &readings(), Ok(String::new()), at),
        Ok(Response::ListEntities { entities: live.clone(), ticks_run: 5 })
    );
    assert_eq!(
        read(&Request::Dump, &live, &readings(), Ok("tick 4\n".to_owned()), at),
        Ok(Response::Dump { state: "tick 4\n".to_owned(), ticks_run: 5 })
    );
    assert_eq!(
        read(&Request::GetEntity { entity: name(2, 3) }, &live, &readings(), Ok(String::new()), at),
        Ok(Response::GetEntity {
            entity: name(2, 3),
            components: vec![
                ComponentValue { name: "layer".to_owned(), value: "(z: 1)".to_owned() },
                ComponentValue { name: "transform".to_owned(), value: "(x: 0)".to_owned() },
            ],
            ticks_run: 5,
        })
    );
    assert_eq!(
        read(
            &Request::GetComponent { entity: name(0, 1), component: "mark".to_owned() },
            &live,
            &readings(),
            Ok(String::new()),
            Moment::Waiting { ticks_run: 0 }
        ),
        Ok(Response::GetComponent {
            entity: name(0, 1),
            component: "mark".to_owned(),
            value: None,
            ticks_run: 0
        })
    );
}

#[test]
fn a_read_is_refused_in_the_order_name_registry_value() {
    let live = vec![name(0, 1), name(2, 3)];
    let at = Moment::Tick(0);
    assert_eq!(
        read(
            &Request::GetComponent { entity: name(2, 1), component: "postion".to_owned() },
            &live,
            &readings(),
            Ok(String::new()),
            at
        ),
        Err(RequestError::Recycled { name: name(2, 1), current: name(2, 3) })
    );
    assert_eq!(
        read(
            &Request::GetComponent { entity: name(2, 3), component: "postion".to_owned() },
            &live,
            &readings(),
            Ok(String::new()),
            at
        )
        .expect_err("nothing is registered so")
        .message(),
        "no component is registered under the stable name \"postion\"; this world registers \
         layer, mark, transform"
    );
    let mut broken = readings();
    broken[2].reading = Reading::Failed("cannot serialize".to_owned());
    assert_eq!(
        read(&Request::GetEntity { entity: name(0, 1) }, &live, &broken, Ok(String::new()), at),
        Err(RequestError::Engine { name: name(0, 1), source: "cannot serialize".to_owned() })
    );
    assert_eq!(
        read(&Request::Dump, &live, &broken, Err("unregistered".to_owned()), at),
        Err(RequestError::Dump { source: "unregistered".to_owned() })
    );
    assert_eq!(
        read(&Request::GetEntity { entity: name(1, 1) }, &live, &broken, Ok(String::new()), at),
        Err(RequestError::NoSuchEntity { name: name(1, 1) })
    );
}
