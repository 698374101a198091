use circuit_rooms::binary64::Real;
use circuit_rooms::chat::MAX_CHAT_LEN;
use circuit_rooms::commands::Cmd;
use circuit_rooms::document::{DocOp, InteractOp, WIPER_HI};
use circuit_rooms::fixture::{
    default_hoist_rect, ensure_fixture, LIM_BOT_ID, LIM_TOP_ID, MOTOR_ID, SENSOR_ID,
};
use circuit_rooms::gated::{commit_move, plan_move};
use circuit_rooms::handle::Life;
use circuit_rooms::messages::{gone_msg, meta_msg, netmap_msg, presence_msg, sensors_msg};
use circuit_rooms::parts::{ElementKind as K, ElementSpec};
use circuit_rooms::probes::{NetMap, ProbeKind, ProbeName};
use circuit_rooms::regions::{Drag, LayerOp, PanelOp};
use circuit_rooms::registry::PARK_AFTER_TICKS;
use circuit_rooms::room::{Action, Context, Reject, Room, Sim, Work};
use circuit_rooms::scopes::{Scope, ScopeSet};
use circuit_rooms::sensors::{Claim, Driven, Over, Reading, Shown, MAX_SENSOR_BATCH};
use circuit_rooms::session::{
    budget_of, greet, receive, session_step, Budget, ClientMsg, Happening, Next, Out,
    DEAD_AFTER_MS,
};
use circuit_rooms::tick::{
    begin_work, cadence, confirm_park, damage_due, due_after, go_dark, land_reading, live_taps,
    mirror_machine, netmap_due, note_dark, note_population, note_win, perform, plan, save_due,
    start, stop_outcome, Answers, Ask, Cadence, Due, Stop, Writes, SAVE_AFTER_TICKS,
};

fn x(v: f64) -> Real {
    Real::of(v.to_bits())
}

fn room(elements: Vec<ElementSpec>) -> Room {
    Room {
        elements,
        probes: vec![],
        panels: vec![],
        scopes: vec![],
        label_boxes: vec![],
        net_labels: vec![],
        layers: vec![],
        claims: vec![],
        chat: std::collections::VecDeque::new(),
        next_client: 1,
        next_pid: 1,
        next_plid: 1,
        next_sid: 1,
        next_blid: 1,
        next_nlid: 1,
        next_lid: 1,
        population: 1,
        dirty: false,
        ext: false,
    }
}

fn knob(id: u32) -> ElementSpec {
    let kind = K::Potentiometer { ohms: x(1e4), wiper: x(0.5) };
    ElementSpec::new(id, kind, vec![(0, 0), (2, 2), (4, 0)])
}

fn bench() -> (Room, Sim, Work) {
    let room = room(vec![knob(5)]);
    let sim = start(&room, false, default_hoist_rect());
    (room, sim, begin_work())
}

fn yes() -> Answers {
    Answers { verdict: None, gap: x(0.3), over: vec![] }
}

fn no() -> Answers {
    let why = Reject {
        code: "short".into(),
        id: Some(5),
        ids: vec![5],
        hint: "two sources".into(),
    };
    Answers { verdict: Some(why), ..yes() }
}

fn drag(x0: f64, y0: f64, x1: f64, y1: f64) -> Drag {
    Drag {
        x0: x(x0),
        y0: x(y0),
        x1: x(x1),
        y1: x(y1),
    }
}

#[test]
fn what_a_client_says_becomes_commands_in_its_own_name() {
    let mut r = room(vec![]);
    let me = greet(&mut r);
    assert_eq!((me, r.next_client), (1, 2));
    let out = receive(&mut r, me, ClientMsg::Edit { op: DocOp::Remove { id: 4 } }, false);
    assert!(matches!(
        out.as_slice(),
        [Out::Command { cmd: Cmd::Edit { who: 1, op: DocOp::Remove { id: 4 } } }]
    ));
    let out = receive(&mut r, me, ClientMsg::MachineReset, false);
    assert!(matches!(out.as_slice(), [Out::Command { cmd: Cmd::MachineReset }]));
    let out = receive(&mut r, me, ClientMsg::Cursor { x: x(1.0), y: x(2.0) }, false);
    assert!(matches!(out.as_slice(), [Out::Point { who: 1, .. }]));
    // A batch of readings is bounded, and dropped over budget.
    let s: Vec<(u32, u16)> = (0..100).map(|i| (i, 7)).collect();
    let out = receive(&mut r, me, ClientMsg::Sensor { s: s.clone() }, true);
    assert_eq!(out.len(), MAX_SENSOR_BATCH);
    assert!(matches!(out[3], Out::Command { cmd: Cmd::Sensor { who: 1, id: 3, q: 7 } }));
    assert!(receive(&mut r, me, ClientMsg::Sensor { s }, false).is_empty());
    assert!(!r.dirty);
}

#[test]
fn chat_is_said_and_remembered_and_never_saved() {
    let mut r = room(vec![]);
    let say = |text: String| ClientMsg::Chat { text };
    let out = receive(&mut r, 3, say("  hi\u{202e} there ".into()), true);
    match out.as_slice() {
        [Out::Say { line }] => assert_eq!((line.who, line.text.as_str()), (3, "hi there")),
        _ => panic!("one line"),
    }
    assert_eq!(r.chat.back().unwrap().text, "hi there");
    assert!(receive(&mut r, 3, say("more".into()), false).is_empty(), "over budget");
    assert!(receive(&mut r, 3, say(" \u{7} ".into()), true).is_empty(), "nothing to show");
    assert_eq!(r.chat.len(), 1);
    receive(&mut r, 3, say("n".repeat(5000)), true);
    assert_eq!(r.chat.back().unwrap().text.chars().count(), MAX_CHAT_LEN);
    assert!(!r.dirty);
    assert_eq!(budget_of(&say("x".into())), Some(Budget::Chat));
    assert_eq!(budget_of(&ClientMsg::Sensor { s: vec![] }), Some(Budget::Sensor));
    assert_eq!(budget_of(&ClientMsg::MachineReset), None);
}

#[test]
fn a_session_ends_when_it_should() {
    assert_eq!(session_step(Happening::Lived { life: Life::Gone }), Next::SayGone);
    assert_eq!(session_step(Happening::Lived { life: Life::Parked }), Next::Wait);
    assert_eq!(session_step(Happening::Pulse { silent_ms: DEAD_AFTER_MS - 1 }), Next::Ping);
    assert_eq!(session_step(Happening::Pulse { silent_ms: DEAD_AFTER_MS }), Next::Close);
    assert_eq!(session_step(Happening::Event), Next::Forward);
    assert_eq!(session_step(Happening::Lagged), Next::Wait);
    assert_eq!(session_step(Happening::Noise), Next::Wait);
    for over in [Happening::EventsOver, Happening::HungUp, Happening::SendFailed] {
        assert_eq!(session_step(over), Next::Close);
    }
}

#[test]
fn messages_are_json_objects() {
    let parse = |s: String| -> serde_json::Value { serde_json::from_str(&s).unwrap() };
    let v = parse(gone_msg("ABCDEF", true));
    assert_eq!((v["t"].as_str(), v["reason"].as_str()), (Some("roomgone"), Some("deleted")));
    assert_eq!(parse(gone_msg("ABCDEF", false))["reason"], "unknown");
    let v = parse(meta_msg("ABCDEF", "the \"lab\""));
    assert_eq!((v["t"].as_str(), v["name"].as_str()), (Some("roommeta"), Some("the \"lab\"")));
    let v = parse(presence_msg(3));
    assert_eq!((v["t"].as_str(), v["n"].as_u64()), (Some("presence"), Some(3)));
    let map = NetMap { live: vec![1, 2], probes: vec![ProbeName { pid: 4, nlid: 2 }] };
    let v = parse(netmap_msg(&map));
    assert_eq!(v["live"][1], 2);
    assert_eq!((v["probes"][0][0].as_u64(), v["probes"][0][1].as_u64()), (Some(4), Some(2)));
    assert_eq!(sensors_msg(&vec![]), None);
    let v = parse(sensors_msg(&vec![Shown { id: 9, q: 65535 }]).unwrap());
    assert_eq!((v["t"].as_str(), v["s"][0][1].as_u64()), (Some("sensors"), Some(65535)));
}

#[test]
fn a_turned_knob_sets_out_and_a_refused_one_stays() {
    let (mut room, mut sim, mut work) = bench();
    let op = InteractOp::SetValue { value: x(7.0) };
    let cmd = || Cmd::Interact { who: 2, id: 5, op };
    match plan(&room, &cmd()) {
        Ask::Judge { candidate, journey } => {
            let there = K::Potentiometer { ohms: x(1e4), wiper: Real::of(WIPER_HI) };
            assert_eq!(candidate[0].kind, there);
            assert_eq!(journey, Some((x(0.5), Real::of(WIPER_HI))));
        }
        _ => panic!("a turn is judged"),
    }
    let acts = perform(&mut room, &mut sim, &mut work, cmd(), no());
    match acts.as_slice() {
        [Action::Refuse { who: 2, ctx: Context::Interact, why }] => assert_eq!(why.code, "short"),
        _ => panic!("refused, and nothing else"),
    }
    assert_eq!(room.elements[0].kind, knob(5).kind);
    assert!(sim.slews.is_empty());

    let acts = perform(&mut room, &mut sim, &mut work, cmd(), yes());
    assert!(matches!(
        acts.as_slice(),
        [
            Action::Interact { id: 5, .. },
            Action::Hold { .. },
            Action::TellOp { id: 5, .. }
        ]
    ));
    assert_eq!(sim.slews.live[0].now, x(0.5), "the solver's wiper has not moved yet");
    assert_eq!(
        room.elements[0].kind,
        K::Potentiometer { ohms: x(1e4), wiper: Real::of(WIPER_HI) }
    );
    // A fixture is out of reach.
    let cmd = Cmd::Interact { who: 2, id: LIM_TOP_ID, op: InteractOp::SetSwitch { closed: true } };
    assert!(matches!(plan(&room, &cmd), Ask::Nothing));
    assert!(perform(&mut room, &mut sim, &mut work, cmd, yes()).is_empty());
}

#[test]
fn a_removed_part_takes_its_probes_and_their_channels() {
    let (mut room, mut sim, mut work) = bench();
    room.elements.push(knob(6));
    for (elem, kind) in [(5, ProbeKind::V), (6, ProbeKind::V), (6, ProbeKind::I)] {
        let cmd = Cmd::Probe { elem, pin: 0, kind };
        perform(&mut room, &mut sim, &mut work, cmd, yes());
    }
    perform(&mut room, &mut sim, &mut work, Cmd::ProbeRef { pid: 2, elem: 5, pin: 1 }, yes());
    assert_eq!(room.probes[1].r, Some((5, 1)));
    room.scopes = vec![Scope {
        sid: 1,
        x: x(0.0),
        y: x(0.0),
        w: x(12.0),
        h: x(6.0),
        set: ScopeSet::default(),
        pids: Some(vec![1, 2]),
    }];
    let cmd = Cmd::Edit { who: 1, op: DocOp::Remove { id: 5 } };
    assert!(matches!(plan(&room, &cmd), Ask::JudgeEdit { .. }));
    let acts = perform(&mut room, &mut sim, &mut work, cmd, yes());
    assert!(matches!(
        acts.as_slice(),
        [
            Action::Rebuild { ratings: true },
            Action::TellProbes,
            Action::TellScopes,
            Action::TellDoc { .. }
        ]
    ));
    let left: Vec<u32> = room.probes.iter().map(|p| p.pid).collect();
    assert_eq!(left, vec![2, 3]);
    assert_eq!(room.probes[0].r, None, "it measures against ground again");
    assert_eq!(room.scopes[0].pids, Some(vec![2]));
    assert!(room.dirty);
    // The part is gone: removing it again is dropped.
    let cmd = Cmd::Edit { who: 1, op: DocOp::Remove { id: 5 } };
    assert!(matches!(plan(&room, &cmd), Ask::Nothing));
    // A probe put on again comes off.
    let cmd = Cmd::Probe { elem: 6, pin: 0, kind: ProbeKind::I };
    perform(&mut room, &mut sim, &mut work, cmd, yes());
    assert_eq!(room.probes.len(), 1);
}

#[test]
fn a_layer_has_one_driver() {
    let (mut room, mut sim, mut work) = bench();
    let op = LayerOp::Add { drag: drag(0.0, 0.0, 9.0, 9.0), name: None };
    let acts = perform(&mut room, &mut sim, &mut work, Cmd::Layer { op }, yes());
    assert!(matches!(acts.as_slice(), [Action::TellLayers]));
    let mut claim = |room: &mut Room, who: u32, lid: u32, claim: bool| {
        perform(room, &mut sim, &mut work, Cmd::LayerClaim { who, lid, claim }, yes()).len()
    };
    assert_eq!(claim(&mut room, 7, 1, true), 1);
    assert_eq!(claim(&mut room, 8, 1, true), 0, "taken");
    assert_eq!(claim(&mut room, 8, 2, true), 0, "no such layer");
    assert_eq!(claim(&mut room, 8, 1, false), 0, "not theirs to give back");
    assert_eq!(room.claims, vec![Claim { lid: 1, who: 7 }]);
    assert_eq!(claim(&mut room, 7, 1, false), 2);
    assert!(room.claims.is_empty());
    assert_eq!(claim(&mut room, 8, 1, true), 1);

    // Leaving gives everything back, and what was driven goes dark.
    sim.driven = vec![Driven { id: 5, who: 8, q: 3, stale: 0 }];
    let ans = Answers { over: vec![Over { id: 5, lid: 1 }], ..yes() };
    assert!(matches!(plan(&room, &Cmd::Leave { who: 8 }), Ask::Layers));
    let acts = perform(&mut room, &mut sim, &mut work, Cmd::Leave { who: 8 }, ans);
    assert!(matches!(acts.as_slice(), [Action::TellLayers, Action::TellPresence { n: 1 }]));
    assert!(room.claims.is_empty() && sim.driven.is_empty());
    assert_eq!(work.to_dark, vec![5]);
}

#[test]
fn a_reading_brands_the_room_and_a_reset_clears_it() {
    let (mut room, mut sim, mut work) = bench();
    let r = Reading { who: 1, id: 5, q: 9 };
    perform(&mut room, &mut sim, &mut work, Cmd::Sensor { who: 1, id: 5, q: 9 }, yes());
    perform(&mut room, &mut sim, &mut work, Cmd::Sensor { who: 1, id: MOTOR_ID, q: 9 }, yes());
    assert_eq!(work.readings, vec![r], "a fixture takes no reading");
    land_reading(&mut room, &mut sim, &mut work, r, false);
    assert!(!room.ext && sim.driven.is_empty());
    land_reading(&mut room, &mut sim, &mut work, r, true);
    assert!(room.ext && room.dirty);
    assert_eq!(work.sensor_out, vec![Shown { id: 5, q: 9 }]);
    work.to_dark = vec![8, 3, 8];
    assert_eq!(go_dark(&mut sim, &mut work), vec![3, 8]);
    note_dark(&mut work, 3, true);
    note_dark(&mut work, 8, false);
    assert_eq!(work.sensor_out[1..], [Shown { id: 3, q: 0 }]);

    assert!(perform(&mut room, &mut sim, &mut work, Cmd::MachineReset, yes()).is_empty());
    assert!(room.ext, "a room without a machine has nothing to reset");
    sim.has_machine = true;
    let acts = perform(&mut room, &mut sim, &mut work, Cmd::MachineReset, yes());
    assert!(matches!(acts.as_slice(), [Action::ResetMachine]));
    assert!(!room.ext);
}

#[test]
fn the_moves_of_a_tick_are_made_once() {
    let mut elements = vec![knob(5)];
    ensure_fixture(&mut elements, default_hoist_rect());
    let mut room = room(elements);
    let mut sim = start(&room, true, default_hoist_rect());
    let mut work = begin_work();
    for (who, dx) in [(1, 3), (2, -1)] {
        perform(&mut room, &mut sim, &mut work, Cmd::MachineMove { who, dx, dy: 2 }, yes());
    }
    assert_eq!((work.pending, work.mover), ((2, 4), 2));
    assert!(plan_move(&room, &sim, &work).is_some());
    let acts = commit_move(&mut room, &mut sim, &work, no().verdict);
    assert!(matches!(
        acts.as_slice(),
        [Action::Refuse { who: 2, ctx: Context::MachineMove, .. }]
    ));
    assert_eq!(sim.rect, default_hoist_rect());
    let acts = commit_move(&mut room, &mut sim, &work, None);
    assert!(matches!(acts[0], Action::Rebuild { ratings: false }));
    assert!(acts.len() > 1 && acts[1..].iter().all(|a| matches!(a, Action::TellDoc { .. })));
    assert_eq!(sim.rect[0], default_hoist_rect()[0] + 2);
    assert!(room.dirty);
    let still = begin_work();
    assert!(plan_move(&room, &sim, &still).is_none());
    assert!(commit_move(&mut room, &mut sim, &still, None).is_empty());
    work.pending = (i32::MAX, 0);
    perform(&mut room, &mut sim, &mut work, Cmd::MachineMove { who: 1, dx: 9, dy: 0 }, yes());
    assert_eq!(work.pending.0, i32::MAX);
}

#[test]
fn an_empty_room_parks_in_time() {
    let (_, mut sim, _) = bench();
    for _ in 0..PARK_AFTER_TICKS - 1 {
        assert!(!note_population(&mut sim, 0));
    }
    assert!(!note_population(&mut sim, 1));
    assert_eq!(sim.empty_ticks, 0);
    for _ in 0..PARK_AFTER_TICKS - 1 {
        assert!(!note_population(&mut sim, 0));
    }
    assert!(note_population(&mut sim, 0));
    assert!(!confirm_park(&mut sim, 1), "somebody came in meanwhile");
    assert_eq!(sim.empty_ticks, 0);
    assert!(confirm_park(&mut sim, 0));
    assert_eq!(stop_outcome(None, 0), Stop::Run);
    assert_eq!(stop_outcome(Some(false), 3), Stop::Evict);
    assert_eq!(stop_outcome(Some(true), 3), Stop::Checkpoint { park: false });
    assert_eq!(stop_outcome(Some(true), 0), Stop::Checkpoint { park: true });
}

#[test]
fn a_room_is_saved_when_it_changed_and_a_while_has_passed() {
    let (mut room, mut sim, mut work) = bench();
    for _ in 0..SAVE_AFTER_TICKS + 5 {
        assert!(!save_due(&mut room, &mut sim));
    }
    let op = PanelOp::Add { drag: drag(0.0, 0.0, 9.0, 9.0), name: None };
    perform(&mut room, &mut sim, &mut work, Cmd::Panel { op }, yes());
    assert!(save_due(&mut room, &mut sim));
    assert_eq!((room.dirty, sim.ticks_since_save), (false, 0));
    note_win(&mut room, true, true);
    assert!(!room.dirty);
    note_win(&mut room, false, true);
    assert!(room.dirty);
}

#[test]
fn the_steps_of_a_tick_are_shared_out() {
    assert_eq!(
        cadence(true, true, 6666),
        Cadence { step: 4, per_probe: 4, per_machine: 8, chunks: 208 * 8 }
    );
    assert_eq!(
        cadence(false, true, 6666),
        Cadence { step: 16, per_probe: 1, per_machine: 2, chunks: 208 * 2 }
    );
    assert_eq!(
        cadence(false, false, 100_000),
        Cadence { step: 32, per_probe: 1, per_machine: 1, chunks: 250 }
    );
    assert_eq!(cadence(false, false, 3).chunks, 1);
    let c = cadence(true, true, 6666);
    let due = |n: u32| due_after(c, n, true, true, false, true);
    assert_eq!(due(2), Due { probes: false, machine: false, slews: false });
    assert_eq!(due(3), Due { probes: true, machine: false, slews: false });
    assert_eq!(due(7), Due { probes: true, machine: true, slews: true });
    assert!(!due_after(c, 7, true, true, true, true).machine, "a motor out of service");
    assert_eq!(live_taps(&vec![false, true, false]), vec![0, 2]);
}

#[test]
fn the_document_follows_the_machine() {
    let mut elements = vec![knob(5)];
    ensure_fixture(&mut elements, default_hoist_rect());
    let w = Writes { wiper: x(0.25), lim_top: true, lim_bot: false };
    mirror_machine(&mut elements, w);
    let kind = |id: u32| elements.iter().find(|e| e.id == id).unwrap().kind;
    assert!(matches!(kind(SENSOR_ID), K::Potentiometer { wiper, .. } if wiper == x(0.25)));
    assert_eq!(kind(LIM_TOP_ID), K::Switch { closed: true });
    assert_eq!(kind(LIM_BOT_ID), K::Switch { closed: false });
    assert_eq!(kind(5), knob(5).kind);
}

#[test]
fn reports_and_maps_go_out_when_they_change() {
    let (room, mut sim, _) = bench();
    assert!(!damage_due(&mut sim, true));
    assert!(damage_due(&mut sim, false));
    assert!(damage_due(&mut sim, false));
    assert!(damage_due(&mut sim, true), "one empty report follows");
    assert!(!damage_due(&mut sim, true));

    let map = || NetMap { live: vec![1], probes: vec![] };
    assert!(netmap_due(&mut sim, map()));
    assert!(!netmap_due(&mut sim, map()));
    assert!(netmap_due(&mut sim, NetMap { live: vec![], probes: vec![] }));
    let mut work = begin_work();
    let mut room = room;
    assert!(netmap_due(&mut sim, map()));
    perform(&mut room, &mut sim, &mut work, Cmd::Join, yes());
    assert!(netmap_due(&mut sim, map()), "somebody who joins is told");
    let acts = perform(&mut room, &mut sim, &mut work, Cmd::Repair { who: 1, id: 5 }, yes());
    assert!(matches!(acts.as_slice(), [Action::Repair { id: 5 }]));
    perform(&mut room, &mut sim, &mut work, Cmd::Stop { checkpoint: true }, yes());
    assert_eq!(work.stop, Some(true));
}
