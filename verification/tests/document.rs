use circuit_rooms::binary64::Real;
use circuit_rooms::document::{
    apply_doc_op_to, apply_interact_to, audio_tap_ids, reserved_id, source_ids, wiper_of, DocOp,
    InteractOp, MAX_AUDIO_TAPS, MAX_ELEMENTS, MIN_FARADS, MIN_HENRIES, MIN_OHMS, WIPER_HI,
    WIPER_LO,
};
use circuit_rooms::demo::demo_room_circuit;
use circuit_rooms::fixture::{
    default_hoist_rect, ensure_fixture, fixture_pin, hoist_fixture, hoist_fixture_at, hoist_rect,
    move_machine, sane_rect, ARM_HENRIES, ARM_OHMS, HOIST_H, HOIST_W, LIM_BOT_ID, LIM_TOP_ID,
    MAX_MACHINE_STEP, MOTOR_ID, SENSOR_ID, SENSOR_OHMS, WIPER_MAX, WORLD_LIMIT,
};
use circuit_rooms::parts::{ElementKind as K, ElementSpec, Point, Wave};
use circuit_rooms::room::{apply_doc_op, Room};
use circuit_rooms::tick::{AUDIO_EVERY, SAMPLE_EVERY};

fn x(v: f64) -> Real {
    Real::of(v.to_bits())
}

fn spec(id: u32, kind: K, a: Point, b: Point) -> ElementSpec {
    ElementSpec::two(id, kind, a, b)
}

fn gnd(id: u32, p: Point) -> ElementSpec {
    ElementSpec::one(id, K::Ground, p)
}

fn r(ohms: f64) -> K {
    K::Resistor { ohms: x(ohms) }
}

fn dc(v: f64) -> K {
    K::VoltageSource { wave: Wave::Sine, dc: x(v), amp: x(0.0), hz: x(0.0), phase: x(0.0) }
}

fn test_room(elements: Vec<ElementSpec>) -> Room {
    Room {
        elements,
        probes: vec![],
        panels: vec![],
        scopes: vec![],
        label_boxes: vec![],
        net_labels: vec![],
        layers: vec![],
        claims: vec![],
        chat: std::collections::VecDeque::new(),
        next_client: 1,
        next_pid: 1,
        next_plid: 1,
        next_sid: 1,
        next_blid: 1,
        next_nlid: 1,
        next_lid: 1,
        population: 0,
        dirty: false,
        ext: false,
    }
}

fn motor_pins() -> (Point, Point) {
    (fixture_pin(MOTOR_ID, 0), fixture_pin(MOTOR_ID, 1))
}

#[test]
fn fixture_edits_are_refused_but_wiring_to_it_is_not() {
    let mut elements = demo_room_circuit();
    ensure_fixture(&mut elements, default_hoist_rect());
    let mut room = test_room(elements);

    let (mp, _) = motor_pins();
    for op in [
        DocOp::Remove { id: MOTOR_ID },
        DocOp::Move { id: MOTOR_ID, pins: vec![(0, 0), (0, 4)], rot: None },
        DocOp::SetKind { id: SENSOR_ID, kind: K::Potentiometer { ohms: x(1.0), wiper: x(0.5) } },
        DocOp::SetKind { id: LIM_TOP_ID, kind: K::Switch { closed: true } },
        DocOp::Add { spec: spec(950, K::Wire, (0, 0), (0, 4)) },
    ] {
        assert!(!apply_doc_op(&mut room, &op), "must refuse");
    }
    // The fixture is intact.
    for id in [MOTOR_ID, SENSOR_ID, LIM_TOP_ID, LIM_BOT_ID] {
        assert!(room.elements.iter().any(|e| e.id == id), "{id} vanished");
    }
    // Wiring TO a fixture terminal is a normal player op.
    assert!(apply_doc_op(
        &mut room,
        &DocOp::Add { spec: spec(500, K::Wire, mp, (mp.0 - 4, mp.1)) }
    ));
}

#[test]
fn machine_move_keeps_the_rect_and_the_children_in_lockstep() {
    let mut elems = demo_room_circuit();
    let mut rect = default_hoist_rect();
    ensure_fixture(&mut elems, rect);

    for (dx, dy) in [(7, 5), (-3, 0), (0, -11), (120, 340)] {
        let before = rect;
        let moved = move_machine(&mut elems, &mut rect, dx, dy).expect("accepted");
        // The rect translated by exactly the delta, and kept its size.
        assert_eq!(rect, [before[0] + dx, before[1] + dy, before[2] + dx, before[3] + dy]);
        assert_eq!((rect[2] - rect[0], rect[3] - rect[1]), (HOIST_W, HOIST_H));
        // Every child sits exactly where a fixture derived from the new rect would sit.
        let want = hoist_fixture_at(rect);
        assert_eq!(moved.len(), want.len());
        for w in &want {
            let live = elems.iter().find(|e| e.id == w.id).expect("child present");
            assert_eq!(live.pins, w.pins, "child {} drifted from the rect", w.id);
            assert!(moved.iter().any(|m| m.id == w.id && m.pins == w.pins));
            // And inside the box, so the client can draw its screw pads.
            for (px, py) in &live.pins {
                assert!(
                    (rect[0]..=rect[2]).contains(px) && (rect[1]..=rect[3]).contains(py),
                    "child {} pin ({px},{py}) outside rect {rect:?}",
                    w.id
                );
            }
        }
    }
    // The player's own parts are never touched by an assembly move.
    let showcase = demo_room_circuit();
    for e in &showcase {
        let live = elems.iter().find(|x| x.id == e.id).unwrap();
        assert_eq!(live.pins, e.pins, "element {} was dragged along", e.id);
    }
}

#[test]
fn machine_move_refuses_nonsense() {
    let mut elems = demo_room_circuit();
    let mut rect = default_hoist_rect();
    ensure_fixture(&mut elems, rect);
    let pins_before: Vec<Vec<Point>> =
        hoist_fixture_at(rect).iter().map(|e| e.pins.clone()).collect();

    for (dx, dy) in [
        (0, 0),                     // not a move at all
        (MAX_MACHINE_STEP + 1, 0),  // past the per-op step cap
        (0, -MAX_MACHINE_STEP - 1), // same, negative
        (WORLD_LIMIT, 0),           // a jump the size of the world
        (0, WORLD_LIMIT),           //
        (-WORLD_LIMIT * 2, 0),      // twice the world, westward
        (i32::MIN, i32::MAX),       // overflow bait: `abs` would panic here
    ] {
        assert!(
            move_machine(&mut elems, &mut rect, dx, dy).is_none(),
            "must refuse ({dx},{dy})"
        );
        // A refused move changes nothing at all.
        assert_eq!(rect, default_hoist_rect());
        for (e, want) in hoist_fixture_at(rect).iter().zip(&pins_before) {
            let live = elems.iter().find(|x| x.id == e.id).unwrap();
            assert_eq!(&live.pins, want);
        }
    }
    // Walking east forever hits a wall rather than falling off the end of the world.
    let mut steps = 0;
    while move_machine(&mut elems, &mut rect, MAX_MACHINE_STEP, 0).is_some() {
        steps += 1;
        assert!(steps < 1000, "the range must be a wall, not a treadmill");
    }
    assert!(rect[0] > default_hoist_rect()[0], "it did travel east");
    assert!(
        rect[2] <= WORLD_LIMIT && rect[0] >= -WORLD_LIMIT,
        "the box stayed inside the world: {rect:?}"
    );
    // Still in lockstep out there.
    for w in hoist_fixture_at(rect) {
        let live = elems.iter().find(|e| e.id == w.id).unwrap();
        assert_eq!(live.pins, w.pins);
    }
}

#[test]
fn a_direct_move_of_a_fixture_is_still_refused() {
    let mut elements = demo_room_circuit();
    ensure_fixture(&mut elements, default_hoist_rect());
    let mut room = test_room(elements);
    let before: Vec<Vec<Point>> = hoist_fixture().iter().map(|e| e.pins.clone()).collect();

    for id in [MOTOR_ID, SENSOR_ID, LIM_TOP_ID, LIM_BOT_ID] {
        let pins = room.elements.iter().find(|e| e.id == id).unwrap().pins.clone();
        let shifted: Vec<Point> = pins.iter().map(|(x, y)| (x + 1, *y)).collect();
        assert!(
            !apply_doc_op(&mut room, &DocOp::Move { id, pins: shifted, rot: None }),
            "a direct Move on {id} must be refused"
        );
    }
    for (e, want) in hoist_fixture().iter().zip(&before) {
        assert_eq!(&room.elements.iter().find(|x| x.id == e.id).unwrap().pins, want);
    }
}

#[test]
fn ensure_fixture_repairs_old_rooms() {
    // A pre-hoist save: no fixture at all.
    let mut elems = vec![spec(1, K::Wire, (0, 0), (0, 4))];
    ensure_fixture(&mut elems, default_hoist_rect());
    assert_eq!(elems.len(), 5);
    // Idempotent, and persisted state survives a reload.
    if let Some(e) = elems.iter_mut().find(|e| e.id == SENSOR_ID) {
        e.kind = K::Potentiometer { ohms: Real::of(SENSOR_OHMS), wiper: x(0.25) };
    }
    ensure_fixture(&mut elems, default_hoist_rect());
    assert_eq!(elems.len(), 5);
    let sensor = elems.iter().find(|e| e.id == SENSOR_ID).unwrap();
    assert!(matches!(sensor.kind, K::Potentiometer { wiper, .. } if wiper == x(0.25)));
    // A save from before the ids were reserved, with a player's part squatting on a
    // fixture id: the fixture takes it back.
    let mut squatted = vec![spec(MOTOR_ID, r(100.0), (0, 0), (0, 4))];
    ensure_fixture(&mut squatted, default_hoist_rect());
    let motor = squatted.iter().find(|e| e.id == MOTOR_ID).unwrap();
    assert!(matches!(motor.kind, K::Motor { .. }), "fixture must win");
    let (a, b) = motor_pins();
    assert_eq!(motor.pins, vec![a, b]);
}

#[test]
fn rotation_and_tier_flow_through_the_op_pipeline() {
    let mut room = test_room(vec![
        gnd(1, (0, 0)),
        spec(2, r(1000.0), (0, 0), (4, 0)),
        spec(3, dc(9.0), (4, 0), (0, 0)),
    ]);
    let rot_of = |room: &Room, id: u32| room.elements.iter().find(|e| e.id == id).unwrap().rot;

    // A one-pin part rotates without its pin moving: that is the whole reason the field
    // exists.
    assert_eq!(rot_of(&room, 1), 0);
    assert!(apply_doc_op(&mut room, &DocOp::Move { id: 1, pins: vec![(0, 0)], rot: Some(3) }));
    assert_eq!(rot_of(&room, 1), 3);
    assert_eq!(
        room.elements[0].pins,
        vec![(0, 0)],
        "a rotation must not move the connection point"
    );

    // A Move with no `rot` leaves the symbol exactly as it was.
    assert!(apply_doc_op(&mut room, &DocOp::Move { id: 1, pins: vec![(2, 2)], rot: None }));
    assert_eq!(rot_of(&room, 1), 3, "a plain move must not reset the orientation");

    // Out of range: the whole op is dropped, like a wrong pin count.
    assert!(!apply_doc_op(&mut room, &DocOp::Move { id: 1, pins: vec![(2, 2)], rot: Some(9) }));
    assert_eq!(rot_of(&room, 1), 3);

    // A tier arrives with the part.
    let power = |tier: u8| {
        let mut spec = ElementSpec::three(
            10,
            K::Nmos { vt: x(2.0), k: x(5.0) },
            (8, 0),
            (12, 0),
            (12, 4),
        );
        spec.tier = tier;
        DocOp::Add { spec }
    };
    let mut next = room.elements.clone();
    assert!(apply_doc_op_to(&mut next, &power(1)));
    assert_eq!(next.last().unwrap().tier, 1);
    // A tier nobody has heard of is for the solver to refuse: it arrives there as it is.
    let mut next = room.elements.clone();
    assert!(apply_doc_op_to(&mut next, &power(u8::MAX)));
    assert_eq!(next.last().unwrap().tier, u8::MAX);
}

#[test]
fn document_cap_is_big_and_still_validates() {
    let full: Vec<ElementSpec> =
        (0..MAX_ELEMENTS as u32).map(|k| spec(k + 1, K::Wire, (0, 0), (1, 0))).collect();
    let mut room = test_room(full);
    let wire = |id: u32| DocOp::Add { spec: spec(id, K::Wire, (2, 2), (3, 2)) };
    // At the cap the op is dropped, not applied.
    assert!(!apply_doc_op(&mut room, &wire(900_001)));
    assert_eq!(room.elements.len(), MAX_ELEMENTS);
    // One slot free: the same op lands, and only once.
    room.elements.pop();
    assert!(apply_doc_op(&mut room, &wire(900_001)));
    assert!(!apply_doc_op(&mut room, &wire(900_001)), "duplicate id");
    // Pin-count validation survives the raised cap (checked before it).
    assert!(!apply_doc_op(
        &mut room,
        &DocOp::Add { spec: ElementSpec::one(900_002, K::Wire, (0, 0)) }
    ));
    assert!(!apply_doc_op(
        &mut room,
        &DocOp::Move { id: 900_001, pins: vec![(0, 0)], rot: None }
    ));
    assert!(apply_doc_op(
        &mut room,
        &DocOp::Move { id: 900_001, pins: vec![(4, 4), (5, 4)], rot: None }
    ));
    assert!(!apply_doc_op(&mut room, &DocOp::Remove { id: 12_345_678 }));
}

#[test]
fn audio_taps_are_the_first_n_speakers_by_id() {
    let mut elems = vec![spec(500, r(100.0), (0, 0), (2, 0))];
    // Deliberately out of order, and more speakers than the cap.
    for id in [90, 12, 77, 3, 41, 55] {
        elems.push(spec(id, K::Speaker { ohms: x(8.0) }, (0, 0), (2, 0)));
    }
    assert_eq!(audio_tap_ids(&elems), vec![3, 12, 41, 55]);
    assert_eq!(audio_tap_ids(&elems).len(), MAX_AUDIO_TAPS);
    // No speakers, no stream.
    assert!(audio_tap_ids(&vec![spec(1, r(1.0), (0, 0), (1, 0))]).is_empty());
    // The cadences must stay commensurate or the sample labels drift.
    assert_eq!(SAMPLE_EVERY % AUDIO_EVERY, 0);
}

/// The constants are the numbers that they are named for.
#[test]
fn constants_are_what_they_say() {
    assert_eq!(MIN_OHMS, 1e-6f64.to_bits());
    assert_eq!(MIN_FARADS, 1e-15f64.to_bits());
    assert_eq!(MIN_HENRIES, 1e-12f64.to_bits());
    assert_eq!(WIPER_LO, 0.01f64.to_bits());
    assert_eq!(WIPER_HI, 0.99f64.to_bits());
    assert_eq!(ARM_OHMS, 2.0f64.to_bits());
    assert_eq!(ARM_HENRIES, 1.5e-3f64.to_bits());
    assert_eq!(SENSOR_OHMS, 10_000.0f64.to_bits());
    assert_eq!(WIPER_MAX, 0.98f64.to_bits());
}

#[test]
fn only_the_machine_has_numbers_nine_hundred() {
    assert!(!reserved_id(899) && reserved_id(900) && reserved_id(999) && !reserved_id(1000));
}

#[test]
fn names_are_cleaned_and_capped() {
    let mut elems = vec![gnd(1, (0, 0))];
    let name = format!("  a\u{7}\u{202E}b{}", "x".repeat(40));
    assert!(apply_doc_op_to(&mut elems, &DocOp::SetName { id: 1, name }));
    assert_eq!(elems[0].name, format!("ab{}", "x".repeat(20)));
    assert!(!apply_doc_op_to(&mut elems, &DocOp::SetName { id: 2, name: "y".into() }));
}

#[test]
fn a_new_kind_needs_the_same_pins() {
    let mut elems = vec![spec(1, r(5.0), (0, 0), (1, 0))];
    assert!(apply_doc_op_to(&mut elems, &DocOp::SetKind { id: 1, kind: K::Diode }));
    assert_eq!(elems[0].kind, K::Diode);
    assert!(!apply_doc_op_to(&mut elems, &DocOp::SetKind { id: 1, kind: K::Ota }));
    assert!(apply_doc_op_to(&mut elems, &DocOp::Remove { id: 1 }));
    assert!(!apply_doc_op_to(&mut elems, &DocOp::Remove { id: 1 }), "it is gone already");
}

#[test]
fn turns_are_clamped_and_flips_flip() {
    let mut elems = vec![
        spec(1, K::Switch { closed: false }, (0, 0), (1, 0)),
        ElementSpec::three(2, K::Potentiometer { ohms: x(1.0), wiper: x(0.5) }, (0, 0), (1, 1), (2, 0)),
        spec(3, r(5.0), (0, 0), (1, 0)),
    ];
    apply_interact_to(&mut elems, 2, InteractOp::SetValue { value: x(7.0) });
    assert_eq!(wiper_of(&elems, 2), Some(x(0.99)));
    apply_interact_to(&mut elems, 2, InteractOp::SetValue { value: x(-7.0) });
    assert_eq!(wiper_of(&elems, 2), Some(x(0.01)));
    assert_eq!(wiper_of(&elems, 3), None);
    assert_eq!(wiper_of(&elems, 9), None);
    apply_interact_to(&mut elems, 3, InteractOp::SetValue { value: x(0.0) });
    assert_eq!(elems[2].kind, r(1e-6));
    apply_interact_to(&mut elems, 1, InteractOp::SetSwitch { closed: true });
    assert_eq!(elems[0].kind, K::Switch { closed: true });
}

#[test]
fn sources_are_found_in_order() {
    let elems = vec![
        spec(5, dc(9.0), (0, 0), (1, 0)),
        spec(6, r(1.0), (0, 0), (1, 0)),
        spec(2, dc(5.0), (0, 0), (1, 0)),
    ];
    assert_eq!(source_ids(&elems), vec![5, 2]);
}

/// Moving a machine and moving it back leaves everything where it was.
#[test]
fn moving_back_undoes_a_move() {
    let mut elems = demo_room_circuit();
    let mut rect = default_hoist_rect();
    ensure_fixture(&mut elems, rect);
    let before: Vec<Vec<Point>> = elems.iter().map(|e| e.pins.clone()).collect();
    move_machine(&mut elems, &mut rect, 31, -17).unwrap();
    move_machine(&mut elems, &mut rect, -31, 17).unwrap();
    assert_eq!(rect, default_hoist_rect());
    let after: Vec<Vec<Point>> = elems.iter().map(|e| e.pins.clone()).collect();
    assert_eq!(before, after);
    assert_eq!(sane_rect(rect), rect);
    assert_eq!(hoist_rect(46, 2), default_hoist_rect());
}

/// The showcase keeps clear of the numbers that it must not use, and uses none twice.
#[test]
fn the_showcase_is_numbered_well() {
    let els = demo_room_circuit();
    assert_eq!(els.len(), 143);
    let mut ids: Vec<u32> = els.iter().map(|e| e.id).collect();
    ids.sort_unstable();
    ids.dedup();
    assert_eq!(ids.len(), els.len());
    assert!(ids.iter().all(|id| !reserved_id(*id)));
    for e in &els {
        assert_eq!(e.pins.len(), e.kind.pin_count());
    }
    let amp = els.iter().find(|e| e.id == 52).unwrap();
    assert_eq!(amp.kind, K::OpAmp { rail: x(5.0), isc: x(0.025) });
    let gate = els.iter().find(|e| e.id == 39).unwrap();
    assert_eq!(
        gate.kind,
        K::VoltageSource { wave: Wave::Sine, dc: x(3.0), amp: x(3.0), hz: x(0.3), phase: x(0.0) }
    );
    let cap = els.iter().find(|e| e.id == 76).unwrap();
    assert_eq!(cap.kind, K::Capacitor { farads: x(4.7e-6) });
    assert_eq!(cap.pins, vec![(4, 24), (4, 28)]);
}
