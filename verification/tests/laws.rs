use circuit_rooms::binary64::{fin, Real};
use circuit_rooms::commands::{supersede, Cmd};
use circuit_rooms::document::{apply_doc_op_to, apply_interact_to, DocOp, InteractOp};
use circuit_rooms::fixture::{
    default_hoist_rect, ensure_fixture, move_machine, move_machine_for, sane_rect_for, MachineDef,
    Size,
};
use circuit_rooms::netlabels::NetLabelOp;
use circuit_rooms::parts::{ElementKind as K, ElementSpec, Point};
use circuit_rooms::probes::ProbeKind;
use circuit_rooms::regions::{Drag, LabelBoxOp, PanelOp};
use circuit_rooms::room::{Action, Room};
use circuit_rooms::text::{clean_name, numbered};
use circuit_rooms::tick::{begin_work, perform, start, Answers};

fn x(v: f64) -> Real {
    Real::of(v.to_bits())
}

fn knob(id: u32, wiper: f64) -> ElementSpec {
    let kind = K::Potentiometer { ohms: x(1e4), wiper: x(wiper) };
    ElementSpec::new(id, kind, vec![(0, 0), (2, 2), (4, 0)])
}

/// The parts, written out.
fn written(elems: &[ElementSpec]) -> Vec<String> {
    elems.iter().map(|e| format!("{e:?}")).collect()
}

fn room(elements: Vec<ElementSpec>) -> Room {
    Room {
        elements,
        probes: vec![],
        panels: vec![],
        scopes: vec![],
        label_boxes: vec![],
        net_labels: vec![],
        layers: vec![],
        claims: vec![],
        chat: std::collections::VecDeque::new(),
        next_client: 1,
        next_pid: 1,
        next_plid: 1,
        next_sid: 1,
        next_blid: 1,
        next_nlid: 1,
        next_lid: 1,
        population: 1,
        dirty: false,
        ext: false,
    }
}

#[test]
fn a_fence_holds_and_leaves_what_is_inside() {
    let f = |v: f64| fin(x(v), x(-2.0), x(3.0), x(1.0));
    assert_eq!(f(0.5), x(0.5));
    assert_eq!(f(-9.0), x(-2.0));
    assert_eq!(f(9.0), x(3.0));
    for v in [f64::NAN, f64::INFINITY, f64::NEG_INFINITY] {
        assert_eq!(f(v), x(1.0));
    }
}

#[test]
fn a_clean_name_stays_clean() {
    for s in ["  a\u{7} b  ", "\u{202e}x", "", " \t ", "  long enough to be cut off  "] {
        let once = clean_name(s, 9);
        assert_eq!(clean_name(&once, 9), once);
        assert!(once.chars().count() <= 9);
    }
    assert_eq!(numbered("NET ", 4_294_967_295), "NET 4294967295");
    assert_eq!(numbered("NET ", 0), "NET 0");
}

#[test]
fn only_the_last_turn_and_the_last_move_count() {
    let turn = |v: f64| InteractOp::SetValue { value: x(v) };
    let mut both = vec![knob(5, 0.5)];
    apply_interact_to(&mut both, 5, turn(0.1));
    apply_interact_to(&mut both, 5, turn(0.8));
    let mut last = vec![knob(5, 0.5)];
    apply_interact_to(&mut last, 5, turn(0.8));
    assert_eq!(written(&both), written(&last));

    let to = |d: i32| DocOp::Move { id: 5, pins: vec![(d, 0), (d + 2, 2), (d + 4, 0)], rot: None };
    assert!(apply_doc_op_to(&mut both, &to(7)) && apply_doc_op_to(&mut both, &to(9)));
    assert!(apply_doc_op_to(&mut last, &to(9)));
    assert_eq!(written(&both), written(&last));
}

#[test]
fn superseding_is_invisible_and_done_once() {
    let drag = |id: u32, d: i32| Cmd::Edit {
        who: 1,
        op: DocOp::Move { id, pins: vec![(d, 0), (d + 2, 2), (d + 4, 0)], rot: None },
    };
    let turn = |id: u32, v: f64| Cmd::Interact {
        who: 1,
        id,
        op: InteractOp::SetValue { value: x(v) },
    };
    let all = || {
        vec![drag(5, 1), turn(5, 0.2), drag(6, 3), turn(5, 0.9), drag(5, 8), turn(6, 0.3)]
    };
    let run = |cmds: Vec<Cmd>| {
        let mut elems = vec![knob(5, 0.5), knob(6, 0.5)];
        for c in cmds {
            match c {
                Cmd::Edit { op, .. } => assert!(apply_doc_op_to(&mut elems, &op)),
                Cmd::Interact { id, op, .. } => apply_interact_to(&mut elems, id, op),
                _ => unreachable!(),
            }
        }
        written(&elems)
    };
    let mut few = all();
    supersede(&mut few);
    assert_eq!(few.len(), 4);
    let once = format!("{few:?}");
    supersede(&mut few);
    assert_eq!(format!("{few:?}"), once);
    assert_eq!(run(few), run(all()));
}

#[test]
fn superseding_keeps_a_rotation_and_a_good_move() {
    let drag = |d: i32, rot: Option<u8>| Cmd::Edit {
        who: 1,
        op: DocOp::Move { id: 5, pins: vec![(d, 0), (d + 2, 2), (d + 4, 0)], rot },
    };
    let short = || Cmd::Edit { who: 1, op: DocOp::Move { id: 5, pins: vec![(9, 9)], rot: None } };
    let run = |cmds: Vec<Cmd>| {
        let mut elems = vec![knob(5, 0.5)];
        for c in cmds {
            if let Cmd::Edit { op, .. } = c {
                let _ = apply_doc_op_to(&mut elems, &op);
            }
        }
        elems.remove(0)
    };
    let few = |mut cmds: Vec<Cmd>| {
        supersede(&mut cmds);
        cmds
    };
    // A plain move does not reset the orientation that an earlier one set.
    let kept = few(vec![drag(1, Some(1)), drag(2, None), drag(3, None)]);
    assert_eq!(kept.len(), 2);
    let end = run(kept);
    assert_eq!((end.rot, end.pins[0]), (1, (3, 0)));
    // A later turn replaces it, and so does a later move of one that did not turn.
    assert_eq!(few(vec![drag(1, Some(1)), drag(2, Some(2))]).len(), 1);
    assert_eq!(few(vec![drag(1, None), drag(2, Some(2))]).len(), 1);
    // A move that the part refuses does not replace one that it takes.
    for bad in [short(), drag(8, Some(4))] {
        let end = run(few(vec![drag(1, Some(3)), bad]));
        assert_eq!((end.rot, end.pins[0]), (3, (1, 0)));
    }
}

#[test]
fn a_move_and_its_opposite_undo_each_other() {
    let mut elems = vec![knob(5, 0.5)];
    let mut rect = default_hoist_rect();
    ensure_fixture(&mut elems, rect);
    let before = written(&elems);
    ensure_fixture(&mut elems, rect);
    assert_eq!(written(&elems), before, "standing up twice is standing up once");
    assert!(move_machine(&mut elems, &mut rect, 30, -4).is_some());
    assert_ne!(written(&elems), before);
    assert!(move_machine(&mut elems, &mut rect, -30, 4).is_some());
    assert_eq!((written(&elems), rect), (before, default_hoist_rect()));
}

#[test]
fn a_second_machine_is_a_second_definition() {
    let pins = |r: [i32; 4]| -> [Point; 2] { [(r[0], r[1]), (r[2], r[3])] };
    let def = MachineDef {
        kind: "crank",
        size: Size { w: 4, h: 2 },
        fixtures: |r: [i32; 4]| {
            let [a, b] = pins(r);
            vec![ElementSpec::two(990, K::Switch { closed: false }, a, b)]
        },
    };
    assert_eq!(sane_rect_for(&def, [9, 9, 5, 5]), [5, 5, 9, 7]);
    let mut elems = vec![ElementSpec::two(990, K::Switch { closed: true }, (0, 0), (1, 0))];
    let mut rect = [5, 5, 9, 7];
    let moved = move_machine_for(&def, &mut elems, &mut rect, 1, 0).unwrap();
    assert_eq!((moved[0].id, moved[0].pins.clone()), (990, vec![(6, 5), (10, 7)]));
    assert_eq!(rect, [6, 5, 10, 7]);
    assert_eq!(elems[0].kind, K::Switch { closed: true }, "its value survives");
    assert_eq!(elems[0].pins, vec![(6, 5), (10, 7)]);
    assert!(move_machine_for(&def, &mut elems, &mut rect, 0, 0).is_none());
}

#[test]
fn annotation_never_reaches_the_circuit() {
    let mut room = room(vec![knob(5, 0.5)]);
    let mut sim = start(&room, false, default_hoist_rect());
    let mut work = begin_work();
    let before = written(&room.elements);
    let drag = Drag {
        x0: x(0.0),
        y0: x(0.0),
        x1: x(9.0),
        y1: x(9.0),
    };
    for cmd in [
        Cmd::Panel { op: PanelOp::Add { drag, name: None } },
        Cmd::LabelBox { op: LabelBoxOp::Add { drag, name: None } },
        Cmd::NetLabel { op: NetLabelOp::Add { x: 0, y: 0, name: Some("RAIL".into()) } },
        Cmd::NetLabel { op: NetLabelOp::Add { x: 4, y: 0, name: Some("RAIL".into()) } },
        Cmd::Probe { elem: 5, pin: 0, kind: ProbeKind::V },
    ] {
        let none = Answers { verdict: None, gap: x(0.0), over: vec![] };
        for act in perform(&mut room, &mut sim, &mut work, cmd, none) {
            assert!(!matches!(
                act,
                Action::Rebuild { .. } | Action::Interact { .. } | Action::Hold { .. }
            ));
        }
    }
    assert_eq!(written(&room.elements), before);
    assert_eq!(room.net_labels[0].name, room.net_labels[1].name, "and two nets may share a name");
}
