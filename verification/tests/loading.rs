use circuit_rooms::binary64::Real;
use circuit_rooms::fixture::{default_hoist_rect, sane_rect};
use circuit_rooms::handle::{build_handle, RoomHandle, RoomMeta};
use circuit_rooms::netlabels::{NetLabel, MAX_NET_LABELS, MAX_NET_LABEL_COORD};
use circuit_rooms::regions::{
    apply_label_box_op, norm_panel_rect, Drag, LabelBox, LabelBoxOp, Layer, Panel, Rect,
    MAX_LABEL_BOXES, MAX_LABEL_BOX_NAME, MAX_LAYERS, MAX_PANELS, MIN_PANEL_SPAN,
};
use circuit_rooms::registry::{CodeTries, Opened, Registry};
use circuit_rooms::save::{MachineSpec, RoomSetup, SaveFile};
use circuit_rooms::scopes::{Scope, ScopeSet, MAX_SCOPES, MIN_TIMEBASE};
use circuit_rooms::spans::is_short_of;

type Setup = RoomSetup<u8, u16, String>;
type Save = SaveFile<u8, u16, String>;
type Handle = RoomHandle<u8, u16, String>;

fn x(v: f64) -> Real {
    Real::of(v.to_bits())
}

fn rect(x0: f64, y0: f64, x1: f64, y1: f64) -> Rect {
    Rect { x0: x(x0), y0: x(y0), x1: x(x1), y1: x(y1) }
}

fn region(id: u32, r: Rect, name: &str) -> LabelBox {
    LabelBox { id, rect: r, name: name.into() }
}

fn label(nlid: u32, at: (i32, i32), name: &str) -> NetLabel {
    NetLabel { nlid, x: at.0, y: at.1, name: name.into() }
}

fn scope(sid: u32) -> Scope {
    Scope {
        sid,
        x: x(0.0),
        y: x(0.0),
        w: x(12.0),
        h: x(6.0),
        set: ScopeSet::default(),
        pids: None,
    }
}

fn setup() -> Setup {
    RoomSetup {
        elements: vec![],
        probes: vec![],
        next_pid: 1,
        panels: vec![],
        next_plid: 1,
        scopes: None,
        next_sid: 1,
        label_boxes: vec![],
        next_blid: 1,
        net_labels: vec![],
        next_nlid: 1,
        layers: vec![],
        next_lid: 1,
        machine: MachineSpec::Absent,
        view: String::new(),
        damage: 0,
        ext: false,
    }
}

/// Numbers and names of regions.
fn named(v: &[LabelBox]) -> Vec<(u32, &str)> {
    v.iter().map(|b| (b.id, b.name.as_str())).collect()
}

#[test]
fn old_saves_without_panels_load() {
    let s: Save = SaveFile { next_pid: 3, next_plid: 0, ..SaveFile::default() };
    assert!(s.panels.is_empty());
    assert_eq!(s.next_plid, 0);
    assert_eq!(s.into_setup().normalize().next_plid, 1);
}

#[test]
fn old_saves_without_annotation_load() {
    let s: Save = SaveFile { next_pid: 3, next_blid: 0, next_nlid: 0, ..SaveFile::default() };
    assert!(s.labelboxes.is_empty());
    assert!(s.netlabels.is_empty());
    assert_eq!(s.next_blid, 0);
    assert_eq!(s.next_nlid, 0);
    // ...and the setup they become is legal, with the id allocators repaired past whatever
    // a file happened to carry.
    let setup = s.into_setup().normalize();
    assert_eq!(setup.next_blid, 1);
    assert_eq!(setup.next_nlid, 1);
}

#[test]
fn a_hand_edited_save_cannot_smuggle_unbounded_annotation() {
    let mut s = setup();
    s.label_boxes = vec![
        region(500, rect(0.0, 0.0, 10.0, 10.0), &"x".repeat(4000)),
        // Degenerate: repaired away rather than kept as an invisible click target.
        region(501, rect(3.0, 3.0, 3.0, 9.0), "SLIVER"),
    ];
    s.net_labels = vec![
        label(900, (5, 5), "\u{7}\u{7}RAIL\n"),
        // A second label on the same point: first one wins.
        label(901, (5, 5), "GHOST"),
        label(902, (MAX_NET_LABEL_COORD + 9, 0), "OFF THE MAP"),
    ];
    s.label_boxes.extend((0..600).map(|k| region(1000 + k, rect(0.0, 0.0, 4.0, 4.0), "SPAM")));
    let s = s.normalize();
    assert_eq!(s.label_boxes.len(), MAX_LABEL_BOXES);
    assert_eq!(s.label_boxes[0].name.chars().count(), MAX_LABEL_BOX_NAME);
    assert!(
        !s.label_boxes.iter().any(|b| b.name == "SLIVER"),
        "a zero-width box is not a box"
    );
    assert_eq!(s.net_labels.len(), 1);
    assert_eq!(s.net_labels[0].name, "RAIL");
    // The allocators must clear every id that survived, or the next label a player draws
    // would collide with one already on the sheet.
    let max_blid = s.label_boxes.iter().map(|b| b.id).max().unwrap();
    assert!(s.next_blid > max_blid, "{} vs {max_blid}", s.next_blid);
    assert!(s.next_nlid > 900);
    // The next box is one more, and no other's.
    assert_eq!((max_blid, s.next_blid), (1000 + MAX_LABEL_BOXES as u32 - 2, max_blid + 1));
}

#[test]
fn what_an_op_could_have_made_is_kept_as_it_is() {
    let mut s = setup();
    s.panels = vec![
        Panel { id: 7, rect: rect(0.0, 0.0, 9.0, 9.0), name: "MIXER".into() },
        Panel { id: 3, rect: rect(-4.5, 1.0, 8.0, 20.0), name: "PANEL 3".into() },
    ];
    s.next_plid = 20;
    s.layers = vec![Layer { id: 1, rect: rect(0.0, 0.0, 20.0, 15.0), name: "CAMERA".into() }];
    s.next_lid = 2;
    s.net_labels = vec![label(4, (1, 2), "OUT"), label(2, (2, 1), "OUT")];
    s.next_nlid = 5;
    s.next_pid = 9;
    s.view = "home".into();
    s.damage = 3;
    s.ext = true;
    let n = s.normalize();
    assert_eq!(named(&n.panels), vec![(7, "MIXER"), (3, "PANEL 3")]);
    assert_eq!(n.panels[1].rect, rect(-4.5, 1.0, 8.0, 20.0));
    assert_eq!(named(&n.layers), vec![(1, "CAMERA")]);
    let labels: Vec<(u32, i32, i32)> = n.net_labels.iter().map(|l| (l.nlid, l.x, l.y)).collect();
    assert_eq!(labels, vec![(4, 1, 2), (2, 2, 1)]);
    assert_eq!((n.next_plid, n.next_lid, n.next_nlid, n.next_blid), (20, 2, 5, 1));
    assert_eq!((n.next_pid, n.view.as_str(), n.damage, n.ext), (9, "home", 3, true));
    assert!(n.scopes.is_none(), "still to be seeded");
}

#[test]
fn a_region_of_a_file_is_made_what_a_drag_makes() {
    let mut s = setup();
    // Drawn backwards, without a name, on no numbers, and with no number after it.
    s.panels = vec![
        Panel { id: 6, rect: rect(9.0, 9.0, 0.0, 0.0), name: " \t ".into() },
        Panel { id: 8, rect: rect(f64::NAN, 0.0, 9.0, 9.0), name: "NO".into() },
        Panel { id: u32::MAX, rect: rect(0.0, 0.0, 9.0, 9.0), name: "LAST".into() },
    ];
    let n = s.normalize();
    assert_eq!(n.panels.len(), 1);
    assert_eq!((n.panels[0].id, n.panels[0].rect), (6, rect(0.0, 0.0, 9.0, 9.0)));
    assert!(n.panels[0].name.ends_with('6'), "{}", n.panels[0].name);
    assert_eq!(n.next_plid, 7);

    let mut s = setup();
    s.panels = (0..999).map(|i| region(i, rect(0.0, 0.0, 9.0, 9.0), "P")).collect();
    s.layers = (0..99).map(|i| region(i, rect(0.0, 0.0, 9.0, 9.0), "L")).collect();
    s.net_labels = (0..999).map(|i| label(i, (i as i32, 0), "N")).collect();
    let n = s.normalize();
    assert_eq!((n.panels.len(), n.next_plid), (MAX_PANELS, MAX_PANELS as u32));
    assert_eq!((n.layers.len(), n.next_lid), (MAX_LAYERS, MAX_LAYERS as u32));
    assert_eq!((n.net_labels.len(), n.next_nlid), (MAX_NET_LABELS, MAX_NET_LABELS as u32));
}

#[test]
fn a_box_drawn_after_loading_gets_a_number_of_its_own() {
    let mut s = setup();
    s.label_boxes = vec![region(41, rect(0.0, 0.0, 9.0, 9.0), "OLD")];
    let mut n = s.normalize();
    let op = LabelBoxOp::Add {
        drag: Drag { x0: x(0.0), y0: x(0.0), x1: x(5.0), y1: x(5.0) },
        name: Some("NEW".into()),
    };
    assert!(apply_label_box_op(&mut n.label_boxes, &mut n.next_blid, &op));
    assert_eq!(named(&n.label_boxes), vec![(41, "OLD"), (42, "NEW")]);
}

#[test]
fn scopes_of_a_file_are_usable() {
    let mut wild = scope(5);
    wild.x = x(f64::NAN);
    wild.set.timebase = x(0.0);
    let mut s = setup();
    s.scopes = Some(vec![wild, scope(u32::MAX), scope(9)]);
    let n = s.normalize();
    let bench = n.scopes.unwrap();
    assert_eq!(bench.iter().map(|s| s.sid).collect::<Vec<_>>(), vec![5, 9]);
    assert_eq!((bench[0].x, bench[0].set.timebase.bits), (x(0.0), MIN_TIMEBASE));
    assert_eq!(n.next_sid, 10);

    let mut s = setup();
    s.scopes = Some((1..99).map(scope).collect());
    let n = s.normalize();
    assert_eq!((n.scopes.unwrap().len(), n.next_sid), (MAX_SCOPES, MAX_SCOPES as u32 + 1));
    let mut s = setup();
    s.scopes = Some(vec![]);
    assert!(s.normalize().scopes.unwrap().is_empty(), "somebody closed them all");
}

#[test]
fn whatever_a_room_is_opened_from_is_forced_onto_the_rules() {
    let odd = || {
        let mut s = setup();
        s.machine = MachineSpec::Hoist { rect: [i32::MAX, i32::MIN, 0, 0], state: 3 };
        s.label_boxes = vec![
            region(2, rect(0.0, 0.0, 0.0, 9.0), "SLIVER"),
            region(8, rect(0.0, 0.0, 9.0, 9.0), "BOX"),
        ];
        s
    };
    let sane = sane_rect([i32::MAX, i32::MIN, 0, 0]);
    let holds = |h: &Handle| {
        assert_eq!(named(&h.room.label_boxes), vec![(8, "BOX")]);
        assert_eq!(h.room.next_blid, 9);
        match h.machine {
            MachineSpec::Hoist { rect, .. } => assert_eq!(rect, sane),
            MachineSpec::Absent => panic!("the machine is gone"),
        }
    };
    let meta = RoomMeta {
        id: "AAAAAA".into(),
        name: "a".into(),
        template: "demo".into(),
        created: 1,
        played: 1,
    };
    let tries = CodeTries { numbers: vec![], files: vec![] };
    let r: Registry<u8, u16, String> = Registry::open(vec![Opened { meta, setup: odd() }]);
    holds(&r.rooms[0]);
    holds(&r.create("lab", "odd", Ok(odd()), &tries, 1).ok().unwrap());
    let r: Registry<u8, u16, String> = Registry::new();
    holds(&r.import_legacy(Some(odd()), &tries, 1).unwrap());
    holds(&r.ensure_one("odd", Ok(odd()), &tries, 1).unwrap().ok().unwrap());
}

#[test]
fn a_room_comes_back_from_its_file() {
    let mut s = setup();
    s.scopes = Some(vec![scope(3)]);
    s.next_sid = 4;
    s.panels = vec![Panel { id: 7, rect: rect(0.0, 0.0, 9.0, 9.0), name: "MIXER".into() }];
    s.next_plid = 8;
    s.machine = MachineSpec::Hoist { rect: default_hoist_rect(), state: 5 };
    let meta = |played: u64| RoomMeta {
        id: "AAAAAA".into(),
        name: "a".into(),
        template: "demo".into(),
        created: 1,
        played,
    };
    let mut h: Handle = build_handle(meta(1), s);
    assert!(h.enter(2).is_some());
    let machine = MachineSpec::Hoist { rect: default_hoist_rect(), state: 6 };
    let f = h.checkpoint(&machine, &11).unwrap();
    let mut r = Registry::open(vec![Opened { meta: meta(2), setup: f.into_setup() }]);
    let back = &r.rooms[0];
    assert_eq!(named(&back.room.panels), vec![(7, "MIXER")]);
    assert_eq!(back.room.scopes.iter().map(|s| s.sid).collect::<Vec<_>>(), vec![3]);
    assert_eq!((back.room.next_plid, back.room.next_sid), (8, 4));
    assert_eq!(back.room.elements.len(), h.room.elements.len());
    match back.machine {
        MachineSpec::Hoist { rect, state } => {
            assert_eq!((rect, state), (default_hoist_rect(), 6));
        }
        MachineSpec::Absent => panic!("the machine is gone"),
    }
    assert_eq!(r.enter(0, 3).unwrap().damage, 11);
}

#[test]
fn a_side_is_as_long_as_binary64_says() {
    let span = f64::from_bits(MIN_PANEL_SPAN);
    let up = |v: f64| f64::from_bits(v.to_bits() + 1);
    let down = |v: f64| f64::from_bits(v.to_bits() - 1);
    let mut ends = vec![
        0.0,
        -0.0,
        1.0,
        1.5,
        4.0,
        0.1,
        0.3,
        1e-300,
        5e-324,
        1e9,
        9e15,
        1e16,
        1e300,
        f64::MAX,
        f64::MIN_POSITIVE,
        span,
    ];
    for v in ends.clone() {
        if v > 0.0 && v < f64::MAX {
            ends.extend([up(v), down(v)]);
        }
        ends.push(v + span);
        ends.push(down(v + span));
    }
    ends.retain(|v| v.is_finite());
    ends.extend(ends.clone().iter().map(|v| -v));
    let spans = [span, up(span), down(span), 1.0, up(1.0), down(1.0), 5e-324, 1e-308, 1e16, f64::MAX];
    for low in &ends {
        for high in &ends {
            if low > high {
                continue;
            }
            for s in spans {
                let got = is_short_of(x(*low), x(*high), x(s));
                assert_eq!(got, high - low < s, "{high:e} - {low:e} < {s:e}");
            }
        }
    }
    // Halfway between a number and the next the even one is taken.
    assert!(is_short_of(x(f64::EPSILON / 4.0), x(1.0), x(1.0)) == (1.0 - f64::EPSILON / 4.0 < 1.0));
    // The rounded difference is what a panel is judged by.
    let thin = Drag { x0: x(0.1), y0: x(0.0), x1: x(down(0.1 + span)), y1: x(9.0) };
    let wide = down(0.1 + span) - 0.1 >= span;
    assert_eq!(norm_panel_rect(&thin).is_some(), wide);
}
