use circuit_rooms::binary64::Real;
use circuit_rooms::clock::{now_secs, seconds_or_zero};
use circuit_rooms::codes::{
    clean_room_name, code_of, file_code, is_code_char, is_template_id, valid_code,
};
use circuit_rooms::fixture::{
    default_hoist_rect, ensure_fixture, hoist_fixture_at, move_machine, sane_rect, HOIST_H,
    HOIST_W, MOTOR_ID, WORLD_LIMIT,
};
use circuit_rooms::handle::{build_handle, Life, RoomHandle, RoomMeta};
use circuit_rooms::netlabels::NetLabel;
use circuit_rooms::parts::{ElementKind as K, ElementSpec};
use circuit_rooms::probes::{ProbeKind, SavedProbe};
use circuit_rooms::regions::{Layer, Rect};
use circuit_rooms::registry::{
    boot_order, meta_in, template_error, CodeTries, CreateErr, Found, Opened, Registry, ResolveErr,
    CODE_TRIES, MAX_ROOMS,
};
use circuit_rooms::save::{MachineSpec, RoomSetup, SaveFile, SAVE_VERSION};

type Setup = RoomSetup<u8, u16, String>;
type Save = SaveFile<u8, u16, String>;
type Handle = RoomHandle<u8, u16, String>;

fn x(v: f64) -> Real {
    Real::of(v.to_bits())
}

fn wire(id: u32) -> ElementSpec {
    ElementSpec::two(id, K::Wire, (0, 0), (0, 4))
}

fn setup(elements: Vec<ElementSpec>) -> Setup {
    RoomSetup {
        elements,
        probes: vec![],
        next_pid: 1,
        panels: vec![],
        next_plid: 1,
        scopes: Some(vec![]),
        next_sid: 1,
        label_boxes: vec![],
        next_blid: 1,
        net_labels: vec![],
        next_nlid: 1,
        layers: vec![],
        next_lid: 1,
        machine: MachineSpec::Absent,
        view: String::from("home"),
        damage: 0,
        ext: false,
    }
}

fn meta(id: &str, played: u64) -> RoomMeta {
    RoomMeta {
        id: id.into(),
        name: format!("room {id}"),
        template: "demo".into(),
        created: 1,
        played,
    }
}

fn registry(rooms: &[(&str, u64)]) -> Registry<u8, u16, String> {
    let found = rooms
        .iter()
        .map(|(id, played)| Opened { meta: meta(id, *played), setup: setup(vec![wire(1)]) })
        .collect();
    Registry::open(found)
}

fn tries(numbers: &[u64], files: &[&str]) -> CodeTries {
    CodeTries {
        numbers: numbers.to_vec(),
        files: files.iter().map(|f| String::from(*f)).collect(),
    }
}

#[test]
fn the_externally_driven_badge_survives_a_checkpoint() {
    let mut s = setup(vec![wire(1)]);
    s.ext = true;
    let save: Save = SaveFile::from_setup(&s);
    assert!(save.ext, "from_setup dropped the badge");
    assert!(save.into_setup().ext, "badge was lost on the way back to a room");

    // And a save written before any of this existed loads unbranded.
    let legacy: Save = SaveFile::default();
    assert!(!legacy.ext, "an old save must not come back branded");
}

#[test]
fn a_saved_footprint_survives_a_restart_and_is_sanitized() {
    // Round trip: the rect a drag left behind comes back identical.
    let mut elements = vec![wire(1)];
    let mut rect = default_hoist_rect();
    ensure_fixture(&mut elements, rect);
    move_machine(&mut elements, &mut rect, -20, 40).unwrap();
    let back: Save = SaveFile { elements, next_pid: 1, hoist_rect: rect, ..SaveFile::default() };
    assert_eq!(back.hoist_rect, rect);
    // Reloading re-derives the children from the restored rect, so the save and the
    // fixture cannot come back disagreeing.
    let mut restored = back.elements;
    ensure_fixture(&mut restored, sane_rect(back.hoist_rect));
    for w in hoist_fixture_at(rect) {
        assert_eq!(restored.iter().find(|e| e.id == w.id).unwrap().pins, w.pins);
    }
    // A hand-edited or corrupt rect is forced back onto the invariants: normalized
    // corners, fixed size, inside the world.
    let [rx0, ry0, rx1, ry1] = default_hoist_rect();
    assert_eq!(sane_rect([rx1, ry1, rx0, ry0]), default_hoist_rect());
    let far = sane_rect([i32::MAX, i32::MIN, 0, 0]);
    assert_eq!((far[2] - far[0], far[3] - far[1]), (HOIST_W, HOIST_H));
    assert!(far[2] <= WORLD_LIMIT && far[1] >= -WORLD_LIMIT, "{far:?}");
}

#[test]
fn layers_persist_but_readings_and_claims_do_not() {
    // A room saved while fully lit...
    let cell = K::Photocell { r_dark: x(1e6), r_lit: x(1e3), light: x(1.0) };
    let mut s = setup(vec![ElementSpec::two(7, cell, (2, 2), (2, 6))]);
    let rect = Rect { x0: x(0.0), y0: x(0.0), x1: x(20.0), y1: x(15.0) };
    s.layers = vec![Layer { id: 3, rect, name: "CAMERA 3".into() }];
    s.next_lid = 4;
    let save: Save = SaveFile::from_setup(&s);
    assert_eq!(save.elements[0].kind, cell, "the setup is taken whole");
    let save = save.for_disk();
    assert_eq!(save.layers[0].name, "CAMERA 3", "the rectangle is document state");
    match save.elements[0].kind {
        K::Photocell { light, .. } => assert_eq!(light, x(0.0), "a reading reached the save file"),
        _ => panic!("wrong kind"),
    }

    let back = save.into_setup().normalize();
    assert_eq!(back.layers.len(), 1);
    assert_eq!(back.layers[0].id, 3);
    // ...loads dark.
    match back.elements[0].kind {
        K::Photocell { light, r_dark, .. } => {
            assert_eq!(light, x(0.0), "a saved room loaded with a light nobody is shining");
            assert_eq!(r_dark, x(1e6), "the calibration must survive");
        }
        _ => panic!("wrong kind"),
    }
    let h: Handle = build_handle(meta("ABCDEF", 1), back);
    assert!(h.room.claims.is_empty(), "a claim reached the save file");

    // And a save written before any of this existed still loads.
    let old: Save = SaveFile::default();
    let s = old.into_setup().normalize();
    assert!(s.layers.is_empty());
    assert_eq!(s.next_lid, 1);
}

#[test]
fn a_checkpoint_is_dark_and_the_room_stays_lit() {
    let cell = K::Photocell { r_dark: x(1e6), r_lit: x(1e3), light: x(0.5) };
    let s = setup(vec![wire(1), ElementSpec::two(7, cell, (2, 2), (2, 6))]);
    let mut h: Handle = build_handle(meta("ABCDEF", 1), s);
    assert!(h.enter(2).is_some());
    let f = h.snapshot(&MachineSpec::Absent, &0);
    assert_eq!((f.elements[0].kind, f.elements[1].kind), (K::Wire, cell));
    let f = h.checkpoint(&MachineSpec::Absent, &0).unwrap();
    let dark = K::Photocell { r_dark: x(1e6), r_lit: x(1e3), light: x(0.0) };
    assert_eq!((f.elements[0].kind, f.elements[1].kind), (K::Wire, dark));
    assert_eq!(h.room.elements[1].kind, cell);
}

#[test]
fn a_template_is_the_level_without_the_playthrough() {
    let mut s = setup(vec![wire(1)]);
    s.machine = MachineSpec::Hoist { rect: [10, 20, 26, 35], state: 7 };
    s.damage = 12;
    s.ext = true;
    let h: Handle = build_handle(meta("ABCDEF", 5), s);
    let t = h.as_template_setup(None, |v| v);
    match t.machine {
        MachineSpec::Hoist { rect, state } => {
            assert_eq!((rect, state), ([10, 20, 26, 35], 0), "where it stands, untouched");
        }
        MachineSpec::Absent => panic!("the machine is part of the level"),
    }
    assert_eq!((t.damage, t.ext), (0, false));
    assert_eq!(t.elements.len(), h.room.elements.len());

    // A template that somebody edited by hand gives no head start either.
    let mut s = setup(vec![wire(1)]);
    s.machine = MachineSpec::Hoist { rect: [10, 20, 26, 35], state: 7 };
    s.damage = 12;
    s.ext = true;
    let r = registry(&[]);
    let made = r.create("lab", "odd", Ok(s), &tries(&[], &[]), 1).ok().unwrap();
    match made.machine {
        MachineSpec::Hoist { rect, state } => assert_eq!((rect, state), ([10, 20, 26, 35], 0)),
        MachineSpec::Absent => panic!("the machine is part of the level"),
    }
    assert_eq!(made.parked.unwrap().damage, 0);
    assert!(!made.room.ext);

    // The world of a server that had only one room is taken over as it was.
    let mut s = setup(vec![wire(1)]);
    s.damage = 12;
    s.ext = true;
    let kept = r.import_legacy(Some(s), &tries(&[], &[]), 5).unwrap();
    assert_eq!((kept.parked.unwrap().damage, kept.room.ext), (12, true));
}

#[test]
fn an_old_save_has_a_hoist_and_counters_that_start() {
    let old: Save = SaveFile {
        next_pid: 0,
        next_plid: 0,
        next_sid: 0,
        next_blid: 0,
        next_nlid: 0,
        machine: None,
        hoist: 9,
        ..SaveFile::default()
    };
    let s = old.into_setup();
    assert_eq!((s.next_pid, s.next_plid, s.next_sid, s.next_blid, s.next_nlid), (1, 1, 1, 1, 1));
    match s.machine {
        MachineSpec::Hoist { rect, state } => assert_eq!((rect, state), (default_hoist_rect(), 9)),
        MachineSpec::Absent => panic!("every room had a hoist"),
    }
    assert!(s.scopes.is_none(), "an absent list is still to be seeded");
}

#[test]
fn net_labels_of_a_file_become_parts() {
    let mut s = setup(vec![wire(1), wire(40)]);
    s.net_labels = vec![
        NetLabel { nlid: 1, x: 4, y: 5, name: "RAIL".into() },
        NetLabel { nlid: 2, x: 6, y: 7, name: "OUT".into() },
    ];
    let save: Save = SaveFile::from_setup(&s);
    assert_eq!(save.v, SAVE_VERSION);
    let t = save.into_setup();
    assert!(t.net_labels.is_empty());
    let got: Vec<(u32, K, &str)> =
        t.elements[2..].iter().map(|e| (e.id, e.kind, e.name.as_str())).collect();
    assert_eq!(got, vec![(41, K::Label, "RAIL"), (42, K::Label, "OUT")]);
    assert_eq!(t.elements[2].pins, vec![(4, 5)]);
    assert!(t.elements[..2].iter().all(|e| e.name.is_empty()));
}

#[test]
fn a_file_says_whose_it_is() {
    let f: Save = SaveFile::from_setup(&setup(vec![]));
    assert_eq!((f.kind.as_str(), f.id.as_str()), ("room", ""));
    let f = f.with_identity("template", "demo", "The demo").with_blurb("one line");
    assert_eq!((f.kind.as_str(), f.id.as_str(), f.name.as_str()), ("template", "demo", "The demo"));
    assert_eq!(f.blurb, "one line");
    let now = meta_in("ABCDEF", &Save::default(), 77);
    assert_eq!((now.name.as_str(), now.template.as_str()), ("ABCDEF", "demo"));
    assert_eq!((now.created, now.played), (77, 0), "nobody has played it");
    let kept = meta_in("ABCDEF", &f, 77);
    assert_eq!(kept.name, "The demo");
}

#[test]
fn a_room_with_a_machine_is_built_with_its_parts() {
    let mut s = setup(vec![wire(1)]);
    s.machine = MachineSpec::Hoist { rect: default_hoist_rect(), state: 3 };
    s.next_pid = 0;
    s.probes = vec![SavedProbe { pid: 4, elem: 1, pin: 0, kind: ProbeKind::V, r: None }];
    s.damage = 12;
    let mut h: Handle = build_handle(meta("ABCDEF", 5), s);
    assert!(h.has_machine);
    assert!(h.room.elements.iter().any(|e| e.id == MOTOR_ID));
    assert_eq!((h.room.next_pid, h.room.probes[0].pid), (1, 4));
    assert!(!h.is_live());

    // Somebody comes: the room wakes with what it kept.
    let woken = h.enter(50).unwrap();
    assert_eq!(woken.damage, 12);
    assert!(h.is_live());
    assert_eq!((h.players(), h.meta().played), (1, 50));
    assert!(h.enter(60).is_none(), "it runs already");
    assert_eq!(h.meta().played, 50);
    h.leave(70);
    h.leave(80);
    assert_eq!((h.players(), h.meta().played), (0, 80));

    // It parks, and wakes with what the task handed back.
    h.park(MachineSpec::Hoist { rect: default_hoist_rect(), state: 4 }, 13);
    assert!(matches!(h.life, Life::Parked));
    assert_eq!(h.enter(90).unwrap().damage, 13);

    // A checkpoint is the room; a deleted room has none, and is not woken.
    let machine = MachineSpec::Hoist { rect: default_hoist_rect(), state: 6 };
    let f = h.checkpoint(&machine, &14).unwrap();
    assert_eq!((f.id.as_str(), f.played, f.damage, f.hoist), ("ABCDEF", 90, 14, 6));
    assert_eq!(f.elements.len(), h.room.elements.len());
    let short = |v: String| String::from(&v[..2]);
    let t = h.as_template_setup(None, short);
    assert_eq!((t.ext, t.damage, t.view.as_str()), (false, 0, "ho"));
    assert_eq!(h.as_template_setup(Some("lab".into()), short).view, "la");
    assert_eq!(h.as_template_setup(Some("lab".into()), |v| v).view, "lab");
    h.evict();
    assert!(h.checkpoint(&machine, &14).is_none());
    h.park(MachineSpec::Absent, 0);
    assert!(h.enter(95).is_none());
}

#[test]
fn codes_leave_out_what_is_misread() {
    assert!(valid_code("A2Z9KM"));
    for bad in ["", "A2Z9K", "A2Z9KMM", "a2z9km", "A2Z9K0", "A2Z9KO", "A2Z9K1", "A2Z9KI", "A2Z9KL", "A2Z9KU"]
    {
        assert!(!valid_code(bad), "{bad}");
    }
    let alphabet = (0u8..128).map(char::from).filter(|c| is_code_char(*c)).count();
    assert_eq!(alphabet, 30);
    assert_eq!(file_code("A2Z9KM.json"), Some(String::from("A2Z9KM")));
    for bad in ["A2Z9KM", "A2Z9KM.jso", "A2Z9K.json", ".json", "A2Z9KM.json.json", "json"] {
        assert_eq!(file_code(bad), None, "{bad}");
    }
    assert_eq!(code_of(0), "222222");
    assert_eq!(code_of(1 + 30 * 29), "3Z2222");
    assert!(valid_code(&code_of(u64::MAX)));
    assert_eq!(code_of(728_999_999), "ZZZZZZ");
    assert_eq!(code_of(729_000_000), "222222", "and round again");
    assert!(is_template_id("my-room_2"));
    for bad in ["", "a b", "../x", "a.json", "caf\u{e9}"] {
        assert!(!is_template_id(bad), "{bad}");
    }
    assert_eq!(clean_room_name("  my\troom\u{202e} "), "myroom");
    assert_eq!(clean_room_name(&"n".repeat(90)).len(), 40);
}

#[test]
fn the_clock_is_past_the_epoch() {
    assert_eq!(seconds_or_zero(None), 0);
    assert_eq!(seconds_or_zero(Some(5)), 5);
    assert!(now_secs() > 1_600_000_000);
}

#[test]
fn a_room_is_found_by_its_code_and_the_latest_without_one() {
    let mut r = registry(&[("CCCCCC", 5), ("AAAAAA", 9), ("BBBBBB", 7)]);
    assert_eq!(r.all(), vec!["AAAAAA", "BBBBBB", "CCCCCC"]);
    assert_eq!(r.get("BBBBBB"), Some(1));
    assert_eq!(r.get("DDDDDD"), None);
    assert_eq!(r.resolve(None), Some(0));
    assert_eq!(r.resolve(Some("CCCCCC")), Some(2));
    assert_eq!(r.resolve(Some("nope")), None);
    // The lobby hears of the latest first.
    let listed: Vec<String> = r.list().into_iter().map(|i| i.id).collect();
    assert_eq!(listed, vec!["AAAAAA", "BBBBBB", "CCCCCC"]);
    assert_eq!(r.list()[0].parts, 1);

    let gone = r.delete("AAAAAA").unwrap();
    assert!(gone.deleted && matches!(gone.life, Life::Gone));
    assert!(r.delete("AAAAAA").is_none());
    assert_eq!(r.default_room().map(|i| r.rooms[i].meta.id.clone()), Some("BBBBBB".into()));

    assert_eq!(r.rename("CCCCCC", "  new\n "), Some(1));
    assert_eq!(r.rooms[1].meta.name, "new");
    assert_eq!(r.rename("CCCCCC", " \n "), None);
    assert_eq!(r.rename("DDDDDD", "new"), None);
    r.refresh_default();
    assert_eq!(r.default_code, Some("BBBBBB".into()));
}

#[test]
fn whoever_comes_and_goes_is_counted() {
    let mut r = registry(&[("AAAAAA", 5), ("BBBBBB", 7)]);
    assert!(r.enter(0, 11).is_some(), "a parked room is woken");
    assert!(r.enter(0, 12).is_none());
    assert_eq!((r.rooms[0].players(), r.rooms[1].players()), (2, 0));
    r.leave(0, 13);
    assert_eq!((r.rooms[0].players(), r.rooms[0].meta().played), (1, 13));
    assert_eq!(r.list()[0].id, "AAAAAA", "it was played last");
    assert!(r.list()[0].live);
}

#[test]
fn whoever_names_no_room_lands_where_they_last_were() {
    let mut r = registry(&[("AAAAAA", 5), ("BBBBBB", 7)]);
    let h = r.prepare("new", "demo", setup(vec![]), &tries(&[0], &[]), 20).ok().unwrap();
    assert!(r.publish(h, true).is_ok());
    let code = |r: &mut Registry<u8, u16, String>| {
        let i = r.resolve(None).unwrap();
        r.rooms[i].meta.id.clone()
    };
    assert_eq!(code(&mut r), "222222", "a new room counts as played");
    let b = r.get("BBBBBB").unwrap();
    assert!(r.enter(b, 30).is_some());
    assert_eq!(code(&mut r), "BBBBBB");
    let a = r.get("AAAAAA").unwrap();
    assert!(r.enter(a, 31).is_some());
    r.leave(a, 32);
    assert_eq!(code(&mut r), "AAAAAA");
    // Somebody else was in the other room for longer.
    r.leave(b, 33);
    assert_eq!(code(&mut r), "BBBBBB");
    // In the same second: the one that was left last.
    r.leave(a, 33);
    assert_eq!(code(&mut r), "AAAAAA");
    // A clock that runs backwards makes no room the latest.
    r.leave(a, 1);
    assert_eq!(code(&mut r), "BBBBBB");
    // Coming into a room that runs already is not yet playing it.
    assert!(r.enter(a, 40).is_none());
    assert_eq!(code(&mut r), "BBBBBB");
}

#[test]
fn a_code_is_found_when_no_number_gives_one() {
    let r = registry(&[("222222", 5), ("422222", 6)]);
    // Every number is a room's or a file's: the codes are counted up.
    let code = r.mint_code(&tries(&[0; CODE_TRIES], &["322222"]));
    assert_eq!(code, code_of(3));
    assert!(valid_code(&code) && r.get(&code).is_none());
    // A frozen clock gives the same number each time.
    let code = r.mint_code(&tries(&[2; CODE_TRIES], &[]));
    assert_eq!(code, code_of(1));
    // A full house but one.
    let codes: Vec<String> = (0..MAX_ROOMS as u64 - 1).map(code_of).collect();
    let rooms: Vec<(&str, u64)> = codes.iter().map(|c| (c.as_str(), 1)).collect();
    let r = registry(&rooms);
    let code = r.mint_code(&tries(&[7], &[]));
    assert_eq!(code, code_of(MAX_ROOMS as u64 - 1));
    assert!(valid_code(&code) && r.get(&code).is_none());
}

#[test]
fn an_empty_server_has_no_default() {
    let mut r: Registry<u8, u16, String> = Registry::new();
    assert!(r.is_empty());
    assert_eq!(r.default_room(), None);
    assert_eq!(r.resolve(None), None);
    assert!(r.list().is_empty());
}

#[test]
fn a_new_room_gets_a_fresh_code_and_is_the_default() {
    let mut r = registry(&[("222222", 5)]);
    let three = tries(&[0, 1, 2], &["322222"]);
    assert_eq!(r.mint_code(&three), code_of(2));
    assert_eq!(r.mint_code(&tries(&[], &[])), code_of(1));
    let h = r.prepare(" lab ", "demo", setup(vec![]), &three, 99).ok().unwrap();
    assert_eq!((h.meta.id.clone(), h.meta.name.as_str()), (code_of(2), "lab"));
    assert_eq!((h.meta.created, h.meta.played), (99, 99));
    assert!(r.publish(h, true).is_ok());
    assert_eq!(r.default_code, Some(code_of(2)));
    assert_eq!(r.get("422222"), Some(1));

    // What was not written is not there.
    let h = r.prepare("x", "demo", setup(vec![]), &tries(&[], &[]), 100).ok().unwrap();
    assert!(matches!(r.publish(h, false), Err(CreateErr::Io)));
    assert_eq!(r.rooms.len(), 2);
}

#[test]
fn a_room_is_refused_without_a_name_and_over_the_budget() {
    let r = registry(&[]);
    let got = r.prepare(" \u{7} ", "demo", setup(vec![]), &tries(&[], &[]), 1);
    assert!(matches!(got, Err(CreateErr::BadName)));
    let codes: Vec<String> = (0..MAX_ROOMS as u64).map(code_of).collect();
    let rooms: Vec<(&str, u64)> = codes.iter().map(|c| (c.as_str(), 1)).collect();
    let r = registry(&rooms);
    let got = r.prepare("lab", "demo", setup(vec![]), &tries(&[], &[]), 1);
    assert!(matches!(got, Err(CreateErr::TooMany)));
    assert!(matches!(template_error(ResolveErr::Missing), CreateErr::NoTemplate));
    assert!(matches!(template_error(ResolveErr::Bad("why")), CreateErr::BadTemplate("why")));
}

#[test]
fn a_template_is_refused_before_a_name_is() {
    let r = registry(&[]);
    let missing = r.create(" ", "none", Err(ResolveErr::Missing), &tries(&[], &[]), 1);
    assert!(matches!(missing, Err(CreateErr::NoTemplate)));
    let bad = r.create("lab", "odd", Err(ResolveErr::Bad("ids")), &tries(&[], &[]), 1);
    assert!(matches!(bad, Err(CreateErr::BadTemplate("ids"))));
    let unnamed = r.create(" ", "demo", Ok(setup(vec![])), &tries(&[], &[]), 1);
    assert!(matches!(unnamed, Err(CreateErr::BadName)));
    let made = r.create("lab", "demo", Ok(setup(vec![])), &tries(&[], &[]), 1).ok().unwrap();
    assert_eq!((made.meta.name.as_str(), made.meta.template.as_str()), ("lab", "demo"));
}

#[test]
fn a_server_without_rooms_gets_one() {
    let r = registry(&[]);
    let first = r.ensure_one("demo", Ok(setup(vec![])), &tries(&[], &[]), 4).unwrap().ok().unwrap();
    assert_eq!((first.meta.name.as_str(), first.meta.created), ("Main Room", 4));
    let kept = r.import_legacy(Some(setup(vec![wire(8)])), &tries(&[], &[]), 5).unwrap();
    assert_eq!((kept.meta.name.as_str(), kept.room.elements[0].id), ("Main Room", 8));
    assert!(r.import_legacy(None, &tries(&[], &[]), 5).is_none());
    let r = registry(&[("222222", 5)]);
    assert!(r.ensure_one("demo", Ok(setup(vec![])), &tries(&[], &[]), 4).is_none());
    assert!(r.import_legacy(Some(setup(vec![])), &tries(&[], &[]), 5).is_none());
}

#[test]
fn the_latest_files_are_opened_first() {
    let file = |code: &str, played: u64| Found {
        code: code.into(),
        save: Save { played, ..SaveFile::default() },
    };
    let order: Vec<String> = boot_order(vec![file("A", 3), file("B", 9), file("C", 3)])
        .into_iter()
        .map(|f| f.code)
        .collect();
    assert_eq!(order, vec!["B", "A", "C"]);
    let many = boot_order((0..90).map(|i| file("X", i)).collect());
    assert_eq!(many.len(), MAX_ROOMS);
    assert_eq!(many[0].save.played, 89);
}
