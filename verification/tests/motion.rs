use circuit_rooms::binary64::Real;
use circuit_rooms::commands::{supersede, Cmd};
use circuit_rooms::document::{DocOp, InteractOp};
use circuit_rooms::parts::{ElementKind as K, ElementSpec, Point};
use circuit_rooms::probes::{Probe, ProbeKind, MAX_PROBES};
use circuit_rooms::regions::{Layer, Rect};
use circuit_rooms::scopes::{
    apply_scope_op, prune_scope_pids, Scope, ScopeOp, ScopeSet, MAX_LEVEL, MAX_SCOPES,
    MAX_SCOPE_COORD, MAX_SCOPE_SPAN, MAX_TIMEBASE, MIN_SCOPE_COORD, MIN_SCOPE_SPAN, MIN_STEP,
    MIN_TIMEBASE,
};
use circuit_rooms::seeds::{plant, read_seed, seed_bench, ScopeSeed};
use circuit_rooms::sensors::{
    accept_readings, age_driven, drop_claims_of, fail_dark, layer_under, note_reading,
    sorted_once, Centre, Claim, Driven, Over, Reading, Shown, SENSOR_STALE_TICKS,
};
use circuit_rooms::slew::{Slews, Stride, WiperWrite, EPS};

fn x(v: f64) -> Real {
    Real::of(v.to_bits())
}

fn f(r: Real) -> f64 {
    f64::from_bits(r.bits)
}

#[test]
fn scope_ops_add_move_retune_remove() {
    let mut scopes: Vec<Scope> = Vec::new();
    let mut next = 1;

    let op = ScopeOp::Add {
        x: x(4.0),
        y: x(5.0),
        w: x(12.0),
        h: x(6.0),
        set: ScopeSet::default(),
        pids: None,
    };
    assert!(apply_scope_op(&mut scopes, &mut next, &op));
    let sid = scopes[0].sid;
    assert_eq!(sid, 1);
    assert_eq!((scopes[0].x, scopes[0].y), (x(4.0), x(5.0)));

    // The move a player drags, as the client sends it.
    let op = ScopeOp::Rect { sid, x: x(30.0), y: x(17.0), w: x(18.0), h: x(9.0) };
    assert!(apply_scope_op(&mut scopes, &mut next, &op));
    assert_eq!((scopes[0].x, scopes[0].y), (x(30.0), x(17.0)));
    assert_eq!((scopes[0].w, scopes[0].h), (x(18.0), x(9.0)));

    // ...and the retune, which carries the channels with it.
    let op = ScopeOp::Tune {
        sid,
        set: ScopeSet {
            timebase: x(0.02),
            trig_mode: "normal".into(),
            trig_slope: "falling".into(),
            trig_level: x(1.5),
            trig_auto_level: false,
            ..ScopeSet::default()
        },
        pids: Some(vec![2, 3]),
    };
    assert!(apply_scope_op(&mut scopes, &mut next, &op));
    assert_eq!(scopes[0].set.timebase, x(0.02));
    assert_eq!(scopes[0].set.trig_mode, "normal");
    assert_eq!(scopes[0].set.trig_slope, "falling");
    assert_eq!(scopes[0].set.trig_level, x(1.5));
    assert!(!scopes[0].set.trig_auto_level);
    assert_eq!(scopes[0].pids, Some(vec![2, 3]));

    // An op naming a scope that is not here changes nothing and says so, so the caller
    // does not broadcast a list nobody altered.
    let op = ScopeOp::Rect { sid: sid + 99, x: x(0.0), y: x(0.0), w: x(8.0), h: x(4.0) };
    assert!(!apply_scope_op(&mut scopes, &mut next, &op));
    assert!(!apply_scope_op(&mut scopes, &mut next, &ScopeOp::Remove { sid: 999 }));

    assert!(apply_scope_op(&mut scopes, &mut next, &ScopeOp::Remove { sid }));
    assert!(scopes.is_empty());
}

#[test]
fn a_hostile_scope_op_is_clamped_not_honoured() {
    let mut scopes: Vec<Scope> = Vec::new();
    let mut next = 1;
    let op = ScopeOp::Add {
        x: x(f64::NAN),
        y: x(1e30),
        w: x(0.0),
        h: x(-5.0),
        set: ScopeSet {
            timebase: x(-1.0),
            y_mode: "sideways".into(),
            trig_mode: "whenever".into(),
            trig_slope: "diagonal".into(),
            y_step: x(0.0),
            trig_level: x(f64::INFINITY),
            trig_source: 9999,
            ..ScopeSet::default()
        },
        pids: None,
    };
    assert!(apply_scope_op(&mut scopes, &mut next, &op));
    let s = &scopes[0];
    assert_eq!(s.x, x(0.0), "NaN is not a coordinate");
    assert_eq!(s.y.bits, MAX_SCOPE_COORD);
    assert_eq!(s.w.bits, MIN_SCOPE_SPAN);
    assert_eq!(s.h.bits, MIN_SCOPE_SPAN);
    assert_eq!(s.set.timebase.bits, MIN_TIMEBASE);
    assert_eq!(s.set.y_mode, "auto");
    assert_eq!(s.set.trig_mode, "off");
    assert_eq!(s.set.trig_slope, "rising");
    assert!(f(s.set.y_step) > 0.0);
    assert!(f(s.set.trig_level).is_finite());
    assert_eq!(s.set.trig_source, MAX_PROBES as u32);
}

#[test]
fn the_scope_bounds_are_what_they_say() {
    for (bits, v) in [
        (MIN_SCOPE_SPAN, 2.0f64),
        (MAX_SCOPE_SPAN, 400.0),
        (MAX_SCOPE_COORD, 1e6),
        (MIN_SCOPE_COORD, -1e6),
        (MIN_TIMEBASE, 1e-3),
        (MAX_TIMEBASE, 60.0),
        (MIN_STEP, 1e-12),
        (MAX_LEVEL, 1e12),
        (EPS, 1e-4),
    ] {
        assert_eq!(bits, v.to_bits(), "{v}");
    }
}

#[test]
fn channels_do_not_repeat_and_keep_to_the_budget() {
    let mut scopes: Vec<Scope> = Vec::new();
    let mut next = 3;
    let add = |pids: Vec<u32>| ScopeOp::Add {
        x: x(0.0),
        y: x(0.0),
        w: x(12.0),
        h: x(6.0),
        set: ScopeSet::default(),
        pids: Some(pids),
    };
    assert!(apply_scope_op(&mut scopes, &mut next, &add(vec![4, 4, 2, 2, 4])));
    assert_eq!(scopes[0].pids, Some(vec![4, 2, 4]));
    assert!(apply_scope_op(&mut scopes, &mut next, &add((0..20).collect())));
    assert_eq!(scopes[1].pids.as_ref().unwrap().len(), MAX_PROBES);
    while scopes.len() < MAX_SCOPES {
        assert!(apply_scope_op(&mut scopes, &mut next, &add(vec![])));
    }
    assert!(!apply_scope_op(&mut scopes, &mut next, &add(vec![])));
    assert_eq!(scopes.last().unwrap().sid, 2 + MAX_SCOPES as u32);
}

#[test]
fn a_seed_becomes_a_scope() {
    let seed: serde_json::Value = serde_json::from_str(
        r#"{"x": 26, "y": 22.5, "w": 18, "h": 9, "pids": [1, "no", 2, -3], "timebase": 0.5}"#,
    )
    .unwrap();
    let s = Scope::from_seed(&seed, 4);
    assert_eq!((s.sid, s.x, s.y, s.w, s.h), (4, x(26.0), x(22.5), x(18.0), x(9.0)));
    assert_eq!(s.set.timebase, x(0.5));
    assert_eq!(s.pids, Some(vec![1, 2]));
    // What the seed does not mention keeps its default.
    assert_eq!(s.set.y_mode, "auto");
    assert!(s.set.trig_auto_level);
    let read = read_seed(&seed);
    assert_eq!((read.h, read.pids), (Some(x(9.0)), Some(vec![Some(1), None, Some(2), None])));
}

#[test]
fn a_seed_that_says_nothing_is_a_usable_scope() {
    for text in ["{}", "[1, 2]", "7", r#"{"x": "far", "pids": 3, "w": null}"#] {
        let seed: serde_json::Value = serde_json::from_str(text).unwrap();
        let s = Scope::from_seed(&seed, 1);
        assert_eq!((s.x, s.w, s.h, s.set.timebase), (x(0.0), x(12.0), x(6.0), x(5.0)));
        assert_eq!(s.pids, None);
    }
    let wild = ScopeSeed {
        x: Some(x(f64::INFINITY)),
        y: None,
        w: Some(x(0.5)),
        h: Some(x(9e9)),
        timebase: Some(x(0.0)),
        pids: Some((0..30).map(Some).collect()),
    };
    let s = plant(&wild, 1);
    assert_eq!((s.x, s.w.bits, s.h.bits), (x(0.0), MIN_SCOPE_SPAN, MAX_SCOPE_SPAN));
    assert_eq!(s.set.timebase.bits, MIN_TIMEBASE);
    assert_eq!(s.pids.unwrap().len(), MAX_PROBES);
}

#[test]
fn an_absent_scope_list_seeds_and_an_empty_one_does_not() {
    let seed: serde_json::Value = serde_json::from_str(
        r#"{"x": 26, "y": 22, "w": 18, "h": 9, "pids": [1, 2], "timebase": 0.5}"#,
    )
    .unwrap();
    let seeds = vec![seed];

    let mut next_sid = 1;
    let list = seed_bench(None, &seeds, &mut next_sid);
    assert_eq!(list.len(), 1, "an absent list takes the template's seeds");
    assert_eq!((list[0].x, list[0].y), (x(26.0), x(22.0)));
    assert_eq!(list[0].set.timebase, x(0.5));
    assert_eq!(list[0].pids, Some(vec![1, 2]));
    assert!(next_sid > list[0].sid);

    let closed = seed_bench(Some(Vec::new()), &seeds, &mut next_sid);
    assert_eq!(
        closed.len(),
        0,
        "a room whose players closed every scope must not be re-seeded"
    );
    let many = seed_bench(None, &vec![seeds[0].clone(); 99], &mut next_sid);
    assert_eq!(many.len(), MAX_SCOPES);
}

#[test]
fn a_dead_probe_leaves_no_channel_behind() {
    let scope = |sid: u32, pids: Option<Vec<u32>>| Scope {
        sid,
        x: x(0.0),
        y: x(0.0),
        w: x(12.0),
        h: x(6.0),
        set: ScopeSet::default(),
        pids,
    };
    let mut scopes = vec![
        scope(1, Some(vec![1, 2, 3])),
        // "every probe" follows the room by construction and must not be rewritten into a
        // frozen list.
        scope(2, None),
    ];
    let alive = vec![
        Probe { pid: 1, elem: 10, pin: 0, kind: ProbeKind::V, r: None },
        Probe { pid: 3, elem: 11, pin: 0, kind: ProbeKind::V, r: None },
    ];
    assert!(prune_scope_pids(&mut scopes, &alive));
    assert_eq!(scopes[0].pids, Some(vec![1, 3]));
    assert_eq!(scopes[1].pids, None);
    // Idempotent: nothing changed, so nothing is broadcast.
    assert!(!prune_scope_pids(&mut scopes, &alive));
}

#[test]
fn a_sensor_reading_is_one_write_per_part_per_tick() {
    let sens = |id: u32, q: u16| Cmd::Sensor { who: 1, id, q };
    let mut v = vec![sens(5, 10), sens(5, 20), sens(6, 7), sens(5, 30), sens(6, 9)];
    supersede(&mut v);
    let got: Vec<(u32, u16)> = v
        .iter()
        .map(|c| match c {
            Cmd::Sensor { id, q, .. } => (*id, *q),
            _ => unreachable!(),
        })
        .collect();
    assert_eq!(got, [(5, 30), (6, 9)], "only the freshest reading survives");

    // ...and it does not coalesce past anything else touching the part.
    let mut v = vec![
        sens(5, 10),
        Cmd::Edit { who: 1, op: DocOp::Remove { id: 5 } },
        sens(5, 20),
    ];
    supersede(&mut v);
    assert_eq!(v.len(), 3, "a Remove in the same tick suspends coalescing");
}

#[test]
fn superseding_drops_only_replaced_drag_frames() {
    let pins = |x: i32| vec![(x, 0), (x, 6)];
    let mv = |id: u32, x: i32| Cmd::Edit {
        who: 1,
        op: DocOp::Move { id, pins: pins(x), rot: None },
    };
    let val = |id: u32, v: f64| Cmd::Interact {
        who: 1,
        id,
        op: InteractOp::SetValue { value: x(v) },
    };
    let sw = |id: u32, closed: bool| Cmd::Interact {
        who: 1,
        id,
        op: InteractOp::SetSwitch { closed },
    };
    let rm = |id: u32| Cmd::Edit { who: 1, op: DocOp::Remove { id } };
    let shape = |mut v: Vec<Cmd>| -> Vec<String> {
        supersede(&mut v);
        v.iter()
            .map(|c| match c {
                Cmd::Edit { op: DocOp::Move { id, pins, .. }, .. } => {
                    format!("mv{id}@{}", pins[0].0)
                }
                Cmd::Edit { op: DocOp::Remove { id }, .. } => format!("rm{id}"),
                Cmd::Interact { id, op: InteractOp::SetValue { value }, .. } => {
                    format!("v{id}={}", f(*value))
                }
                Cmd::Interact { id, op: InteractOp::SetSwitch { closed }, .. } => {
                    format!("s{id}={closed}")
                }
                Cmd::Repair { id, .. } => format!("fix{id}"),
                _ => unreachable!(),
            })
            .collect()
    };

    // A drag of one part: only where it ended up.
    assert_eq!(shape(vec![mv(7, 1), mv(7, 2), mv(7, 3)]), ["mv7@3"]);
    // Two parts dragged together: one frame each, in document order.
    assert_eq!(shape(vec![mv(7, 1), mv(8, 1), mv(7, 2), mv(8, 2)]), ["mv7@2", "mv8@2"]);
    // A knob drag, and a switch on the same part: different parameters, so the switch
    // flip is NOT swallowed by the last value write.
    assert_eq!(shape(vec![val(3, 1.0), sw(3, true), val(3, 2.0)]), ["s3=true", "v3=2"]);
    // Anything else naming the id turns superseding off for that id entirely: a move, a
    // delete and a move back all stay, in order.
    assert_eq!(shape(vec![mv(7, 1), rm(7), mv(7, 2)]), ["mv7@1", "rm7", "mv7@2"]);
    // ... and a repair counts, because it changes what the moves mean.
    assert_eq!(
        shape(vec![mv(7, 1), Cmd::Repair { who: 1, id: 7 }, mv(7, 2)]),
        ["mv7@1", "fix7", "mv7@2"]
    );
    // Other parts' drags are unaffected by one part being unsafe.
    assert_eq!(shape(vec![mv(7, 1), mv(8, 1), rm(7), mv(8, 2)]), ["mv7@1", "rm7", "mv8@2"]);
}

fn layer(id: u32, x0: f64, y0: f64, x1: f64, y1: f64) -> Layer {
    let rect = Rect { x0: x(x0), y0: x(y0), x1: x(x1), y1: x(y1) };
    Layer { id, rect, name: "big".into() }
}

/// The middle of a part's pins.
fn centre(pins: &[Point]) -> Option<Centre> {
    if pins.is_empty() {
        return None;
    }
    let n = pins.len() as f64;
    let cx = pins.iter().map(|p| f64::from(p.0)).sum::<f64>() / n;
    let cy = pins.iter().map(|p| f64::from(p.1)).sum::<f64>() / n;
    Some(Centre { x: x(cx), y: x(cy) })
}

fn areas(layers: &[Layer]) -> Vec<Real> {
    layers
        .iter()
        .map(|l| x((f(l.rect.x1) - f(l.rect.x0)) * (f(l.rect.y1) - f(l.rect.y0))))
        .collect()
}

#[test]
fn a_part_reads_the_layer_it_sits_on_and_no_other() {
    let layers = vec![layer(1, 0.0, 0.0, 40.0, 30.0), layer(2, 10.0, 10.0, 20.0, 20.0)];
    let under =
        |a: Point, b: Point| layer_under(&layers, &areas(&layers), centre(&[a, b]));
    // Inside the small one: the smallest containing layer wins, so a nested layer is a
    // finer instrument and not an ambiguity.
    assert_eq!(under((14, 14), (16, 14)), Some(2));
    // Inside the big one only.
    assert_eq!(under((30, 5), (32, 5)), Some(1));
    // Off both: no layer, and therefore no reading.
    assert_eq!(under((90, 90), (92, 90)), None);
    assert_eq!(layer_under(&layers, &areas(&layers), None), None);
    // Of two as large, the lower id.
    let same = vec![layer(9, 0.0, 0.0, 10.0, 10.0), layer(4, 5.0, 0.0, 15.0, 10.0)];
    assert_eq!(layer_under(&same, &areas(&same), centre(&[(7, 5)])), Some(4));
}

#[test]
fn a_reading_needs_a_photocell_and_a_claim() {
    let cell = |id: u32| {
        let kind = K::Photocell { r_dark: x(1e6), r_lit: x(1e3), light: x(0.0) };
        ElementSpec::two(id, kind, (0, 0), (0, 4))
    };
    let elems =
        vec![cell(1), cell(2), ElementSpec::two(3, K::Resistor { ohms: x(1.0) }, (0, 0), (4, 0))];
    let over = vec![Over { id: 1, lid: 8 }, Over { id: 3, lid: 8 }];
    let claims = vec![Claim { lid: 8, who: 5 }];
    let r = |who: u32, id: u32| Reading { who, id, q: 9 };
    let all = vec![r(5, 1), r(6, 1), r(5, 2), r(5, 3), r(5, 99)];
    assert_eq!(accept_readings(&elems, &over, &claims, &all), vec![r(5, 1)]);
}

#[test]
fn what_is_no_longer_driven_goes_dark() {
    let d = |id: u32, who: u32| Driven { id, who, q: 7, stale: 0 };
    let over = vec![Over { id: 1, lid: 8 }, Over { id: 2, lid: 9 }];
    let mut driven = vec![d(1, 5), d(2, 5), d(3, 5)];
    let mut dark = vec![];
    fail_dark(&mut driven, &mut dark, &over, &vec![Claim { lid: 8, who: 5 }]);
    assert_eq!((driven.clone(), dark.clone()), (vec![d(1, 5)], vec![2, 3]));

    // A session that leaves takes its claims and its readings with it.
    let mut claims = vec![Claim { lid: 8, who: 5 }, Claim { lid: 9, who: 6 }];
    assert!(drop_claims_of(&mut claims, 5, &mut driven, &mut dark, &over));
    assert_eq!(claims, vec![Claim { lid: 9, who: 6 }]);
    assert!(driven.is_empty());
    assert_eq!(dark, vec![2, 3, 1]);
    assert_eq!(sorted_once(&vec![2, 3, 1, 2]), vec![1, 2, 3]);
}

#[test]
fn a_silent_camera_goes_dark_after_a_few_ticks() {
    let mut driven = vec![];
    let mut shown = vec![];
    let mut dark = vec![];
    note_reading(&mut driven, &mut shown, Reading { who: 1, id: 4, q: 10 });
    note_reading(&mut driven, &mut shown, Reading { who: 1, id: 4, q: 10 });
    assert_eq!(shown, vec![Shown { id: 4, q: 10 }], "only news is told");
    for _ in 0..SENSOR_STALE_TICKS {
        age_driven(&mut driven, &mut dark);
        assert!(dark.is_empty());
    }
    age_driven(&mut driven, &mut dark);
    assert_eq!((driven.len(), dark), (0, vec![4]));
}

/// One stride of a wiper toward its target, a tenth of the way.
fn strides(s: &Slews) -> Vec<Stride> {
    s.live
        .iter()
        .map(|k| {
            let (now, target) = (f(k.now), f(k.target));
            let gap = target - now;
            Stride { gap: x(gap.abs()), moved: x(now + gap * 0.1) }
        })
        .collect()
}

fn aim(s: &mut Slews, id: u32, from: f64, target: f64) {
    s.aim(id, x(from), x(target), x((target - from).abs()));
}

fn advance(s: &mut Slews, alive: impl Fn(u32) -> bool) -> Vec<WiperWrite> {
    let by = strides(s);
    let writes = s.advance(&by);
    let alive: Vec<bool> = s.live.iter().map(|k| alive(k.id)).collect();
    s.settle(&by, &alive);
    writes
}

#[test]
fn re_aiming_mid_flight_does_not_restart_the_journey() {
    let mut s = Slews::default();
    aim(&mut s, 2, 0.1, 0.9);
    advance(&mut s, |_| true);
    let after_one = s.live[0].now;
    assert!(f(after_one) > 0.1 && f(after_one) < 0.2, "moved a little");

    // Re-aim somewhere else; the wiper must continue from `after_one`, not snap back to
    // 0.1 or jump to the new target.
    aim(&mut s, 2, 0.1, 0.5);
    assert_eq!(s.live[0].now, after_one, "re-aim must not move the wiper");
    assert_eq!(s.live[0].target, x(0.5), "re-aim must change the target");
    assert_eq!(s.reassert(2), Some(WiperWrite { id: 2, frac: after_one }));

    // Let it run and it arrives, then retires itself.
    let mut last = after_one;
    for _ in 0..4000 {
        for w in advance(&mut s, |_| true) {
            last = w.frac;
        }
    }
    assert!(s.is_empty(), "an arrived knob must stop costing anything");
    assert_eq!(last, x(0.5), "and it stops exactly where it was sent");
    assert_eq!(s.reassert(2), None);
}

#[test]
fn a_knob_nobody_is_touching_costs_nothing() {
    let mut s = Slews::default();
    assert!(s.is_empty());
    // A write that does not move the knob starts no journey.
    aim(&mut s, 7, 0.42, 0.42);
    assert!(s.is_empty(), "a no-op write must not start a slew");
}

#[test]
fn a_knob_that_stops_existing_is_forgotten() {
    let mut s = Slews::default();
    aim(&mut s, 2, 0.1, 0.9);
    // 999 is not in the document at all: its write fails.
    aim(&mut s, 999, 0.1, 0.9);
    advance(&mut s, |id| id == 2);
    assert_eq!(s.live.len(), 1, "the missing part should have been dropped");
    assert_eq!(s.live[0].id, 2);
    s.clear();
    assert!(s.is_empty());
}
