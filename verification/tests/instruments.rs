use circuit_rooms::binary64::Real;
use circuit_rooms::demo;
use circuit_rooms::legends::PanelDef;
use circuit_rooms::modules::{
    ad_envelope, clock_555, mixer_speaker, nmos_vca, vco, VcoValues, NMOS_VT, OPAMP_ISC, VOLTS_9,
};
use circuit_rooms::moog;
use circuit_rooms::ms20;
use circuit_rooms::parts::{ElementKind as K, ElementSpec, Point};
use circuit_rooms::sequencer;
use circuit_rooms::sequencer::{ladder, seq_ids, Sequencer};
use circuit_rooms::sheet::{pins_of, Facing, Sheet, DOWN, LEFT, RIGHT, UP};

fn x(v: f64) -> Real {
    Real::of(v.to_bits())
}

fn values() -> VcoValues {
    VcoValues {
        r_span: x(80e3),
        r_scale: x(8.4e3),
        r_off: x(3.3e3),
        r_gnd: x(150.0),
        c: x(1e-9),
        dither: x(5e-3),
        r_hyst_top: x(950e3),
        r_hyst_bot: x(50e3),
    }
}

/// A part with three pins or more stands in its own shape, turned and mirrored somehow.
fn is_rigid(e: &ElementSpec) -> bool {
    if e.pins.len() < 3 {
        return e.pins.len() < 2 || e.pins[0] != e.pins[1];
    }
    let span = 12;
    for facing in [Facing::East, Facing::North, Facing::South, Facing::West] {
        for mirror in [false, true] {
            for len in 1..span {
                for dy in -4..=4 {
                    for dx in -4..=4 {
                        let at = (e.pins[0].0 + dx, e.pins[0].1 + dy);
                        if pins_of(e.kind, at, facing, len, mirror) == e.pins {
                            return true;
                        }
                    }
                }
            }
        }
    }
    false
}

fn assert_legal(els: &[ElementSpec]) {
    for e in els {
        assert_eq!(e.pins.len(), e.kind.pin_count(), "element {}", e.id);
        assert!(is_rigid(e), "element {} is not in its own family: {:?}", e.id, e.pins);
        if matches!(e.kind, K::Wire) {
            let (a, b) = (e.pins[0], e.pins[1]);
            assert!(a.0 == b.0 || a.1 == b.1, "diagonal wire {}: {a:?} {b:?}", e.id);
        }
    }
    let mut ids: Vec<u32> = els.iter().map(|e| e.id).collect();
    ids.sort_unstable();
    ids.dedup();
    assert_eq!(ids.len(), els.len(), "duplicate element id");
}

#[test]
fn moog_room_is_a_legal_document() {
    assert_legal(&moog::moog_room_circuit(values()));
}

#[test]
fn ms20_room_is_a_legal_document() {
    assert_legal(&ms20::ms20_room_circuit(values()));
}

#[test]
fn moog_controls_are_named_and_reachable() {
    let els = moog::moog_room_circuit(values());
    let panels = moog::moog_panels();
    assert_eq!(panels.len(), 1);
    let p = &panels[0];
    let mut n = 0;
    for e in &els {
        if matches!(e.kind, K::Potentiometer { .. } | K::Switch { .. }) {
            n += 1;
            assert!(!e.name.trim().is_empty(), "control {} unnamed", e.id);
            for (x, y) in &e.pins {
                let (x, y) = (10 * x, 10 * y);
                assert!(
                    x >= p.x0 && x <= p.x1 && y >= p.y0 && y <= p.y1,
                    "control {} ({}) is outside the panel",
                    e.id,
                    e.name
                );
            }
        }
    }
    assert_eq!(n, 2, "PITCH and CUTOFF, and nothing unnamed");
}

#[test]
fn ms20_controls_are_named_and_reachable() {
    let els = ms20::ms20_room_circuit(values());
    for id in
        [ms20::ID_PITCH, ms20::ID_DRIVE, ms20::ID_NOISE, ms20::ID_CUTOFF, ms20::ID_PEAK]
    {
        let e = els.iter().find(|e| e.id == id).expect("control missing");
        assert!(!e.name.is_empty(), "control {id} has no name");
    }
    assert!(ms20::ID_SPEAKER <= 4, "speaker must be in the streamed low ids");
}

#[test]
fn no_instrument_room_overlaps_its_own_label_boxes() {
    let rooms: [(&str, Vec<PanelDef>); 2] = [
        ("the-ladder", moog::moog_label_boxes()),
        ("the-scream", ms20::ms20_label_boxes()),
    ];
    for (room, boxes) in rooms {
        for (i, a) in boxes.iter().enumerate() {
            for b in &boxes[i + 1..] {
                let hit = a.x0 < b.x1 && b.x0 < a.x1 && a.y0 < b.y1 && b.y0 < a.y1;
                assert!(
                    !hit,
                    "{room}: label boxes overlap: {:?} ({}, {}, {}, {}) vs {:?} ({}, {}, {}, {})",
                    a.name, a.x0, a.y0, a.x1, a.y1, b.name, b.x0, b.y0, b.x1, b.y1
                );
            }
        }
    }
}

#[test]
fn the_scream_room_is_as_big_as_it_was_measured() {
    let els = ms20::ms20_room_circuit(values());
    let devices = els.iter().filter(|e| !matches!(e.kind, K::Wire | K::Ground)).count();
    assert_eq!((els.len(), devices), (138, 37));
    let peak = els.iter().find(|e| e.id == ms20::ID_PEAK).unwrap();
    assert_eq!(peak.name, "PEAK");
    assert_eq!(peak.kind, K::Potentiometer { ohms: x(100e3), wiper: x(0.55) });
    assert_eq!(peak.pins, vec![(78, 10), (80, 8), (82, 10)]);
    let noise = els.iter().find(|e| e.id == 42).unwrap();
    assert_eq!(noise.kind, K::Noise { volts: x(2.0), ohms: x(1000.0), seed: 0x5320 });
    assert!(els.iter().all(|e| e.id != 300 || e.kind == K::Ground));
    let nodes = [
        ms20::in_node(),
        ms20::x_node(),
        ms20::y_node(),
        ms20::cut_bias(),
        ms20::amp_out(),
        ms20::res_node(),
        ms20::out_node(),
    ];
    for p in nodes {
        assert!(els.iter().any(|e| e.pins.contains(&p)), "nothing at {p:?}");
    }
}

#[test]
fn the_ladder_room_has_ten_transistors_and_a_sink() {
    let els = moog::moog_room_circuit(values());
    let npns: Vec<&ElementSpec> =
        els.iter().filter(|e| matches!(e.kind, K::Npn { .. })).collect();
    assert_eq!(npns.len(), 11);
    assert!(npns.iter().all(|e| e.kind == K::Npn { beta: x(100.0) }));
    let chain: Vec<f64> = (110..=115)
        .map(|id| match els.iter().find(|e| e.id == id).unwrap().kind {
            K::Resistor { ohms } => f64::from_bits(ohms.bits),
            _ => 0.0,
        })
        .collect();
    assert_eq!(chain, vec![47e3, 9.1e3, 9.1e3, 9.1e3, 11e3, 16e3]);
    let scale = els.iter().find(|e| e.id == 133).unwrap();
    assert_eq!(scale.kind, K::Resistor { ohms: x(8.4e3) });
    assert_eq!(els.iter().find(|e| e.id == moog::ID_SUPPLY).unwrap().name, "SUPPLY");
    for p in [moog::ladder_out(), moog::filter_out(), moog::tail_node(), moog::out_node()] {
        assert!(els.iter().any(|e| e.pins.contains(&p)), "nothing at {p:?}");
    }
    let boxes = moog::moog_label_boxes();
    assert_eq!(boxes.len(), 25);
    assert_eq!((boxes[6].x0, boxes[6].y1, boxes[6].name), (960, 236, "AFTER THE MOOG 904A. THE"));
    assert_eq!(f64::from(boxes[6].y1) / 10.0, 23.6);
    assert_eq!(moog::moog_panels()[0].name, "THE LADDER");
    assert_eq!(ms20::ms20_panels()[0].name, "THE SCREAM");
    assert_eq!(ms20::ms20_label_boxes().len(), 37);
}

#[test]
fn component_values_are_what_they_say() {
    for (bits, v) in [
        (moog::C_RUNG, 100e-9f64),
        (moog::R_LOAD, 22e3),
        (moog::R_OFF_CUTOFF, 2427.0),
        (moog::R_SPAN_CUTOFF, 157e3),
        (moog::C_OUT, 0.22e-6),
        (moog::CUTOFF_WIPER, 0.55),
        (moog::PITCH_WIPER, 0.30),
        (ms20::C_FILT, 22e-9),
        (ms20::R_G_GAIN, 5.1e3),
        (ms20::R_FEEDBACK, 1.2e6),
        (ms20::RF_MIX, 15e3),
        (ms20::DRIVE_WIPER, 0.15),
        (demo::FARADS_4P7_MICRO, 4.7e-6),
        (demo::HERTZ_440, 440.0),
        (sequencer::CT, 6.8e-6),
        (sequencer::R_CBIAS, 10.5e3),
        (sequencer::VZ_GATE, 5.1),
        (OPAMP_ISC, 0.025),
        (NMOS_VT, 1.0),
        (VOLTS_9, 9.0),
    ] {
        assert_eq!(bits, v.to_bits(), "{v}");
    }
}

/// The ladder's resistors are the gaps between the window edges, across 100 kilohms.
#[test]
fn the_ladder_splits_the_bar_into_equal_times() {
    let gaps = |taps: &[f64]| {
        let mut last = 0.0;
        let mut v = vec![];
        for t in taps {
            v.push((t - last) * 100e3);
            last = *t;
        }
        v.push((1.0 - last) * 100e3);
        v
    };
    let four: Vec<f64> = ladder(4).iter().map(|r| f64::from_bits(r.bits)).collect();
    let three: Vec<f64> = ladder(3).iter().map(|r| f64::from_bits(r.bits)).collect();
    assert_eq!(four, gaps(&[0.4394, 0.5286, 0.6036]));
    assert_eq!(three, gaps(&[0.4786, 0.5872]));
}

#[test]
fn a_sequencer_is_legal_at_three_steps_and_at_four() {
    for steps in [0, 3, 4, 9] {
        let sq = Sequencer { steps, ..Sequencer::default() };
        let els = sequencer::sequencer(&sq);
        assert_legal(&els);
        let ids = seq_ids(&sq);
        assert_eq!(ids.steps, steps.clamp(3, 4));
        let find = |id: u32| els.iter().find(|e| e.id == id).unwrap();
        assert_eq!(find(ids.tempo).kind, K::Potentiometer { ohms: x(220e3), wiper: x(0.70) });
        for k in 0..ids.steps {
            let wiper = x([0.25, 0.5, 0.75, 0.99][k]);
            assert_eq!(find(ids.pots[k]).kind, K::Potentiometer { ohms: x(47e3), wiper });
            assert_eq!(find(ids.switches[k]).kind, K::Switch { closed: k % 2 == 0 });
        }
        let pots = els.iter().filter(|e| matches!(e.kind, K::Potentiometer { .. })).count();
        assert_eq!(pots, ids.steps + 1);
        for k in ids.steps..4 {
            assert_eq!((ids.pots[k], ids.switches[k]), (0, 0));
        }
        for p in [sq.rail_in(), sq.cv(), sq.beat(), sq.bar(), sq.ramp(), sq.gate(0)] {
            assert!(els.iter().any(|e| e.pins.contains(&p)), "nothing at {p:?}");
        }
        assert_eq!(sq.railbot(), 8 + 10 * (ids.steps as i32 - 1) + 6);
    }
}

#[test]
fn a_sequencer_moves_with_its_origin() {
    let a = sequencer::sequencer(&Sequencer::default());
    let b = sequencer::sequencer(&Sequencer { origin: (100, -7), ..Sequencer::default() });
    assert_eq!(a.len(), b.len());
    for (p, q) in a.iter().zip(&b) {
        assert_eq!((p.id, p.kind), (q.id, q.kind));
        let moved: Vec<Point> = p.pins.iter().map(|(x, y)| (x + 100, y - 7)).collect();
        assert_eq!(moved, q.pins);
    }
}

#[test]
fn blocks_tell_where_they_can_be_connected() {
    let mut sh = Sheet::new();
    let v = vco(&mut sh, 20, (0, 0), -20, x(0.3), 1, values());
    assert_eq!((v.square, v.triangle, v.bias, v.cv), ((34, -6), (24, 2), (17, 4), (10, -2)));
    let env = ad_envelope(&mut sh, 40, (60, 0), (56, 0), x(1e-6), x(1e5), x(0.5));
    assert_eq!(env, (64, 0));
    let (gate, far) = nmos_vca(&mut sh, 50, (80, 0), (78, 4), x(1e-4), x(1e4));
    assert_eq!((gate, far), ((80, 0), (88, 4)));
    let (sum, out) = mixer_speaker(&mut sh, 60, 1, (100, 0), x(9.0), x(1e5));
    assert_eq!((sum, out), ((100, -1), (106, 0)));
    let trigger = clock_555(
        &mut sh, 70, (120, 0), (110, -20), x(1e3), x(1e4), x(1e5), x(0.5), x(1e-6),
    );
    assert_eq!(trigger, (124, 3));
    assert_legal(&sh.finish(300));
}

#[test]
fn strokes_are_numbered_as_they_come() {
    let mut sh = Sheet::new();
    sh.two(7, K::Diode, (0, 0), (4, 0));
    sh.wire((0, 0), (0, 0)); // of no length: not drawn, takes no number
    sh.wire((4, 0), (4, 4));
    sh.ground((4, 4), LEFT);
    sh.skip();
    sh.wire_as(9, (0, 0), (0, 4));
    sh.ground_as(10, (0, 4), UP);
    sh.ground((1, 1), RIGHT);
    sh.ground((2, 2), DOWN);
    let els = sh.finish(300);
    let got: Vec<(u32, u8)> = els.iter().map(|e| (e.id, e.rot)).collect();
    assert_eq!(
        got,
        vec![(7, 0), (300, 0), (301, LEFT), (9, 0), (10, UP), (303, RIGHT), (304, DOWN)]
    );
    let pins = pins_of(K::Timer555, (8, 6), Facing::East, 4, true);
    assert_eq!(pins, vec![(8, 6), (8, 2), (8, 5), (8, 3), (12, 3), (12, 5)]);
}

/// A drawing can be anchored wherever its points are on the grid.
#[test]
fn a_sequencer_stands_wherever_it_has_room() {
    let home = sequencer::sequencer(&Sequencer::default());
    for origin in [(2_000_000, 0), (i32::MAX - 56, i32::MAX - 44), (i32::MIN, i32::MIN + 4)] {
        let sq = Sequencer { origin, ..Sequencer::default() };
        let there = sequencer::sequencer(&sq);
        assert_legal(&there);
        assert_eq!(there.len(), home.len());
        for (a, b) in home.iter().zip(&there) {
            assert_eq!((a.id, a.kind), (b.id, b.kind));
            for (p, q) in a.pins.iter().zip(&b.pins) {
                assert_eq!((p.0 + origin.0, p.1 + origin.1), *q);
            }
        }
    }
    // The last number of its wires and ground symbols is the last that there is but one.
    let sq = Sequencer { route_id0: u32::MAX - 98, ..Sequencer::default() };
    let last = sequencer::sequencer(&sq).iter().map(|e| e.id).max();
    assert_eq!(last, Some(u32::MAX - 1));
    let sq = Sequencer { id0: u32::MAX - 45, ..Sequencer::default() };
    let last = sequencer::sequencer(&sq).iter().map(|e| e.id).max();
    assert_eq!(last, Some(u32::MAX));
}
