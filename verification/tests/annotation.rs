use circuit_rooms::binary64::Real;
use circuit_rooms::netlabels::{
    apply_net_label_op, clean_net_label_name, norm_net_label_point, NetLabel, NetLabelOp,
    MAX_NET_LABELS, MAX_NET_LABEL_COORD, MAX_NET_LABEL_NAME,
};
use circuit_rooms::probes::{
    derive_net_map, load_probes, needs_frame, sample_probes, save_probes, watched, Probe,
    ProbeKind, ProbeName, ProbeRead,
};
use circuit_rooms::regions::{
    apply_label_box_op, apply_layer_op, apply_panel_op, clean_label_box_name, clean_layer_name,
    clean_panel_name, norm_label_box_rect, norm_layer_rect, norm_panel_rect, Drag, LabelBox,
    LabelBoxOp, Layer, LayerOp, Panel, PanelOp, Rect, MAX_LABEL_BOXES, MAX_LABEL_BOX_NAME,
    MAX_LAYERS, MAX_PANELS, MIN_LABEL_BOX_SPAN, MIN_LAYER_SPAN, MIN_PANEL_SPAN,
};

fn x(v: f64) -> Real {
    Real::of(v.to_bits())
}

fn drag(x0: f64, y0: f64, x1: f64, y1: f64) -> Drag {
    Drag {
        x0: x(x0),
        y0: x(y0),
        x1: x(x1),
        y1: x(y1),
    }
}

fn rect(x0: f64, y0: f64, x1: f64, y1: f64) -> Rect {
    Rect { x0: x(x0), y0: x(y0), x1: x(x1), y1: x(y1) }
}

#[test]
fn panel_ops_add_move_rename_remove() {
    let mut panels: Vec<Panel> = Vec::new();
    let mut next = 1;

    // A backwards drag is normalized; the plid comes from the room.
    let add = PanelOp::Add { drag: drag(10.0, 9.0, 2.0, 1.0), name: None };
    assert!(apply_panel_op(&mut panels, &mut next, &add));
    assert_eq!(panels.len(), 1);
    let id = panels[0].id;
    assert_eq!(panels[0].rect, rect(2.0, 1.0, 10.0, 9.0));
    assert_eq!(panels[0].name, format!("PANEL {id}"));

    // Degenerate and non-finite rectangles are dropped.
    for bad in [drag(0.0, 0.0, 0.5, 8.0), drag(f64::NAN, 0.0, 8.0, 8.0)] {
        let op = PanelOp::Add { drag: bad, name: None };
        assert!(!apply_panel_op(&mut panels, &mut next, &op));
    }
    assert_eq!(panels.len(), 1);

    // Move/resize, then rename (control chars stripped, length capped).
    let op = PanelOp::Rect { id, drag: drag(4.0, 4.0, 12.0, 10.0) };
    assert!(apply_panel_op(&mut panels, &mut next, &op));
    assert_eq!((panels[0].rect.x0, panels[0].rect.y1), (x(4.0), x(10.0)));
    let op = PanelOp::Rename { id, name: "  dimmer\nbench  ".into() };
    assert!(apply_panel_op(&mut panels, &mut next, &op));
    assert_eq!(panels[0].name, "dimmerbench");
    let op = PanelOp::Rename { id, name: "   ".into() };
    assert!(!apply_panel_op(&mut panels, &mut next, &op));
    let op = PanelOp::Rect { id: id + 999, drag: drag(0.0, 0.0, 5.0, 5.0) };
    assert!(!apply_panel_op(&mut panels, &mut next, &op));

    // Budget, then removal.
    while panels.len() < MAX_PANELS {
        let op = PanelOp::Add { drag: drag(0.0, 0.0, 6.0, 6.0), name: Some("bench".into()) };
        assert!(apply_panel_op(&mut panels, &mut next, &op));
    }
    let op = PanelOp::Add { drag: drag(0.0, 0.0, 6.0, 6.0), name: None };
    assert!(!apply_panel_op(&mut panels, &mut next, &op));
    assert!(apply_panel_op(&mut panels, &mut next, &PanelOp::Remove { id }));
    assert!(!apply_panel_op(&mut panels, &mut next, &PanelOp::Remove { id }));
    assert_eq!(panels.len(), MAX_PANELS - 1);
}

#[test]
fn label_box_ops_add_move_rename_remove() {
    let mut boxes: Vec<LabelBox> = Vec::new();
    let mut next = 7;

    let op = LabelBoxOp::Add { drag: drag(10.0, 9.0, 2.0, 1.0), name: None };
    assert!(apply_label_box_op(&mut boxes, &mut next, &op));
    assert_eq!(boxes.len(), 1);
    let id = boxes[0].id;
    assert_eq!(id, 7);
    assert_eq!(boxes[0].rect, rect(2.0, 1.0, 10.0, 9.0));
    assert_eq!(boxes[0].name, format!("LABEL {id}"));

    // Degenerate and non-finite drags are dropped, not clamped: a stray click must not
    // leave a box behind.
    for bad in [drag(0.0, 0.0, 0.5, 4.0), drag(f64::NAN, 0.0, 4.0, 4.0)] {
        let op = LabelBoxOp::Add { drag: bad, name: None };
        assert!(!apply_label_box_op(&mut boxes, &mut next, &op));
    }
    assert_eq!(boxes.len(), 1);

    let op = LabelBoxOp::Rect { id, drag: drag(4.0, 4.0, 20.0, 10.0) };
    assert!(apply_label_box_op(&mut boxes, &mut next, &op));
    assert_eq!((boxes[0].rect.x0, boxes[0].rect.y1), (x(4.0), x(10.0)));

    // Names: control characters stripped, capped in characters, trimmed.
    let op = LabelBoxOp::Rename { id, name: "  VCO\u{7}  1V/OCT  ".into() };
    assert!(apply_label_box_op(&mut boxes, &mut next, &op));
    assert_eq!(boxes[0].name, "VCO  1V/OCT");
    let op = LabelBoxOp::Rename { id, name: "é".repeat(MAX_LABEL_BOX_NAME + 40) };
    assert!(apply_label_box_op(&mut boxes, &mut next, &op));
    assert_eq!(boxes[0].name.chars().count(), MAX_LABEL_BOX_NAME);
    let op = LabelBoxOp::Rename { id, name: "   ".into() };
    assert!(!apply_label_box_op(&mut boxes, &mut next, &op));
    let op = LabelBoxOp::Rect { id: id + 999, drag: drag(0.0, 0.0, 4.0, 4.0) };
    assert!(!apply_label_box_op(&mut boxes, &mut next, &op));

    let op = LabelBoxOp::Add { drag: drag(0.0, 0.0, 4.0, 4.0), name: None };
    while boxes.len() < MAX_LABEL_BOXES {
        assert!(apply_label_box_op(&mut boxes, &mut next, &op));
    }
    assert!(!apply_label_box_op(&mut boxes, &mut next, &op));
    assert!(apply_label_box_op(&mut boxes, &mut next, &LabelBoxOp::Remove { id }));
    assert!(!apply_label_box_op(&mut boxes, &mut next, &LabelBoxOp::Remove { id }));
    assert_eq!(boxes.len(), MAX_LABEL_BOXES - 1);
}

#[test]
fn a_layer_op_is_validated_the_way_a_panel_op_is() {
    let mut next = 1;
    let mut layers: Vec<Layer> = Vec::new();
    // Too small: a stray click must not make a sensor layer.
    let op = LayerOp::Add { drag: drag(0.0, 0.0, 1.0, 1.0), name: None };
    assert!(!apply_layer_op(&mut layers, &mut next, &op));
    // Non-finite: dropped, never stored.
    let op = LayerOp::Add { drag: drag(0.0, 0.0, f64::NAN, 20.0), name: None };
    assert!(!apply_layer_op(&mut layers, &mut next, &op));
    assert!(layers.is_empty());
    let name = Some("  my \u{7} cam  ".into());
    let op = LayerOp::Add { drag: drag(20.0, 15.0, 0.0, 0.0), name };
    assert!(apply_layer_op(&mut layers, &mut next, &op));
    assert_eq!((layers[0].rect.x0, layers[0].rect.y1), (x(0.0), x(15.0)), "rect normalized");
    assert_eq!(layers[0].name, "my  cam", "control characters stripped");
    // The budget.
    let op = LayerOp::Add { drag: drag(0.0, 0.0, 10.0, 10.0), name: None };
    while layers.len() < MAX_LAYERS {
        assert!(apply_layer_op(&mut layers, &mut next, &op));
    }
    assert!(!apply_layer_op(&mut layers, &mut next, &op));
    assert_eq!(layers[1].name, "CAMERA 2");
}

#[test]
fn the_shortest_side_is_allowed_and_nothing_shorter() {
    assert_eq!(MIN_PANEL_SPAN, 1.0f64.to_bits());
    assert_eq!(MIN_LABEL_BOX_SPAN, 1.0f64.to_bits());
    assert_eq!(MIN_LAYER_SPAN, 4.0f64.to_bits());
    let tall = |w: f64| drag(-1.0, 5.0, w - 1.0, -5.0);
    assert_eq!(norm_panel_rect(&tall(1.0)), Some(rect(-1.0, -5.0, 0.0, 5.0)));
    assert_eq!(norm_panel_rect(&tall(0.999)), None);
    assert!(norm_label_box_rect(&tall(1.0)).is_some());
    assert!(norm_label_box_rect(&tall(0.5)).is_none());
    assert!(norm_layer_rect(&tall(4.0)).is_some());
    assert!(norm_layer_rect(&tall(3.5)).is_none());
    assert!(norm_panel_rect(&drag(f64::NEG_INFINITY, 0.0, 0.0, 9.0)).is_none());
    // The other way round: the same place.
    assert_eq!(norm_panel_rect(&drag(1.0, 2.0, 8.0, 9.0)), norm_panel_rect(&drag(8.0, 9.0, 1.0, 2.0)));
    assert_eq!(clean_panel_name(" a\tb "), "ab");
    assert_eq!(clean_label_box_name("\u{202e}x"), "x");
    assert_eq!(clean_layer_name(&"n".repeat(40)).len(), 28);
    assert_eq!(clean_net_label_name("  "), "");
}

#[test]
fn numbers_are_never_used_twice() {
    let mut panels: Vec<Panel> = Vec::new();
    let mut next = 5;
    let op = PanelOp::Add { drag: drag(0.0, 0.0, 6.0, 6.0), name: None };
    assert!(apply_panel_op(&mut panels, &mut next, &op));
    assert!(apply_panel_op(&mut panels, &mut next, &PanelOp::Remove { id: 5 }));
    assert!(apply_panel_op(&mut panels, &mut next, &op));
    assert_eq!((panels[0].id, next), (6, 7));
}

#[test]
fn net_label_ops_and_their_bounds() {
    let mut labels: Vec<NetLabel> = Vec::new();
    let mut next = 1;

    let op = NetLabelOp::Add { x: 4, y: -7, name: Some("  5V RAIL  ".into()) };
    assert!(apply_net_label_op(&mut labels, &mut next, &op));
    assert_eq!(labels.len(), 1);
    assert_eq!((labels[0].x, labels[0].y), (4, -7));
    assert_eq!(labels[0].name, "5V RAIL");
    let nlid = labels[0].nlid;

    // Two labels on one point would render exactly on top of each other, with no way to
    // pick either up again.
    let op = NetLabelOp::Add { x: 4, y: -7, name: None };
    assert!(!apply_net_label_op(&mut labels, &mut next, &op));
    assert_eq!(labels.len(), 1);

    // Off the edge of the world.
    let op = NetLabelOp::Add { x: MAX_NET_LABEL_COORD + 1, y: 0, name: None };
    assert!(!apply_net_label_op(&mut labels, &mut next, &op));

    assert!(apply_net_label_op(&mut labels, &mut next, &NetLabelOp::Move { nlid, x: 9, y: 9 }));
    assert_eq!((labels[0].x, labels[0].y), (9, 9));
    let op = NetLabelOp::Add { x: 4, y: -7, name: None };
    assert!(apply_net_label_op(&mut labels, &mut next, &op));
    assert_eq!(labels[1].name, format!("NET {}", labels[1].nlid));
    // ...and a move onto an occupied point is refused for the same reason an add onto one
    // is.
    assert!(!apply_net_label_op(&mut labels, &mut next, &NetLabelOp::Move { nlid, x: 4, y: -7 }));

    let op = NetLabelOp::Rename { nlid, name: "\u{1}CUTOFF".into() };
    assert!(apply_net_label_op(&mut labels, &mut next, &op));
    assert_eq!(labels[0].name, "CUTOFF");
    let op = NetLabelOp::Rename { nlid, name: " ".into() };
    assert!(!apply_net_label_op(&mut labels, &mut next, &op));
    let op = NetLabelOp::Rename { nlid, name: "N".repeat(MAX_NET_LABEL_NAME + 10) };
    assert!(apply_net_label_op(&mut labels, &mut next, &op));
    assert_eq!(labels[0].name.chars().count(), MAX_NET_LABEL_NAME);

    while labels.len() < MAX_NET_LABELS {
        let n = labels.len() as i32;
        let op = NetLabelOp::Add { x: 1000 + n, y: 0, name: None };
        assert!(apply_net_label_op(&mut labels, &mut next, &op));
    }
    let op = NetLabelOp::Add { x: -50, y: -50, name: None };
    assert!(!apply_net_label_op(&mut labels, &mut next, &op));
    assert!(apply_net_label_op(&mut labels, &mut next, &NetLabelOp::Remove { nlid }));
    assert!(!apply_net_label_op(&mut labels, &mut next, &NetLabelOp::Remove { nlid }));
}

#[test]
fn the_map_ends_where_it_says() {
    let m = MAX_NET_LABEL_COORD;
    assert_eq!(norm_net_label_point(m, -m), Some((m, -m)));
    assert_eq!(norm_net_label_point(m + 1, 0), None);
    assert_eq!(norm_net_label_point(0, i32::MIN), None);
    assert_eq!(norm_net_label_point(0, i32::MAX), None);
}

fn label(nlid: u32, x: i32, y: i32, name: &str) -> NetLabel {
    NetLabel { nlid, x, y, name: name.into() }
}

fn probe(pid: u32, elem: u32, pin: usize) -> Probe {
    Probe { pid, elem, pin, kind: ProbeKind::V, r: None }
}

#[test]
fn deleting_the_wire_under_a_net_label_detaches_it_but_never_deletes_it() {
    let labels = vec![label(1, 6, 0, "OUT")];
    let map = derive_net_map(&labels, &vec![Some(3)], &vec![], &vec![]);
    assert_eq!(map.live, vec![1], "the label names the node it stands on");

    // Nothing is left at (6, 0).
    let map = derive_net_map(&labels, &vec![None], &vec![], &vec![]);
    assert!(map.live.is_empty(), "nothing connects at the anchor, so the label reports no net");
    assert_eq!(labels.len(), 1, "a detached label is never auto-deleted");
    assert_eq!(labels[0].name, "OUT", "and it still says what it said");
    assert_eq!((labels[0].x, labels[0].y), (6, 0), "and has not moved");

    let map = derive_net_map(&labels, &vec![Some(8)], &vec![], &vec![]);
    assert_eq!(map.live, vec![1], "reconnecting re-attaches it, with no op");
}

#[test]
fn one_net_two_names_resolves_the_same_way_for_everybody() {
    // Both anchors are the same junction, reached from two labels.
    let labels = vec![label(9, 0, 0, "LATER"), label(2, 0, 0, "SHOULD NOT HAPPEN")];
    let probes = vec![probe(1, 1, 0)];
    let map = derive_net_map(&labels, &vec![Some(1), Some(1)], &probes, &vec![Some(1)]);
    assert_eq!(map.live.len(), 2, "both labels are on a real net");
    assert_eq!(map.probes.len(), 1, "the probe gets exactly one name");
    assert_eq!(map.probes[0].pid, 1);
    assert!(labels.iter().any(|l| l.nlid == map.probes[0].nlid));
    // The lowest row wins, then the lowest column, whatever the order of the list.
    let labels = vec![label(1, 0, 5, "A"), label(2, 3, 1, "B"), label(3, 2, 1, "C")];
    let map = derive_net_map(&labels, &vec![Some(4); 3], &probes, &vec![Some(4)]);
    assert_eq!(map.probes, vec![ProbeName { pid: 1, nlid: 3 }]);
}

#[test]
fn a_probe_reports_the_name_of_the_net_it_sits_on() {
    let labels = vec![label(3, 0, 4, "MID")];
    let probes = vec![
        // On the labelled midpoint.
        probe(1, 2, 1),
        // On the unlabelled rail.
        probe(2, 1, 0),
    ];
    let map = derive_net_map(&labels, &vec![Some(2)], &probes, &vec![Some(2), Some(1)]);
    assert_eq!(map.live, vec![3]);
    assert_eq!(map.probes, vec![ProbeName { pid: 1, nlid: 3 }], "only the probe on MID is named");
}

#[test]
fn probes_come_back_from_a_save() {
    let probes = vec![
        probe(4, 2, 1),
        Probe { pid: 6, elem: 3, pin: 0, kind: ProbeKind::I, r: Some((9, 2)) },
    ];
    assert_eq!(load_probes(&save_probes(&probes)), probes);
}

#[test]
fn the_probed_parts_are_watched_and_the_taps_too() {
    let mut p = probe(1, 7, 0);
    p.r = Some((5, 0));
    assert_eq!(watched(&vec![p, probe(2, 8, 1)], &vec![900, 5]), vec![7, 5, 8, 900, 5]);
}

#[test]
fn a_current_through_a_wire_needs_a_frame() {
    let current = Probe { pid: 1, elem: 7, pin: 1, kind: ProbeKind::I, r: None };
    let against = Probe { r: Some((4, 2)), ..probe(2, 6, 0) };
    let probes = vec![against, current];
    assert!(!needs_frame(&probes, &vec![true, false]));
    assert!(needs_frame(&probes, &vec![false, true]));
    let volts = ProbeRead::Voltage { elem: 6, pin: 0, minus: Some((4, 2)) };
    assert_eq!(
        sample_probes(&probes, &vec![true, true]),
        vec![volts, ProbeRead::FrameCurrent { elem: 7, pin: 1 }]
    );
    assert_eq!(
        sample_probes(&probes, &vec![true, false]),
        vec![volts, ProbeRead::Current { elem: 7, pin: 1 }]
    );
}
