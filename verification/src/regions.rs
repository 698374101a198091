//! Named rectangles on the sheet: control panels, label boxes and sensor layers.
//!
//! The three are one thing with three sets of limits.
use vstd::prelude::*;

use crate::binary64::Real;
use crate::lists::{self, Copied, find, remove_all, Keyed};
use crate::spans::{self, is_short_of};
use crate::text::{self, clean_name, is_empty_text, numbered};

verus! {

pub const MAX_PANELS: usize = 256;

pub const MAX_PANEL_NAME: usize = 28;

pub const MAX_LABEL_BOXES: usize = 256;

pub const MAX_LABEL_BOX_NAME: usize = 28;

pub const MAX_LAYERS: usize = 32;

pub const MAX_LAYER_NAME: usize = 28;

/// The smallest panel, in grid units: 1. A stray click must not make one.
pub const MIN_PANEL_SPAN: u64 = 0x3ff0_0000_0000_0000;

/// The smallest label box, in grid units: 1.
pub const MIN_LABEL_BOX_SPAN: u64 = 0x3ff0_0000_0000_0000;

/// The smallest layer, in grid units: 4. It has to be large enough to aim at.
pub const MIN_LAYER_SPAN: u64 = 0x4010_0000_0000_0000;

/// A rectangle as it was dragged out, from one corner to the other.
#[derive(Clone, Copy, Debug, PartialEq, Eq, Structural)]
pub struct Drag {
    pub x0: Real,
    pub y0: Real,
    pub x1: Real,
    pub y1: Real,
}

/// A rectangle by its low and its high corner.
#[derive(Clone, Copy, Debug, PartialEq, Eq, Structural)]
pub struct Rect {
    pub x0: Real,
    pub y0: Real,
    pub x1: Real,
    pub y1: Real,
}

impl Drag {
    /// Every corner is a number.
    pub open spec fn finite(self) -> bool {
        self.x0.finite() && self.y0.finite() && self.x1.finite() && self.y1.finite()
    }

    /// The rectangle between the corners.
    pub open spec fn sorted(self) -> Rect {
        Rect {
            x0: self.x0.smaller(self.x1),
            y0: self.y0.smaller(self.y1),
            x1: self.x0.larger(self.x1),
            y1: self.y0.larger(self.y1),
        }
    }

    /// The rectangle that was meant, or nothing where a corner is no number or a side
    /// is shorter than `span`.
    pub open spec fn rect(self, span: Real) -> Option<Rect> {
        let r = self.sorted();
        if !self.finite() || spans::short_of(r.x0, r.x1, span) || spans::short_of(
            r.y0,
            r.y1,
            span,
        ) {
            None
        } else {
            Some(r)
        }
    }
}

/// Normalises a dragged rectangle; nothing for one that is degenerate or not finite.
pub fn norm_rect(drag: &Drag, min_span: Real) -> (r: Option<Rect>)
    ensures
        r == drag.rect(min_span),
{
    if !(drag.x0.is_finite() && drag.y0.is_finite() && drag.x1.is_finite()
        && drag.y1.is_finite()) {
        return None;
    }
    let r: Rect = Rect {
        x0: drag.x0.min_with(drag.x1),
        y0: drag.y0.min_with(drag.y1),
        x1: drag.x0.max_with(drag.x1),
        y1: drag.y0.max_with(drag.y1),
    };
    if is_short_of(r.x0, r.x1, min_span) || is_short_of(r.y0, r.y1, min_span) {
        None
    } else {
        Some(r)
    }
}

/// A normal rectangle has finite corners in order, and dragging it the other way round
/// gives the same places.
pub proof fn law_rectangles_are_normal(d: Drag, span: Real)
    requires
        d.rect(span) is Some,
    ensures
        ({
            let r = d.rect(span)->0;
            &&& r.x0.finite() && r.y0.finite() && r.x1.finite() && r.y1.finite()
            &&& r.x0.rank() <= r.x1.rank()
            &&& r.y0.rank() <= r.y1.rank()
        }),
        ({
            let back = Drag { x0: d.x1, y0: d.y1, x1: d.x0, y1: d.y0 };
            let r = d.rect(span)->0;
            &&& back.rect(span) is Some
            &&& back.rect(span)->0.x0.rank() == r.x0.rank()
            &&& back.rect(span)->0.y0.rank() == r.y0.rank()
            &&& back.rect(span)->0.x1.rank() == r.x1.rank()
            &&& back.rect(span)->0.y1.rank() == r.y1.rank()
        }),
{
    let back = Drag { x0: d.x1, y0: d.y1, x1: d.x0, y1: d.y0 };
    let (r, b) = (d.sorted(), back.sorted());
    spans::law_steps_follow_the_order(r.x0, b.x0);
    spans::law_steps_follow_the_order(r.x1, b.x1);
    spans::law_steps_follow_the_order(r.y0, b.y0);
    spans::law_steps_follow_the_order(r.y1, b.y1);
}

/// What one sort of region may be.
pub struct RegionRules {
    /// How many a room may hold.
    pub budget: usize,
    /// The longest name, in characters.
    pub name: usize,
    /// The shortest side, in grid units.
    pub span: Real,
    /// What a region is called, with its number, where nobody named it.
    pub label: &'static str,
}

/// A named rectangle.
#[derive(Clone, Debug)]
pub struct Region {
    pub id: u32,
    pub rect: Rect,
    pub name: String,
}

/// A control panel.
pub type Panel = Region;

/// A label box: words on the sheet, and nothing else.
pub type LabelBox = Region;

/// A sensor layer: where in the world a camera is pointed.
pub type Layer = Region;

/// A named rectangle, as a value.
pub struct Zone {
    pub id: u32,
    pub rect: Rect,
    pub name: Seq<char>,
}

impl View for Region {
    type V = Zone;

    open spec fn view(&self) -> Zone {
        Zone { id: self.id, rect: self.rect, name: self.name@ }
    }
}

impl Keyed for Region {
    open spec fn key(&self) -> u32 {
        self.id
    }

    fn key_of(&self) -> (k: u32) {
        self.id
    }
}

impl Copied for Region {
    fn copied(&self) -> (r: Region) {
        Region { id: self.id, rect: self.rect, name: self.name.clone() }
    }
}

/// What a player does to a region.
#[derive(Clone, Debug)]
pub enum RegionOp {
    Add { drag: Drag, name: Option<String> },
    Remove { id: u32 },
    Rect { id: u32, drag: Drag },
    Rename { id: u32, name: String },
}

pub type PanelOp = RegionOp;

pub type LabelBoxOp = RegionOp;

pub type LayerOp = RegionOp;

/// What a player does to a region, as a value.
pub enum ZoneOp {
    Add { drag: Drag, name: Option<Seq<char>> },
    Remove { id: u32 },
    Rect { id: u32, drag: Drag },
    Rename { id: u32, name: Seq<char> },
}

impl View for RegionOp {
    type V = ZoneOp;

    open spec fn view(&self) -> ZoneOp {
        match self {
            RegionOp::Add { drag, name } => ZoneOp::Add {
                drag: *drag,
                name: match name {
                    Some(n) => Some(n@),
                    None => None,
                },
            },
            RegionOp::Remove { id } => ZoneOp::Remove { id: *id },
            RegionOp::Rect { id, drag } => ZoneOp::Rect { id: *id, drag: *drag },
            RegionOp::Rename { id, name } => ZoneOp::Rename { id: *id, name: name@ },
        }
    }
}

/// The ids of some zones, in order.
pub open spec fn zone_ids(zones: Seq<Zone>) -> Seq<u32> {
    Seq::new(zones.len(), |i: int| zones[i].id)
}

/// The place of the first zone with this id.
pub open spec fn zone_at(zones: Seq<Zone>, id: u32) -> Option<int> {
    zone_ids(zones).index_of_first(id)
}

/// The number after this one; after the last comes 0.
pub open spec fn following(n: u32) -> u32 {
    if n == u32::MAX {
        0
    } else {
        (n + 1) as u32
    }
}

/// Takes the next number.
pub fn take_number(next: &mut u32) -> (n: u32)
    ensures
        n == *old(next),
        *final(next) == following(*old(next)),
{
    let n: u32 = *next;
    *next = if n == u32::MAX {
        0
    } else {
        n + 1
    };
    n
}

/// The name that was given, cleaned, or the label and the number where there is none
/// or nothing is left of it.
pub open spec fn given_name(
    name: Option<Seq<char>>,
    max: nat,
    label: Seq<char>,
    id: u32,
) -> Seq<char> {
    if name is Some && text::cleaned(name->0, max).len() > 0 {
        text::cleaned(name->0, max)
    } else {
        label + text::decimal(id as nat)
    }
}

/// The name that was given, cleaned, or the label and the number.
pub fn name_or_number(name: &Option<String>, max: usize, label: &str, id: u32) -> (r: String)
    ensures
        r@ == given_name(
            match name {
                Some(n) => Some(n@),
                None => None,
            },
            max as nat,
            label@,
            id,
        ),
{
    match name {
        Some(n) => {
            let c: String = clean_name(n.as_str(), max);
            if !is_empty_text(c.as_str()) {
                return c;
            }
            numbered(label, id)
        },
        None => numbered(label, id),
    }
}

/// The zones and the next number after an op, or nothing where the op is dropped: a
/// rectangle that is none, a zone that is not there, a full budget, an empty name.
pub open spec fn zoned(
    zones: Seq<Zone>,
    next: u32,
    op: ZoneOp,
    rules: RegionRules,
) -> Option<(Seq<Zone>, u32)> {
    match op {
        ZoneOp::Add { drag, name } => match drag.rect(rules.span) {
            None => None,
            Some(rect) => if zones.len() >= rules.budget {
                None
            } else {
                let zone = Zone {
                    id: next,
                    rect,
                    name: given_name(name, rules.name as nat, rules.label@, next),
                };
                Some((zones.push(zone), following(next)))
            },
        },
        ZoneOp::Remove { id } => match zone_at(zones, id) {
            None => None,
            Some(_) => Some((zones.filter(|z: Zone| z.id != id), next)),
        },
        ZoneOp::Rect { id, drag } => match (drag.rect(rules.span), zone_at(zones, id)) {
            (Some(rect), Some(i)) => Some((zones.update(i, Zone { rect, ..zones[i] }), next)),
            _ => None,
        },
        ZoneOp::Rename { id, name } => {
            let name = text::cleaned(name, rules.name as nat);
            match zone_at(zones, id) {
                Some(i) => if name.len() == 0 {
                    None
                } else {
                    Some((zones.update(i, Zone { name, ..zones[i] }), next))
                },
                None => None,
            }
        },
    }
}

/// Applies an op to some regions. An op that is dropped changes nothing.
pub fn apply_region_op(
    regions: &mut Vec<Region>,
    next: &mut u32,
    op: &RegionOp,
    rules: &RegionRules,
) -> (r: bool)
    ensures
        r == (zoned(lists::views(old(regions)@), *old(next), op@, *rules) is Some),
        r ==> (lists::views(final(regions)@), *final(next)) == zoned(
            lists::views(old(regions)@),
            *old(next),
            op@,
            *rules,
        )->0,
        !r ==> *final(regions) == *old(regions) && *final(next) == *old(next),
{
    let ghost zones = lists::views(regions@);
    let ghost before = regions@;
    match op {
        RegionOp::Add { drag, name } => {
            match norm_rect(drag, rules.span) {
                None => false,
                Some(rect) => {
                    if regions.len() >= rules.budget {
                        return false;
                    }
                    let id: u32 = take_number(next);
                    let name: String = name_or_number(name, rules.name, rules.label, id);
                    let region: Region = Region { id, rect, name };
                    regions.push(region);
                    proof {
                        assert(lists::views(regions@) =~= zones.push(region@));
                    }
                    true
                },
            }
        },
        RegionOp::Remove { id } => {
            proof {
                assert(zone_ids(zones) =~= lists::keys(before));
                let p = lists::keyed_otherwise::<Region>(*id);
                let q = |z: Zone| z.id != *id;
                assert forall|e: Region| #[trigger] p(e) == q(e@) by {}
                lists::lemma_views_of_filter(before, p, q);
            }
            remove_all(regions, *id)
        },
        RegionOp::Rect { id, drag } => {
            proof {
                assert(zone_ids(zones) =~= lists::keys(before));
            }
            match norm_rect(drag, rules.span) {
                None => false,
                Some(rect) => match find(regions, *id) {
                    None => false,
                    Some(i) => {
                        let moved: Region = Region {
                            id: regions[i].id,
                            rect,
                            name: regions[i].name.clone(),
                        };
                        regions.set(i, moved);
                        proof {
                            assert(lists::views(regions@) =~= zones.update(i as int, moved@));
                        }
                        true
                    },
                },
            }
        },
        RegionOp::Rename { id, name } => {
            proof {
                assert(zone_ids(zones) =~= lists::keys(before));
            }
            let name: String = clean_name(name.as_str(), rules.name);
            if is_empty_text(name.as_str()) {
                return false;
            }
            match find(regions, *id) {
                None => false,
                Some(i) => {
                    let renamed: Region = Region { id: regions[i].id, rect: regions[i].rect, name };
                    regions.set(i, renamed);
                    proof {
                        assert(lists::views(regions@) =~= zones.update(i as int, renamed@));
                    }
                    true
                },
            }
        },
    }
}

/// The limits of control panels.
pub open spec fn panel_rules() -> RegionRules {
    RegionRules {
        budget: MAX_PANELS,
        name: MAX_PANEL_NAME,
        span: Real { bits: MIN_PANEL_SPAN },
        label: "PANEL ",
    }
}

/// The limits of label boxes.
pub open spec fn label_box_rules() -> RegionRules {
    RegionRules {
        budget: MAX_LABEL_BOXES,
        name: MAX_LABEL_BOX_NAME,
        span: Real { bits: MIN_LABEL_BOX_SPAN },
        label: "LABEL ",
    }
}

/// The limits of sensor layers.
pub open spec fn layer_rules() -> RegionRules {
    RegionRules {
        budget: MAX_LAYERS,
        name: MAX_LAYER_NAME,
        span: Real { bits: MIN_LAYER_SPAN },
        label: "CAMERA ",
    }
}

/// What a panel's name becomes.
pub fn clean_panel_name(name: &str) -> (r: String)
    ensures
        r@ == text::cleaned(name@, MAX_PANEL_NAME as nat),
{
    clean_name(name, MAX_PANEL_NAME)
}

/// What a label box's name becomes.
pub fn clean_label_box_name(name: &str) -> (r: String)
    ensures
        r@ == text::cleaned(name@, MAX_LABEL_BOX_NAME as nat),
{
    clean_name(name, MAX_LABEL_BOX_NAME)
}

/// What a layer's name becomes.
pub fn clean_layer_name(name: &str) -> (r: String)
    ensures
        r@ == text::cleaned(name@, MAX_LAYER_NAME as nat),
{
    clean_name(name, MAX_LAYER_NAME)
}

/// A panel's rectangle.
pub fn norm_panel_rect(drag: &Drag) -> (r: Option<Rect>)
    ensures
        r == drag.rect(panel_rules().span),
{
    norm_rect(drag, Real::of(MIN_PANEL_SPAN))
}

/// A label box's rectangle.
pub fn norm_label_box_rect(drag: &Drag) -> (r: Option<Rect>)
    ensures
        r == drag.rect(label_box_rules().span),
{
    norm_rect(drag, Real::of(MIN_LABEL_BOX_SPAN))
}

/// A layer's rectangle.
pub fn norm_layer_rect(drag: &Drag) -> (r: Option<Rect>)
    ensures
        r == drag.rect(layer_rules().span),
{
    norm_rect(drag, Real::of(MIN_LAYER_SPAN))
}

/// Applies an op to a room's control panels.
pub fn apply_panel_op(panels: &mut Vec<Panel>, next_plid: &mut u32, op: &PanelOp) -> (r: bool)
    ensures
        r == (zoned(lists::views(old(panels)@), *old(next_plid), op@, panel_rules()) is Some),
        r ==> (lists::views(final(panels)@), *final(next_plid)) == zoned(
            lists::views(old(panels)@),
            *old(next_plid),
            op@,
            panel_rules(),
        )->0,
        !r ==> *final(panels) == *old(panels) && *final(next_plid) == *old(next_plid),
{
    let rules: RegionRules = RegionRules {
        budget: MAX_PANELS,
        name: MAX_PANEL_NAME,
        span: Real::of(MIN_PANEL_SPAN),
        label: "PANEL ",
    };
    apply_region_op(panels, next_plid, op, &rules)
}

/// Applies an op to a room's label boxes.
pub fn apply_label_box_op(boxes: &mut Vec<LabelBox>, next_blid: &mut u32, op: &LabelBoxOp) -> (r:
    bool)
    ensures
        r == (zoned(lists::views(old(boxes)@), *old(next_blid), op@, label_box_rules()) is Some),
        r ==> (lists::views(final(boxes)@), *final(next_blid)) == zoned(
            lists::views(old(boxes)@),
            *old(next_blid),
            op@,
            label_box_rules(),
        )->0,
        !r ==> *final(boxes) == *old(boxes) && *final(next_blid) == *old(next_blid),
{
    let rules: RegionRules = RegionRules {
        budget: MAX_LABEL_BOXES,
        name: MAX_LABEL_BOX_NAME,
        span: Real::of(MIN_LABEL_BOX_SPAN),
        label: "LABEL ",
    };
    apply_region_op(boxes, next_blid, op, &rules)
}

/// Applies an op to a room's sensor layers.
pub fn apply_layer_op(layers: &mut Vec<Layer>, next_lid: &mut u32, op: &LayerOp) -> (r: bool)
    ensures
        r == (zoned(lists::views(old(layers)@), *old(next_lid), op@, layer_rules()) is Some),
        r ==> (lists::views(final(layers)@), *final(next_lid)) == zoned(
            lists::views(old(layers)@),
            *old(next_lid),
            op@,
            layer_rules(),
        )->0,
        !r ==> *final(layers) == *old(layers) && *final(next_lid) == *old(next_lid),
{
    let rules: RegionRules = RegionRules {
        budget: MAX_LAYERS,
        name: MAX_LAYER_NAME,
        span: Real::of(MIN_LAYER_SPAN),
        label: "CAMERA ",
    };
    apply_region_op(layers, next_lid, op, &rules)
}

/// Rules by which a region that nobody named gets a tidy name, and a side has a length.
pub open spec fn fitting(rules: RegionRules) -> bool {
    &&& 0 < rules.label@.len() <= rules.name - 10
    &&& forall|k: int| 0 <= k < rules.label@.len() ==> text::printing(#[trigger] rules.label@[k])
    &&& !text::white(rules.label@[0])
    &&& rules.span.finite()
    &&& rules.span.rank() > 0
}

/// A rectangle with finite corners in order, and no side shorter than `span`.
pub open spec fn proper(r: Rect, span: Real) -> bool {
    &&& r.x0.finite() && r.y0.finite() && r.x1.finite() && r.y1.finite()
    &&& r.x0.rank() <= r.x1.rank()
    &&& r.y0.rank() <= r.y1.rank()
    &&& !spans::short_of(r.x0, r.x1, span)
    &&& !spans::short_of(r.y0, r.y1, span)
}

/// Regions by the rules: no more than the budget, the ids below the next number, every name
/// tidy, every rectangle proper.
pub open spec fn by_the_rules(zones: Seq<Zone>, next: u32, rules: RegionRules) -> bool {
    &&& zones.len() <= rules.budget
    &&& forall|i: int| 0 <= i < zones.len() ==> (#[trigger] zones[i]).id < next
    &&& forall|i: int|
        0 <= i < zones.len() ==> text::tidy((#[trigger] zones[i]).name, rules.name as nat)
    &&& forall|i: int| 0 <= i < zones.len() ==> proper((#[trigger] zones[i]).rect, rules.span)
}

/// No two regions have the same id.
pub open spec fn ids_apart(zones: Seq<Zone>) -> bool {
    forall|i: int, j: int|
        0 <= i < j < zones.len() ==> #[trigger] zones[i].id != #[trigger] zones[j].id
}

/// What holds of a room's regions at all times: they are by the rules, with ids apart.
pub open spec fn sound(zones: Seq<Zone>, next: u32, rules: RegionRules) -> bool {
    by_the_rules(zones, next, rules) && ids_apart(zones)
}

/// Every op keeps the regions sound, until the numbers run out.
pub proof fn law_ops_keep_regions_sound(
    zones: Seq<Zone>,
    next: u32,
    op: ZoneOp,
    rules: RegionRules,
)
    requires
        sound(zones, next, rules),
        fitting(rules),
        next < u32::MAX,
    ensures
        zoned(zones, next, op, rules) matches Some(after) ==> sound(after.0, after.1, rules),
{
    if zoned(zones, next, op, rules) is Some {
        match op {
            ZoneOp::Add { drag, name } => {
                law_rectangles_are_normal(drag, rules.span);
                text::lemma_numbered_is_tidy(rules.label@, next, rules.name as nat);
                if name is Some {
                    text::law_cleaning_twice_is_cleaning_once(name->0, rules.name as nat);
                }
                let given = given_name(name, rules.name as nat, rules.label@, next);
                assert(text::tidy(given, rules.name as nat));
            },
            ZoneOp::Remove { id } => {
                lemma_filter_keeps_zones_sound(zones, next, rules, |z: Zone| z.id != id);
            },
            ZoneOp::Rect { id, drag } => {
                law_rectangles_are_normal(drag, rules.span);
                zone_ids(zones).index_of_first_ensures(id);
            },
            ZoneOp::Rename { id, name } => {
                text::law_cleaning_twice_is_cleaning_once(name, rules.name as nat);
                zone_ids(zones).index_of_first_ensures(id);
            },
        }
    }
}

/// Whatever a player does to a room's control panels, and whatever they drag out, the panels
/// stay sound: no more than the budget, ids apart, every rectangle finite and no narrower or
/// lower than a grid unit, every name tidy.
pub proof fn law_panels_stay_sound(zones: Seq<Zone>, next: u32, op: ZoneOp)
    requires
        sound(zones, next, panel_rules()),
        next < u32::MAX,
    ensures
        zoned(zones, next, op, panel_rules()) matches Some(after) ==> sound(
            after.0,
            after.1,
            panel_rules(),
        ),
{
    law_the_rules_are_fitting();
    law_ops_keep_regions_sound(zones, next, op, panel_rules());
}

/// The rules of every sort of region are fitting.
pub proof fn law_the_rules_are_fitting()
    ensures
        fitting(panel_rules()),
        fitting(label_box_rules()),
        fitting(layer_rules()),
{
    reveal_strlit("PANEL ");
    reveal_strlit("LABEL ");
    reveal_strlit("CAMERA ");
}

proof fn lemma_filter_keeps_zones_sound(
    zones: Seq<Zone>,
    next: u32,
    rules: RegionRules,
    p: spec_fn(Zone) -> bool,
)
    requires
        sound(zones, next, rules),
    ensures
        sound(zones.filter(p), next, rules),
        forall|i: int|
            0 <= i < zones.filter(p).len() ==> zones.contains(#[trigger] zones.filter(p)[i]),
    decreases zones.len(),
{
    reveal(Seq::filter);
    if zones.len() > 0 {
        let d = zones.drop_last();
        assert forall|i: int| 0 <= i < d.len() implies d[i] == zones[i] by {}
        lemma_filter_keeps_zones_sound(d, next, rules, p);
        let fd = d.filter(p);
        assert forall|i: int| 0 <= i < fd.len() implies zones.contains(#[trigger] fd[i]) && fd[i].id
            != zones.last().id by {
            let k = choose|k: int| 0 <= k < d.len() && d[k] == fd[i];
            assert(zones[k] == fd[i]);
            assert(zones[k].id != zones[zones.len() - 1].id);
        }
        assert(zones[zones.len() - 1] == zones.last());
    }
}

/// A region from a file, as an op would have made it; nothing where none could have: its
/// rectangle is none, or no number comes after its own. One without a name gets one.
pub open spec fn restored(z: Zone, rules: RegionRules) -> Option<Zone> {
    let drag = Drag { x0: z.rect.x0, y0: z.rect.y0, x1: z.rect.x1, y1: z.rect.y1 };
    match drag.rect(rules.span) {
        None => None,
        Some(rect) => if z.id == u32::MAX {
            None
        } else {
            Some(
                Zone {
                    id: z.id,
                    rect,
                    name: given_name(Some(z.name), rules.name as nat, rules.label@, z.id),
                },
            )
        },
    }
}

/// The regions of a file that a room takes over, of the first `n`: those that are any, as
/// many as the budget allows, in order.
pub open spec fn taken_over(zones: Seq<Zone>, rules: RegionRules, n: int) -> Seq<Zone>
    decreases n,
{
    if n <= 0 {
        Seq::empty()
    } else {
        let had = taken_over(zones, rules, n - 1);
        match restored(zones[n - 1], rules) {
            Some(z) => if had.len() < rules.budget {
                had.push(z)
            } else {
                had
            },
            None => had,
        }
    }
}

/// The regions of a file that a room takes over.
pub open spec fn reloaded(zones: Seq<Zone>, rules: RegionRules) -> Seq<Zone> {
    taken_over(zones, rules, zones.len() as int)
}

fn take_over(r: &Region, rules: &RegionRules) -> (z: Option<Region>)
    ensures
        match z {
            Some(z) => restored(r@, *rules) == Some(z@),
            None => restored(r@, *rules) is None,
        },
{
    let drag: Drag = Drag { x0: r.rect.x0, y0: r.rect.y0, x1: r.rect.x1, y1: r.rect.y1 };
    match norm_rect(&drag, rules.span) {
        None => None,
        Some(rect) => {
            if r.id == u32::MAX {
                return None;
            }
            let name: Option<String> = Some(r.name.clone());
            Some(Region { id: r.id, rect, name: name_or_number(&name, rules.name, rules.label, r.id) })
        },
    }
}

/// Takes the regions of a file over; the counter is then past their numbers.
fn reload(regions: &Vec<Region>, next: u32, rules: &RegionRules) -> (r: (Vec<Region>, u32))
    requires
        fitting(*rules),
    ensures
        lists::views(r.0@) == reloaded(lists::views(regions@), *rules),
        r.1 == lists::past(zone_ids(lists::views(r.0@)), next),
        by_the_rules(lists::views(r.0@), r.1, *rules),
{
    let ghost zones = lists::views(regions@);
    let mut out: Vec<Region> = Vec::new();
    let mut i: usize = 0;
    assert(lists::views(out@) =~= Seq::<Zone>::empty());
    while i < regions.len()
        invariant
            i <= regions@.len(),
            zones == lists::views(regions@),
            lists::views(out@) == taken_over(zones, *rules, i as int),
        decreases regions.len() - i,
    {
        assert(zones[i as int] == regions@[i as int]@);
        if let Some(z) = take_over(&regions[i], rules) {
            if out.len() < rules.budget {
                let ghost had = out@;
                out.push(z);
                assert(lists::views(out@) =~= lists::views(had).push(z@));
            }
        }
        i += 1;
    }
    proof {
        law_reloaded_regions_are_by_the_rules(zones, next, *rules);
        assert(zone_ids(lists::views(out@)) =~= lists::keys(out@));
        assert forall|k: int| 0 <= k < out@.len() implies (#[trigger] out@[k]).key() < u32::MAX by {
            assert(lists::views(out@)[k].id == out@[k].id);
        }
    }
    let then: u32 = lists::count_past(&out, next);
    (out, then)
}

/// Takes the control panels of a file over.
pub fn reload_panels(panels: &Vec<Panel>, next_plid: u32) -> (r: (Vec<Panel>, u32))
    ensures
        lists::views(r.0@) == reloaded(lists::views(panels@), panel_rules()),
        r.1 == lists::past(zone_ids(lists::views(r.0@)), next_plid),
        by_the_rules(lists::views(r.0@), r.1, panel_rules()),
{
    let rules: RegionRules = RegionRules {
        budget: MAX_PANELS,
        name: MAX_PANEL_NAME,
        span: Real::of(MIN_PANEL_SPAN),
        label: "PANEL ",
    };
    proof {
        law_the_rules_are_fitting();
    }
    reload(panels, next_plid, &rules)
}

/// Takes the label boxes of a file over.
pub fn reload_label_boxes(boxes: &Vec<LabelBox>, next_blid: u32) -> (r: (Vec<LabelBox>, u32))
    ensures
        lists::views(r.0@) == reloaded(lists::views(boxes@), label_box_rules()),
        r.1 == lists::past(zone_ids(lists::views(r.0@)), next_blid),
        by_the_rules(lists::views(r.0@), r.1, label_box_rules()),
{
    let rules: RegionRules = RegionRules {
        budget: MAX_LABEL_BOXES,
        name: MAX_LABEL_BOX_NAME,
        span: Real::of(MIN_LABEL_BOX_SPAN),
        label: "LABEL ",
    };
    proof {
        law_the_rules_are_fitting();
    }
    reload(boxes, next_blid, &rules)
}

/// Takes the sensor layers of a file over.
pub fn reload_layers(layers: &Vec<Layer>, next_lid: u32) -> (r: (Vec<Layer>, u32))
    ensures
        lists::views(r.0@) == reloaded(lists::views(layers@), layer_rules()),
        r.1 == lists::past(zone_ids(lists::views(r.0@)), next_lid),
        by_the_rules(lists::views(r.0@), r.1, layer_rules()),
{
    let rules: RegionRules = RegionRules {
        budget: MAX_LAYERS,
        name: MAX_LAYER_NAME,
        span: Real::of(MIN_LAYER_SPAN),
        label: "CAMERA ",
    };
    proof {
        law_the_rules_are_fitting();
    }
    reload(layers, next_lid, &rules)
}

/// What a region becomes on its way in is by the rules.
proof fn lemma_restored(z: Zone, rules: RegionRules)
    requires
        fitting(rules),
    ensures
        restored(z, rules) matches Some(r) ==> {
            &&& r.id == z.id
            &&& r.id < u32::MAX
            &&& text::tidy(r.name, rules.name as nat)
            &&& proper(r.rect, rules.span)
        },
{
    let drag = Drag { x0: z.rect.x0, y0: z.rect.y0, x1: z.rect.x1, y1: z.rect.y1 };
    if restored(z, rules) is Some {
        law_rectangles_are_normal(drag, rules.span);
        text::lemma_numbered_is_tidy(rules.label@, z.id, rules.name as nat);
        text::law_cleaning_twice_is_cleaning_once(z.name, rules.name as nat);
    }
}

proof fn lemma_taken_over(zones: Seq<Zone>, rules: RegionRules, n: int)
    requires
        fitting(rules),
        0 <= n <= zones.len(),
    ensures
        taken_over(zones, rules, n).len() <= rules.budget,
        taken_over(zones, rules, n).len() <= n,
        forall|i: int|
            0 <= i < taken_over(zones, rules, n).len() ==> {
                let r = #[trigger] taken_over(zones, rules, n)[i];
                &&& r.id < u32::MAX
                &&& text::tidy(r.name, rules.name as nat)
                &&& proper(r.rect, rules.span)
                &&& exists|k: int| 0 <= k < n && restored(#[trigger] zones[k], rules) == Some(r)
            },
        ids_apart(zones) ==> ids_apart(taken_over(zones, rules, n)),
        taken_over(zones, rules, n).len() < rules.budget ==> forall|k: int|
            0 <= k < n && restored(#[trigger] zones[k], rules) is Some ==> taken_over(
                zones,
                rules,
                n,
            ).contains(restored(zones[k], rules)->0),
    decreases n,
{
    if n > 0 {
        lemma_taken_over(zones, rules, n - 1);
        lemma_restored(zones[n - 1], rules);
        let had = taken_over(zones, rules, n - 1);
        let now = taken_over(zones, rules, n);
        assert forall|i: int| 0 <= i < now.len() implies {
            let r = #[trigger] now[i];
            &&& r.id < u32::MAX
            &&& text::tidy(r.name, rules.name as nat)
            &&& proper(r.rect, rules.span)
            &&& exists|k: int| 0 <= k < n && restored(#[trigger] zones[k], rules) == Some(r)
        } by {
            if i < had.len() {
                assert(now[i] == had[i]);
                let k = choose|k: int|
                    0 <= k < n - 1 && restored(#[trigger] zones[k], rules) == Some(had[i]);
                assert(restored(zones[k], rules) == Some(now[i]));
            } else {
                assert(restored(zones[n - 1], rules) == Some(now[i]));
            }
        }
        if ids_apart(zones) {
            assert forall|i: int, j: int| 0 <= i < j < now.len() implies #[trigger] now[i].id
                != #[trigger] now[j].id by {
                assert(now[i] == had[i]);
                if j < had.len() {
                    assert(now[j] == had[j]);
                } else {
                    let k = choose|k: int|
                        0 <= k < n - 1 && restored(#[trigger] zones[k], rules) == Some(had[i]);
                    lemma_restored(zones[k], rules);
                    assert(zones[k].id != zones[n - 1].id);
                }
            }
        }
        if now.len() < rules.budget {
            assert forall|k: int| 0 <= k < n && restored(#[trigger] zones[k], rules) is Some implies now.contains(
                restored(zones[k], rules)->0,
            ) by {
                if k < n - 1 {
                    let i = choose|i: int|
                        0 <= i < had.len() && had[i] == restored(zones[k], rules)->0;
                    assert(now[i] == had[i]);
                } else {
                    assert(now[had.len() as int] == restored(zones[k], rules)->0);
                }
            }
        }
    }
}

/// Whatever a file holds, what a room takes over of it is by the rules, with the counter
/// past it; and sound where the file's ids are apart.
pub proof fn law_reloaded_regions_are_by_the_rules(zones: Seq<Zone>, next: u32, rules: RegionRules)
    requires
        fitting(rules),
    ensures
        ({
            let r = reloaded(zones, rules);
            let then = lists::past(zone_ids(r), next);
            &&& by_the_rules(r, then, rules)
            &&& ids_apart(zones) ==> sound(r, then, rules)
            &&& forall|i: int| 0 <= i < r.len() ==> (#[trigger] r[i]).id < u32::MAX
        }),
{
    let r = reloaded(zones, rules);
    lemma_taken_over(zones, rules, zones.len() as int);
    let ids = zone_ids(r);
    assert forall|i: int| 0 <= i < ids.len() implies #[trigger] ids[i] < u32::MAX by {
        assert(r[i].id == ids[i]);
    }
    lists::law_the_counter_is_past_them(ids, next);
    assert forall|i: int| 0 <= i < r.len() implies (#[trigger] r[i]).id < lists::past(ids, next) by {
        assert(ids[i] == r[i].id);
    }
}

/// Nothing that is a region is lost on the way in, as long as the budget is not used up; and
/// nothing comes in that was not there.
pub proof fn law_no_region_is_lost(zones: Seq<Zone>, rules: RegionRules)
    requires
        fitting(rules),
    ensures
        reloaded(zones, rules).len() < rules.budget ==> forall|k: int|
            0 <= k < zones.len() && restored(#[trigger] zones[k], rules) is Some ==> reloaded(
                zones,
                rules,
            ).contains(restored(zones[k], rules)->0),
        forall|i: int|
            0 <= i < reloaded(zones, rules).len() ==> exists|k: int|
                0 <= k < zones.len() && restored(#[trigger] zones[k], rules) == Some(
                    #[trigger] reloaded(zones, rules)[i],
                ),
{
    let all = reloaded(zones, rules);
    lemma_taken_over(zones, rules, zones.len() as int);
    assert forall|i: int| 0 <= i < all.len() implies exists|k: int|
        0 <= k < zones.len() && restored(#[trigger] zones[k], rules) == Some(#[trigger] all[i]) by {
        let r = taken_over(zones, rules, zones.len() as int)[i];
        let k = choose|k: int|
            0 <= k < zones.len() && restored(#[trigger] zones[k], rules) == Some(r);
        assert(restored(zones[k], rules) == Some(all[i]));
    }
}

/// Sound regions come back as they were, and so does their counter.
pub proof fn law_sound_regions_come_back(zones: Seq<Zone>, next: u32, rules: RegionRules)
    requires
        fitting(rules),
        by_the_rules(zones, next, rules),
        next >= 1,
    ensures
        reloaded(zones, rules) == zones,
        lists::past(zone_ids(zones), next) == next,
{
    lemma_all_are_taken_over(zones, next, rules, zones.len() as int);
    assert(zones.take(zones.len() as int) =~= zones);
    let ids = zone_ids(zones);
    assert forall|i: int| 0 <= i < ids.len() implies #[trigger] ids[i] < next by {
        assert(zones[i].id == ids[i]);
    }
    lists::law_the_counter_is_past_them(ids, next);
}

proof fn lemma_all_are_taken_over(zones: Seq<Zone>, next: u32, rules: RegionRules, n: int)
    requires
        fitting(rules),
        by_the_rules(zones, next, rules),
        0 <= n <= zones.len(),
    ensures
        taken_over(zones, rules, n) == zones.take(n),
    decreases n,
{
    if n > 0 {
        lemma_all_are_taken_over(zones, next, rules, n - 1);
        let z = zones[n - 1];
        let r = z.rect;
        assert(proper(r, rules.span) && z.id < next && text::tidy(z.name, rules.name as nat));
        spans::law_longer_is_not_shorter(r.x0, r.x1, r.x0, r.x1, rules.span);
        spans::law_longer_is_not_shorter(r.y0, r.y1, r.y0, r.y1, rules.span);
        assert(restored(z, rules) == Some(z));
        assert(zones.take(n) =~= zones.take(n - 1).push(z));
    } else {
        assert(zones.take(0) =~= Seq::<Zone>::empty());
    }
}

/// What one sort of region shows of itself.
pub proof fn law_a_region_shows_all_of_itself(r: Region, op: RegionOp)
    ensures
        r@.id == r.id && r@.rect == r.rect && r@.name == r.name@,
        r.key() == r.id,
        match (op, op@) {
            (RegionOp::Add { drag, name }, ZoneOp::Add { drag: d, name: n }) => d == drag && match (
                name,
                n,
            ) {
                (Some(s), Some(t)) => t == s@,
                (None, None) => true,
                _ => false,
            },
            (RegionOp::Remove { id }, ZoneOp::Remove { id: i }) => i == id,
            (RegionOp::Rect { id, drag }, ZoneOp::Rect { id: i, drag: d }) => i == id && d == drag,
            (RegionOp::Rename { id, name }, ZoneOp::Rename { id: i, name: n }) => i == id && n == name@,
            _ => false,
        },
{
}

/// The low corner and the high corner of what lies between two numbers.
pub open spec fn sorts(a: Real, b: Real, low: Real, high: Real) -> bool {
    &&& (low == a && high == b) || (low == b && high == a) || (a.rank() == b.rank() && (low == a
        || low == b) && (high == a || high == b))
    &&& low.rank() <= high.rank()
}

/// A dragged rectangle has the dragged corners, the low ones first, and no side shorter than
/// `span`. There is none where a corner is no number or a side is too short.
pub proof fn law_a_drag_gives_the_rectangle_between_its_corners(d: Drag, span: Real)
    ensures
        ({
            let numbers = d.x0.finite() && d.y0.finite() && d.x1.finite() && d.y1.finite();
            let wide = !spans::short_of(d.x0, d.x1, span) && d.x0.rank() <= d.x1.rank() || !spans::short_of(
                d.x1,
                d.x0,
                span,
            ) && d.x1.rank() <= d.x0.rank();
            let high = !spans::short_of(d.y0, d.y1, span) && d.y0.rank() <= d.y1.rank() || !spans::short_of(
                d.y1,
                d.y0,
                span,
            ) && d.y1.rank() <= d.y0.rank();
            match d.rect(span) {
                Some(r) => numbers && wide && high && sorts(d.x0, d.x1, r.x0, r.x1) && sorts(
                    d.y0,
                    d.y1,
                    r.y0,
                    r.y1,
                ),
                None => !numbers || !wide || !high,
            }
        }),
{
    if d.finite() {
        let r = d.sorted();
        spans::law_steps_follow_the_order(d.x0, d.x1);
        spans::law_steps_follow_the_order(d.y0, d.y1);
    }
}

/// The name is what was given and can be read; or, where nothing was or nothing can, the label
/// and the number.
pub open spec fn named_as(
    name: Option<Seq<char>>,
    max: nat,
    label: Seq<char>,
    id: u32,
    got: Seq<char>,
) -> bool {
    ||| name matches Some(n) && text::reads_as(n, max, got) && got.len() > 0
    ||| (name matches Some(n) ==> text::reads_as(n, max, Seq::empty())) && got == label + text::decimal(
        id as nat,
    )
}

/// What is given as a name is the name, as far as it can be read.
pub proof fn law_a_name_is_what_was_given(name: Option<Seq<char>>, max: nat, label: Seq<char>, id: u32)
    ensures
        named_as(name, max, label, id, given_name(name, max, label, id)),
{
    if let Some(n) = name {
        text::law_a_clean_text_reads_as_it_was_written(n, max);
        if text::cleaned(n, max).len() == 0 {
            assert(text::cleaned(n, max) =~= Seq::<char>::empty());
        }
    }
}

/// The zone at this place is the first with this id.
pub open spec fn found(zones: Seq<Zone>, id: u32, i: int) -> bool {
    &&& 0 <= i < zones.len()
    &&& zones[i].id == id
    &&& forall|j: int| 0 <= j < i ==> (#[trigger] zones[j]).id != id
}

proof fn lemma_found(zones: Seq<Zone>, id: u32)
    ensures
        match zone_at(zones, id) {
            Some(i) => found(zones, id, i),
            None => forall|j: int| 0 <= j < zones.len() ==> (#[trigger] zones[j]).id != id,
        },
        forall|i: int| #[trigger] found(zones, id, i) ==> zone_at(zones, id) == Some(i),
{
    let ids = zone_ids(zones);
    ids.index_of_first_ensures(id);
    assert forall|j: int| 0 <= j < zones.len() implies ids[j] == (#[trigger] zones[j]).id by {}
    assert forall|i: int| #[trigger] found(zones, id, i) implies zone_at(zones, id) == Some(i) by {
        assert forall|j: int| 0 <= j < i implies #[trigger] ids[j] != id by {
            assert(zones[j].id != id);
        }
        lists::lemma_index_of_first(ids, id, Some(i));
    }
    match zone_at(zones, id) {
        Some(i) => {
            assert(ids[i] == zones[i].id);
        },
        None => {
            assert forall|j: int| 0 <= j < zones.len() implies (#[trigger] zones[j]).id != id by {
                assert(ids[j] != id);
            }
        },
    }
}

/// Some regions, with the next number, after an op that was taken: an added one comes last,
/// with the next number, between the corners that were dragged; a removed one goes; one that
/// is dragged anew keeps its number and its name; one that is renamed keeps its number and its
/// place. All others are as they were.
pub open spec fn changed_by(
    zones: Seq<Zone>,
    next: u32,
    op: ZoneOp,
    rules: RegionRules,
    after: Seq<Zone>,
    then: u32,
) -> bool {
    match op {
        ZoneOp::Add { drag, name } => {
            &&& after.len() == zones.len() + 1
            &&& forall|j: int| 0 <= j < zones.len() ==> #[trigger] after[j] == zones[j]
            &&& after.last().id == next
            &&& drag.rect(rules.span) == Some(after.last().rect)
            &&& named_as(name, rules.name as nat, rules.label@, next, after.last().name)
            &&& next < u32::MAX ==> then == next + 1
        },
        ZoneOp::Remove { id } => {
            &&& lists::sifted(zones, after, |z: Zone| z.id == id)
            &&& after.len() < zones.len()
            &&& then == next
        },
        ZoneOp::Rect { id, drag } => then == next && exists|i: int| #[trigger]
            found(zones, id, i) && lists::same_but_at(zones, after, i) && after[i].id == id
                && after[i].name == zones[i].name && drag.rect(rules.span) == Some(after[i].rect),
        ZoneOp::Rename { id, name } => then == next && exists|i: int| #[trigger]
            found(zones, id, i) && lists::same_but_at(zones, after, i) && after[i].id == id
                && after[i].rect == zones[i].rect && text::reads_as(
                name,
                rules.name as nat,
                after[i].name,
            ) && after[i].name.len() > 0,
    }
}

/// The op is refused: there is no rectangle, no room for one more, no such region, or nothing
/// of the name can be read.
pub open spec fn refused(zones: Seq<Zone>, op: ZoneOp, rules: RegionRules) -> bool {
    match op {
        ZoneOp::Add { drag, .. } => drag.rect(rules.span) is None || zones.len() >= rules.budget,
        ZoneOp::Remove { id } => forall|j: int| 0 <= j < zones.len() ==> (#[trigger] zones[j]).id != id,
        ZoneOp::Rect { id, drag } => drag.rect(rules.span) is None || forall|j: int|
            0 <= j < zones.len() ==> (#[trigger] zones[j]).id != id,
        ZoneOp::Rename { id, name } => text::reads_as(name, rules.name as nat, Seq::empty())
            || forall|j: int| 0 <= j < zones.len() ==> (#[trigger] zones[j]).id != id,
    }
}

/// Every op on a region does what it says to that region, and to no other; or it is refused,
/// for one of the reasons that there are.
pub proof fn law_an_op_changes_its_own_region(zones: Seq<Zone>, next: u32, op: ZoneOp, rules: RegionRules)
    ensures
        match zoned(zones, next, op, rules) {
            Some((after, then)) => changed_by(zones, next, op, rules, after, then),
            None => refused(zones, op, rules),
        },
{
    match op {
        ZoneOp::Add { drag, name } => {
            law_a_name_is_what_was_given(name, rules.name as nat, rules.label@, next);
        },
        ZoneOp::Remove { id } => {
            lemma_found(zones, id);
            let p = |z: Zone| z.id != id;
            lists::lemma_filter_sifts(zones, p, |z: Zone| z.id == id);
            lists::lemma_filter_all(zones, p);
            if let Some(i) = zone_at(zones, id) {
                assert(!p(zones[i]));
            }
        },
        ZoneOp::Rect { id, drag } => {
            lemma_found(zones, id);
            if let Some(i) = zone_at(zones, id) {
                assert(found(zones, id, i));
            }
        },
        ZoneOp::Rename { id, name } => {
            lemma_found(zones, id);
            text::law_a_clean_text_reads_as_it_was_written(name, rules.name as nat);
            if text::cleaned(name, rules.name as nat).len() == 0 {
                assert(text::cleaned(name, rules.name as nat) =~= Seq::<char>::empty());
            }
            if let Some(i) = zone_at(zones, id) {
                assert(found(zones, id, i));
            }
        },
    }
}

/// The limits of panels, label boxes and layers: how many there may be, how long a name is,
/// how short a side may be, and what one without a name is called.
pub proof fn law_the_limits_of_regions()
    ensures
        panel_rules().budget == 256 && label_box_rules().budget == 256 && layer_rules().budget == 32,
        panel_rules().name == 28 && label_box_rules().name == 28 && layer_rules().name == 28,
        panel_rules().span.bits == 1023 * 0x10_0000_0000_0000,
        label_box_rules().span.bits == 1023 * 0x10_0000_0000_0000,
        layer_rules().span.bits == 1025 * 0x10_0000_0000_0000,
        panel_rules().label@ == "PANEL "@,
        label_box_rules().label@ == "LABEL "@,
        layer_rules().label@ == "CAMERA "@,
{
}

/// A region of a file comes in as it is: its number, the rectangle between its corners, and
/// its name as far as it can be read. It stays out only where there is no such rectangle, or
/// where no number comes after its own.
pub proof fn law_a_region_of_a_file_comes_in_as_it_is(z: Zone, rules: RegionRules)
    ensures
        ({
            let d = Drag { x0: z.rect.x0, y0: z.rect.y0, x1: z.rect.x1, y1: z.rect.y1 };
            match restored(z, rules) {
                Some(r) => {
                    &&& r.id == z.id
                    &&& d.rect(rules.span) == Some(r.rect)
                    &&& named_as(Some(z.name), rules.name as nat, rules.label@, z.id, r.name)
                },
                None => z.id == u32::MAX || d.rect(rules.span) is None,
            }
        }),
{
    law_a_name_is_what_was_given(Some(z.name), rules.name as nat, rules.label@, z.id);
}

/// A file's regions come in one by one, in order, while there is room.
pub proof fn law_a_files_regions_come_in_order(zones: Seq<Zone>, rules: RegionRules, n: int)
    requires
        0 < n <= zones.len(),
    ensures
        ({
            let (had, now) = (taken_over(zones, rules, n - 1), taken_over(zones, rules, n));
            match restored(zones[n - 1], rules) {
                Some(z) => if had.len() < rules.budget {
                    lists::one_more(had, now, z)
                } else {
                    now == had
                },
                None => now == had,
            }
        }),
        taken_over(zones, rules, 0).len() == 0,
        reloaded(zones, rules) == taken_over(zones, rules, zones.len() as int),
{
}

/// No more regions come in than the file has, nor than there may be.
pub proof fn lemma_no_more_come_in(zones: Seq<Zone>, rules: RegionRules, n: int)
    requires
        0 <= n <= zones.len(),
    ensures
        taken_over(zones, rules, n).len() <= n,
        taken_over(zones, rules, n).len() <= rules.budget,
    decreases n,
{
    if n > 0 {
        lemma_no_more_come_in(zones, rules, n - 1);
    }
}

/// Numbers go up by one, and start over after the last.
pub proof fn law_numbers_go_up(n: u32)
    ensures
        n < u32::MAX ==> following(n) == n + 1,
        n == u32::MAX ==> following(n) == 0,
{
}

} // verus!
