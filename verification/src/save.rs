//! What a room is made from, and what is kept of it on disk.
//!
//! The mechanism's state, the damage and the camera are the caller's own: this module
//! carries them through.
use vstd::prelude::*;

use crate::binary64::Real;
use crate::fixture::{self, default_hoist_rect, sane_rect};
use crate::lists::{self, copy_all, Copied};
use crate::netlabels::{self, reload_net_labels, NetLabel, Tag};
use crate::parts::{ElementKind, ElementSpec, Part};
use crate::probes::SavedProbe;
use crate::regions::{
    self, reload_label_boxes, reload_layers, reload_panels, LabelBox, Layer, Panel,
};
use crate::scopes::{self, reload_scopes, Instrument, Scope, MAX_SCOPES};

verus! {

/// The version that is written.
pub const SAVE_VERSION: u32 = 1;

/// The machine of a room, if it has one.
#[derive(Clone, Copy, Debug)]
pub enum MachineSpec<H> {
    Absent,
    Hoist { rect: [i32; 4], state: H },
}

impl<H> MachineSpec<H> {
    /// Whether there is one.
    pub fn is_some(&self) -> (r: bool)
        ensures
            r == (self is Hoist),
    {
        match self {
            MachineSpec::Absent => false,
            MachineSpec::Hoist { .. } => true,
        }
    }
}

/// A room before it is built.
pub struct RoomSetup<H, D, W> {
    pub elements: Vec<ElementSpec>,
    pub probes: Vec<SavedProbe>,
    pub next_pid: u32,
    pub panels: Vec<Panel>,
    pub next_plid: u32,
    /// Nothing where the scopes are still to be seeded.
    pub scopes: Option<Vec<Scope>>,
    pub next_sid: u32,
    pub label_boxes: Vec<LabelBox>,
    pub next_blid: u32,
    pub net_labels: Vec<NetLabel>,
    pub next_nlid: u32,
    pub layers: Vec<Layer>,
    pub next_lid: u32,
    pub machine: MachineSpec<H>,
    pub view: W,
    pub damage: D,
    /// Something outside has driven the room.
    pub ext: bool,
}

/// A room or a template on disk.
pub struct SaveFile<H, D, W> {
    /// Zero in a file that was written before there were versions.
    pub v: u32,
    /// "room" or "template".
    pub kind: String,
    /// The room's code, or the template's id.
    pub id: String,
    pub name: String,
    /// One line about a template.
    pub blurb: String,
    /// The template that the room was made from.
    pub template: String,
    pub created: u64,
    pub played: u64,
    pub elements: Vec<ElementSpec>,
    pub probes: Vec<SavedProbe>,
    pub next_pid: u32,
    pub panels: Vec<Panel>,
    pub next_plid: u32,
    /// Absent in a file that was written before scopes were kept: they are then seeded.
    pub scopes: Option<Vec<Scope>>,
    pub next_sid: u32,
    pub labelboxes: Vec<LabelBox>,
    pub next_blid: u32,
    pub netlabels: Vec<NetLabel>,
    pub next_nlid: u32,
    pub layers: Vec<Layer>,
    pub next_lid: u32,
    /// Absent in a file that was written when every room had a hoist.
    pub machine: Option<MachineSpec<H>>,
    pub view: W,
    /// A copy of what `machine` holds, for readers that do not know it.
    pub hoist: H,
    /// A copy of what `machine` holds, for readers that do not know it.
    pub hoist_rect: [i32; 4],
    pub damage: D,
    pub ext: bool,
}

/// The machine where it was, as if nobody had touched it.
pub open spec fn untouched<H: Default>(a: MachineSpec<H>, b: MachineSpec<H>) -> bool {
    match a {
        MachineSpec::Absent => b is Absent,
        MachineSpec::Hoist { rect, .. } => b matches MachineSpec::Hoist { rect: r, state } && r
            == rect && call_ensures(H::default, (), state),
    }
}

/// The level of a setup, without what was played in it: the machine untouched, nothing
/// damaged, nothing driven from outside. All else is the same.
pub open spec fn freshened<H: Default, D: Default, W>(
    a: RoomSetup<H, D, W>,
    b: RoomSetup<H, D, W>,
) -> bool {
    &&& b == (RoomSetup { machine: b.machine, damage: b.damage, ext: false, ..a })
    &&& untouched(a.machine, b.machine)
    &&& call_ensures(D::default, (), b.damage)
}

impl<H: Default, D: Default, W> RoomSetup<H, D, W> {
    /// The level, without what was played in it.
    pub fn fresh_for_template(self) -> (s: RoomSetup<H, D, W>)
        ensures
            freshened(self, s),
    {
        let mut s: RoomSetup<H, D, W> = self;
        s.machine = match s.machine {
            MachineSpec::Absent => MachineSpec::Absent,
            MachineSpec::Hoist { rect, .. } => MachineSpec::Hoist { rect, state: H::default() },
        };
        s.damage = D::default();
        s.ext = false;
        s
    }
}

/// The machine with its footprint forced back onto its invariants.
pub open spec fn machine_saned<H>(a: MachineSpec<H>, b: MachineSpec<H>) -> bool {
    match a {
        MachineSpec::Absent => b is Absent,
        MachineSpec::Hoist { rect, state } => b matches MachineSpec::Hoist { rect: r, state: t }
            && r@ == fixture::saned(fixture::hoist(), rect@) && fixture::sane(
            fixture::hoist(),
            r@,
        ) && t == state,
    }
}

/// The setup forced onto what the room's ops would have allowed: of panels, label boxes,
/// layers, net labels and scopes only those that an op could have made, within their budgets,
/// the counters past the numbers of what is left, and the machine inside the world. All else
/// is the same.
pub open spec fn normalised<H, D, W>(a: RoomSetup<H, D, W>, b: RoomSetup<H, D, W>) -> bool {
    &&& b == (RoomSetup {
        panels: b.panels,
        next_plid: b.next_plid,
        scopes: b.scopes,
        next_sid: b.next_sid,
        label_boxes: b.label_boxes,
        next_blid: b.next_blid,
        net_labels: b.net_labels,
        next_nlid: b.next_nlid,
        layers: b.layers,
        next_lid: b.next_lid,
        machine: b.machine,
        ..a
    })
    &&& lists::views(b.panels@) == regions::reloaded(
        lists::views(a.panels@),
        regions::panel_rules(),
    )
    &&& b.next_plid == lists::past(regions::zone_ids(lists::views(b.panels@)), a.next_plid)
    &&& lists::views(b.label_boxes@) == regions::reloaded(
        lists::views(a.label_boxes@),
        regions::label_box_rules(),
    )
    &&& b.next_blid == lists::past(regions::zone_ids(lists::views(b.label_boxes@)), a.next_blid)
    &&& lists::views(b.layers@) == regions::reloaded(
        lists::views(a.layers@),
        regions::layer_rules(),
    )
    &&& b.next_lid == lists::past(regions::zone_ids(lists::views(b.layers@)), a.next_lid)
    &&& lists::views(b.net_labels@) == netlabels::reloaded(lists::views(a.net_labels@))
    &&& b.next_nlid == lists::past(netlabels::tag_ids(lists::views(b.net_labels@)), a.next_nlid)
    &&& match (bench(a.scopes), bench(b.scopes)) {
        (Some(s), Some(t)) => t == scopes::reloaded(s) && b.next_sid == lists::past(
            scopes::scope_ids(t),
            a.next_sid,
        ),
        (None, None) => b.next_sid == started(a.next_sid),
        _ => false,
    }
    &&& machine_saned(a.machine, b.machine)
}

impl<H, D, W> RoomSetup<H, D, W> {
    /// The setup forced onto what the room's ops would have allowed: a file can be edited by
    /// hand, and so can a template. Scopes that are still to be seeded stay so.
    pub fn normalize(self) -> (s: RoomSetup<H, D, W>)
        ensures
            normalised(self, s),
            regions::by_the_rules(lists::views(s.panels@), s.next_plid, regions::panel_rules()),
            regions::by_the_rules(
                lists::views(s.label_boxes@),
                s.next_blid,
                regions::label_box_rules(),
            ),
            regions::by_the_rules(lists::views(s.layers@), s.next_lid, regions::layer_rules()),
            netlabels::by_the_rules(lists::views(s.net_labels@), s.next_nlid),
    {
        let (panels, next_plid): (Vec<Panel>, u32) = reload_panels(&self.panels, self.next_plid);
        let (label_boxes, next_blid): (Vec<LabelBox>, u32) = reload_label_boxes(
            &self.label_boxes,
            self.next_blid,
        );
        let (layers, next_lid): (Vec<Layer>, u32) = reload_layers(&self.layers, self.next_lid);
        let (net_labels, next_nlid): (Vec<NetLabel>, u32) = reload_net_labels(
            &self.net_labels,
            self.next_nlid,
        );
        let (kept, next_sid): (Option<Vec<Scope>>, u32) = match &self.scopes {
            Some(v) => {
                let (kept, next): (Vec<Scope>, u32) = reload_scopes(v, self.next_sid);
                (Some(kept), next)
            },
            None => (None, start_count(self.next_sid)),
        };
        let mut s: RoomSetup<H, D, W> = self;
        s.machine = match s.machine {
            MachineSpec::Absent => MachineSpec::Absent,
            MachineSpec::Hoist { rect, state } => MachineSpec::Hoist {
                rect: sane_rect(rect),
                state,
            },
        };
        s.panels = panels;
        s.next_plid = next_plid;
        s.label_boxes = label_boxes;
        s.next_blid = next_blid;
        s.layers = layers;
        s.next_lid = next_lid;
        s.net_labels = net_labels;
        s.next_nlid = next_nlid;
        s.scopes = kept;
        s.next_sid = next_sid;
        s
    }
}

/// Annotation and instruments by the rules, and a machine inside the world, come through as
/// they are; scopes are made usable, and those that are stay.
pub proof fn law_what_is_by_the_rules_is_left_alone<H, D, W>(
    a: RoomSetup<H, D, W>,
    b: RoomSetup<H, D, W>,
)
    requires
        normalised(a, b),
    ensures
        a.next_plid >= 1 && regions::by_the_rules(
            lists::views(a.panels@),
            a.next_plid,
            regions::panel_rules(),
        ) ==> lists::views(b.panels@) == lists::views(a.panels@) && b.next_plid == a.next_plid,
        a.next_blid >= 1 && regions::by_the_rules(
            lists::views(a.label_boxes@),
            a.next_blid,
            regions::label_box_rules(),
        ) ==> lists::views(b.label_boxes@) == lists::views(a.label_boxes@) && b.next_blid
            == a.next_blid,
        a.next_lid >= 1 && regions::by_the_rules(
            lists::views(a.layers@),
            a.next_lid,
            regions::layer_rules(),
        ) ==> lists::views(b.layers@) == lists::views(a.layers@) && b.next_lid == a.next_lid,
        a.next_nlid >= 1 && netlabels::by_the_rules(lists::views(a.net_labels@), a.next_nlid)
            ==> lists::views(b.net_labels@) == lists::views(a.net_labels@) && b.next_nlid
            == a.next_nlid,
        scopes_fit(a) ==> bench(b.scopes) == Some(
            bench(a.scopes)->0.map_values(|s: Instrument| s.saned()),
        ),
        a.machine matches MachineSpec::Hoist { rect, state } ==> fixture::sane(
            fixture::hoist(),
            rect@,
        ) ==> b.machine == a.machine,
        a.machine is Absent ==> b.machine is Absent,
{
    regions::law_the_rules_are_fitting();
    let (p, l, y) = (
        lists::views(a.panels@),
        lists::views(a.label_boxes@),
        lists::views(a.layers@),
    );
    if a.next_plid >= 1 && regions::by_the_rules(p, a.next_plid, regions::panel_rules()) {
        regions::law_sound_regions_come_back(p, a.next_plid, regions::panel_rules());
    }
    if a.next_blid >= 1 && regions::by_the_rules(l, a.next_blid, regions::label_box_rules()) {
        regions::law_sound_regions_come_back(l, a.next_blid, regions::label_box_rules());
    }
    if a.next_lid >= 1 && regions::by_the_rules(y, a.next_lid, regions::layer_rules()) {
        regions::law_sound_regions_come_back(y, a.next_lid, regions::layer_rules());
    }
    let tags = lists::views(a.net_labels@);
    if a.next_nlid >= 1 && netlabels::by_the_rules(tags, a.next_nlid) {
        netlabels::law_sound_labels_come_back(tags, a.next_nlid);
    }
    if scopes_fit(a) {
        scopes::law_reloaded_scopes_are_usable(bench(a.scopes)->0, a.next_sid);
    }
    if let MachineSpec::Hoist { rect, state } = a.machine {
        if fixture::sane(fixture::hoist(), rect@) {
            fixture::law_sane_footprints_stay(fixture::hoist(), rect@);
            let r = b.machine->rect;
            assert(r@ == rect@);
            assert(r == rect) by {
                assert forall|i: int| 0 <= i < 4 implies r@[i] == rect@[i] by {}
                assert(r =~= rect);
            }
        }
    }
}

/// The setup has scopes, no more than a room may hold, none with the last number there is.
pub open spec fn scopes_fit<H, D, W>(s: RoomSetup<H, D, W>) -> bool {
    bench(s.scopes) matches Some(v) && v.len() <= MAX_SCOPES && forall|i: int|
        0 <= i < v.len() ==> (#[trigger] v[i]).sid < u32::MAX
}

/// A kind without what is shone on it just now: its own values stay.
pub open spec fn unlit_kind(k: ElementKind) -> ElementKind {
    match k {
        ElementKind::Photocell { r_dark, r_lit, .. } => ElementKind::Photocell {
            r_dark,
            r_lit,
            light: Real { bits: 0 },
        },
        _ => k,
    }
}

/// The parts without what is shone on them just now.
pub open spec fn unlit(doc: Seq<Part>) -> Seq<Part> {
    Seq::new(doc.len(), |i: int| Part { kind: unlit_kind(doc[i].kind), ..doc[i] })
}

/// The parts, copied without what is shone on them just now.
fn copy_unlit(v: &Vec<ElementSpec>) -> (r: Vec<ElementSpec>)
    ensures
        lists::views(r@) == unlit(lists::views(v@)),
{
    let mut out: Vec<ElementSpec> = Vec::new();
    let mut i: usize = 0;
    while i < v.len()
        invariant
            i <= v@.len(),
            out@.len() == i,
            forall|k: int| 0 <= k < i ==> (#[trigger] out@[k])@ == unlit(lists::views(v@))[k],
        decreases v.len() - i,
    {
        let kind: ElementKind = match v[i].kind {
            ElementKind::Photocell { r_dark, r_lit, .. } => ElementKind::Photocell {
                r_dark,
                r_lit,
                light: Real { bits: 0 },
            },
            k => k,
        };
        out.push(ElementSpec { kind, ..v[i].copied() });
        i += 1;
    }
    proof {
        assert(lists::views(out@) =~= unlit(lists::views(v@)));
    }
    out
}

/// A counter that has started: it never hands out zero.
pub open spec fn started(n: u32) -> u32 {
    if n < 1 {
        1
    } else {
        n
    }
}

pub fn start_count(n: u32) -> (r: u32)
    ensures
        r == started(n),
{
    if n < 1 {
        1
    } else {
        n
    }
}

/// The scopes of a setup or a file, as models.
pub open spec fn bench(scopes: Option<Vec<Scope>>) -> Option<Seq<Instrument>> {
    match scopes {
        Some(v) => Some(lists::views(v@)),
        None => None,
    }
}

fn copy_scopes(scopes: &Option<Vec<Scope>>) -> (r: Option<Vec<Scope>>)
    ensures
        bench(r) == bench(*scopes),
{
    match scopes {
        Some(v) => Some(copy_all(v)),
        None => None,
    }
}

/// The saved probes, copied.
pub fn copy_saved(v: &Vec<SavedProbe>) -> (r: Vec<SavedProbe>)
    ensures
        r@ == v@,
{
    let mut out: Vec<SavedProbe> = Vec::new();
    let mut i: usize = 0;
    while i < v.len()
        invariant
            i <= v@.len(),
            out@ == v@.take(i as int),
        decreases v.len() - i,
    {
        let p: &SavedProbe = &v[i];
        out.push(SavedProbe { pid: p.pid, elem: p.elem, pin: p.pin, kind: p.kind, r: p.r });
        proof {
            assert(v@.take(i + 1) =~= v@.take(i as int).push(v@[i as int]));
        }
        i += 1;
    }
    proof {
        assert(v@.take(v@.len() as int) =~= v@);
    }
    out
}

/// The hoist's own copies in a file: the machine's state and footprint, or those of a
/// hoist that was never touched.
pub open spec fn mirrors<H: Default>(machine: MachineSpec<H>, state: H, rect: Seq<i32>) -> bool {
    match machine {
        MachineSpec::Hoist { rect: r, state: s } => state == s && rect == r@,
        MachineSpec::Absent => call_ensures(H::default, (), state) && rect == fixture::footprint(
            fixture::hoist(),
            46,
            2,
        ),
    }
}

/// An empty file.
pub open spec fn blank<H: Default, D: Default, W: Default>(f: SaveFile<H, D, W>) -> bool {
    &&& f.v == SAVE_VERSION
    &&& f.kind@ == "room"@
    &&& f.id@.len() == 0 && f.name@.len() == 0 && f.blurb@.len() == 0 && f.template@.len() == 0
    &&& f.created == 0 && f.played == 0
    &&& f.elements@.len() == 0 && f.probes@.len() == 0 && f.panels@.len() == 0
    &&& f.labelboxes@.len() == 0 && f.netlabels@.len() == 0 && f.layers@.len() == 0
    &&& f.scopes is None
    &&& f.next_pid == 1 && f.next_plid == 1 && f.next_sid == 1 && f.next_blid == 1
    &&& f.next_nlid == 1 && f.next_lid == 1
    &&& f.machine is None
    &&& mirrors(MachineSpec::<H>::Absent, f.hoist, f.hoist_rect@)
    &&& call_ensures(W::default, (), f.view)
    &&& call_ensures(D::default, (), f.damage)
    &&& !f.ext
}

impl<H: Default, D: Default, W: Default> Default for SaveFile<H, D, W> {
    fn default() -> (f: Self)
        ensures
            blank(f),
    {
        SaveFile {
            v: SAVE_VERSION,
            kind: "room".to_string(),
            id: String::new(),
            name: String::new(),
            blurb: String::new(),
            template: String::new(),
            created: 0,
            played: 0,
            elements: Vec::new(),
            probes: Vec::new(),
            next_pid: 1,
            panels: Vec::new(),
            next_plid: 1,
            scopes: None,
            next_sid: 1,
            labelboxes: Vec::new(),
            next_blid: 1,
            netlabels: Vec::new(),
            next_nlid: 1,
            layers: Vec::new(),
            next_lid: 1,
            machine: None,
            view: W::default(),
            hoist: H::default(),
            hoist_rect: default_hoist_rect(),
            damage: D::default(),
            ext: false,
        }
    }
}

/// The file holds the setup. It has no identity yet.
pub open spec fn saves<H: Default, D: Clone, W: Clone>(
    s: RoomSetup<H, D, W>,
    f: SaveFile<H, D, W>,
) -> bool {
    &&& f.v == SAVE_VERSION
    &&& f.kind@ == "room"@
    &&& f.id@.len() == 0 && f.name@.len() == 0 && f.blurb@.len() == 0 && f.template@.len() == 0
    &&& f.created == 0 && f.played == 0
    &&& lists::views(f.elements@) == lists::views(s.elements@)
    &&& f.probes@ == s.probes@
    &&& lists::views(f.panels@) == lists::views(s.panels@)
    &&& bench(f.scopes) == bench(s.scopes)
    &&& lists::views(f.labelboxes@) == lists::views(s.label_boxes@)
    &&& lists::views(f.netlabels@) == lists::views(s.net_labels@)
    &&& lists::views(f.layers@) == lists::views(s.layers@)
    &&& f.next_pid == s.next_pid
    &&& f.next_plid == s.next_plid
    &&& f.next_sid == s.next_sid
    &&& f.next_blid == s.next_blid
    &&& f.next_nlid == s.next_nlid
    &&& f.next_lid == s.next_lid
    &&& f.machine == Some(s.machine)
    &&& mirrors(s.machine, f.hoist, f.hoist_rect@)
    &&& cloned(s.view, f.view)
    &&& cloned(s.damage, f.damage)
    &&& f.ext == s.ext
}

/// The highest id of the first `n` parts.
pub open spec fn highest(doc: Seq<Part>, n: int) -> int
    decreases n,
{
    if n <= 0 {
        0
    } else if doc[n - 1].id > highest(doc, n - 1) {
        doc[n - 1].id as int
    } else {
        highest(doc, n - 1)
    }
}

/// The first number that no part of the document has reached.
pub open spec fn unused(doc: Seq<Part>) -> int {
    highest(doc, doc.len() as int) + 1
}

/// A net label as a part.
pub open spec fn label_part(t: Tag, id: u32) -> Part {
    Part {
        id,
        kind: ElementKind::Label,
        pins: seq![(t.x, t.y)],
        name: t.name,
        tier: 0,
        rot: 0,
    }
}

/// A document with the net labels of an old file as parts, numbered from the first unused
/// number on.
pub open spec fn migrated(doc: Seq<Part>, tags: Seq<Tag>) -> Seq<Part> {
    doc + Seq::new(tags.len(), |i: int| label_part(tags[i], (unused(doc) + i) as u32))
}

/// The numbers that the net labels of an old file take are there to be had.
pub open spec fn labels_fit(doc: Seq<Part>, tags: Seq<Tag>) -> bool {
    tags.len() > 0 ==> unused(doc) + tags.len() <= u32::MAX
}

/// The setup is what the file holds. A file without a machine has a hoist, where the file
/// says; net labels become parts.
pub open spec fn opens<H, D, W>(f: SaveFile<H, D, W>, s: RoomSetup<H, D, W>) -> bool {
    &&& lists::views(s.elements@) == migrated(lists::views(f.elements@), lists::views(f.netlabels@))
    &&& s.probes == f.probes
    &&& s.panels == f.panels
    &&& s.scopes == f.scopes
    &&& s.label_boxes == f.labelboxes
    &&& s.net_labels@.len() == 0
    &&& s.layers == f.layers
    &&& s.next_pid == started(f.next_pid)
    &&& s.next_plid == started(f.next_plid)
    &&& s.next_sid == started(f.next_sid)
    &&& s.next_blid == started(f.next_blid)
    &&& s.next_nlid == started(f.next_nlid)
    &&& s.next_lid == started(f.next_lid)
    &&& match f.machine {
        Some(m) => s.machine == m,
        None => s.machine matches MachineSpec::Hoist { rect, state } && rect@ == fixture::saned(
            fixture::hoist(),
            f.hoist_rect@,
        ) && state == f.hoist,
    }
    &&& s.view == f.view
    &&& s.damage == f.damage
    &&& s.ext == f.ext
}

fn highest_id(elems: &Vec<ElementSpec>) -> (r: u32)
    ensures
        r == highest(lists::views(elems@), elems@.len() as int),
{
    let mut top: u32 = 0;
    let mut i: usize = 0;
    while i < elems.len()
        invariant
            i <= elems@.len(),
            top == highest(lists::views(elems@), i as int),
        decreases elems.len() - i,
    {
        proof {
            assert(lists::views(elems@)[i as int] == elems@[i as int]@);
        }
        if elems[i].id > top {
            top = elems[i].id;
        }
        i += 1;
    }
    top
}

/// The file as the disk keeps it: what is shone on its parts is not written down.
pub open spec fn written<H, D, W>(a: SaveFile<H, D, W>, b: SaveFile<H, D, W>) -> bool {
    &&& b == (SaveFile { elements: b.elements, ..a })
    &&& lists::views(b.elements@) == unlit(lists::views(a.elements@))
}

impl<H, D, W> SaveFile<H, D, W> {
    /// The file as the disk keeps it.
    pub fn for_disk(self) -> (f: SaveFile<H, D, W>)
        ensures
            written(self, f),
    {
        let mut f: SaveFile<H, D, W> = self;
        f.elements = copy_unlit(&f.elements);
        f
    }

    /// The file as a setup.
    pub fn into_setup(self) -> (s: RoomSetup<H, D, W>)
        requires
            labels_fit(lists::views(self.elements@), lists::views(self.netlabels@)),
        ensures
            opens(self, s),
    {
        let ghost doc = lists::views(self.elements@);
        let ghost tags = lists::views(self.netlabels@);
        let mut elements: Vec<ElementSpec> = self.elements;
        if self.netlabels.len() > 0 {
            let top: u32 = highest_id(&elements);
            let mut next: u32 = top + 1;
            let mut i: usize = 0;
            while i < self.netlabels.len()
                invariant
                    i <= self.netlabels@.len(),
                    doc == lists::views(self.elements@),
                    tags == lists::views(self.netlabels@),
                    unused(doc) + tags.len() <= u32::MAX,
                    next == unused(doc) + i,
                    lists::views(elements@) == migrated(doc, tags.take(i as int)),
                decreases self.netlabels.len() - i,
            {
                let l: &NetLabel = &self.netlabels[i];
                let ghost before = elements@;
                let mut pins: Vec<(i32, i32)> = Vec::new();
                pins.push((l.x, l.y));
                assert(pins@ =~= seq![(l.x, l.y)]);
                let mut part: ElementSpec = ElementSpec::new(next, ElementKind::Label, pins);
                part.name = l.name.clone();
                elements.push(part);
                proof {
                    assert(tags[i as int] == self.netlabels@[i as int]@);
                    assert(part@ == label_part(tags[i as int], next));
                    assert(lists::views(elements@) =~= lists::views(before).push(part@));
                    assert(migrated(doc, tags.take(i + 1)) =~= migrated(
                        doc,
                        tags.take(i as int),
                    ).push(label_part(tags[i as int], next)));
                }
                next += 1;
                i += 1;
            }
            assert(tags.take(tags.len() as int) =~= tags);
        } else {
            assert(migrated(doc, tags) =~= doc);
        }
        let machine: MachineSpec<H> = match self.machine {
            Some(m) => m,
            None => MachineSpec::Hoist { rect: sane_rect(self.hoist_rect), state: self.hoist },
        };
        RoomSetup {
            elements,
            probes: self.probes,
            next_pid: start_count(self.next_pid),
            panels: self.panels,
            next_plid: start_count(self.next_plid),
            scopes: self.scopes,
            next_sid: start_count(self.next_sid),
            label_boxes: self.labelboxes,
            next_blid: start_count(self.next_blid),
            net_labels: Vec::new(),
            next_nlid: start_count(self.next_nlid),
            layers: self.layers,
            next_lid: start_count(self.next_lid),
            machine,
            view: self.view,
            damage: self.damage,
            ext: self.ext,
        }
    }

    /// The file with its kind, id and name.
    pub fn with_identity(self, kind: &str, id: &str, name: &str) -> (f: SaveFile<H, D, W>)
        ensures
            f.kind@ == kind@,
            f.id@ == id@,
            f.name@ == name@,
            f == (SaveFile { kind: f.kind, id: f.id, name: f.name, ..self }),
    {
        let mut f: SaveFile<H, D, W> = self;
        f.kind = kind.to_string();
        f.id = id.to_string();
        f.name = name.to_string();
        f
    }

    /// The file with a line about it.
    pub fn with_blurb(self, blurb: &str) -> (f: SaveFile<H, D, W>)
        ensures
            f.blurb@ == blurb@,
            f == (SaveFile { blurb: f.blurb, ..self }),
    {
        let mut f: SaveFile<H, D, W> = self;
        f.blurb = blurb.to_string();
        f
    }
}

impl<H: Copy + Default, D: Clone, W: Clone> SaveFile<H, D, W> {
    /// A setup as a file.
    pub fn from_setup(s: &RoomSetup<H, D, W>) -> (f: SaveFile<H, D, W>)
        ensures
            saves(*s, f),
    {
        let (hoist, hoist_rect): (H, [i32; 4]) = match s.machine {
            MachineSpec::Hoist { rect, state } => (state, rect),
            MachineSpec::Absent => (H::default(), default_hoist_rect()),
        };
        SaveFile {
            v: SAVE_VERSION,
            kind: "room".to_string(),
            id: String::new(),
            name: String::new(),
            blurb: String::new(),
            template: String::new(),
            created: 0,
            played: 0,
            elements: copy_all(&s.elements),
            probes: copy_saved(&s.probes),
            next_pid: s.next_pid,
            panels: copy_all(&s.panels),
            next_plid: s.next_plid,
            scopes: copy_scopes(&s.scopes),
            next_sid: s.next_sid,
            labelboxes: copy_all(&s.label_boxes),
            next_blid: s.next_blid,
            netlabels: copy_all(&s.net_labels),
            next_nlid: s.next_nlid,
            layers: copy_all(&s.layers),
            next_lid: s.next_lid,
            machine: Some(s.machine),
            view: s.view.clone(),
            hoist,
            hoist_rect,
            damage: s.damage.clone(),
            ext: s.ext,
        }
    }
}

/// A room comes back as it was saved: its parts, its instruments, its machine, and the
/// badge that says it was driven from outside. Its net labels come back as parts.
pub proof fn law_a_saved_room_comes_back<H: Default, D: Clone, W: Clone>(
    s: RoomSetup<H, D, W>,
    f: SaveFile<H, D, W>,
    t: RoomSetup<H, D, W>,
)
    requires
        saves(s, f),
        opens(f, t),
    ensures
        lists::views(t.elements@) == migrated(lists::views(s.elements@), lists::views(s.net_labels@)),
        s.net_labels@.len() == 0 ==> lists::views(t.elements@) == lists::views(s.elements@),
        t.probes@ == s.probes@,
        lists::views(t.panels@) == lists::views(s.panels@),
        bench(t.scopes) == bench(s.scopes),
        lists::views(t.label_boxes@) == lists::views(s.label_boxes@),
        lists::views(t.layers@) == lists::views(s.layers@),
        t.machine == s.machine,
        t.ext == s.ext,
        t.next_pid == started(s.next_pid),
        t.next_plid == started(s.next_plid),
        t.next_sid == started(s.next_sid),
        t.next_blid == started(s.next_blid),
        t.next_nlid == started(s.next_nlid),
        t.next_lid == started(s.next_lid),
        cloned(s.view, t.view),
        cloned(s.damage, t.damage),
{
    if s.net_labels@.len() == 0 {
        assert(migrated(lists::views(s.elements@), lists::views(s.net_labels@)) =~= lists::views(s.elements@));
    }
}

/// What was on the disk comes back dark: whatever was shone on a photocell, nothing shines
/// on it then.
pub proof fn law_a_file_comes_back_dark<H, D, W>(
    f: SaveFile<H, D, W>,
    g: SaveFile<H, D, W>,
    t: RoomSetup<H, D, W>,
)
    requires
        written(f, g),
        opens(g, t),
    ensures
        lists::views(t.elements@) == migrated(
            unlit(lists::views(f.elements@)),
            lists::views(f.netlabels@),
        ),
        forall|i: int|
            0 <= i < t.elements@.len() ==> ((#[trigger] t.elements@[i]).kind matches ElementKind::Photocell {
                light,
                ..
            } ==> light.bits == 0),
{
    let doc = unlit(lists::views(f.elements@));
    let tags = lists::views(f.netlabels@);
    assert forall|i: int| 0 <= i < t.elements@.len() implies ((
    #[trigger] t.elements@[i]).kind matches ElementKind::Photocell { light, .. } ==> light.bits
        == 0) by {
        assert(lists::views(t.elements@)[i] == t.elements@[i]@);
        assert(lists::views(t.elements@).len() == t.elements@.len());
        if i >= doc.len() {
            let all = migrated(doc, tags);
            assert(t.elements@.len() == all.len());
            assert(all[i] == label_part(tags[i - doc.len()], (unused(doc) + (i - doc.len())) as u32));
        }
    }
}

proof fn lemma_highest(doc: Seq<Part>, n: int, i: int)
    requires
        0 <= i < n <= doc.len(),
    ensures
        doc[i].id <= highest(doc, n),
    decreases n,
{
    if i < n - 1 {
        lemma_highest(doc, n - 1, i);
    }
}

/// A net label that became a part never takes the number of another part.
pub proof fn law_migrated_labels_take_new_numbers(doc: Seq<Part>, tags: Seq<Tag>, i: int, j: int)
    requires
        labels_fit(doc, tags),
        doc.len() <= i < migrated(doc, tags).len(),
        0 <= j < migrated(doc, tags).len(),
        i != j,
    ensures
        migrated(doc, tags)[i].id != migrated(doc, tags)[j].id,
{
    if j < doc.len() {
        lemma_highest(doc, doc.len() as int, j);
    }
}

/// A part without what is shone on it is the part: only a photocell's light is gone.
pub proof fn law_only_light_is_not_written_down(doc: Seq<Part>, i: int)
    requires
        0 <= i < doc.len(),
    ensures
        unlit(doc).len() == doc.len(),
        ({
            let (p, q) = (doc[i], unlit(doc)[i]);
            &&& q.id == p.id && q.pins == p.pins && q.name == p.name && q.tier == p.tier && q.rot == p.rot
            &&& match (p.kind, q.kind) {
                (ElementKind::Photocell { r_dark, r_lit, .. }, ElementKind::Photocell {
                    r_dark: d,
                    r_lit: l,
                    light,
                }) => d == r_dark && l == r_lit && light.bits == 0,
                (before, after) => after == before,
            }
        }),
{
}

/// A counter that has started is where it was, or at one.
pub proof fn law_a_counter_starts_at_one(n: u32)
    ensures
        n > 0 ==> started(n) == n,
        started(0) == 1,
{
}

/// Net labels become parts behind the others, in order: each a label on its point, with its
/// name, and the next number after the highest there is. The parts stay as they are.
pub proof fn law_net_labels_become_parts(doc: Seq<Part>, tags: Seq<Tag>, i: int)
    requires
        labels_fit(doc, tags),
        0 <= i < doc.len() + tags.len(),
    ensures
        migrated(doc, tags).len() == doc.len() + tags.len(),
        i < doc.len() ==> migrated(doc, tags)[i] == doc[i],
        i >= doc.len() ==> {
            let (p, t) = (migrated(doc, tags)[i], tags[i - doc.len()]);
            &&& p.kind is Label
            &&& p.pins.len() == 1 && p.pins[0].0 == t.x && p.pins[0].1 == t.y
            &&& p.name == t.name
            &&& p.tier == 0 && p.rot == 0
            &&& forall|j: int| 0 <= j < doc.len() ==> (#[trigger] doc[j]).id < p.id
            &&& i > doc.len() ==> p.id == migrated(doc, tags)[i - 1].id + 1
            &&& i == doc.len() ==> p.id == 1 || exists|j: int|
                0 <= j < doc.len() && (#[trigger] doc[j]).id == p.id - 1
        },
{
    assert forall|j: int| 0 <= j < doc.len() implies (#[trigger] doc[j]).id < unused(doc) by {
        lemma_highest(doc, doc.len() as int, j);
    }
    lemma_highest_is_there(doc, doc.len() as int);
}

proof fn lemma_highest_is_there(doc: Seq<Part>, n: int)
    requires
        0 <= n <= doc.len(),
    ensures
        highest(doc, n) == 0 || exists|j: int|
            0 <= j < n && (#[trigger] doc[j]).id == highest(doc, n),
        highest(doc, n) >= 0,
    decreases n,
{
    if n > 0 {
        lemma_highest_is_there(doc, n - 1);
        if doc[n - 1].id > highest(doc, n - 1) {
            assert(doc[n - 1].id == highest(doc, n));
        }
    }
}

/// The two lists hold things that show the same, one for one.
pub open spec fn alike<T: View>(a: Seq<T>, b: Seq<T>) -> bool {
    &&& a.len() == b.len()
    &&& forall|i: int| 0 <= i < a.len() ==> (#[trigger] a[i])@ == b[i]@
}

/// Lists that show the same hold things that show the same.
pub proof fn lemma_alike<T: View>(a: Seq<T>, b: Seq<T>)
    requires
        lists::views(a) == lists::views(b),
    ensures
        alike(a, b),
{
    assert(lists::views(a).len() == a.len() && lists::views(b).len() == b.len());
    assert forall|i: int| 0 <= i < a.len() implies (#[trigger] a[i])@ == b[i]@ by {
        assert(lists::views(a)[i] == a[i]@ && lists::views(b)[i] == b[i]@);
    }
}

/// Everything in a file is what the setup has: each list holds the same things one for one,
/// each counter is that of its own list, and the old copies of the machine are the machine's.
pub proof fn law_a_file_holds_the_setup<H: Default, D: Clone, W: Clone>(
    s: RoomSetup<H, D, W>,
    f: SaveFile<H, D, W>,
)
    requires
        saves(s, f),
    ensures
        alike(s.elements@, f.elements@),
        alike(s.panels@, f.panels@),
        alike(s.label_boxes@, f.labelboxes@),
        alike(s.net_labels@, f.netlabels@),
        alike(s.layers@, f.layers@),
        s.scopes is None <==> f.scopes is None,
        s.scopes is Some ==> alike(s.scopes->0@, f.scopes->0@),
        f.probes@.len() == s.probes@.len(),
        forall|i: int| 0 <= i < s.probes@.len() ==> #[trigger] f.probes@[i] == s.probes@[i],
        f.next_pid == s.next_pid && f.next_plid == s.next_plid && f.next_sid == s.next_sid,
        f.next_blid == s.next_blid && f.next_nlid == s.next_nlid && f.next_lid == s.next_lid,
        f.machine == Some(s.machine),
        s.machine matches MachineSpec::Hoist { rect, state } ==> f.hoist == state && f.hoist_rect@
            == rect@,
        s.machine is Absent ==> {
            &&& call_ensures(H::default, (), f.hoist)
            &&& f.hoist_rect@[0] == 46 && f.hoist_rect@[1] == 2 && f.hoist_rect@[2] == 62
            &&& f.hoist_rect@[3] == 17
        },
        cloned(s.view, f.view),
        cloned(s.damage, f.damage),
        f.ext == s.ext,
        f.v == 1,
        f.id@.len() == 0 && f.name@.len() == 0 && f.blurb@.len() == 0 && f.template@.len() == 0,
        f.created == 0 && f.played == 0,
{
    lemma_alike(s.elements@, f.elements@);
    lemma_alike(s.panels@, f.panels@);
    lemma_alike(s.label_boxes@, f.labelboxes@);
    lemma_alike(s.net_labels@, f.netlabels@);
    lemma_alike(s.layers@, f.layers@);
    if s.scopes is Some {
        lemma_alike(s.scopes->0@, f.scopes->0@);
    }
}

/// Everything in a setup is what the file has, each counter that of its own list, at one at
/// least. A file that says nothing of a machine has the hoist that its old copies say, put back
/// into the world; one that says there is none has none.
pub proof fn law_a_setup_is_what_the_file_holds<H, D, W>(f: SaveFile<H, D, W>, s: RoomSetup<H, D, W>)
    requires
        opens(f, s),
    ensures
        s.elements@.len() == f.elements@.len() + f.netlabels@.len(),
        forall|i: int|
            0 <= i < f.elements@.len() ==> (#[trigger] s.elements@[i])@ == f.elements@[i]@,
        s.probes == f.probes && s.panels == f.panels && s.scopes == f.scopes,
        s.label_boxes == f.labelboxes && s.layers == f.layers,
        s.net_labels@.len() == 0,
        f.next_pid > 0 ==> s.next_pid == f.next_pid,
        f.next_plid > 0 ==> s.next_plid == f.next_plid,
        f.next_sid > 0 ==> s.next_sid == f.next_sid,
        f.next_blid > 0 ==> s.next_blid == f.next_blid,
        f.next_nlid > 0 ==> s.next_nlid == f.next_nlid,
        f.next_lid > 0 ==> s.next_lid == f.next_lid,
        s.next_pid > 0 && s.next_plid > 0 && s.next_sid > 0,
        s.next_blid > 0 && s.next_nlid > 0 && s.next_lid > 0,
        f.machine matches Some(m) ==> s.machine == m,
        f.machine is None ==> (s.machine matches MachineSpec::Hoist { rect, state } && state == f.hoist
            && (fixture::sane(fixture::hoist(), f.hoist_rect@) ==> rect@ == f.hoist_rect@)),
        s.view == f.view && s.damage == f.damage && s.ext == f.ext,
{
    let (doc, tags) = (lists::views(f.elements@), lists::views(f.netlabels@));
    assert(lists::views(s.elements@).len() == s.elements@.len());
    assert forall|i: int| 0 <= i < f.elements@.len() implies (#[trigger] s.elements@[i])@
        == f.elements@[i]@ by {
        assert(lists::views(s.elements@)[i] == s.elements@[i]@);
        assert(migrated(doc, tags)[i] == doc[i]);
    }
    if fixture::sane(fixture::hoist(), f.hoist_rect@) {
        fixture::law_sane_footprints_stay(fixture::hoist(), f.hoist_rect@);
    }
}

/// A level without what was played in it is the level: the machine stands where it stood, and
/// nothing else of the level changes.
pub proof fn law_a_fresh_level_is_the_level<H: Default, D: Default, W>(
    a: RoomSetup<H, D, W>,
    b: RoomSetup<H, D, W>,
)
    requires
        freshened(a, b),
    ensures
        b.elements == a.elements && b.probes == a.probes && b.panels == a.panels,
        b.scopes == a.scopes && b.label_boxes == a.label_boxes && b.net_labels == a.net_labels,
        b.layers == a.layers && b.view == a.view,
        b.next_pid == a.next_pid && b.next_plid == a.next_plid && b.next_sid == a.next_sid,
        b.next_blid == a.next_blid && b.next_nlid == a.next_nlid && b.next_lid == a.next_lid,
        !b.ext,
        call_ensures(D::default, (), b.damage),
        a.machine is Absent <==> b.machine is Absent,
        a.machine matches MachineSpec::Hoist { rect, .. } ==> (b.machine matches MachineSpec::Hoist {
            rect: r,
            state,
        } && r == rect && call_ensures(H::default, (), state)),
{
}

/// A setup that is made normal keeps what the ops have no say in: its parts, its probes and
/// their counter, its camera, its damage and its badge, and the machine's state.
pub proof fn law_a_normal_setup_is_the_setup<H, D, W>(a: RoomSetup<H, D, W>, b: RoomSetup<H, D, W>)
    requires
        normalised(a, b),
    ensures
        b.elements == a.elements && b.probes == a.probes && b.next_pid == a.next_pid,
        b.view == a.view && b.damage == a.damage && b.ext == a.ext,
        b.scopes is None <==> a.scopes is None,
        a.machine is Absent <==> b.machine is Absent,
        a.machine matches MachineSpec::Hoist { rect, state } ==> (
        b.machine matches MachineSpec::Hoist { rect: r, state: t } && t == state && fixture::sane(
            fixture::hoist(),
            r@,
        )),
        b.panels@.len() <= a.panels@.len() && b.label_boxes@.len() <= a.label_boxes@.len(),
        b.layers@.len() <= a.layers@.len(),
{
    let (p, l, y) = (
        lists::views(a.panels@),
        lists::views(a.label_boxes@),
        lists::views(a.layers@),
    );
    regions::lemma_no_more_come_in(p, regions::panel_rules(), p.len() as int);
    regions::lemma_no_more_come_in(l, regions::label_box_rules(), l.len() as int);
    regions::lemma_no_more_come_in(y, regions::layer_rules(), y.len() as int);
    assert(lists::views(b.panels@).len() == b.panels@.len());
    assert(lists::views(b.label_boxes@).len() == b.label_boxes@.len());
    assert(lists::views(b.layers@).len() == b.layers@.len());
}

/// An empty file has nothing in it, and every counter at one.
pub proof fn law_an_empty_file_is_empty<H: Default, D: Default, W: Default>(f: SaveFile<H, D, W>)
    requires
        blank(f),
    ensures
        f.v == 1 && f.kind@ == "room"@,
        f.elements@.len() == 0 && f.probes@.len() == 0 && f.panels@.len() == 0,
        f.labelboxes@.len() == 0 && f.netlabels@.len() == 0 && f.layers@.len() == 0,
        f.scopes is None && f.machine is None && !f.ext,
        f.next_pid == 1 && f.next_plid == 1 && f.next_sid == 1,
        f.next_blid == 1 && f.next_nlid == 1 && f.next_lid == 1,
        f.hoist_rect@[0] == 46 && f.hoist_rect@[1] == 2 && f.hoist_rect@[2] == 62,
        f.hoist_rect@[3] == 17,
        f.created == 0 && f.played == 0,
        f.id@.len() == 0 && f.name@.len() == 0 && f.blurb@.len() == 0 && f.template@.len() == 0,
{
}

/// A machine that is made normal stands where it stood, where that is inside the world, with
/// the state that it had; and its low corner goes to the nearer end of the world where it does
/// not.
pub proof fn law_a_machine_is_put_back<H>(a: MachineSpec<H>, b: MachineSpec<H>)
    requires
        machine_saned(a, b),
    ensures
        a is Absent <==> b is Absent,
        a matches MachineSpec::Hoist { rect, state } ==> (b matches MachineSpec::Hoist {
            rect: r,
            state: t,
        } && t == state && r@[2] == r@[0] + 16 && r@[3] == r@[1] + 15 && (rect@[0] <= rect@[2]
            && -1_000_000 <= rect@[0] <= 999_984 ==> r@[0] == rect@[0]) && (rect@[1] <= rect@[3]
            && -1_000_000 <= rect@[1] <= 999_985 ==> r@[1] == rect@[1])),
{
    if let MachineSpec::Hoist { rect, .. } = a {
        fixture::law_a_footprint_is_put_back(rect@);
    }
}

} // verus!
