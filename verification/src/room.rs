//! A room between two ticks: its document and instruments, and what each command does
//! to them.
//!
//! A command that changes what the solver solves is judged first: the room says what the
//! document would become, the caller asks the solver, and hands the verdict back. What
//! has to happen outside the room comes back as actions, in order.
use vstd::prelude::*;

use std::collections::VecDeque;

use crate::chat::ChatLine;
use crate::document::{self, apply_doc_op_to, reserved_id, DocOp, Edit, InteractOp};
use crate::lists::{self, find, has_id, remove_all, Keyed};
use crate::netlabels::{self, apply_net_label_op, NetLabel, NetLabelOp, TagOp};
use crate::parts::{ElementSpec, Part};
use crate::probes::{NetMap, Probe, ProbeKind, MAX_PROBES};
use crate::regions::{
    self, apply_label_box_op, apply_layer_op, apply_panel_op, take_number, LabelBox, LabelBoxOp,
    Layer, LayerOp, Panel, PanelOp, RegionOp, ZoneOp,
};
use crate::scopes::{self, apply_scope_op, prune_scope_pids, BenchOp, Scope, ScopeOp};
use crate::sensors::{self, drop_claims_of, fail_dark, Claim, Driven, Over, Reading, Shown};
use crate::slew::{Slews, WiperWrite};

verus! {

/// A room's document, its instruments and its counters.
pub struct Room {
    pub elements: Vec<ElementSpec>,
    pub probes: Vec<Probe>,
    pub panels: Vec<Panel>,
    pub scopes: Vec<Scope>,
    pub label_boxes: Vec<LabelBox>,
    pub net_labels: Vec<NetLabel>,
    pub layers: Vec<Layer>,
    /// Who drives which layer. Live only, never saved.
    pub claims: Vec<Claim>,
    /// The last lines of chat. Live only, never saved.
    pub chat: VecDeque<ChatLine>,
    pub next_client: u32,
    pub next_pid: u32,
    pub next_plid: u32,
    pub next_sid: u32,
    pub next_blid: u32,
    pub next_nlid: u32,
    pub next_lid: u32,
    pub population: u32,
    /// Something is to be saved.
    pub dirty: bool,
    /// Something outside has driven this room since the machine was last reset.
    pub ext: bool,
}

/// What a running room keeps beside its document.
pub struct Sim {
    pub has_machine: bool,
    pub rect: [i32; 4],
    /// The document's sources, for the energy meter.
    pub sources: Vec<u32>,
    pub driven: Vec<Driven>,
    pub slews: Slews,
    pub damage_shown: bool,
    /// The net map that was last sent.
    pub netmap_shown: Option<NetMap>,
    pub ticks_since_save: u32,
    pub empty_ticks: u32,
}

/// What one tick gathers.
pub struct Work {
    /// The machine's moves, summed.
    pub pending: (i32, i32),
    /// Who moved the machine last.
    pub mover: u32,
    /// A request to stop, and whether to checkpoint. The last one counts.
    pub stop: Option<bool>,
    pub readings: Vec<Reading>,
    pub to_dark: Vec<u32>,
    pub sensor_out: Vec<Shown>,
}

/// Why the solver will not have a document.
#[derive(Clone, Debug)]
pub struct Reject {
    pub code: String,
    pub id: Option<u32>,
    pub ids: Vec<u32>,
    pub hint: String,
}

/// What was refused.
#[derive(Clone, Copy, Debug, PartialEq, Eq, Structural)]
pub enum Context {
    Interact,
    Edit,
    Repair,
    MachineMove,
}

/// What has to happen outside the room.
pub enum Action {
    /// Tell the room that a session's command was refused, and why.
    Refuse { who: u32, ctx: Context, why: Reject },
    /// Flip or turn a part in the solver.
    Interact { id: u32, op: InteractOp },
    /// Put a wiper in the solver where it is.
    Hold { write: WiperWrite },
    /// Give the solver the document; and the damage model, where ratings may have changed.
    Rebuild { ratings: bool },
    /// Lower the crate and re-arm the goal.
    ResetMachine,
    /// Put a broken part back into service.
    Repair { id: u32 },
    /// Find out which layer each part reads, and drop what nobody may drive.
    FailDark,
    /// Tell the room of a flip or a turn.
    TellOp { id: u32, op: InteractOp },
    /// Tell the room of an edit.
    TellDoc { op: DocOp },
    TellProbes,
    TellScopes,
    TellPanels,
    TellLabelBoxes,
    TellNetLabels,
    TellLayers,
    TellPresence { n: u32 },
}

/// Makes an edit of a room's document; tells whether it was taken.
pub fn apply_doc_op(room: &mut Room, op: &DocOp) -> (r: bool)
    ensures
        match document::edited(lists::views(old(room).elements@), op@) {
            Some(doc) => {
                &&& r
                &&& *final(room) == (Room { elements: final(room).elements, ..*old(room) })
                &&& lists::views(final(room).elements@) == doc
            },
            None => !r && *final(room) == *old(room),
        },
{
    apply_doc_op_to(&mut room.elements, op)
}

/// A room after a panel op, and what it says.
pub open spec fn panel_step(a: Room, b: Room, op: ZoneOp, acts: Seq<Action>) -> bool {
    match regions::zoned(lists::views(a.panels@), a.next_plid, op, regions::panel_rules()) {
        None => b == a && acts == Seq::<Action>::empty(),
        Some((zones, next)) => {
            &&& lists::views(b.panels@) == zones
            &&& b == (Room { panels: b.panels, next_plid: next, dirty: true, ..a })
            &&& acts == seq![Action::TellPanels]
        },
    }
}

/// A panel op.
pub fn on_panel(room: &mut Room, op: &PanelOp) -> (acts: Vec<Action>)
    ensures
        panel_step(*old(room), *final(room), op@, acts@),
{
    let mut acts: Vec<Action> = Vec::new();
    if apply_panel_op(&mut room.panels, &mut room.next_plid, op) {
        room.dirty = true;
        acts.push(Action::TellPanels);
        assert(acts@ =~= seq![Action::TellPanels]);
    }
    acts
}

/// A room after a label box op, and what it says.
pub open spec fn label_box_step(a: Room, b: Room, op: ZoneOp, acts: Seq<Action>) -> bool {
    match regions::zoned(lists::views(a.label_boxes@), a.next_blid, op, regions::label_box_rules()) {
        None => b == a && acts == Seq::<Action>::empty(),
        Some((zones, next)) => {
            &&& lists::views(b.label_boxes@) == zones
            &&& b == (Room { label_boxes: b.label_boxes, next_blid: next, dirty: true, ..a })
            &&& acts == seq![Action::TellLabelBoxes]
        },
    }
}

/// A label box op.
pub fn on_label_box(room: &mut Room, op: &LabelBoxOp) -> (acts: Vec<Action>)
    ensures
        label_box_step(*old(room), *final(room), op@, acts@),
{
    let mut acts: Vec<Action> = Vec::new();
    if apply_label_box_op(&mut room.label_boxes, &mut room.next_blid, op) {
        room.dirty = true;
        acts.push(Action::TellLabelBoxes);
        assert(acts@ =~= seq![Action::TellLabelBoxes]);
    }
    acts
}

/// A room after a net label op, and what it says.
pub open spec fn net_label_step(a: Room, b: Room, op: TagOp, acts: Seq<Action>) -> bool {
    match netlabels::tagged(lists::views(a.net_labels@), a.next_nlid, op) {
        None => b == a && acts == Seq::<Action>::empty(),
        Some((tags, next)) => {
            &&& lists::views(b.net_labels@) == tags
            &&& b == (Room { net_labels: b.net_labels, next_nlid: next, dirty: true, ..a })
            &&& acts == seq![Action::TellNetLabels]
        },
    }
}

/// A net label op.
pub fn on_net_label(room: &mut Room, op: &NetLabelOp) -> (acts: Vec<Action>)
    ensures
        net_label_step(*old(room), *final(room), op@, acts@),
{
    let mut acts: Vec<Action> = Vec::new();
    if apply_net_label_op(&mut room.net_labels, &mut room.next_nlid, op) {
        room.dirty = true;
        acts.push(Action::TellNetLabels);
        assert(acts@ =~= seq![Action::TellNetLabels]);
    }
    acts
}

/// A room after a scope op, and what it says.
pub open spec fn scope_step(a: Room, b: Room, op: BenchOp, acts: Seq<Action>) -> bool {
    match scopes::benched(lists::views(a.scopes@), a.next_sid, op) {
        None => b == a && acts == Seq::<Action>::empty(),
        Some((bench, next)) => {
            &&& lists::views(b.scopes@) == bench
            &&& b == (Room { scopes: b.scopes, next_sid: next, dirty: true, ..a })
            &&& acts == seq![Action::TellScopes]
        },
    }
}

/// A scope op.
pub fn on_scope(room: &mut Room, op: &ScopeOp) -> (acts: Vec<Action>)
    ensures
        scope_step(*old(room), *final(room), op@, acts@),
{
    let mut acts: Vec<Action> = Vec::new();
    if apply_scope_op(&mut room.scopes, &mut room.next_sid, op) {
        room.dirty = true;
        acts.push(Action::TellScopes);
        assert(acts@ =~= seq![Action::TellScopes]);
    }
    acts
}

/// A room after a layer op, and what it says. A layer that goes takes its claim with it,
/// and what it was driving goes dark.
pub open spec fn layer_step(a: Room, b: Room, op: ZoneOp, acts: Seq<Action>) -> bool {
    match regions::zoned(lists::views(a.layers@), a.next_lid, op, regions::layer_rules()) {
        None => b == a && acts == Seq::<Action>::empty(),
        Some((zones, next)) => {
            &&& lists::views(b.layers@) == zones
            &&& b == (Room {
                layers: b.layers,
                next_lid: next,
                claims: b.claims,
                dirty: true,
                ..a
            })
            &&& match op {
                ZoneOp::Remove { id } => {
                    &&& b.claims@ == lists::without(a.claims@, id)
                    &&& acts == seq![Action::FailDark, Action::TellLayers]
                },
                _ => b.claims == a.claims && acts == seq![Action::TellLayers],
            }
        },
    }
}

/// A layer op.
pub fn on_layer(room: &mut Room, op: &LayerOp) -> (acts: Vec<Action>)
    ensures
        layer_step(*old(room), *final(room), op@, acts@),
{
    let mut acts: Vec<Action> = Vec::new();
    if apply_layer_op(&mut room.layers, &mut room.next_lid, op) {
        if let RegionOp::Remove { id } = op {
            let _ = remove_all(&mut room.claims, *id);
            acts.push(Action::FailDark);
        }
        room.dirty = true;
        acts.push(Action::TellLayers);
        proof {
            if op is Remove {
                assert(acts@ =~= seq![Action::FailDark, Action::TellLayers]);
            } else {
                assert(acts@ =~= seq![Action::TellLayers]);
            }
        }
    }
    acts
}

/// The claims after a session asked for a layer or gave it back. First come, one at a
/// time; giving back what one does not have does nothing.
pub open spec fn claims_after(
    claims: Seq<Claim>,
    known: bool,
    who: u32,
    lid: u32,
    claim: bool,
) -> Seq<Claim> {
    if claim {
        if known && !lists::keys(claims).contains(lid) {
            claims.push(Claim { lid, who })
        } else {
            claims
        }
    } else {
        match claims.index_of_first(Claim { lid, who }) {
            Some(i) => claims.remove(i),
            None => claims,
        }
    }
}

/// A room after a session asked for a layer or gave it back, and what it says.
pub open spec fn claim_step(
    a: Room,
    b: Room,
    who: u32,
    lid: u32,
    claim: bool,
    acts: Seq<Action>,
) -> bool {
    let known = lists::place(a.layers@, lid) is Some;
    &&& b == (Room { claims: b.claims, ..a })
    &&& b.claims@ == claims_after(a.claims@, known, who, lid, claim)
    &&& acts == if b.claims@ == a.claims@ {
        Seq::<Action>::empty()
    } else if claim {
        seq![Action::TellLayers]
    } else {
        seq![Action::FailDark, Action::TellLayers]
    }
}

/// A session asks for a layer, or gives it back.
pub fn on_layer_claim(room: &mut Room, who: u32, lid: u32, claim: bool) -> (acts: Vec<Action>)
    ensures
        claim_step(*old(room), *final(room), who, lid, claim, acts@),
{
    let mut acts: Vec<Action> = Vec::new();
    let ghost before = room.claims@;
    if claim {
        if has_id(&room.layers, lid) && !has_id(&room.claims, lid) {
            room.claims.push(Claim { lid, who });
            acts.push(Action::TellLayers);
            proof {
                assert(room.claims@.len() != before.len());
                assert(acts@ =~= seq![Action::TellLayers]);
            }
        }
    } else {
        let mut i: usize = 0;
        while i < room.claims.len()
            invariant
                i <= room.claims@.len(),
                !claim,
                *room == *old(room),
                before == room.claims@,
                acts@ == Seq::<Action>::empty(),
                forall|k: int| 0 <= k < i ==> #[trigger] before[k] != (Claim { lid, who }),
            decreases room.claims.len() - i,
        {
            if room.claims[i].lid == lid && room.claims[i].who == who {
                proof {
                    lemma_first_claim(before, Claim { lid, who }, i as int);
                }
                let _ = room.claims.remove(i);
                acts.push(Action::FailDark);
                acts.push(Action::TellLayers);
                proof {
                    assert(room.claims@.len() != before.len());
                    assert(acts@ =~= seq![Action::FailDark, Action::TellLayers]);
                }
                return acts;
            }
            i += 1;
        }
        proof {
            before.index_of_first_ensures(Claim { lid, who });
        }
    }
    acts
}

proof fn lemma_first_claim(s: Seq<Claim>, c: Claim, i: int)
    requires
        0 <= i < s.len(),
        s[i] == c,
        forall|k: int| 0 <= k < i ==> #[trigger] s[k] != c,
    ensures
        s.index_of_first(c) == Some(i),
{
    s.index_of_first_ensures(c);
    assert(s.contains(c));
    let k = s.index_of_first(c)->0;
    if k < i {
        assert(s[k] != c);
    }
}

/// A layer has one driver at most, and asking for a layer that is taken changes nothing.
pub proof fn law_one_driver_per_layer(
    claims: Seq<Claim>,
    known: bool,
    who: u32,
    lid: u32,
    claim: bool,
)
    requires
        lists::keys(claims).no_duplicates(),
    ensures
        lists::keys(claims_after(claims, known, who, lid, claim)).no_duplicates(),
        claim && lists::keys(claims).contains(lid) ==> claims_after(claims, known, who, lid, claim)
            == claims,
{
    let after = claims_after(claims, known, who, lid, claim);
    claims.index_of_first_ensures(Claim { lid, who });
    assert forall|i: int, j: int|
        0 <= i < lists::keys(after).len() && 0 <= j < lists::keys(after).len() && i != j implies #[trigger] lists::keys(
        after,
    )[i] != #[trigger] lists::keys(after)[j] by {
        if claim {
            if i < claims.len() {
                assert(lists::keys(after)[i] == lists::keys(claims)[i]);
            }
            if j < claims.len() {
                assert(lists::keys(after)[j] == lists::keys(claims)[j]);
            }
        } else {
            match claims.index_of_first(Claim { lid, who }) {
                Some(k) => {
                    let a = if i < k {
                        i
                    } else {
                        i + 1
                    };
                    let b = if j < k {
                        j
                    } else {
                        j + 1
                    };
                    assert(lists::keys(after)[i] == lists::keys(claims)[a]);
                    assert(lists::keys(after)[j] == lists::keys(claims)[b]);
                },
                None => {
                    assert(lists::keys(after)[i] == lists::keys(claims)[i]);
                },
            }
        }
    }
}

/// A room after a session left, and what it says.
pub open spec fn leave_step(
    a: Room,
    b: Room,
    s: Sim,
    t: Sim,
    w: Work,
    x: Work,
    who: u32,
    over: Seq<Over>,
    acts: Seq<Action>,
) -> bool {
    &&& b == (Room { claims: b.claims, ..a })
    &&& b.claims@ == sensors::claims_without(a.claims@, who)
    &&& t == (Sim { driven: t.driven, ..s })
    &&& t.driven@ == sensors::still_backed(s.driven@, over, b.claims@)
    &&& x == (Work { to_dark: x.to_dark, ..w })
    &&& x.to_dark@ == w.to_dark@ + sensors::gone_dark(s.driven@, over, b.claims@)
    &&& acts == if b.claims@ == a.claims@ {
        seq![Action::TellPresence { n: a.population }]
    } else {
        seq![Action::TellLayers, Action::TellPresence { n: a.population }]
    }
}

/// A session left: its claims go, and what it was driving goes dark. `over` says which
/// layer each part reads.
pub fn on_leave(
    room: &mut Room,
    sim: &mut Sim,
    work: &mut Work,
    who: u32,
    over: &Vec<Over>,
) -> (acts: Vec<Action>)
    ensures
        leave_step(
            *old(room),
            *final(room),
            *old(sim),
            *final(sim),
            *old(work),
            *final(work),
            who,
            over@,
            acts@,
        ),
{
    let mut acts: Vec<Action> = Vec::new();
    let n: u32 = room.population;
    if drop_claims_of(&mut room.claims, who, &mut sim.driven, &mut work.to_dark, over) {
        acts.push(Action::TellLayers);
    }
    acts.push(Action::TellPresence { n });
    proof {
        if room.claims@ == old(room).claims@ {
            assert(acts@ =~= seq![Action::TellPresence { n }]);
        } else {
            assert(acts@ =~= seq![Action::TellLayers, Action::TellPresence { n }]);
        }
    }
    acts
}

/// Drops what nobody may drive any more.
pub fn on_fail_dark(room: &Room, sim: &mut Sim, work: &mut Work, over: &Vec<Over>)
    ensures
        *final(sim) == (Sim { driven: final(sim).driven, ..*old(sim) }),
        final(sim).driven@ == sensors::still_backed(old(sim).driven@, over@, room.claims@),
        *final(work) == (Work { to_dark: final(work).to_dark, ..*old(work) }),
        final(work).to_dark@ == old(work).to_dark@ + sensors::gone_dark(
            old(sim).driven@,
            over@,
            room.claims@,
        ),
{
    fail_dark(&mut sim.driven, &mut work.to_dark, over, &room.claims);
}

/// A session joined: the room hears how many there are, and the net map is due again.
pub fn on_join(room: &Room, sim: &mut Sim) -> (acts: Vec<Action>)
    ensures
        *final(sim) == (Sim { netmap_shown: None, ..*old(sim) }),
        acts@ == seq![Action::TellPresence { n: room.population }],
{
    sim.netmap_shown = None;
    let mut acts: Vec<Action> = Vec::new();
    acts.push(Action::TellPresence { n: room.population });
    assert(acts@ =~= seq![Action::TellPresence { n: room.population }]);
    acts
}

/// A reading came in; it waits for the end of the tick. Fixtures are out of reach.
pub fn on_sensor(work: &mut Work, who: u32, id: u32, q: u16)
    ensures
        document::reserved(id) ==> *final(work) == *old(work),
        !document::reserved(id) ==> {
            &&& *final(work) == (Work { readings: final(work).readings, ..*old(work) })
            &&& final(work).readings@ == old(work).readings@.push(Reading { who, id, q })
        },
{
    if !reserved_id(id) {
        work.readings.push(Reading { who, id, q });
    }
}

/// The machine is to be reset. A room without one has nothing to reset.
pub fn on_machine_reset(room: &mut Room, sim: &Sim) -> (acts: Vec<Action>)
    ensures
        !sim.has_machine ==> *final(room) == *old(room) && acts@ == Seq::<Action>::empty(),
        sim.has_machine ==> {
            &&& *final(room) == (Room { ext: false, dirty: true, ..*old(room) })
            &&& acts@ == seq![Action::ResetMachine]
        },
{
    let mut acts: Vec<Action> = Vec::new();
    if sim.has_machine {
        room.ext = false;
        room.dirty = true;
        acts.push(Action::ResetMachine);
        assert(acts@ =~= seq![Action::ResetMachine]);
    }
    acts
}

/// A sum that stops at the ends of its range.
pub open spec fn saturated(n: int) -> i32 {
    if n < i32::MIN {
        i32::MIN
    } else if n > i32::MAX {
        i32::MAX
    } else {
        n as i32
    }
}

fn add_saturating(a: i32, b: i32) -> (r: i32)
    ensures
        r == saturated(a + b),
{
    let n: i64 = a as i64 + b as i64;
    if n < i32::MIN as i64 {
        i32::MIN
    } else if n > i32::MAX as i64 {
        i32::MAX
    } else {
        n as i32
    }
}

/// The machine is dragged. Moves of one tick are summed and made once; a room without a
/// machine has nothing to move.
pub fn on_machine_move(sim: &Sim, work: &mut Work, who: u32, dx: i32, dy: i32)
    ensures
        !sim.has_machine ==> *final(work) == *old(work),
        sim.has_machine ==> *final(work) == (Work {
            pending: (
                saturated(old(work).pending.0 + dx),
                saturated(old(work).pending.1 + dy),
            ),
            mover: who,
            ..*old(work)
        }),
{
    if sim.has_machine {
        work.pending =
        (add_saturating(work.pending.0, dx), add_saturating(work.pending.1, dy));
        work.mover = who;
    }
}

/// The sim task is asked to stop. The last request of a tick counts.
pub fn on_stop(work: &mut Work, checkpoint: bool)
    ensures
        *final(work) == (Work { stop: Some(checkpoint), ..*old(work) }),
{
    work.stop = Some(checkpoint);
}

/// A probe that is on this pin and reads this.
pub open spec fn is_on(p: Probe, elem: u32, pin: usize, kind: ProbeKind) -> bool {
    p.elem == elem && p.pin == pin && p.kind == kind
}

/// The pin is there.
pub open spec fn has_pin(doc: Seq<Part>, elem: u32, pin: usize) -> bool {
    exists|i: int| 0 <= i < doc.len() && (#[trigger] doc[i]).id == elem && pin < doc[i].pins.len()
}

/// The probes and the next number after one was put on a pin or taken off it.
pub open spec fn probes_after(
    probes: Seq<Probe>,
    next: u32,
    doc: Seq<Part>,
    elem: u32,
    pin: usize,
    kind: ProbeKind,
    at: Option<int>,
) -> (Seq<Probe>, u32) {
    match at {
        Some(i) => (probes.remove(i), next),
        None => if probes.len() < MAX_PROBES && has_pin(doc, elem, pin) {
            (probes.push(Probe { pid: next, elem, pin, kind, r: None }), regions::following(next))
        } else {
            (probes, next)
        },
    }
}

/// The place of the first probe that is on this pin and reads this, of the first `n`.
pub open spec fn probe_on(
    probes: Seq<Probe>,
    elem: u32,
    pin: usize,
    kind: ProbeKind,
    n: int,
) -> Option<int>
    decreases n,
{
    if n <= 0 {
        None
    } else {
        match probe_on(probes, elem, pin, kind, n - 1) {
            Some(i) => Some(i),
            None => if is_on(probes[n - 1], elem, pin, kind) {
                Some(n - 1)
            } else {
                None
            },
        }
    }
}

/// A room after a probe was put on or taken off, and what it says. The probe list is
/// sent whatever happened; a channel whose probe went goes with it.
pub open spec fn probe_step(
    a: Room,
    b: Room,
    elem: u32,
    pin: usize,
    kind: ProbeKind,
    acts: Seq<Action>,
) -> bool {
    let (probes, next) = probes_after(
        a.probes@,
        a.next_pid,
        lists::views(a.elements@),
        elem,
        pin,
        kind,
        probe_on(a.probes@, elem, pin, kind, a.probes@.len() as int),
    );
    &&& b == (Room { probes: b.probes, next_pid: next, scopes: b.scopes, dirty: true, ..a })
    &&& b.probes@ == probes
    &&& lists::views(b.scopes@) == scopes::all_pruned(lists::views(a.scopes@), lists::keys(probes))
    &&& acts == if lists::views(b.scopes@) == lists::views(a.scopes@) {
        seq![Action::TellProbes]
    } else {
        seq![Action::TellProbes, Action::TellScopes]
    }
}

/// Whether the pin is there.
fn pin_exists(elems: &Vec<ElementSpec>, elem: u32, pin: usize) -> (r: bool)
    ensures
        r == has_pin(lists::views(elems@), elem, pin),
{
    let ghost doc = lists::views(elems@);
    let mut i: usize = 0;
    while i < elems.len()
        invariant
            i <= elems@.len(),
            doc == lists::views(elems@),
            forall|k: int|
                0 <= k < i ==> !((#[trigger] doc[k]).id == elem && pin < doc[k].pins.len()),
        decreases elems.len() - i,
    {
        proof {
            assert(doc[i as int] == elems@[i as int]@);
        }
        if elems[i].id == elem && pin < elems[i].pins.len() {
            return true;
        }
        i += 1;
    }
    false
}

/// The place of the probe that is on this pin and reads this.
fn find_probe(probes: &Vec<Probe>, elem: u32, pin: usize, kind: ProbeKind) -> (r: Option<usize>)
    ensures
        match r {
            Some(i) => i < probes@.len() && probe_on(
                probes@,
                elem,
                pin,
                kind,
                probes@.len() as int,
            ) == Some(i as int),
            None => probe_on(probes@, elem, pin, kind, probes@.len() as int) is None,
        },
{
    let mut at: Option<usize> = None;
    let mut i: usize = 0;
    while i < probes.len()
        invariant
            i <= probes@.len(),
            match at {
                Some(k) => k < i && probe_on(probes@, elem, pin, kind, i as int) == Some(k as int),
                None => probe_on(probes@, elem, pin, kind, i as int) is None,
            },
        decreases probes.len() - i,
    {
        if at.is_none() && probes[i].elem == elem && probes[i].pin == pin && probes[i].kind == kind {
            at = Some(i);
        }
        i += 1;
    }
    at
}

/// A probe is put on a pin, or taken off it where it is on already.
pub fn on_probe(room: &mut Room, elem: u32, pin: usize, kind: ProbeKind) -> (acts: Vec<Action>)
    ensures
        probe_step(*old(room), *final(room), elem, pin, kind, acts@),
{
    let mut acts: Vec<Action> = Vec::new();
    room.dirty = true;
    match find_probe(&room.probes, elem, pin, kind) {
        Some(i) => {
            let _ = room.probes.remove(i);
        },
        None => {
            if room.probes.len() < MAX_PROBES && pin_exists(&room.elements, elem, pin) {
                let pid: u32 = take_number(&mut room.next_pid);
                room.probes.push(Probe { pid, elem, pin, kind, r: None });
            }
        },
    }
    acts.push(Action::TellProbes);
    if prune_scope_pids(&mut room.scopes, &room.probes) {
        acts.push(Action::TellScopes);
    }
    proof {
        if lists::views(room.scopes@) == lists::views(old(room).scopes@) {
            assert(acts@ =~= seq![Action::TellProbes]);
        } else {
            assert(acts@ =~= seq![Action::TellProbes, Action::TellScopes]);
        }
    }
    acts
}

/// The point that a probe measures against, after it was set. The same point again is
/// ground.
pub open spec fn referred(r: Option<(u32, usize)>, elem: u32, pin: usize) -> Option<(u32, usize)> {
    if r == Some((elem, pin)) {
        None
    } else {
        Some((elem, pin))
    }
}

/// A room after a probe's reference was set, and what it says.
pub open spec fn probe_ref_step(
    a: Room,
    b: Room,
    pid: u32,
    elem: u32,
    pin: usize,
    acts: Seq<Action>,
) -> bool {
    &&& b == (Room { probes: b.probes, dirty: true, ..a })
    &&& match lists::place(a.probes@, pid) {
        None => b.probes@ == a.probes@ && acts == Seq::<Action>::empty(),
        Some(i) => {
            &&& b.probes@ == a.probes@.update(
                i,
                Probe { r: referred(a.probes@[i].r, elem, pin), ..a.probes@[i] },
            )
            &&& acts == seq![Action::TellProbes]
        },
    }
}

/// A probe's reference is set, or cleared where it is set there already.
pub fn on_probe_ref(room: &mut Room, pid: u32, elem: u32, pin: usize) -> (acts: Vec<Action>)
    ensures
        probe_ref_step(*old(room), *final(room), pid, elem, pin, acts@),
{
    let mut acts: Vec<Action> = Vec::new();
    room.dirty = true;
    if let Some(i) = find(&room.probes, pid) {
        let p: Probe = room.probes[i];
        let r: Option<(u32, usize)> = match p.r {
            Some((e, n)) => if e == elem && n == pin {
                None
            } else {
                Some((elem, pin))
            },
            None => Some((elem, pin)),
        };
        room.probes.set(i, Probe { pid: p.pid, elem: p.elem, pin: p.pin, kind: p.kind, r });
        acts.push(Action::TellProbes);
        assert(acts@ =~= seq![Action::TellProbes]);
    }
    acts
}

/// Setting a reference twice clears it; and a probe put on and taken off again leaves the
/// probes as they were.
pub proof fn law_probe_toggles_undo(
    probes: Seq<Probe>,
    next: u32,
    doc: Seq<Part>,
    elem: u32,
    pin: usize,
    kind: ProbeKind,
)
    requires
        probe_on(probes, elem, pin, kind, probes.len() as int) is None,
        probes.len() < MAX_PROBES,
        has_pin(doc, elem, pin),
    ensures
        referred(referred(None, elem, pin), elem, pin) is None,
        ({
            let (on, then) = probes_after(probes, next, doc, elem, pin, kind, None);
            let at = probe_on(on, elem, pin, kind, on.len() as int);
            let off = probes_after(on, then, doc, elem, pin, kind, at);
            off.0 == probes
        }),
{
    let (on, then) = probes_after(probes, next, doc, elem, pin, kind, None);
    lemma_probe_on_prefix(probes, on, elem, pin, kind, probes.len() as int);
    assert(on.remove(probes.len() as int) =~= probes);
}

proof fn lemma_probe_on_prefix(
    a: Seq<Probe>,
    b: Seq<Probe>,
    elem: u32,
    pin: usize,
    kind: ProbeKind,
    n: int,
)
    requires
        0 <= n <= a.len() <= b.len(),
        forall|i: int| 0 <= i < a.len() ==> a[i] == b[i],
    ensures
        probe_on(a, elem, pin, kind, n) == probe_on(b, elem, pin, kind, n),
    decreases n,
{
    if n > 0 {
        lemma_probe_on_prefix(a, b, elem, pin, kind, n - 1);
    }
}

/// Everything in a room is found by the number that it was given.
pub proof fn law_things_are_found_by_their_numbers(
    e: ElementSpec,
    p: Probe,
    c: Claim,
    d: Driven,
    o: Over,
)
    ensures
        e.key() == e.id,
        p.key() == p.pid,
        c.key() == c.lid,
        d.key() == d.id,
        o.key() == o.id,
{
}

/// The probe at this place is the first that is on this part, on this pin of it, and reads
/// this.
pub open spec fn probe_is(probes: Seq<Probe>, elem: u32, pin: usize, kind: ProbeKind, i: int) -> bool {
    &&& 0 <= i < probes.len()
    &&& probes[i].elem == elem
    &&& probes[i].pin == pin
    &&& probes[i].kind == kind
    &&& forall|j: int|
        0 <= j < i ==> (#[trigger] probes[j]).elem != elem || probes[j].pin != pin || probes[j].kind
            != kind
}

proof fn lemma_probe_is(probes: Seq<Probe>, elem: u32, pin: usize, kind: ProbeKind, n: int)
    requires
        0 <= n <= probes.len(),
    ensures
        match probe_on(probes, elem, pin, kind, n) {
            Some(i) => probe_is(probes, elem, pin, kind, i),
            None => forall|j: int|
                0 <= j < n ==> (#[trigger] probes[j]).elem != elem || probes[j].pin != pin
                    || probes[j].kind != kind,
        },
    decreases n,
{
    if n > 0 {
        lemma_probe_is(probes, elem, pin, kind, n - 1);
    }
}

/// The scopes are the same, but for channels whose probe is not among these: those are gone,
/// and the other channels are in their order.
pub open spec fn shows_only(a: Seq<Scope>, b: Seq<Scope>, probes: Seq<Probe>) -> bool {
    &&& b.len() == a.len()
    &&& forall|i: int|
        0 <= i < a.len() ==> {
            let (s, r) = ((#[trigger] a[i])@, b[i]@);
            &&& r.sid == s.sid && r.x == s.x && r.y == s.y && r.w == s.w && r.h == s.h && r.set == s.set
            &&& s.pids is None ==> r.pids is None
            &&& s.pids matches Some(p) ==> r.pids is Some && lists::sifted(
                p,
                r.pids->0,
                |c: u32| !lists::keys(probes).contains(c),
            )
        }
}

/// Pruning the scopes leaves what the probes show.
pub proof fn lemma_shows_only(a: Seq<Scope>, b: Seq<Scope>, probes: Seq<Probe>)
    requires
        lists::views(b) == scopes::all_pruned(lists::views(a), lists::keys(probes)),
    ensures
        shows_only(a, b, probes),
{
    let (v, w) = (lists::views(a), lists::views(b));
    assert(w.len() == b.len() && v.len() == a.len());
    if a.len() > 0 {
        scopes::law_pruning_takes_only_dead_channels(v, lists::keys(probes), 0);
    }
    assert forall|i: int| 0 <= i < a.len() implies {
        let (s, r) = ((#[trigger] a[i])@, b[i]@);
        &&& r.sid == s.sid && r.x == s.x && r.y == s.y && r.w == s.w && r.h == s.h && r.set == s.set
        &&& s.pids is None ==> r.pids is None
        &&& s.pids matches Some(p) ==> r.pids is Some && lists::sifted(
            p,
            r.pids->0,
            |c: u32| !lists::keys(probes).contains(c),
        )
    } by {
        scopes::law_pruning_takes_only_dead_channels(v, lists::keys(probes), i);
        assert(v[i] == a[i]@ && w[i] == b[i]@);
    }
}

/// A probe was put on a pin or taken off it. The probe on this very pin that reads this comes
/// off, if there is one; else, where there are less than eight and the pin is there, one more
/// goes on it, with the next number; and else the probes stay. Nothing else of the room
/// changes, but for the channels of probes that are gone. The room hears of its probes, and of
/// its scopes where one changed.
pub open spec fn probe_toggled(
    a: Room,
    b: Room,
    elem: u32,
    pin: usize,
    kind: ProbeKind,
    acts: Seq<Action>,
) -> bool {
    let there = exists|i: int|
        0 <= i < a.elements@.len() && (#[trigger] a.elements@[i]).id == elem && pin
            < a.elements@[i].pins@.len();
    &&& b == (Room { probes: b.probes, next_pid: b.next_pid, scopes: b.scopes, dirty: true, ..a })
    &&& if exists|i: int| #[trigger] probe_is(a.probes@, elem, pin, kind, i) {
        &&& b.next_pid == a.next_pid
        &&& exists|i: int| #[trigger]
            probe_is(a.probes@, elem, pin, kind, i) && lists::one_less(a.probes@, b.probes@, i)
    } else if a.probes@.len() < 8 && there {
        &&& a.next_pid < u32::MAX ==> b.next_pid == a.next_pid + 1
        &&& b.probes@.len() == a.probes@.len() + 1
        &&& forall|j: int| 0 <= j < a.probes@.len() ==> #[trigger] b.probes@[j] == a.probes@[j]
        &&& b.probes@.last().pid == a.next_pid
        &&& b.probes@.last().elem == elem
        &&& b.probes@.last().pin == pin
        &&& b.probes@.last().kind == kind
        &&& b.probes@.last().r is None
    } else {
        b.next_pid == a.next_pid && b.probes@ == a.probes@
    }
    &&& shows_only(a.scopes@, b.scopes@, b.probes@)
    &&& acts.len() >= 1 && acts[0] is TellProbes
    &&& if lists::views(b.scopes@) == lists::views(a.scopes@) {
        acts.len() == 1
    } else {
        acts.len() == 2 && acts[1] is TellScopes
    }
}

/// A probe goes on its own pin and comes off its own pin: one on another part, on another pin
/// of the part, or that reads something else is neither taken off nor in the way.
pub proof fn law_a_probe_is_on_its_own_pin(
    a: Room,
    b: Room,
    elem: u32,
    pin: usize,
    kind: ProbeKind,
    acts: Seq<Action>,
)
    requires
        probe_step(a, b, elem, pin, kind, acts),
    ensures
        probe_toggled(a, b, elem, pin, kind, acts),
{
    let doc = lists::views(a.elements@);
    let n = a.probes@.len() as int;
    lemma_probe_is(a.probes@, elem, pin, kind, n);
    lemma_shows_only(a.scopes@, b.scopes@, b.probes@);
    assert(has_pin(doc, elem, pin) == exists|i: int|
        0 <= i < a.elements@.len() && (#[trigger] a.elements@[i]).id == elem && pin
            < a.elements@[i].pins@.len()) by {
        if has_pin(doc, elem, pin) {
            let i = choose|i: int|
                0 <= i < doc.len() && (#[trigger] doc[i]).id == elem && pin < doc[i].pins.len();
            assert(a.elements@[i]@ == doc[i]);
            assert(a.elements@[i].id == elem);
        }
        if exists|i: int|
            0 <= i < a.elements@.len() && (#[trigger] a.elements@[i]).id == elem && pin
                < a.elements@[i].pins@.len() {
            let i = choose|i: int|
                0 <= i < a.elements@.len() && (#[trigger] a.elements@[i]).id == elem && pin
                    < a.elements@[i].pins@.len();
            assert(doc[i] == a.elements@[i]@);
            assert(doc[i].id == elem);
        }
    }
    match probe_on(a.probes@, elem, pin, kind, n) {
        Some(i) => {
            assert(probe_is(a.probes@, elem, pin, kind, i));
            assert(lists::one_less(a.probes@, b.probes@, i));
        },
        None => {
            if exists|i: int| #[trigger] probe_is(a.probes@, elem, pin, kind, i) {
                let i = choose|i: int| #[trigger] probe_is(a.probes@, elem, pin, kind, i);
                assert(a.probes@[i].elem != elem || a.probes@[i].pin != pin || a.probes@[i].kind
                    != kind);
            }
        },
    }
}

/// A probe's reference was set: the probe with this number measures against the point, or
/// against ground where it measured against that very point. It stays on its pin and reads
/// what it read, and the other probes are as they were.
pub open spec fn reference_set(
    a: Room,
    b: Room,
    pid: u32,
    elem: u32,
    pin: usize,
    acts: Seq<Action>,
) -> bool {
    &&& b == (Room { probes: b.probes, dirty: true, ..a })
    &&& {
        ||| {
            &&& forall|j: int| 0 <= j < a.probes@.len() ==> (#[trigger] a.probes@[j]).pid != pid
            &&& b.probes@ == a.probes@
            &&& acts.len() == 0
        }
        ||| {
            &&& acts.len() == 1 && acts[0] is TellProbes
            &&& exists|i: int| #[trigger]
                lists::first_keyed(a.probes@, pid, i) && lists::same_but_at(a.probes@, b.probes@, i) && {
                    let (p, q) = (a.probes@[i], b.probes@[i]);
                    &&& q.pid == pid
                    &&& q.elem == p.elem
                    &&& q.pin == p.pin
                    &&& q.kind == p.kind
                    &&& p.r == Some((elem, pin)) ==> q.r is None
                    &&& p.r != Some((elem, pin)) ==> (q.r matches Some((e, n)) && e == elem && n == pin)
                }
        }
    }
}

/// A reference is set on the probe that was named, against the point that was named.
pub proof fn law_a_reference_is_the_named_point(
    a: Room,
    b: Room,
    pid: u32,
    elem: u32,
    pin: usize,
    acts: Seq<Action>,
)
    requires
        probe_ref_step(a, b, pid, elem, pin, acts),
    ensures
        reference_set(a, b, pid, elem, pin, acts),
{
    lists::lemma_first_keyed(a.probes@, pid);
    match lists::place(a.probes@, pid) {
        Some(i) => {
            assert(lists::first_keyed(a.probes@, pid, i));
        },
        None => {
            assert forall|j: int| 0 <= j < a.probes@.len() implies (#[trigger] a.probes@[j]).pid != pid by {
                assert(a.probes@[j].key() != pid);
            }
        },
    }
}

/// A panel op was made or refused: only the panels and their next number change.
pub open spec fn panels_changed(a: Room, b: Room, op: ZoneOp, acts: Seq<Action>) -> bool {
    let (zones, after) = (lists::views(a.panels@), lists::views(b.panels@));
    ||| b == a && acts.len() == 0 && regions::refused(zones, op, regions::panel_rules())
    ||| {
        &&& b == (Room { panels: b.panels, next_plid: b.next_plid, dirty: true, ..a })
        &&& regions::changed_by(zones, a.next_plid, op, regions::panel_rules(), after, b.next_plid)
        &&& acts.len() == 1 && acts[0] is TellPanels
    }
}

/// A label box op was made or refused: only the label boxes and their next number change.
pub open spec fn label_boxes_changed(a: Room, b: Room, op: ZoneOp, acts: Seq<Action>) -> bool {
    let (zones, after) = (lists::views(a.label_boxes@), lists::views(b.label_boxes@));
    ||| b == a && acts.len() == 0 && regions::refused(zones, op, regions::label_box_rules())
    ||| {
        &&& b == (Room { label_boxes: b.label_boxes, next_blid: b.next_blid, dirty: true, ..a })
        &&& regions::changed_by(
            zones,
            a.next_blid,
            op,
            regions::label_box_rules(),
            after,
            b.next_blid,
        )
        &&& acts.len() == 1 && acts[0] is TellLabelBoxes
    }
}

/// A layer op was made or refused: only the layers and their next number change; and the
/// claims of a layer that went, which are gone.
pub open spec fn layers_changed(a: Room, b: Room, op: ZoneOp, acts: Seq<Action>) -> bool {
    let (zones, after) = (lists::views(a.layers@), lists::views(b.layers@));
    ||| b == a && acts.len() == 0 && regions::refused(zones, op, regions::layer_rules())
    ||| {
        &&& b == (Room {
            layers: b.layers,
            next_lid: b.next_lid,
            claims: b.claims,
            dirty: true,
            ..a
        })
        &&& regions::changed_by(zones, a.next_lid, op, regions::layer_rules(), after, b.next_lid)
        &&& match op {
            ZoneOp::Remove { id } => {
                &&& lists::sifted(a.claims@, b.claims@, |c: Claim| c.lid == id)
                &&& acts.len() == 2 && acts[0] is FailDark && acts[1] is TellLayers
            },
            _ => b.claims == a.claims && acts.len() == 1 && acts[0] is TellLayers,
        }
    }
}

/// An op on panels changes panels, one on label boxes changes label boxes, and one on layers
/// changes layers.
pub proof fn law_an_op_changes_its_own_list(
    a: Room,
    b: Room,
    op: ZoneOp,
    acts: Seq<Action>,
)
    ensures
        panel_step(a, b, op, acts) ==> panels_changed(a, b, op, acts),
        label_box_step(a, b, op, acts) ==> label_boxes_changed(a, b, op, acts),
        layer_step(a, b, op, acts) ==> layers_changed(a, b, op, acts),
{
    regions::law_an_op_changes_its_own_region(
        lists::views(a.panels@),
        a.next_plid,
        op,
        regions::panel_rules(),
    );
    regions::law_an_op_changes_its_own_region(
        lists::views(a.label_boxes@),
        a.next_blid,
        op,
        regions::label_box_rules(),
    );
    regions::law_an_op_changes_its_own_region(
        lists::views(a.layers@),
        a.next_lid,
        op,
        regions::layer_rules(),
    );
    if let ZoneOp::Remove { id } = op {
        let so = |c: Claim| c.lid == id;
        let p = lists::keyed_otherwise::<Claim>(id);
        assert forall|c: Claim| #[trigger] p(c) == !so(c) by {}
        lists::lemma_filter_sifts(a.claims@, p, so);
    }
}

/// A session asked for a layer or gave it back. It gets a layer that is there and that nobody
/// has; it gives back its own claim, and nobody else's. Nothing else of the room changes.
pub open spec fn layer_asked(
    a: Room,
    b: Room,
    who: u32,
    lid: u32,
    claim: bool,
    acts: Seq<Action>,
) -> bool {
    let there = exists|i: int| 0 <= i < a.layers@.len() && (#[trigger] a.layers@[i]).id == lid;
    let taken = exists|i: int| 0 <= i < a.claims@.len() && (#[trigger] a.claims@[i]).lid == lid;
    &&& b == (Room { claims: b.claims, ..a })
    &&& claim && there && !taken ==> {
        &&& b.claims@.len() == a.claims@.len() + 1
        &&& forall|j: int| 0 <= j < a.claims@.len() ==> #[trigger] b.claims@[j] == a.claims@[j]
        &&& b.claims@.last().lid == lid
        &&& b.claims@.last().who == who
        &&& acts.len() == 1 && acts[0] is TellLayers
    }
    &&& claim && (!there || taken) ==> b.claims@ == a.claims@ && acts.len() == 0
    &&& !claim ==> {
        ||| {
            &&& forall|j: int|
                0 <= j < a.claims@.len() ==> (#[trigger] a.claims@[j]).lid != lid || a.claims@[j].who
                    != who
            &&& b.claims@ == a.claims@
            &&& acts.len() == 0
        }
        ||| {
            &&& exists|i: int|
                0 <= i < a.claims@.len() && (#[trigger] a.claims@[i]).lid == lid && a.claims@[i].who
                    == who && lists::one_less(a.claims@, b.claims@, i)
            &&& acts.len() == 2 && acts[0] is FailDark && acts[1] is TellLayers
        }
    }
}

/// A layer goes to whoever asked for it first, and comes back from nobody but them.
pub proof fn law_a_layer_goes_to_who_asked_first(
    a: Room,
    b: Room,
    who: u32,
    lid: u32,
    claim: bool,
    acts: Seq<Action>,
)
    requires
        claim_step(a, b, who, lid, claim, acts),
    ensures
        layer_asked(a, b, who, lid, claim, acts),
{
    lists::lemma_first_keyed(a.layers@, lid);
    lists::lemma_first_keyed(a.claims@, lid);
    lists::keys(a.claims@).index_of_first_ensures(lid);
    match lists::place(a.layers@, lid) {
        Some(i) => {
            assert(a.layers@[i].id == lid);
        },
        None => {
            assert forall|j: int| 0 <= j < a.layers@.len() implies (#[trigger] a.layers@[j]).id != lid by {
                assert(a.layers@[j].key() != lid);
            }
        },
    }
    match lists::place(a.claims@, lid) {
        Some(i) => {
            assert(a.claims@[i].lid == lid);
        },
        None => {
            assert forall|j: int| 0 <= j < a.claims@.len() implies (#[trigger] a.claims@[j]).lid != lid by {
                assert(a.claims@[j].key() != lid);
            }
        },
    }
    let mine = Claim { lid, who };
    a.claims@.index_of_first_ensures(mine);
    if claim {
        if lists::place(a.layers@, lid) is Some && lists::place(a.claims@, lid) is None {
            assert(b.claims@.len() != a.claims@.len());
        }
    } else {
        match a.claims@.index_of_first(mine) {
            Some(i) => {
                assert(a.claims@[i].lid == lid && a.claims@[i].who == who);
                assert(b.claims@.len() != a.claims@.len());
                assert(lists::one_less(a.claims@, b.claims@, i));
            },
            None => {
                assert forall|j: int|
                    0 <= j < a.claims@.len() implies (#[trigger] a.claims@[j]).lid != lid
                    || a.claims@[j].who != who by {
                    assert(a.claims@[j] != mine);
                }
            },
        }
    }
}

/// A driven part has this id, and whoever drove it may no longer.
pub open spec fn let_go(driven: Seq<Driven>, over: Seq<Over>, claims: Seq<Claim>, id: u32) -> bool {
    exists|i: int|
        0 <= i < driven.len() && (#[trigger] driven[i]).id == id && !sensors::backed(
            over,
            claims,
            id,
            driven[i].who,
        )
}

/// A session left: its claims are gone, and nobody else's; what it drove is no longer driven,
/// and is to go dark. The room hears how many are left, and of its layers where one came free.
pub open spec fn session_left(
    a: Room,
    b: Room,
    s: Sim,
    t: Sim,
    w: Work,
    x: Work,
    who: u32,
    over: Seq<Over>,
    acts: Seq<Action>,
) -> bool {
    &&& b == (Room { claims: b.claims, ..a })
    &&& lists::sifted(a.claims@, b.claims@, |c: Claim| c.who == who)
    &&& t == (Sim { driven: t.driven, ..s })
    &&& lists::sifted(
        s.driven@,
        t.driven@,
        |d: Driven| !sensors::backed(over, b.claims@, d.id, d.who),
    )
    &&& x == (Work { to_dark: x.to_dark, ..w })
    &&& x.to_dark@.len() >= w.to_dark@.len()
    &&& forall|j: int| 0 <= j < w.to_dark@.len() ==> #[trigger] x.to_dark@[j] == w.to_dark@[j]
    &&& forall|i: int|
        0 <= i < s.driven@.len() && !sensors::backed(
            over,
            b.claims@,
            (#[trigger] s.driven@[i]).id,
            s.driven@[i].who,
        ) ==> x.to_dark@.contains(s.driven@[i].id)
    &&& forall|j: int|
        w.to_dark@.len() <= j < x.to_dark@.len() ==> let_go(
            s.driven@,
            over,
            b.claims@,
            #[trigger] x.to_dark@[j],
        )
    &&& acts.len() >= 1
    &&& acts.last() matches Action::TellPresence { n } && n == a.population
    &&& b.claims@ == a.claims@ ==> acts.len() == 1
    &&& b.claims@ != a.claims@ ==> acts.len() == 2 && acts[0] is TellLayers
}

/// Whoever leaves lets go of their own layers, and what they drove goes dark.
pub proof fn law_whoever_leaves_lets_go(
    a: Room,
    b: Room,
    s: Sim,
    t: Sim,
    w: Work,
    x: Work,
    who: u32,
    over: Seq<Over>,
    acts: Seq<Action>,
)
    requires
        leave_step(a, b, s, t, w, x, who, over, acts),
    ensures
        session_left(a, b, s, t, w, x, who, over, acts),
{
    sensors::law_leaving_gives_back_only_what_one_had(a.claims@, who);
    sensors::law_what_nobody_may_drive_goes_dark(s.driven@, over, b.claims@);
    let gone = sensors::gone_dark(s.driven@, over, b.claims@);
    let n = w.to_dark@.len() as int;
    assert forall|i: int|
        0 <= i < s.driven@.len() && !sensors::backed(
            over,
            b.claims@,
            (#[trigger] s.driven@[i]).id,
            s.driven@[i].who,
        ) implies x.to_dark@.contains(s.driven@[i].id) by {
        let k = choose|k: int| 0 <= k < gone.len() && gone[k] == s.driven@[i].id;
        assert(x.to_dark@[n + k] == s.driven@[i].id);
    }
    assert forall|j: int| n <= j < x.to_dark@.len() implies let_go(
        s.driven@,
        over,
        b.claims@,
        #[trigger] x.to_dark@[j],
    ) by {
        assert(x.to_dark@[j] == gone[j - n]);
    }
}

/// Moves of one tick add up, and the sum stops at the ends of its range.
pub proof fn law_a_sum_stops_at_the_ends(n: int)
    ensures
        -0x8000_0000 <= n <= 0x7fff_ffff ==> saturated(n) == n,
        n < -0x8000_0000 ==> saturated(n) == -0x8000_0000,
        n > 0x7fff_ffff ==> saturated(n) == 0x7fff_ffff,
{
}

/// A net label op was made or refused: only the net labels and their next number change.
pub open spec fn net_labels_changed(a: Room, b: Room, op: TagOp, acts: Seq<Action>) -> bool {
    let (tags, after) = (lists::views(a.net_labels@), lists::views(b.net_labels@));
    ||| b == a && acts.len() == 0 && netlabels::label_op_done(tags, a.next_nlid, op, None)
    ||| {
        &&& b == (Room { net_labels: b.net_labels, next_nlid: b.next_nlid, dirty: true, ..a })
        &&& netlabels::label_op_done(tags, a.next_nlid, op, Some((after, b.next_nlid)))
        &&& acts.len() == 1 && acts[0] is TellNetLabels
    }
}

/// A scope op was made or refused: only the scopes and their next number change.
pub open spec fn scopes_changed(a: Room, b: Room, op: BenchOp, acts: Seq<Action>) -> bool {
    let (bench, after) = (lists::views(a.scopes@), lists::views(b.scopes@));
    ||| b == a && acts.len() == 0 && scopes::scope_op_done(bench, a.next_sid, op, None)
    ||| {
        &&& b == (Room { scopes: b.scopes, next_sid: b.next_sid, dirty: true, ..a })
        &&& scopes::scope_op_done(bench, a.next_sid, op, Some((after, b.next_sid)))
        &&& acts.len() == 1 && acts[0] is TellScopes
    }
}

/// An op on net labels changes net labels.
pub proof fn law_a_label_op_changes_labels(a: Room, b: Room, op: TagOp, acts: Seq<Action>)
    requires
        net_label_step(a, b, op, acts),
    ensures
        net_labels_changed(a, b, op, acts),
{
    netlabels::law_an_op_changes_its_own_label(lists::views(a.net_labels@), a.next_nlid, op);
}

/// An op on scopes changes scopes.
pub proof fn law_a_scope_op_changes_scopes(a: Room, b: Room, op: BenchOp, acts: Seq<Action>)
    requires
        scope_step(a, b, op, acts),
    ensures
        scopes_changed(a, b, op, acts),
{
    scopes::law_an_op_changes_its_own_scope(lists::views(a.scopes@), a.next_sid, op);
}

} // verus!
