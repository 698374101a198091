//! Edits and knob turns on a document, and what the tick reads out of one.
use vstd::prelude::*;

use crate::binary64::Real;
use crate::lists::{self, find, has_id, remove_all, Keyed, Copied};
use crate::parts::{copy_points, ElementKind, ElementSpec, Part, Point};
use crate::text::{self, clean_name};

verus! {

/// How many parts a document may hold: a guard against a runaway client.
pub const MAX_ELEMENTS: usize = 50_000;

/// The longest part name, in characters.
pub const MAX_NAME: usize = 24;

/// One part in a million of an ohm.
pub const MIN_OHMS: u64 = 0x3eb0_c6f7_a0b5_ed8d;

/// The smallest capacitance a knob can reach, in farads.
pub const MIN_FARADS: u64 = 0x3cd2_03af_9ee7_5616;

/// The smallest inductance a knob can reach, in henries.
pub const MIN_HENRIES: u64 = 0x3d71_9799_812d_ea11;

/// The ends of a wiper's travel: 0.01 and 0.99 of the track.
pub const WIPER_LO: u64 = 0x3f84_7ae1_47ae_147b;

pub const WIPER_HI: u64 = 0x3fef_ae14_7ae1_47ae;

/// Ids 900 to 999 belong to the server's own fixtures.
pub open spec fn reserved(id: u32) -> bool {
    900 <= id <= 999
}

/// Whether the id belongs to a machine fixture.
pub fn reserved_id(id: u32) -> (r: bool)
    ensures
        r == reserved(id),
{
    900 <= id && id <= 999
}

impl Keyed for ElementSpec {
    open spec fn key(&self) -> u32 {
        self.id
    }

    fn key_of(&self) -> (k: u32) {
        self.id
    }
}

/// A document edit, as a client sends it.
#[derive(Clone, Debug)]
pub enum DocOp {
    Add { spec: ElementSpec },
    Remove { id: u32 },
    Move { id: u32, pins: Vec<Point>, rot: Option<u8> },
    SetKind { id: u32, kind: ElementKind },
    SetName { id: u32, name: String },
}

/// A document edit, as a value.
pub enum Edit {
    Add { part: Part },
    Remove { id: u32 },
    Move { id: u32, pins: Seq<Point>, rot: Option<u8> },
    SetKind { id: u32, kind: ElementKind },
    SetName { id: u32, name: Seq<char> },
}

impl View for DocOp {
    type V = Edit;

    open spec fn view(&self) -> Edit {
        match self {
            DocOp::Add { spec } => Edit::Add { part: spec@ },
            DocOp::Remove { id } => Edit::Remove { id: *id },
            DocOp::Move { id, pins, rot } => Edit::Move { id: *id, pins: pins@, rot: *rot },
            DocOp::SetKind { id, kind } => Edit::SetKind { id: *id, kind: *kind },
            DocOp::SetName { id, name } => Edit::SetName { id: *id, name: name@ },
        }
    }
}

impl Edit {
    /// The part that the edit is about.
    pub open spec fn target(self) -> u32 {
        match self {
            Edit::Add { part } => part.id,
            Edit::Remove { id } => id,
            Edit::Move { id, .. } => id,
            Edit::SetKind { id, .. } => id,
            Edit::SetName { id, .. } => id,
        }
    }
}

/// The ids of a document's parts, in order.
pub open spec fn part_ids(doc: Seq<Part>) -> Seq<u32> {
    Seq::new(doc.len(), |i: int| doc[i].id)
}

/// The place of the first part with this id.
pub open spec fn part_at(doc: Seq<Part>, id: u32) -> Option<int> {
    part_ids(doc).index_of_first(id)
}

/// Says of a part that it has another id.
pub open spec fn not_id(id: u32) -> spec_fn(Part) -> bool {
    |p: Part| p.id != id
}

/// The document after an edit, or nothing where the edit is dropped: it names a
/// fixture or no part at all, repeats an id, breaks the budget, or carries a pin
/// list or a rotation that no such part has.
pub open spec fn edited(doc: Seq<Part>, op: Edit) -> Option<Seq<Part>> {
    if reserved(op.target()) {
        None
    } else {
        match op {
            Edit::Add { part } => if part.pins.len() != part.kind.pins() || part_at(
                doc,
                part.id,
            ) is Some || doc.len() >= MAX_ELEMENTS {
                None
            } else {
                Some(doc.push(part))
            },
            Edit::Remove { id } => match part_at(doc, id) {
                None => None,
                Some(_) => Some(doc.filter(not_id(id))),
            },
            Edit::Move { id, pins, rot } => match part_at(doc, id) {
                None => None,
                Some(i) => if pins.len() != doc[i].kind.pins() || (rot is Some && rot->0 > 3) {
                    None
                } else {
                    Some(
                        doc.update(
                            i,
                            Part {
                                pins,
                                rot: match rot {
                                    Some(r) => r,
                                    None => doc[i].rot,
                                },
                                ..doc[i]
                            },
                        ),
                    )
                },
            },
            Edit::SetKind { id, kind } => match part_at(doc, id) {
                None => None,
                Some(i) => if kind.pins() != doc[i].pins.len() {
                    None
                } else {
                    Some(doc.update(i, Part { kind, ..doc[i] }))
                },
            },
            Edit::SetName { id, name } => match part_at(doc, id) {
                None => None,
                Some(i) => Some(
                    doc.update(i, Part { name: text::cleaned(name, MAX_NAME as nat), ..doc[i] }),
                ),
            },
        }
    }
}

/// The id that an edit names.
pub fn edit_target(op: &DocOp) -> (id: u32)
    ensures
        id == op@.target(),
{
    match op {
        DocOp::Add { spec } => spec.id,
        DocOp::Remove { id } => *id,
        DocOp::Move { id, .. } => *id,
        DocOp::SetKind { id, .. } => *id,
        DocOp::SetName { id, .. } => *id,
    }
}

/// Viewing a document and finding a part in it go together.
pub proof fn lemma_part_at(elems: Seq<ElementSpec>, id: u32)
    ensures
        part_at(lists::views(elems), id) == lists::place(elems, id),
{
    assert(part_ids(lists::views(elems)) =~= lists::keys(elems));
}

/// Validates an edit and applies it. An edit that is dropped changes nothing. This
/// is the syntactic half: whether the solver takes the document is not asked here.
pub fn apply_doc_op_to(elems: &mut Vec<ElementSpec>, op: &DocOp) -> (r: bool)
    ensures
        r == (edited(lists::views(old(elems)@), op@) is Some),
        r ==> lists::views(final(elems)@) == edited(lists::views(old(elems)@), op@)->0,
        !r ==> *final(elems) == *old(elems),
{
    let ghost before = elems@;
    let ghost doc = lists::views(elems@);
    let target: u32 = edit_target(op);
    if reserved_id(target) {
        return false;
    }
    proof {
        lemma_part_at(before, target);
    }
    match op {
        DocOp::Add { spec } => {
            if spec.pins.len() != spec.kind.pin_count() || has_id(elems, spec.id) || elems.len()
                >= MAX_ELEMENTS {
                return false;
            }
            elems.push(spec.copied());
            proof {
                assert(lists::views(elems@) =~= doc.push(spec@));
            }
            true
        },
        DocOp::Remove { id } => {
            let removed: bool = remove_all(elems, *id);
            proof {
                let p = lists::keyed_otherwise::<ElementSpec>(*id);
                assert forall|e: ElementSpec| #[trigger] p(e) == not_id(*id)(e@) by {}
                lists::lemma_views_of_filter(before, p, not_id(*id));
            }
            removed
        },
        DocOp::Move { id, pins, rot } => {
            match find(elems, *id) {
                None => false,
                Some(i) => {
                    if pins.len() != elems[i].kind.pin_count() {
                        return false;
                    }
                    let turned: u8 = match rot {
                        Some(r) => {
                            if *r > 3 {
                                return false;
                            }
                            *r
                        },
                        None => elems[i].rot,
                    };
                    let moved: ElementSpec = ElementSpec {
                        id: elems[i].id,
                        kind: elems[i].kind,
                        pins: copy_points(pins),
                        name: elems[i].name.clone(),
                        tier: elems[i].tier,
                        rot: turned,
                    };
                    elems.set(i, moved);
                    proof {
                        assert(lists::views(elems@) =~= doc.update(i as int, moved@));
                    }
                    true
                },
            }
        },
        DocOp::SetKind { id, kind } => {
            match find(elems, *id) {
                None => false,
                Some(i) => {
                    if kind.pin_count() != elems[i].pins.len() {
                        return false;
                    }
                    let changed: ElementSpec = ElementSpec { kind: *kind, ..elems[i].copied() };
                    elems.set(i, changed);
                    proof {
                        assert(lists::views(elems@) =~= doc.update(i as int, changed@));
                    }
                    true
                },
            }
        },
        DocOp::SetName { id, name } => {
            match find(elems, *id) {
                None => false,
                Some(i) => {
                    let named: ElementSpec = ElementSpec {
                        name: clean_name(name.as_str(), MAX_NAME),
                        ..elems[i].copied()
                    };
                    elems.set(i, named);
                    proof {
                        assert(lists::views(elems@) =~= doc.update(i as int, named@));
                    }
                    true
                },
            }
        },
    }
}

/// Every part has as many pins as its kind.
pub open spec fn well_pinned(doc: Seq<Part>) -> bool {
    forall|i: int| 0 <= i < doc.len() ==> (#[trigger] doc[i]).pins.len() == doc[i].kind.pins()
}

/// No two parts share an id.
pub open spec fn distinct_ids(doc: Seq<Part>) -> bool {
    forall|i: int, j: int| 0 <= i < j < doc.len() ==> #[trigger] doc[i].id != #[trigger] doc[j].id
}

/// The parts that the server owns.
pub open spec fn fixtures_of(doc: Seq<Part>) -> Seq<Part> {
    doc.filter(|p: Part| reserved(p.id))
}

/// No edit adds, moves, changes, renames or removes a fixture.
pub proof fn law_edits_never_touch_a_fixture(doc: Seq<Part>, op: Edit)
    ensures
        reserved(op.target()) ==> edited(doc, op) is None,
        edited(doc, op) is Some ==> fixtures_of(edited(doc, op)->0) == fixtures_of(doc),
{
    if edited(doc, op) is Some {
        let next = edited(doc, op)->0;
        let p = |p: Part| reserved(p.id);
        part_ids(doc).index_of_first_ensures(op.target());
        match op {
            Edit::Add { part } => {
                reveal(Seq::filter);
                assert(next.drop_last() =~= doc);
            },
            Edit::Remove { id } => {
                lemma_filter_of_filter(doc, not_id(id), p);
            },
            _ => {
                let i = part_at(doc, op.target())->0;
                assert(part_ids(doc)[i] == doc[i].id);
                lemma_filter_ignores_update(doc, i, next[i], p);
                assert(next =~= doc.update(i, next[i]));
            },
        }
    }
}

/// Filtering by one rule first does not change what a rule that implies it keeps.
proof fn lemma_filter_of_filter(s: Seq<Part>, q: spec_fn(Part) -> bool, p: spec_fn(Part) -> bool)
    requires
        forall|i: int| 0 <= i < s.len() && p(s[i]) ==> #[trigger] q(s[i]),
    ensures
        s.filter(q).filter(p) == s.filter(p),
    decreases s.len(),
{
    reveal(Seq::filter);
    if s.len() > 0 {
        let d = s.drop_last();
        assert forall|i: int| 0 <= i < d.len() && p(d[i]) implies #[trigger] q(d[i]) by {
            assert(d[i] == s[i]);
        }
        lemma_filter_of_filter(d, q, p);
        if q(s.last()) {
            assert(s.filter(q).drop_last() =~= d.filter(q));
        }
    }
}

/// Changing what a rule leaves out, into something it leaves out, changes nothing.
proof fn lemma_filter_ignores_update(
    s: Seq<Part>,
    i: int,
    x: Part,
    p: spec_fn(Part) -> bool,
)
    requires
        0 <= i < s.len(),
        !p(s[i]),
        !p(x),
    ensures
        s.update(i, x).filter(p) == s.filter(p),
    decreases s.len(),
{
    reveal(Seq::filter);
    let d = s.drop_last();
    let u = s.update(i, x);
    if i == s.len() - 1 {
        assert(u.drop_last() =~= d);
    } else {
        lemma_filter_ignores_update(d, i, x, p);
        assert(u.drop_last() =~= d.update(i, x));
    }
}

/// An edit that is taken keeps every part as many pins as its kind has, keeps the
/// ids apart, and never takes a document past its budget.
pub proof fn law_edits_keep_the_document_sound(doc: Seq<Part>, op: Edit)
    requires
        edited(doc, op) is Some,
    ensures
        well_pinned(doc) ==> well_pinned(edited(doc, op)->0),
        distinct_ids(doc) ==> distinct_ids(edited(doc, op)->0),
        doc.len() <= MAX_ELEMENTS ==> edited(doc, op)->0.len() <= MAX_ELEMENTS,
{
    let next = edited(doc, op)->0;
    part_ids(doc).index_of_first_ensures(op.target());
    match op {
        Edit::Add { part } => {
            assert forall|i: int| 0 <= i < doc.len() implies #[trigger] doc[i].id != part.id by {
                assert(part_ids(doc)[i] == doc[i].id);
            }
        },
        Edit::Remove { id } => {
            lemma_filter_keeps_sound(doc, id);
        },
        _ => {},
    }
}

proof fn lemma_filter_keeps_sound(doc: Seq<Part>, id: u32)
    ensures
        well_pinned(doc) ==> well_pinned(doc.filter(not_id(id))),
        distinct_ids(doc) ==> distinct_ids(doc.filter(not_id(id))),
        doc.filter(not_id(id)).len() <= doc.len(),
        forall|i: int|
            0 <= i < doc.filter(not_id(id)).len() ==> doc.contains(
                #[trigger] doc.filter(not_id(id))[i],
            ),
    decreases doc.len(),
{
    reveal(Seq::filter);
    if doc.len() > 0 {
        let d = doc.drop_last();
        lemma_filter_keeps_sound(d, id);
        let f = doc.filter(not_id(id));
        let fd = d.filter(not_id(id));
        assert forall|i: int| 0 <= i < fd.len() implies doc.contains(#[trigger] fd[i]) by {
            let j = choose|j: int| 0 <= j < d.len() && d[j] == fd[i];
            assert(doc[j] == fd[i]);
        }
        assert(doc.contains(doc.last())) by {
            assert(doc[doc.len() - 1] == doc.last());
        }
        if well_pinned(doc) {
            assert forall|i: int| 0 <= i < d.len() implies (#[trigger] d[i]).pins.len()
                == d[i].kind.pins() by {
                assert(d[i] == doc[i]);
            }
        }
        if distinct_ids(doc) {
            assert forall|i: int, j: int| 0 <= i < j < d.len() implies #[trigger] d[i].id
                != #[trigger] d[j].id by {
                assert(d[i] == doc[i] && d[j] == doc[j]);
            }
            if not_id(id)(doc.last()) {
                assert forall|i: int| 0 <= i < fd.len() implies #[trigger] fd[i].id
                    != doc.last().id by {
                    let k = choose|k: int| 0 <= k < d.len() && d[k] == fd[i];
                    assert(doc[k].id != doc[doc.len() - 1].id);
                }
            }
        }
    }
}

/// A removed part is gone, and a second removal is dropped.
pub proof fn law_removing_twice_is_dropped(doc: Seq<Part>, id: u32)
    requires
        edited(doc, Edit::Remove { id }) is Some,
    ensures
        edited(edited(doc, Edit::Remove { id })->0, Edit::Remove { id }) is None,
{
    let next = edited(doc, Edit::Remove { id })->0;
    assert forall|i: int| 0 <= i < next.len() implies #[trigger] part_ids(next)[i] != id by {
        doc.lemma_filter_pred(not_id(id), i);
    }
    lists::lemma_index_of_first(part_ids(next), id, None);
}

/// A switch flipped or a knob turned.
#[derive(Clone, Copy, Debug, PartialEq, Eq, Structural)]
pub enum InteractOp {
    SetSwitch { closed: bool },
    SetValue { value: Real },
}

/// What a kind becomes under a flip or a turn. A flip reaches switches, a turn the
/// one value of a part that has one, inside the limits of that value.
pub open spec fn turned(kind: ElementKind, op: InteractOp) -> ElementKind {
    match op {
        InteractOp::SetSwitch { closed } => match kind {
            ElementKind::Switch { .. } => ElementKind::Switch { closed },
            ElementKind::Button { .. } => ElementKind::Button { closed },
            _ => kind,
        },
        InteractOp::SetValue { value } => match kind {
            ElementKind::Resistor { .. } => ElementKind::Resistor {
                ohms: value.larger(Real { bits: MIN_OHMS }),
            },
            ElementKind::Lamp { rated_watts, .. } => ElementKind::Lamp {
                ohms: value.larger(Real { bits: MIN_OHMS }),
                rated_watts,
            },
            ElementKind::Speaker { .. } => ElementKind::Speaker {
                ohms: value.larger(Real { bits: MIN_OHMS }),
            },
            ElementKind::Capacitor { .. } => ElementKind::Capacitor {
                farads: value.larger(Real { bits: MIN_FARADS }),
            },
            ElementKind::Inductor { .. } => ElementKind::Inductor {
                henries: value.larger(Real { bits: MIN_HENRIES }),
            },
            ElementKind::VoltageSource { wave, amp, hz, phase, .. } => ElementKind::VoltageSource {
                wave,
                dc: value,
                amp,
                hz,
                phase,
            },
            ElementKind::Rail { wave, amp, hz, phase, .. } => ElementKind::Rail {
                wave,
                dc: value,
                amp,
                hz,
                phase,
            },
            ElementKind::CurrentSource { .. } => ElementKind::CurrentSource { amps: value },
            ElementKind::Potentiometer { ohms, .. } => ElementKind::Potentiometer {
                ohms,
                wiper: value.clamped(Real { bits: WIPER_LO }, Real { bits: WIPER_HI }),
            },
            _ => kind,
        },
    }
}

/// The document after a flip or a turn of one part.
pub open spec fn interacted(doc: Seq<Part>, id: u32, op: InteractOp) -> Seq<Part> {
    match part_at(doc, id) {
        None => doc,
        Some(i) => doc.update(i, Part { kind: turned(doc[i].kind, op), ..doc[i] }),
    }
}

/// What a kind becomes under a flip or a turn.
fn turn_kind(kind: ElementKind, op: InteractOp) -> (r: ElementKind)
    ensures
        r == turned(kind, op),
{
    match op {
        InteractOp::SetSwitch { closed } => match kind {
            ElementKind::Switch { .. } => ElementKind::Switch { closed },
            ElementKind::Button { .. } => ElementKind::Button { closed },
            _ => kind,
        },
        InteractOp::SetValue { value } => match kind {
            ElementKind::Resistor { .. } => ElementKind::Resistor {
                ohms: value.max_with(Real::of(MIN_OHMS)),
            },
            ElementKind::Lamp { rated_watts, .. } => ElementKind::Lamp {
                ohms: value.max_with(Real::of(MIN_OHMS)),
                rated_watts,
            },
            ElementKind::Speaker { .. } => ElementKind::Speaker {
                ohms: value.max_with(Real::of(MIN_OHMS)),
            },
            ElementKind::Capacitor { .. } => ElementKind::Capacitor {
                farads: value.max_with(Real::of(MIN_FARADS)),
            },
            ElementKind::Inductor { .. } => ElementKind::Inductor {
                henries: value.max_with(Real::of(MIN_HENRIES)),
            },
            ElementKind::VoltageSource { wave, amp, hz, phase, .. } => ElementKind::VoltageSource {
                wave,
                dc: value,
                amp,
                hz,
                phase,
            },
            ElementKind::Rail { wave, amp, hz, phase, .. } => ElementKind::Rail {
                wave,
                dc: value,
                amp,
                hz,
                phase,
            },
            ElementKind::CurrentSource { .. } => ElementKind::CurrentSource { amps: value },
            ElementKind::Potentiometer { ohms, .. } => ElementKind::Potentiometer {
                ohms,
                wiper: value.clamp_to(Real::of(WIPER_LO), Real::of(WIPER_HI)),
            },
            _ => kind,
        },
    }
}

/// Flips or turns one part of a document; an id that no part has changes nothing.
pub fn apply_interact_to(elems: &mut Vec<ElementSpec>, id: u32, op: InteractOp)
    ensures
        lists::views(final(elems)@) == interacted(lists::views(old(elems)@), id, op),
{
    let ghost doc = lists::views(elems@);
    proof {
        lemma_part_at(elems@, id);
    }
    match find(elems, id) {
        None => {},
        Some(i) => {
            let next: ElementSpec = ElementSpec {
                kind: turn_kind(elems[i].kind, op),
                ..elems[i].copied()
            };
            elems.set(i, next);
            proof {
                assert(lists::views(elems@) =~= doc.update(i as int, next@));
            }
        },
    }
}

/// A flip or a turn is an absolute write: only the last of two of one kind counts,
/// which is what lets a drag be coalesced.
pub proof fn law_the_last_turn_counts(doc: Seq<Part>, id: u32, a: InteractOp, b: InteractOp)
    requires
        a is SetSwitch <==> b is SetSwitch,
    ensures
        interacted(interacted(doc, id, a), id, b) == interacted(doc, id, b),
{
    let mid = interacted(doc, id, a);
    part_ids(doc).index_of_first_ensures(id);
    assert(part_ids(mid) =~= part_ids(doc));
    match part_at(doc, id) {
        None => {},
        Some(i) => {
            assert(turned(turned(doc[i].kind, a), b) == turned(doc[i].kind, b));
            assert(interacted(mid, id, b) =~= interacted(doc, id, b));
        },
    }
}

/// A move is an absolute write too: of two moves only the last counts, unless the
/// first turned the part and the last says nothing of a rotation.
pub proof fn law_the_last_move_counts(
    doc: Seq<Part>,
    id: u32,
    first: Seq<Point>,
    first_rot: Option<u8>,
    last: Seq<Point>,
    last_rot: Option<u8>,
)
    requires
        edited(doc, Edit::Move { id, pins: first, rot: first_rot }) is Some,
        first_rot is None || last_rot is Some,
    ensures
        edited(
            edited(doc, Edit::Move { id, pins: first, rot: first_rot })->0,
            Edit::Move { id, pins: last, rot: last_rot },
        ) == edited(doc, Edit::Move { id, pins: last, rot: last_rot }),
{
    let mid = edited(doc, Edit::Move { id, pins: first, rot: first_rot })->0;
    let op = Edit::Move { id, pins: last, rot: last_rot };
    part_ids(doc).index_of_first_ensures(id);
    assert(part_ids(mid) =~= part_ids(doc));
    if edited(doc, op) is Some {
        assert(edited(mid, op)->0 =~= edited(doc, op)->0);
    }
}

/// The wiper of a part, where it is a potentiometer.
pub open spec fn wiper_in(doc: Seq<Part>, id: u32) -> Option<Real> {
    match part_at(doc, id) {
        None => None,
        Some(i) => match doc[i].kind {
            ElementKind::Potentiometer { wiper, .. } => Some(wiper),
            _ => None,
        },
    }
}

/// The wiper position of a potentiometer; nothing for any other part.
pub fn wiper_of(elems: &Vec<ElementSpec>, id: u32) -> (r: Option<Real>)
    ensures
        r == wiper_in(lists::views(elems@), id),
{
    proof {
        lemma_part_at(elems@, id);
    }
    match find(elems, id) {
        None => None,
        Some(i) => match elems[i].kind {
            ElementKind::Potentiometer { wiper, .. } => Some(wiper),
            _ => None,
        },
    }
}

/// A part that feeds energy in.
pub open spec fn is_source(kind: ElementKind) -> bool {
    kind is VoltageSource || kind is CurrentSource || kind is Rail
}

/// The ids of a document's sources, in order.
pub open spec fn sources_of(doc: Seq<Part>) -> Seq<u32> {
    part_ids(doc.filter(|p: Part| is_source(p.kind)))
}

/// The ids of a document's sources, for the energy meter.
pub fn source_ids(elems: &Vec<ElementSpec>) -> (r: Vec<u32>)
    ensures
        r@ == sources_of(lists::views(elems@)),
{
    let ghost doc = lists::views(elems@);
    let ghost p = |p: Part| is_source(p.kind);
    let mut out: Vec<u32> = Vec::new();
    let mut i: usize = 0;
    proof {
        reveal(Seq::filter);
        assert(part_ids(doc.take(0).filter(p)) =~= Seq::<u32>::empty());
    }
    while i < elems.len()
        invariant
            i <= elems@.len(),
            doc == lists::views(elems@),
            p == (|p: Part| is_source(p.kind)),
            out@ == part_ids(doc.take(i as int).filter(p)),
        decreases elems.len() - i,
    {
        proof {
            reveal(Seq::filter);
            assert(doc.take(i + 1).drop_last() =~= doc.take(i as int));
            assert(doc.take(i + 1).last() == elems@[i as int]@);
        }
        match elems[i].kind {
            ElementKind::VoltageSource { .. }
            | ElementKind::CurrentSource { .. }
            | ElementKind::Rail { .. } => {
                out.push(elems[i].id);
                proof {
                    assert(out@ =~= part_ids(doc.take(i + 1).filter(p)));
                }
            },
            _ => {},
        }
        i += 1;
    }
    proof {
        assert(doc.take(doc.len() as int) =~= doc);
    }
    out
}

/// How many speakers are heard at once.
pub const MAX_AUDIO_TAPS: usize = 4;

/// The ids of a document's speakers, in document order.
pub open spec fn speakers_of(doc: Seq<Part>) -> Seq<u32> {
    part_ids(doc.filter(|p: Part| p.kind is Speaker))
}

/// The speakers that are heard: the lowest ids, in ascending order.
pub fn audio_tap_ids(elems: &Vec<ElementSpec>) -> (r: Vec<u32>)
    ensures
        r@ == text::capped(lists::ascending(speakers_of(lists::views(elems@))), MAX_AUDIO_TAPS as nat),
{
    let ghost doc = lists::views(elems@);
    let ghost p = |p: Part| p.kind is Speaker;
    let mut ids: Vec<u32> = Vec::new();
    let mut i: usize = 0;
    proof {
        reveal(Seq::filter);
        assert(part_ids(doc.take(0).filter(p)) =~= Seq::<u32>::empty());
        lists::lemma_ascending(Seq::<u32>::empty());
        assert(ids@ =~= text::capped(lists::ascending(Seq::<u32>::empty()), 4));
    }
    while i < elems.len()
        invariant
            i <= elems@.len(),
            doc == lists::views(elems@),
            p == (|p: Part| p.kind is Speaker),
            ids@ == text::capped(lists::ascending(part_ids(doc.take(i as int).filter(p))), 4),
        decreases elems.len() - i,
    {
        let ghost before = part_ids(doc.take(i as int).filter(p));
        let ghost sorted = lists::ascending(before);
        proof {
            reveal(Seq::filter);
            assert(doc.take(i + 1).drop_last() =~= doc.take(i as int));
            assert(doc.take(i + 1).last() == elems@[i as int]@);
            lists::lemma_ascending(before);
        }
        match elems[i].kind {
            ElementKind::Speaker { .. } => {
                let id: u32 = elems[i].id;
                let mut at: usize = 0;
                while at < ids.len() && ids[at] < id
                    invariant
                        at <= ids@.len(),
                        forall|k: int| 0 <= k < at ==> #[trigger] ids@[k] < id,
                    decreases ids.len() - at,
                {
                    at += 1;
                }
                proof {
                    assert(part_ids(doc.take(i + 1).filter(p)) =~= before.push(id));
                    lemma_tap_step(before, id, ids@, at as int);
                }
                if at < MAX_AUDIO_TAPS {
                    ids.insert(at, id);
                    ids.truncate(MAX_AUDIO_TAPS);
                }
            },
            _ => {},
        }
        i += 1;
    }
    proof {
        assert(doc.take(doc.len() as int) =~= doc);
    }
    ids
}

/// One more speaker, among the lowest four so far.
proof fn lemma_tap_step(before: Seq<u32>, id: u32, low: Seq<u32>, at: int)
    requires
        low == text::capped(lists::ascending(before), 4),
        0 <= at <= low.len(),
        forall|k: int| 0 <= k < at ==> #[trigger] low[k] < id,
        at < low.len() ==> low[at] >= id,
    ensures
        low.len() <= 4,
        at >= 4 ==> text::capped(lists::ascending(before.push(id)), 4) == low,
        at < 4 ==> text::capped(lists::ascending(before.push(id)), 4) == text::capped(low.insert(at, id), 4),
{
    lists::lemma_ascending(before);
    let sorted = lists::ascending(before);
    if at < low.len() || low.len() < 4 {
        assert forall|k: int| 0 <= k < at implies #[trigger] sorted[k] < id by {
            assert(low[k] == sorted[k]);
        }
        if at < sorted.len() {
            assert(low[at] == sorted[at]);
        }
        lists::lemma_ascending_push(before, id, at);
        assert(text::capped(sorted.insert(at, id), 4) =~= text::capped(low.insert(at, id), 4));
    } else {
        let n = place_among(sorted, id);
        lemma_place_among(sorted, id);
        if n < 4 {
            assert(low[n] == sorted[n]);
        }
        lists::lemma_ascending_push(before, id, n);
        assert(text::capped(sorted.insert(n, id), 4) =~= low);
    }
}

/// How many numbers at the front are under `x`.
spec fn place_among(s: Seq<u32>, x: u32) -> int
    decreases s.len(),
{
    if s.len() > 0 && s[0] < x {
        1 + place_among(s.drop_first(), x)
    } else {
        0
    }
}

proof fn lemma_place_among(s: Seq<u32>, x: u32)
    ensures
        0 <= place_among(s, x) <= s.len(),
        forall|i: int| 0 <= i < place_among(s, x) ==> #[trigger] s[i] < x,
        place_among(s, x) < s.len() ==> s[place_among(s, x)] >= x,
    decreases s.len(),
{
    if s.len() > 0 && s[0] < x {
        let d = s.drop_first();
        lemma_place_among(d, x);
        assert forall|i: int| 0 <= i < place_among(s, x) implies #[trigger] s[i] < x by {
            if i > 0 {
                assert(d[i - 1] == s[i]);
            }
        }
    }
}

/// The part at this place is the first with this id.
pub open spec fn found(doc: Seq<Part>, id: u32, i: int) -> bool {
    &&& 0 <= i < doc.len()
    &&& doc[i].id == id
    &&& forall|j: int| 0 <= j < i ==> (#[trigger] doc[j]).id != id
}

/// Looking for an id finds the first part that has it, or there is none.
pub proof fn lemma_found(doc: Seq<Part>, id: u32)
    ensures
        match part_at(doc, id) {
            Some(i) => found(doc, id, i),
            None => forall|j: int| 0 <= j < doc.len() ==> (#[trigger] doc[j]).id != id,
        },
        forall|i: int| #[trigger] found(doc, id, i) ==> part_at(doc, id) == Some(i),
{
    let ids = part_ids(doc);
    ids.index_of_first_ensures(id);
    assert forall|j: int| 0 <= j < doc.len() implies ids[j] == (#[trigger] doc[j]).id by {}
    assert forall|i: int| #[trigger] found(doc, id, i) implies part_at(doc, id) == Some(i) by {
        assert forall|j: int| 0 <= j < i implies #[trigger] ids[j] != id by {
            assert(doc[j].id != id);
        }
        lists::lemma_index_of_first(ids, id, Some(i));
    }
    match part_at(doc, id) {
        Some(i) => {
            assert(ids[i] == doc[i].id);
        },
        None => {
            assert forall|j: int| 0 <= j < doc.len() implies (#[trigger] doc[j]).id != id by {
                assert(ids[j] != id);
            }
        },
    }
}

/// What an edit that was taken does. An added part comes behind the others; a removed one goes,
/// and the others keep their order; a moved part gets the pins, and the rotation where one was
/// given; a part whose kind is set keeps its pins, its name, its tier and its rotation; one
/// whose name is set keeps all but its name. Every other part is as it was, in its place.
pub open spec fn edit_done(doc: Seq<Part>, op: Edit, next: Seq<Part>) -> bool {
    match op {
        Edit::Add { part } => lists::one_more(doc, next, part),
        Edit::Remove { id } => {
            &&& lists::sifted(doc, next, |p: Part| p.id == id)
            &&& next.len() < doc.len()
        },
        Edit::Move { id, pins, rot } => exists|i: int| #[trigger]
            found(doc, id, i) && lists::same_but_at(doc, next, i) && {
                &&& next[i].id == id
                &&& next[i].kind == doc[i].kind
                &&& next[i].pins == pins
                &&& next[i].name == doc[i].name
                &&& next[i].tier == doc[i].tier
                &&& rot matches Some(r) ==> next[i].rot == r
                &&& rot is None ==> next[i].rot == doc[i].rot
            },
        Edit::SetKind { id, kind } => exists|i: int| #[trigger]
            found(doc, id, i) && lists::same_but_at(doc, next, i) && {
                &&& next[i].id == id
                &&& next[i].kind == kind
                &&& next[i].pins == doc[i].pins
                &&& next[i].name == doc[i].name
                &&& next[i].tier == doc[i].tier
                &&& next[i].rot == doc[i].rot
            },
        Edit::SetName { id, name } => exists|i: int| #[trigger]
            found(doc, id, i) && lists::same_but_at(doc, next, i) && {
                &&& next[i].id == id
                &&& next[i].kind == doc[i].kind
                &&& next[i].pins == doc[i].pins
                &&& text::reads_as(name, 24, next[i].name)
                &&& next[i].tier == doc[i].tier
                &&& next[i].rot == doc[i].rot
            },
    }
}

/// An edit that is taken changes only what it names.
pub proof fn law_an_edit_changes_only_what_it_names(doc: Seq<Part>, op: Edit, next: Seq<Part>)
    requires
        edited(doc, op) == Some(next),
    ensures
        edit_done(doc, op, next),
{
    lemma_found(doc, op.target());
    match op {
        Edit::Add { part } => {},
        Edit::Remove { id } => {
            let so = |p: Part| p.id == id;
            assert forall|p: Part| #[trigger] not_id(id)(p) == !so(p) by {}
            lists::lemma_filter_sifts(doc, not_id(id), so);
            lists::lemma_filter_all(doc, not_id(id));
            let i = part_at(doc, id)->0;
            assert(!not_id(id)(doc[i]));
        },
        Edit::SetName { id, name } => {
            text::law_a_clean_text_reads_as_it_was_written(name, 24);
            assert(found(doc, id, part_at(doc, id)->0));
        },
        _ => {
            assert(found(doc, op.target(), part_at(doc, op.target())->0));
        },
    }
}

/// When an edit is taken: it names no fixture; an added part has a new id and the pins of its
/// kind, and the document has room for it; any other edit names a part that is there; a moved
/// part gets as many pins as its kind has, and one of four rotations; a kind has as many pins
/// as the part.
pub open spec fn edit_taken(doc: Seq<Part>, op: Edit) -> bool {
    match op {
        Edit::Add { part } => {
            &&& !(900 <= part.id <= 999)
            &&& part.pins.len() == part.kind.pins()
            &&& doc.len() < 50_000
            &&& forall|j: int| 0 <= j < doc.len() ==> (#[trigger] doc[j]).id != part.id
        },
        Edit::Remove { id } => {
            &&& !(900 <= id <= 999)
            &&& exists|i: int| 0 <= i < doc.len() && (#[trigger] doc[i]).id == id
        },
        Edit::Move { id, pins, rot } => {
            &&& !(900 <= id <= 999)
            &&& rot is Some ==> rot->0 < 4
            &&& exists|i: int| #[trigger] found(doc, id, i) && pins.len() == doc[i].kind.pins()
        },
        Edit::SetKind { id, kind } => {
            &&& !(900 <= id <= 999)
            &&& exists|i: int| #[trigger] found(doc, id, i) && kind.pins() == doc[i].pins.len()
        },
        Edit::SetName { id, .. } => {
            &&& !(900 <= id <= 999)
            &&& exists|i: int| 0 <= i < doc.len() && (#[trigger] doc[i]).id == id
        },
    }
}

/// An edit is made exactly where it is one that is taken.
pub proof fn law_when_an_edit_is_taken(doc: Seq<Part>, op: Edit)
    ensures
        edited(doc, op) is Some <==> edit_taken(doc, op),
{
    lemma_found(doc, op.target());
    if let Some(i) = part_at(doc, op.target()) {
        assert(found(doc, op.target(), i));
        assert(doc[i].id == op.target());
    }
}

/// The value is the number that was asked for, or the lowest that there is where less was
/// asked for, or no number.
pub open spec fn raised_to(value: Real, lowest: u64, got: Real) -> bool {
    let lo = Real { bits: lowest };
    if !value.nan() && lo.rank() <= value.rank() {
        got == value
    } else {
        got == lo
    }
}

/// The wiper is where it was asked to be, or at the nearer end of its track: a hundredth from
/// either end. What is no number stays none.
pub open spec fn wiper_to(value: Real, wiper: Real) -> bool {
    let (lo, hi) = (Real { bits: 0x3f84_7ae1_47ae_147b }, Real { bits: 0x3fef_ae14_7ae1_47ae });
    &&& value.nan() ==> wiper == value
    &&& !value.nan() ==> {
        &&& lo.rank() <= wiper.rank() <= hi.rank()
        &&& lo.rank() <= value.rank() <= hi.rank() ==> wiper == value
        &&& value.rank() < lo.rank() ==> wiper == lo
        &&& value.rank() > hi.rank() ==> wiper == hi
    }
}

/// A turn sets the one value that a part of the kind has, inside that value's limits, and
/// nothing else of it: ohms, farads and henries are never less than their lowest, a wiper
/// stays on its track, and a source gives what was asked for. A part without such a value
/// stays as it is.
pub proof fn law_a_turn_sets_one_value(kind: ElementKind, value: Real)
    ensures
        match (kind, turned(kind, InteractOp::SetValue { value })) {
            (ElementKind::Resistor { .. }, ElementKind::Resistor { ohms }) => raised_to(
                value,
                0x3eb0_c6f7_a0b5_ed8d,
                ohms,
            ),
            (ElementKind::Lamp { rated_watts, .. }, ElementKind::Lamp { ohms, rated_watts: w }) => {
                raised_to(value, 0x3eb0_c6f7_a0b5_ed8d, ohms) && w == rated_watts
            },
            (ElementKind::Speaker { .. }, ElementKind::Speaker { ohms }) => raised_to(
                value,
                0x3eb0_c6f7_a0b5_ed8d,
                ohms,
            ),
            (ElementKind::Capacitor { .. }, ElementKind::Capacitor { farads }) => raised_to(
                value,
                0x3cd2_03af_9ee7_5616,
                farads,
            ),
            (ElementKind::Inductor { .. }, ElementKind::Inductor { henries }) => raised_to(
                value,
                0x3d71_9799_812d_ea11,
                henries,
            ),
            (ElementKind::VoltageSource { wave, amp, hz, phase, .. }, ElementKind::VoltageSource {
                wave: w,
                dc,
                amp: a,
                hz: h,
                phase: p,
            }) => dc == value && w == wave && a == amp && h == hz && p == phase,
            (ElementKind::Rail { wave, amp, hz, phase, .. }, ElementKind::Rail {
                wave: w,
                dc,
                amp: a,
                hz: h,
                phase: p,
            }) => dc == value && w == wave && a == amp && h == hz && p == phase,
            (ElementKind::CurrentSource { .. }, ElementKind::CurrentSource { amps }) => amps == value,
            (ElementKind::Potentiometer { ohms, .. }, ElementKind::Potentiometer {
                ohms: o,
                wiper,
            }) => {
                &&& o == ohms
                &&& wiper_to(value, wiper)
            },
            (_, after) => after == kind,
        },
{
}

/// A flip sets a switch or a button to what was asked for, and leaves every other part alone.
pub proof fn law_a_flip_sets_a_switch(kind: ElementKind, closed: bool)
    ensures
        match (kind, turned(kind, InteractOp::SetSwitch { closed })) {
            (ElementKind::Switch { .. }, ElementKind::Switch { closed: c }) => c == closed,
            (ElementKind::Button { .. }, ElementKind::Button { closed: c }) => c == closed,
            (_, after) => after == kind,
        },
{
}

/// A flip or a turn reaches one part, and of that part only its kind; an id that no part has
/// changes nothing.
pub open spec fn turn_made(doc: Seq<Part>, id: u32, op: InteractOp, next: Seq<Part>) -> bool {
    ||| {
        &&& next == doc
        &&& forall|j: int| 0 <= j < doc.len() ==> (#[trigger] doc[j]).id != id
    }
    ||| exists|i: int| #[trigger]
        found(doc, id, i) && lists::same_but_at(doc, next, i) && {
            &&& next[i].id == id
            &&& next[i].kind == turned(doc[i].kind, op)
            &&& next[i].pins == doc[i].pins
            &&& next[i].name == doc[i].name
            &&& next[i].tier == doc[i].tier
            &&& next[i].rot == doc[i].rot
        }
}

/// A flip or a turn reaches the part that it names.
pub proof fn law_a_turn_reaches_one_part(doc: Seq<Part>, id: u32, op: InteractOp)
    ensures
        turn_made(doc, id, op, interacted(doc, id, op)),
{
    lemma_found(doc, id);
    if let Some(i) = part_at(doc, id) {
        assert(found(doc, id, i));
    }
}

/// A wiper that was turned is where it was turned to, and a part that has no wiper shows none.
pub proof fn law_a_wiper_is_read_where_it_was_put(doc: Seq<Part>, id: u32, value: Real)
    ensures
        wiper_in(doc, id) matches Some(w) ==> exists|i: int| #[trigger]
            found(doc, id, i) && (doc[i].kind matches ElementKind::Potentiometer { wiper, .. }
                && wiper == w),
        wiper_in(doc, id) is None ==> forall|i: int| #[trigger]
            found(doc, id, i) ==> !(doc[i].kind is Potentiometer),
        wiper_in(doc, id) is Some && value.within(
            Real { bits: 0x3f84_7ae1_47ae_147b },
            Real { bits: 0x3fef_ae14_7ae1_47ae },
        ) ==> wiper_in(interacted(doc, id, InteractOp::SetValue { value }), id) == Some(value),
{
    lemma_found(doc, id);
    let next = interacted(doc, id, InteractOp::SetValue { value });
    assert(part_ids(next) =~= part_ids(doc));
    if let Some(i) = part_at(doc, id) {
        assert(found(doc, id, i));
    }
}

/// These are the ids of the voltage sources, the current sources and the rails, each once, in
/// the order of the document.
pub open spec fn feeds(doc: Seq<Part>, ids: Seq<u32>) -> bool {
    exists|s: Seq<Part>|
        #![trigger part_ids(s)]
        ids == part_ids(s) && lists::sifted(
            doc,
            s,
            |p: Part|
                match p.kind {
                    ElementKind::VoltageSource { .. } => false,
                    ElementKind::CurrentSource { .. } => false,
                    ElementKind::Rail { .. } => false,
                    _ => true,
                },
        )
}

/// The parts that feed energy in are the voltage sources, the current sources and the rails.
pub proof fn law_sources_feed_energy_in(doc: Seq<Part>)
    ensures
        feeds(doc, sources_of(doc)),
{
    let so = |p: Part|
        match p.kind {
            ElementKind::VoltageSource { .. } => false,
            ElementKind::CurrentSource { .. } => false,
            ElementKind::Rail { .. } => false,
            _ => true,
        };
    let p = |p: Part| is_source(p.kind);
    lists::lemma_filter_sifts(doc, p, so);
    assert(sources_of(doc) == part_ids(doc.filter(p)));
}

/// The speakers that are heard: no more than four, the lowest ids first, each the id of a
/// speaker; and a speaker that is not heard has no lower id than those that are, which are
/// then four.
pub proof fn law_the_lowest_speakers_are_heard(doc: Seq<Part>, heard: Seq<u32>)
    requires
        heard == text::capped(lists::ascending(speakers_of(doc)), MAX_AUDIO_TAPS as nat),
    ensures
        heard.len() <= 4,
        forall|i: int, j: int| 0 <= i < j < heard.len() ==> #[trigger] heard[i] <= #[trigger] heard[j],
        forall|i: int|
            0 <= i < heard.len() ==> exists|k: int|
                0 <= k < doc.len() && (#[trigger] doc[k]).id == #[trigger] heard[i]
                    && doc[k].kind is Speaker,
        forall|k: int|
            0 <= k < doc.len() && (#[trigger] doc[k]).kind is Speaker && !heard.contains(doc[k].id)
                ==> heard.len() == 4 && doc[k].id >= heard[3],
{
    let all = speakers_of(doc);
    let so = |p: Part| !(p.kind is Speaker);
    let p = |p: Part| p.kind is Speaker;
    let s = doc.filter(p);
    lists::lemma_filter_sifts(doc, p, so);
    lists::lemma_sifted(doc, s, so);
    lists::lemma_ascending(all);
    let up = lists::ascending(all);
    all.to_multiset_ensures();
    up.to_multiset_ensures();
    assert forall|i: int| 0 <= i < heard.len() implies exists|k: int|
        0 <= k < doc.len() && (#[trigger] doc[k]).id == #[trigger] heard[i] && doc[k].kind is Speaker by {
        assert(heard[i] == up[i]);
        assert(up.contains(up[i]));
        assert(up.to_multiset().count(up[i]) > 0);
        assert(all.contains(up[i]));
        let m = choose|m: int| 0 <= m < all.len() && all[m] == up[i];
        assert(s[m].id == up[i] && !so(s[m]));
        let k = choose|k: int| 0 <= k < doc.len() && doc[k] == s[m];
        assert(doc[k].id == heard[i]);
    }
    assert forall|k: int|
        0 <= k < doc.len() && (#[trigger] doc[k]).kind is Speaker && !heard.contains(
            doc[k].id,
        ) implies heard.len() == 4 && doc[k].id >= heard[3] by {
        assert(!so(doc[k]));
        let m = choose|m: int| 0 <= m < s.len() && s[m] == doc[k];
        assert(all[m] == doc[k].id);
        assert(all.contains(doc[k].id));
        assert(all.to_multiset().count(doc[k].id) > 0);
        assert(up.contains(doc[k].id));
        let n = choose|n: int| 0 <= n < up.len() && up[n] == doc[k].id;
        if n < heard.len() {
            assert(heard[n] == doc[k].id);
        }
        assert(up[3] <= up[n]);
    }
}

/// An edit shows all of itself, and is about the part that it names.
pub proof fn law_an_edit_shows_all_of_itself(op: DocOp)
    ensures
        match (op, op@) {
            (DocOp::Add { spec }, Edit::Add { part }) => part == spec@ && op@.target() == spec.id,
            (DocOp::Remove { id }, Edit::Remove { id: i }) => i == id && op@.target() == id,
            (DocOp::Move { id, pins, rot }, Edit::Move { id: i, pins: p, rot: r }) => i == id && p
                == pins@ && r == rot && op@.target() == id,
            (DocOp::SetKind { id, kind }, Edit::SetKind { id: i, kind: k }) => i == id && k == kind
                && op@.target() == id,
            (DocOp::SetName { id, name }, Edit::SetName { id: i, name: n }) => i == id && n == name@
                && op@.target() == id,
            _ => false,
        },
{
}

} // verus!
