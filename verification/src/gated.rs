//! The commands that the solver has a say in. Each comes in two halves: what the document
//! would become, and what is done once the verdict is known. A refused command changes
//! nothing.
use vstd::prelude::*;

use crate::binary64::Real;
use crate::document::{
    self, apply_doc_op_to, apply_interact_to, reserved_id, source_ids, wiper_of, DocOp, Edit,
    InteractOp, WIPER_HI, WIPER_LO,
};
use crate::fixture::{self, move_machine, Moved};
use crate::lists::{self, copy_all, Keyed};
use crate::parts::{copy_points, ElementKind, ElementSpec, Part};
use crate::probes::Probe;
use crate::room::{self, Action, Context, Reject, Room, Sim, Work};
use crate::scopes::{self, prune_scope_pids};
use crate::slew::{self, InFlight, WiperWrite};

verus! {

/// Where a turned knob sets out from, and where it is to go. Only a wiper travels.
pub open spec fn journey(doc: Seq<Part>, id: u32, op: InteractOp) -> Option<(Real, Real)> {
    match op {
        InteractOp::SetValue { value } => match document::wiper_in(doc, id) {
            Some(from) => Some(
                (from, value.clamped(Real { bits: WIPER_LO }, Real { bits: WIPER_HI })),
            ),
            None => None,
        },
        _ => None,
    }
}

fn journey_of(elems: &Vec<ElementSpec>, id: u32, op: InteractOp) -> (r: Option<(Real, Real)>)
    ensures
        r == journey(lists::views(elems@), id, op),
{
    match op {
        InteractOp::SetValue { value } => match wiper_of(elems, id) {
            Some(from) => Some((from, value.clamp_to(Real::of(WIPER_LO), Real::of(WIPER_HI)))),
            None => None,
        },
        _ => None,
    }
}

/// What a flip or a turn would do.
pub struct InteractPlan {
    /// The document to be judged.
    pub candidate: Vec<ElementSpec>,
    /// Where the wiper is and where it is to go; the caller measures the gap.
    pub journey: Option<(Real, Real)>,
}

/// What a flip or a turn would do; nothing for a fixture.
pub fn plan_interact(room: &Room, id: u32, op: InteractOp) -> (r: Option<InteractPlan>)
    ensures
        r is None <==> document::reserved(id),
        r is Some ==> {
            &&& lists::views(r->0.candidate@) == document::interacted(lists::views(room.elements@), id, op)
            &&& r->0.journey == journey(lists::views(room.elements@), id, op)
        },
{
    if reserved_id(id) {
        return None;
    }
    let mut candidate: Vec<ElementSpec> = copy_all(&room.elements);
    apply_interact_to(&mut candidate, id, op);
    Some(InteractPlan { candidate, journey: journey_of(&room.elements, id, op) })
}

/// The wiper of a travelling knob, to be put back in the solver.
pub open spec fn holding(live: Seq<InFlight>, id: u32) -> Seq<Action> {
    match lists::place(live, id) {
        Some(i) => seq![Action::Hold { write: WiperWrite { id, frac: live[i].now } }],
        None => Seq::empty(),
    }
}

/// A room after a flip or a turn was judged, and what is to be done.
pub open spec fn interact_step(
    a: Room,
    b: Room,
    s: Sim,
    t: Sim,
    who: u32,
    id: u32,
    op: InteractOp,
    verdict: Option<Reject>,
    gap: Real,
    acts: Seq<Action>,
) -> bool {
    let doc = lists::views(a.elements@);
    if document::reserved(id) {
        b == a && t == s && acts == Seq::<Action>::empty()
    } else {
        match verdict {
            Some(why) => {
                &&& b == a
                &&& t == s
                &&& acts == seq![Action::Refuse { who, ctx: Context::Interact, why }]
            },
            None => {
                &&& lists::views(b.elements@) == document::interacted(doc, id, op)
                &&& b == (Room { elements: b.elements, ..a })
                &&& t == (Sim { slews: t.slews, ..s })
                &&& t.slews.live@ == match journey(doc, id, op) {
                    Some((from, target)) => slew::aimed(s.slews.live@, id, from, target, gap),
                    None => s.slews.live@,
                }
                &&& acts == seq![Action::Interact { id, op }] + holding(t.slews.live@, id) + seq![
                    Action::TellOp { id, op },
                ]
            },
        }
    }
}

/// Makes a flip or a turn that was judged. `gap` is how far the wiper is from where it is
/// to go.
pub fn commit_interact(
    room: &mut Room,
    sim: &mut Sim,
    who: u32,
    id: u32,
    op: InteractOp,
    verdict: Option<Reject>,
    gap: Real,
) -> (acts: Vec<Action>)
    ensures
        interact_step(
            *old(room),
            *final(room),
            *old(sim),
            *final(sim),
            who,
            id,
            op,
            verdict,
            gap,
            acts@,
        ),
{
    let mut acts: Vec<Action> = Vec::new();
    if reserved_id(id) {
        return acts;
    }
    match verdict {
        Some(why) => {
            acts.push(Action::Refuse { who, ctx: Context::Interact, why });
            assert(acts@ =~= seq![Action::Refuse { who, ctx: Context::Interact, why }]);
        },
        None => {
            if let Some((from, target)) = journey_of(&room.elements, id, op) {
                sim.slews.aim(id, from, target, gap);
            }
            acts.push(Action::Interact { id, op });
            if let Some(write) = sim.slews.reassert(id) {
                acts.push(Action::Hold { write });
            }
            apply_interact_to(&mut room.elements, id, op);
            acts.push(Action::TellOp { id, op });
            proof {
                assert(acts@ =~= seq![Action::Interact { id, op }] + holding(
                    sim.slews.live@,
                    id,
                ) + seq![Action::TellOp { id, op }]);
            }
        },
    }
    acts
}

/// The document that an edit would leave, to be judged beside the one there is; nothing
/// where the edit is dropped.
pub fn plan_edit(room: &Room, op: &DocOp) -> (r: Option<Vec<ElementSpec>>)
    ensures
        match (r, document::edited(lists::views(room.elements@), op@)) {
            (Some(next), Some(doc)) => lists::views(next@) == doc,
            (None, None) => true,
            _ => false,
        },
{
    let mut next: Vec<ElementSpec> = copy_all(&room.elements);
    if apply_doc_op_to(&mut next, op) {
        Some(next)
    } else {
        None
    }
}

/// A probe after a part went: one that measured against it measures against ground.
pub open spec fn unreferred(p: Probe, id: u32) -> Probe {
    match p.r {
        Some((elem, _)) => if elem == id {
            Probe { r: None, ..p }
        } else {
            p
        },
        None => p,
    }
}

/// The probes after a part went: those on it go with it.
pub open spec fn probes_without(probes: Seq<Probe>, id: u32) -> Seq<Probe> {
    probes.filter(|p: Probe| p.elem != id).map_values(|p: Probe| unreferred(p, id))
}

/// Takes the probes off a part that went; tells whether anything changed.
fn drop_probes_on(probes: &mut Vec<Probe>, id: u32) -> (r: bool)
    ensures
        final(probes)@ == probes_without(old(probes)@, id),
        r == (final(probes)@ != old(probes)@),
        !r ==> *final(probes) == *old(probes),
{
    let ghost all = probes@;
    let ghost p = |p: Probe| p.elem != id;
    let ghost f = |p: Probe| unreferred(p, id);
    let mut out: Vec<Probe> = Vec::new();
    let mut changed: bool = false;
    let mut i: usize = 0;
    proof {
        reveal(Seq::filter);
        assert(all.take(0).filter(p).map_values(f) =~= Seq::<Probe>::empty());
        assert(all.take(0) =~= Seq::<Probe>::empty());
    }
    while i < probes.len()
        invariant
            i <= probes@.len(),
            probes@ == all,
            *probes == *old(probes),
            p == (|p: Probe| p.elem != id),
            f == (|p: Probe| unreferred(p, id)),
            out@ == all.take(i as int).filter(p).map_values(f),
            changed ==> out@ != all.take(i as int),
            changed ==> out@.len() < i || exists|k: int|
                0 <= k < out@.len() && out@.len() == i && #[trigger] out@[k] != all[k],
            !changed ==> out@ == all.take(i as int),
            out@.len() <= i,
        decreases probes.len() - i,
    {
        proof {
            reveal(Seq::filter);
            assert(all.take(i + 1).drop_last() =~= all.take(i as int));
        }
        let ghost before = out@;
        let x: Probe = probes[i];
        if x.elem != id {
            let y: Probe = match x.r {
                Some((e, _)) => {
                    if e == id {
                        changed = true;
                        Probe { pid: x.pid, elem: x.elem, pin: x.pin, kind: x.kind, r: None }
                    } else {
                        x
                    }
                },
                None => x,
            };
            out.push(y);
            proof {
                assert(y == unreferred(x, id));
                assert(out@ =~= all.take(i + 1).filter(p).map_values(f));
                if out@.len() == i + 1 {
                    if y != x {
                        assert(out@[i as int] != all[i as int]);
                    } else if changed {
                        let k = choose|k: int|
                            0 <= k < before.len() && before.len() == i && #[trigger] before[k]
                                != all[k];
                        assert(out@[k] != all[k]);
                    } else {
                        assert(out@ =~= all.take(i + 1));
                    }
                }
            }
        } else {
            changed = true;
        }
        i += 1;
        proof {
            if changed && out@.len() == i {
                let k = choose|k: int|
                    0 <= k < out@.len() && out@.len() == i && #[trigger] out@[k] != all[k];
                assert(all.take(i as int)[k] == all[k]);
            }
        }
    }
    proof {
        assert(all.take(all.len() as int) =~= all);
    }
    if changed {
        *probes = out;
    }
    changed
}

/// What an edit says of the instruments that it touched.
pub open spec fn instruments_told(probes: bool, scopes: bool) -> Seq<Action> {
    (if probes {
        seq![Action::TellProbes]
    } else {
        Seq::empty()
    }) + (if scopes {
        seq![Action::TellScopes]
    } else {
        Seq::empty()
    })
}

/// A room after an edit was judged, and what is to be done.
pub open spec fn edit_step(
    a: Room,
    b: Room,
    s: Sim,
    t: Sim,
    who: u32,
    op: DocOp,
    verdict: Option<Reject>,
    acts: Seq<Action>,
) -> bool {
    match document::edited(lists::views(a.elements@), op@) {
        None => b == a && t == s && acts == Seq::<Action>::empty(),
        Some(next) => match verdict {
            Some(why) => {
                &&& b == a
                &&& t == s
                &&& acts == seq![Action::Refuse { who, ctx: Context::Edit, why }]
            },
            None => {
                &&& lists::views(b.elements@) == next
                &&& b == (Room {
                    elements: b.elements,
                    probes: b.probes,
                    scopes: b.scopes,
                    dirty: true,
                    ..a
                })
                &&& t == (Sim { sources: t.sources, slews: t.slews, ..s })
                &&& t.sources@ == document::sources_of(next)
                &&& t.slews.live@ == Seq::<InFlight>::empty()
                &&& match op@ {
                    Edit::Remove { id } => {
                        &&& b.probes@ == probes_without(a.probes@, id)
                        &&& lists::views(b.scopes@) == scopes::all_pruned(lists::views(a.scopes@), lists::keys(b.probes@))
                    },
                    _ => b.probes == a.probes && b.scopes == a.scopes,
                }
                &&& acts == seq![Action::Rebuild { ratings: true }] + instruments_told(
                    b.probes@ != a.probes@,
                    lists::views(b.scopes@) != lists::views(a.scopes@),
                ) + seq![Action::TellDoc { op }]
            },
        },
    }
}

/// Makes an edit that was judged.
pub fn commit_edit(
    room: &mut Room,
    sim: &mut Sim,
    who: u32,
    op: DocOp,
    verdict: Option<Reject>,
) -> (acts: Vec<Action>)
    ensures
        edit_step(
            *old(room),
            *final(room),
            *old(sim),
            *final(sim),
            who,
            op,
            verdict,
            acts@,
        ),
{
    let mut acts: Vec<Action> = Vec::new();
    if let Some(why) = verdict {
        if plan_edit(room, &op).is_some() {
            acts.push(Action::Refuse { who, ctx: Context::Edit, why });
            assert(acts@ =~= seq![Action::Refuse { who, ctx: Context::Edit, why }]);
        }
        return acts;
    }
    if !apply_doc_op_to(&mut room.elements, &op) {
        return acts;
    }
    room.dirty = true;
    sim.sources = source_ids(&room.elements);
    acts.push(Action::Rebuild { ratings: true });
    sim.slews.clear();
    let mut probes_told: bool = false;
    let mut scopes_told: bool = false;
    if let DocOp::Remove { id } = &op {
        probes_told = drop_probes_on(&mut room.probes, *id);
        if probes_told {
            acts.push(Action::TellProbes);
        }
        scopes_told = prune_scope_pids(&mut room.scopes, &room.probes);
        if scopes_told {
            acts.push(Action::TellScopes);
        }
    }
    acts.push(Action::TellDoc { op });
    proof {
        assert(acts@ =~= seq![Action::Rebuild { ratings: true }] + instruments_told(
            probes_told,
            scopes_told,
        ) + seq![Action::TellDoc { op }]);
    }
    acts
}

/// A repair was judged: it is refused, or the part is put back into service. Fixtures can
/// be repaired too.
pub fn commit_repair(who: u32, id: u32, verdict: Option<Reject>) -> (acts: Vec<Action>)
    ensures
        acts@ == match verdict {
            Some(why) => seq![Action::Refuse { who, ctx: Context::Repair, why }],
            None => seq![Action::Repair { id }],
        },
{
    let mut acts: Vec<Action> = Vec::new();
    match verdict {
        Some(why) => {
            acts.push(Action::Refuse { who, ctx: Context::Repair, why });
            assert(acts@ =~= seq![Action::Refuse { who, ctx: Context::Repair, why }]);
        },
        None => {
            acts.push(Action::Repair { id });
            assert(acts@ =~= seq![Action::Repair { id }]);
        },
    }
    acts
}

/// Where a tick's moves would put the machine.
pub struct MovePlan {
    /// The document to be judged.
    pub candidate: Vec<ElementSpec>,
}

/// The document that a tick's moves would leave; nothing where they come to no move that
/// is taken.
pub fn plan_move(room: &Room, sim: &Sim, work: &Work) -> (r: Option<MovePlan>)
    ensures
        r is Some <==> fixture::move_taken(
            fixture::hoist(),
            sim.rect@,
            work.pending.0 as int,
            work.pending.1 as int,
        ),
        r is Some ==> lists::views(r->0.candidate@) == fixture::with_hoist(
            lists::views(room.elements@),
            sim.rect@[0] + work.pending.0,
            sim.rect@[1] + work.pending.1,
        ),
{
    let mut candidate: Vec<ElementSpec> = copy_all(&room.elements);
    let mut rect: [i32; 4] = sim.rect;
    match move_machine(&mut candidate, &mut rect, work.pending.0, work.pending.1) {
        Some(_) => Some(MovePlan { candidate }),
        None => None,
    }
}

/// The actions tell the room of the new pins of each locked part, in order.
pub open spec fn moves_told(acts: Seq<Action>, parts: Seq<Part>) -> bool {
    &&& acts.len() == parts.len() + 1
    &&& acts[0] == (Action::Rebuild { ratings: false })
    &&& forall|i: int|
        #![trigger parts[i]]
        0 <= i < parts.len() ==> (acts[i + 1] matches Action::TellDoc { op } && op@ == (Edit::Move {
            id: parts[i].id,
            pins: parts[i].pins,
            rot: None,
        }))
}

/// A room after a tick's moves were judged, and what is to be done.
pub open spec fn move_step(
    a: Room,
    b: Room,
    s: Sim,
    t: Sim,
    w: Work,
    verdict: Option<Reject>,
    acts: Seq<Action>,
) -> bool {
    if !fixture::move_taken(fixture::hoist(), s.rect@, w.pending.0 as int, w.pending.1 as int) {
        b == a && t == s && acts == Seq::<Action>::empty()
    } else {
        let x0 = s.rect@[0] + w.pending.0;
        let y0 = s.rect@[1] + w.pending.1;
        match verdict {
            Some(why) => {
                &&& b == a
                &&& t == s
                &&& acts == seq![Action::Refuse { who: w.mover, ctx: Context::MachineMove, why }]
            },
            None => {
                &&& lists::views(b.elements@) == fixture::with_hoist(lists::views(a.elements@), x0, y0)
                &&& b == (Room { elements: b.elements, dirty: true, ..a })
                &&& t == (Sim { rect: t.rect, slews: t.slews, ..s })
                &&& t.rect@ == fixture::footprint(fixture::hoist(), x0, y0)
                &&& t.slews.live@ == Seq::<InFlight>::empty()
                &&& moves_told(acts, fixture::hoist_parts(x0, y0))
            },
        }
    }
}

/// Makes a tick's moves, once they were judged.
pub fn commit_move(room: &mut Room, sim: &mut Sim, work: &Work, verdict: Option<Reject>) -> (acts:
    Vec<Action>)
    ensures
        move_step(*old(room), *final(room), *old(sim), *final(sim), *work, verdict, acts@),
{
    let mut acts: Vec<Action> = Vec::new();
    if let Some(why) = verdict {
        if plan_move(room, sim, work).is_some() {
            acts.push(Action::Refuse { who: work.mover, ctx: Context::MachineMove, why });
            assert(acts@ =~= seq![
                Action::Refuse { who: work.mover, ctx: Context::MachineMove, why },
            ]);
        }
        return acts;
    }
    let moved: Option<Vec<Moved>> = move_machine(
        &mut room.elements,
        &mut sim.rect,
        work.pending.0,
        work.pending.1,
    );
    if let Some(children) = moved {
        let ghost parts = fixture::hoist_parts(
            old(sim).rect@[0] + work.pending.0,
            old(sim).rect@[1] + work.pending.1,
        );
        room.dirty = true;
        sim.slews.clear();
        acts.push(Action::Rebuild { ratings: false });
        let mut i: usize = 0;
        while i < children.len()
            invariant
                i <= children@.len(),
                fixture::moves_to(children@, parts),
                acts@.len() == i + 1,
                acts@[0] == (Action::Rebuild { ratings: false }),
                forall|k: int|
                    #![trigger parts[k]]
                    0 <= k < i ==> (acts@[k + 1] matches Action::TellDoc { op } && op@ == (
                    Edit::Move { id: parts[k].id, pins: parts[k].pins, rot: None })),
            decreases children.len() - i,
        {
            let ghost before = acts@;
            let op: DocOp = DocOp::Move {
                id: children[i].id,
                pins: copy_points(&children[i].pins),
                rot: None,
            };
            acts.push(Action::TellDoc { op });
            proof {
                assert forall|k: int|
                    #![trigger parts[k]]
                    0 <= k < i + 1 implies (acts@[k + 1] matches Action::TellDoc { op } && op@ == (
                Edit::Move { id: parts[k].id, pins: parts[k].pins, rot: None })) by {
                    if k < i {
                        assert(acts@[k + 1] == before[k + 1]);
                    }
                }
            }
            i += 1;
        }
    }
    acts
}

/// A flip or a turn was judged. A fixture is out of reach. What was refused changes nothing,
/// and whoever asked hears why. Else the part is flipped or turned, and the solver and the room
/// hear of it; a wiper that is turned sets out from where it is, and the solver holds it where
/// it is.
pub open spec fn interact_done(
    a: Room,
    b: Room,
    s: Sim,
    t: Sim,
    who: u32,
    id: u32,
    op: InteractOp,
    verdict: Option<Reject>,
    gap: Real,
    acts: Seq<Action>,
) -> bool {
    let doc = lists::views(a.elements@);
    let (had, live) = (s.slews.live@, t.slews.live@);
    if 900 <= id <= 999 {
        b == a && t == s && acts.len() == 0
    } else if verdict is Some {
        &&& b == a && t == s && acts.len() == 1
        &&& acts[0] matches Action::Refuse { who: w, ctx, why } && w == who && ctx is Interact && why
            == verdict->0
    } else {
        &&& b == (Room { elements: b.elements, ..a })
        &&& t == (Sim { slews: t.slews, ..s })
        &&& document::turn_made(doc, id, op, lists::views(b.elements@))
        &&& op is SetSwitch ==> live == had
        &&& op matches InteractOp::SetValue { value } ==> {
            ||| {
                &&& live == had
                &&& forall|i: int| #[trigger]
                    document::found(doc, id, i) ==> !(doc[i].kind is Potentiometer)
            }
            ||| exists|i: int, to: Real| #[trigger]
                document::found(doc, id, i) && #[trigger] document::wiper_to(value, to) && (
                doc[i].kind matches ElementKind::Potentiometer { wiper, .. } && slew::knob_aimed(
                    had,
                    live,
                    id,
                    wiper,
                    to,
                    gap,
                ))
        }
        &&& acts.len() >= 2
        &&& acts[0] matches Action::Interact { id: i, op: o } && i == id && o == op
        &&& acts.last() matches Action::TellOp { id: i, op: o } && i == id && o == op
        &&& (forall|k: int| 0 <= k < live.len() ==> (#[trigger] live[k]).id != id) ==> acts.len() == 2
        &&& forall|k: int| #[trigger]
            lists::first_keyed(live, id, k) ==> acts.len() == 3 && (acts[1] matches Action::Hold {
                write,
            } && write.id == id && write.frac == live[k].now)
    }
}

/// A flip or a turn does to the part it names what it says, and to no other.
pub proof fn law_a_flip_or_a_turn_is_made(
    a: Room,
    b: Room,
    s: Sim,
    t: Sim,
    who: u32,
    id: u32,
    op: InteractOp,
    verdict: Option<Reject>,
    gap: Real,
    acts: Seq<Action>,
)
    requires
        interact_step(a, b, s, t, who, id, op, verdict, gap, acts),
    ensures
        interact_done(a, b, s, t, who, id, op, verdict, gap, acts),
{
    let doc = lists::views(a.elements@);
    let (had, live) = (s.slews.live@, t.slews.live@);
    document::lemma_found(doc, id);
    document::law_a_turn_reaches_one_part(doc, id, op);
    lists::lemma_first_keyed(live, id);
    if !document::reserved(id) && verdict is None {
        if let InteractOp::SetValue { value } = op {
            match document::wiper_in(doc, id) {
                Some(from) => {
                    let to = value.clamped(Real { bits: WIPER_LO }, Real { bits: WIPER_HI });
                    let i = document::part_at(doc, id)->0;
                    slew::law_a_turned_knob_is_aimed(had, id, from, to, gap);
                    assert(document::found(doc, id, i));
                    assert(document::wiper_to(value, to));
                },
                None => {},
            }
        }
        if forall|k: int| 0 <= k < live.len() ==> (#[trigger] live[k]).id != id {
            if let Some(k) = lists::place(live, id) {
                assert(live[k].key() == id);
                assert(live[k].id != id);
            }
        }
    }
}

/// Says of a probe that it is on the part.
pub open spec fn on_part(id: u32) -> spec_fn(Probe) -> bool {
    |p: Probe| p.elem == id
}

/// The probes after a part went: those on it are gone and the others are in their order, each
/// as it was, but that one that measured against the part measures against ground.
pub open spec fn probes_cleared(had: Seq<Probe>, left: Seq<Probe>, id: u32) -> bool {
    exists|kept: Seq<Probe>| #[trigger]
        lists::sifted(had, kept, on_part(id)) && left.len() == kept.len() && forall|j: int|
            0 <= j < kept.len() ==> {
                let (p, q) = (kept[j], #[trigger] left[j]);
                &&& q.pid == p.pid
                &&& q.elem == p.elem
                &&& q.pin == p.pin
                &&& q.kind == p.kind
                &&& p.r matches Some((e, _)) ==> if e == id {
                    q.r is None
                } else {
                    q.r == p.r
                }
                &&& p.r is None ==> q.r is None
            }
}

/// A part that goes takes along the probes that are on it, and no other.
pub proof fn law_probes_go_with_their_part(probes: Seq<Probe>, id: u32)
    ensures
        probes_cleared(probes, probes_without(probes, id), id),
{
    let so = on_part(id);
    let keeps = |p: Probe| p.elem != id;
    lists::lemma_filter_sifts(probes, keeps, so);
    let kept = probes.filter(keeps);
    assert(lists::sifted(probes, kept, so));
    assert forall|j: int| 0 <= j < kept.len() implies probes_without(probes, id)[j] == unreferred(
        #[trigger] kept[j],
        id,
    ) by {}
}

/// An edit was judged. One that is not taken changes nothing; what was refused changes nothing,
/// and whoever asked hears why. Else the edit is made, and nothing else of the document; the
/// solver gets it anew, ratings and all, nothing travels any more, and the room hears of it.
/// Where a part went, its probes go with it, and their channels.
pub open spec fn edit_made(
    a: Room,
    b: Room,
    s: Sim,
    t: Sim,
    who: u32,
    op: DocOp,
    verdict: Option<Reject>,
    acts: Seq<Action>,
) -> bool {
    let doc = lists::views(a.elements@);
    let next = lists::views(b.elements@);
    let probes_told = b.probes@ != a.probes@;
    let scopes_told = lists::views(b.scopes@) != lists::views(a.scopes@);
    if !document::edit_taken(doc, op@) {
        b == a && t == s && acts.len() == 0
    } else if verdict is Some {
        &&& b == a && t == s && acts.len() == 1
        &&& acts[0] matches Action::Refuse { who: w, ctx, why } && w == who && ctx is Edit && why
            == verdict->0
    } else {
        &&& b == (Room {
            elements: b.elements,
            probes: b.probes,
            scopes: b.scopes,
            dirty: true,
            ..a
        })
        &&& document::edit_done(doc, op@, next)
        &&& t == (Sim { sources: t.sources, slews: t.slews, ..s })
        &&& document::feeds(next, t.sources@)
        &&& t.slews.live@.len() == 0
        &&& match op@ {
            Edit::Remove { id } => {
                &&& probes_cleared(a.probes@, b.probes@, id)
                &&& room::shows_only(a.scopes@, b.scopes@, b.probes@)
            },
            _ => b.probes == a.probes && b.scopes == a.scopes,
        }
        &&& acts.len() == 2 + (if probes_told {
            1int
        } else {
            0
        }) + (if scopes_told {
            1int
        } else {
            0
        })
        &&& acts[0] matches Action::Rebuild { ratings } && ratings
        &&& acts.last() matches Action::TellDoc { op: o } && o == op
        &&& probes_told ==> acts[1] is TellProbes
        &&& scopes_told ==> acts[acts.len() - 2] is TellScopes
    }
}

/// An edit that was judged does what it says, and nothing else.
pub proof fn law_an_edit_is_made(
    a: Room,
    b: Room,
    s: Sim,
    t: Sim,
    who: u32,
    op: DocOp,
    verdict: Option<Reject>,
    acts: Seq<Action>,
)
    requires
        edit_step(a, b, s, t, who, op, verdict, acts),
    ensures
        edit_made(a, b, s, t, who, op, verdict, acts),
{
    let doc = lists::views(a.elements@);
    document::law_when_an_edit_is_taken(doc, op@);
    if let Some(next) = document::edited(doc, op@) {
        document::law_an_edit_changes_only_what_it_names(doc, op@, next);
        document::law_sources_feed_energy_in(next);
        if verdict is None {
            if let Edit::Remove { id } = op@ {
                law_probes_go_with_their_part(a.probes@, id);
                room::lemma_shows_only(a.scopes@, b.scopes@, b.probes@);
            }
        }
    }
}

/// A tick's moves of the machine were judged. A move that may not be made changes nothing; what
/// was refused changes nothing, and whoever moved last hears why. Else the footprint's corners
/// go by the move, the hoist's parts go along, the solver gets the document anew, nothing
/// travels any more, and the room hears of the four parts' new pins.
pub open spec fn machine_moved(
    a: Room,
    b: Room,
    s: Sim,
    t: Sim,
    w: Work,
    verdict: Option<Reject>,
    acts: Seq<Action>,
) -> bool {
    let (dx, dy) = (w.pending.0 as int, w.pending.1 as int);
    let (x0, y0) = (s.rect@[0] + dx, s.rect@[1] + dy);
    if !fixture::may_move(s.rect@, dx, dy) {
        b == a && t == s && acts.len() == 0
    } else if verdict is Some {
        &&& b == a && t == s && acts.len() == 1
        &&& acts[0] matches Action::Refuse { who, ctx, why } && who == w.mover && ctx is MachineMove
            && why == verdict->0
    } else {
        &&& b == (Room { elements: b.elements, dirty: true, ..a })
        &&& fixture::hoist_stood(lists::views(a.elements@), x0, y0, lists::views(b.elements@))
        &&& t == (Sim { rect: t.rect, slews: t.slews, ..s })
        &&& t.rect@[0] == x0
        &&& t.rect@[1] == y0
        &&& t.rect@[2] == x0 + 16
        &&& t.rect@[3] == y0 + 15
        &&& t.slews.live@.len() == 0
        &&& acts.len() == 5
        &&& acts[0] matches Action::Rebuild { ratings } && !ratings
        &&& exists|parts: Seq<Part>| #[trigger]
            fixture::terminals_at(parts, x0, y0) && forall|i: int|
                #![trigger parts[i]]
                0 <= i < 4 ==> (acts[i + 1] matches Action::TellDoc { op } && (
                op@ matches Edit::Move { id, pins, rot } && id == parts[i].id && pins == parts[i].pins
                    && rot is None))
    }
}

/// The machine goes where it was moved, and its parts go along.
pub proof fn law_the_machine_goes_where_it_is_moved(
    a: Room,
    b: Room,
    s: Sim,
    t: Sim,
    w: Work,
    verdict: Option<Reject>,
    acts: Seq<Action>,
)
    requires
        move_step(a, b, s, t, w, verdict, acts),
    ensures
        machine_moved(a, b, s, t, w, verdict, acts),
{
    let (dx, dy) = (w.pending.0 as int, w.pending.1 as int);
    let (x0, y0) = (s.rect@[0] + dx, s.rect@[1] + dy);
    fixture::law_when_a_move_is_taken(s.rect@, dx, dy);
    if fixture::may_move(s.rect@, dx, dy) && verdict is None {
        fixture::law_the_hoist_is_stood_up_whole(lists::views(a.elements@), x0, y0);
        fixture::law_the_hoist_is_on_its_footprint(x0, y0);
        fixture::law_a_footprint_is_sixteen_by_fifteen(x0, y0);
        let parts = fixture::hoist_parts(x0, y0);
        assert(fixture::terminals_at(parts, x0, y0));
    }
}

} // verus!
