//! The commands of one tick, and which of them a later one makes irrelevant.
use vstd::prelude::*;

use crate::document::{DocOp, Edit, InteractOp};
use crate::netlabels::NetLabelOp;
use crate::probes::ProbeKind;
use crate::regions::{LabelBoxOp, LayerOp, PanelOp};
use crate::scopes::ScopeOp;

verus! {

/// What a session asks of its room.
#[derive(Debug)]
pub enum Cmd {
    /// A switch flipped or a knob turned.
    Interact { who: u32, id: u32, op: InteractOp },
    /// A document edit.
    Edit { who: u32, op: DocOp },
    /// A probe put on a pin, or taken off it.
    Probe { elem: u32, pin: usize, kind: ProbeKind },
    /// The point that a probe measures against.
    ProbeRef { pid: u32, elem: u32, pin: usize },
    Panel { op: PanelOp },
    Scope { op: ScopeOp },
    LabelBox { op: LabelBoxOp },
    NetLabel { op: NetLabelOp },
    Layer { op: LayerOp },
    /// The right to drive a sensor layer, taken or given back.
    LayerClaim { who: u32, lid: u32, claim: bool },
    /// One reading from outside: `q` of 65535 parts of full scale.
    Sensor { who: u32, id: u32, q: u16 },
    MachineReset,
    MachineMove { who: u32, dx: i32, dy: i32 },
    Repair { who: u32, id: u32 },
    Join,
    Leave { who: u32 },
    /// The end of the sim task: park, or evict without a checkpoint.
    Stop { checkpoint: bool },
}

/// Which value of which part an absolute write sets: 0 the pins, 1 the value, 2 the
/// switch position, 3 the reading from outside. Nothing for any other command.
pub open spec fn subject_of(c: Cmd) -> Option<(u32, u8)> {
    match c {
        Cmd::Edit { op: DocOp::Move { id, .. }, .. } => Some((id, 0u8)),
        Cmd::Interact { id, op: InteractOp::SetValue { .. }, .. } => Some((id, 1u8)),
        Cmd::Interact { id, op: InteractOp::SetSwitch { .. }, .. } => Some((id, 2u8)),
        Cmd::Sensor { id, .. } => Some((id, 3u8)),
        _ => None,
    }
}

/// The part that a command names.
pub open spec fn names(c: Cmd) -> Option<u32> {
    match c {
        Cmd::Interact { id, .. } => Some(id),
        Cmd::Sensor { id, .. } => Some(id),
        Cmd::Edit { op, .. } => Some(op@.target()),
        Cmd::Repair { id, .. } => Some(id),
        _ => None,
    }
}

/// Something other than an absolute write names the part, so none of its writes may
/// be passed over.
pub open spec fn held(cmds: Seq<Cmd>, id: u32) -> bool {
    exists|i: int|
        0 <= i < cmds.len() && names(#[trigger] cmds[i]) == Some(id) && subject_of(cmds[i]) is None
}

/// The later write makes the earlier one irrelevant: it sets the same value, and leaves
/// nothing of it. A move that keeps the part's orientation does not replace one that turns
/// the part; nor does a move that a part with the other's pins refuses.
pub open spec fn replaces(later: Cmd, earlier: Cmd) -> bool {
    &&& subject_of(earlier) is Some
    &&& subject_of(later) == subject_of(earlier)
    &&& match (earlier, later) {
        (
            Cmd::Edit { op: DocOp::Move { pins: p, rot: q, .. }, .. },
            Cmd::Edit { op: DocOp::Move { pins: r, rot: s, .. }, .. },
        ) => {
            &&& p@.len() == r@.len()
            &&& q is Some ==> s is Some
            &&& s is Some ==> s->0 <= 3
        },
        _ => true,
    }
}

/// A later command replaces this one.
pub open spec fn replaced(cmds: Seq<Cmd>, i: int) -> bool {
    exists|j: int| i < j < cmds.len() && replaces(#[trigger] cmds[j], cmds[i])
}

/// A command that stays: no absolute write, or a write to a part that is held, or one that
/// no later write replaces.
pub open spec fn stays(cmds: Seq<Cmd>, i: int) -> bool {
    match subject_of(cmds[i]) {
        None => true,
        Some((id, _)) => held(cmds, id) || !replaced(cmds, i),
    }
}

/// The commands from the `i`th on that stay, in order.
pub open spec fn staying(cmds: Seq<Cmd>, i: int) -> Seq<Cmd>
    decreases cmds.len() - i,
{
    if i < 0 || i >= cmds.len() {
        Seq::empty()
    } else if stays(cmds, i) {
        seq![cmds[i]] + staying(cmds, i + 1)
    } else {
        staying(cmds, i + 1)
    }
}

/// Which value of which part a command sets.
pub fn subject(c: &Cmd) -> (r: Option<(u32, u8)>)
    ensures
        r == subject_of(*c),
{
    match c {
        Cmd::Edit { op: DocOp::Move { id, .. }, .. } => Some((*id, 0u8)),
        Cmd::Interact { id, op: InteractOp::SetValue { .. }, .. } => Some((*id, 1u8)),
        Cmd::Interact { id, op: InteractOp::SetSwitch { .. }, .. } => Some((*id, 2u8)),
        Cmd::Sensor { id, .. } => Some((*id, 3u8)),
        _ => None,
    }
}

/// The part that a command names.
pub fn touches(c: &Cmd) -> (r: Option<u32>)
    ensures
        r == names(*c),
{
    match c {
        Cmd::Interact { id, .. } => Some(*id),
        Cmd::Sensor { id, .. } => Some(*id),
        Cmd::Edit { op, .. } => Some(crate::document::edit_target(op)),
        Cmd::Repair { id, .. } => Some(*id),
        _ => None,
    }
}

/// Whether the number is in the list.
pub fn in_list(v: &Vec<u32>, x: u32) -> (r: bool)
    ensures
        r == v@.contains(x),
{
    let mut i: usize = 0;
    while i < v.len()
        invariant
            i <= v@.len(),
            forall|k: int| 0 <= k < i ==> #[trigger] v@[k] != x,
        decreases v.len() - i,
    {
        if v[i] == x {
            assert(v@[i as int] == x);
            return true;
        }
        i += 1;
    }
    false
}

/// What decides whether an absolute write replaces another.
#[derive(Clone, Copy)]
struct Write {
    id: u32,
    slot: u8,
    /// The pins that a move carries.
    pins: usize,
    /// A move that turns the part.
    turns: bool,
    /// Not a move to a rotation that there is not.
    good: bool,
}

/// What a command writes.
spec fn writes(c: Cmd) -> Option<Write> {
    match subject_of(c) {
        None => None,
        Some((id, slot)) => match c {
            Cmd::Edit { op: DocOp::Move { pins, rot, .. }, .. } => Some(
                Write {
                    id,
                    slot,
                    pins: pins.len(),
                    turns: rot is Some,
                    good: rot is Some ==> rot->0 <= 3,
                },
            ),
            _ => Some(Write { id, slot, pins: 0, turns: false, good: true }),
        },
    }
}

/// The first write replaces the second where it comes later.
spec fn outdoes(b: Write, a: Write) -> bool {
    b.id == a.id && b.slot == a.slot && b.pins == a.pins && (a.turns ==> b.turns) && b.good
}

/// Some write of these replaces this one.
spec fn outdone(s: Seq<Write>, a: Write) -> bool {
    exists|k: int| 0 <= k < s.len() && outdoes(#[trigger] s[k], a)
}

fn write_of(c: &Cmd) -> (r: Option<Write>)
    ensures
        r == writes(*c),
        r matches Some(w) ==> subject_of(*c) == Some((w.id, w.slot)),
        r is None <==> subject_of(*c) is None,
{
    match c {
        Cmd::Edit { op: DocOp::Move { id, pins, rot }, .. } => {
            let good: bool = match rot {
                Some(r) => *r <= 3,
                None => true,
            };
            Some(Write { id: *id, slot: 0, pins: pins.len(), turns: rot.is_some(), good })
        },
        _ => match subject(c) {
            Some((id, slot)) => Some(Write { id, slot, pins: 0, turns: false, good: true }),
            None => None,
        },
    }
}

/// Whether one of these writes replaces this one.
fn in_writes(v: &Vec<Write>, a: Write) -> (r: bool)
    ensures
        r == outdone(v@, a),
{
    let mut i: usize = 0;
    while i < v.len()
        invariant
            i <= v@.len(),
            forall|k: int| 0 <= k < i ==> !outdoes(#[trigger] v@[k], a),
        decreases v.len() - i,
    {
        let b: Write = v[i];
        if b.id == a.id && b.slot == a.slot && b.pins == a.pins && (!a.turns || b.turns) && b.good {
            assert(outdoes(v@[i as int], a));
            return true;
        }
        i += 1;
    }
    false
}

/// Replacing goes by what the commands write.
proof fn lemma_outdoes(b: Cmd, a: Cmd)
    ensures
        replaces(b, a) <==> writes(a) is Some && writes(b) is Some && outdoes(
            writes(b)->0,
            writes(a)->0,
        ),
{
}

/// The parts that are held.
fn held_ids(cmds: &Vec<Cmd>) -> (r: Vec<u32>)
    ensures
        forall|id: u32| #[trigger] r@.contains(id) == held(cmds@, id),
{
    let mut out: Vec<u32> = Vec::new();
    let mut i: usize = 0;
    while i < cmds.len()
        invariant
            i <= cmds@.len(),
            forall|id: u32| #[trigger]
                out@.contains(id) == exists|k: int|
                    0 <= k < i && names(#[trigger] cmds@[k]) == Some(id) && subject_of(
                        cmds@[k],
                    ) is None,
        decreases cmds.len() - i,
    {
        let ghost before = out@;
        let ghost here = cmds@[i as int];
        if let (Some(id), None) = (touches(&cmds[i]), subject(&cmds[i])) {
            if !in_list(&out, id) {
                out.push(id);
            }
            proof {
                assert forall|x: u32| #[trigger] out@.contains(x) == (before.contains(x) || x
                    == id) by {
                    if before.contains(x) {
                        let k = choose|k: int| 0 <= k < before.len() && before[k] == x;
                        assert(out@[k] == x);
                    }
                    if x == id && !before.contains(x) {
                        assert(out@[before.len() as int] == x);
                    }
                }
            }
        }
        i += 1;
        proof {
            assert forall|x: u32| #[trigger] out@.contains(x) == exists|k: int|
                0 <= k < i && names(#[trigger] cmds@[k]) == Some(x) && subject_of(
                    cmds@[k],
                ) is None by {
                let fresh = names(here) == Some(x) && subject_of(here) is None;
                assert(out@.contains(x) == (before.contains(x) || fresh));
                if fresh {
                    assert(names(cmds@[i - 1]) == Some(x));
                }
                if before.contains(x) {
                    let k = choose|k: int|
                        0 <= k < i - 1 && names(#[trigger] cmds@[k]) == Some(x) && subject_of(
                            cmds@[k],
                        ) is None;
                    assert(names(cmds@[k]) == Some(x));
                }
            }
        }
    }
    out
}

/// Whether a write is replaced, by those behind it.
proof fn lemma_replaced(all: Seq<Cmd>, n: int, w: Write, again: bool)
    requires
        0 < n <= all.len(),
        writes(all[n - 1]) == Some(w),
        again == exists|j: int|
            n <= j < all.len() && writes(#[trigger] all[j]) is Some && outdoes(
                writes(all[j])->0,
                w,
            ),
    ensures
        again == replaced(all, n - 1),
{
    if again {
        let j = choose|j: int|
            n <= j < all.len() && writes(#[trigger] all[j]) is Some && outdoes(
                writes(all[j])->0,
                w,
            );
        lemma_outdoes(all[j], all[n - 1]);
        assert(replaces(all[j], all[n - 1]));
    }
    if replaced(all, n - 1) {
        let j = choose|j: int| n - 1 < j < all.len() && replaces(#[trigger] all[j], all[n - 1]);
        lemma_outdoes(all[j], all[n - 1]);
        assert(writes(all[j]) is Some);
    }
}

/// The writes that were met, with one more command: it is among them, or one of them
/// replaces it, or it writes nothing.
proof fn lemma_met(all: Seq<Cmd>, n: int, seen: Seq<Write>, later: Seq<Write>, again: bool)
    requires
        0 < n <= all.len(),
        forall|a: Write| #[trigger]
            outdone(seen, a) == exists|j: int|
                n <= j < all.len() && writes(#[trigger] all[j]) is Some && outdoes(
                    writes(all[j])->0,
                    a,
                ),
        again ==> later == seen && (writes(all[n - 1]) matches Some(w) ==> outdone(seen, w)),
        !again ==> writes(all[n - 1]) is Some && later == seen.push(writes(all[n - 1])->0),
    ensures
        forall|a: Write| #[trigger]
            outdone(later, a) == exists|j: int|
                n - 1 <= j < all.len() && writes(#[trigger] all[j]) is Some && outdoes(
                    writes(all[j])->0,
                    a,
                ),
{
    assert forall|a: Write| #[trigger]
        outdone(later, a) == exists|j: int|
            n - 1 <= j < all.len() && writes(#[trigger] all[j]) is Some && outdoes(
                writes(all[j])->0,
                a,
            ) by {
        let here = writes(all[n - 1]) is Some && outdoes(writes(all[n - 1])->0, a);
        assert(outdone(later, a) == (outdone(seen, a) || here)) by {
            if outdone(seen, a) {
                let k = choose|k: int| 0 <= k < seen.len() && outdoes(#[trigger] seen[k], a);
                assert(outdoes(later[k], a));
            }
            if here {
                if again {
                    let w = writes(all[n - 1])->0;
                    let k = choose|k: int| 0 <= k < seen.len() && outdoes(#[trigger] seen[k], w);
                    assert(outdoes(seen[k], a));
                } else {
                    assert(outdoes(later[seen.len() as int], a));
                }
            }
            if outdone(later, a) && !here {
                let k = choose|k: int| 0 <= k < later.len() && outdoes(#[trigger] later[k], a);
                assert(k < seen.len());
                assert(outdoes(seen[k], a));
            }
        }
        if outdone(seen, a) {
            let j = choose|j: int|
                n <= j < all.len() && writes(#[trigger] all[j]) is Some && outdoes(
                    writes(all[j])->0,
                    a,
                );
            assert(writes(all[j]) is Some);
        }
    }
}

/// Drops the commands that a later one of the same tick makes irrelevant, so that a
/// drag is judged once, where it ended. Everything else stays, in order.
pub fn supersede(cmds: &mut Vec<Cmd>)
    ensures
        final(cmds)@ == staying(old(cmds)@, 0),
{
    let ghost all = cmds@;
    let fast: Vec<u32> = held_ids(cmds);
    // Backwards: whatever replaces a write has been met before it.
    let mut later: Vec<Write> = Vec::new();
    let mut kept: Vec<Cmd> = Vec::new();
    assert(kept@ =~= staying(all, all.len() as int).reverse());
    while cmds.len() > 0
        invariant
            cmds@.len() <= all.len(),
            cmds@ == all.take(cmds@.len() as int),
            kept@ == staying(all, cmds@.len() as int).reverse(),
            forall|id: u32| #[trigger] fast@.contains(id) == held(all, id),
            forall|a: Write| #[trigger]
                outdone(later@, a) == exists|j: int|
                    cmds@.len() <= j < all.len() && writes(#[trigger] all[j]) is Some && outdoes(
                        writes(all[j])->0,
                        a,
                    ),
        decreases cmds.len(),
    {
        let ghost n = cmds@.len() as int;
        let ghost seen = later@;
        let last: Option<Cmd> = cmds.pop();
        if let Some(c) = last {
            assert(c == all[n - 1]);
            assert(cmds@ =~= all.take(n - 1));
            let stay: bool = match write_of(&c) {
                None => true,
                Some(w) => {
                    let again: bool = in_writes(&later, w);
                    proof {
                        lemma_replaced(all, n, w, again);
                    }
                    if !again {
                        later.push(w);
                    }
                    proof {
                        lemma_met(all, n, seen, later@, again);
                    }
                    in_list(&fast, w.id) || !again
                },
            };
            proof {
                assert(stay == stays(all, n - 1));
                if writes(c) is None {
                    lemma_met(all, n, seen, later@, true);
                }
            }
            if stay {
                kept.push(c);
                proof {
                    assert((seq![c] + staying(all, n)).reverse() =~= staying(
                        all,
                        n,
                    ).reverse().push(c));
                }
            }
        }
    }
    let ghost result = staying(all, 0);
    assert(result.take(0) =~= Seq::<Cmd>::empty());
    assert(result.skip(0).reverse() =~= result.reverse());
    while kept.len() > 0
        invariant
            kept@.len() <= result.len(),
            cmds@ == result.take(result.len() - kept@.len()),
            kept@ == result.skip(result.len() - kept@.len()).reverse(),
        decreases kept.len(),
    {
        let ghost d = result.len() - kept@.len();
        let c: Option<Cmd> = kept.pop();
        if let Some(c) = c {
            assert(c == result[d]);
            cmds.push(c);
            proof {
                assert(cmds@ =~= result.take(d + 1));
                assert(kept@ =~= result.skip(d + 1).reverse());
            }
        }
    }
    assert(result.take(result.len() as int) =~= result);
}

/// When a write replaces another: both turn the same part, both flip the same part, both are
/// readings of the same part; or both move the same part, with as many pins, to a rotation that
/// there is, and the later one turns the part where the earlier one did. No other command
/// replaces another.
pub proof fn law_a_write_is_replaced_by_its_like(later: Cmd, earlier: Cmd)
    ensures
        replaces(later, earlier) <==> match (earlier, later) {
            (
                Cmd::Interact { id: i, op: InteractOp::SetValue { .. }, .. },
                Cmd::Interact { id: j, op: InteractOp::SetValue { .. }, .. },
            ) => i == j,
            (
                Cmd::Interact { id: i, op: InteractOp::SetSwitch { .. }, .. },
                Cmd::Interact { id: j, op: InteractOp::SetSwitch { .. }, .. },
            ) => i == j,
            (Cmd::Sensor { id: i, .. }, Cmd::Sensor { id: j, .. }) => i == j,
            (
                Cmd::Edit { op: DocOp::Move { id: i, pins: p, rot: q }, .. },
                Cmd::Edit { op: DocOp::Move { id: j, pins: r, rot: s }, .. },
            ) => {
                &&& i == j
                &&& p@.len() == r@.len()
                &&& q is Some ==> s is Some
                &&& s matches Some(n) ==> n < 4
            },
            _ => false,
        },
{
}

/// The command changes the part in some other way than by setting a value of it anew: it adds
/// it, removes it, changes its kind or its name, or repairs it.
pub open spec fn reworks(c: Cmd, id: u32) -> bool {
    match c {
        Cmd::Edit { op, .. } => match op@ {
            Edit::Add { part } => part.id == id,
            Edit::Remove { id: i } => i == id,
            Edit::SetKind { id: i, .. } => i == id,
            Edit::SetName { id: i, .. } => i == id,
            Edit::Move { .. } => false,
        },
        Cmd::Repair { id: i, .. } => i == id,
        _ => false,
    }
}

/// No write to a part is passed over in a tick in which the part is reworked.
pub proof fn law_what_holds_a_part(cmds: Seq<Cmd>, id: u32)
    ensures
        held(cmds, id) <==> exists|i: int| 0 <= i < cmds.len() && reworks(#[trigger] cmds[i], id),
{
    assert forall|i: int| 0 <= i < cmds.len() implies reworks(#[trigger] cmds[i], id) == (names(
        cmds[i],
    ) == Some(id) && subject_of(cmds[i]) is None) by {
        if let Cmd::Edit { op, .. } = cmds[i] {
            assert((op is Move) == (op@ is Move));
        }
    }
    if held(cmds, id) {
        let i = choose|i: int|
            0 <= i < cmds.len() && names(#[trigger] cmds[i]) == Some(id) && subject_of(cmds[i]) is None;
        assert(reworks(cmds[i], id));
    }
    if exists|i: int| 0 <= i < cmds.len() && reworks(#[trigger] cmds[i], id) {
        let i = choose|i: int| 0 <= i < cmds.len() && reworks(#[trigger] cmds[i], id);
        assert(names(cmds[i]) == Some(id) && subject_of(cmds[i]) is None);
    }
}

/// The command sets a value of this part.
pub open spec fn writes_to(c: Cmd, id: u32) -> bool {
    match c {
        Cmd::Interact { id: i, .. } => i == id,
        Cmd::Sensor { id: i, .. } => i == id,
        Cmd::Edit { op: DocOp::Move { id: i, .. }, .. } => i == id,
        _ => false,
    }
}

/// A command is passed over exactly where a later one replaces it and nothing in the tick
/// reworks the part that it writes to.
pub proof fn law_what_is_passed_over(cmds: Seq<Cmd>, i: int, id: u32)
    requires
        0 <= i < cmds.len(),
    ensures
        writes_to(cmds[i], id) ==> (!stays(cmds, i) <==> {
            &&& exists|j: int| i < j < cmds.len() && replaces(#[trigger] cmds[j], cmds[i])
            &&& forall|j: int| 0 <= j < cmds.len() ==> !reworks(#[trigger] cmds[j], id)
        }),
        (forall|k: u32| !writes_to(cmds[i], k)) ==> stays(cmds, i),
{
    law_what_holds_a_part(cmds, id);
    if let Some((k, _)) = subject_of(cmds[i]) {
        assert(writes_to(cmds[i], k));
    }
}

} // verus!
