//! Why passing commands over is safe: what it promises of the commands that stay, and
//! of the document that they leave behind.
use vstd::prelude::*;

use crate::commands::{self, Cmd};
use crate::document::{self, DocOp, Edit, InteractOp};
use crate::parts::Part;

verus! {

/// The places, from the `i`th on, of the commands that stay.
pub open spec fn kept_at(cmds: Seq<Cmd>, i: int) -> Seq<int>
    decreases cmds.len() - i,
{
    if i < 0 || i >= cmds.len() {
        Seq::empty()
    } else if commands::stays(cmds, i) {
        seq![i] + kept_at(cmds, i + 1)
    } else {
        kept_at(cmds, i + 1)
    }
}

proof fn lemma_kept_at(cmds: Seq<Cmd>, i: int)
    requires
        0 <= i <= cmds.len(),
    ensures
        kept_at(cmds, i).len() == commands::staying(cmds, i).len(),
        forall|k: int|
            0 <= k < kept_at(cmds, i).len() ==> i <= #[trigger] kept_at(cmds, i)[k] < cmds.len()
                && commands::staying(cmds, i)[k] == cmds[kept_at(cmds, i)[k]] && commands::stays(
                cmds,
                kept_at(cmds, i)[k],
            ),
        forall|k: int, l: int|
            0 <= k < l < kept_at(cmds, i).len() ==> #[trigger] kept_at(cmds, i)[k]
                < #[trigger] kept_at(cmds, i)[l],
        forall|j: int|
            i <= j < cmds.len() && #[trigger] commands::stays(cmds, j) ==> kept_at(cmds, i).contains(j),
    decreases cmds.len() - i,
{
    if i < cmds.len() {
        lemma_kept_at(cmds, i + 1);
        let rest = kept_at(cmds, i + 1);
        let all = kept_at(cmds, i);
        if commands::stays(cmds, i) {
            assert(all[0] == i);
            assert forall|k: int| 0 <= k < all.len() implies i <= #[trigger] all[k] < cmds.len()
                && commands::staying(cmds, i)[k] == cmds[all[k]] && commands::stays(cmds, all[k]) by {
                if k > 0 {
                    assert(all[k] == rest[k - 1]);
                    assert(commands::staying(cmds, i)[k] == commands::staying(cmds, i + 1)[k - 1]);
                }
            }
            assert forall|k: int, l: int| 0 <= k < l < all.len() implies #[trigger] all[k]
                < #[trigger] all[l] by {
                assert(all[l] == rest[l - 1]);
                if k > 0 {
                    assert(all[k] == rest[k - 1]);
                }
            }
            assert forall|j: int| i <= j < cmds.len() && #[trigger] commands::stays(
                cmds,
                j,
            ) implies all.contains(j) by {
                if j > i {
                    let k = choose|k: int| 0 <= k < rest.len() && rest[k] == j;
                    assert(all[k + 1] == j);
                }
            }
        }
    }
}

/// What stays is a part of what was there, in the same order, and exactly the commands
/// that are due to stay: all that are no absolute write, every write to a part that
/// something else names, and of the other writes those that no later one replaces.
pub proof fn law_only_replaced_writes_go(cmds: Seq<Cmd>)
    ensures
        forall|k: int|
            0 <= k < kept_at(cmds, 0).len() ==> 0 <= #[trigger] kept_at(cmds, 0)[k] < cmds.len()
                && commands::staying(cmds, 0)[k] == cmds[kept_at(cmds, 0)[k]],
        forall|k: int, l: int|
            0 <= k < l < kept_at(cmds, 0).len() ==> #[trigger] kept_at(cmds, 0)[k]
                < #[trigger] kept_at(cmds, 0)[l],
        commands::staying(cmds, 0).len() == kept_at(cmds, 0).len(),
        forall|j: int|
            0 <= j < cmds.len() ==> (kept_at(cmds, 0).contains(j) <==> #[trigger] commands::stays(cmds, j)),
{
    lemma_kept_at(cmds, 0);
    let all = kept_at(cmds, 0);
    assert forall|j: int| 0 <= j < cmds.len() implies (all.contains(j) <==> #[trigger] commands::stays(
        cmds,
        j,
    )) by {
        if all.contains(j) {
            let k = choose|k: int| 0 <= k < all.len() && all[k] == j;
            assert(commands::stays(cmds, all[k]));
        }
    }
}

/// Whatever a tick's commands are, the freshest write of every value is kept.
pub proof fn law_the_last_write_stays(cmds: Seq<Cmd>, i: int)
    requires
        0 <= i < cmds.len(),
        commands::subject_of(cmds[i]) is Some,
        forall|j: int|
            i < j < cmds.len() ==> commands::subject_of(#[trigger] cmds[j]) != commands::subject_of(cmds[i]),
    ensures
        commands::staying(cmds, 0).contains(cmds[i]),
{
    lemma_kept_at(cmds, 0);
    let all = kept_at(cmds, 0);
    assert(commands::stays(cmds, i));
    let k = choose|k: int| 0 <= k < all.len() && all[k] == i;
    assert(commands::staying(cmds, 0)[k] == cmds[i]);
}

/// Passing commands over a second time finds nothing to do.
pub proof fn law_superseding_twice_is_superseding_once(cmds: Seq<Cmd>)
    ensures
        commands::staying(commands::staying(cmds, 0), 0) == commands::staying(cmds, 0),
{
    let r = commands::staying(cmds, 0);
    let at = kept_at(cmds, 0);
    lemma_kept_at(cmds, 0);
    assert forall|k: int| 0 <= k < r.len() implies #[trigger] commands::stays(r, k) by {
        let i = at[k];
        assert(r[k] == cmds[i]);
        assert(commands::stays(cmds, i));
        if let Some((id, slot)) = commands::subject_of(cmds[i]) {
            if commands::held(cmds, id) {
                let j = choose|j: int|
                    0 <= j < cmds.len() && commands::names(#[trigger] cmds[j]) == Some(id) && commands::subject_of(
                        cmds[j],
                    ) is None;
                assert(commands::stays(cmds, j));
                let l = choose|l: int| 0 <= l < at.len() && at[l] == j;
                assert(r[l] == cmds[j]);
                assert(commands::held(r, id));
            } else {
                assert(!commands::replaced(r, k)) by {
                    if commands::replaced(r, k) {
                        let l = choose|l: int|
                            k < l < r.len() && commands::replaces(#[trigger] r[l], r[k]);
                        assert(at[k] < at[l]);
                        assert(r[l] == cmds[at[l]]);
                        assert(commands::replaces(cmds[at[l]], cmds[i]));
                        assert(commands::replaced(cmds, i));
                    }
                }
            }
        }
    }
    lemma_all_stay(r, 0);
    assert(r.skip(0) =~= r);
}

proof fn lemma_all_stay(r: Seq<Cmd>, i: int)
    requires
        0 <= i <= r.len(),
        forall|k: int| 0 <= k < r.len() ==> #[trigger] commands::stays(r, k),
    ensures
        commands::staying(r, i) == r.skip(i),
    decreases r.len() - i,
{
    if i < r.len() {
        lemma_all_stay(r, i + 1);
        assert(commands::stays(r, i));
        assert(r.skip(i) =~= seq![r[i]] + r.skip(i + 1));
    } else {
        assert(r.skip(i) =~= Seq::<Cmd>::empty());
    }
}

/// What one command does to a document that takes it. Fixtures are out of reach.
pub open spec fn effect(doc: Seq<Part>, c: Cmd) -> Seq<Part> {
    match c {
        Cmd::Edit { op, .. } => match document::edited(doc, op@) {
            Some(next) => next,
            None => doc,
        },
        Cmd::Interact { id, op, .. } => if document::reserved(id) {
            doc
        } else {
            document::interacted(doc, id, op)
        },
        _ => doc,
    }
}

/// A document after some commands.
pub open spec fn run(doc: Seq<Part>, cmds: Seq<Cmd>) -> Seq<Part>
    decreases cmds.len(),
{
    if cmds.len() == 0 {
        doc
    } else {
        run(effect(doc, cmds[0]), cmds.drop_first())
    }
}

/// Two parts that a write to this slot makes equal.
spec fn alike(a: Part, b: Part, slot: u8, n: nat, spun: bool) -> bool {
    &&& a.kind.pins() == b.kind.pins()
    &&& if slot == 0 {
        &&& b == (Part { pins: b.pins, rot: b.rot, ..a })
        &&& a.kind.pins() == n
        &&& !spun ==> a.rot == b.rot
    } else if slot == 1 {
        &&& b == (Part { kind: b.kind, ..a })
        &&& forall|v: InteractOp| v is SetValue ==> #[trigger] document::turned(a.kind, v) == document::turned(b.kind, v)
        &&& forall|v: InteractOp|
            v is SetSwitch ==> (#[trigger] document::turned(a.kind, v) == a.kind && document::turned(b.kind, v)
                == b.kind)
    } else {
        &&& b == (Part { kind: b.kind, ..a })
        &&& forall|v: InteractOp|
            v is SetSwitch ==> #[trigger] document::turned(a.kind, v) == document::turned(b.kind, v)
        &&& forall|v: InteractOp|
            v is SetValue ==> (#[trigger] document::turned(a.kind, v) == a.kind && document::turned(b.kind, v)
                == b.kind)
    }
}

/// Two documents that differ in one part at most, which a write to the slot makes equal.
spec fn apart(x: Seq<Part>, y: Seq<Part>, id: u32, slot: u8, n: nat, spun: bool) -> bool {
    match document::part_at(x, id) {
        None => x == y,
        Some(i) => {
            ||| x == y
            ||| {
                &&& y == x.update(i, y[i])
                &&& y[i].id == id
                &&& alike(x[i], y[i], slot, n, spun)
            }
        },
    }
}

/// Filtering and one update that the filter does not see.
proof fn lemma_filter_update(s: Seq<Part>, i: int, b: Part, p: spec_fn(Part) -> bool)
    requires
        0 <= i < s.len(),
        p(s[i]),
        p(b),
    ensures
        ({
            let c = s.take(i).filter(p).len() as int;
            &&& 0 <= c < s.filter(p).len()
            &&& s.filter(p)[c] == s[i]
            &&& s.filter(p).take(c) == s.take(i).filter(p)
            &&& s.update(i, b).filter(p) == s.filter(p).update(c, b)
        }),
    decreases s.len(),
{
    reveal(Seq::filter);
    let d = s.drop_last();
    let c = s.take(i).filter(p).len() as int;
    if i == s.len() - 1 {
        assert(s.take(i) =~= d);
        assert(s.update(i, b).drop_last() =~= d);
        assert(s.filter(p) =~= d.filter(p).push(s[i]));
        assert(s.update(i, b).filter(p) =~= d.filter(p).push(b));
        assert(s.filter(p).take(c) =~= d.filter(p));
        assert(s.filter(p).update(c, b) =~= d.filter(p).push(b));
    } else {
        lemma_filter_update(d, i, b, p);
        assert(d.take(i) =~= s.take(i));
        assert(s.update(i, b).drop_last() =~= d.update(i, b));
        if p(s.last()) {
            assert(s.filter(p) =~= d.filter(p).push(s.last()));
            assert(s.filter(p).take(c) =~= d.filter(p).take(c));
            assert(s.update(i, b).filter(p) =~= s.filter(p).update(c, b));
        }
    }
}

/// Ids do not change where a part is updated under its id.
proof fn lemma_ids_of_update(x: Seq<Part>, i: int, b: Part)
    requires
        0 <= i < x.len(),
        b.id == x[i].id,
    ensures
        document::part_ids(x.update(i, b)) == document::part_ids(x),
{
    assert(document::part_ids(x.update(i, b)) =~= document::part_ids(x));
}

/// A command that names another part leaves two such documents as far apart as they
/// were.
proof fn lemma_other_part(
    x: Seq<Part>,
    y: Seq<Part>,
    c: Cmd,
    id: u32,
    slot: u8,
    n: nat,
    spun: bool,
)
    requires
        apart(x, y, id, slot, n, spun),
        commands::names(c) != Some(id),
    ensures
        apart(effect(x, c), effect(y, c), id, slot, n, spun),
{
    if x != y {
        document::part_ids(x).index_of_first_ensures(id);
        let i = document::part_at(x, id)->0;
        assert(document::part_ids(x)[i] == x[i].id);
        lemma_ids_of_update(x, i, y[i]);
        let b = y[i];
        match c {
            Cmd::Edit { op, .. } => {
                let t = op@.target();
                document::part_ids(x).index_of_first_ensures(t);
                assert(document::part_at(y, t) == document::part_at(x, t));
                match op@ {
                    Edit::Add { part } => {
                        if document::edited(x, op@) is Some {
                            let nx = x.push(part);
                            let ny = y.push(part);
                            assert forall|j: int| 0 <= j < i implies #[trigger] document::part_ids(nx)[j]
                                != id by {
                                assert(document::part_ids(x)[j] != id);
                            }
                            crate::lists::lemma_index_of_first(document::part_ids(nx), id, Some(i));
                            assert(ny =~= nx.update(i, b));
                        }
                    },
                    Edit::Remove { id: t } => {
                        if document::edited(x, op@) is Some {
                            let p = document::not_id(t);
                            lemma_filter_update(x, i, b, p);
                            let k = x.take(i).filter(p).len() as int;
                            let nx = x.filter(p);
                            assert forall|j: int| 0 <= j < k implies #[trigger] document::part_ids(nx)[j]
                                != id by {
                                assert(nx.take(k)[j] == nx[j]);
                                lemma_filter_inside(x.take(i), p, j);
                                let l = choose|l: int|
                                    0 <= l < x.take(i).len() && x.take(i)[l] == nx[j];
                                assert(document::part_ids(x)[l] != id);
                            }
                            crate::lists::lemma_index_of_first(document::part_ids(nx), id, Some(k));
                        }
                    },
                    _ => {
                        if document::edited(x, op@) is Some {
                            let j = document::part_at(x, t)->0;
                            assert(document::part_ids(x)[j] == x[j].id);
                            assert(x[j] == y[j]);
                            let nx = document::edited(x, op@)->0;
                            lemma_ids_of_update(x, j, nx[j]);
                            assert(nx =~= x.update(j, nx[j]));
                            assert(document::edited(y, op@)->0 =~= nx.update(i, b));
                        }
                    },
                }
            },
            Cmd::Interact { id: t, op, .. } => {
                document::part_ids(x).index_of_first_ensures(t);
                if document::part_at(x, t) is Some && !document::reserved(t) {
                    let j = document::part_at(x, t)->0;
                    assert(document::part_ids(x)[j] == x[j].id);
                    let nx = document::interacted(x, t, op);
                    lemma_ids_of_update(x, j, nx[j]);
                    assert(nx =~= x.update(j, nx[j]));
                    assert(document::interacted(y, t, op) =~= nx.update(i, b));
                }
            },
            _ => {},
        }
    }
}

proof fn lemma_filter_inside(s: Seq<Part>, p: spec_fn(Part) -> bool, j: int)
    requires
        0 <= j < s.filter(p).len(),
    ensures
        s.contains(s.filter(p)[j]),
    decreases s.len(),
{
    reveal(Seq::filter);
    let d = s.drop_last();
    if j < d.filter(p).len() {
        lemma_filter_inside(d, p, j);
        let k = choose|k: int| 0 <= k < d.len() && d[k] == d.filter(p)[j];
        assert(s[k] == s.filter(p)[j]);
    } else {
        assert(s[s.len() - 1] == s.filter(p)[j]);
    }
}

/// A write to another slot of the same part leaves two such documents as far apart as
/// they were.
proof fn lemma_other_slot(
    x: Seq<Part>,
    y: Seq<Part>,
    c: Cmd,
    id: u32,
    slot: u8,
    n: nat,
    spun: bool,
)
    requires
        apart(x, y, id, slot, n, spun),
        slot <= 2,
        commands::subject_of(c) is Some,
        commands::names(c) == Some(id),
        commands::subject_of(c) != Some((id, slot)),
    ensures
        apart(effect(x, c), effect(y, c), id, slot, n, spun),
{
    if x != y {
        document::part_ids(x).index_of_first_ensures(id);
        let i = document::part_at(x, id)->0;
        assert(document::part_ids(x)[i] == x[i].id);
        lemma_ids_of_update(x, i, y[i]);
        match c {
            Cmd::Edit { op, .. } => {
                let nx = effect(x, c);
                let ny = effect(y, c);
                if document::edited(x, op@) is Some {
                    lemma_ids_of_update(x, i, nx[i]);
                    assert(nx =~= x.update(i, nx[i]));
                    assert(ny =~= nx.update(i, ny[i]));
                }
            },
            Cmd::Interact { op, .. } => {
                if !document::reserved(id) {
                    let nx = effect(x, c);
                    let ny = effect(y, c);
                    lemma_ids_of_update(x, i, nx[i]);
                    assert(nx =~= x.update(i, nx[i]));
                    assert(ny =~= nx.update(i, ny[i]));
                    assert(document::turned(x[i].kind, op).pins() == x[i].kind.pins());
                    assert(document::turned(y[i].kind, op).pins() == y[i].kind.pins());
                }
            },
            _ => {},
        }
    }
}

/// The write makes two such documents equal.
spec fn settles(c: Cmd, id: u32, slot: u8, n: nat, spun: bool) -> bool {
    &&& commands::subject_of(c) == Some((id, slot))
    &&& c matches Cmd::Edit { op: DocOp::Move { pins, rot, .. }, .. } ==> pins@.len() == n && (
    spun ==> rot is Some) && (rot is Some ==> rot->0 <= 3)
}

/// The later write makes them equal, or leaves them as far apart as they were.
proof fn lemma_same_slot(
    x: Seq<Part>,
    y: Seq<Part>,
    c: Cmd,
    id: u32,
    slot: u8,
    n: nat,
    spun: bool,
)
    requires
        apart(x, y, id, slot, n, spun),
        slot <= 2,
        commands::subject_of(c) == Some((id, slot)),
        !document::reserved(id),
    ensures
        settles(c, id, slot, n, spun) ==> effect(x, c) == effect(y, c),
        apart(effect(x, c), effect(y, c), id, slot, n, spun),
{
    if x != y {
        document::part_ids(x).index_of_first_ensures(id);
        let i = document::part_at(x, id)->0;
        assert(document::part_ids(x)[i] == x[i].id);
        lemma_ids_of_update(x, i, y[i]);
        let nx = effect(x, c);
        let ny = effect(y, c);
        if settles(c, id, slot, n, spun) {
            assert(nx =~= ny);
        } else {
            lemma_ids_of_update(x, i, nx[i]);
            assert(nx =~= x.update(i, nx[i]));
            assert(ny =~= nx.update(i, ny[i]));
        }
    }
}

/// Two such documents end up equal, once a write that settles it has come.
proof fn lemma_walk(
    x: Seq<Part>,
    y: Seq<Part>,
    cmds: Seq<Cmd>,
    id: u32,
    slot: u8,
    n: nat,
    spun: bool,
)
    requires
        apart(x, y, id, slot, n, spun),
        slot <= 2,
        !document::reserved(id),
        !commands::held(cmds, id),
        exists|j: int| 0 <= j < cmds.len() && settles(#[trigger] cmds[j], id, slot, n, spun),
    ensures
        run(x, cmds) == run(y, cmds),
    decreases cmds.len(),
{
    let c = cmds[0];
    let rest = cmds.drop_first();
    if commands::subject_of(c) == Some((id, slot)) {
        lemma_same_slot(x, y, c, id, slot, n, spun);
    } else if commands::names(c) == Some(id) {
        assert(commands::subject_of(c) is Some) by {
            if commands::subject_of(c) is None {
                assert(commands::held(cmds, id));
            }
        }
        lemma_other_slot(x, y, c, id, slot, n, spun);
    } else {
        lemma_other_part(x, y, c, id, slot, n, spun);
    }
    if !settles(c, id, slot, n, spun) {
        let j = choose|j: int| 0 <= j < cmds.len() && settles(#[trigger] cmds[j], id, slot, n, spun);
        assert(rest[j - 1] == cmds[j]);
        assert(!commands::held(rest, id)) by {
            if commands::held(rest, id) {
                let k = choose|k: int|
                    0 <= k < rest.len() && commands::names(#[trigger] rest[k]) == Some(id) && commands::subject_of(
                        rest[k],
                    ) is None;
                assert(cmds[k + 1] == rest[k]);
                assert(commands::held(cmds, id));
            }
        }
        lemma_walk(effect(x, c), effect(y, c), rest, id, slot, n, spun);
    }
}

/// What a write leaves, and what it found, are such documents.
proof fn lemma_write(doc: Seq<Part>, c: Cmd, id: u32, slot: u8)
    requires
        commands::subject_of(c) == Some((id, slot)),
        slot <= 2,
    ensures
        ({
            let n = match c {
                Cmd::Edit { op: DocOp::Move { pins, .. }, .. } => pins@.len(),
                _ => 0,
            };
            let spun = match c {
                Cmd::Edit { op: DocOp::Move { rot, .. }, .. } => rot is Some,
                _ => false,
            };
            apart(effect(doc, c), doc, id, slot, n, spun)
        }),
{
    let next = effect(doc, c);
    document::part_ids(doc).index_of_first_ensures(id);
    if next != doc {
        let i = document::part_at(doc, id)->0;
        assert(document::part_ids(doc)[i] == doc[i].id);
        lemma_ids_of_update(doc, i, next[i]);
        assert(next =~= doc.update(i, next[i]));
        assert(doc =~= next.update(i, doc[i]));
        if next[i].kind == doc[i].kind && slot > 0 {
            assert(next =~= doc);
        }
    }
}

/// Superseding is invisible: whatever the commands are, those that stay leave exactly the
/// document that all of them would have left.
pub proof fn law_superseding_is_invisible(doc: Seq<Part>, cmds: Seq<Cmd>)
    ensures
        run(doc, commands::staying(cmds, 0)) == run(doc, cmds),
{
    lemma_invisible_from(doc, cmds, 0);
    assert(cmds.skip(0) =~= cmds);
}

proof fn lemma_invisible_from(doc: Seq<Part>, cmds: Seq<Cmd>, i: int)
    requires
        0 <= i <= cmds.len(),
    ensures
        run(doc, commands::staying(cmds, i)) == run(doc, cmds.skip(i)),
    decreases cmds.len() - i,
{
    if i < cmds.len() {
        let c = cmds[i];
        let rest = cmds.skip(i + 1);
        assert(cmds.skip(i).drop_first() =~= rest);
        assert(cmds.skip(i)[0] == c);
        if commands::stays(cmds, i) {
            lemma_invisible_from(effect(doc, c), cmds, i + 1);
            assert((seq![c] + commands::staying(cmds, i + 1)).drop_first() =~= commands::staying(cmds, i + 1));
        } else {
            lemma_invisible_from(doc, cmds, i + 1);
            let (id, slot) = commands::subject_of(c)->0;
            if slot == 3 || document::reserved(id) {
                assert(effect(doc, c) == doc);
            } else {
                lemma_write(doc, c, id, slot);
                let n = match c {
                    Cmd::Edit { op: DocOp::Move { pins, .. }, .. } => pins@.len(),
                    _ => 0,
                };
                let spun = match c {
                    Cmd::Edit { op: DocOp::Move { rot, .. }, .. } => rot is Some,
                    _ => false,
                };
                let j = choose|j: int|
                    i < j < cmds.len() && commands::replaces(#[trigger] cmds[j], cmds[i]);
                assert(rest[j - i - 1] == cmds[j]);
                assert(settles(rest[j - i - 1], id, slot, n, spun));
                assert(!commands::held(rest, id)) by {
                    if commands::held(rest, id) {
                        let k = choose|k: int|
                            0 <= k < rest.len() && commands::names(#[trigger] rest[k]) == Some(id)
                                && commands::subject_of(rest[k]) is None;
                        assert(cmds[i + 1 + k] == rest[k]);
                        assert(commands::held(cmds, id));
                    }
                }
                lemma_walk(effect(doc, c), doc, rest, id, slot, n, spun);
            }
        }
    }
}

} // verus!
