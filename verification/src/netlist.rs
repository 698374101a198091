//! Which pins a drawing joins: a net is the points that wires lead to from one another.
use vstd::prelude::*;

use crate::parts::{ElementKind, Part, Point};
use crate::sheet::{self, Stroke};

verus! {

/// A stroke as a part. One without a number of its own has none here.
pub open spec fn laid(s: Stroke) -> Part {
    match s {
        Stroke::Skip => Part {
            id: 0,
            kind: ElementKind::Label,
            pins: Seq::empty(),
            name: Seq::empty(),
            tier: 0,
            rot: 0,
        },
        Stroke::Wire { a, b } => Part {
            id: 0,
            kind: ElementKind::Wire,
            pins: seq![a, b],
            name: Seq::empty(),
            tier: 0,
            rot: 0,
        },
        _ => sheet::inked(s, 0)[0],
    }
}

/// Strokes as parts.
pub open spec fn laid_out(strokes: Seq<Stroke>) -> Seq<Part> {
    Seq::new(strokes.len(), |i: int| laid(strokes[i]))
}

/// The part is a wire between the two points.
pub open spec fn leads(w: Part, p: Point, q: Point) -> bool {
    &&& w.kind is Wire
    &&& w.pins.len() == 2
    &&& (w.pins[0] == p && w.pins[1] == q) || (w.pins[0] == q && w.pins[1] == p)
}

/// Some wire leads from the one point to the other.
pub open spec fn linked(doc: Seq<Part>, p: Point, q: Point) -> bool {
    exists|i: int| 0 <= i < doc.len() && leads(#[trigger] doc[i], p, q)
}

/// From each point of the path to the next there is a wire.
pub open spec fn leads_along(doc: Seq<Part>, path: Seq<Point>) -> bool {
    path.len() > 0 && forall|i: int|
        0 <= i < path.len() - 1 ==> linked(doc, #[trigger] path[i], path[i + 1])
}

/// The two points are on one net.
#[verifier::opaque]
pub open spec fn joined(doc: Seq<Part>, p: Point, q: Point) -> bool {
    exists|path: Seq<Point>| #[trigger] leads_along(doc, path) && path[0] == p && path.last() == q
}

/// A part of this number and kind is drawn.
#[verifier::opaque]
pub open spec fn has_part(doc: Seq<Part>, id: u32, kind: ElementKind) -> bool {
    exists|i: int| 0 <= i < doc.len() && (#[trigger] doc[i]).id == id && doc[i].kind == kind
}

/// A pin of the part with this number is on the net of the point.
#[verifier::opaque]
pub open spec fn on_net(doc: Seq<Part>, id: u32, pin: int, p: Point) -> bool {
    exists|i: int|
        0 <= i < doc.len() && (#[trigger] doc[i]).id == id && 0 <= pin < doc[i].pins.len() && joined(
            doc,
            doc[i].pins[pin],
            p,
        )
}

/// There is a ground symbol on the net of the point.
#[verifier::opaque]
pub open spec fn earthed(doc: Seq<Part>, p: Point) -> bool {
    exists|i: int|
        0 <= i < doc.len() && (#[trigger] doc[i]).kind is Ground && doc[i].pins.len() == 1 && joined(
            doc,
            doc[i].pins[0],
            p,
        )
}

/// A ground symbol hangs off the point, turned this way.
#[verifier::opaque]
pub open spec fn has_ground(doc: Seq<Part>, p: Point, rot: u8) -> bool {
    exists|i: int|
        0 <= i < doc.len() && (#[trigger] doc[i]).kind is Ground && doc[i].pins == seq![p]
            && doc[i].rot == rot
}

/// The one drawing stands in the other, from the stroke at `at` on.
#[verifier::opaque]
pub open spec fn placed<A>(all: Seq<A>, at: int, some: Seq<A>) -> bool {
    &&& 0 <= at
    &&& at + some.len() <= all.len()
    &&& forall|i: int| 0 <= i < some.len() ==> #[trigger] some[i] == all[at + i]
}

/// A drawing stands at its own start.
pub proof fn lemma_placed_here<A>(a: Seq<A>)
    ensures
        placed(a, 0, a),
{
    reveal(placed);
}

/// What is drawn later leaves what stands in a drawing where it is.
pub proof fn lemma_placed_before<A>(a: Seq<A>, b: Seq<A>, at: int, c: Seq<A>)
    requires
        placed(a, at, c),
    ensures
        placed(a + b, at, c),
{
    reveal(placed);
    assert forall|i: int| 0 <= i < c.len() implies #[trigger] c[i] == (a + b)[at + i] by {
        assert(c[i] == a[at + i]);
    }
}

/// What is drawn last stands at the end.
pub proof fn lemma_placed_last<A>(a: Seq<A>, b: Seq<A>)
    ensures
        placed(a + b, a.len() as int, b),
{
    reveal(placed);
}

/// What stands in a drawing stands in what that drawing stands in.
pub proof fn lemma_placed_within<A>(a: Seq<A>, at: int, b: Seq<A>, further: int, c: Seq<A>)
    requires
        placed(a, at, b),
        placed(b, further, c),
    ensures
        placed(a, at + further, c),
{
    reveal(placed);
    assert forall|i: int| 0 <= i < c.len() implies #[trigger] c[i] == a[at + further + i] by {
        assert(c[i] == b[further + i]);
        assert(b[further + i] == a[at + (further + i)]);
    }
}

/// A point is on its own net.
pub proof fn lemma_joined_here(doc: Seq<Part>, p: Point)
    ensures
        joined(doc, p, p),
{
    reveal(joined);
    let path = seq![p];
    assert(leads_along(doc, path));
}

/// A wire leads on from a point of a net to another point of it.
pub proof fn lemma_joined_along(doc: Seq<Part>, p: Point, q: Point, r: Point, j: int)
    requires
        joined(doc, p, q),
        0 <= j < doc.len(),
        leads(doc[j], q, r),
    ensures
        joined(doc, p, r),
{
    reveal(joined);
    let path = choose|path: Seq<Point>| #[trigger]
        leads_along(doc, path) && path[0] == p && path.last() == q;
    let more = path.push(r);
    assert forall|i: int| 0 <= i < more.len() - 1 implies linked(doc, #[trigger] more[i], more[i + 1]) by {
        if i < path.len() - 1 {
            assert(more[i] == path[i] && more[i + 1] == path[i + 1]);
        } else {
            assert(more[i] == q && more[i + 1] == r);
            assert(leads(doc[j], q, r));
        }
    }
    assert(leads_along(doc, more));
}

/// A part that is drawn.
pub proof fn lemma_part(doc: Seq<Part>, i: int)
    requires
        0 <= i < doc.len(),
    ensures
        has_part(doc, doc[i].id, doc[i].kind),
{
    reveal(has_part);
}

/// A ground symbol that is drawn.
pub proof fn lemma_ground(doc: Seq<Part>, i: int)
    requires
        0 <= i < doc.len(),
        doc[i].kind is Ground,
        doc[i].pins.len() == 1,
    ensures
        has_ground(doc, doc[i].pins[0], doc[i].rot),
{
    reveal(has_ground);
    assert(doc[i].pins =~= seq![doc[i].pins[0]]);
}

/// A pin of a part is on the net that it stands on.
pub proof fn lemma_pin(doc: Seq<Part>, i: int, id: u32, pin: int)
    requires
        0 <= i < doc.len(),
        doc[i].id == id,
        0 <= pin < doc[i].pins.len(),
    ensures
        on_net(doc, id, pin, doc[i].pins[pin]),
{
    reveal(on_net);
    lemma_joined_here(doc, doc[i].pins[pin]);
}

/// A pin is on a net as far as wires lead.
pub proof fn lemma_pin_along(doc: Seq<Part>, id: u32, pin: int, q: Point, r: Point, j: int)
    requires
        on_net(doc, id, pin, q),
        0 <= j < doc.len(),
        leads(doc[j], q, r),
    ensures
        on_net(doc, id, pin, r),
{
    reveal(on_net);
    let i = choose|i: int|
        0 <= i < doc.len() && (#[trigger] doc[i]).id == id && 0 <= pin < doc[i].pins.len() && joined(
            doc,
            doc[i].pins[pin],
            q,
        );
    lemma_joined_along(doc, doc[i].pins[pin], q, r, j);
    assert(doc[i].id == id);
}

/// A ground symbol is on the net that it stands on.
pub proof fn lemma_earth(doc: Seq<Part>, i: int)
    requires
        0 <= i < doc.len(),
        doc[i].kind is Ground,
        doc[i].pins.len() == 1,
    ensures
        earthed(doc, doc[i].pins[0]),
{
    reveal(earthed);
    lemma_joined_here(doc, doc[i].pins[0]);
}

/// A net is earthed as far as wires lead.
pub proof fn lemma_earth_along(doc: Seq<Part>, q: Point, r: Point, j: int)
    requires
        earthed(doc, q),
        0 <= j < doc.len(),
        leads(doc[j], q, r),
    ensures
        earthed(doc, r),
{
    reveal(earthed);
    let i = choose|i: int|
        0 <= i < doc.len() && (#[trigger] doc[i]).kind is Ground && doc[i].pins.len() == 1 && joined(
            doc,
            doc[i].pins[0],
            q,
        );
    lemma_joined_along(doc, doc[i].pins[0], q, r, j);
    assert(doc[i].kind is Ground);
}

} // verus!
