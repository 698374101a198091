//! A schematic as a list of strokes, and the parts that it comes to.
//!
//! A stroke is a part, a straight wire or a ground symbol. Parts keep the numbers that
//! they are drawn with; wires and ground symbols are numbered as they come.
use vstd::prelude::*;

use crate::lists;
use crate::parts::{self, ElementKind, ElementSpec, Part, Point};

verus! {

/// A ground symbol that hangs down, as it stands in a part.
pub const DOWN: u8 = 0;

/// A ground symbol that points to the left.
pub const LEFT: u8 = 1;

/// A ground symbol that stands up.
pub const UP: u8 = 2;

/// A ground symbol that points to the right.
pub const RIGHT: u8 = 3;

/// The way that a part faces: from its first pins to its last.
#[derive(Clone, Copy, Debug, PartialEq, Eq, Structural)]
pub enum Facing {
    East,
    North,
    South,
    West,
}

/// One thing drawn on a sheet.
#[derive(Clone, Copy, Debug)]
pub enum Stroke {
    /// A part between two points.
    Two { id: u32, kind: ElementKind, a: Point, b: Point },
    /// A part with more pins, in its own shape: anchored, turned and maybe mirrored.
    Placed { id: u32, kind: ElementKind, at: Point, facing: Facing, len: i32, mirror: bool },
    /// A wire with the next number. One of no length is not drawn.
    Wire { a: Point, b: Point },
    /// A wire with a number of its own.
    WireAs { id: u32, a: Point, b: Point },
    /// A ground symbol with the next number.
    Ground { at: Point, dir: u8 },
    /// A ground symbol with a number of its own.
    GroundAs { id: u32, at: Point, dir: u8 },
    /// A number that is passed over.
    Skip,
}

/// A point of the grid.
pub open spec fn at(x: int, y: int) -> Point {
    (x as i32, y as i32)
}

/// A point moved.
pub open spec fn shifted(a: Point, dx: int, dy: int) -> Point {
    ((a.0 + dx) as i32, (a.1 + dy) as i32)
}

/// The point that many steps from this one is on the grid.
pub open spec fn reaches(a: Point, dx: int, dy: int) -> bool {
    i32::MIN <= a.0 + dx <= i32::MAX && i32::MIN <= a.1 + dy <= i32::MAX
}

/// The rectangle between two corners, each given by its steps from this point, is on the
/// grid.
pub open spec fn spans(a: Point, x0: int, y0: int, x1: int, y1: int) -> bool {
    reaches(a, x0, y0) && reaches(a, x1, y1)
}

/// A point moved.
pub fn shift(a: Point, dx: i32, dy: i32) -> (p: Point)
    requires
        reaches(a, dx as int, dy as int),
    ensures
        p == shifted(a, dx as int, dy as int),
{
    (a.0 + dx, a.1 + dy)
}

/// A step along a part and a step across it, on the sheet.
pub open spec fn turned(facing: Facing, mirror: bool, along: int, across: int) -> (int, int) {
    let c = if mirror {
        -across
    } else {
        across
    };
    match facing {
        Facing::East => (along, c),
        Facing::North => (c, -along),
        Facing::South => (-c, along),
        Facing::West => (-along, -c),
    }
}

/// The place of a pin in a part's own shape: how far along it and how far across.
pub open spec fn in_shape(kind: ElementKind, len: int, pin: int) -> (int, int) {
    match kind {
        ElementKind::Potentiometer { .. } => if pin == 0 {
            (0, 0)
        } else if pin == 1 {
            (len / 2, -2)
        } else {
            (len, 0)
        },
        ElementKind::Npn { .. } => three_legs(len, pin),
        ElementKind::Nmos { .. } => three_legs(len, pin),
        ElementKind::OpAmp { .. } => amplifier(len, pin),
        ElementKind::Ota => if pin == 3 {
            (len - 1, -2)
        } else {
            amplifier(len, pin)
        },
        ElementKind::Timer555 => if pin == 0 {
            (0, 0)
        } else if pin == 1 {
            (0, 4)
        } else if pin == 2 {
            (0, 1)
        } else if pin == 3 {
            (0, 3)
        } else if pin == 4 {
            (len, 3)
        } else {
            (len, 1)
        },
        _ => (len * pin, 0),
    }
}

/// A transistor: its control pin, and the two ends of what it controls.
pub open spec fn three_legs(len: int, pin: int) -> (int, int) {
    if pin == 0 {
        (0, 0)
    } else if pin == 1 {
        (len, -2)
    } else {
        (len, 2)
    }
}

/// An amplifier: its two inputs and its output.
pub open spec fn amplifier(len: int, pin: int) -> (int, int) {
    if pin == 0 {
        (0, -1)
    } else if pin == 1 {
        (0, 1)
    } else {
        (len, 0)
    }
}

/// The steps from a placed part's anchor to a pin of it.
pub open spec fn pin_step(kind: ElementKind, facing: Facing, len: int, mirror: bool, pin: int) -> (
    int,
    int,
) {
    let (along, across) = in_shape(kind, len, pin);
    turned(facing, mirror, along, across)
}

/// The place of a pin of a placed part.
pub open spec fn pin_at(
    kind: ElementKind,
    at: Point,
    facing: Facing,
    len: int,
    mirror: bool,
    pin: int,
) -> Point {
    let (dx, dy) = pin_step(kind, facing, len, mirror, pin);
    shifted(at, dx, dy)
}

/// The pins of a placed part.
pub open spec fn pins_at(
    kind: ElementKind,
    at: Point,
    facing: Facing,
    len: int,
    mirror: bool,
) -> Seq<Point> {
    Seq::new(kind.pins(), |k: int| pin_at(kind, at, facing, len, mirror, k))
}

/// The part can be placed there: its length is one, and its pins are on the grid.
pub open spec fn placeable(kind: ElementKind, at: Point, facing: Facing, len: int, mirror: bool) -> bool {
    &&& 0 <= len
    &&& forall|k: int|
        0 <= k < kind.pins() ==> {
            let (dx, dy) = #[trigger] pin_step(kind, facing, len, mirror, k);
            reaches(at, dx, dy)
        }
}

/// The stroke can be drawn.
pub open spec fn drawable(s: Stroke) -> bool {
    match s {
        Stroke::Placed { kind, at, facing, len, mirror, .. } => placeable(
            kind,
            at,
            facing,
            len as int,
            mirror,
        ),
        _ => true,
    }
}

/// The parts of a stroke, where the next number is `next`.
pub open spec fn inked(s: Stroke, next: u32) -> Seq<Part> {
    match s {
        Stroke::Two { id, kind, a, b } => seq![parts::plain(id, kind, seq![a, b])],
        Stroke::Placed { id, kind, at, facing, len, mirror } => seq![
            parts::plain(id, kind, pins_at(kind, at, facing, len as int, mirror)),
        ],
        Stroke::Wire { a, b } => if a == b {
            Seq::empty()
        } else {
            seq![parts::plain(next, ElementKind::Wire, seq![a, b])]
        },
        Stroke::WireAs { id, a, b } => seq![parts::plain(id, ElementKind::Wire, seq![a, b])],
        Stroke::Ground { at, dir } => seq![
            Part { rot: dir, ..parts::plain(next, ElementKind::Ground, seq![at]) },
        ],
        Stroke::GroundAs { id, at, dir } => seq![
            Part { rot: dir, ..parts::plain(id, ElementKind::Ground, seq![at]) },
        ],
        Stroke::Skip => Seq::empty(),
    }
}

/// Whether a stroke takes a number.
pub open spec fn takes_number(s: Stroke) -> bool {
    match s {
        Stroke::Wire { a, b } => a != b,
        Stroke::Ground { .. } => true,
        Stroke::Skip => true,
        _ => false,
    }
}

/// The next number after the first `n` strokes.
pub open spec fn numbered_to(strokes: Seq<Stroke>, first: int, n: int) -> int
    decreases n,
{
    if n <= 0 {
        first
    } else {
        numbered_to(strokes, first, n - 1) + if takes_number(strokes[n - 1]) {
            1int
        } else {
            0
        }
    }
}

/// The parts of the first `n` strokes.
pub open spec fn drawn(strokes: Seq<Stroke>, first: int, n: int) -> Seq<Part>
    decreases n,
{
    if n <= 0 {
        Seq::empty()
    } else {
        drawn(strokes, first, n - 1) + inked(
            strokes[n - 1],
            numbered_to(strokes, first, n - 1) as u32,
        )
    }
}

/// The parts that a list of strokes comes to.
pub open spec fn picture(strokes: Seq<Stroke>, first: u32) -> Seq<Part> {
    drawn(strokes, first as int, strokes.len() as int)
}

/// A sheet that is being drawn on.
pub struct Sheet {
    pub strokes: Vec<Stroke>,
}

impl Sheet {
    /// Everything on the sheet can be drawn.
    pub open spec fn wf(&self) -> bool {
        forall|i: int| 0 <= i < self.strokes@.len() ==> drawable(#[trigger] self.strokes@[i])
    }

    /// An empty sheet.
    pub fn new() -> (s: Sheet)
        ensures
            s.wf(),
            s.strokes@ == Seq::<Stroke>::empty(),
    {
        Sheet { strokes: Vec::new() }
    }

    /// Draws a part between two points.
    pub fn two(&mut self, id: u32, kind: ElementKind, a: Point, b: Point)
        requires
            old(self).wf(),
        ensures
            final(self).wf(),
            final(self).strokes@ == old(self).strokes@.push(Stroke::Two { id, kind, a, b }),
    {
        self.strokes.push(Stroke::Two { id, kind, a, b });
    }

    /// Draws a part in its own shape, and tells where its pins are.
    pub fn part(
        &mut self,
        id: u32,
        kind: ElementKind,
        at: Point,
        facing: Facing,
        len: i32,
        mirror: bool,
    ) -> (pins: Vec<Point>)
        requires
            old(self).wf(),
            placeable(kind, at, facing, len as int, mirror),
        ensures
            final(self).wf(),
            final(self).strokes@ == old(self).strokes@.push(
                Stroke::Placed { id, kind, at, facing, len, mirror },
            ),
            pins@ == pins_at(kind, at, facing, len as int, mirror),
    {
        self.strokes.push(Stroke::Placed { id, kind, at, facing, len, mirror });
        pins_of(kind, at, facing, len, mirror)
    }

    /// Draws a wire.
    pub fn wire(&mut self, a: Point, b: Point)
        requires
            old(self).wf(),
        ensures
            final(self).wf(),
            final(self).strokes@ == old(self).strokes@.push(Stroke::Wire { a, b }),
    {
        self.strokes.push(Stroke::Wire { a, b });
    }

    /// Draws a wire with a number of its own.
    pub fn wire_as(&mut self, id: u32, a: Point, b: Point)
        requires
            old(self).wf(),
        ensures
            final(self).wf(),
            final(self).strokes@ == old(self).strokes@.push(Stroke::WireAs { id, a, b }),
    {
        self.strokes.push(Stroke::WireAs { id, a, b });
    }

    /// Draws a ground symbol.
    pub fn ground(&mut self, at: Point, dir: u8)
        requires
            old(self).wf(),
        ensures
            final(self).wf(),
            final(self).strokes@ == old(self).strokes@.push(Stroke::Ground { at, dir }),
    {
        self.strokes.push(Stroke::Ground { at, dir });
    }

    /// Draws a ground symbol with a number of its own.
    pub fn ground_as(&mut self, id: u32, at: Point, dir: u8)
        requires
            old(self).wf(),
        ensures
            final(self).wf(),
            final(self).strokes@ == old(self).strokes@.push(Stroke::GroundAs { id, at, dir }),
    {
        self.strokes.push(Stroke::GroundAs { id, at, dir });
    }

    /// Passes over a number.
    pub fn skip(&mut self)
        requires
            old(self).wf(),
        ensures
            final(self).wf(),
            final(self).strokes@ == old(self).strokes@.push(Stroke::Skip),
    {
        self.strokes.push(Stroke::Skip);
    }

    /// The parts on the sheet; wires and ground symbols are numbered from `first` on.
    pub fn finish(&self, first: u32) -> (r: Vec<ElementSpec>)
        requires
            self.wf(),
            numbered_to(self.strokes@, first as int, self.strokes@.len() as int) <= u32::MAX,
        ensures
            lists::views(r@) == picture(self.strokes@, first),
    {
        let ghost all = self.strokes@;
        let mut out: Vec<ElementSpec> = Vec::new();
        let mut next: u32 = first;
        let mut i: usize = 0;
        assert(lists::views(out@) =~= Seq::<Part>::empty());
        while i < self.strokes.len()
            invariant
                i <= self.strokes@.len(),
                all == self.strokes@,
                self.wf(),
                numbered_to(all, first as int, all.len() as int) <= u32::MAX,
                next == numbered_to(all, first as int, i as int),
                lists::views(out@) == drawn(all, first as int, i as int),
            decreases self.strokes.len() - i,
        {
            let s: Stroke = self.strokes[i];
            let ghost had = out@;
            let ghost used = next;
            proof {
                lemma_numbers_only_grow(all, first as int, i + 1, all.len() as int);
            }
            match s {
                Stroke::Two { id, kind, a, b } => {
                    out.push(ElementSpec::two(id, kind, a, b));
                },
                Stroke::Placed { id, kind, at, facing, len, mirror } => {
                    assert(drawable(all[i as int]));
                    out.push(ElementSpec::new(id, kind, pins_of(kind, at, facing, len, mirror)));
                },
                Stroke::Wire { a, b } => {
                    if a.0 != b.0 || a.1 != b.1 {
                        out.push(ElementSpec::two(next, ElementKind::Wire, a, b));
                        next += 1;
                    }
                },
                Stroke::WireAs { id, a, b } => {
                    out.push(ElementSpec::two(id, ElementKind::Wire, a, b));
                },
                Stroke::Ground { at, dir } => {
                    let mut e: ElementSpec = ElementSpec::one(next, ElementKind::Ground, at);
                    e.rot = dir;
                    out.push(e);
                    next += 1;
                },
                Stroke::GroundAs { id, at, dir } => {
                    let mut e: ElementSpec = ElementSpec::one(id, ElementKind::Ground, at);
                    e.rot = dir;
                    out.push(e);
                },
                Stroke::Skip => {
                    next += 1;
                },
            }
            proof {
                assert(lists::views(out@) =~= lists::views(had) + inked(s, used));
            }
            i += 1;
        }
        out
    }
}

/// Where the pins of a placed part are.
pub fn pins_of(kind: ElementKind, at: Point, facing: Facing, len: i32, mirror: bool) -> (pins: Vec<
    Point,
>)
    requires
        placeable(kind, at, facing, len as int, mirror),
    ensures
        pins@ == pins_at(kind, at, facing, len as int, mirror),
{
    let n: usize = kind.pin_count();
    assert(n <= 255);
    let mut out: Vec<Point> = Vec::new();
    let mut k: usize = 0;
    while k < n
        invariant
            k <= n <= 255,
            n == kind.pins(),
            placeable(kind, at, facing, len as int, mirror),
            out@ == pins_at(kind, at, facing, len as int, mirror).take(k as int),
        decreases n - k,
    {
        let (along, across): (i64, i64) = shape_of(kind, len, k);
        let c: i64 = if mirror {
            -across
        } else {
            across
        };
        let (dx, dy): (i64, i64) = match facing {
            Facing::East => (along, c),
            Facing::North => (c, -along),
            Facing::South => (-c, along),
            Facing::West => (-along, -c),
        };
        proof {
            assert(pin_step(kind, facing, len as int, mirror, k as int) == (dx as int, dy as int));
        }
        let p: Point = ((at.0 as i64 + dx) as i32, (at.1 as i64 + dy) as i32);
        out.push(p);
        proof {
            let all = pins_at(kind, at, facing, len as int, mirror);
            assert(p == all[k as int]);
            assert(all.take(k + 1) =~= all.take(k as int).push(p));
        }
        k += 1;
    }
    proof {
        let all = pins_at(kind, at, facing, len as int, mirror);
        assert(all.take(all.len() as int) =~= all);
    }
    out
}

/// The place of a pin in a part's own shape.
fn shape_of(kind: ElementKind, len: i32, pin: usize) -> (r: (i64, i64))
    requires
        0 <= len,
        pin < 255,
    ensures
        (r.0 as int, r.1 as int) == in_shape(kind, len as int, pin as int),
        -255 * i32::MAX <= r.0 <= 255 * i32::MAX,
        -4 <= r.1 <= 4,
{
    let len: i64 = len as i64;
    match kind {
        ElementKind::Potentiometer { .. } => if pin == 0 {
            (0, 0)
        } else if pin == 1 {
            (len / 2, -2)
        } else {
            (len, 0)
        },
        ElementKind::Npn { .. } => legs_of(len, pin),
        ElementKind::Nmos { .. } => legs_of(len, pin),
        ElementKind::OpAmp { .. } => amplifier_of(len, pin),
        ElementKind::Ota => if pin == 3 {
            (len - 1, -2)
        } else {
            amplifier_of(len, pin)
        },
        ElementKind::Timer555 => if pin == 0 {
            (0, 0)
        } else if pin == 1 {
            (0, 4)
        } else if pin == 2 {
            (0, 1)
        } else if pin == 3 {
            (0, 3)
        } else if pin == 4 {
            (len, 3)
        } else {
            (len, 1)
        },
        _ => {
            let k: i64 = pin as i64;
            assert(0 <= len * k <= 255 * i32::MAX) by (nonlinear_arith)
                requires
                    0 <= len <= i32::MAX,
                    0 <= k < 255,
            ;
            (len * k, 0)
        },
    }
}

fn legs_of(len: i64, pin: usize) -> (r: (i64, i64))
    ensures
        (r.0 as int, r.1 as int) == three_legs(len as int, pin as int),
{
    if pin == 0 {
        (0, 0)
    } else if pin == 1 {
        (len, -2)
    } else {
        (len, 2)
    }
}

fn amplifier_of(len: i64, pin: usize) -> (r: (i64, i64))
    ensures
        (r.0 as int, r.1 as int) == amplifier(len as int, pin as int),
{
    if pin == 0 {
        (0, -1)
    } else if pin == 1 {
        (0, 1)
    } else {
        (len, 0)
    }
}

/// The number that a stroke brings along, if it brings one.
pub open spec fn own_id(s: Stroke) -> Option<u32> {
    match s {
        Stroke::Two { id, .. } => Some(id),
        Stroke::Placed { id, .. } => Some(id),
        Stroke::WireAs { id, .. } => Some(id),
        Stroke::GroundAs { id, .. } => Some(id),
        _ => None,
    }
}

/// No two strokes bring the same number.
pub open spec fn named_apart(strokes: Seq<Stroke>) -> bool {
    forall|i: int, j: int|
        0 <= i < j < strokes.len() && own_id(#[trigger] strokes[i]) is Some ==> own_id(strokes[i])
            != own_id(#[trigger] strokes[j])
}

/// The wire, if it is one, runs along a row or a column.
pub open spec fn straight(s: Stroke) -> bool {
    match s {
        Stroke::Wire { a, b } => a.0 == b.0 || a.1 == b.1,
        Stroke::WireAs { a, b, .. } => a.0 == b.0 || a.1 == b.1,
        _ => true,
    }
}

/// Every wire runs along a row or a column.
pub open spec fn all_straight(strokes: Seq<Stroke>) -> bool {
    forall|i: int| 0 <= i < strokes.len() ==> straight(#[trigger] strokes[i])
}

proof fn lemma_numbers_only_grow(strokes: Seq<Stroke>, first: int, m: int, n: int)
    requires
        0 <= m <= n <= strokes.len(),
    ensures
        numbered_to(strokes, first, m) <= numbered_to(strokes, first, n),
    decreases n,
{
    if m < n {
        lemma_numbers_only_grow(strokes, first, m, n - 1);
    }
}

/// The numbers that a list of strokes takes.
pub open spec fn numbers(strokes: Seq<Stroke>) -> int {
    numbered_to(strokes, 0, strokes.len() as int)
}

/// Strokes that are drawn one after the other take their numbers one after the other.
pub proof fn lemma_numbers_add_up(a: Seq<Stroke>, b: Seq<Stroke>)
    ensures
        numbers(a + b) == numbers(a) + numbers(b),
    decreases b.len(),
{
    let s = a + b;
    if b.len() > 0 {
        let c = b.drop_last();
        lemma_numbers_add_up(a, c);
        lemma_numbers_of_part(s, a + c, 0, (a + c).len() as int);
        lemma_numbers_of_part(b, c, 0, c.len() as int);
        assert(s.last() == b.last());
    } else {
        assert(s =~= a);
    }
}

proof fn lemma_numbers_of_part(s: Seq<Stroke>, t: Seq<Stroke>, first: int, n: int)
    requires
        0 <= n <= t.len() <= s.len(),
        forall|i: int| 0 <= i < t.len() ==> #[trigger] t[i] == s[i],
    ensures
        numbered_to(s, first, n) == numbered_to(t, first, n),
    decreases n,
{
    if n > 0 {
        lemma_numbers_of_part(s, t, first, n - 1);
        assert(t[n - 1] == s[n - 1]);
    }
}

/// Where the numbers start makes no difference to how many there are.
pub proof fn lemma_numbers_from(strokes: Seq<Stroke>, first: int, n: int)
    requires
        0 <= n <= strokes.len(),
    ensures
        numbered_to(strokes, first, n) == first + numbered_to(strokes, 0, n),
    decreases n,
{
    if n > 0 {
        lemma_numbers_from(strokes, first, n - 1);
    }
}

/// No stroke takes more than one number.
pub proof fn lemma_numbers_grow(strokes: Seq<Stroke>, first: int, n: int)
    requires
        0 <= n <= strokes.len(),
    ensures
        first <= numbered_to(strokes, first, n) <= first + n,
    decreases n,
{
    if n > 0 {
        lemma_numbers_grow(strokes, first, n - 1);
    }
}

/// Where a part of a picture got its number: it was brought along, or it was the next.
pub open spec fn numbered_well(p: Part, strokes: Seq<Stroke>, first: int, n: int) -> bool {
    ||| first <= p.id < numbered_to(strokes, first, n)
    ||| exists|i: int| 0 <= i < n && own_id(#[trigger] strokes[i]) == Some(p.id)
}

proof fn lemma_drawn_numbers(strokes: Seq<Stroke>, first: int, n: int)
    requires
        0 <= n <= strokes.len(),
        0 <= first,
        first + strokes.len() <= u32::MAX,
        named_apart(strokes),
        forall|i: int|
            0 <= i < strokes.len() && own_id(#[trigger] strokes[i]) is Some ==> own_id(strokes[i])->0
                < first,
    ensures
        forall|j: int|
            0 <= j < drawn(strokes, first, n).len() ==> numbered_well(
                #[trigger] drawn(strokes, first, n)[j],
                strokes,
                first,
                n,
            ),
        forall|i: int, j: int|
            0 <= i < j < drawn(strokes, first, n).len() ==> (#[trigger] drawn(
                strokes,
                first,
                n,
            )[i]).id != (#[trigger] drawn(strokes, first, n)[j]).id,
    decreases n,
{
    if n > 0 {
        lemma_drawn_numbers(strokes, first, n - 1);
        lemma_numbers_grow(strokes, first, n - 1);
        let before = drawn(strokes, first, n - 1);
        let now = drawn(strokes, first, n);
        let s = strokes[n - 1];
        let next = numbered_to(strokes, first, n - 1);
        let more = inked(s, next as u32);
        assert(now == before + more);
        assert(more.len() <= 1);
        assert forall|j: int| 0 <= j < now.len() implies numbered_well(
            #[trigger] now[j],
            strokes,
            first,
            n,
        ) by {
            if j < before.len() {
                assert(now[j] == before[j]);
                assert(numbered_well(before[j], strokes, first, n - 1));
            } else {
                assert(now[j] == more[0]);
                if own_id(s) is Some {
                    assert(own_id(strokes[n - 1]) == Some(more[0].id));
                }
            }
        }
        assert forall|i: int, j: int| 0 <= i < j < now.len() implies (#[trigger] now[i]).id != (
        #[trigger] now[j]).id by {
            assert(now[i] == before[i]);
            if j < before.len() {
                assert(now[j] == before[j]);
            } else {
                assert(now[j] == more[0]);
                assert(numbered_well(before[i], strokes, first, n - 1));
                if !(first <= before[i].id < next) {
                    let k = choose|k: int|
                        0 <= k < n - 1 && own_id(#[trigger] strokes[k]) == Some(before[i].id);
                    assert(own_id(strokes[k]) != own_id(strokes[n - 1]));
                }
            }
        }
    }
}

/// A picture numbers its parts apart: where the numbers that are brought along differ and
/// stay below the first of the others, no two parts have the same number.
pub proof fn law_pictures_number_their_parts_apart(strokes: Seq<Stroke>, first: u32)
    requires
        first + strokes.len() <= u32::MAX,
        named_apart(strokes),
        forall|i: int|
            0 <= i < strokes.len() && own_id(#[trigger] strokes[i]) is Some ==> own_id(strokes[i])->0
                < first,
    ensures
        forall|i: int, j: int|
            0 <= i < j < picture(strokes, first).len() ==> (#[trigger] picture(
                strokes,
                first,
            )[i]).id != (#[trigger] picture(strokes, first)[j]).id,
{
    lemma_drawn_numbers(strokes, first as int, strokes.len() as int);
}

/// A picture of straight wires is straight.
pub proof fn law_straight_strokes_stay_straight(strokes: Seq<Stroke>, first: u32, j: int)
    requires
        all_straight(strokes),
        0 <= j < picture(strokes, first).len(),
        picture(strokes, first)[j].kind == ElementKind::Wire,
        forall|i: int|
            0 <= i < strokes.len() ==> match #[trigger] strokes[i] {
                Stroke::Two { kind, .. } => kind != ElementKind::Wire,
                Stroke::Placed { kind, .. } => kind != ElementKind::Wire,
                _ => true,
            },
    ensures
        ({
            let p = picture(strokes, first)[j].pins;
            p.len() == 2 && (p[0].0 == p[1].0 || p[0].1 == p[1].1)
        }),
{
    lemma_drawn_straight(strokes, first as int, strokes.len() as int, j);
}

proof fn lemma_drawn_straight(strokes: Seq<Stroke>, first: int, n: int, j: int)
    requires
        0 <= n <= strokes.len(),
        all_straight(strokes),
        0 <= j < drawn(strokes, first, n).len(),
        drawn(strokes, first, n)[j].kind == ElementKind::Wire,
        forall|i: int|
            0 <= i < strokes.len() ==> match #[trigger] strokes[i] {
                Stroke::Two { kind, .. } => kind != ElementKind::Wire,
                Stroke::Placed { kind, .. } => kind != ElementKind::Wire,
                _ => true,
            },
    ensures
        ({
            let p = drawn(strokes, first, n)[j].pins;
            p.len() == 2 && (p[0].0 == p[1].0 || p[0].1 == p[1].1)
        }),
    decreases n,
{
    if n > 0 {
        let before = drawn(strokes, first, n - 1);
        let s = strokes[n - 1];
        if j < before.len() {
            assert(drawn(strokes, first, n)[j] == before[j]);
            lemma_drawn_straight(strokes, first, n - 1, j);
        } else {
            let more = inked(s, numbered_to(strokes, first, n - 1) as u32);
            assert(drawn(strokes, first, n)[j] == more[j - before.len()]);
            assert(straight(s));
        }
    }
}

/// Strokes of straight wires, with numbers of their own that differ and are all of this sort.
pub open spec fn neat(s: Seq<Stroke>, sort: spec_fn(int) -> bool) -> bool {
    &&& all_straight(s)
    &&& named_apart(s)
    &&& forall|i: int|
        0 <= i < s.len() && own_id(#[trigger] s[i]) is Some ==> sort(own_id(s[i])->0 as int)
    &&& forall|i: int|
        0 <= i < s.len() ==> match #[trigger] s[i] {
            Stroke::Two { kind, .. } => kind != ElementKind::Wire,
            Stroke::Placed { kind, .. } => kind != ElementKind::Wire,
            _ => true,
        }
}

/// Neat strokes behind neat strokes are neat where their numbers are of different sorts.
pub proof fn lemma_joined_is_neat(
    a: Seq<Stroke>,
    b: Seq<Stroke>,
    p: spec_fn(int) -> bool,
    q: spec_fn(int) -> bool,
    r: spec_fn(int) -> bool,
)
    requires
        neat(a, p),
        neat(b, q),
        forall|x: int| !(#[trigger] p(x) && q(x)),
        forall|x: int| #[trigger] p(x) ==> r(x),
        forall|x: int| #[trigger] q(x) ==> r(x),
    ensures
        neat(a + b, r),
{
    let s = a + b;
    assert forall|i: int| 0 <= i < s.len() implies #[trigger] s[i] == if i < a.len() {
        a[i]
    } else {
        b[i - a.len()]
    } by {}
    assert forall|i: int, j: int|
        0 <= i < j < s.len() && own_id(#[trigger] s[i]) is Some implies own_id(s[i]) != own_id(
        #[trigger] s[j],
    ) by {
        if i < a.len() <= j && own_id(s[j]) is Some {
            assert(p(own_id(a[i])->0 as int));
            assert(q(own_id(b[j - a.len()])->0 as int));
        }
    }
}

/// No two parts have the same number, and every wire is straight.
pub open spec fn legal(doc: Seq<Part>) -> bool {
    &&& forall|i: int, j: int|
        0 <= i < j < doc.len() ==> (#[trigger] doc[i]).id != (#[trigger] doc[j]).id
    &&& forall|i: int|
        0 <= i < doc.len() && (#[trigger] doc[i]).kind == ElementKind::Wire ==> {
            let p = doc[i].pins;
            p.len() == 2 && (p[0].0 == p[1].0 || p[0].1 == p[1].1)
        }
}

/// Neat strokes make a legal picture, where the numbers that they bring stay below the first
/// of the others.
pub proof fn law_neat_strokes_make_a_legal_picture(
    s: Seq<Stroke>,
    sort: spec_fn(int) -> bool,
    first: u32,
)
    requires
        neat(s, sort),
        forall|x: int| #[trigger] sort(x) ==> x < first,
        first + s.len() <= u32::MAX,
    ensures
        legal(picture(s, first)),
{
    law_pictures_number_their_parts_apart(s, first);
    let doc = picture(s, first);
    assert forall|i: int| 0 <= i < doc.len() && (#[trigger] doc[i]).kind == ElementKind::Wire implies {
        let p = doc[i].pins;
        p.len() == 2 && (p[0].0 == p[1].0 || p[0].1 == p[1].1)
    } by {
        law_straight_strokes_stay_straight(s, first, i);
    }
}

/// The way a part faces turns it by quarters: from east to south, to west, to north, each is a
/// quarter turn of the one before; and a mirrored part has its other side where this one has
/// its own.
pub proof fn law_facing_turns_by_quarters(mirror: bool, along: int, across: int)
    ensures
        ({
            let e = turned(Facing::East, mirror, along, across);
            let s = turned(Facing::South, mirror, along, across);
            let w = turned(Facing::West, mirror, along, across);
            let n = turned(Facing::North, mirror, along, across);
            &&& s.0 == -e.1 && s.1 == e.0
            &&& w.0 == -s.1 && w.1 == s.0
            &&& n.0 == -w.1 && n.1 == w.0
            &&& e.0 == -n.1 && e.1 == n.0
            &&& e.0 == along
            &&& !mirror ==> e.1 == across
            &&& mirror ==> e.1 == -across
        }),
{
}

/// The shapes of parts: a track has its ends in line and its wiper beside the middle; a
/// transistor its control pin at the anchor and its ends two either way; an amplifier its inputs
/// one either way and its output in line, and the transconductance amplifier its control pin
/// before the output; a timer four pins at the anchor's side and two across; any other part has
/// its pins in line.
pub proof fn law_the_shapes_of_parts(kind: ElementKind, len: int, pin: int)
    ensures
        kind is Potentiometer && pin == 0 ==> in_shape(kind, len, pin) == (0int, 0int),
        kind is Potentiometer && pin == 1 ==> in_shape(kind, len, pin).1 == -2 && (len >= 0 ==> {
            let m = in_shape(kind, len, pin).0;
            2 * m <= len < 2 * m + 2
        }),
        kind is Potentiometer && pin == 2 ==> in_shape(kind, len, pin) == (len, 0int),
        (kind is Npn || kind is Nmos) && pin == 0 ==> in_shape(kind, len, pin) == (0int, 0int),
        (kind is Npn || kind is Nmos) && pin == 1 ==> in_shape(kind, len, pin) == (len, -2int),
        (kind is Npn || kind is Nmos) && pin == 2 ==> in_shape(kind, len, pin) == (len, 2int),
        (kind is OpAmp || kind is Ota) && pin == 0 ==> in_shape(kind, len, pin) == (0int, -1int),
        (kind is OpAmp || kind is Ota) && pin == 1 ==> in_shape(kind, len, pin) == (0int, 1int),
        (kind is OpAmp || kind is Ota) && pin == 2 ==> in_shape(kind, len, pin) == (len, 0int),
        kind is Ota && pin == 3 ==> in_shape(kind, len, pin) == (len - 1, -2int),
        kind is Timer555 && 0 <= pin < 4 ==> in_shape(kind, len, pin).0 == 0,
        kind is Timer555 && pin >= 4 ==> in_shape(kind, len, pin).0 == len,
        kind is Timer555 && pin == 0 ==> in_shape(kind, len, pin).1 == 0,
        kind is Timer555 && pin == 1 ==> in_shape(kind, len, pin).1 == 4,
        kind is Timer555 && (pin == 2 || pin == 5) ==> in_shape(kind, len, pin).1 == 1,
        kind is Timer555 && (pin == 3 || pin == 4) ==> in_shape(kind, len, pin).1 == 3,
        !(kind is Potentiometer || kind is Npn || kind is Nmos || kind is OpAmp || kind is Ota
            || kind is Timer555) ==> in_shape(kind, len, pin) == (len * pin, 0int),
{
}

/// Each pin of a placed part is where its shape has it, turned the way that the part faces,
/// from the anchor.
pub proof fn law_pins_are_where_the_shape_has_them(
    kind: ElementKind,
    at: Point,
    facing: Facing,
    len: int,
    mirror: bool,
    k: int,
)
    requires
        placeable(kind, at, facing, len, mirror),
        0 <= k < kind.pins(),
    ensures
        pins_at(kind, at, facing, len, mirror).len() == kind.pins(),
        ({
            let p = pins_at(kind, at, facing, len, mirror)[k];
            let s = in_shape(kind, len, k);
            let t = turned(facing, mirror, s.0, s.1);
            p.0 == at.0 + t.0 && p.1 == at.1 + t.1
        }),
{
    let (dx, dy) = pin_step(kind, facing, len, mirror, k);
    assert(reaches(at, dx, dy));
}

/// A stroke comes to the part that was drawn: its own number where it brings one and the next
/// where it does not, its own kind, its own points. A wire of no length comes to nothing, nor
/// does a number that is passed over.
pub proof fn law_a_stroke_comes_to_what_was_drawn(s: Stroke, next: u32)
    ensures
        match s {
            Stroke::Two { id, kind, a, b } => inked(s, next).len() == 1 && {
                let p = inked(s, next)[0];
                p.id == id && p.kind == kind && p.pins.len() == 2 && p.pins[0] == a && p.pins[1] == b
                    && p.rot == 0
            },
            Stroke::Placed { id, kind, at, facing, len, mirror } => inked(s, next).len() == 1 && {
                let p = inked(s, next)[0];
                p.id == id && p.kind == kind && p.pins == pins_at(kind, at, facing, len as int, mirror)
                    && p.rot == 0
            },
            Stroke::Wire { a, b } => if a.0 == b.0 && a.1 == b.1 {
                inked(s, next).len() == 0
            } else {
                inked(s, next).len() == 1 && {
                    let p = inked(s, next)[0];
                    p.id == next && p.kind is Wire && p.pins.len() == 2 && p.pins[0] == a && p.pins[1]
                        == b && p.rot == 0
                }
            },
            Stroke::WireAs { id, a, b } => inked(s, next).len() == 1 && {
                let p = inked(s, next)[0];
                p.id == id && p.kind is Wire && p.pins.len() == 2 && p.pins[0] == a && p.pins[1] == b
                    && p.rot == 0
            },
            Stroke::Ground { at, dir } => inked(s, next).len() == 1 && {
                let p = inked(s, next)[0];
                p.id == next && p.kind is Ground && p.pins.len() == 1 && p.pins[0] == at && p.rot == dir
            },
            Stroke::GroundAs { id, at, dir } => inked(s, next).len() == 1 && {
                let p = inked(s, next)[0];
                p.id == id && p.kind is Ground && p.pins.len() == 1 && p.pins[0] == at && p.rot == dir
            },
            Stroke::Skip => inked(s, next).len() == 0,
        },
        forall|i: int|
            0 <= i < inked(s, next).len() ==> (#[trigger] inked(s, next)[i]).name.len() == 0 && inked(
                s,
                next,
            )[i].tier == 0,
{
}

/// A picture is what its strokes come to, one after the other; each takes the next number where
/// it has none of its own and comes to something, and so does a number that is passed over.
pub proof fn law_a_picture_is_drawn_stroke_by_stroke(strokes: Seq<Stroke>, first: u32, n: int)
    requires
        0 < n <= strokes.len(),
    ensures
        ({
            let next = numbered_to(strokes, first as int, n - 1);
            let s = strokes[n - 1];
            &&& drawn(strokes, first as int, n) == drawn(strokes, first as int, n - 1) + inked(
                s,
                next as u32,
            )
            &&& numbered_to(strokes, first as int, n) == next + match s {
                Stroke::Ground { .. } => 1int,
                Stroke::Skip => 1,
                Stroke::Wire { a, b } => if a.0 == b.0 && a.1 == b.1 {
                    0
                } else {
                    1
                },
                _ => 0,
            }
        }),
        drawn(strokes, first as int, 0).len() == 0,
        numbered_to(strokes, first as int, 0) == first,
        picture(strokes, first) == drawn(strokes, first as int, strokes.len() as int),
{
}

} // verus!
