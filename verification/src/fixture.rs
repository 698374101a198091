//! The machine's cabinet: a fixed-size footprint on the grid, and the four locked
//! parts whose pins are all derived from it.
use vstd::prelude::*;

use crate::binary64::Real;
use crate::document;
use crate::lists::{self, find, Copied};
use crate::parts::{self, copy_points, ElementKind, ElementSpec, Part, Point};

verus! {

/// The footprint's size in grid units. The cabinet moves, it never resizes.
pub const HOIST_W: i32 = 16;

pub const HOIST_H: i32 = 15;

/// The grid coordinates that a machine may occupy, either way from the origin.
pub const WORLD_LIMIT: i32 = 1_000_000;

/// The largest single move that is taken, in grid units.
pub const MAX_MACHINE_STEP: i32 = 100_000;

pub const MOTOR_ID: u32 = 900;

pub const SENSOR_ID: u32 = 901;

pub const LIM_TOP_ID: u32 = 902;

pub const LIM_BOT_ID: u32 = 903;

/// The armature's resistance: 2 ohms.
pub const ARM_OHMS: u64 = 0x4000_0000_0000_0000;

/// The armature's inductance: 1.5 millihenries.
pub const ARM_HENRIES: u64 = 0x3f58_9374_bc6a_7efa;

/// The position sensor: 10 kilohms.
pub const SENSOR_OHMS: u64 = 0x40c3_8800_0000_0000;

/// The sensor's wiper with the crate on the floor: 0.98 of the track.
pub const WIPER_MAX: u64 = 0x3fef_5c28_f5c2_8f5c;

/// The size of a machine's footprint, in grid units.
#[derive(Clone, Copy, Debug, PartialEq, Eq, Structural)]
pub struct Size {
    pub w: i32,
    pub h: i32,
}

impl Size {
    /// A footprint that fits in the world.
    pub open spec fn fits(self) -> bool {
        0 <= self.w <= 2 * WORLD_LIMIT && 0 <= self.h <= 2 * WORLD_LIMIT
    }
}

/// A machine that a room can stand up: everything that a room has to know of it. A second
/// machine is a second value, not a second copy of what is done with it.
pub struct MachineDef<F> {
    /// Which picture the client draws.
    pub kind: &'static str,
    pub size: Size,
    /// The locked parts for a footprint, pins and all.
    pub fixtures: F,
}

/// The size of the one machine there is.
pub open spec fn hoist() -> Size {
    Size { w: HOIST_W, h: HOIST_H }
}

/// The footprint with this corner.
pub open spec fn footprint(size: Size, x0: int, y0: int) -> Seq<i32> {
    seq![x0 as i32, y0 as i32, (x0 + size.w) as i32, (y0 + size.h) as i32]
}

/// The footprint of a hoist whose top left corner is at the point.
pub fn hoist_rect(x0: i32, y0: i32) -> (r: [i32; 4])
    requires
        x0 + HOIST_W <= i32::MAX,
        y0 + HOIST_H <= i32::MAX,
    ensures
        r@ == footprint(hoist(), x0 as int, y0 as int),
{
    let r: [i32; 4] = [x0, y0, x0 + HOIST_W, y0 + HOIST_H];
    proof {
        assert(r@ =~= footprint(hoist(), x0 as int, y0 as int));
    }
    r
}

/// Where a fresh room stands the hoist.
pub fn default_hoist_rect() -> (r: [i32; 4])
    ensures
        r@ == seq![46i32, 2i32, 62i32, 17i32],
{
    hoist_rect(46, 2)
}

/// The smaller of two numbers.
pub open spec fn least(a: int, b: int) -> int {
    if a <= b {
        a
    } else {
        b
    }
}

/// A number moved into the bounds.
pub open spec fn bounded(v: int, lo: int, hi: int) -> int {
    if v < lo {
        lo
    } else if v > hi {
        hi
    } else {
        v
    }
}

/// A footprint put back onto its invariants: normal corners, the fixed size, inside
/// the world.
pub open spec fn saned(size: Size, r: Seq<i32>) -> Seq<i32> {
    footprint(
        size,
        bounded(least(r[0] as int, r[2] as int), -WORLD_LIMIT, WORLD_LIMIT - size.w),
        bounded(least(r[1] as int, r[3] as int), -WORLD_LIMIT, WORLD_LIMIT - size.h),
    )
}

/// A footprint of the fixed size, inside the world.
pub open spec fn sane(size: Size, r: Seq<i32>) -> bool {
    &&& r.len() == 4
    &&& -WORLD_LIMIT <= r[0] <= WORLD_LIMIT - size.w
    &&& -WORLD_LIMIT <= r[1] <= WORLD_LIMIT - size.h
    &&& r[2] == r[0] + size.w
    &&& r[3] == r[1] + size.h
}

fn clamp_i32(v: i32, lo: i32, hi: i32) -> (r: i32)
    ensures
        r == bounded(v as int, lo as int, hi as int),
{
    if v < lo {
        lo
    } else if v > hi {
        hi
    } else {
        v
    }
}

/// Forces a machine's footprint back onto its invariants.
pub fn sane_rect_for<F>(def: &MachineDef<F>, r: [i32; 4]) -> (s: [i32; 4])
    requires
        def.size.fits(),
    ensures
        s@ == saned(def.size, r@),
        sane(def.size, s@),
{
    let size: Size = def.size;
    let a: i32 = if r[0] <= r[2] {
        r[0]
    } else {
        r[2]
    };
    let b: i32 = if r[1] <= r[3] {
        r[1]
    } else {
        r[3]
    };
    let x0: i32 = clamp_i32(a, -WORLD_LIMIT, WORLD_LIMIT - size.w);
    let y0: i32 = clamp_i32(b, -WORLD_LIMIT, WORLD_LIMIT - size.h);
    let s: [i32; 4] = [x0, y0, x0 + size.w, y0 + size.h];
    proof {
        assert(s@ =~= footprint(size, x0 as int, y0 as int));
    }
    s
}

/// Forces the hoist's footprint back onto its invariants.
pub fn sane_rect(r: [i32; 4]) -> (s: [i32; 4])
    ensures
        s@ == saned(hoist(), r@),
        sane(hoist(), s@),
{
    sane_rect_for(&MachineDef { kind: "hoist", size: Size { w: HOIST_W, h: HOIST_H }, fixtures: hoist_fixture_at }, r)
}

/// A sane footprint stays as it is, so making one sane twice is making it so once;
/// and swapped corners are the same footprint.
pub proof fn law_sane_footprints_stay(size: Size, r: Seq<i32>)
    requires
        size.fits(),
        r.len() == 4,
    ensures
        sane(size, saned(size, r)),
        sane(size, r) ==> saned(size, r) == r,
        saned(size, saned(size, r)) == saned(size, r),
        saned(size, seq![r[2], r[3], r[0], r[1]]) == saned(size, r),
{
    if sane(size, r) {
        assert(saned(size, r) =~= r);
    }
    let s = saned(size, r);
    assert(saned(size, s) =~= s);
}

/// The hoist's four parts for a footprint with this corner: drive on the left, what
/// the sensors say on the right, from the top of travel down to the floor.
pub open spec fn hoist_parts(x0: int, y0: int) -> Seq<Part> {
    let l = (x0 + 1) as i32;
    let r = (x0 + HOIST_W - 1) as i32;
    seq![
        parts::plain(
            MOTOR_ID,
            ElementKind::Motor {
                ohms: Real { bits: ARM_OHMS },
                henries: Real { bits: ARM_HENRIES },
                bemf: Real { bits: 0 },
            },
            seq![(l, (y0 + 3) as i32), (l, (y0 + 5) as i32)],
        ),
        parts::plain(
            SENSOR_ID,
            ElementKind::Potentiometer {
                ohms: Real { bits: SENSOR_OHMS },
                wiper: Real { bits: WIPER_MAX },
            },
            seq![(r, (y0 + 5) as i32), (r, (y0 + 8) as i32), (r, (y0 + 11) as i32)],
        ),
        parts::plain(
            LIM_TOP_ID,
            ElementKind::Switch { closed: false },
            seq![(r, (y0 + 2) as i32), (r, (y0 + 3) as i32)],
        ),
        parts::plain(
            LIM_BOT_ID,
            ElementKind::Switch { closed: true },
            seq![(r, (y0 + 12) as i32), (r, (y0 + 13) as i32)],
        ),
    ]
}

/// A corner from which every terminal has a grid coordinate.
pub open spec fn corner_fits(x0: int, y0: int) -> bool {
    i32::MIN <= x0 <= i32::MAX - HOIST_W && i32::MIN <= y0 <= i32::MAX - HOIST_H
}

/// The hoist's parts on a footprint.
pub fn hoist_fixture_at(rect: [i32; 4]) -> (r: Vec<ElementSpec>)
    requires
        corner_fits(rect@[0] as int, rect@[1] as int),
    ensures
        lists::views(r@) == hoist_parts(rect@[0] as int, rect@[1] as int),
{
    let x0: i32 = rect[0];
    let y0: i32 = rect[1];
    let left: i32 = x0 + 1;
    let right: i32 = x0 + (HOIST_W - 1);
    let mut out: Vec<ElementSpec> = Vec::new();
    out.push(
        ElementSpec::two(
            MOTOR_ID,
            ElementKind::Motor {
                ohms: Real::of(ARM_OHMS),
                henries: Real::of(ARM_HENRIES),
                bemf: Real::of(0),
            },
            (left, y0 + 3),
            (left, y0 + 5),
        ),
    );
    out.push(
        ElementSpec::three(
            SENSOR_ID,
            ElementKind::Potentiometer {
                ohms: Real::of(SENSOR_OHMS),
                wiper: Real::of(WIPER_MAX),
            },
            (right, y0 + 5),
            (right, y0 + 8),
            (right, y0 + 11),
        ),
    );
    out.push(
        ElementSpec::two(
            LIM_TOP_ID,
            ElementKind::Switch { closed: false },
            (right, y0 + 2),
            (right, y0 + 3),
        ),
    );
    out.push(
        ElementSpec::two(
            LIM_BOT_ID,
            ElementKind::Switch { closed: true },
            (right, y0 + 12),
            (right, y0 + 13),
        ),
    );
    proof {
        assert(lists::views(out@) =~= hoist_parts(x0 as int, y0 as int));
    }
    out
}

/// The hoist's parts where a fresh room stands it.
pub fn hoist_fixture() -> (r: Vec<ElementSpec>)
    ensures
        lists::views(r@) == hoist_parts(46, 2),
{
    hoist_fixture_at(default_hoist_rect())
}

/// One terminal of the hoist, where a fresh room stands it.
pub fn fixture_pin(id: u32, k: usize) -> (p: Point)
    requires
        exists|i: int|
            0 <= i < 4 && (#[trigger] hoist_parts(46, 2)[i]).id == id && k < hoist_parts(
                46,
                2,
            )[i].pins.len(),
    ensures
        exists|i: int|
            0 <= i < 4 && (#[trigger] hoist_parts(46, 2)[i]).id == id && p == hoist_parts(
                46,
                2,
            )[i].pins[k as int],
{
    let all: Vec<ElementSpec> = hoist_fixture();
    let ghost want = choose|i: int|
        0 <= i < 4 && (#[trigger] hoist_parts(46, 2)[i]).id == id && k < hoist_parts(
            46,
            2,
        )[i].pins.len();
    proof {
        assert(lists::views(all@).len() == 4);
        assert(lists::views(all@)[0].id == 900 && lists::views(all@)[1].id == 901 && lists::views(all@)[2].id == 902
            && lists::views(all@)[3].id == 903);
        assert(lists::views(all@)[want] == all@[want]@);
    }
    let mut i: usize = 0;
    while all[i].id != id
        invariant
            i <= want < 4,
            all@.len() == 4,
            lists::views(all@) == hoist_parts(46, 2),
            lists::views(all@)[want] == all@[want]@,
            lists::views(all@)[want].id == id,
        decreases 4 - i,
    {
        i += 1;
    }
    proof {
        assert(lists::views(all@)[i as int] == all@[i as int]@);
    }
    all[i].pins[k]
}

/// Every terminal lies on the footprint, one unit inside its left or right edge.
pub proof fn law_terminals_are_on_the_footprint(x0: int, y0: int, i: int, k: int)
    requires
        corner_fits(x0, y0),
        0 <= i < 4,
        0 <= k < hoist_parts(x0, y0)[i].pins.len(),
    ensures
        ({
            let p = hoist_parts(x0, y0)[i].pins[k];
            &&& p.0 == x0 + 1 || p.0 == x0 + HOIST_W - 1
            &&& y0 <= p.1 <= y0 + HOIST_H
        }),
        document::reserved(hoist_parts(x0, y0)[i].id),
{
}

/// A document with one locked part stood up in it. A part of that kind under the id
/// keeps its values and gets the pins; a part of another kind gives way; where there
/// is none, the part is added.
pub open spec fn stood(doc: Seq<Part>, part: Part) -> Seq<Part> {
    match document::part_at(doc, part.id) {
        None => doc.push(part),
        Some(i) => if doc[i].kind.same_kind(part.kind) {
            doc.update(i, Part { pins: part.pins, ..doc[i] })
        } else {
            doc.update(i, part)
        },
    }
}

/// A document with the first `n` of some locked parts stood up in it.
pub open spec fn stood_first(doc: Seq<Part>, parts: Seq<Part>, n: nat) -> Seq<Part>
    decreases n,
{
    if n == 0 {
        doc
    } else {
        stood(stood_first(doc, parts, (n - 1) as nat), parts[n - 1])
    }
}

/// A document with the hoist stood up in it.
pub open spec fn with_hoist(doc: Seq<Part>, x0: int, y0: int) -> Seq<Part> {
    stood_first(doc, hoist_parts(x0, y0), 4)
}

/// The new pins of a locked part, as the room is told of them.
#[derive(Clone, Debug)]
pub struct Moved {
    pub id: u32,
    pub pins: Vec<Point>,
}

/// The new pins of each locked part, in order.
pub open spec fn moves_to(moved: Seq<Moved>, parts: Seq<Part>) -> bool {
    &&& moved.len() == parts.len()
    &&& forall|i: int|
        0 <= i < moved.len() ==> (#[trigger] moved[i]).id == parts[i].id && moved[i].pins@
            == parts[i].pins
}

/// Stands one locked part up.
fn stand_up(elems: &mut Vec<ElementSpec>, part: ElementSpec)
    ensures
        lists::views(final(elems)@) == stood(lists::views(old(elems)@), part@),
{
    let ghost doc = lists::views(elems@);
    proof {
        document::lemma_part_at(elems@, part.id);
    }
    match find(elems, part.id) {
        None => {
            elems.push(part);
            proof {
                assert(lists::views(elems@) =~= doc.push(part@));
            }
        },
        Some(i) => {
            let next: ElementSpec = if elems[i].kind.is_same_kind(&part.kind) {
                ElementSpec { pins: part.pins, ..elems[i].copied() }
            } else {
                part
            };
            elems.set(i, next);
            proof {
                assert(lists::views(elems@) =~= doc.update(i as int, next@));
            }
        },
    }
}

/// The document and the moves once some locked parts were stood up.
pub open spec fn stood_up(
    before: Seq<Part>,
    after: Seq<Part>,
    moved: Seq<Moved>,
    parts: Seq<Part>,
) -> bool {
    &&& after == stood_first(before, parts, parts.len())
    &&& moves_to(moved, parts)
}

/// Stands a machine's locked parts up: adds what is missing, and puts the pins of
/// what is there where they belong. The values of what is there survive.
pub fn ensure_fixture_for<F: Fn([i32; 4]) -> Vec<ElementSpec>>(
    def: &MachineDef<F>,
    elems: &mut Vec<ElementSpec>,
    rect: [i32; 4],
) -> (moved: Vec<Moved>)
    requires
        call_requires(def.fixtures, (rect,)),
    ensures
        exists|fixtures: Vec<ElementSpec>| #[trigger]
            call_ensures(def.fixtures, (rect,), fixtures) && stood_up(
                lists::views(old(elems)@),
                lists::views(final(elems)@),
                moved@,
                lists::views(fixtures@),
            ),
{
    let fixtures: Vec<ElementSpec> = (def.fixtures)(rect);
    let ghost doc = lists::views(elems@);
    let ghost parts = lists::views(fixtures@);
    let mut moved: Vec<Moved> = Vec::new();
    let mut k: usize = 0;
    while k < fixtures.len()
        invariant
            k <= fixtures@.len(),
            parts == lists::views(fixtures@),
            lists::views(elems@) == stood_first(doc, parts, k as nat),
            moves_to(moved@, parts.take(k as int)),
        decreases fixtures.len() - k,
    {
        proof {
            assert(parts[k as int] == fixtures@[k as int]@);
        }
        let one: Moved = Moved { id: fixtures[k].id, pins: copy_points(&fixtures[k].pins) };
        moved.push(one);
        stand_up(elems, fixtures[k].copied());
        k += 1;
        proof {
            assert forall|i: int| 0 <= i < moved@.len() implies (#[trigger] moved@[i]).id
                == parts.take(k as int)[i].id && moved@[i].pins@ == parts.take(
                k as int,
            )[i].pins by {
                if i < k - 1 {
                    assert(parts.take(k - 1)[i] == parts.take(k as int)[i]);
                }
            }
        }
    }
    proof {
        assert(parts.take(parts.len() as int) =~= parts);
        assert(stood_up(doc, lists::views(elems@), moved@, parts));
    }
    moved
}

/// Stands the hoist up on a footprint.
pub fn ensure_fixture(elems: &mut Vec<ElementSpec>, rect: [i32; 4]) -> (moved: Vec<Moved>)
    requires
        corner_fits(rect@[0] as int, rect@[1] as int),
    ensures
        lists::views(final(elems)@) == with_hoist(
            lists::views(old(elems)@),
            rect@[0] as int,
            rect@[1] as int,
        ),
        moves_to(moved@, hoist_parts(rect@[0] as int, rect@[1] as int)),
{
    let def = MachineDef {
        kind: "hoist",
        size: Size { w: HOIST_W, h: HOIST_H },
        fixtures: hoist_fixture_at,
    };
    ensure_fixture_for(&def, elems, rect)
}

/// Whether a machine's move is taken: it goes somewhere, not too far at once, and
/// lands inside the world.
pub open spec fn move_taken(size: Size, rect: Seq<i32>, dx: int, dy: int) -> bool {
    &&& dx != 0 || dy != 0
    &&& -MAX_MACHINE_STEP <= dx <= MAX_MACHINE_STEP
    &&& -MAX_MACHINE_STEP <= dy <= MAX_MACHINE_STEP
    &&& -WORLD_LIMIT <= rect[0] + dx <= WORLD_LIMIT - size.w
    &&& -WORLD_LIMIT <= rect[1] + dy <= WORLD_LIMIT - size.h
}

/// Where a footprint goes under a move, if the move is taken.
fn moved_rect(size: Size, rect: &[i32; 4], dx: i32, dy: i32) -> (r: Option<[i32; 4]>)
    requires
        size.fits(),
    ensures
        r is Some <==> move_taken(size, rect@, dx as int, dy as int),
        r is Some ==> r->0@ == footprint(size, rect@[0] + dx, rect@[1] + dy),
{
    if dx == 0 && dy == 0 {
        return None;
    }
    if dx > MAX_MACHINE_STEP || dx < -MAX_MACHINE_STEP || dy > MAX_MACHINE_STEP || dy
        < -MAX_MACHINE_STEP {
        return None;
    }
    let x: i64 = rect[0] as i64 + dx as i64;
    let y: i64 = rect[1] as i64 + dy as i64;
    if x < -(WORLD_LIMIT as i64) || x > (WORLD_LIMIT - size.w) as i64 || y < -(WORLD_LIMIT as i64)
        || y > (WORLD_LIMIT - size.h) as i64 {
        return None;
    }
    let x0: i32 = x as i32;
    let y0: i32 = y as i32;
    let next: [i32; 4] = [x0, y0, x0 + size.w, y0 + size.h];
    proof {
        assert(next@ =~= footprint(size, x as int, y as int));
    }
    Some(next)
}

/// Moves a whole machine by a grid delta: the footprint and all its locked parts at once.
/// A move that is not taken changes nothing.
pub fn move_machine_for<F: Fn([i32; 4]) -> Vec<ElementSpec>>(
    def: &MachineDef<F>,
    elems: &mut Vec<ElementSpec>,
    rect: &mut [i32; 4],
    dx: i32,
    dy: i32,
) -> (r: Option<Vec<Moved>>)
    requires
        def.size.fits(),
        forall|at: [i32; 4]| sane(def.size, at@) ==> #[trigger] call_requires(def.fixtures, (at,)),
    ensures
        r is Some <==> move_taken(def.size, old(rect)@, dx as int, dy as int),
        r is None ==> *final(elems) == *old(elems) && *final(rect) == *old(rect),
        r is Some ==> final(rect)@ == footprint(
            def.size,
            old(rect)@[0] + dx,
            old(rect)@[1] + dy,
        ),
        r matches Some(moved) ==> exists|fixtures: Vec<ElementSpec>| #[trigger]
            call_ensures(def.fixtures, (*final(rect),), fixtures) && stood_up(
                lists::views(old(elems)@),
                lists::views(final(elems)@),
                moved@,
                lists::views(fixtures@),
            ),
{
    match moved_rect(def.size, rect, dx, dy) {
        None => None,
        Some(next) => {
            *rect = next;
            Some(ensure_fixture_for(def, elems, next))
        },
    }
}

/// Moves the whole hoist by a grid delta: the footprint and all four locked parts at
/// once. A move that is not taken changes nothing.
pub fn move_machine(elems: &mut Vec<ElementSpec>, rect: &mut [i32; 4], dx: i32, dy: i32) -> (r:
    Option<Vec<Moved>>)
    ensures
        r is Some <==> move_taken(hoist(), old(rect)@, dx as int, dy as int),
        r is None ==> *final(elems) == *old(elems) && *final(rect) == *old(rect),
        r is Some ==> {
            let x0 = old(rect)@[0] + dx;
            let y0 = old(rect)@[1] + dy;
            &&& final(rect)@ == footprint(hoist(), x0, y0)
            &&& lists::views(final(elems)@) == with_hoist(lists::views(old(elems)@), x0, y0)
            &&& moves_to(r->0@, hoist_parts(x0, y0))
        },
{
    let def = MachineDef {
        kind: "hoist",
        size: Size { w: HOIST_W, h: HOIST_H },
        fixtures: hoist_fixture_at,
    };
    move_machine_for(&def, elems, rect, dx, dy)
}

/// What standing a part up does to the ids, and where the part then is.
proof fn lemma_stood(doc: Seq<Part>, part: Part)
    ensures
        document::part_at(stood(doc, part), part.id) is Some,
        ({
            let i = document::part_at(stood(doc, part), part.id)->0;
            let at = stood(doc, part)[i];
            &&& 0 <= i < stood(doc, part).len()
            &&& at.id == part.id
            &&& at.pins == part.pins
            &&& at.kind.same_kind(part.kind)
            &&& document::part_at(doc, part.id) is Some ==> i == document::part_at(doc, part.id)->0
            &&& document::part_at(doc, part.id) is None ==> i == doc.len()
        }),
        forall|id: u32| id != part.id ==> #[trigger] document::part_at(stood(doc, part), id) == document::part_at(doc, id),
        stood(doc, part).len() >= doc.len(),
        forall|j: int|
            0 <= j < doc.len() && #[trigger] doc[j].id != part.id ==> stood(doc, part)[j] == doc[j],
{
    let next = stood(doc, part);
    document::part_ids(doc).index_of_first_ensures(part.id);
    match document::part_at(doc, part.id) {
        None => {
            assert forall|j: int| 0 <= j < doc.len() implies #[trigger] document::part_ids(next)[j]
                != part.id by {
                assert(document::part_ids(doc)[j] == doc[j].id);
            }
            lists::lemma_index_of_first(document::part_ids(next), part.id, Some(doc.len() as int));
        },
        Some(i) => {
            assert(document::part_ids(doc)[i] == doc[i].id);
            assert(document::part_ids(next) =~= document::part_ids(doc));
        },
    }
    assert forall|id: u32| id != part.id implies #[trigger] document::part_at(next, id) == document::part_at(
        doc,
        id,
    ) by {
        document::part_ids(doc).index_of_first_ensures(id);
        let at = document::part_at(doc, id);
        assert forall|j: int| 0 <= j < doc.len() implies #[trigger] document::part_ids(next)[j] == document::part_ids(
            doc,
        )[j] by {
        }
        if at is None {
            assert forall|j: int| 0 <= j < document::part_ids(next).len() implies #[trigger] document::part_ids(
                next,
            )[j] != id by {
                if j < doc.len() {
                    assert(document::part_ids(doc)[j] != id);
                }
            }
        }
        lists::lemma_index_of_first(document::part_ids(next), id, at);
    }
}

/// The lockstep: once the hoist is stood up, each of its parts is in the document with
/// exactly the pins that the footprint gives it.
pub proof fn law_parts_follow_the_footprint(doc: Seq<Part>, x0: int, y0: int, i: int)
    requires
        0 <= i < 4,
    ensures
        ({
            let part = hoist_parts(x0, y0)[i];
            let next = with_hoist(doc, x0, y0);
            &&& document::part_at(next, part.id) is Some
            &&& 0 <= document::part_at(next, part.id)->0 < next.len()
            &&& next[document::part_at(next, part.id)->0].pins == part.pins
            &&& next[document::part_at(next, part.id)->0].kind.same_kind(part.kind)
        }),
{
    let parts = hoist_parts(x0, y0);
    reveal_with_fuel(stood_first, 5);
    let d1 = stood(doc, parts[0]);
    let d2 = stood(d1, parts[1]);
    let d3 = stood(d2, parts[2]);
    let d4 = stood(d3, parts[3]);
    lemma_stood(doc, parts[0]);
    lemma_stood(d1, parts[1]);
    lemma_stood(d2, parts[2]);
    lemma_stood(d3, parts[3]);
    assert(d4 == with_hoist(doc, x0, y0));
    if i == 0 {
        assert(document::part_at(d2, 900) == document::part_at(d1, 900));
        assert(document::part_at(d3, 900) == document::part_at(d2, 900));
        assert(document::part_at(d4, 900) == document::part_at(d3, 900));
    } else if i == 1 {
        assert(document::part_at(d3, 901) == document::part_at(d2, 901));
        assert(document::part_at(d4, 901) == document::part_at(d3, 901));
    } else if i == 2 {
        assert(document::part_at(d4, 902) == document::part_at(d3, 902));
    }
}

/// Standing the hoist up leaves every other part as it is, in its place.
pub proof fn law_other_parts_stay(doc: Seq<Part>, x0: int, y0: int, j: int)
    requires
        0 <= j < doc.len(),
        !document::reserved(doc[j].id),
    ensures
        j < with_hoist(doc, x0, y0).len(),
        with_hoist(doc, x0, y0)[j] == doc[j],
{
    let parts = hoist_parts(x0, y0);
    reveal_with_fuel(stood_first, 5);
    let d1 = stood(doc, parts[0]);
    let d2 = stood(d1, parts[1]);
    let d3 = stood(d2, parts[2]);
    lemma_stood(doc, parts[0]);
    lemma_stood(d1, parts[1]);
    lemma_stood(d2, parts[2]);
    lemma_stood(d3, parts[3]);
    assert(d1[j] == doc[j]);
    assert(d2[j] == doc[j]);
    assert(d3[j] == doc[j]);
}

/// Standing up a part that is there already, and another one, can be done either way
/// round.
proof fn lemma_stood_commutes(doc: Seq<Part>, x: Part, y: Part)
    requires
        x.id != y.id,
        document::part_at(doc, x.id) is Some,
    ensures
        stood(stood(doc, y), x) == stood(stood(doc, x), y),
{
    lemma_stood(doc, x);
    lemma_stood(doc, y);
    let dx = stood(doc, x);
    let dy = stood(doc, y);
    document::part_ids(doc).index_of_first_ensures(x.id);
    document::part_ids(doc).index_of_first_ensures(y.id);
    assert(document::part_at(dy, x.id) == document::part_at(doc, x.id));
    assert(document::part_at(dx, y.id) == document::part_at(doc, y.id));
    let i = document::part_at(doc, x.id)->0;
    assert(document::part_ids(doc)[i] == doc[i].id);
    assert(dy[i] == doc[i]);
    match document::part_at(doc, y.id) {
        None => {},
        Some(j) => {
            assert(document::part_ids(doc)[j] == doc[j].id);
            assert(dx[j] == doc[j]);
        },
    }
    assert(stood(dy, x) =~= stood(dx, y));
}

/// Standing up a part twice, with other pins the second time, is standing it up once.
proof fn lemma_stood_again(doc: Seq<Part>, a: Part, b: Part)
    requires
        b == (Part { pins: b.pins, ..a }),
    ensures
        stood(stood(doc, a), b) == stood(doc, b),
{
    lemma_stood(doc, a);
    document::part_ids(doc).index_of_first_ensures(a.id);
    assert(stood(stood(doc, a), b) =~= stood(doc, b));
}

/// A new footprint replaces the old one altogether: standing the hoist up here and
/// then there leaves what standing it up there alone would have left.
pub proof fn law_the_last_footprint_counts(doc: Seq<Part>, x0: int, y0: int, x1: int, y1: int)
    ensures
        with_hoist(with_hoist(doc, x0, y0), x1, y1) == with_hoist(doc, x1, y1),
{
    reveal_with_fuel(stood_first, 5);
    let a = hoist_parts(x0, y0);
    let b = hoist_parts(x1, y1);
    // Each new part is moved in front of the old ones that it does not meet, and
    // replaces the one that it does.
    let a1 = stood(doc, a[0]);
    let a2 = stood(a1, a[1]);
    let a3 = stood(a2, a[2]);
    let b1 = stood(doc, b[0]);
    lemma_stood(doc, a[0]);
    lemma_stood(a1, a[1]);
    lemma_stood(a2, a[2]);
    assert(document::part_at(a2, 900) is Some && document::part_at(a3, 900) is Some);
    lemma_stood_commutes(a3, b[0], a[3]);
    lemma_stood_commutes(a2, b[0], a[2]);
    lemma_stood_commutes(a1, b[0], a[1]);
    lemma_stood_again(doc, a[0], b[0]);
    let c2 = stood(b1, a[1]);
    let c3 = stood(c2, a[2]);
    assert(stood(stood(a3, a[3]), b[0]) == stood(c3, a[3]));
    let b2 = stood(b1, b[1]);
    lemma_stood(b1, a[1]);
    lemma_stood(c2, a[2]);
    assert(document::part_at(c3, 901) is Some);
    lemma_stood_commutes(c3, b[1], a[3]);
    lemma_stood_commutes(c2, b[1], a[2]);
    lemma_stood_again(b1, a[1], b[1]);
    let e3 = stood(b2, a[2]);
    assert(stood(stood(c3, a[3]), b[1]) == stood(e3, a[3]));
    let b3 = stood(b2, b[2]);
    lemma_stood(b2, a[2]);
    lemma_stood_commutes(e3, b[2], a[3]);
    lemma_stood_again(b2, a[2], b[2]);
    assert(stood(stood(e3, a[3]), b[2]) == stood(b3, a[3]));
    lemma_stood_again(b3, a[3], b[3]);
}

/// The part stands in the document: its id is there, with its pins and a part of its kind.
pub open spec fn standing(doc: Seq<Part>, part: Part) -> bool {
    &&& document::part_at(doc, part.id) is Some
    &&& doc[document::part_at(doc, part.id)->0].pins == part.pins
    &&& doc[document::part_at(doc, part.id)->0].kind.same_kind(part.kind)
}

/// Once parts with different ids are stood up, each of them stands.
pub proof fn law_whatever_was_stood_up_stands(doc: Seq<Part>, parts: Seq<Part>, n: nat)
    requires
        n <= parts.len(),
        document::distinct_ids(parts),
    ensures
        forall|i: int| 0 <= i < n ==> standing(stood_first(doc, parts, n), #[trigger] parts[i]),
    decreases n,
{
    if n > 0 {
        let had = stood_first(doc, parts, (n - 1) as nat);
        let last = parts[n - 1];
        law_whatever_was_stood_up_stands(doc, parts, (n - 1) as nat);
        lemma_stood(had, last);
        let now = stood(had, last);
        assert forall|i: int| 0 <= i < n implies standing(now, #[trigger] parts[i]) by {
            if i < n - 1 {
                assert(parts[i].id != parts[n - 1].id);
                assert(standing(had, parts[i]));
                document::part_ids(had).index_of_first_ensures(parts[i].id);
                let at = document::part_at(had, parts[i].id)->0;
                assert(document::part_ids(had)[at] == had[at].id);
                assert(document::part_at(now, parts[i].id) == document::part_at(had, parts[i].id));
                assert(now[at] == had[at]);
            }
        }
    }
}

/// Standing up what stands changes nothing.
proof fn lemma_standing_stays(doc: Seq<Part>, parts: Seq<Part>, n: nat)
    requires
        n <= parts.len(),
        forall|i: int| 0 <= i < n ==> standing(doc, #[trigger] parts[i]),
    ensures
        stood_first(doc, parts, n) == doc,
    decreases n,
{
    if n > 0 {
        lemma_standing_stays(doc, parts, (n - 1) as nat);
        let part = parts[n - 1];
        assert(standing(doc, part));
        document::part_ids(doc).index_of_first_ensures(part.id);
        assert(stood(doc, part) =~= doc);
    }
}

/// Standing a machine up a second time changes nothing, whatever the machine, as long as its
/// parts have different ids.
pub proof fn law_a_second_standing_up_changes_nothing(
    a: Seq<Part>,
    b: Seq<Part>,
    c: Seq<Part>,
    first: Seq<Moved>,
    second: Seq<Moved>,
    parts: Seq<Part>,
)
    requires
        document::distinct_ids(parts),
        stood_up(a, b, first, parts),
        stood_up(b, c, second, parts),
    ensures
        c == b,
{
    law_whatever_was_stood_up_stands(a, parts, parts.len());
    lemma_standing_stays(b, parts, parts.len());
}

/// Standing the hoist up where it stands changes nothing.
pub proof fn law_standing_up_twice_is_standing_up_once(doc: Seq<Part>, x0: int, y0: int)
    ensures
        with_hoist(with_hoist(doc, x0, y0), x0, y0) == with_hoist(doc, x0, y0),
{
    law_the_last_footprint_counts(doc, x0, y0, x0, y0);
}

/// A move and its opposite leave the room as it was: the way back is taken, the
/// footprint is the old one, and so is every part.
pub proof fn law_moving_back_undoes_a_move(doc: Seq<Part>, rect: Seq<i32>, dx: int, dy: int)
    requires
        sane(hoist(), rect),
        doc == with_hoist(doc, rect[0] as int, rect[1] as int),
        move_taken(hoist(), rect, dx, dy),
    ensures
        ({
            let there = footprint(hoist(), rect[0] + dx, rect[1] + dy);
            let moved = with_hoist(doc, rect[0] + dx, rect[1] + dy);
            &&& move_taken(hoist(), there, -dx, -dy)
            &&& footprint(hoist(), there[0] - dx, there[1] - dy) == rect
            &&& with_hoist(moved, there[0] - dx, there[1] - dy) == doc
        }),
{
    law_the_last_footprint_counts(
        doc,
        rect[0] + dx,
        rect[1] + dy,
        rect[0] as int,
        rect[1] as int,
    );
    let there = footprint(hoist(), rect[0] + dx, rect[1] + dy);
    assert(footprint(hoist(), there[0] - dx, there[1] - dy) =~= rect);
}

/// Wherever the hoist goes, it stays whole and inside the world.
pub proof fn law_moves_stay_in_the_world(rect: Seq<i32>, dx: int, dy: int)
    requires
        move_taken(hoist(), rect, dx, dy),
    ensures
        sane(hoist(), footprint(hoist(), rect[0] + dx, rect[1] + dy)),
{
}

/// Where the hoist's four parts are, from the corner of its footprint: the motor's two
/// terminals one unit inside the left edge; the track's three, the upper limit switch's two and
/// the lower one's two one unit inside the right edge, from the top down.
pub open spec fn terminals_at(parts: Seq<Part>, x0: int, y0: int) -> bool {
    &&& parts.len() == 4
    &&& parts[0].id == 900 && parts[1].id == 901 && parts[2].id == 902 && parts[3].id == 903
    &&& parts[0].pins.len() == 2 && parts[1].pins.len() == 3 && parts[2].pins.len() == 2
        && parts[3].pins.len() == 2
    &&& forall|k: int| 0 <= k < 2 ==> (#[trigger] parts[0].pins[k]).0 == x0 + 1
    &&& forall|k: int| 0 <= k < 3 ==> (#[trigger] parts[1].pins[k]).0 == x0 + 15
    &&& forall|k: int| 0 <= k < 2 ==> (#[trigger] parts[2].pins[k]).0 == x0 + 15
    &&& forall|k: int| 0 <= k < 2 ==> (#[trigger] parts[3].pins[k]).0 == x0 + 15
    &&& forall|k: int| 0 <= k < 2 ==> (#[trigger] parts[0].pins[k]).1 == y0 + 3 + 2 * k
    &&& forall|k: int| 0 <= k < 3 ==> (#[trigger] parts[1].pins[k]).1 == y0 + 5 + 3 * k
    &&& forall|k: int| 0 <= k < 2 ==> (#[trigger] parts[2].pins[k]).1 == y0 + 2 + k
    &&& forall|k: int| 0 <= k < 2 ==> (#[trigger] parts[3].pins[k]).1 == y0 + 12 + k
    &&& parts[0].kind matches ElementKind::Motor { ohms, henries, bemf } && ohms.bits
        == 0x4000_0000_0000_0000 && henries.bits == 0x3f58_9374_bc6a_7efa && bemf.bits == 0
    &&& parts[1].kind matches ElementKind::Potentiometer { ohms, wiper } && ohms.bits
        == 0x40c3_8800_0000_0000 && wiper.bits == 0x3fef_5c28_f5c2_8f5c
    &&& parts[2].kind matches ElementKind::Switch { closed } && !closed
    &&& parts[3].kind matches ElementKind::Switch { closed } && closed
    &&& forall|i: int|
        0 <= i < 4 ==> (#[trigger] parts[i]).name.len() == 0 && parts[i].tier == 0 && parts[i].rot == 0
}

/// The hoist's parts are where the footprint says.
pub proof fn law_the_hoist_is_on_its_footprint(x0: int, y0: int)
    requires
        corner_fits(x0, y0),
    ensures
        terminals_at(hoist_parts(x0, y0), x0, y0),
{
}

/// Wherever the hoist goes, its parts go along: each terminal moves by what the corner moves.
pub proof fn law_terminals_move_with_the_corner(
    x0: int,
    y0: int,
    dx: int,
    dy: int,
    i: int,
    k: int,
)
    requires
        corner_fits(x0, y0),
        corner_fits(x0 + dx, y0 + dy),
        0 <= i < 4,
        0 <= k < hoist_parts(x0, y0)[i].pins.len(),
    ensures
        hoist_parts(x0 + dx, y0 + dy)[i].id == hoist_parts(x0, y0)[i].id,
        hoist_parts(x0 + dx, y0 + dy)[i].kind == hoist_parts(x0, y0)[i].kind,
        hoist_parts(x0 + dx, y0 + dy)[i].pins.len() == hoist_parts(x0, y0)[i].pins.len(),
        hoist_parts(x0 + dx, y0 + dy)[i].pins[k].0 == hoist_parts(x0, y0)[i].pins[k].0 + dx,
        hoist_parts(x0 + dx, y0 + dy)[i].pins[k].1 == hoist_parts(x0, y0)[i].pins[k].1 + dy,
{
}

/// A footprint has its corner where it was put and is sixteen by fifteen.
pub proof fn law_a_footprint_is_sixteen_by_fifteen(x0: int, y0: int)
    requires
        corner_fits(x0, y0),
    ensures
        footprint(hoist(), x0, y0).len() == 4,
        footprint(hoist(), x0, y0)[0] == x0,
        footprint(hoist(), x0, y0)[1] == y0,
        footprint(hoist(), x0, y0)[2] == x0 + 16,
        footprint(hoist(), x0, y0)[3] == y0 + 15,
{
}

/// A footprint that is put back into the world keeps its corner, the lower of the two in each
/// direction, where it fits there; and goes to the nearer end of the world where it does not.
pub proof fn law_a_footprint_is_put_back(r: Seq<i32>)
    requires
        r.len() == 4,
    ensures
        ({
            let s = saned(hoist(), r);
            let low_x = if r[0] < r[2] {
                r[0]
            } else {
                r[2]
            };
            let low_y = if r[1] < r[3] {
                r[1]
            } else {
                r[3]
            };
            &&& s.len() == 4
            &&& -1_000_000 <= low_x <= 999_984 ==> s[0] == low_x
            &&& low_x < -1_000_000 ==> s[0] == -1_000_000
            &&& low_x > 999_984 ==> s[0] == 999_984
            &&& -1_000_000 <= low_y <= 999_985 ==> s[1] == low_y
            &&& low_y < -1_000_000 ==> s[1] == -1_000_000
            &&& low_y > 999_985 ==> s[1] == 999_985
            &&& s[2] == s[0] + 16
            &&& s[3] == s[1] + 15
        }),
{
}

/// When a move is taken: it goes somewhere, no further than a hundred thousand either way, and
/// ends inside the world.
pub open spec fn may_move(rect: Seq<i32>, dx: int, dy: int) -> bool {
    &&& !(dx == 0 && dy == 0)
    &&& -100_000 <= dx <= 100_000
    &&& -100_000 <= dy <= 100_000
    &&& rect[0] + dx >= -1_000_000 && rect[0] + dx + 16 <= 1_000_000
    &&& rect[1] + dy >= -1_000_000 && rect[1] + dy + 15 <= 1_000_000
}

/// A move is taken exactly where it may be made.
pub proof fn law_when_a_move_is_taken(rect: Seq<i32>, dx: int, dy: int)
    ensures
        move_taken(hoist(), rect, dx, dy) <==> may_move(rect, dx, dy),
{
}

/// A locked part was stood up: a part of that kind under the id gets the pins and keeps
/// everything else, a part of another kind gives way to it, and where there is none it comes
/// behind the others. Every other part is as it was, in its place.
pub open spec fn part_stood(doc: Seq<Part>, part: Part, next: Seq<Part>) -> bool {
    ||| {
        &&& forall|j: int| 0 <= j < doc.len() ==> (#[trigger] doc[j]).id != part.id
        &&& lists::one_more(doc, next, part)
    }
    ||| exists|i: int| #[trigger]
        document::found(doc, part.id, i) && lists::same_but_at(doc, next, i) && if doc[i].kind.same_kind(
            part.kind,
        ) {
            &&& next[i].id == part.id
            &&& next[i].pins == part.pins
            &&& next[i].kind == doc[i].kind
            &&& next[i].name == doc[i].name
            &&& next[i].tier == doc[i].tier
            &&& next[i].rot == doc[i].rot
        } else {
            next[i] == part
        }
}

/// A locked part is stood up under its own id.
pub proof fn law_a_part_is_stood_up_under_its_id(doc: Seq<Part>, part: Part)
    ensures
        part_stood(doc, part, stood(doc, part)),
{
    document::lemma_found(doc, part.id);
    if let Some(i) = document::part_at(doc, part.id) {
        assert(document::found(doc, part.id, i));
    }
}

/// The hoist was stood up: its four parts, one after the other.
pub open spec fn hoist_stood(doc: Seq<Part>, x0: int, y0: int, next: Seq<Part>) -> bool {
    exists|parts: Seq<Part>, d1: Seq<Part>, d2: Seq<Part>, d3: Seq<Part>|
        terminals_at(parts, x0, y0) && #[trigger] part_stood(doc, parts[0], d1)
            && #[trigger] part_stood(d1, parts[1], d2) && #[trigger] part_stood(d2, parts[2], d3)
            && part_stood(d3, parts[3], next)
}

/// Standing the hoist up stands up its four parts, where the footprint says.
pub proof fn law_the_hoist_is_stood_up_whole(doc: Seq<Part>, x0: int, y0: int)
    requires
        corner_fits(x0, y0),
    ensures
        hoist_stood(doc, x0, y0, with_hoist(doc, x0, y0)),
{
    let parts = hoist_parts(x0, y0);
    reveal_with_fuel(stood_first, 5);
    let d1 = stood(doc, parts[0]);
    let d2 = stood(d1, parts[1]);
    let d3 = stood(d2, parts[2]);
    law_the_hoist_is_on_its_footprint(x0, y0);
    law_a_part_is_stood_up_under_its_id(doc, parts[0]);
    law_a_part_is_stood_up_under_its_id(d1, parts[1]);
    law_a_part_is_stood_up_under_its_id(d2, parts[2]);
    law_a_part_is_stood_up_under_its_id(d3, parts[3]);
    assert(with_hoist(doc, x0, y0) == stood(d3, parts[3]));
}

} // verus!
