//! A step sequencer: a ramp, a bank of comparators that tell which step it is, a pitch
//! knob and a beat toggle for each step, and a tempo knob.
use vstd::prelude::*;

use crate::binary64::Real;
use crate::lists;
use crate::modules::{capacitor, opamp, pot, resistor, VOLTS_9};
use crate::netlist;
use crate::parts::{ElementKind, ElementSpec, Point};
use crate::sheet::{self, shift, Facing, Sheet, Stroke, DOWN, LEFT, RIGHT, UP};

verus! {

/// The fixed part of the charge resistor: 68 kilohms.
pub const RA_FIXED: u64 = 0x40f0_9a00_0000_0000;

/// The tempo knob: 220 kilohms.
pub const RA_POT: u64 = 0x410a_db00_0000_0000;

/// The discharge resistor: a kilohm.
pub const RB: u64 = 0x408f_4000_0000_0000;

/// The timing capacitor: 6.8 microfarads.
pub const CT: u64 = 0x3edc_8571_c468_7a3d;

/// The bias of all comparators: 10.5 kilohms.
pub const R_CBIAS: u64 = 0x40c4_8200_0000_0000;

/// What clamps a gate: 5.1 volts.
pub const VZ_GATE: u64 = 0x4014_6666_6666_6666;

/// A pitch knob: 47 kilohms.
pub const POT_CV: u64 = 0x40e6_f300_0000_0000;

/// What pulls the pitch bus down: 470 kilohms.
pub const R_CV: u64 = 0x411c_afc0_0000_0000;

/// What pulls the beat bus down: a megohm.
pub const R_BEAT: u64 = 0x412e_8480_0000_0000;

/// Between two window edges of four steps, from the bottom: 43940 ohms.
pub const LADDER4_0: u64 = 0x40e5_7480_0000_0000;

/// Between two window edges of four steps, from the bottom: 8920 ohms.
pub const LADDER4_1: u64 = 0x40c1_6bff_ffff_fffd;

/// Between two window edges of four steps, from the bottom: 7500 ohms.
pub const LADDER4_2: u64 = 0x40bd_4c00_0000_0007;

/// Between two window edges of four steps, from the bottom: 39640 ohms.
pub const LADDER4_3: u64 = 0x40e3_5b00_0000_0000;

/// Between two window edges of three steps, from the bottom: 47860 ohms.
pub const LADDER3_0: u64 = 0x40e7_5e80_0000_0000;

/// Between two window edges of three steps, from the bottom: 10860 ohms.
pub const LADDER3_1: u64 = 0x40c5_3600_0000_0002;

/// Between two window edges of three steps, from the bottom: 41280 ohms.
pub const LADDER3_2: u64 = 0x40e4_27ff_ffff_ffff;

/// Where the pitch knob of a step stands at first: 0.25.
pub const WIPER_0: u64 = 0x3fd0_0000_0000_0000;

/// Where the pitch knob of a step stands at first: 0.5.
pub const WIPER_1: u64 = 0x3fe0_0000_0000_0000;

/// Where the pitch knob of a step stands at first: 0.75.
pub const WIPER_2: u64 = 0x3fe8_0000_0000_0000;

/// Where the pitch knob of a step stands at first: 0.99.
pub const WIPER_3: u64 = 0x3fef_ae14_7ae1_47ae;

/// Where the tempo knob stands at first: 0.7.
pub const TEMPO: u64 = 0x3fe6_6666_6666_6666;

/// A sequencer: where it stands, and how its knobs and toggles are set.
#[derive(Clone, Copy, Debug)]
pub struct Sequencer {
    /// The parts are numbered from the one after this on.
    pub id0: u32,
    pub origin: Point,
    /// The first number of the wires and ground symbols.
    pub route_id0: u32,
    pub tempo: Real,
    pub wipers: [Real; 4],
    pub beats: [bool; 4],
    /// Three or four; a smaller number is three and a larger one is four.
    pub steps: usize,
}

impl Default for Sequencer {
    fn default() -> (s: Sequencer)
        ensures
            s.id0 == 400,
            s.origin == (0i32, 0i32),
            s.route_id0 == 500,
            s.tempo == (Real { bits: TEMPO }),
            s.wipers@ == seq![
                Real { bits: WIPER_0 },
                Real { bits: WIPER_1 },
                Real { bits: WIPER_2 },
                Real { bits: WIPER_3 },
            ],
            s.beats@ == seq![true, false, true, false],
            s.steps == 4,
    {
        Sequencer {
            id0: 400,
            origin: (0, 0),
            route_id0: 500,
            tempo: Real { bits: TEMPO },
            wipers: [
                Real { bits: WIPER_0 },
                Real { bits: WIPER_1 },
                Real { bits: WIPER_2 },
                Real { bits: WIPER_3 },
            ],
            beats: [true, false, true, false],
            steps: 4,
        }
    }
}

/// The middle row of a step's lane.
pub open spec fn lane_row(k: int) -> int {
    8 + 10 * k
}

/// The rows of the two window edges of a lane.
pub open spec fn low_row(k: int) -> int {
    lane_row(k) - 3
}

pub open spec fn high_row(k: int) -> int {
    lane_row(k) + 1
}

impl Sequencer {
    /// The steps of the bar: three or four.
    pub open spec fn lanes(self) -> int {
        if self.steps < 3 {
            3
        } else if self.steps > 4 {
            4
        } else {
            self.steps as int
        }
    }

    /// The row of the bottom rail, under the last lane.
    pub open spec fn rail_row(self) -> int {
        lane_row(self.lanes() - 1) + 6
    }

    /// A point of the block.
    pub open spec fn at(self, dx: int, dy: int) -> Point {
        sheet::shifted(self.origin, dx, dy)
    }

    /// The number of the block's `k`th part.
    pub open spec fn id(self, k: int) -> u32 {
        (self.id0 + k) as u32
    }

    /// The block is on the grid, and its parts, wires and ground symbols have numbers.
    pub open spec fn fits(self) -> bool {
        &&& sheet::spans(self.origin, 0, -4, 56, self.rail_row())
        &&& self.id0 + 13 + 8 * self.lanes() <= u32::MAX
        &&& self.route_id0 + 26 + 18 * self.lanes() <= u32::MAX
    }

    fn lane_count(&self) -> (n: usize)
        ensures
            n == self.lanes(),
    {
        if self.steps < 3 {
            3
        } else if self.steps > 4 {
            4
        } else {
            self.steps
        }
    }

    /// A point of the block.
    pub fn p(&self, dx: i32, dy: i32) -> (r: Point)
        requires
            sheet::reaches(self.origin, dx as int, dy as int),
        ensures
            r == self.at(dx as int, dy as int),
    {
        shift(self.origin, dx, dy)
    }

    /// The middle row of a lane.
    pub fn lane(&self, k: usize) -> (y: i32)
        requires
            8 + 10 * k <= i32::MAX,
        ensures
            y == lane_row(k as int),
    {
        8 + 10 * (k as i32)
    }

    /// The row of the bottom rail. It follows the number of lanes.
    pub fn railbot(&self) -> (y: i32)
        ensures
            y == self.rail_row(),
    {
        let n: usize = self.lane_count();
        self.lane(n - 1) + 6
    }

    /// Where the supply arrives.
    pub fn rail_in(&self) -> (r: Point)
        requires
            sheet::reaches(self.origin, 0, -4),
        ensures
            r == self.at(0, -4),
    {
        self.p(0, -4)
    }

    /// The pitch: one level for each step.
    pub fn cv(&self) -> (r: Point)
        requires
            sheet::reaches(self.origin, 56, -4),
        ensures
            r == self.at(56, -4),
    {
        self.p(56, -4)
    }

    /// The beat: high for each step whose toggle is closed.
    pub fn beat(&self) -> (r: Point)
        requires
            sheet::reaches(self.origin, 46, -4),
        ensures
            r == self.at(46, -4),
    {
        self.p(46, -4)
    }

    /// A step's own signal, which is high while the step is on.
    pub fn gate(&self, k: usize) -> (r: Point)
        requires
            lane_row(k as int) + 2 <= i32::MAX,
            sheet::reaches(self.origin, 32, lane_row(k as int) + 2),
        ensures
            r == self.at(32, lane_row(k as int) + 2),
    {
        self.p(32, self.lane(k) + 2)
    }

    /// The timer's output: low once a bar.
    pub fn bar(&self) -> (r: Point)
        requires
            sheet::reaches(self.origin, 12, 3),
        ensures
            r == self.at(12, 3),
    {
        self.p(12, 3)
    }

    /// The ramp that the steps are told by.
    pub fn ramp(&self) -> (r: Point)
        requires
            sheet::reaches(self.origin, 6, 0),
        ensures
            r == self.at(6, 0),
    {
        self.p(6, 0)
    }
}

/// What a family of strokes comes to for the first `k` lanes.
pub open spec fn stacked(f: spec_fn(int) -> Seq<Stroke>, k: int) -> Seq<Stroke>
    decreases k,
{
    if k <= 0 {
        Seq::empty()
    } else {
        stacked(f, k - 1) + f(k - 1)
    }
}

/// The resistors between the window edges, from the bottom: equal times on the ramp, not
/// equal voltages.
pub open spec fn ladder_ohms(n: int) -> Seq<Real> {
    if n == 3 {
        seq![Real { bits: LADDER3_0 }, Real { bits: LADDER3_1 }, Real { bits: LADDER3_2 }]
    } else {
        seq![
            Real { bits: LADDER4_0 },
            Real { bits: LADDER4_1 },
            Real { bits: LADDER4_2 },
            Real { bits: LADDER4_3 },
        ]
    }
}

/// The resistors between the window edges.
pub fn ladder(steps: usize) -> (r: Vec<Real>)
    ensures
        r@ == ladder_ohms(steps as int),
{
    let mut v: Vec<Real> = Vec::new();
    if steps == 3 {
        v.push(Real { bits: LADDER3_0 });
        v.push(Real { bits: LADDER3_1 });
        v.push(Real { bits: LADDER3_2 });
    } else {
        v.push(Real { bits: LADDER4_0 });
        v.push(Real { bits: LADDER4_1 });
        v.push(Real { bits: LADDER4_2 });
        v.push(Real { bits: LADDER4_3 });
    }
    assert(v@ =~= ladder_ohms(steps as int));
    v
}

/// The supply rail: down the left margin and along the bottom.
pub open spec fn rail_strokes(sq: Sequencer) -> Seq<Stroke> {
    seq![
        Stroke::Wire { a: sq.at(0, -4), b: sq.at(0, 6) },
        Stroke::Wire { a: sq.at(0, 6), b: sq.at(0, 10) },
        Stroke::Wire { a: sq.at(0, 10), b: sq.at(0, sq.rail_row()) },
        Stroke::Wire { a: sq.at(0, sq.rail_row()), b: sq.at(22, sq.rail_row()) },
        Stroke::Wire { a: sq.at(22, sq.rail_row()), b: sq.at(29, sq.rail_row()) },
    ]
}

fn draw_rail(sh: &mut Sheet, sq: &Sequencer)
    requires
        old(sh).wf(),
        sq.fits(),
    ensures
        final(sh).wf(),
        final(sh).strokes@ == old(sh).strokes@ + rail_strokes(*sq),
{
    let bottom: i32 = sq.railbot();
    sh.wire(sq.p(0, -4), sq.p(0, 6));
    sh.wire(sq.p(0, 6), sq.p(0, 10));
    sh.wire(sq.p(0, 10), sq.p(0, bottom));
    sh.wire(sq.p(0, bottom), sq.p(22, bottom));
    sh.wire(sq.p(22, bottom), sq.p(29, bottom));
    assert(sh.strokes@ =~= old(sh).strokes@ + rail_strokes(*sq));
}

/// The clock: a timer whose capacitor makes the ramp, and the tempo knob.
pub open spec fn clock_strokes(sq: Sequencer) -> Seq<Stroke> {
    seq![
        Stroke::Placed {
            id: sq.id(1),
            kind: ElementKind::Timer555,
            at: sq.at(8, 6),
            facing: Facing::East,
            len: 4,
            mirror: true,
        },
        Stroke::GroundAs { id: sq.id(2), at: sq.at(8, 2), dir: UP },
        Stroke::Two {
            id: sq.id(4),
            kind: resistor(Real { bits: RA_FIXED }),
            a: sq.at(0, 10),
            b: sq.at(6, 10),
        },
        Stroke::Placed {
            id: sq.id(5),
            kind: pot(Real { bits: RA_POT }, sq.tempo),
            at: sq.at(6, 10),
            facing: Facing::East,
            len: 6,
            mirror: true,
        },
        Stroke::Two {
            id: sq.id(6),
            kind: resistor(Real { bits: RB }),
            a: sq.at(14, 5),
            b: sq.at(14, 0),
        },
        Stroke::Two {
            id: sq.id(7),
            kind: capacitor(Real { bits: CT }),
            a: sq.at(2, 0),
            b: sq.at(2, 4),
        },
        Stroke::Wire { a: sq.at(8, 6), b: sq.at(0, 6) },
        Stroke::WireAs { id: sq.id(3), a: sq.at(8, 5), b: sq.at(6, 5) },
        Stroke::Wire { a: sq.at(6, 5), b: sq.at(6, 3) },
        Stroke::Wire { a: sq.at(6, 3), b: sq.at(8, 3) },
        Stroke::Wire { a: sq.at(6, 3), b: sq.at(6, 0) },
        Stroke::Wire { a: sq.at(6, 0), b: sq.at(14, 0) },
        Stroke::Wire { a: sq.at(14, 0), b: sq.at(23, 0) },
        Stroke::Wire { a: sq.at(6, 0), b: sq.at(2, 0) },
        Stroke::Ground { at: sq.at(2, 4), dir: DOWN },
        Stroke::Wire { a: sq.at(9, 12), b: sq.at(12, 12) },
        Stroke::Wire { a: sq.at(12, 12), b: sq.at(12, 10) },
        Stroke::Wire { a: sq.at(12, 5), b: sq.at(12, 10) },
        Stroke::Wire { a: sq.at(12, 5), b: sq.at(14, 5) },
    ]
}

fn draw_clock(sh: &mut Sheet, sq: &Sequencer)
    requires
        old(sh).wf(),
        sq.fits(),
    ensures
        final(sh).wf(),
        final(sh).strokes@ == old(sh).strokes@ + clock_strokes(*sq),
{
    let dip: Vec<Point> = sh.part(
        sq.id0 + 1,
        ElementKind::Timer555,
        sq.p(8, 6),
        Facing::East,
        4,
        true,
    );
    assert(dip@[4] == sq.at(12, 3));
    sh.ground_as(sq.id0 + 2, dip[1], UP);
    sh.two(sq.id0 + 4, resistor(Real { bits: RA_FIXED }), sq.p(0, 10), sq.p(6, 10));
    let tempo: Vec<Point> = sh.part(
        sq.id0 + 5,
        pot(Real { bits: RA_POT }, sq.tempo),
        sq.p(6, 10),
        Facing::East,
        6,
        true,
    );
    sh.two(sq.id0 + 6, resistor(Real { bits: RB }), sq.p(14, 5), sq.p(14, 0));
    sh.two(sq.id0 + 7, capacitor(Real { bits: CT }), sq.p(2, 0), sq.p(2, 4));
    sh.wire(dip[0], sq.p(0, 6));
    sh.wire_as(sq.id0 + 3, dip[2], sq.p(6, 5));
    sh.wire(sq.p(6, 5), sq.p(6, 3));
    sh.wire(sq.p(6, 3), dip[3]);
    sh.wire(sq.p(6, 3), sq.p(6, 0));
    sh.wire(sq.p(6, 0), sq.p(14, 0));
    sh.wire(sq.p(14, 0), sq.p(23, 0));
    sh.wire(sq.p(6, 0), sq.p(2, 0));
    sh.ground(sq.p(2, 4), DOWN);
    sh.wire(tempo[1], sq.p(12, 12));
    sh.wire(sq.p(12, 12), tempo[2]);
    sh.wire(dip[5], sq.p(12, 10));
    sh.wire(dip[5], sq.p(14, 5));
    assert(sh.strokes@ =~= old(sh).strokes@ + clock_strokes(*sq));
}

/// One resistor of the ladder, and its taps. The top of the ladder is the rail.
pub open spec fn ladder_lane(sq: Sequencer, k: int) -> Seq<Stroke> {
    let n = sq.lanes();
    let part = Stroke::Two {
        id: sq.id(8 + k),
        kind: resistor(ladder_ohms(n)[k]),
        a: sq.at(22, low_row(k)),
        b: sq.at(22, high_row(k)),
    };
    let tap = Stroke::Wire { a: sq.at(22, high_row(k)), b: sq.at(24, high_row(k)) };
    if k == n - 1 {
        seq![part, Stroke::Wire { a: sq.at(22, high_row(k)), b: sq.at(22, sq.rail_row()) }, tap]
    } else {
        seq![
            part,
            Stroke::Wire { a: sq.at(22, high_row(k)), b: sq.at(22, low_row(k + 1)) },
            tap,
            Stroke::Wire { a: sq.at(22, low_row(k + 1)), b: sq.at(24, low_row(k + 1)) },
        ]
    }
}

fn draw_ladder_lane(sh: &mut Sheet, sq: &Sequencer, k: usize)
    requires
        old(sh).wf(),
        sq.fits(),
        k < sq.lanes(),
    ensures
        final(sh).wf(),
        final(sh).strokes@ == old(sh).strokes@ + ladder_lane(*sq, k as int),
{
    let n: usize = sq.lane_count();
    let values: Vec<Real> = ladder(n);
    let low: i32 = sq.lane(k) - 3;
    let high: i32 = sq.lane(k) + 1;
    let next: i32 = sq.lane(k + 1) - 3;
    sh.two(sq.id0 + 8 + k as u32, resistor(values[k]), sq.p(22, low), sq.p(22, high));
    if k == n - 1 {
        sh.wire(sq.p(22, high), sq.p(22, sq.railbot()));
        sh.wire(sq.p(22, high), sq.p(24, high));
    } else {
        sh.wire(sq.p(22, high), sq.p(22, next));
        sh.wire(sq.p(22, high), sq.p(24, high));
        sh.wire(sq.p(22, next), sq.p(24, next));
    }
    assert(sh.strokes@ =~= old(sh).strokes@ + ladder_lane(*sq, k as int));
}

/// The comparators of a lane: two, mirrored about the lane, with one bias between them.
pub open spec fn decoder_lane(sq: Sequencer, k: int) -> Seq<Stroke> {
    let y = lane_row(k);
    let first = seq![
        Stroke::Placed {
            id: sq.id(9 + sq.lanes() + 2 * k),
            kind: ElementKind::Ota,
            at: sq.at(24, y - 2),
            facing: Facing::East,
            len: 4,
            mirror: true,
        },
        Stroke::Placed {
            id: sq.id(10 + sq.lanes() + 2 * k),
            kind: ElementKind::Ota,
            at: sq.at(24, y + 2),
            facing: Facing::East,
            len: 4,
            mirror: false,
        },
        Stroke::Wire { a: sq.at(28, y - 2), b: sq.at(28, y + 2) },
        Stroke::Wire { a: sq.at(28, y + 2), b: sq.at(32, y + 2) },
        Stroke::Wire { a: sq.at(27, y), b: sq.at(29, y) },
    ];
    if k > 0 {
        first.push(Stroke::Wire { a: sq.at(29, lane_row(k - 1)), b: sq.at(29, y) })
    } else {
        first
    }
}

fn draw_decoder_lane(sh: &mut Sheet, sq: &Sequencer, k: usize)
    requires
        old(sh).wf(),
        sq.fits(),
        k < sq.lanes(),
    ensures
        final(sh).wf(),
        final(sh).strokes@ == old(sh).strokes@ + decoder_lane(*sq, k as int),
{
    let n: usize = sq.lane_count();
    let y: i32 = sq.lane(k);
    let id: u32 = sq.id0 + 9 + n as u32 + 2 * (k as u32);
    let a: Vec<Point> = sh.part(id, ElementKind::Ota, sq.p(24, y - 2), Facing::East, 4, true);
    let b: Vec<Point> = sh.part(id + 1, ElementKind::Ota, sq.p(24, y + 2), Facing::East, 4, false);
    assert(a@[3] == b@[3]);
    assert(a@[0] == sq.at(24, y - 1) && b@[1] == sq.at(24, y + 3));
    sh.wire(a[2], b[2]);
    sh.wire(b[2], sq.gate(k));
    sh.wire(a[3], sq.p(29, y));
    if k > 0 {
        sh.wire(sq.p(29, sq.lane(k - 1)), sq.p(29, y));
    }
    assert(sh.strokes@ =~= old(sh).strokes@ + decoder_lane(*sq, k as int));
}

/// The row that the ramp bus has reached above a lane.
pub open spec fn ramp_row(k: int) -> int {
    if k <= 0 {
        0
    } else {
        lane_row(k - 1) + 3
    }
}

/// The ramp bus past a lane: down to each of its comparators in turn.
pub open spec fn ramp_lane(sq: Sequencer, k: int) -> Seq<Stroke> {
    let y = lane_row(k);
    seq![
        Stroke::Wire { a: sq.at(23, ramp_row(k)), b: sq.at(23, y - 1) },
        Stroke::Wire { a: sq.at(23, y - 1), b: sq.at(24, y - 1) },
        Stroke::Wire { a: sq.at(23, y - 1), b: sq.at(23, y + 3) },
        Stroke::Wire { a: sq.at(23, y + 3), b: sq.at(24, y + 3) },
    ]
}

fn draw_ramp_lane(sh: &mut Sheet, sq: &Sequencer, k: usize)
    requires
        old(sh).wf(),
        sq.fits(),
        k < sq.lanes(),
    ensures
        final(sh).wf(),
        final(sh).strokes@ == old(sh).strokes@ + ramp_lane(*sq, k as int),
{
    let y: i32 = sq.lane(k);
    let from: i32 = if k == 0 {
        0
    } else {
        sq.lane(k - 1) + 3
    };
    sh.wire(sq.p(23, from), sq.p(23, y - 1));
    sh.wire(sq.p(23, y - 1), sq.p(24, y - 1));
    sh.wire(sq.p(23, y - 1), sq.p(23, y + 3));
    sh.wire(sq.p(23, y + 3), sq.p(24, y + 3));
    assert(sh.strokes@ =~= old(sh).strokes@ + ramp_lane(*sq, k as int));
}

/// The clamp of a lane's gate.
pub open spec fn clamp_lane(sq: Sequencer, k: int) -> Seq<Stroke> {
    seq![
        Stroke::Two {
            id: sq.id(9 + 3 * sq.lanes() + k),
            kind: ElementKind::Zener { vz: Real { bits: VZ_GATE } },
            a: sq.at(32, lane_row(k) + 4),
            b: sq.at(32, lane_row(k) + 2),
        },
    ]
}

/// The ground of a lane's clamp. The first has a number of its own.
pub open spec fn clamp_ground_lane(sq: Sequencer, k: int) -> Seq<Stroke> {
    if k == 0 {
        seq![
            Stroke::GroundAs {
                id: sq.id(9 + 4 * sq.lanes()),
                at: sq.at(32, lane_row(k) + 4),
                dir: DOWN,
            },
        ]
    } else {
        seq![Stroke::Ground { at: sq.at(32, lane_row(k) + 4), dir: DOWN }]
    }
}

fn draw_clamp_lane(sh: &mut Sheet, sq: &Sequencer, k: usize)
    requires
        old(sh).wf(),
        sq.fits(),
        k < sq.lanes(),
    ensures
        final(sh).wf(),
        final(sh).strokes@ == old(sh).strokes@ + clamp_lane(*sq, k as int),
{
    let n: usize = sq.lane_count();
    let y: i32 = sq.lane(k);
    sh.two(
        sq.id0 + 9 + 3 * (n as u32) + k as u32,
        ElementKind::Zener { vz: Real { bits: VZ_GATE } },
        sq.p(32, y + 4),
        sq.p(32, y + 2),
    );
    assert(sh.strokes@ =~= old(sh).strokes@ + clamp_lane(*sq, k as int));
}

fn draw_clamp_ground_lane(sh: &mut Sheet, sq: &Sequencer, k: usize)
    requires
        old(sh).wf(),
        sq.fits(),
        k < sq.lanes(),
    ensures
        final(sh).wf(),
        final(sh).strokes@ == old(sh).strokes@ + clamp_ground_lane(*sq, k as int),
{
    let n: usize = sq.lane_count();
    let y: i32 = sq.lane(k);
    if k == 0 {
        sh.ground_as(sq.id0 + 9 + 4 * (n as u32), sq.p(32, y + 4), DOWN);
    } else {
        sh.ground(sq.p(32, y + 4), DOWN);
    }
    assert(sh.strokes@ =~= old(sh).strokes@ + clamp_ground_lane(*sq, k as int));
}

/// The pitch knob of a lane, across its gate, and the diode onto the pitch bus.
pub open spec fn pitch_lane(sq: Sequencer, k: int) -> Seq<Stroke> {
    let y = lane_row(k);
    let first = seq![
        Stroke::Wire { a: sq.at(32, y + 2), b: sq.at(38, y + 2) },
        Stroke::Placed {
            id: sq.id(10 + 4 * sq.lanes() + 2 * k),
            kind: pot(Real { bits: POT_CV }, sq.wipers@[k]),
            at: sq.at(44, y + 2),
            facing: Facing::West,
            len: 6,
            mirror: true,
        },
        Stroke::Ground { at: sq.at(44, y + 2), dir: RIGHT },
        Stroke::Two {
            id: sq.id(11 + 4 * sq.lanes() + 2 * k),
            kind: ElementKind::Diode,
            a: sq.at(41, y),
            b: sq.at(45, y),
        },
        Stroke::Wire { a: sq.at(45, y), b: sq.at(48, y) },
    ];
    if k > 0 {
        first.push(Stroke::Wire { a: sq.at(48, lane_row(k - 1)), b: sq.at(48, y) })
    } else {
        first
    }
}

fn draw_pitch_lane(sh: &mut Sheet, sq: &Sequencer, k: usize)
    requires
        old(sh).wf(),
        sq.fits(),
        k < sq.lanes(),
    ensures
        final(sh).wf(),
        final(sh).strokes@ == old(sh).strokes@ + pitch_lane(*sq, k as int),
{
    let n: usize = sq.lane_count();
    let y: i32 = sq.lane(k);
    let id: u32 = sq.id0 + 10 + 4 * (n as u32) + 2 * (k as u32);
    sh.wire(sq.gate(k), sq.p(38, y + 2));
    let knob: Vec<Point> = sh.part(
        id,
        pot(Real { bits: POT_CV }, sq.wipers[k]),
        sq.p(44, y + 2),
        Facing::West,
        6,
        true,
    );
    sh.ground(knob[0], RIGHT);
    sh.two(id + 1, ElementKind::Diode, knob[1], sq.p(45, y));
    sh.wire(sq.p(45, y), sq.p(48, y));
    if k > 0 {
        sh.wire(sq.p(48, sq.lane(k - 1)), sq.p(48, y));
    }
    assert(sh.strokes@ =~= old(sh).strokes@ + pitch_lane(*sq, k as int));
}

/// What pulls the pitch bus down, and what buffers it on its way out.
pub open spec fn buffer_strokes(sq: Sequencer) -> Seq<Stroke> {
    let n = sq.lanes();
    seq![
        Stroke::Wire { a: sq.at(48, lane_row(n - 1)), b: sq.at(48, lane_row(0)) },
        Stroke::Wire { a: sq.at(48, lane_row(0)), b: sq.at(48, 0) },
        Stroke::Wire { a: sq.at(48, 0), b: sq.at(48, -3) },
        Stroke::Two {
            id: sq.id(10 + 6 * n),
            kind: resistor(Real { bits: R_CV }),
            a: sq.at(48, 0),
            b: sq.at(52, 0),
        },
        Stroke::GroundAs { id: sq.id(11 + 6 * n), at: sq.at(52, 0), dir: RIGHT },
        Stroke::Wire { a: sq.at(48, -3), b: sq.at(52, -3) },
        Stroke::Placed {
            id: sq.id(12 + 6 * n),
            kind: opamp(Real { bits: VOLTS_9 }),
            at: sq.at(52, -2),
            facing: Facing::East,
            len: 4,
            mirror: false,
        },
        Stroke::Wire { a: sq.at(56, -2), b: sq.at(56, -1) },
        Stroke::Wire { a: sq.at(56, -1), b: sq.at(52, -1) },
        Stroke::Wire { a: sq.at(52, -1), b: sq.at(52, -1) },
        Stroke::Wire { a: sq.at(56, -2), b: sq.at(56, -4) },
    ]
}

fn draw_buffer(sh: &mut Sheet, sq: &Sequencer)
    requires
        old(sh).wf(),
        sq.fits(),
    ensures
        final(sh).wf(),
        final(sh).strokes@ == old(sh).strokes@ + buffer_strokes(*sq),
{
    let n: usize = sq.lane_count();
    let id: u32 = sq.id0 + 10 + 6 * (n as u32);
    sh.wire(sq.p(48, sq.lane(n - 1)), sq.p(48, sq.lane(0)));
    sh.wire(sq.p(48, sq.lane(0)), sq.p(48, 0));
    sh.wire(sq.p(48, 0), sq.p(48, -3));
    sh.two(id, resistor(Real { bits: R_CV }), sq.p(48, 0), sq.p(52, 0));
    sh.ground_as(id + 1, sq.p(52, 0), RIGHT);
    sh.wire(sq.p(48, -3), sq.p(52, -3));
    let buf: Vec<Point> = sh.part(
        id + 2,
        opamp(Real { bits: VOLTS_9 }),
        sq.p(52, -2),
        Facing::East,
        4,
        false,
    );
    assert(buf@[0] == sq.at(52, -3));
    sh.wire(buf[2], sq.p(56, -1));
    sh.wire(sq.p(56, -1), sq.p(52, -1));
    sh.wire(sq.p(52, -1), buf[1]);
    sh.wire(buf[2], sq.cv());
    assert(sh.strokes@ =~= old(sh).strokes@ + buffer_strokes(*sq));
}

/// The beat toggle of a lane, and the diode onto the beat bus.
pub open spec fn beat_lane(sq: Sequencer, k: int) -> Seq<Stroke> {
    let y = lane_row(k);
    let first = seq![
        Stroke::Wire { a: sq.at(38, y + 2), b: sq.at(38, y + 4) },
        Stroke::Two {
            id: sq.id(13 + 6 * sq.lanes() + 2 * k),
            kind: ElementKind::Switch { closed: sq.beats@[k] },
            a: sq.at(38, y + 4),
            b: sq.at(42, y + 4),
        },
        Stroke::Two {
            id: sq.id(14 + 6 * sq.lanes() + 2 * k),
            kind: ElementKind::Diode,
            a: sq.at(42, y + 4),
            b: sq.at(46, y + 4),
        },
    ];
    if k > 0 {
        first.push(Stroke::Wire { a: sq.at(46, lane_row(k - 1) + 4), b: sq.at(46, y + 4) })
    } else {
        first
    }
}

fn draw_beat_lane(sh: &mut Sheet, sq: &Sequencer, k: usize)
    requires
        old(sh).wf(),
        sq.fits(),
        k < sq.lanes(),
    ensures
        final(sh).wf(),
        final(sh).strokes@ == old(sh).strokes@ + beat_lane(*sq, k as int),
{
    let n: usize = sq.lane_count();
    let y: i32 = sq.lane(k);
    let id: u32 = sq.id0 + 13 + 6 * (n as u32) + 2 * (k as u32);
    sh.wire(sq.p(38, y + 2), sq.p(38, y + 4));
    sh.two(id, ElementKind::Switch { closed: sq.beats[k] }, sq.p(38, y + 4), sq.p(42, y + 4));
    sh.two(id + 1, ElementKind::Diode, sq.p(42, y + 4), sq.p(46, y + 4));
    if k > 0 {
        sh.wire(sq.p(46, sq.lane(k - 1) + 4), sq.p(46, y + 4));
    }
    assert(sh.strokes@ =~= old(sh).strokes@ + beat_lane(*sq, k as int));
}

/// What pulls the beat bus down, and the way out.
pub open spec fn beat_out_strokes(sq: Sequencer) -> Seq<Stroke> {
    seq![
        Stroke::Wire { a: sq.at(46, lane_row(0) + 4), b: sq.at(46, 2) },
        Stroke::Two {
            id: sq.id(13 + 8 * sq.lanes()),
            kind: resistor(Real { bits: R_BEAT }),
            a: sq.at(46, 2),
            b: sq.at(42, 2),
        },
        Stroke::Ground { at: sq.at(42, 2), dir: LEFT },
        Stroke::Wire { a: sq.at(46, 2), b: sq.at(46, -4) },
    ]
}

/// The bias of all comparators, off the bottom rail.
pub open spec fn bias_strokes(sq: Sequencer) -> Seq<Stroke> {
    seq![
        Stroke::Two {
            id: sq.id(8 + sq.lanes()),
            kind: resistor(Real { bits: R_CBIAS }),
            a: sq.at(29, sq.rail_row()),
            b: sq.at(29, sq.rail_row() - 2),
        },
        Stroke::Wire {
            a: sq.at(29, sq.rail_row() - 2),
            b: sq.at(29, lane_row(sq.lanes() - 1)),
        },
    ]
}

/// The strokes of the whole block.
pub open spec fn sequencer_strokes(sq: Sequencer) -> Seq<Stroke> {
    let n = sq.lanes();
    rail_strokes(sq) + clock_strokes(sq) + seq![Stroke::Ground { at: sq.at(22, 5), dir: LEFT }]
        + stacked(|k: int| ladder_lane(sq, k), n) + seq![
        Stroke::Ground { at: sq.at(24, 5), dir: LEFT },
    ] + bias_strokes(sq) + stacked(|k: int| decoder_lane(sq, k), n) + stacked(
        |k: int| ramp_lane(sq, k),
        n,
    ) + stacked(|k: int| clamp_lane(sq, k), n) + stacked(|k: int| clamp_ground_lane(sq, k), n)
        + seq![Stroke::Skip] + stacked(|k: int| pitch_lane(sq, k), n) + buffer_strokes(sq)
        + stacked(|k: int| beat_lane(sq, k), n) + beat_out_strokes(sq)
}

/// Lanes that take no more than so many numbers each, and fewer in one of them, take no more
/// than the sum.
proof fn lemma_stacked_numbers(f: spec_fn(int) -> Seq<Stroke>, k: int, each: int, less: int, at: int)
    requires
        0 <= k <= 4,
        forall|i: int|
            0 <= i < k ==> sheet::numbers(#[trigger] f(i)) <= each - if i == at {
                less
            } else {
                0
            },
    ensures
        sheet::numbers(stacked(f, k)) <= each * k - if 0 <= at < k {
            less
        } else {
            0
        },
    decreases k,
{
    if k > 0 {
        lemma_stacked_numbers(f, k - 1, each, less, at);
        sheet::lemma_numbers_add_up(stacked(f, k - 1), f(k - 1));
        assert(sheet::numbers(f(k - 1)) <= each - if k - 1 == at {
            less
        } else {
            0
        });
        assert(each * (k - 1) + each == each * k) by (nonlinear_arith);
    } else {
        assert(each * k == 0) by (nonlinear_arith)
            requires
                k == 0,
        ;
    }
}

/// The numbers that the blocks outside the lanes take.
proof fn lemma_block_numbers(sq: Sequencer)
    ensures
        sheet::numbers(rail_strokes(sq)) <= 5,
        sheet::numbers(clock_strokes(sq)) <= 12,
        sheet::numbers(bias_strokes(sq)) <= 1,
        sheet::numbers(buffer_strokes(sq)) <= 7,
        sheet::numbers(beat_out_strokes(sq)) <= 3,
{
    reveal_with_fuel(sheet::numbered_to, 21);
}

/// The numbers that a lane takes.
proof fn lemma_lane_numbers(sq: Sequencer, k: int)
    ensures
        sheet::numbers(ladder_lane(sq, k)) <= if k == sq.lanes() - 1 {
            2int
        } else {
            3
        },
        sheet::numbers(decoder_lane(sq, k)) <= if k == 0 {
            3int
        } else {
            4
        },
        sheet::numbers(ramp_lane(sq, k)) <= 4,
        sheet::numbers(clamp_lane(sq, k)) <= 0,
        sheet::numbers(clamp_ground_lane(sq, k)) <= if k == 0 {
            0int
        } else {
            1
        },
        sheet::numbers(pitch_lane(sq, k)) <= if k == 0 {
            3int
        } else {
            4
        },
        sheet::numbers(beat_lane(sq, k)) <= if k == 0 {
            1int
        } else {
            2
        },
{
    reveal_with_fuel(sheet::numbered_to, 8);
}

/// The numbers that the wires and ground symbols of the block take.
proof fn lemma_sequencer_numbers(sq: Sequencer)
    ensures
        sheet::numbers(sequencer_strokes(sq)) <= 26 + 18 * sq.lanes(),
{
    let n = sq.lanes();
    let fl = |k: int| ladder_lane(sq, k);
    let fd = |k: int| decoder_lane(sq, k);
    let fr = |k: int| ramp_lane(sq, k);
    let fc = |k: int| clamp_lane(sq, k);
    let fg = |k: int| clamp_ground_lane(sq, k);
    let fp = |k: int| pitch_lane(sq, k);
    let fb = |k: int| beat_lane(sq, k);
    let g1 = seq![Stroke::Ground { at: sq.at(22, 5), dir: LEFT }];
    let g2 = seq![Stroke::Ground { at: sq.at(24, 5), dir: LEFT }];
    let skip = seq![Stroke::Skip];
    let a1 = rail_strokes(sq) + clock_strokes(sq);
    let a2 = a1 + g1;
    let a3 = a2 + stacked(fl, n);
    let a4 = a3 + g2;
    let a5 = a4 + bias_strokes(sq);
    let a6 = a5 + stacked(fd, n);
    let a7 = a6 + stacked(fr, n);
    let a8 = a7 + stacked(fc, n);
    let a9 = a8 + stacked(fg, n);
    let b1 = a9 + skip;
    let b2 = b1 + stacked(fp, n);
    let b3 = b2 + buffer_strokes(sq);
    let b4 = b3 + stacked(fb, n);
    lemma_block_numbers(sq);
    assert(sheet::numbers(g1) <= 1 && sheet::numbers(g2) <= 1 && sheet::numbers(skip) <= 1) by {
        reveal_with_fuel(sheet::numbered_to, 2);
    }
    assert forall|k: int| true implies sheet::numbers(#[trigger] fl(k)) <= if k == n - 1 {
        2int
    } else {
        3
    } by {
        lemma_lane_numbers(sq, k);
    }
    assert forall|k: int| true implies sheet::numbers(#[trigger] fd(k)) <= if k == 0 {
        3int
    } else {
        4
    } by {
        lemma_lane_numbers(sq, k);
    }
    assert forall|k: int| true implies sheet::numbers(#[trigger] fr(k)) <= 4 by {
        lemma_lane_numbers(sq, k);
    }
    assert forall|k: int| true implies sheet::numbers(#[trigger] fc(k)) <= 0 by {
        lemma_lane_numbers(sq, k);
    }
    assert forall|k: int| true implies sheet::numbers(#[trigger] fg(k)) <= if k == 0 {
        0int
    } else {
        1
    } by {
        lemma_lane_numbers(sq, k);
    }
    assert forall|k: int| true implies sheet::numbers(#[trigger] fp(k)) <= if k == 0 {
        3int
    } else {
        4
    } by {
        lemma_lane_numbers(sq, k);
    }
    assert forall|k: int| true implies sheet::numbers(#[trigger] fb(k)) <= if k == 0 {
        1int
    } else {
        2
    } by {
        lemma_lane_numbers(sq, k);
    }
    lemma_stacked_numbers(fl, n, 3, 1, n - 1);
    lemma_stacked_numbers(fd, n, 4, 1, 0);
    lemma_stacked_numbers(fr, n, 4, 0, 0);
    lemma_stacked_numbers(fc, n, 0, 0, 0);
    lemma_stacked_numbers(fg, n, 1, 1, 0);
    lemma_stacked_numbers(fp, n, 4, 1, 0);
    lemma_stacked_numbers(fb, n, 2, 1, 0);
    sheet::lemma_numbers_add_up(rail_strokes(sq), clock_strokes(sq));
    sheet::lemma_numbers_add_up(a1, g1);
    sheet::lemma_numbers_add_up(a2, stacked(fl, n));
    sheet::lemma_numbers_add_up(a3, g2);
    sheet::lemma_numbers_add_up(a4, bias_strokes(sq));
    sheet::lemma_numbers_add_up(a5, stacked(fd, n));
    sheet::lemma_numbers_add_up(a6, stacked(fr, n));
    sheet::lemma_numbers_add_up(a7, stacked(fc, n));
    sheet::lemma_numbers_add_up(a8, stacked(fg, n));
    sheet::lemma_numbers_add_up(a9, skip);
    sheet::lemma_numbers_add_up(b1, stacked(fp, n));
    sheet::lemma_numbers_add_up(b2, buffer_strokes(sq));
    sheet::lemma_numbers_add_up(b3, stacked(fb, n));
    sheet::lemma_numbers_add_up(b4, beat_out_strokes(sq));
    assert(b4 + beat_out_strokes(sq) == sequencer_strokes(sq));
}

/// Draws the ladder.
fn draw_ladder_lanes(sh: &mut Sheet, sq: &Sequencer)
    requires
        old(sh).wf(),
        sq.fits(),
    ensures
        final(sh).wf(),
        final(sh).strokes@ == old(sh).strokes@ + stacked(|k: int| ladder_lane(*sq, k), sq.lanes()),
{
    let n: usize = sq.lane_count();
    let ghost f = |k: int| ladder_lane(*sq, k);
    let ghost start = sh.strokes@;
    let mut k: usize = 0;
    assert(start + stacked(f, 0) =~= start);
    while k < n
        invariant
            k <= n,
            n == sq.lanes(),
            sq.fits(),
            sh.wf(),
            f == (|k: int| ladder_lane(*sq, k)),
            sh.strokes@ == start + stacked(f, k as int),
        decreases n - k,
    {
        draw_ladder_lane(sh, sq, k);
        proof {
            assert(sh.strokes@ =~= start + stacked(f, k + 1));
        }
        k += 1;
    }
}

/// Draws the comparators of all lanes.
fn draw_decoder_lanes(sh: &mut Sheet, sq: &Sequencer)
    requires
        old(sh).wf(),
        sq.fits(),
    ensures
        final(sh).wf(),
        final(sh).strokes@ == old(sh).strokes@ + stacked(|k: int| decoder_lane(*sq, k), sq.lanes()),
{
    let n: usize = sq.lane_count();
    let ghost f = |k: int| decoder_lane(*sq, k);
    let ghost start = sh.strokes@;
    let mut k: usize = 0;
    assert(start + stacked(f, 0) =~= start);
    while k < n
        invariant
            k <= n,
            n == sq.lanes(),
            sq.fits(),
            sh.wf(),
            f == (|k: int| decoder_lane(*sq, k)),
            sh.strokes@ == start + stacked(f, k as int),
        decreases n - k,
    {
        draw_decoder_lane(sh, sq, k);
        proof {
            assert(sh.strokes@ =~= start + stacked(f, k + 1));
        }
        k += 1;
    }
}

/// Draws the ramp bus.
fn draw_ramp_lanes(sh: &mut Sheet, sq: &Sequencer)
    requires
        old(sh).wf(),
        sq.fits(),
    ensures
        final(sh).wf(),
        final(sh).strokes@ == old(sh).strokes@ + stacked(|k: int| ramp_lane(*sq, k), sq.lanes()),
{
    let n: usize = sq.lane_count();
    let ghost f = |k: int| ramp_lane(*sq, k);
    let ghost start = sh.strokes@;
    let mut k: usize = 0;
    assert(start + stacked(f, 0) =~= start);
    while k < n
        invariant
            k <= n,
            n == sq.lanes(),
            sq.fits(),
            sh.wf(),
            f == (|k: int| ramp_lane(*sq, k)),
            sh.strokes@ == start + stacked(f, k as int),
        decreases n - k,
    {
        draw_ramp_lane(sh, sq, k);
        proof {
            assert(sh.strokes@ =~= start + stacked(f, k + 1));
        }
        k += 1;
    }
}

/// Draws the clamps of all lanes.
fn draw_clamp_lanes(sh: &mut Sheet, sq: &Sequencer)
    requires
        old(sh).wf(),
        sq.fits(),
    ensures
        final(sh).wf(),
        final(sh).strokes@ == old(sh).strokes@ + stacked(|k: int| clamp_lane(*sq, k), sq.lanes()),
{
    let n: usize = sq.lane_count();
    let ghost f = |k: int| clamp_lane(*sq, k);
    let ghost start = sh.strokes@;
    let mut k: usize = 0;
    assert(start + stacked(f, 0) =~= start);
    while k < n
        invariant
            k <= n,
            n == sq.lanes(),
            sq.fits(),
            sh.wf(),
            f == (|k: int| clamp_lane(*sq, k)),
            sh.strokes@ == start + stacked(f, k as int),
        decreases n - k,
    {
        draw_clamp_lane(sh, sq, k);
        proof {
            assert(sh.strokes@ =~= start + stacked(f, k + 1));
        }
        k += 1;
    }
}

/// Draws the grounds of the clamps.
fn draw_clamp_ground_lanes(sh: &mut Sheet, sq: &Sequencer)
    requires
        old(sh).wf(),
        sq.fits(),
    ensures
        final(sh).wf(),
        final(sh).strokes@ == old(sh).strokes@ + stacked(|k: int| clamp_ground_lane(*sq, k), sq.lanes()),
{
    let n: usize = sq.lane_count();
    let ghost f = |k: int| clamp_ground_lane(*sq, k);
    let ghost start = sh.strokes@;
    let mut k: usize = 0;
    assert(start + stacked(f, 0) =~= start);
    while k < n
        invariant
            k <= n,
            n == sq.lanes(),
            sq.fits(),
            sh.wf(),
            f == (|k: int| clamp_ground_lane(*sq, k)),
            sh.strokes@ == start + stacked(f, k as int),
        decreases n - k,
    {
        draw_clamp_ground_lane(sh, sq, k);
        proof {
            assert(sh.strokes@ =~= start + stacked(f, k + 1));
        }
        k += 1;
    }
}

/// Draws the pitch knobs of all lanes.
fn draw_pitch_lanes(sh: &mut Sheet, sq: &Sequencer)
    requires
        old(sh).wf(),
        sq.fits(),
    ensures
        final(sh).wf(),
        final(sh).strokes@ == old(sh).strokes@ + stacked(|k: int| pitch_lane(*sq, k), sq.lanes()),
{
    let n: usize = sq.lane_count();
    let ghost f = |k: int| pitch_lane(*sq, k);
    let ghost start = sh.strokes@;
    let mut k: usize = 0;
    assert(start + stacked(f, 0) =~= start);
    while k < n
        invariant
            k <= n,
            n == sq.lanes(),
            sq.fits(),
            sh.wf(),
            f == (|k: int| pitch_lane(*sq, k)),
            sh.strokes@ == start + stacked(f, k as int),
        decreases n - k,
    {
        draw_pitch_lane(sh, sq, k);
        proof {
            assert(sh.strokes@ =~= start + stacked(f, k + 1));
        }
        k += 1;
    }
}

/// Draws the beat toggles of all lanes.
fn draw_beat_lanes(sh: &mut Sheet, sq: &Sequencer)
    requires
        old(sh).wf(),
        sq.fits(),
    ensures
        final(sh).wf(),
        final(sh).strokes@ == old(sh).strokes@ + stacked(|k: int| beat_lane(*sq, k), sq.lanes()),
{
    let n: usize = sq.lane_count();
    let ghost f = |k: int| beat_lane(*sq, k);
    let ghost start = sh.strokes@;
    let mut k: usize = 0;
    assert(start + stacked(f, 0) =~= start);
    while k < n
        invariant
            k <= n,
            n == sq.lanes(),
            sq.fits(),
            sh.wf(),
            f == (|k: int| beat_lane(*sq, k)),
            sh.strokes@ == start + stacked(f, k as int),
        decreases n - k,
    {
        draw_beat_lane(sh, sq, k);
        proof {
            assert(sh.strokes@ =~= start + stacked(f, k + 1));
        }
        k += 1;
    }
}

/// Draws the bias of all comparators.
fn draw_bias(sh: &mut Sheet, sq: &Sequencer)
    requires
        old(sh).wf(),
        sq.fits(),
    ensures
        final(sh).wf(),
        final(sh).strokes@ == old(sh).strokes@ + bias_strokes(*sq),
{
    let n: usize = sq.lane_count();
    let bottom: i32 = sq.railbot();
    sh.two(
        sq.id0 + 8 + n as u32,
        resistor(Real { bits: R_CBIAS }),
        sq.p(29, bottom),
        sq.p(29, bottom - 2),
    );
    sh.wire(sq.p(29, bottom - 2), sq.p(29, sq.lane(n - 1)));
    assert(sh.strokes@ =~= old(sh).strokes@ + bias_strokes(*sq));
}

/// Draws what pulls the beat bus down, and the way out.
fn draw_beat_out(sh: &mut Sheet, sq: &Sequencer)
    requires
        old(sh).wf(),
        sq.fits(),
    ensures
        final(sh).wf(),
        final(sh).strokes@ == old(sh).strokes@ + beat_out_strokes(*sq),
{
    let n: usize = sq.lane_count();
    sh.wire(sq.p(46, sq.lane(0) + 4), sq.p(46, 2));
    sh.two(
        sq.id0 + 13 + 8 * (n as u32),
        resistor(Real { bits: R_BEAT }),
        sq.p(46, 2),
        sq.p(42, 2),
    );
    sh.ground(sq.p(42, 2), LEFT);
    sh.wire(sq.p(46, 2), sq.beat());
    assert(sh.strokes@ =~= old(sh).strokes@ + beat_out_strokes(*sq));
}

/// Draws one ground symbol.
fn draw_ground(sh: &mut Sheet, at: Point, dir: u8)
    requires
        old(sh).wf(),
    ensures
        final(sh).wf(),
        final(sh).strokes@ == old(sh).strokes@ + seq![Stroke::Ground { at, dir }],
{
    sh.ground(at, dir);
    assert(sh.strokes@ =~= old(sh).strokes@ + seq![Stroke::Ground { at, dir }]);
}

/// The sequencer's parts.
pub fn sequencer(sq: &Sequencer) -> (r: Vec<ElementSpec>)
    requires
        sq.fits(),
    ensures
        lists::views(r@) == sheet::picture(sequencer_strokes(*sq), sq.route_id0),
{
    let mut sh: Sheet = Sheet::new();
    draw_rail(&mut sh, sq);
    assert(sh.strokes@ =~= rail_strokes(*sq));
    draw_clock(&mut sh, sq);
    draw_ground(&mut sh, sq.p(22, 5), LEFT);
    draw_ladder_lanes(&mut sh, sq);
    draw_ground(&mut sh, sq.p(24, 5), LEFT);
    draw_bias(&mut sh, sq);
    draw_decoder_lanes(&mut sh, sq);
    draw_ramp_lanes(&mut sh, sq);
    draw_clamp_lanes(&mut sh, sq);
    draw_clamp_ground_lanes(&mut sh, sq);
    let ghost had = sh.strokes@;
    sh.skip();
    assert(sh.strokes@ =~= had + seq![Stroke::Skip]);
    draw_pitch_lanes(&mut sh, sq);
    draw_buffer(&mut sh, sq);
    draw_beat_lanes(&mut sh, sq);
    draw_beat_out(&mut sh, sq);
    proof {
        assert(sh.strokes@ == sequencer_strokes(*sq));
        lemma_sequencer_numbers(*sq);
        sheet::lemma_numbers_from(sh.strokes@, sq.route_id0 as int, sh.strokes@.len() as int);
    }
    sh.finish(sq.route_id0)
}

/// The numbers of the parts that a player touches.
#[derive(Clone, Copy, Debug)]
pub struct SeqIds {
    pub tempo: u32,
    pub pots: [u32; 4],
    pub switches: [u32; 4],
    /// How many of the pitch knobs and toggles there are.
    pub steps: usize,
}

/// The numbers of the parts that a player touches; those of a step that there is not are
/// zero.
pub fn seq_ids(sq: &Sequencer) -> (r: SeqIds)
    requires
        sq.fits(),
    ensures
        r.steps == sq.lanes(),
        r.tempo == sq.id(5),
        forall|k: int|
            0 <= k < 4 ==> #[trigger] r.pots@[k] == if k < sq.lanes() {
                sq.id(10 + 4 * sq.lanes() + 2 * k)
            } else {
                0
            },
        forall|k: int|
            0 <= k < 4 ==> #[trigger] r.switches@[k] == if k < sq.lanes() {
                sq.id(13 + 6 * sq.lanes() + 2 * k)
            } else {
                0
            },
{
    let n: usize = sq.lane_count();
    let knob: u32 = sq.id0 + 10 + 4 * (n as u32);
    let toggle: u32 = sq.id0 + 13 + 6 * (n as u32);
    let last: bool = n == 4;
    SeqIds {
        tempo: sq.id0 + 5,
        pots: [
            knob,
            knob + 2,
            knob + 4,
            if last {
                knob + 6
            } else {
                0
            },
        ],
        switches: [
            toggle,
            toggle + 2,
            toggle + 4,
            if last {
                toggle + 6
            } else {
                0
            },
        ],
        steps: n,
    }
}

proof fn lemma_stacked_holds(f: spec_fn(int) -> Seq<Stroke>, n: int, k: int, s: Stroke)
    requires
        0 <= k < n,
        f(k).contains(s),
    ensures
        stacked(f, n).contains(s),
    decreases n,
{
    if k == n - 1 {
        lemma_joined_holds(stacked(f, n - 1), f(n - 1), s);
    } else {
        lemma_stacked_holds(f, n - 1, k, s);
        lemma_joined_holds(stacked(f, n - 1), f(n - 1), s);
    }
}

proof fn lemma_joined_holds(a: Seq<Stroke>, b: Seq<Stroke>, s: Stroke)
    ensures
        (a + b).contains(s) <==> a.contains(s) || b.contains(s),
{
    if a.contains(s) {
        let i = choose|i: int| 0 <= i < a.len() && a[i] == s;
        assert((a + b)[i] == s);
    }
    if b.contains(s) {
        let i = choose|i: int| 0 <= i < b.len() && b[i] == s;
        assert((a + b)[a.len() + i] == s);
    }
    if (a + b).contains(s) {
        let i = choose|i: int| 0 <= i < (a + b).len() && (a + b)[i] == s;
        if i < a.len() {
            assert(a[i] == s);
        } else {
            assert(b[i - a.len()] == s);
        }
    }
}

/// The numbers are those of the knobs and toggles that are drawn: the tempo knob, and for
/// each step its pitch knob and its toggle, set as asked.
pub proof fn law_the_numbers_are_the_controls(sq: Sequencer, k: int)
    requires
        0 <= k < sq.lanes(),
    ensures
        sequencer_strokes(sq).contains(
            Stroke::Placed {
                id: sq.id(5),
                kind: pot(Real { bits: RA_POT }, sq.tempo),
                at: sq.at(6, 10),
                facing: Facing::East,
                len: 6,
                mirror: true,
            },
        ),
        sequencer_strokes(sq).contains(
            Stroke::Placed {
                id: sq.id(10 + 4 * sq.lanes() + 2 * k),
                kind: pot(Real { bits: POT_CV }, sq.wipers@[k]),
                at: sq.at(44, lane_row(k) + 2),
                facing: Facing::West,
                len: 6,
                mirror: true,
            },
        ),
        sequencer_strokes(sq).contains(
            Stroke::Two {
                id: sq.id(13 + 6 * sq.lanes() + 2 * k),
                kind: ElementKind::Switch { closed: sq.beats@[k] },
                a: sq.at(38, lane_row(k) + 4),
                b: sq.at(42, lane_row(k) + 4),
            },
        ),
{
    let n = sq.lanes();
    let fl = |k: int| ladder_lane(sq, k);
    let fd = |k: int| decoder_lane(sq, k);
    let fr = |k: int| ramp_lane(sq, k);
    let fc = |k: int| clamp_lane(sq, k);
    let fg = |k: int| clamp_ground_lane(sq, k);
    let fp = |k: int| pitch_lane(sq, k);
    let fb = |k: int| beat_lane(sq, k);
    let a1 = rail_strokes(sq) + clock_strokes(sq);
    let a2 = a1 + seq![Stroke::Ground { at: sq.at(22, 5), dir: LEFT }];
    let a3 = a2 + stacked(fl, n);
    let a4 = a3 + seq![Stroke::Ground { at: sq.at(24, 5), dir: LEFT }];
    let a5 = a4 + bias_strokes(sq);
    let a6 = a5 + stacked(fd, n);
    let a7 = a6 + stacked(fr, n);
    let a8 = a7 + stacked(fc, n);
    let a9 = a8 + stacked(fg, n);
    let b1 = a9 + seq![Stroke::Skip];
    let b2 = b1 + stacked(fp, n);
    let b3 = b2 + buffer_strokes(sq);
    let b4 = b3 + stacked(fb, n);
    let b5 = b4 + beat_out_strokes(sq);
    assert(b5 == sequencer_strokes(sq));
    let tempo = clock_strokes(sq)[3];
    let knob = pitch_lane(sq, k)[1];
    let toggle = beat_lane(sq, k)[1];
    assert(clock_strokes(sq).contains(tempo));
    assert(fp(k).contains(knob));
    assert(fb(k).contains(toggle));
    lemma_stacked_holds(fp, n, k, knob);
    lemma_stacked_holds(fb, n, k, toggle);
    lemma_joined_holds(rail_strokes(sq), clock_strokes(sq), tempo);
    lemma_joined_holds(a1, seq![Stroke::Ground { at: sq.at(22, 5), dir: LEFT }], tempo);
    lemma_joined_holds(a2, stacked(fl, n), tempo);
    lemma_joined_holds(a3, seq![Stroke::Ground { at: sq.at(24, 5), dir: LEFT }], tempo);
    lemma_joined_holds(a4, bias_strokes(sq), tempo);
    lemma_joined_holds(a5, stacked(fd, n), tempo);
    lemma_joined_holds(a6, stacked(fr, n), tempo);
    lemma_joined_holds(a7, stacked(fc, n), tempo);
    lemma_joined_holds(a8, stacked(fg, n), tempo);
    lemma_joined_holds(a9, seq![Stroke::Skip], tempo);
    lemma_joined_holds(b1, stacked(fp, n), tempo);
    lemma_joined_holds(b1, stacked(fp, n), knob);
    lemma_joined_holds(b2, buffer_strokes(sq), tempo);
    lemma_joined_holds(b2, buffer_strokes(sq), knob);
    lemma_joined_holds(b3, stacked(fb, n), tempo);
    lemma_joined_holds(b3, stacked(fb, n), knob);
    lemma_joined_holds(b3, stacked(fb, n), toggle);
    lemma_joined_holds(b4, beat_out_strokes(sq), tempo);
    lemma_joined_holds(b4, beat_out_strokes(sq), knob);
    lemma_joined_holds(b4, beat_out_strokes(sq), toggle);
}

/// The wires are straight, and the numbers that the strokes bring differ and lie from `lo`
/// up to but not at `hi`.
pub open spec fn well_drawn(s: Seq<Stroke>, lo: int, hi: int) -> bool {
    &&& sheet::all_straight(s)
    &&& sheet::named_apart(s)
    &&& forall|i: int|
        0 <= i < s.len() && sheet::own_id(#[trigger] s[i]) is Some ==> lo <= sheet::own_id(s[i])->0 < hi
}

proof fn lemma_joined_is_well_drawn(a: Seq<Stroke>, b: Seq<Stroke>, lo: int, mid: int, hi: int)
    requires
        well_drawn(a, lo, mid),
        well_drawn(b, mid, hi),
        lo <= mid <= hi,
    ensures
        well_drawn(a + b, lo, hi),
{
    let s = a + b;
    assert forall|i: int| 0 <= i < s.len() implies sheet::straight(#[trigger] s[i]) by {
        if i < a.len() {
            assert(sheet::straight(a[i]));
        } else {
            assert(sheet::straight(b[i - a.len()]));
        }
    }
    assert forall|i: int| 0 <= i < s.len() && sheet::own_id(#[trigger] s[i]) is Some implies lo <= sheet::own_id(
        s[i],
    )->0 < hi by {
        if i < a.len() {
            assert(s[i] == a[i]);
        } else {
            assert(s[i] == b[i - a.len()]);
        }
    }
    assert forall|i: int, j: int|
        0 <= i < j < s.len() && sheet::own_id(#[trigger] s[i]) is Some implies sheet::own_id(s[i]) != sheet::own_id(
        #[trigger] s[j],
    ) by {
        if j < a.len() {
            assert(s[i] == a[i] && s[j] == a[j]);
        } else if i >= a.len() {
            assert(s[i] == b[i - a.len()] && s[j] == b[j - a.len()]);
        } else {
            assert(s[i] == a[i] && s[j] == b[j - a.len()]);
        }
    }
}

proof fn lemma_stacked_is_well_drawn(f: spec_fn(int) -> Seq<Stroke>, k: int, lo: int, step: int)
    requires
        0 <= k <= 4,
        0 <= step,
        forall|i: int|
            0 <= i < k ==> well_drawn(#[trigger] f(i), lo + step * i, lo + step * (i + 1)),
    ensures
        well_drawn(stacked(f, k), lo, lo + step * k),
    decreases k,
{
    if k > 0 {
        lemma_stacked_is_well_drawn(f, k - 1, lo, step);
        assert(well_drawn(f(k - 1), lo + step * (k - 1), lo + step * k));
        assert(0 <= step * (k - 1) <= step * k) by (nonlinear_arith)
            requires
                0 < k,
                0 <= step,
        ;
        lemma_joined_is_well_drawn(
            stacked(f, k - 1),
            f(k - 1),
            lo,
            lo + step * (k - 1),
            lo + step * k,
        );
    }
}

proof fn lemma_blocks_are_well_drawn(sq: Sequencer)
    requires
        sq.fits(),
    ensures
        ({
            let n = sq.lanes();
            let z = sq.id0 as int;
            &&& well_drawn(rail_strokes(sq), z + 1, z + 1)
            &&& well_drawn(clock_strokes(sq), z + 1, z + 8)
            &&& well_drawn(bias_strokes(sq), z + 8 + n, z + 9 + n)
            &&& well_drawn(buffer_strokes(sq), z + 10 + 6 * n, z + 13 + 6 * n)
            &&& well_drawn(beat_out_strokes(sq), z + 13 + 8 * n, z + 14 + 8 * n)
        }),
{
    assert(3 <= sq.lanes() <= 4);
}

proof fn lemma_lane_is_well_drawn(sq: Sequencer, k: int)
    requires
        sq.fits(),
        0 <= k < sq.lanes(),
    ensures
        ({
            let n = sq.lanes();
            let z = sq.id0 as int;
            &&& well_drawn(ladder_lane(sq, k), z + 8 + k, z + 9 + k)
            &&& well_drawn(decoder_lane(sq, k), z + 9 + n + 2 * k, z + 11 + n + 2 * k)
            &&& well_drawn(ramp_lane(sq, k), z + 9 + 3 * n, z + 9 + 3 * n)
            &&& well_drawn(clamp_lane(sq, k), z + 9 + 3 * n + k, z + 10 + 3 * n + k)
            &&& well_drawn(pitch_lane(sq, k), z + 10 + 4 * n + 2 * k, z + 12 + 4 * n + 2 * k)
            &&& well_drawn(beat_lane(sq, k), z + 13 + 6 * n + 2 * k, z + 15 + 6 * n + 2 * k)
        }),
{
    assert(3 <= sq.lanes() <= 4);
}

/// The sequencer's wires are straight, and its parts have different numbers, all after
/// `id0`, wherever it is drawn.
pub proof fn law_the_sequencer_is_well_drawn(sq: Sequencer)
    requires
        sq.fits(),
    ensures
        well_drawn(sequencer_strokes(sq), sq.id0 + 1, sq.id0 + 14 + 8 * sq.lanes()),
{
    let n = sq.lanes();
    let z = sq.id0 as int;
    let fl = |k: int| ladder_lane(sq, k);
    let fd = |k: int| decoder_lane(sq, k);
    let fr = |k: int| ramp_lane(sq, k);
    let fc = |k: int| clamp_lane(sq, k);
    let fg = |k: int| clamp_ground_lane(sq, k);
    let fp = |k: int| pitch_lane(sq, k);
    let fb = |k: int| beat_lane(sq, k);
    let g1 = seq![Stroke::Ground { at: sq.at(22, 5), dir: LEFT }];
    let g2 = seq![Stroke::Ground { at: sq.at(24, 5), dir: LEFT }];
    let skip = seq![Stroke::Skip];
    let a1 = rail_strokes(sq) + clock_strokes(sq);
    let a2 = a1 + g1;
    let a3 = a2 + stacked(fl, n);
    let a4 = a3 + g2;
    let a5 = a4 + bias_strokes(sq);
    let a6 = a5 + stacked(fd, n);
    let a7 = a6 + stacked(fr, n);
    let a8 = a7 + stacked(fc, n);
    let a9 = a8 + stacked(fg, n);
    let b1 = a9 + skip;
    let b2 = b1 + stacked(fp, n);
    let b3 = b2 + buffer_strokes(sq);
    let b4 = b3 + stacked(fb, n);
    assert(3 <= n <= 4);
    lemma_blocks_are_well_drawn(sq);
    assert forall|k: int| 0 <= k < n implies well_drawn(#[trigger] fl(k), z + 8 + 1 * k, z + 8 + 1 * (k + 1)) by {
        lemma_lane_is_well_drawn(sq, k);
    }
    assert forall|k: int| 0 <= k < n implies well_drawn(#[trigger] fd(k), z + 9 + n + 2 * k, z + 9 + n + 2 * (k + 1)) by {
        lemma_lane_is_well_drawn(sq, k);
    }
    assert forall|k: int| 0 <= k < n implies well_drawn(#[trigger] fr(k), z + 9 + 3 * n + 0 * k, z + 9 + 3 * n + 0 * (k + 1)) by {
        lemma_lane_is_well_drawn(sq, k);
    }
    assert forall|k: int| 0 <= k < n implies well_drawn(#[trigger] fc(k), z + 9 + 3 * n + 1 * k, z + 9 + 3 * n + 1 * (k + 1)) by {
        lemma_lane_is_well_drawn(sq, k);
    }
    assert forall|k: int| 0 <= k < n implies well_drawn(#[trigger] fp(k), z + 10 + 4 * n + 2 * k, z + 10 + 4 * n + 2 * (k + 1)) by {
        lemma_lane_is_well_drawn(sq, k);
    }
    assert forall|k: int| 0 <= k < n implies well_drawn(#[trigger] fb(k), z + 13 + 6 * n + 2 * k, z + 13 + 6 * n + 2 * (k + 1)) by {
        lemma_lane_is_well_drawn(sq, k);
    }
    lemma_stacked_is_well_drawn(fl, n, z + 8, 1);
    lemma_stacked_is_well_drawn(fd, n, z + 9 + n, 2);
    lemma_stacked_is_well_drawn(fr, n, z + 9 + 3 * n, 0);
    lemma_stacked_is_well_drawn(fc, n, z + 9 + 3 * n, 1);
    lemma_grounds_are_well_drawn(sq, n);
    lemma_stacked_is_well_drawn(fp, n, z + 10 + 4 * n, 2);
    lemma_stacked_is_well_drawn(fb, n, z + 13 + 6 * n, 2);
    lemma_joined_is_well_drawn(rail_strokes(sq), clock_strokes(sq), z + 1, z + 1, z + 8);
    lemma_joined_is_well_drawn(a1, g1, z + 1, z + 8, z + 8);
    lemma_joined_is_well_drawn(a2, stacked(fl, n), z + 1, z + 8, z + 8 + n);
    lemma_joined_is_well_drawn(a3, g2, z + 1, z + 8 + n, z + 8 + n);
    lemma_joined_is_well_drawn(a4, bias_strokes(sq), z + 1, z + 8 + n, z + 9 + n);
    lemma_joined_is_well_drawn(a5, stacked(fd, n), z + 1, z + 9 + n, z + 9 + 3 * n);
    lemma_joined_is_well_drawn(a6, stacked(fr, n), z + 1, z + 9 + 3 * n, z + 9 + 3 * n);
    lemma_joined_is_well_drawn(a7, stacked(fc, n), z + 1, z + 9 + 3 * n, z + 9 + 4 * n);
    lemma_joined_is_well_drawn(a8, stacked(fg, n), z + 1, z + 9 + 4 * n, z + 10 + 4 * n);
    lemma_joined_is_well_drawn(a9, skip, z + 1, z + 10 + 4 * n, z + 10 + 4 * n);
    lemma_joined_is_well_drawn(b1, stacked(fp, n), z + 1, z + 10 + 4 * n, z + 10 + 6 * n);
    lemma_joined_is_well_drawn(b2, buffer_strokes(sq), z + 1, z + 10 + 6 * n, z + 13 + 6 * n);
    lemma_joined_is_well_drawn(b3, stacked(fb, n), z + 1, z + 13 + 6 * n, z + 13 + 8 * n);
    lemma_joined_is_well_drawn(b4, beat_out_strokes(sq), z + 1, z + 13 + 8 * n, z + 14 + 8 * n);
    assert(b4 + beat_out_strokes(sq) == sequencer_strokes(sq));
}

proof fn lemma_grounds_are_well_drawn(sq: Sequencer, k: int)
    requires
        sq.fits(),
        0 <= k <= sq.lanes(),
    ensures
        well_drawn(
            stacked(|k: int| clamp_ground_lane(sq, k), k),
            sq.id0 + 9 + 4 * sq.lanes(),
            sq.id0 + 10 + 4 * sq.lanes(),
        ),
    decreases k,
{
    let f = |k: int| clamp_ground_lane(sq, k);
    let lo = sq.id0 + 9 + 4 * sq.lanes();
    if k > 0 {
        lemma_grounds_are_well_drawn(sq, k - 1);
        if k == 1 {
            assert(stacked(f, 0) =~= Seq::<Stroke>::empty());
            assert(well_drawn(stacked(f, 0), lo, lo));
            lemma_joined_is_well_drawn(stacked(f, 0), f(0), lo, lo, lo + 1);
        } else {
            lemma_joined_is_well_drawn(stacked(f, k - 1), f(k - 1), lo, lo + 1, lo + 1);
        }
    }
}

/// The rail comes in at the top left, goes down to its own row, and runs to the bias.
pub proof fn law_the_rail_is_wired(sq: Sequencer)
    requires
        sq.fits(),
    ensures
        ({
            let n = sq.lanes();
            let d = netlist::laid_out(rail_strokes(sq));
            &&& d.len() == 5
            &&& netlist::joined(d, sheet::shifted(sq.origin, 29, 10 * n + 4), sheet::shifted(sq.origin, 0, -4))
        }),
{
    let n = sq.lanes();
    let d = netlist::laid_out(rail_strokes(sq));
    assert(d.len() == 5);
    assert(netlist::joined(d, sheet::shifted(sq.origin, 29, 10 * n + 4), sheet::shifted(sq.origin, 0, -4))) by {
        netlist::lemma_joined_here(d, sheet::shifted(sq.origin, 29, 10 * n + 4));
        netlist::lemma_joined_along(d, sheet::shifted(sq.origin, 29, 10 * n + 4), sheet::shifted(sq.origin, 29, 10 * n + 4), sheet::shifted(sq.origin, 22, 10 * n + 4), 4);
        netlist::lemma_joined_along(d, sheet::shifted(sq.origin, 29, 10 * n + 4), sheet::shifted(sq.origin, 22, 10 * n + 4), sheet::shifted(sq.origin, 0, 10 * n + 4), 3);
        netlist::lemma_joined_along(d, sheet::shifted(sq.origin, 29, 10 * n + 4), sheet::shifted(sq.origin, 0, 10 * n + 4), sheet::shifted(sq.origin, 0, 10), 2);
        netlist::lemma_joined_along(d, sheet::shifted(sq.origin, 29, 10 * n + 4), sheet::shifted(sq.origin, 0, 10), sheet::shifted(sq.origin, 0, 6), 1);
        netlist::lemma_joined_along(d, sheet::shifted(sq.origin, 29, 10 * n + 4), sheet::shifted(sq.origin, 0, 6), sheet::shifted(sq.origin, 0, -4), 0);
    }
}

/// The clock is a timer on the rail: its two inputs on the capacitor, the tempo knob as a
/// rheostat from the rail, and the discharge between the two resistors.
pub proof fn law_the_clock_is_wired(sq: Sequencer)
    requires
        sq.fits(),
    ensures
        ({
            let n = sq.lanes();
            let d = netlist::laid_out(clock_strokes(sq));
            &&& d.len() == 19
            &&& netlist::has_part(d, (sq.id0 + 1) as u32, ElementKind::Timer555)
            &&& netlist::has_part(d, (sq.id0 + 2) as u32, ElementKind::Ground)
            &&& netlist::has_ground(d, sheet::shifted(sq.origin, 8, 2), 2)
            &&& netlist::has_part(d, (sq.id0 + 4) as u32, ElementKind::Resistor { ohms: Real { bits: 0x40f0_9a00_0000_0000 } })
            &&& netlist::has_part(d, (sq.id0 + 5) as u32, ElementKind::Potentiometer { ohms: Real { bits: 0x410a_db00_0000_0000 }, wiper: sq.tempo })
            &&& netlist::has_part(d, (sq.id0 + 6) as u32, ElementKind::Resistor { ohms: Real { bits: 0x408f_4000_0000_0000 } })
            &&& netlist::has_part(d, (sq.id0 + 7) as u32, ElementKind::Capacitor { farads: Real { bits: 0x3edc_8571_c468_7a3d } })
            &&& netlist::has_part(d, (sq.id0 + 3) as u32, ElementKind::Wire)
            &&& netlist::has_ground(d, sheet::shifted(sq.origin, 2, 4), 0)
            &&& netlist::on_net(d, (sq.id0 + 1) as u32, 0, sheet::shifted(sq.origin, 8, 6))
            &&& netlist::joined(d, sheet::shifted(sq.origin, 0, 6), sheet::shifted(sq.origin, 8, 6))
            &&& netlist::on_net(d, (sq.id0 + 1) as u32, 1, sheet::shifted(sq.origin, 8, 2))
            &&& netlist::earthed(d, sheet::shifted(sq.origin, 8, 2))
            &&& netlist::on_net(d, (sq.id0 + 1) as u32, 2, sheet::shifted(sq.origin, 8, 5))
            &&& netlist::on_net(d, (sq.id0 + 1) as u32, 3, sheet::shifted(sq.origin, 8, 5))
            &&& netlist::on_net(d, (sq.id0 + 6) as u32, 1, sheet::shifted(sq.origin, 8, 5))
            &&& netlist::on_net(d, (sq.id0 + 7) as u32, 0, sheet::shifted(sq.origin, 8, 5))
            &&& netlist::joined(d, sheet::shifted(sq.origin, 23, 0), sheet::shifted(sq.origin, 8, 5))
            &&& netlist::on_net(d, (sq.id0 + 1) as u32, 4, sheet::shifted(sq.origin, 12, 3))
            &&& netlist::on_net(d, (sq.id0 + 1) as u32, 5, sheet::shifted(sq.origin, 12, 5))
            &&& netlist::on_net(d, (sq.id0 + 5) as u32, 2, sheet::shifted(sq.origin, 12, 5))
            &&& netlist::on_net(d, (sq.id0 + 6) as u32, 0, sheet::shifted(sq.origin, 12, 5))
            &&& netlist::on_net(d, (sq.id0 + 5) as u32, 1, sheet::shifted(sq.origin, 12, 5))
            &&& netlist::on_net(d, (sq.id0 + 4) as u32, 0, sheet::shifted(sq.origin, 0, 10))
            &&& netlist::on_net(d, (sq.id0 + 4) as u32, 1, sheet::shifted(sq.origin, 6, 10))
            &&& netlist::on_net(d, (sq.id0 + 5) as u32, 0, sheet::shifted(sq.origin, 6, 10))
            &&& netlist::on_net(d, (sq.id0 + 7) as u32, 1, sheet::shifted(sq.origin, 2, 4))
            &&& netlist::earthed(d, sheet::shifted(sq.origin, 2, 4))
        }),
{
    let n = sq.lanes();
    let d = netlist::laid_out(clock_strokes(sq));
    assert(d.len() == 19);
    assert(netlist::has_part(d, (sq.id0 + 1) as u32, ElementKind::Timer555)) by {
        netlist::lemma_part(d, 0);
        assert(d[0].id == (sq.id0 + 1) as u32);
        assert(d[0].kind == ElementKind::Timer555);
    }
    assert(netlist::has_part(d, (sq.id0 + 2) as u32, ElementKind::Ground)) by {
        netlist::lemma_part(d, 1);
        assert(d[1].id == (sq.id0 + 2) as u32);
        assert(d[1].kind == ElementKind::Ground);
    }
    assert(netlist::has_ground(d, sheet::shifted(sq.origin, 8, 2), 2)) by {
        netlist::lemma_ground(d, 1);
        assert(d[1].pins[0] == sheet::shifted(sq.origin, 8, 2));
    }
    assert(netlist::has_part(d, (sq.id0 + 4) as u32, ElementKind::Resistor { ohms: Real { bits: 0x40f0_9a00_0000_0000 } })) by {
        netlist::lemma_part(d, 2);
        assert(d[2].id == (sq.id0 + 4) as u32);
        assert(d[2].kind == (ElementKind::Resistor { ohms: Real { bits: 0x40f0_9a00_0000_0000 } }));
    }
    assert(netlist::has_part(d, (sq.id0 + 5) as u32, ElementKind::Potentiometer { ohms: Real { bits: 0x410a_db00_0000_0000 }, wiper: sq.tempo })) by {
        netlist::lemma_part(d, 3);
        assert(d[3].id == (sq.id0 + 5) as u32);
        assert(d[3].kind == (ElementKind::Potentiometer { ohms: Real { bits: 0x410a_db00_0000_0000 }, wiper: sq.tempo }));
    }
    assert(netlist::has_part(d, (sq.id0 + 6) as u32, ElementKind::Resistor { ohms: Real { bits: 0x408f_4000_0000_0000 } })) by {
        netlist::lemma_part(d, 4);
        assert(d[4].id == (sq.id0 + 6) as u32);
        assert(d[4].kind == (ElementKind::Resistor { ohms: Real { bits: 0x408f_4000_0000_0000 } }));
    }
    assert(netlist::has_part(d, (sq.id0 + 7) as u32, ElementKind::Capacitor { farads: Real { bits: 0x3edc_8571_c468_7a3d } })) by {
        netlist::lemma_part(d, 5);
        assert(d[5].id == (sq.id0 + 7) as u32);
        assert(d[5].kind == (ElementKind::Capacitor { farads: Real { bits: 0x3edc_8571_c468_7a3d } }));
    }
    assert(netlist::has_part(d, (sq.id0 + 3) as u32, ElementKind::Wire)) by {
        netlist::lemma_part(d, 7);
        assert(d[7].id == (sq.id0 + 3) as u32);
        assert(d[7].kind == ElementKind::Wire);
    }
    assert(netlist::has_ground(d, sheet::shifted(sq.origin, 2, 4), 0)) by {
        netlist::lemma_ground(d, 14);
        assert(d[14].pins[0] == sheet::shifted(sq.origin, 2, 4));
    }
    assert(netlist::on_net(d, (sq.id0 + 1) as u32, 0, sheet::shifted(sq.origin, 8, 6))) by {
        netlist::lemma_pin(d, 0, (sq.id0 + 1) as u32, 0);
        assert(d[0].pins[0] == sheet::shifted(sq.origin, 8, 6));
    }
    assert(netlist::joined(d, sheet::shifted(sq.origin, 0, 6), sheet::shifted(sq.origin, 8, 6))) by {
        netlist::lemma_joined_here(d, sheet::shifted(sq.origin, 0, 6));
        netlist::lemma_joined_along(d, sheet::shifted(sq.origin, 0, 6), sheet::shifted(sq.origin, 0, 6), sheet::shifted(sq.origin, 8, 6), 6);
    }
    assert(netlist::on_net(d, (sq.id0 + 1) as u32, 1, sheet::shifted(sq.origin, 8, 2))) by {
        netlist::lemma_pin(d, 0, (sq.id0 + 1) as u32, 1);
        assert(d[0].pins[1] == sheet::shifted(sq.origin, 8, 2));
    }
    assert(netlist::earthed(d, sheet::shifted(sq.origin, 8, 2))) by {
        netlist::lemma_earth(d, 1);
    }
    assert(netlist::on_net(d, (sq.id0 + 1) as u32, 2, sheet::shifted(sq.origin, 8, 5))) by {
        netlist::lemma_pin(d, 0, (sq.id0 + 1) as u32, 2);
        assert(d[0].pins[2] == sheet::shifted(sq.origin, 8, 5));
    }
    assert(netlist::on_net(d, (sq.id0 + 1) as u32, 3, sheet::shifted(sq.origin, 8, 5))) by {
        netlist::lemma_pin(d, 0, (sq.id0 + 1) as u32, 3);
        assert(d[0].pins[3] == sheet::shifted(sq.origin, 8, 3));
        netlist::lemma_pin_along(d, (sq.id0 + 1) as u32, 3, sheet::shifted(sq.origin, 8, 3), sheet::shifted(sq.origin, 6, 3), 9);
        netlist::lemma_pin_along(d, (sq.id0 + 1) as u32, 3, sheet::shifted(sq.origin, 6, 3), sheet::shifted(sq.origin, 6, 5), 8);
        netlist::lemma_pin_along(d, (sq.id0 + 1) as u32, 3, sheet::shifted(sq.origin, 6, 5), sheet::shifted(sq.origin, 8, 5), 7);
    }
    assert(netlist::on_net(d, (sq.id0 + 6) as u32, 1, sheet::shifted(sq.origin, 8, 5))) by {
        netlist::lemma_pin(d, 4, (sq.id0 + 6) as u32, 1);
        assert(d[4].pins[1] == sheet::shifted(sq.origin, 14, 0));
        netlist::lemma_pin_along(d, (sq.id0 + 6) as u32, 1, sheet::shifted(sq.origin, 14, 0), sheet::shifted(sq.origin, 6, 0), 11);
        netlist::lemma_pin_along(d, (sq.id0 + 6) as u32, 1, sheet::shifted(sq.origin, 6, 0), sheet::shifted(sq.origin, 6, 3), 10);
        netlist::lemma_pin_along(d, (sq.id0 + 6) as u32, 1, sheet::shifted(sq.origin, 6, 3), sheet::shifted(sq.origin, 6, 5), 8);
        netlist::lemma_pin_along(d, (sq.id0 + 6) as u32, 1, sheet::shifted(sq.origin, 6, 5), sheet::shifted(sq.origin, 8, 5), 7);
    }
    assert(netlist::on_net(d, (sq.id0 + 7) as u32, 0, sheet::shifted(sq.origin, 8, 5))) by {
        netlist::lemma_pin(d, 5, (sq.id0 + 7) as u32, 0);
        assert(d[5].pins[0] == sheet::shifted(sq.origin, 2, 0));
        netlist::lemma_pin_along(d, (sq.id0 + 7) as u32, 0, sheet::shifted(sq.origin, 2, 0), sheet::shifted(sq.origin, 6, 0), 13);
        netlist::lemma_pin_along(d, (sq.id0 + 7) as u32, 0, sheet::shifted(sq.origin, 6, 0), sheet::shifted(sq.origin, 6, 3), 10);
        netlist::lemma_pin_along(d, (sq.id0 + 7) as u32, 0, sheet::shifted(sq.origin, 6, 3), sheet::shifted(sq.origin, 6, 5), 8);
        netlist::lemma_pin_along(d, (sq.id0 + 7) as u32, 0, sheet::shifted(sq.origin, 6, 5), sheet::shifted(sq.origin, 8, 5), 7);
    }
    assert(netlist::joined(d, sheet::shifted(sq.origin, 23, 0), sheet::shifted(sq.origin, 8, 5))) by {
        netlist::lemma_joined_here(d, sheet::shifted(sq.origin, 23, 0));
        netlist::lemma_joined_along(d, sheet::shifted(sq.origin, 23, 0), sheet::shifted(sq.origin, 23, 0), sheet::shifted(sq.origin, 14, 0), 12);
        netlist::lemma_joined_along(d, sheet::shifted(sq.origin, 23, 0), sheet::shifted(sq.origin, 14, 0), sheet::shifted(sq.origin, 6, 0), 11);
        netlist::lemma_joined_along(d, sheet::shifted(sq.origin, 23, 0), sheet::shifted(sq.origin, 6, 0), sheet::shifted(sq.origin, 6, 3), 10);
        netlist::lemma_joined_along(d, sheet::shifted(sq.origin, 23, 0), sheet::shifted(sq.origin, 6, 3), sheet::shifted(sq.origin, 6, 5), 8);
        netlist::lemma_joined_along(d, sheet::shifted(sq.origin, 23, 0), sheet::shifted(sq.origin, 6, 5), sheet::shifted(sq.origin, 8, 5), 7);
    }
    assert(netlist::on_net(d, (sq.id0 + 1) as u32, 4, sheet::shifted(sq.origin, 12, 3))) by {
        netlist::lemma_pin(d, 0, (sq.id0 + 1) as u32, 4);
        assert(d[0].pins[4] == sheet::shifted(sq.origin, 12, 3));
    }
    assert(netlist::on_net(d, (sq.id0 + 1) as u32, 5, sheet::shifted(sq.origin, 12, 5))) by {
        netlist::lemma_pin(d, 0, (sq.id0 + 1) as u32, 5);
        assert(d[0].pins[5] == sheet::shifted(sq.origin, 12, 5));
    }
    assert(netlist::on_net(d, (sq.id0 + 5) as u32, 2, sheet::shifted(sq.origin, 12, 5))) by {
        netlist::lemma_pin(d, 3, (sq.id0 + 5) as u32, 2);
        assert(d[3].pins[2] == sheet::shifted(sq.origin, 12, 10));
        netlist::lemma_pin_along(d, (sq.id0 + 5) as u32, 2, sheet::shifted(sq.origin, 12, 10), sheet::shifted(sq.origin, 12, 5), 17);
    }
    assert(netlist::on_net(d, (sq.id0 + 6) as u32, 0, sheet::shifted(sq.origin, 12, 5))) by {
        netlist::lemma_pin(d, 4, (sq.id0 + 6) as u32, 0);
        assert(d[4].pins[0] == sheet::shifted(sq.origin, 14, 5));
        netlist::lemma_pin_along(d, (sq.id0 + 6) as u32, 0, sheet::shifted(sq.origin, 14, 5), sheet::shifted(sq.origin, 12, 5), 18);
    }
    assert(netlist::on_net(d, (sq.id0 + 5) as u32, 1, sheet::shifted(sq.origin, 12, 5))) by {
        netlist::lemma_pin(d, 3, (sq.id0 + 5) as u32, 1);
        assert(d[3].pins[1] == sheet::shifted(sq.origin, 9, 12));
        netlist::lemma_pin_along(d, (sq.id0 + 5) as u32, 1, sheet::shifted(sq.origin, 9, 12), sheet::shifted(sq.origin, 12, 12), 15);
        netlist::lemma_pin_along(d, (sq.id0 + 5) as u32, 1, sheet::shifted(sq.origin, 12, 12), sheet::shifted(sq.origin, 12, 10), 16);
        netlist::lemma_pin_along(d, (sq.id0 + 5) as u32, 1, sheet::shifted(sq.origin, 12, 10), sheet::shifted(sq.origin, 12, 5), 17);
    }
    assert(netlist::on_net(d, (sq.id0 + 4) as u32, 0, sheet::shifted(sq.origin, 0, 10))) by {
        netlist::lemma_pin(d, 2, (sq.id0 + 4) as u32, 0);
        assert(d[2].pins[0] == sheet::shifted(sq.origin, 0, 10));
    }
    assert(netlist::on_net(d, (sq.id0 + 4) as u32, 1, sheet::shifted(sq.origin, 6, 10))) by {
        netlist::lemma_pin(d, 2, (sq.id0 + 4) as u32, 1);
        assert(d[2].pins[1] == sheet::shifted(sq.origin, 6, 10));
    }
    assert(netlist::on_net(d, (sq.id0 + 5) as u32, 0, sheet::shifted(sq.origin, 6, 10))) by {
        netlist::lemma_pin(d, 3, (sq.id0 + 5) as u32, 0);
        assert(d[3].pins[0] == sheet::shifted(sq.origin, 6, 10));
    }
    assert(netlist::on_net(d, (sq.id0 + 7) as u32, 1, sheet::shifted(sq.origin, 2, 4))) by {
        netlist::lemma_pin(d, 5, (sq.id0 + 7) as u32, 1);
        assert(d[5].pins[1] == sheet::shifted(sq.origin, 2, 4));
    }
    assert(netlist::earthed(d, sheet::shifted(sq.origin, 2, 4))) by {
        netlist::lemma_earth(d, 14);
    }
}

/// A resistor of the ladder is tapped above and below, and goes on to the next.
pub proof fn law_a_step_of_the_ladder_is_wired(sq: Sequencer, k: int)
    requires
        sq.fits(),
        0 <= k < sq.lanes(),
        k < sq.lanes() - 1,
    ensures
        ({
            let n = sq.lanes();
            let d = netlist::laid_out(ladder_lane(sq, k));
            &&& d.len() == 4
            &&& netlist::has_part(d, (sq.id0 + 8 + k) as u32, ElementKind::Resistor { ohms: ladder_ohms(n)[k] })
            &&& netlist::on_net(d, (sq.id0 + 8 + k) as u32, 0, sheet::shifted(sq.origin, 22, 10 * k + 5))
            &&& netlist::on_net(d, (sq.id0 + 8 + k) as u32, 1, sheet::shifted(sq.origin, 22, 10 * k + 9))
            &&& netlist::joined(d, sheet::shifted(sq.origin, 24, 10 * k + 9), sheet::shifted(sq.origin, 22, 10 * k + 9))
            &&& netlist::joined(d, sheet::shifted(sq.origin, 24, 10 * k + 15), sheet::shifted(sq.origin, 22, 10 * k + 9))
        }),
{
    let n = sq.lanes();
    let d = netlist::laid_out(ladder_lane(sq, k));
    assert(d.len() == 4);
    assert(netlist::has_part(d, (sq.id0 + 8 + k) as u32, ElementKind::Resistor { ohms: ladder_ohms(n)[k] })) by {
        netlist::lemma_part(d, 0);
        assert(d[0].id == (sq.id0 + 8 + k) as u32);
        assert(d[0].kind == (ElementKind::Resistor { ohms: ladder_ohms(n)[k] }));
    }
    assert(netlist::on_net(d, (sq.id0 + 8 + k) as u32, 0, sheet::shifted(sq.origin, 22, 10 * k + 5))) by {
        netlist::lemma_pin(d, 0, (sq.id0 + 8 + k) as u32, 0);
        assert(d[0].pins[0] == sheet::shifted(sq.origin, 22, 10 * k + 5));
    }
    assert(netlist::on_net(d, (sq.id0 + 8 + k) as u32, 1, sheet::shifted(sq.origin, 22, 10 * k + 9))) by {
        netlist::lemma_pin(d, 0, (sq.id0 + 8 + k) as u32, 1);
        assert(d[0].pins[1] == sheet::shifted(sq.origin, 22, 10 * k + 9));
    }
    assert(netlist::joined(d, sheet::shifted(sq.origin, 24, 10 * k + 9), sheet::shifted(sq.origin, 22, 10 * k + 9))) by {
        netlist::lemma_joined_here(d, sheet::shifted(sq.origin, 24, 10 * k + 9));
        netlist::lemma_joined_along(d, sheet::shifted(sq.origin, 24, 10 * k + 9), sheet::shifted(sq.origin, 24, 10 * k + 9), sheet::shifted(sq.origin, 22, 10 * k + 9), 2);
    }
    assert(netlist::joined(d, sheet::shifted(sq.origin, 24, 10 * k + 15), sheet::shifted(sq.origin, 22, 10 * k + 9))) by {
        netlist::lemma_joined_here(d, sheet::shifted(sq.origin, 24, 10 * k + 15));
        netlist::lemma_joined_along(d, sheet::shifted(sq.origin, 24, 10 * k + 15), sheet::shifted(sq.origin, 24, 10 * k + 15), sheet::shifted(sq.origin, 22, 10 * k + 15), 3);
        netlist::lemma_joined_along(d, sheet::shifted(sq.origin, 24, 10 * k + 15), sheet::shifted(sq.origin, 22, 10 * k + 15), sheet::shifted(sq.origin, 22, 10 * k + 9), 1);
    }
}

/// The last resistor of the ladder is tapped above, and goes on to the rail.
pub proof fn law_the_top_of_the_ladder_is_wired(sq: Sequencer, k: int)
    requires
        sq.fits(),
        0 <= k < sq.lanes(),
        k == sq.lanes() - 1,
    ensures
        ({
            let n = sq.lanes();
            let d = netlist::laid_out(ladder_lane(sq, k));
            &&& d.len() == 3
            &&& netlist::has_part(d, (sq.id0 + 8 + k) as u32, ElementKind::Resistor { ohms: ladder_ohms(n)[k] })
            &&& netlist::on_net(d, (sq.id0 + 8 + k) as u32, 0, sheet::shifted(sq.origin, 22, 10 * k + 5))
            &&& netlist::on_net(d, (sq.id0 + 8 + k) as u32, 1, sheet::shifted(sq.origin, 22, 10 * k + 9))
            &&& netlist::joined(d, sheet::shifted(sq.origin, 22, 10 * n + 4), sheet::shifted(sq.origin, 22, 10 * k + 9))
            &&& netlist::joined(d, sheet::shifted(sq.origin, 24, 10 * k + 9), sheet::shifted(sq.origin, 22, 10 * k + 9))
        }),
{
    let n = sq.lanes();
    let d = netlist::laid_out(ladder_lane(sq, k));
    assert(d.len() == 3);
    assert(netlist::has_part(d, (sq.id0 + 8 + k) as u32, ElementKind::Resistor { ohms: ladder_ohms(n)[k] })) by {
        netlist::lemma_part(d, 0);
        assert(d[0].id == (sq.id0 + 8 + k) as u32);
        assert(d[0].kind == (ElementKind::Resistor { ohms: ladder_ohms(n)[k] }));
    }
    assert(netlist::on_net(d, (sq.id0 + 8 + k) as u32, 0, sheet::shifted(sq.origin, 22, 10 * k + 5))) by {
        netlist::lemma_pin(d, 0, (sq.id0 + 8 + k) as u32, 0);
        assert(d[0].pins[0] == sheet::shifted(sq.origin, 22, 10 * k + 5));
    }
    assert(netlist::on_net(d, (sq.id0 + 8 + k) as u32, 1, sheet::shifted(sq.origin, 22, 10 * k + 9))) by {
        netlist::lemma_pin(d, 0, (sq.id0 + 8 + k) as u32, 1);
        assert(d[0].pins[1] == sheet::shifted(sq.origin, 22, 10 * k + 9));
    }
    assert(netlist::joined(d, sheet::shifted(sq.origin, 22, 10 * n + 4), sheet::shifted(sq.origin, 22, 10 * k + 9))) by {
        netlist::lemma_joined_here(d, sheet::shifted(sq.origin, 22, 10 * n + 4));
        netlist::lemma_joined_along(d, sheet::shifted(sq.origin, 22, 10 * n + 4), sheet::shifted(sq.origin, 22, 10 * n + 4), sheet::shifted(sq.origin, 22, 10 * k + 9), 1);
    }
    assert(netlist::joined(d, sheet::shifted(sq.origin, 24, 10 * k + 9), sheet::shifted(sq.origin, 22, 10 * k + 9))) by {
        netlist::lemma_joined_here(d, sheet::shifted(sq.origin, 24, 10 * k + 9));
        netlist::lemma_joined_along(d, sheet::shifted(sq.origin, 24, 10 * k + 9), sheet::shifted(sq.origin, 24, 10 * k + 9), sheet::shifted(sq.origin, 22, 10 * k + 9), 2);
    }
}

/// The first decoder: two stages that give onto one point, biased together.
pub proof fn law_the_first_decoder_is_wired(sq: Sequencer, k: int)
    requires
        sq.fits(),
        0 <= k < sq.lanes(),
        k == 0,
    ensures
        ({
            let n = sq.lanes();
            let d = netlist::laid_out(decoder_lane(sq, k));
            &&& d.len() == 5
            &&& netlist::has_part(d, (sq.id0 + 9 + n + 2 * k) as u32, ElementKind::Ota)
            &&& netlist::has_part(d, (sq.id0 + 10 + n + 2 * k) as u32, ElementKind::Ota)
            &&& netlist::on_net(d, (sq.id0 + 9 + n + 2 * k) as u32, 0, sheet::shifted(sq.origin, 24, 10 * k + 7))
            &&& netlist::on_net(d, (sq.id0 + 9 + n + 2 * k) as u32, 1, sheet::shifted(sq.origin, 24, 10 * k + 5))
            &&& netlist::on_net(d, (sq.id0 + 9 + n + 2 * k) as u32, 2, sheet::shifted(sq.origin, 28, 10 * k + 6))
            &&& netlist::on_net(d, (sq.id0 + 10 + n + 2 * k) as u32, 2, sheet::shifted(sq.origin, 28, 10 * k + 6))
            &&& netlist::joined(d, sheet::shifted(sq.origin, 32, 10 * k + 10), sheet::shifted(sq.origin, 28, 10 * k + 6))
            &&& netlist::on_net(d, (sq.id0 + 9 + n + 2 * k) as u32, 3, sheet::shifted(sq.origin, 27, 10 * k + 8))
            &&& netlist::on_net(d, (sq.id0 + 10 + n + 2 * k) as u32, 3, sheet::shifted(sq.origin, 27, 10 * k + 8))
            &&& netlist::joined(d, sheet::shifted(sq.origin, 29, 10 * k + 8), sheet::shifted(sq.origin, 27, 10 * k + 8))
            &&& netlist::on_net(d, (sq.id0 + 10 + n + 2 * k) as u32, 0, sheet::shifted(sq.origin, 24, 10 * k + 9))
            &&& netlist::on_net(d, (sq.id0 + 10 + n + 2 * k) as u32, 1, sheet::shifted(sq.origin, 24, 10 * k + 11))
        }),
{
    let n = sq.lanes();
    let d = netlist::laid_out(decoder_lane(sq, k));
    assert(d.len() == 5);
    assert(netlist::has_part(d, (sq.id0 + 9 + n + 2 * k) as u32, ElementKind::Ota)) by {
        netlist::lemma_part(d, 0);
        assert(d[0].id == (sq.id0 + 9 + n + 2 * k) as u32);
        assert(d[0].kind == ElementKind::Ota);
    }
    assert(netlist::has_part(d, (sq.id0 + 10 + n + 2 * k) as u32, ElementKind::Ota)) by {
        netlist::lemma_part(d, 1);
        assert(d[1].id == (sq.id0 + 10 + n + 2 * k) as u32);
        assert(d[1].kind == ElementKind::Ota);
    }
    assert(netlist::on_net(d, (sq.id0 + 9 + n + 2 * k) as u32, 0, sheet::shifted(sq.origin, 24, 10 * k + 7))) by {
        netlist::lemma_pin(d, 0, (sq.id0 + 9 + n + 2 * k) as u32, 0);
        assert(d[0].pins[0] == sheet::shifted(sq.origin, 24, 10 * k + 7));
    }
    assert(netlist::on_net(d, (sq.id0 + 9 + n + 2 * k) as u32, 1, sheet::shifted(sq.origin, 24, 10 * k + 5))) by {
        netlist::lemma_pin(d, 0, (sq.id0 + 9 + n + 2 * k) as u32, 1);
        assert(d[0].pins[1] == sheet::shifted(sq.origin, 24, 10 * k + 5));
    }
    assert(netlist::on_net(d, (sq.id0 + 9 + n + 2 * k) as u32, 2, sheet::shifted(sq.origin, 28, 10 * k + 6))) by {
        netlist::lemma_pin(d, 0, (sq.id0 + 9 + n + 2 * k) as u32, 2);
        assert(d[0].pins[2] == sheet::shifted(sq.origin, 28, 10 * k + 6));
    }
    assert(netlist::on_net(d, (sq.id0 + 10 + n + 2 * k) as u32, 2, sheet::shifted(sq.origin, 28, 10 * k + 6))) by {
        netlist::lemma_pin(d, 1, (sq.id0 + 10 + n + 2 * k) as u32, 2);
        assert(d[1].pins[2] == sheet::shifted(sq.origin, 28, 10 * k + 10));
        netlist::lemma_pin_along(d, (sq.id0 + 10 + n + 2 * k) as u32, 2, sheet::shifted(sq.origin, 28, 10 * k + 10), sheet::shifted(sq.origin, 28, 10 * k + 6), 2);
    }
    assert(netlist::joined(d, sheet::shifted(sq.origin, 32, 10 * k + 10), sheet::shifted(sq.origin, 28, 10 * k + 6))) by {
        netlist::lemma_joined_here(d, sheet::shifted(sq.origin, 32, 10 * k + 10));
        netlist::lemma_joined_along(d, sheet::shifted(sq.origin, 32, 10 * k + 10), sheet::shifted(sq.origin, 32, 10 * k + 10), sheet::shifted(sq.origin, 28, 10 * k + 10), 3);
        netlist::lemma_joined_along(d, sheet::shifted(sq.origin, 32, 10 * k + 10), sheet::shifted(sq.origin, 28, 10 * k + 10), sheet::shifted(sq.origin, 28, 10 * k + 6), 2);
    }
    assert(netlist::on_net(d, (sq.id0 + 9 + n + 2 * k) as u32, 3, sheet::shifted(sq.origin, 27, 10 * k + 8))) by {
        netlist::lemma_pin(d, 0, (sq.id0 + 9 + n + 2 * k) as u32, 3);
        assert(d[0].pins[3] == sheet::shifted(sq.origin, 27, 10 * k + 8));
    }
    assert(netlist::on_net(d, (sq.id0 + 10 + n + 2 * k) as u32, 3, sheet::shifted(sq.origin, 27, 10 * k + 8))) by {
        netlist::lemma_pin(d, 1, (sq.id0 + 10 + n + 2 * k) as u32, 3);
        assert(d[1].pins[3] == sheet::shifted(sq.origin, 27, 10 * k + 8));
    }
    assert(netlist::joined(d, sheet::shifted(sq.origin, 29, 10 * k + 8), sheet::shifted(sq.origin, 27, 10 * k + 8))) by {
        netlist::lemma_joined_here(d, sheet::shifted(sq.origin, 29, 10 * k + 8));
        netlist::lemma_joined_along(d, sheet::shifted(sq.origin, 29, 10 * k + 8), sheet::shifted(sq.origin, 29, 10 * k + 8), sheet::shifted(sq.origin, 27, 10 * k + 8), 4);
    }
    assert(netlist::on_net(d, (sq.id0 + 10 + n + 2 * k) as u32, 0, sheet::shifted(sq.origin, 24, 10 * k + 9))) by {
        netlist::lemma_pin(d, 1, (sq.id0 + 10 + n + 2 * k) as u32, 0);
        assert(d[1].pins[0] == sheet::shifted(sq.origin, 24, 10 * k + 9));
    }
    assert(netlist::on_net(d, (sq.id0 + 10 + n + 2 * k) as u32, 1, sheet::shifted(sq.origin, 24, 10 * k + 11))) by {
        netlist::lemma_pin(d, 1, (sq.id0 + 10 + n + 2 * k) as u32, 1);
        assert(d[1].pins[1] == sheet::shifted(sq.origin, 24, 10 * k + 11));
    }
}

/// A decoder: two stages that give onto one point, biased together and with the one before.
pub proof fn law_a_decoder_is_wired(sq: Sequencer, k: int)
    requires
        sq.fits(),
        0 <= k < sq.lanes(),
        k > 0,
    ensures
        ({
            let n = sq.lanes();
            let d = netlist::laid_out(decoder_lane(sq, k));
            &&& d.len() == 6
            &&& netlist::has_part(d, (sq.id0 + 9 + n + 2 * k) as u32, ElementKind::Ota)
            &&& netlist::has_part(d, (sq.id0 + 10 + n + 2 * k) as u32, ElementKind::Ota)
            &&& netlist::on_net(d, (sq.id0 + 9 + n + 2 * k) as u32, 0, sheet::shifted(sq.origin, 24, 10 * k + 7))
            &&& netlist::on_net(d, (sq.id0 + 9 + n + 2 * k) as u32, 1, sheet::shifted(sq.origin, 24, 10 * k + 5))
            &&& netlist::on_net(d, (sq.id0 + 9 + n + 2 * k) as u32, 2, sheet::shifted(sq.origin, 28, 10 * k + 6))
            &&& netlist::on_net(d, (sq.id0 + 10 + n + 2 * k) as u32, 2, sheet::shifted(sq.origin, 28, 10 * k + 6))
            &&& netlist::joined(d, sheet::shifted(sq.origin, 32, 10 * k + 10), sheet::shifted(sq.origin, 28, 10 * k + 6))
            &&& netlist::on_net(d, (sq.id0 + 9 + n + 2 * k) as u32, 3, sheet::shifted(sq.origin, 27, 10 * k + 8))
            &&& netlist::on_net(d, (sq.id0 + 10 + n + 2 * k) as u32, 3, sheet::shifted(sq.origin, 27, 10 * k + 8))
            &&& netlist::joined(d, sheet::shifted(sq.origin, 29, 10 * k - 2), sheet::shifted(sq.origin, 27, 10 * k + 8))
            &&& netlist::on_net(d, (sq.id0 + 10 + n + 2 * k) as u32, 0, sheet::shifted(sq.origin, 24, 10 * k + 9))
            &&& netlist::on_net(d, (sq.id0 + 10 + n + 2 * k) as u32, 1, sheet::shifted(sq.origin, 24, 10 * k + 11))
        }),
{
    let n = sq.lanes();
    let d = netlist::laid_out(decoder_lane(sq, k));
    assert(d.len() == 6);
    assert(netlist::has_part(d, (sq.id0 + 9 + n + 2 * k) as u32, ElementKind::Ota)) by {
        netlist::lemma_part(d, 0);
        assert(d[0].id == (sq.id0 + 9 + n + 2 * k) as u32);
        assert(d[0].kind == ElementKind::Ota);
    }
    assert(netlist::has_part(d, (sq.id0 + 10 + n + 2 * k) as u32, ElementKind::Ota)) by {
        netlist::lemma_part(d, 1);
        assert(d[1].id == (sq.id0 + 10 + n + 2 * k) as u32);
        assert(d[1].kind == ElementKind::Ota);
    }
    assert(netlist::on_net(d, (sq.id0 + 9 + n + 2 * k) as u32, 0, sheet::shifted(sq.origin, 24, 10 * k + 7))) by {
        netlist::lemma_pin(d, 0, (sq.id0 + 9 + n + 2 * k) as u32, 0);
        assert(d[0].pins[0] == sheet::shifted(sq.origin, 24, 10 * k + 7));
    }
    assert(netlist::on_net(d, (sq.id0 + 9 + n + 2 * k) as u32, 1, sheet::shifted(sq.origin, 24, 10 * k + 5))) by {
        netlist::lemma_pin(d, 0, (sq.id0 + 9 + n + 2 * k) as u32, 1);
        assert(d[0].pins[1] == sheet::shifted(sq.origin, 24, 10 * k + 5));
    }
    assert(netlist::on_net(d, (sq.id0 + 9 + n + 2 * k) as u32, 2, sheet::shifted(sq.origin, 28, 10 * k + 6))) by {
        netlist::lemma_pin(d, 0, (sq.id0 + 9 + n + 2 * k) as u32, 2);
        assert(d[0].pins[2] == sheet::shifted(sq.origin, 28, 10 * k + 6));
    }
    assert(netlist::on_net(d, (sq.id0 + 10 + n + 2 * k) as u32, 2, sheet::shifted(sq.origin, 28, 10 * k + 6))) by {
        netlist::lemma_pin(d, 1, (sq.id0 + 10 + n + 2 * k) as u32, 2);
        assert(d[1].pins[2] == sheet::shifted(sq.origin, 28, 10 * k + 10));
        netlist::lemma_pin_along(d, (sq.id0 + 10 + n + 2 * k) as u32, 2, sheet::shifted(sq.origin, 28, 10 * k + 10), sheet::shifted(sq.origin, 28, 10 * k + 6), 2);
    }
    assert(netlist::joined(d, sheet::shifted(sq.origin, 32, 10 * k + 10), sheet::shifted(sq.origin, 28, 10 * k + 6))) by {
        netlist::lemma_joined_here(d, sheet::shifted(sq.origin, 32, 10 * k + 10));
        netlist::lemma_joined_along(d, sheet::shifted(sq.origin, 32, 10 * k + 10), sheet::shifted(sq.origin, 32, 10 * k + 10), sheet::shifted(sq.origin, 28, 10 * k + 10), 3);
        netlist::lemma_joined_along(d, sheet::shifted(sq.origin, 32, 10 * k + 10), sheet::shifted(sq.origin, 28, 10 * k + 10), sheet::shifted(sq.origin, 28, 10 * k + 6), 2);
    }
    assert(netlist::on_net(d, (sq.id0 + 9 + n + 2 * k) as u32, 3, sheet::shifted(sq.origin, 27, 10 * k + 8))) by {
        netlist::lemma_pin(d, 0, (sq.id0 + 9 + n + 2 * k) as u32, 3);
        assert(d[0].pins[3] == sheet::shifted(sq.origin, 27, 10 * k + 8));
    }
    assert(netlist::on_net(d, (sq.id0 + 10 + n + 2 * k) as u32, 3, sheet::shifted(sq.origin, 27, 10 * k + 8))) by {
        netlist::lemma_pin(d, 1, (sq.id0 + 10 + n + 2 * k) as u32, 3);
        assert(d[1].pins[3] == sheet::shifted(sq.origin, 27, 10 * k + 8));
    }
    assert(netlist::joined(d, sheet::shifted(sq.origin, 29, 10 * k - 2), sheet::shifted(sq.origin, 27, 10 * k + 8))) by {
        netlist::lemma_joined_here(d, sheet::shifted(sq.origin, 29, 10 * k - 2));
        netlist::lemma_joined_along(d, sheet::shifted(sq.origin, 29, 10 * k - 2), sheet::shifted(sq.origin, 29, 10 * k - 2), sheet::shifted(sq.origin, 29, 10 * k + 8), 5);
        netlist::lemma_joined_along(d, sheet::shifted(sq.origin, 29, 10 * k - 2), sheet::shifted(sq.origin, 29, 10 * k + 8), sheet::shifted(sq.origin, 27, 10 * k + 8), 4);
    }
    assert(netlist::on_net(d, (sq.id0 + 10 + n + 2 * k) as u32, 0, sheet::shifted(sq.origin, 24, 10 * k + 9))) by {
        netlist::lemma_pin(d, 1, (sq.id0 + 10 + n + 2 * k) as u32, 0);
        assert(d[1].pins[0] == sheet::shifted(sq.origin, 24, 10 * k + 9));
    }
    assert(netlist::on_net(d, (sq.id0 + 10 + n + 2 * k) as u32, 1, sheet::shifted(sq.origin, 24, 10 * k + 11))) by {
        netlist::lemma_pin(d, 1, (sq.id0 + 10 + n + 2 * k) as u32, 1);
        assert(d[1].pins[1] == sheet::shifted(sq.origin, 24, 10 * k + 11));
    }
}

/// The ramp comes into the first decoder, on both stages.
pub proof fn law_the_first_ramp_is_wired(sq: Sequencer, k: int)
    requires
        sq.fits(),
        0 <= k < sq.lanes(),
        k == 0,
    ensures
        ({
            let n = sq.lanes();
            let d = netlist::laid_out(ramp_lane(sq, k));
            &&& d.len() == 4
            &&& netlist::joined(d, sheet::shifted(sq.origin, 24, 10 * k + 7), sheet::shifted(sq.origin, 23, 0))
            &&& netlist::joined(d, sheet::shifted(sq.origin, 24, 10 * k + 11), sheet::shifted(sq.origin, 23, 0))
        }),
{
    let n = sq.lanes();
    let d = netlist::laid_out(ramp_lane(sq, k));
    assert(d.len() == 4);
    assert(netlist::joined(d, sheet::shifted(sq.origin, 24, 10 * k + 7), sheet::shifted(sq.origin, 23, 0))) by {
        netlist::lemma_joined_here(d, sheet::shifted(sq.origin, 24, 10 * k + 7));
        netlist::lemma_joined_along(d, sheet::shifted(sq.origin, 24, 10 * k + 7), sheet::shifted(sq.origin, 24, 10 * k + 7), sheet::shifted(sq.origin, 23, 10 * k + 7), 1);
        netlist::lemma_joined_along(d, sheet::shifted(sq.origin, 24, 10 * k + 7), sheet::shifted(sq.origin, 23, 10 * k + 7), sheet::shifted(sq.origin, 23, 0), 0);
    }
    assert(netlist::joined(d, sheet::shifted(sq.origin, 24, 10 * k + 11), sheet::shifted(sq.origin, 23, 0))) by {
        netlist::lemma_joined_here(d, sheet::shifted(sq.origin, 24, 10 * k + 11));
        netlist::lemma_joined_along(d, sheet::shifted(sq.origin, 24, 10 * k + 11), sheet::shifted(sq.origin, 24, 10 * k + 11), sheet::shifted(sq.origin, 23, 10 * k + 11), 3);
        netlist::lemma_joined_along(d, sheet::shifted(sq.origin, 24, 10 * k + 11), sheet::shifted(sq.origin, 23, 10 * k + 11), sheet::shifted(sq.origin, 23, 10 * k + 7), 2);
        netlist::lemma_joined_along(d, sheet::shifted(sq.origin, 24, 10 * k + 11), sheet::shifted(sq.origin, 23, 10 * k + 7), sheet::shifted(sq.origin, 23, 0), 0);
    }
}

/// The ramp goes on from the decoder before to this one, on both stages.
pub proof fn law_a_ramp_is_wired(sq: Sequencer, k: int)
    requires
        sq.fits(),
        0 <= k < sq.lanes(),
        k > 0,
    ensures
        ({
            let n = sq.lanes();
            let d = netlist::laid_out(ramp_lane(sq, k));
            &&& d.len() == 4
            &&& netlist::joined(d, sheet::shifted(sq.origin, 24, 10 * k + 7), sheet::shifted(sq.origin, 23, 10 * k + 1))
            &&& netlist::joined(d, sheet::shifted(sq.origin, 24, 10 * k + 11), sheet::shifted(sq.origin, 23, 10 * k + 1))
        }),
{
    let n = sq.lanes();
    let d = netlist::laid_out(ramp_lane(sq, k));
    assert(d.len() == 4);
    assert(netlist::joined(d, sheet::shifted(sq.origin, 24, 10 * k + 7), sheet::shifted(sq.origin, 23, 10 * k + 1))) by {
        netlist::lemma_joined_here(d, sheet::shifted(sq.origin, 24, 10 * k + 7));
        netlist::lemma_joined_along(d, sheet::shifted(sq.origin, 24, 10 * k + 7), sheet::shifted(sq.origin, 24, 10 * k + 7), sheet::shifted(sq.origin, 23, 10 * k + 7), 1);
        netlist::lemma_joined_along(d, sheet::shifted(sq.origin, 24, 10 * k + 7), sheet::shifted(sq.origin, 23, 10 * k + 7), sheet::shifted(sq.origin, 23, 10 * k + 1), 0);
    }
    assert(netlist::joined(d, sheet::shifted(sq.origin, 24, 10 * k + 11), sheet::shifted(sq.origin, 23, 10 * k + 1))) by {
        netlist::lemma_joined_here(d, sheet::shifted(sq.origin, 24, 10 * k + 11));
        netlist::lemma_joined_along(d, sheet::shifted(sq.origin, 24, 10 * k + 11), sheet::shifted(sq.origin, 24, 10 * k + 11), sheet::shifted(sq.origin, 23, 10 * k + 11), 3);
        netlist::lemma_joined_along(d, sheet::shifted(sq.origin, 24, 10 * k + 11), sheet::shifted(sq.origin, 23, 10 * k + 11), sheet::shifted(sq.origin, 23, 10 * k + 7), 2);
        netlist::lemma_joined_along(d, sheet::shifted(sq.origin, 24, 10 * k + 11), sheet::shifted(sq.origin, 23, 10 * k + 7), sheet::shifted(sq.origin, 23, 10 * k + 1), 0);
    }
}

/// A Zener diode holds what the decoder of a step gives.
pub proof fn law_a_clamp_is_wired(sq: Sequencer, k: int)
    requires
        sq.fits(),
        0 <= k < sq.lanes(),
    ensures
        ({
            let n = sq.lanes();
            let d = netlist::laid_out(clamp_lane(sq, k));
            &&& d.len() == 1
            &&& netlist::has_part(d, (sq.id0 + 9 + 3 * n + k) as u32, ElementKind::Zener { vz: Real { bits: 0x4014_6666_6666_6666 } })
            &&& netlist::on_net(d, (sq.id0 + 9 + 3 * n + k) as u32, 0, sheet::shifted(sq.origin, 32, 10 * k + 12))
            &&& netlist::on_net(d, (sq.id0 + 9 + 3 * n + k) as u32, 1, sheet::shifted(sq.origin, 32, 10 * k + 10))
        }),
{
    let n = sq.lanes();
    let d = netlist::laid_out(clamp_lane(sq, k));
    assert(d.len() == 1);
    assert(netlist::has_part(d, (sq.id0 + 9 + 3 * n + k) as u32, ElementKind::Zener { vz: Real { bits: 0x4014_6666_6666_6666 } })) by {
        netlist::lemma_part(d, 0);
        assert(d[0].id == (sq.id0 + 9 + 3 * n + k) as u32);
        assert(d[0].kind == (ElementKind::Zener { vz: Real { bits: 0x4014_6666_6666_6666 } }));
    }
    assert(netlist::on_net(d, (sq.id0 + 9 + 3 * n + k) as u32, 0, sheet::shifted(sq.origin, 32, 10 * k + 12))) by {
        netlist::lemma_pin(d, 0, (sq.id0 + 9 + 3 * n + k) as u32, 0);
        assert(d[0].pins[0] == sheet::shifted(sq.origin, 32, 10 * k + 12));
    }
    assert(netlist::on_net(d, (sq.id0 + 9 + 3 * n + k) as u32, 1, sheet::shifted(sq.origin, 32, 10 * k + 10))) by {
        netlist::lemma_pin(d, 0, (sq.id0 + 9 + 3 * n + k) as u32, 1);
        assert(d[0].pins[1] == sheet::shifted(sq.origin, 32, 10 * k + 10));
    }
}

/// The first clamp is earthed, by a symbol with a number of its own.
pub proof fn law_the_first_clamp_is_earthed(sq: Sequencer, k: int)
    requires
        sq.fits(),
        0 <= k < sq.lanes(),
        k == 0,
    ensures
        ({
            let n = sq.lanes();
            let d = netlist::laid_out(clamp_ground_lane(sq, k));
            &&& d.len() == 1
            &&& netlist::has_part(d, (sq.id0 + 9 + 4 * n) as u32, ElementKind::Ground)
            &&& netlist::has_ground(d, sheet::shifted(sq.origin, 32, 10 * k + 12), 0)
            &&& netlist::earthed(d, sheet::shifted(sq.origin, 32, 10 * k + 12))
        }),
{
    let n = sq.lanes();
    let d = netlist::laid_out(clamp_ground_lane(sq, k));
    assert(d.len() == 1);
    assert(netlist::has_part(d, (sq.id0 + 9 + 4 * n) as u32, ElementKind::Ground)) by {
        netlist::lemma_part(d, 0);
        assert(d[0].id == (sq.id0 + 9 + 4 * n) as u32);
        assert(d[0].kind == ElementKind::Ground);
    }
    assert(netlist::has_ground(d, sheet::shifted(sq.origin, 32, 10 * k + 12), 0)) by {
        netlist::lemma_ground(d, 0);
        assert(d[0].pins[0] == sheet::shifted(sq.origin, 32, 10 * k + 12));
    }
    assert(netlist::earthed(d, sheet::shifted(sq.origin, 32, 10 * k + 12))) by {
        netlist::lemma_earth(d, 0);
    }
}

/// A clamp is earthed.
pub proof fn law_a_clamp_is_earthed(sq: Sequencer, k: int)
    requires
        sq.fits(),
        0 <= k < sq.lanes(),
        k > 0,
    ensures
        ({
            let n = sq.lanes();
            let d = netlist::laid_out(clamp_ground_lane(sq, k));
            &&& d.len() == 1
            &&& netlist::has_ground(d, sheet::shifted(sq.origin, 32, 10 * k + 12), 0)
            &&& netlist::earthed(d, sheet::shifted(sq.origin, 32, 10 * k + 12))
        }),
{
    let n = sq.lanes();
    let d = netlist::laid_out(clamp_ground_lane(sq, k));
    assert(d.len() == 1);
    assert(netlist::has_ground(d, sheet::shifted(sq.origin, 32, 10 * k + 12), 0)) by {
        netlist::lemma_ground(d, 0);
        assert(d[0].pins[0] == sheet::shifted(sq.origin, 32, 10 * k + 12));
    }
    assert(netlist::earthed(d, sheet::shifted(sq.origin, 32, 10 * k + 12))) by {
        netlist::lemma_earth(d, 0);
    }
}

/// The first pitch knob lies across its step, and its wiper goes out through a diode.
pub proof fn law_the_first_pitch_is_wired(sq: Sequencer, k: int)
    requires
        sq.fits(),
        0 <= k < sq.lanes(),
        k == 0,
    ensures
        ({
            let n = sq.lanes();
            let d = netlist::laid_out(pitch_lane(sq, k));
            &&& d.len() == 5
            &&& netlist::has_part(d, (sq.id0 + 10 + 4 * n + 2 * k) as u32, ElementKind::Potentiometer { ohms: Real { bits: 0x40e6_f300_0000_0000 }, wiper: sq.wipers@[k] })
            &&& netlist::has_ground(d, sheet::shifted(sq.origin, 44, 10 * k + 10), 3)
            &&& netlist::has_part(d, (sq.id0 + 11 + 4 * n + 2 * k) as u32, ElementKind::Diode)
            &&& netlist::on_net(d, (sq.id0 + 10 + 4 * n + 2 * k) as u32, 0, sheet::shifted(sq.origin, 44, 10 * k + 10))
            &&& netlist::earthed(d, sheet::shifted(sq.origin, 44, 10 * k + 10))
            &&& netlist::on_net(d, (sq.id0 + 10 + 4 * n + 2 * k) as u32, 1, sheet::shifted(sq.origin, 41, 10 * k + 8))
            &&& netlist::on_net(d, (sq.id0 + 11 + 4 * n + 2 * k) as u32, 0, sheet::shifted(sq.origin, 41, 10 * k + 8))
            &&& netlist::on_net(d, (sq.id0 + 10 + 4 * n + 2 * k) as u32, 2, sheet::shifted(sq.origin, 38, 10 * k + 10))
            &&& netlist::joined(d, sheet::shifted(sq.origin, 32, 10 * k + 10), sheet::shifted(sq.origin, 38, 10 * k + 10))
            &&& netlist::on_net(d, (sq.id0 + 11 + 4 * n + 2 * k) as u32, 1, sheet::shifted(sq.origin, 45, 10 * k + 8))
            &&& netlist::joined(d, sheet::shifted(sq.origin, 48, 10 * k + 8), sheet::shifted(sq.origin, 45, 10 * k + 8))
        }),
{
    let n = sq.lanes();
    let d = netlist::laid_out(pitch_lane(sq, k));
    assert(d.len() == 5);
    assert(netlist::has_part(d, (sq.id0 + 10 + 4 * n + 2 * k) as u32, ElementKind::Potentiometer { ohms: Real { bits: 0x40e6_f300_0000_0000 }, wiper: sq.wipers@[k] })) by {
        netlist::lemma_part(d, 1);
        assert(d[1].id == (sq.id0 + 10 + 4 * n + 2 * k) as u32);
        assert(d[1].kind == (ElementKind::Potentiometer { ohms: Real { bits: 0x40e6_f300_0000_0000 }, wiper: sq.wipers@[k] }));
    }
    assert(netlist::has_ground(d, sheet::shifted(sq.origin, 44, 10 * k + 10), 3)) by {
        netlist::lemma_ground(d, 2);
        assert(d[2].pins[0] == sheet::shifted(sq.origin, 44, 10 * k + 10));
    }
    assert(netlist::has_part(d, (sq.id0 + 11 + 4 * n + 2 * k) as u32, ElementKind::Diode)) by {
        netlist::lemma_part(d, 3);
        assert(d[3].id == (sq.id0 + 11 + 4 * n + 2 * k) as u32);
        assert(d[3].kind == ElementKind::Diode);
    }
    assert(netlist::on_net(d, (sq.id0 + 10 + 4 * n + 2 * k) as u32, 0, sheet::shifted(sq.origin, 44, 10 * k + 10))) by {
        netlist::lemma_pin(d, 1, (sq.id0 + 10 + 4 * n + 2 * k) as u32, 0);
        assert(d[1].pins[0] == sheet::shifted(sq.origin, 44, 10 * k + 10));
    }
    assert(netlist::earthed(d, sheet::shifted(sq.origin, 44, 10 * k + 10))) by {
        netlist::lemma_earth(d, 2);
    }
    assert(netlist::on_net(d, (sq.id0 + 10 + 4 * n + 2 * k) as u32, 1, sheet::shifted(sq.origin, 41, 10 * k + 8))) by {
        netlist::lemma_pin(d, 1, (sq.id0 + 10 + 4 * n + 2 * k) as u32, 1);
        assert(d[1].pins[1] == sheet::shifted(sq.origin, 41, 10 * k + 8));
    }
    assert(netlist::on_net(d, (sq.id0 + 11 + 4 * n + 2 * k) as u32, 0, sheet::shifted(sq.origin, 41, 10 * k + 8))) by {
        netlist::lemma_pin(d, 3, (sq.id0 + 11 + 4 * n + 2 * k) as u32, 0);
        assert(d[3].pins[0] == sheet::shifted(sq.origin, 41, 10 * k + 8));
    }
    assert(netlist::on_net(d, (sq.id0 + 10 + 4 * n + 2 * k) as u32, 2, sheet::shifted(sq.origin, 38, 10 * k + 10))) by {
        netlist::lemma_pin(d, 1, (sq.id0 + 10 + 4 * n + 2 * k) as u32, 2);
        assert(d[1].pins[2] == sheet::shifted(sq.origin, 38, 10 * k + 10));
    }
    assert(netlist::joined(d, sheet::shifted(sq.origin, 32, 10 * k + 10), sheet::shifted(sq.origin, 38, 10 * k + 10))) by {
        netlist::lemma_joined_here(d, sheet::shifted(sq.origin, 32, 10 * k + 10));
        netlist::lemma_joined_along(d, sheet::shifted(sq.origin, 32, 10 * k + 10), sheet::shifted(sq.origin, 32, 10 * k + 10), sheet::shifted(sq.origin, 38, 10 * k + 10), 0);
    }
    assert(netlist::on_net(d, (sq.id0 + 11 + 4 * n + 2 * k) as u32, 1, sheet::shifted(sq.origin, 45, 10 * k + 8))) by {
        netlist::lemma_pin(d, 3, (sq.id0 + 11 + 4 * n + 2 * k) as u32, 1);
        assert(d[3].pins[1] == sheet::shifted(sq.origin, 45, 10 * k + 8));
    }
    assert(netlist::joined(d, sheet::shifted(sq.origin, 48, 10 * k + 8), sheet::shifted(sq.origin, 45, 10 * k + 8))) by {
        netlist::lemma_joined_here(d, sheet::shifted(sq.origin, 48, 10 * k + 8));
        netlist::lemma_joined_along(d, sheet::shifted(sq.origin, 48, 10 * k + 8), sheet::shifted(sq.origin, 48, 10 * k + 8), sheet::shifted(sq.origin, 45, 10 * k + 8), 4);
    }
}

/// A pitch knob lies across its step, and its wiper goes out through a diode, onto the one
/// before.
pub proof fn law_a_pitch_is_wired(sq: Sequencer, k: int)
    requires
        sq.fits(),
        0 <= k < sq.lanes(),
        k > 0,
    ensures
        ({
            let n = sq.lanes();
            let d = netlist::laid_out(pitch_lane(sq, k));
            &&& d.len() == 6
            &&& netlist::has_part(d, (sq.id0 + 10 + 4 * n + 2 * k) as u32, ElementKind::Potentiometer { ohms: Real { bits: 0x40e6_f300_0000_0000 }, wiper: sq.wipers@[k] })
            &&& netlist::has_ground(d, sheet::shifted(sq.origin, 44, 10 * k + 10), 3)
            &&& netlist::has_part(d, (sq.id0 + 11 + 4 * n + 2 * k) as u32, ElementKind::Diode)
            &&& netlist::on_net(d, (sq.id0 + 10 + 4 * n + 2 * k) as u32, 0, sheet::shifted(sq.origin, 44, 10 * k + 10))
            &&& netlist::earthed(d, sheet::shifted(sq.origin, 44, 10 * k + 10))
            &&& netlist::on_net(d, (sq.id0 + 10 + 4 * n + 2 * k) as u32, 1, sheet::shifted(sq.origin, 41, 10 * k + 8))
            &&& netlist::on_net(d, (sq.id0 + 11 + 4 * n + 2 * k) as u32, 0, sheet::shifted(sq.origin, 41, 10 * k + 8))
            &&& netlist::on_net(d, (sq.id0 + 10 + 4 * n + 2 * k) as u32, 2, sheet::shifted(sq.origin, 38, 10 * k + 10))
            &&& netlist::joined(d, sheet::shifted(sq.origin, 32, 10 * k + 10), sheet::shifted(sq.origin, 38, 10 * k + 10))
            &&& netlist::on_net(d, (sq.id0 + 11 + 4 * n + 2 * k) as u32, 1, sheet::shifted(sq.origin, 45, 10 * k + 8))
            &&& netlist::joined(d, sheet::shifted(sq.origin, 48, 10 * k - 2), sheet::shifted(sq.origin, 45, 10 * k + 8))
        }),
{
    let n = sq.lanes();
    let d = netlist::laid_out(pitch_lane(sq, k));
    assert(d.len() == 6);
    assert(netlist::has_part(d, (sq.id0 + 10 + 4 * n + 2 * k) as u32, ElementKind::Potentiometer { ohms: Real { bits: 0x40e6_f300_0000_0000 }, wiper: sq.wipers@[k] })) by {
        netlist::lemma_part(d, 1);
        assert(d[1].id == (sq.id0 + 10 + 4 * n + 2 * k) as u32);
        assert(d[1].kind == (ElementKind::Potentiometer { ohms: Real { bits: 0x40e6_f300_0000_0000 }, wiper: sq.wipers@[k] }));
    }
    assert(netlist::has_ground(d, sheet::shifted(sq.origin, 44, 10 * k + 10), 3)) by {
        netlist::lemma_ground(d, 2);
        assert(d[2].pins[0] == sheet::shifted(sq.origin, 44, 10 * k + 10));
    }
    assert(netlist::has_part(d, (sq.id0 + 11 + 4 * n + 2 * k) as u32, ElementKind::Diode)) by {
        netlist::lemma_part(d, 3);
        assert(d[3].id == (sq.id0 + 11 + 4 * n + 2 * k) as u32);
        assert(d[3].kind == ElementKind::Diode);
    }
    assert(netlist::on_net(d, (sq.id0 + 10 + 4 * n + 2 * k) as u32, 0, sheet::shifted(sq.origin, 44, 10 * k + 10))) by {
        netlist::lemma_pin(d, 1, (sq.id0 + 10 + 4 * n + 2 * k) as u32, 0);
        assert(d[1].pins[0] == sheet::shifted(sq.origin, 44, 10 * k + 10));
    }
    assert(netlist::earthed(d, sheet::shifted(sq.origin, 44, 10 * k + 10))) by {
        netlist::lemma_earth(d, 2);
    }
    assert(netlist::on_net(d, (sq.id0 + 10 + 4 * n + 2 * k) as u32, 1, sheet::shifted(sq.origin, 41, 10 * k + 8))) by {
        netlist::lemma_pin(d, 1, (sq.id0 + 10 + 4 * n + 2 * k) as u32, 1);
        assert(d[1].pins[1] == sheet::shifted(sq.origin, 41, 10 * k + 8));
    }
    assert(netlist::on_net(d, (sq.id0 + 11 + 4 * n + 2 * k) as u32, 0, sheet::shifted(sq.origin, 41, 10 * k + 8))) by {
        netlist::lemma_pin(d, 3, (sq.id0 + 11 + 4 * n + 2 * k) as u32, 0);
        assert(d[3].pins[0] == sheet::shifted(sq.origin, 41, 10 * k + 8));
    }
    assert(netlist::on_net(d, (sq.id0 + 10 + 4 * n + 2 * k) as u32, 2, sheet::shifted(sq.origin, 38, 10 * k + 10))) by {
        netlist::lemma_pin(d, 1, (sq.id0 + 10 + 4 * n + 2 * k) as u32, 2);
        assert(d[1].pins[2] == sheet::shifted(sq.origin, 38, 10 * k + 10));
    }
    assert(netlist::joined(d, sheet::shifted(sq.origin, 32, 10 * k + 10), sheet::shifted(sq.origin, 38, 10 * k + 10))) by {
        netlist::lemma_joined_here(d, sheet::shifted(sq.origin, 32, 10 * k + 10));
        netlist::lemma_joined_along(d, sheet::shifted(sq.origin, 32, 10 * k + 10), sheet::shifted(sq.origin, 32, 10 * k + 10), sheet::shifted(sq.origin, 38, 10 * k + 10), 0);
    }
    assert(netlist::on_net(d, (sq.id0 + 11 + 4 * n + 2 * k) as u32, 1, sheet::shifted(sq.origin, 45, 10 * k + 8))) by {
        netlist::lemma_pin(d, 3, (sq.id0 + 11 + 4 * n + 2 * k) as u32, 1);
        assert(d[3].pins[1] == sheet::shifted(sq.origin, 45, 10 * k + 8));
    }
    assert(netlist::joined(d, sheet::shifted(sq.origin, 48, 10 * k - 2), sheet::shifted(sq.origin, 45, 10 * k + 8))) by {
        netlist::lemma_joined_here(d, sheet::shifted(sq.origin, 48, 10 * k - 2));
        netlist::lemma_joined_along(d, sheet::shifted(sq.origin, 48, 10 * k - 2), sheet::shifted(sq.origin, 48, 10 * k - 2), sheet::shifted(sq.origin, 48, 10 * k + 8), 5);
        netlist::lemma_joined_along(d, sheet::shifted(sq.origin, 48, 10 * k - 2), sheet::shifted(sq.origin, 48, 10 * k + 8), sheet::shifted(sq.origin, 45, 10 * k + 8), 4);
    }
}

/// The pitches meet on one resistor to ground, and a follower gives them out.
pub proof fn law_the_buffer_is_wired(sq: Sequencer)
    requires
        sq.fits(),
    ensures
        ({
            let n = sq.lanes();
            let d = netlist::laid_out(buffer_strokes(sq));
            &&& d.len() == 11
            &&& netlist::has_part(d, (sq.id0 + 10 + 6 * n) as u32, ElementKind::Resistor { ohms: Real { bits: 0x411c_afc0_0000_0000 } })
            &&& netlist::has_part(d, (sq.id0 + 11 + 6 * n) as u32, ElementKind::Ground)
            &&& netlist::has_ground(d, sheet::shifted(sq.origin, 52, 0), 3)
            &&& netlist::has_part(d, (sq.id0 + 12 + 6 * n) as u32, ElementKind::OpAmp { rail: Real { bits: 0x4022_0000_0000_0000 }, isc: Real { bits: 0x3f99_9999_9999_999a } })
            &&& netlist::on_net(d, (sq.id0 + 10 + 6 * n) as u32, 0, sheet::shifted(sq.origin, 48, 0))
            &&& netlist::on_net(d, (sq.id0 + 12 + 6 * n) as u32, 0, sheet::shifted(sq.origin, 48, 0))
            &&& netlist::joined(d, sheet::shifted(sq.origin, 48, 10 * n - 2), sheet::shifted(sq.origin, 48, 0))
            &&& netlist::on_net(d, (sq.id0 + 10 + 6 * n) as u32, 1, sheet::shifted(sq.origin, 52, 0))
            &&& netlist::earthed(d, sheet::shifted(sq.origin, 52, 0))
            &&& netlist::on_net(d, (sq.id0 + 12 + 6 * n) as u32, 1, sheet::shifted(sq.origin, 52, -1))
            &&& netlist::on_net(d, (sq.id0 + 12 + 6 * n) as u32, 2, sheet::shifted(sq.origin, 52, -1))
            &&& netlist::joined(d, sheet::shifted(sq.origin, 56, -4), sheet::shifted(sq.origin, 52, -1))
        }),
{
    let n = sq.lanes();
    let d = netlist::laid_out(buffer_strokes(sq));
    assert(d.len() == 11);
    assert(netlist::has_part(d, (sq.id0 + 10 + 6 * n) as u32, ElementKind::Resistor { ohms: Real { bits: 0x411c_afc0_0000_0000 } })) by {
        netlist::lemma_part(d, 3);
        assert(d[3].id == (sq.id0 + 10 + 6 * n) as u32);
        assert(d[3].kind == (ElementKind::Resistor { ohms: Real { bits: 0x411c_afc0_0000_0000 } }));
    }
    assert(netlist::has_part(d, (sq.id0 + 11 + 6 * n) as u32, ElementKind::Ground)) by {
        netlist::lemma_part(d, 4);
        assert(d[4].id == (sq.id0 + 11 + 6 * n) as u32);
        assert(d[4].kind == ElementKind::Ground);
    }
    assert(netlist::has_ground(d, sheet::shifted(sq.origin, 52, 0), 3)) by {
        netlist::lemma_ground(d, 4);
        assert(d[4].pins[0] == sheet::shifted(sq.origin, 52, 0));
    }
    assert(netlist::has_part(d, (sq.id0 + 12 + 6 * n) as u32, ElementKind::OpAmp { rail: Real { bits: 0x4022_0000_0000_0000 }, isc: Real { bits: 0x3f99_9999_9999_999a } })) by {
        netlist::lemma_part(d, 6);
        assert(d[6].id == (sq.id0 + 12 + 6 * n) as u32);
        assert(d[6].kind == (ElementKind::OpAmp { rail: Real { bits: 0x4022_0000_0000_0000 }, isc: Real { bits: 0x3f99_9999_9999_999a } }));
    }
    assert(netlist::on_net(d, (sq.id0 + 10 + 6 * n) as u32, 0, sheet::shifted(sq.origin, 48, 0))) by {
        netlist::lemma_pin(d, 3, (sq.id0 + 10 + 6 * n) as u32, 0);
        assert(d[3].pins[0] == sheet::shifted(sq.origin, 48, 0));
    }
    assert(netlist::on_net(d, (sq.id0 + 12 + 6 * n) as u32, 0, sheet::shifted(sq.origin, 48, 0))) by {
        netlist::lemma_pin(d, 6, (sq.id0 + 12 + 6 * n) as u32, 0);
        assert(d[6].pins[0] == sheet::shifted(sq.origin, 52, -3));
        netlist::lemma_pin_along(d, (sq.id0 + 12 + 6 * n) as u32, 0, sheet::shifted(sq.origin, 52, -3), sheet::shifted(sq.origin, 48, -3), 5);
        netlist::lemma_pin_along(d, (sq.id0 + 12 + 6 * n) as u32, 0, sheet::shifted(sq.origin, 48, -3), sheet::shifted(sq.origin, 48, 0), 2);
    }
    assert(netlist::joined(d, sheet::shifted(sq.origin, 48, 10 * n - 2), sheet::shifted(sq.origin, 48, 0))) by {
        netlist::lemma_joined_here(d, sheet::shifted(sq.origin, 48, 10 * n - 2));
        netlist::lemma_joined_along(d, sheet::shifted(sq.origin, 48, 10 * n - 2), sheet::shifted(sq.origin, 48, 10 * n - 2), sheet::shifted(sq.origin, 48, 8), 0);
        netlist::lemma_joined_along(d, sheet::shifted(sq.origin, 48, 10 * n - 2), sheet::shifted(sq.origin, 48, 8), sheet::shifted(sq.origin, 48, 0), 1);
    }
    assert(netlist::on_net(d, (sq.id0 + 10 + 6 * n) as u32, 1, sheet::shifted(sq.origin, 52, 0))) by {
        netlist::lemma_pin(d, 3, (sq.id0 + 10 + 6 * n) as u32, 1);
        assert(d[3].pins[1] == sheet::shifted(sq.origin, 52, 0));
    }
    assert(netlist::earthed(d, sheet::shifted(sq.origin, 52, 0))) by {
        netlist::lemma_earth(d, 4);
    }
    assert(netlist::on_net(d, (sq.id0 + 12 + 6 * n) as u32, 1, sheet::shifted(sq.origin, 52, -1))) by {
        netlist::lemma_pin(d, 6, (sq.id0 + 12 + 6 * n) as u32, 1);
        assert(d[6].pins[1] == sheet::shifted(sq.origin, 52, -1));
    }
    assert(netlist::on_net(d, (sq.id0 + 12 + 6 * n) as u32, 2, sheet::shifted(sq.origin, 52, -1))) by {
        netlist::lemma_pin(d, 6, (sq.id0 + 12 + 6 * n) as u32, 2);
        assert(d[6].pins[2] == sheet::shifted(sq.origin, 56, -2));
        netlist::lemma_pin_along(d, (sq.id0 + 12 + 6 * n) as u32, 2, sheet::shifted(sq.origin, 56, -2), sheet::shifted(sq.origin, 56, -1), 7);
        netlist::lemma_pin_along(d, (sq.id0 + 12 + 6 * n) as u32, 2, sheet::shifted(sq.origin, 56, -1), sheet::shifted(sq.origin, 52, -1), 8);
    }
    assert(netlist::joined(d, sheet::shifted(sq.origin, 56, -4), sheet::shifted(sq.origin, 52, -1))) by {
        netlist::lemma_joined_here(d, sheet::shifted(sq.origin, 56, -4));
        netlist::lemma_joined_along(d, sheet::shifted(sq.origin, 56, -4), sheet::shifted(sq.origin, 56, -4), sheet::shifted(sq.origin, 56, -2), 10);
        netlist::lemma_joined_along(d, sheet::shifted(sq.origin, 56, -4), sheet::shifted(sq.origin, 56, -2), sheet::shifted(sq.origin, 56, -1), 7);
        netlist::lemma_joined_along(d, sheet::shifted(sq.origin, 56, -4), sheet::shifted(sq.origin, 56, -1), sheet::shifted(sq.origin, 52, -1), 8);
    }
}

/// The first toggle takes its step out through a diode.
pub proof fn law_the_first_beat_is_wired(sq: Sequencer, k: int)
    requires
        sq.fits(),
        0 <= k < sq.lanes(),
        k == 0,
    ensures
        ({
            let n = sq.lanes();
            let d = netlist::laid_out(beat_lane(sq, k));
            &&& d.len() == 3
            &&& netlist::has_part(d, (sq.id0 + 13 + 6 * n + 2 * k) as u32, ElementKind::Switch { closed: sq.beats@[k] })
            &&& netlist::has_part(d, (sq.id0 + 14 + 6 * n + 2 * k) as u32, ElementKind::Diode)
            &&& netlist::on_net(d, (sq.id0 + 13 + 6 * n + 2 * k) as u32, 0, sheet::shifted(sq.origin, 38, 10 * k + 12))
            &&& netlist::joined(d, sheet::shifted(sq.origin, 38, 10 * k + 10), sheet::shifted(sq.origin, 38, 10 * k + 12))
            &&& netlist::on_net(d, (sq.id0 + 13 + 6 * n + 2 * k) as u32, 1, sheet::shifted(sq.origin, 42, 10 * k + 12))
            &&& netlist::on_net(d, (sq.id0 + 14 + 6 * n + 2 * k) as u32, 0, sheet::shifted(sq.origin, 42, 10 * k + 12))
            &&& netlist::on_net(d, (sq.id0 + 14 + 6 * n + 2 * k) as u32, 1, sheet::shifted(sq.origin, 46, 10 * k + 12))
        }),
{
    let n = sq.lanes();
    let d = netlist::laid_out(beat_lane(sq, k));
    assert(d.len() == 3);
    assert(netlist::has_part(d, (sq.id0 + 13 + 6 * n + 2 * k) as u32, ElementKind::Switch { closed: sq.beats@[k] })) by {
        netlist::lemma_part(d, 1);
        assert(d[1].id == (sq.id0 + 13 + 6 * n + 2 * k) as u32);
        assert(d[1].kind == (ElementKind::Switch { closed: sq.beats@[k] }));
    }
    assert(netlist::has_part(d, (sq.id0 + 14 + 6 * n + 2 * k) as u32, ElementKind::Diode)) by {
        netlist::lemma_part(d, 2);
        assert(d[2].id == (sq.id0 + 14 + 6 * n + 2 * k) as u32);
        assert(d[2].kind == ElementKind::Diode);
    }
    assert(netlist::on_net(d, (sq.id0 + 13 + 6 * n + 2 * k) as u32, 0, sheet::shifted(sq.origin, 38, 10 * k + 12))) by {
        netlist::lemma_pin(d, 1, (sq.id0 + 13 + 6 * n + 2 * k) as u32, 0);
        assert(d[1].pins[0] == sheet::shifted(sq.origin, 38, 10 * k + 12));
    }
    assert(netlist::joined(d, sheet::shifted(sq.origin, 38, 10 * k + 10), sheet::shifted(sq.origin, 38, 10 * k + 12))) by {
        netlist::lemma_joined_here(d, sheet::shifted(sq.origin, 38, 10 * k + 10));
        netlist::lemma_joined_along(d, sheet::shifted(sq.origin, 38, 10 * k + 10), sheet::shifted(sq.origin, 38, 10 * k + 10), sheet::shifted(sq.origin, 38, 10 * k + 12), 0);
    }
    assert(netlist::on_net(d, (sq.id0 + 13 + 6 * n + 2 * k) as u32, 1, sheet::shifted(sq.origin, 42, 10 * k + 12))) by {
        netlist::lemma_pin(d, 1, (sq.id0 + 13 + 6 * n + 2 * k) as u32, 1);
        assert(d[1].pins[1] == sheet::shifted(sq.origin, 42, 10 * k + 12));
    }
    assert(netlist::on_net(d, (sq.id0 + 14 + 6 * n + 2 * k) as u32, 0, sheet::shifted(sq.origin, 42, 10 * k + 12))) by {
        netlist::lemma_pin(d, 2, (sq.id0 + 14 + 6 * n + 2 * k) as u32, 0);
        assert(d[2].pins[0] == sheet::shifted(sq.origin, 42, 10 * k + 12));
    }
    assert(netlist::on_net(d, (sq.id0 + 14 + 6 * n + 2 * k) as u32, 1, sheet::shifted(sq.origin, 46, 10 * k + 12))) by {
        netlist::lemma_pin(d, 2, (sq.id0 + 14 + 6 * n + 2 * k) as u32, 1);
        assert(d[2].pins[1] == sheet::shifted(sq.origin, 46, 10 * k + 12));
    }
}

/// A toggle takes its step out through a diode, onto the one before.
pub proof fn law_a_beat_is_wired(sq: Sequencer, k: int)
    requires
        sq.fits(),
        0 <= k < sq.lanes(),
        k > 0,
    ensures
        ({
            let n = sq.lanes();
            let d = netlist::laid_out(beat_lane(sq, k));
            &&& d.len() == 4
            &&& netlist::has_part(d, (sq.id0 + 13 + 6 * n + 2 * k) as u32, ElementKind::Switch { closed: sq.beats@[k] })
            &&& netlist::has_part(d, (sq.id0 + 14 + 6 * n + 2 * k) as u32, ElementKind::Diode)
            &&& netlist::on_net(d, (sq.id0 + 13 + 6 * n + 2 * k) as u32, 0, sheet::shifted(sq.origin, 38, 10 * k + 12))
            &&& netlist::joined(d, sheet::shifted(sq.origin, 38, 10 * k + 10), sheet::shifted(sq.origin, 38, 10 * k + 12))
            &&& netlist::on_net(d, (sq.id0 + 13 + 6 * n + 2 * k) as u32, 1, sheet::shifted(sq.origin, 42, 10 * k + 12))
            &&& netlist::on_net(d, (sq.id0 + 14 + 6 * n + 2 * k) as u32, 0, sheet::shifted(sq.origin, 42, 10 * k + 12))
            &&& netlist::on_net(d, (sq.id0 + 14 + 6 * n + 2 * k) as u32, 1, sheet::shifted(sq.origin, 46, 10 * k + 12))
            &&& netlist::joined(d, sheet::shifted(sq.origin, 46, 10 * k + 2), sheet::shifted(sq.origin, 46, 10 * k + 12))
        }),
{
    let n = sq.lanes();
    let d = netlist::laid_out(beat_lane(sq, k));
    assert(d.len() == 4);
    assert(netlist::has_part(d, (sq.id0 + 13 + 6 * n + 2 * k) as u32, ElementKind::Switch { closed: sq.beats@[k] })) by {
        netlist::lemma_part(d, 1);
        assert(d[1].id == (sq.id0 + 13 + 6 * n + 2 * k) as u32);
        assert(d[1].kind == (ElementKind::Switch { closed: sq.beats@[k] }));
    }
    assert(netlist::has_part(d, (sq.id0 + 14 + 6 * n + 2 * k) as u32, ElementKind::Diode)) by {
        netlist::lemma_part(d, 2);
        assert(d[2].id == (sq.id0 + 14 + 6 * n + 2 * k) as u32);
        assert(d[2].kind == ElementKind::Diode);
    }
    assert(netlist::on_net(d, (sq.id0 + 13 + 6 * n + 2 * k) as u32, 0, sheet::shifted(sq.origin, 38, 10 * k + 12))) by {
        netlist::lemma_pin(d, 1, (sq.id0 + 13 + 6 * n + 2 * k) as u32, 0);
        assert(d[1].pins[0] == sheet::shifted(sq.origin, 38, 10 * k + 12));
    }
    assert(netlist::joined(d, sheet::shifted(sq.origin, 38, 10 * k + 10), sheet::shifted(sq.origin, 38, 10 * k + 12))) by {
        netlist::lemma_joined_here(d, sheet::shifted(sq.origin, 38, 10 * k + 10));
        netlist::lemma_joined_along(d, sheet::shifted(sq.origin, 38, 10 * k + 10), sheet::shifted(sq.origin, 38, 10 * k + 10), sheet::shifted(sq.origin, 38, 10 * k + 12), 0);
    }
    assert(netlist::on_net(d, (sq.id0 + 13 + 6 * n + 2 * k) as u32, 1, sheet::shifted(sq.origin, 42, 10 * k + 12))) by {
        netlist::lemma_pin(d, 1, (sq.id0 + 13 + 6 * n + 2 * k) as u32, 1);
        assert(d[1].pins[1] == sheet::shifted(sq.origin, 42, 10 * k + 12));
    }
    assert(netlist::on_net(d, (sq.id0 + 14 + 6 * n + 2 * k) as u32, 0, sheet::shifted(sq.origin, 42, 10 * k + 12))) by {
        netlist::lemma_pin(d, 2, (sq.id0 + 14 + 6 * n + 2 * k) as u32, 0);
        assert(d[2].pins[0] == sheet::shifted(sq.origin, 42, 10 * k + 12));
    }
    assert(netlist::on_net(d, (sq.id0 + 14 + 6 * n + 2 * k) as u32, 1, sheet::shifted(sq.origin, 46, 10 * k + 12))) by {
        netlist::lemma_pin(d, 2, (sq.id0 + 14 + 6 * n + 2 * k) as u32, 1);
        assert(d[2].pins[1] == sheet::shifted(sq.origin, 46, 10 * k + 12));
    }
    assert(netlist::joined(d, sheet::shifted(sq.origin, 46, 10 * k + 2), sheet::shifted(sq.origin, 46, 10 * k + 12))) by {
        netlist::lemma_joined_here(d, sheet::shifted(sq.origin, 46, 10 * k + 2));
        netlist::lemma_joined_along(d, sheet::shifted(sq.origin, 46, 10 * k + 2), sheet::shifted(sq.origin, 46, 10 * k + 2), sheet::shifted(sq.origin, 46, 10 * k + 12), 3);
    }
}

/// The beats meet on one resistor to ground, and go out.
pub proof fn law_the_beats_go_out(sq: Sequencer)
    requires
        sq.fits(),
    ensures
        ({
            let n = sq.lanes();
            let d = netlist::laid_out(beat_out_strokes(sq));
            &&& d.len() == 4
            &&& netlist::has_part(d, (sq.id0 + 13 + 8 * n) as u32, ElementKind::Resistor { ohms: Real { bits: 0x412e_8480_0000_0000 } })
            &&& netlist::has_ground(d, sheet::shifted(sq.origin, 42, 2), 1)
            &&& netlist::on_net(d, (sq.id0 + 13 + 8 * n) as u32, 0, sheet::shifted(sq.origin, 46, 2))
            &&& netlist::joined(d, sheet::shifted(sq.origin, 46, 12), sheet::shifted(sq.origin, 46, 2))
            &&& netlist::joined(d, sheet::shifted(sq.origin, 46, -4), sheet::shifted(sq.origin, 46, 2))
            &&& netlist::on_net(d, (sq.id0 + 13 + 8 * n) as u32, 1, sheet::shifted(sq.origin, 42, 2))
            &&& netlist::earthed(d, sheet::shifted(sq.origin, 42, 2))
        }),
{
    let n = sq.lanes();
    let d = netlist::laid_out(beat_out_strokes(sq));
    assert(d.len() == 4);
    assert(netlist::has_part(d, (sq.id0 + 13 + 8 * n) as u32, ElementKind::Resistor { ohms: Real { bits: 0x412e_8480_0000_0000 } })) by {
        netlist::lemma_part(d, 1);
        assert(d[1].id == (sq.id0 + 13 + 8 * n) as u32);
        assert(d[1].kind == (ElementKind::Resistor { ohms: Real { bits: 0x412e_8480_0000_0000 } }));
    }
    assert(netlist::has_ground(d, sheet::shifted(sq.origin, 42, 2), 1)) by {
        netlist::lemma_ground(d, 2);
        assert(d[2].pins[0] == sheet::shifted(sq.origin, 42, 2));
    }
    assert(netlist::on_net(d, (sq.id0 + 13 + 8 * n) as u32, 0, sheet::shifted(sq.origin, 46, 2))) by {
        netlist::lemma_pin(d, 1, (sq.id0 + 13 + 8 * n) as u32, 0);
        assert(d[1].pins[0] == sheet::shifted(sq.origin, 46, 2));
    }
    assert(netlist::joined(d, sheet::shifted(sq.origin, 46, 12), sheet::shifted(sq.origin, 46, 2))) by {
        netlist::lemma_joined_here(d, sheet::shifted(sq.origin, 46, 12));
        netlist::lemma_joined_along(d, sheet::shifted(sq.origin, 46, 12), sheet::shifted(sq.origin, 46, 12), sheet::shifted(sq.origin, 46, 2), 0);
    }
    assert(netlist::joined(d, sheet::shifted(sq.origin, 46, -4), sheet::shifted(sq.origin, 46, 2))) by {
        netlist::lemma_joined_here(d, sheet::shifted(sq.origin, 46, -4));
        netlist::lemma_joined_along(d, sheet::shifted(sq.origin, 46, -4), sheet::shifted(sq.origin, 46, -4), sheet::shifted(sq.origin, 46, 2), 3);
    }
    assert(netlist::on_net(d, (sq.id0 + 13 + 8 * n) as u32, 1, sheet::shifted(sq.origin, 42, 2))) by {
        netlist::lemma_pin(d, 1, (sq.id0 + 13 + 8 * n) as u32, 1);
        assert(d[1].pins[1] == sheet::shifted(sq.origin, 42, 2));
    }
    assert(netlist::earthed(d, sheet::shifted(sq.origin, 42, 2))) by {
        netlist::lemma_earth(d, 2);
    }
}

/// One resistor from the rail biases the decoders.
pub proof fn law_the_bias_is_wired(sq: Sequencer)
    requires
        sq.fits(),
    ensures
        ({
            let n = sq.lanes();
            let d = netlist::laid_out(bias_strokes(sq));
            &&& d.len() == 2
            &&& netlist::has_part(d, (sq.id0 + 8 + n) as u32, ElementKind::Resistor { ohms: Real { bits: 0x40c4_8200_0000_0000 } })
            &&& netlist::on_net(d, (sq.id0 + 8 + n) as u32, 0, sheet::shifted(sq.origin, 29, 10 * n + 4))
            &&& netlist::on_net(d, (sq.id0 + 8 + n) as u32, 1, sheet::shifted(sq.origin, 29, 10 * n + 2))
            &&& netlist::joined(d, sheet::shifted(sq.origin, 29, 10 * n - 2), sheet::shifted(sq.origin, 29, 10 * n + 2))
        }),
{
    let n = sq.lanes();
    let d = netlist::laid_out(bias_strokes(sq));
    assert(d.len() == 2);
    assert(netlist::has_part(d, (sq.id0 + 8 + n) as u32, ElementKind::Resistor { ohms: Real { bits: 0x40c4_8200_0000_0000 } })) by {
        netlist::lemma_part(d, 0);
        assert(d[0].id == (sq.id0 + 8 + n) as u32);
        assert(d[0].kind == (ElementKind::Resistor { ohms: Real { bits: 0x40c4_8200_0000_0000 } }));
    }
    assert(netlist::on_net(d, (sq.id0 + 8 + n) as u32, 0, sheet::shifted(sq.origin, 29, 10 * n + 4))) by {
        netlist::lemma_pin(d, 0, (sq.id0 + 8 + n) as u32, 0);
        assert(d[0].pins[0] == sheet::shifted(sq.origin, 29, 10 * n + 4));
    }
    assert(netlist::on_net(d, (sq.id0 + 8 + n) as u32, 1, sheet::shifted(sq.origin, 29, 10 * n + 2))) by {
        netlist::lemma_pin(d, 0, (sq.id0 + 8 + n) as u32, 1);
        assert(d[0].pins[1] == sheet::shifted(sq.origin, 29, 10 * n + 2));
    }
    assert(netlist::joined(d, sheet::shifted(sq.origin, 29, 10 * n - 2), sheet::shifted(sq.origin, 29, 10 * n + 2))) by {
        netlist::lemma_joined_here(d, sheet::shifted(sq.origin, 29, 10 * n - 2));
        netlist::lemma_joined_along(d, sheet::shifted(sq.origin, 29, 10 * n - 2), sheet::shifted(sq.origin, 29, 10 * n - 2), sheet::shifted(sq.origin, 29, 10 * n + 2), 1);
    }
}

/// How many steps there are: as many as asked, but three at least and four at most.
pub proof fn law_there_are_three_steps_or_four(sq: Sequencer)
    ensures
        3 <= sq.lanes() <= 4,
        3 <= sq.steps <= 4 ==> sq.lanes() == sq.steps,
        sq.steps < 3 ==> sq.lanes() == 3,
        sq.steps > 4 ==> sq.lanes() == 4,
{
}

/// The ladder of three steps and that of four have these resistors, from the ground up.
pub proof fn law_the_ladder_has_its_values(n: int)
    requires
        3 <= n <= 4,
    ensures
        ladder_ohms(n).len() == n,
        n == 3 ==> {
            &&& ladder_ohms(n)[0].bits == 0x40e7_5e80_0000_0000
            &&& ladder_ohms(n)[1].bits == 0x40c5_3600_0000_0002
            &&& ladder_ohms(n)[2].bits == 0x40e4_27ff_ffff_ffff
        },
        n == 4 ==> {
            &&& ladder_ohms(n)[0].bits == 0x40e5_7480_0000_0000
            &&& ladder_ohms(n)[1].bits == 0x40c1_6bff_ffff_fffd
            &&& ladder_ohms(n)[2].bits == 0x40bd_4c00_0000_0007
            &&& ladder_ohms(n)[3].bits == 0x40e3_5b00_0000_0000
        },
{
}

proof fn lemma_stacked_is_placed(f: spec_fn(int) -> Seq<Stroke>, n: int, k: int)
    requires
        0 <= k < n,
    ensures
        netlist::placed(stacked(f, n), stacked(f, k).len() as int, f(k)),
    decreases n,
{
    if k == n - 1 {
        netlist::lemma_placed_last(stacked(f, k), f(k));
    } else {
        lemma_stacked_is_placed(f, n - 1, k);
        netlist::lemma_placed_before(stacked(f, n - 1), f(n - 1), stacked(f, k).len() as int, f(k));
    }
}

/// How long lanes are together that are all as long, but for the first.
proof fn lemma_stacked_len(f: spec_fn(int) -> Seq<Stroke>, n: int, first: int, each: int)
    requires
        0 <= n,
        forall|i: int| 0 <= i < n ==> (#[trigger] f(i)).len() == if i == 0 { first } else { each },
    ensures
        stacked(f, n).len() == if n == 0 { 0 } else { first + each * (n - 1) },
    decreases n,
{
    if n > 0 {
        lemma_stacked_len(f, n - 1, first, each);
        assert(f(n - 1).len() == if n - 1 == 0 { first } else { each });
        assert(each * (n - 1) == each * (n - 2) + each) by (nonlinear_arith);
    }
}

/// The sequencer is the rail, the clock, the ladder, the bias, the decoders, the ramp, the
/// clamps, the pitch knobs with their buffer and the toggles with their way out, in this order,
/// a lane for each step, with nothing else but three strokes in between.
#[verifier::rlimit(40)]
pub proof fn law_the_sequencer_has_its_blocks(sq: Sequencer, k: int)
    requires
        0 <= k < sq.lanes(),
    ensures
        ({
            let n = sq.lanes();
            let all = sequencer_strokes(sq);
            &&& all.len() == 40 + 26 * n
            &&& netlist::placed(all, 0, rail_strokes(sq))
            &&& netlist::placed(all, 5, clock_strokes(sq))
            &&& all[24] == (Stroke::Ground { at: sheet::shifted(sq.origin, 22, 5), dir: 1 })
            &&& netlist::placed(all, 25 + 4 * k, ladder_lane(sq, k))
            &&& all[24 + 4 * n] == (Stroke::Ground { at: sheet::shifted(sq.origin, 24, 5), dir: 1 })
            &&& netlist::placed(all, 25 + 4 * n, bias_strokes(sq))
            &&& netlist::placed(all, 27 + 4 * n + (if k == 0 { 0 } else { 6 * k - 1 }), decoder_lane(sq, k))
            &&& netlist::placed(all, 26 + 10 * n + 4 * k, ramp_lane(sq, k))
            &&& netlist::placed(all, 26 + 14 * n + k, clamp_lane(sq, k))
            &&& netlist::placed(all, 26 + 15 * n + k, clamp_ground_lane(sq, k))
            &&& all[26 + 16 * n] == Stroke::Skip
            &&& netlist::placed(all, 27 + 16 * n + (if k == 0 { 0 } else { 6 * k - 1 }), pitch_lane(sq, k))
            &&& netlist::placed(all, 26 + 22 * n, buffer_strokes(sq))
            &&& netlist::placed(all, 37 + 22 * n + (if k == 0 { 0 } else { 4 * k - 1 }), beat_lane(sq, k))
            &&& netlist::placed(all, 36 + 26 * n, beat_out_strokes(sq))
        }),
{
    let n = sq.lanes();
    let fl = |k: int| ladder_lane(sq, k);
    let fd = |k: int| decoder_lane(sq, k);
    let fr = |k: int| ramp_lane(sq, k);
    let fc = |k: int| clamp_lane(sq, k);
    let fg = |k: int| clamp_ground_lane(sq, k);
    let fp = |k: int| pitch_lane(sq, k);
    let fb = |k: int| beat_lane(sq, k);
    lemma_stacked_len(fd, n, 5, 6);
    lemma_stacked_len(fd, k, 5, 6);
    lemma_stacked_len(fr, n, 4, 4);
    lemma_stacked_len(fr, k, 4, 4);
    lemma_stacked_len(fc, n, 1, 1);
    lemma_stacked_len(fc, k, 1, 1);
    lemma_stacked_len(fg, n, 1, 1);
    lemma_stacked_len(fg, k, 1, 1);
    lemma_stacked_len(fp, n, 5, 6);
    lemma_stacked_len(fp, k, 5, 6);
    lemma_stacked_len(fb, n, 3, 4);
    lemma_stacked_len(fb, k, 3, 4);
    lemma_stacked_len(fl, n - 1, 4, 4);
    lemma_stacked_len(fl, k, 4, 4);
    assert(stacked(fl, n) == stacked(fl, n - 1) + fl(n - 1));
    lemma_stacked_is_placed(fl, n, k);
    lemma_stacked_is_placed(fd, n, k);
    lemma_stacked_is_placed(fr, n, k);
    lemma_stacked_is_placed(fc, n, k);
    lemma_stacked_is_placed(fg, n, k);
    lemma_stacked_is_placed(fp, n, k);
    lemma_stacked_is_placed(fb, n, k);
    let t0 = rail_strokes(sq);
    netlist::lemma_placed_here(t0);
    let s1 = clock_strokes(sq);
    assert(s1.len() == 19);
    let t1 = t0 + s1;
    netlist::lemma_placed_last(t0, s1);
    netlist::lemma_placed_before(t0, s1, 0, t0);
    let s2 = seq![Stroke::Ground { at: sq.at(22, 5), dir: LEFT }];
    assert(s2.len() == 1);
    let t2 = t1 + s2;
    netlist::lemma_placed_last(t1, s2);
    netlist::lemma_placed_before(t1, s2, 0, t0);
    netlist::lemma_placed_before(t1, s2, 5, s1);
    let s3 = stacked(fl, n);
    assert(s3.len() == 4 * n - 1);
    let t3 = t2 + s3;
    netlist::lemma_placed_last(t2, s3);
    netlist::lemma_placed_before(t2, s3, 0, t0);
    netlist::lemma_placed_before(t2, s3, 5, s1);
    netlist::lemma_placed_before(t2, s3, 24, s2);
    let s4 = seq![Stroke::Ground { at: sq.at(24, 5), dir: LEFT }];
    assert(s4.len() == 1);
    let t4 = t3 + s4;
    netlist::lemma_placed_last(t3, s4);
    netlist::lemma_placed_before(t3, s4, 0, t0);
    netlist::lemma_placed_before(t3, s4, 5, s1);
    netlist::lemma_placed_before(t3, s4, 24, s2);
    netlist::lemma_placed_before(t3, s4, 25, s3);
    let s5 = bias_strokes(sq);
    assert(s5.len() == 2);
    let t5 = t4 + s5;
    netlist::lemma_placed_last(t4, s5);
    netlist::lemma_placed_before(t4, s5, 0, t0);
    netlist::lemma_placed_before(t4, s5, 5, s1);
    netlist::lemma_placed_before(t4, s5, 24, s2);
    netlist::lemma_placed_before(t4, s5, 25, s3);
    netlist::lemma_placed_before(t4, s5, 24 + 4 * n, s4);
    let s6 = stacked(fd, n);
    assert(s6.len() == 6 * n - 1);
    let t6 = t5 + s6;
    netlist::lemma_placed_last(t5, s6);
    netlist::lemma_placed_before(t5, s6, 0, t0);
    netlist::lemma_placed_before(t5, s6, 5, s1);
    netlist::lemma_placed_before(t5, s6, 24, s2);
    netlist::lemma_placed_before(t5, s6, 25, s3);
    netlist::lemma_placed_before(t5, s6, 24 + 4 * n, s4);
    netlist::lemma_placed_before(t5, s6, 25 + 4 * n, s5);
    let s7 = stacked(fr, n);
    assert(s7.len() == 4 * n);
    let t7 = t6 + s7;
    netlist::lemma_placed_last(t6, s7);
    netlist::lemma_placed_before(t6, s7, 0, t0);
    netlist::lemma_placed_before(t6, s7, 5, s1);
    netlist::lemma_placed_before(t6, s7, 24, s2);
    netlist::lemma_placed_before(t6, s7, 25, s3);
    netlist::lemma_placed_before(t6, s7, 24 + 4 * n, s4);
    netlist::lemma_placed_before(t6, s7, 25 + 4 * n, s5);
    netlist::lemma_placed_before(t6, s7, 27 + 4 * n, s6);
    let s8 = stacked(fc, n);
    assert(s8.len() == n);
    let t8 = t7 + s8;
    netlist::lemma_placed_last(t7, s8);
    netlist::lemma_placed_before(t7, s8, 0, t0);
    netlist::lemma_placed_before(t7, s8, 5, s1);
    netlist::lemma_placed_before(t7, s8, 24, s2);
    netlist::lemma_placed_before(t7, s8, 25, s3);
    netlist::lemma_placed_before(t7, s8, 24 + 4 * n, s4);
    netlist::lemma_placed_before(t7, s8, 25 + 4 * n, s5);
    netlist::lemma_placed_before(t7, s8, 27 + 4 * n, s6);
    netlist::lemma_placed_before(t7, s8, 26 + 10 * n, s7);
    let s9 = stacked(fg, n);
    assert(s9.len() == n);
    let t9 = t8 + s9;
    netlist::lemma_placed_last(t8, s9);
    netlist::lemma_placed_before(t8, s9, 0, t0);
    netlist::lemma_placed_before(t8, s9, 5, s1);
    netlist::lemma_placed_before(t8, s9, 24, s2);
    netlist::lemma_placed_before(t8, s9, 25, s3);
    netlist::lemma_placed_before(t8, s9, 24 + 4 * n, s4);
    netlist::lemma_placed_before(t8, s9, 25 + 4 * n, s5);
    netlist::lemma_placed_before(t8, s9, 27 + 4 * n, s6);
    netlist::lemma_placed_before(t8, s9, 26 + 10 * n, s7);
    netlist::lemma_placed_before(t8, s9, 26 + 14 * n, s8);
    let s10 = seq![Stroke::Skip];
    assert(s10.len() == 1);
    let t10 = t9 + s10;
    netlist::lemma_placed_last(t9, s10);
    netlist::lemma_placed_before(t9, s10, 0, t0);
    netlist::lemma_placed_before(t9, s10, 5, s1);
    netlist::lemma_placed_before(t9, s10, 24, s2);
    netlist::lemma_placed_before(t9, s10, 25, s3);
    netlist::lemma_placed_before(t9, s10, 24 + 4 * n, s4);
    netlist::lemma_placed_before(t9, s10, 25 + 4 * n, s5);
    netlist::lemma_placed_before(t9, s10, 27 + 4 * n, s6);
    netlist::lemma_placed_before(t9, s10, 26 + 10 * n, s7);
    netlist::lemma_placed_before(t9, s10, 26 + 14 * n, s8);
    netlist::lemma_placed_before(t9, s10, 26 + 15 * n, s9);
    let s11 = stacked(fp, n);
    assert(s11.len() == 6 * n - 1);
    let t11 = t10 + s11;
    netlist::lemma_placed_last(t10, s11);
    netlist::lemma_placed_before(t10, s11, 0, t0);
    netlist::lemma_placed_before(t10, s11, 5, s1);
    netlist::lemma_placed_before(t10, s11, 24, s2);
    netlist::lemma_placed_before(t10, s11, 25, s3);
    netlist::lemma_placed_before(t10, s11, 24 + 4 * n, s4);
    netlist::lemma_placed_before(t10, s11, 25 + 4 * n, s5);
    netlist::lemma_placed_before(t10, s11, 27 + 4 * n, s6);
    netlist::lemma_placed_before(t10, s11, 26 + 10 * n, s7);
    netlist::lemma_placed_before(t10, s11, 26 + 14 * n, s8);
    netlist::lemma_placed_before(t10, s11, 26 + 15 * n, s9);
    netlist::lemma_placed_before(t10, s11, 26 + 16 * n, s10);
    let s12 = buffer_strokes(sq);
    assert(s12.len() == 11);
    let t12 = t11 + s12;
    netlist::lemma_placed_last(t11, s12);
    netlist::lemma_placed_before(t11, s12, 0, t0);
    netlist::lemma_placed_before(t11, s12, 5, s1);
    netlist::lemma_placed_before(t11, s12, 24, s2);
    netlist::lemma_placed_before(t11, s12, 25, s3);
    netlist::lemma_placed_before(t11, s12, 24 + 4 * n, s4);
    netlist::lemma_placed_before(t11, s12, 25 + 4 * n, s5);
    netlist::lemma_placed_before(t11, s12, 27 + 4 * n, s6);
    netlist::lemma_placed_before(t11, s12, 26 + 10 * n, s7);
    netlist::lemma_placed_before(t11, s12, 26 + 14 * n, s8);
    netlist::lemma_placed_before(t11, s12, 26 + 15 * n, s9);
    netlist::lemma_placed_before(t11, s12, 26 + 16 * n, s10);
    netlist::lemma_placed_before(t11, s12, 27 + 16 * n, s11);
    let s13 = stacked(fb, n);
    assert(s13.len() == 4 * n - 1);
    let t13 = t12 + s13;
    netlist::lemma_placed_last(t12, s13);
    netlist::lemma_placed_before(t12, s13, 0, t0);
    netlist::lemma_placed_before(t12, s13, 5, s1);
    netlist::lemma_placed_before(t12, s13, 24, s2);
    netlist::lemma_placed_before(t12, s13, 25, s3);
    netlist::lemma_placed_before(t12, s13, 24 + 4 * n, s4);
    netlist::lemma_placed_before(t12, s13, 25 + 4 * n, s5);
    netlist::lemma_placed_before(t12, s13, 27 + 4 * n, s6);
    netlist::lemma_placed_before(t12, s13, 26 + 10 * n, s7);
    netlist::lemma_placed_before(t12, s13, 26 + 14 * n, s8);
    netlist::lemma_placed_before(t12, s13, 26 + 15 * n, s9);
    netlist::lemma_placed_before(t12, s13, 26 + 16 * n, s10);
    netlist::lemma_placed_before(t12, s13, 27 + 16 * n, s11);
    netlist::lemma_placed_before(t12, s13, 26 + 22 * n, s12);
    let s14 = beat_out_strokes(sq);
    assert(s14.len() == 4);
    let t14 = t13 + s14;
    netlist::lemma_placed_last(t13, s14);
    netlist::lemma_placed_before(t13, s14, 0, t0);
    netlist::lemma_placed_before(t13, s14, 5, s1);
    netlist::lemma_placed_before(t13, s14, 24, s2);
    netlist::lemma_placed_before(t13, s14, 25, s3);
    netlist::lemma_placed_before(t13, s14, 24 + 4 * n, s4);
    netlist::lemma_placed_before(t13, s14, 25 + 4 * n, s5);
    netlist::lemma_placed_before(t13, s14, 27 + 4 * n, s6);
    netlist::lemma_placed_before(t13, s14, 26 + 10 * n, s7);
    netlist::lemma_placed_before(t13, s14, 26 + 14 * n, s8);
    netlist::lemma_placed_before(t13, s14, 26 + 15 * n, s9);
    netlist::lemma_placed_before(t13, s14, 26 + 16 * n, s10);
    netlist::lemma_placed_before(t13, s14, 27 + 16 * n, s11);
    netlist::lemma_placed_before(t13, s14, 26 + 22 * n, s12);
    netlist::lemma_placed_before(t13, s14, 37 + 22 * n, s13);
    let all = t14;
    assert(all == sequencer_strokes(sq));
    netlist::lemma_placed_within(all, 25, s3, stacked(fl, k).len() as int, fl(k));
    netlist::lemma_placed_within(all, 27 + 4 * n, s6, stacked(fd, k).len() as int, fd(k));
    netlist::lemma_placed_within(all, 26 + 10 * n, s7, stacked(fr, k).len() as int, fr(k));
    netlist::lemma_placed_within(all, 26 + 14 * n, s8, stacked(fc, k).len() as int, fc(k));
    netlist::lemma_placed_within(all, 26 + 15 * n, s9, stacked(fg, k).len() as int, fg(k));
    netlist::lemma_placed_within(all, 27 + 16 * n, s11, stacked(fp, k).len() as int, fp(k));
    netlist::lemma_placed_within(all, 37 + 22 * n, s13, stacked(fb, k).len() as int, fb(k));
    assert(all.len() == 40 + 26 * n);
    reveal(netlist::placed);
    assert(s2[0] == all[24]);
    assert(s4[0] == all[24 + 4 * n]);
    assert(s10[0] == all[26 + 16 * n]);
}

} // verus!
