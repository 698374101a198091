//! The ladder room: after the transistor ladder filter of 1965.
//!
//! Four rungs of transistors in two legs, a capacitor across the legs at every rung, a
//! pair at the bottom that takes the signal, and one control current up the whole stack.
use vstd::prelude::*;

use crate::binary64::Real;
use crate::legends::{self, boxed, name_controls, Legend, PanelDef};
use crate::lists;
use crate::modules::{
    self, capacitor, mixer_speaker, opamp, pot, resistor, supply, vco, Vco, VcoValues, OHMS_100K,
    VOLTS_9,
};
use crate::netlist;
use crate::parts::{ElementKind, ElementSpec, Point};
use crate::sheet::{self, Facing, Sheet, Stroke, DOWN, RIGHT, UP};

verus! {

pub const ID_SPEAKER: u32 = 1;

pub const ID_SUPPLY: u32 = 2;

pub const ID_PITCH: u32 = 21;

pub const ID_CUTOFF: u32 = 130;

/// The row of the supply rail.
pub const RAIL_Y: i32 = -20;

/// The row of the input pair's bases.
pub const Y_IN: i32 = 30;

/// The seed of the oscillator's dither.
pub const VCO_SEED: u32 = 0x904a_904a;

/// Where the pitch knob stands: 0.3.
pub const PITCH_WIPER: u64 = 0x3fd3_3333_3333_3333;

/// Where the cutoff knob stands: 0.55.
pub const CUTOFF_WIPER: u64 = 0x3fe1_9999_9999_999a;

/// The gain of a transistor: 100.
pub const BETA: u64 = 0x4059_0000_0000_0000;

/// The capacitor of a rung: 100 nanofarads.
pub const C_RUNG: u64 = 0x3e7a_d7f2_9abc_af48;

/// The load of a leg: 22 kilohms.
pub const R_LOAD: u64 = 0x40d5_7c00_0000_0000;

/// The bias chain, from the top: 47 kilohms.
pub const R_BIAS_0: u64 = 0x40e6_f300_0000_0000;

/// 9.1 kilohms.
pub const R_BIAS_1: u64 = 0x40c1_c600_0000_0000;

/// 9.1 kilohms.
pub const R_BIAS_2: u64 = 0x40c1_c600_0000_0000;

/// 9.1 kilohms.
pub const R_BIAS_3: u64 = 0x40c1_c600_0000_0000;

/// 11 kilohms.
pub const R_BIAS_4: u64 = 0x40c5_7c00_0000_0000;

/// 16 kilohms.
pub const R_BIAS_5: u64 = 0x40cf_4000_0000_0000;

/// In front of each base of the input pair: a kilohm.
pub const R_BASE: u64 = 0x408f_4000_0000_0000;

/// What brings the signal down: 470 kilohms.
pub const R_IN: u64 = 0x411c_afc0_0000_0000;

/// What lets the signal in: a microfarad.
pub const C_IN: u64 = 0x3eb0_c6f7_a0b5_ed8d;

/// What holds the tap of the input pair still: 10 microfarads.
pub const C_DECOUPLE: u64 = 0x3ee4_f8b5_88e3_68f1;

/// Where the cutoff starts: 2427 ohms.
pub const R_OFF_CUTOFF: u64 = 0x40a2_f600_0000_0000;

/// How far the cutoff knob reaches: 157 kilohms.
pub const R_SPAN_CUTOFF: u64 = 0x4103_2a40_0000_0000;

/// Into the mixer: a megohm.
pub const R_MIX: u64 = 0x412e_8480_0000_0000;

/// Round the mixer: 470 kilohms.
pub const R_F: u64 = 0x411c_afc0_0000_0000;

/// What drains the output: 470 kilohms.
pub const R_BLEED: u64 = 0x411c_afc0_0000_0000;

/// What lets the output through: 0.22 microfarads.
pub const C_OUT: u64 = 0x3e8d_8724_7702_c0d0;

/// A transistor.
#[verifier::allow_in_spec]
pub fn npn() -> (r: ElementKind)
    returns
        (ElementKind::Npn { beta: Real { bits: BETA } }),
{
    ElementKind::Npn { beta: Real { bits: BETA } }
}

/// The collector that the signal leaves by.
pub fn ladder_out() -> (p: Point)
    ensures
        p == sheet::at(50, -4),
{
    (50, -4)
}

/// The output without its bias.
pub fn filter_out() -> (p: Point)
    ensures
        p == sheet::at(84, -4),
{
    (84, -4)
}

/// The current that the whole ladder runs on.
pub fn tail_node() -> (p: Point)
    ensures
        p == sheet::at(50, 32),
{
    (50, 32)
}

/// The output that the speaker hangs on.
pub fn out_node() -> (p: Point)
    ensures
        p == sheet::at(118, -4),
{
    (118, -4)
}

/// The supply and its rail, with a corner at every tap.
pub open spec fn moog_supply_strokes() -> Seq<Stroke> {
    seq![
        Stroke::Two { id: ID_SUPPLY, kind: supply(), a: sheet::at(-16, -20), b: sheet::at(-16, -16) },
        Stroke::Ground { at: sheet::at(-16, -16), dir: DOWN },
        Stroke::Wire { a: sheet::at(-16, -20), b: sheet::at(-14, -20) },
        Stroke::Wire { a: sheet::at(-14, -20), b: sheet::at(-6, -20) },
        Stroke::Wire { a: sheet::at(-6, -20), b: sheet::at(12, -20) },
        Stroke::Wire { a: sheet::at(12, -20), b: sheet::at(50, -20) },
        Stroke::Wire { a: sheet::at(50, -20), b: sheet::at(62, -20) },
        Stroke::Wire { a: sheet::at(62, -20), b: sheet::at(74, -20) },
    ]
}

/// Draws the supply and its rail.
fn draw_moog_supply(sh: &mut Sheet)
    requires
        old(sh).wf(),
    ensures
        final(sh).wf(),
        final(sh).strokes@ == old(sh).strokes@ + moog_supply_strokes(),
{
    sh.two(ID_SUPPLY, supply(), (-16, -20), (-16, -16));
    sh.ground((-16, -16), DOWN);
    sh.wire((-16, -20), (-14, -20));
    sh.wire((-14, -20), (-6, -20));
    sh.wire((-6, -20), (12, -20));
    sh.wire((12, -20), (50, -20));
    sh.wire((50, -20), (62, -20));
    sh.wire((62, -20), (74, -20));
    proof {
        assert(sh.strokes@ =~= old(sh).strokes@ + moog_supply_strokes());
    }
}

/// The chain that biases every rung, from the rail down the right margin to ground.
pub open spec fn moog_chain_strokes() -> Seq<Stroke> {
    seq![
        Stroke::Two { id: 110, kind: resistor(Real { bits: R_BIAS_0 }), a: sheet::at(74, -20), b: sheet::at(74, -2) },
        Stroke::Two { id: 111, kind: resistor(Real { bits: R_BIAS_1 }), a: sheet::at(74, -2), b: sheet::at(74, 6) },
        Stroke::Two { id: 112, kind: resistor(Real { bits: R_BIAS_2 }), a: sheet::at(74, 6), b: sheet::at(74, 14) },
        Stroke::Two { id: 113, kind: resistor(Real { bits: R_BIAS_3 }), a: sheet::at(74, 14), b: sheet::at(74, 22) },
        Stroke::Two { id: 114, kind: resistor(Real { bits: R_BIAS_4 }), a: sheet::at(74, 22), b: sheet::at(74, 30) },
        Stroke::Two { id: 115, kind: resistor(Real { bits: R_BIAS_5 }), a: sheet::at(74, 30), b: sheet::at(74, 40) },
        Stroke::Ground { at: sheet::at(74, 40), dir: RIGHT },
    ]
}

/// Draws the bias chain.
fn draw_moog_chain(sh: &mut Sheet)
    requires
        old(sh).wf(),
    ensures
        final(sh).wf(),
        final(sh).strokes@ == old(sh).strokes@ + moog_chain_strokes(),
{
    sh.two(110, resistor(Real { bits: R_BIAS_0 }), (74, -20), (74, -2));
    sh.two(111, resistor(Real { bits: R_BIAS_1 }), (74, -2), (74, 6));
    sh.two(112, resistor(Real { bits: R_BIAS_2 }), (74, 6), (74, 14));
    sh.two(113, resistor(Real { bits: R_BIAS_3 }), (74, 14), (74, 22));
    sh.two(114, resistor(Real { bits: R_BIAS_4 }), (74, 22), (74, 30));
    sh.two(115, resistor(Real { bits: R_BIAS_5 }), (74, 30), (74, 40));
    sh.ground((74, 40), RIGHT);
    proof {
        assert(sh.strokes@ =~= old(sh).strokes@ + moog_chain_strokes());
    }
}

/// The strokes of one rung: a matched pair facing each other across the two legs.
pub open spec fn rung_strokes(id0: u32, y: i32) -> Seq<Stroke> {
    seq![
        Stroke::Placed { id: id0, kind: npn(), at: sheet::at(46, y as int), facing: Facing::East, len: 4, mirror: false },
        Stroke::Placed { id: (id0 + 1) as u32, kind: npn(), at: sheet::at(66, y as int), facing: Facing::West, len: 4, mirror: true },
    ]
}

/// Draws one rung, and tells where its two bases are. The collectors of the pair are two
/// rows above the bases and its emitters two rows below.
fn rung(sh: &mut Sheet, id0: u32, y: i32) -> (r: (Point, Point))
    requires
        old(sh).wf(),
        id0 < u32::MAX,
        i32::MIN + 2 <= y <= i32::MAX - 2,
    ensures
        final(sh).wf(),
        final(sh).strokes@ == old(sh).strokes@ + rung_strokes(id0, y),
        r == (sheet::at(46, y as int), sheet::at(66, y as int)),
{
    let l: Vec<Point> = sh.part(id0, npn(), (46, y), Facing::East, 4, false);
    let r: Vec<Point> = sh.part(id0 + 1, npn(), (66, y), Facing::West, 4, true);
    proof {
        assert(l@[1] == sheet::at(50, y - 2) && l@[2] == sheet::at(50, y + 2));
        assert(r@[1] == sheet::at(62, y - 2) && r@[2] == sheet::at(62, y + 2));
        assert(sh.strokes@ =~= old(sh).strokes@ + rung_strokes(id0, y));
    }
    (l[0], r[0])
}

/// The wiring of a rung: its emitters onto the row below, the capacitor across the legs, and
/// the bias of both bases, the left one round the outside.
pub open spec fn moog_rung_wiring_strokes(cap_id: u32, y: i32) -> Seq<Stroke> {
    seq![
        Stroke::Wire { a: sheet::at(50, y + 2), b: sheet::at(50, y + 6) },
        Stroke::Wire { a: sheet::at(62, y + 2), b: sheet::at(62, y + 6) },
        Stroke::Two { id: cap_id, kind: capacitor(Real { bits: C_RUNG }), a: sheet::at(50, y - 2), b: sheet::at(62, y - 2) },
        Stroke::Wire { a: sheet::at(74, y as int), b: sheet::at(66, y as int) },
        Stroke::Wire { a: sheet::at(74, y as int), b: sheet::at(76, y as int) },
        Stroke::Wire { a: sheet::at(76, y as int), b: sheet::at(76, y + 4) },
        Stroke::Wire { a: sheet::at(76, y + 4), b: sheet::at(38, y + 4) },
        Stroke::Wire { a: sheet::at(38, y + 4), b: sheet::at(38, y as int) },
        Stroke::Wire { a: sheet::at(38, y as int), b: sheet::at(46, y as int) },
    ]
}

/// Draws the wiring of a rung.
fn draw_moog_rung_wiring(sh: &mut Sheet, cap_id: u32, y: i32)
    requires
        old(sh).wf(),
        i32::MIN + 2 <= y <= i32::MAX - 6,
    ensures
        final(sh).wf(),
        final(sh).strokes@ == old(sh).strokes@ + moog_rung_wiring_strokes(cap_id, y),
{
    sh.wire((50, y + 2), (50, y + 6));
    sh.wire((62, y + 2), (62, y + 6));
    sh.two(cap_id, capacitor(Real { bits: C_RUNG }), (50, y - 2), (62, y - 2));
    sh.wire((74, y), (66, y));
    sh.wire((74, y), (76, y));
    sh.wire((76, y), (76, y + 4));
    sh.wire((76, y + 4), (38, y + 4));
    sh.wire((38, y + 4), (38, y));
    sh.wire((38, y), (46, y));
    proof {
        assert(sh.strokes@ =~= old(sh).strokes@ + moog_rung_wiring_strokes(cap_id, y));
    }
}

/// The loads of the top rung. Their row is the output.
pub open spec fn moog_loads_strokes() -> Seq<Stroke> {
    seq![
        Stroke::Two { id: 121, kind: resistor(Real { bits: R_LOAD }), a: sheet::at(50, -12), b: sheet::at(50, -4) },
        Stroke::Two { id: 122, kind: resistor(Real { bits: R_LOAD }), a: sheet::at(62, -12), b: sheet::at(62, -4) },
        Stroke::Wire { a: sheet::at(50, -20), b: sheet::at(50, -12) },
        Stroke::Wire { a: sheet::at(62, -20), b: sheet::at(62, -12) },
    ]
}

/// Draws the loads of the top rung.
fn draw_moog_loads(sh: &mut Sheet)
    requires
        old(sh).wf(),
    ensures
        final(sh).wf(),
        final(sh).strokes@ == old(sh).strokes@ + moog_loads_strokes(),
{
    sh.two(121, resistor(Real { bits: R_LOAD }), (50, -12), (50, -4));
    sh.two(122, resistor(Real { bits: R_LOAD }), (62, -12), (62, -4));
    sh.wire((50, -20), (50, -12));
    sh.wire((62, -20), (62, -12));
    proof {
        assert(sh.strokes@ =~= old(sh).strokes@ + moog_loads_strokes());
    }
}

/// The input pair: both bases on the same tap, and the oscillator's square, brought down to
/// millivolts, on the left one.
pub open spec fn moog_input_strokes() -> Seq<Stroke> {
    seq![
        Stroke::Two { id: 123, kind: resistor(Real { bits: R_BASE }), a: sheet::at(42, 30), b: sheet::at(46, 30) },
        Stroke::Two { id: 124, kind: resistor(Real { bits: R_BASE }), a: sheet::at(70, 30), b: sheet::at(66, 30) },
        Stroke::Wire { a: sheet::at(74, 30), b: sheet::at(70, 30) },
        Stroke::Wire { a: sheet::at(74, 30), b: sheet::at(76, 30) },
        Stroke::Wire { a: sheet::at(76, 30), b: sheet::at(76, 36) },
        Stroke::Wire { a: sheet::at(76, 36), b: sheet::at(38, 36) },
        Stroke::Wire { a: sheet::at(38, 36), b: sheet::at(38, 30) },
        Stroke::Wire { a: sheet::at(38, 30), b: sheet::at(42, 30) },
        Stroke::Wire { a: sheet::at(38, 30), b: sheet::at(34, 30) },
        Stroke::Two { id: 125, kind: capacitor(Real { bits: C_DECOUPLE }), a: sheet::at(34, 30), b: sheet::at(34, 26) },
        Stroke::Ground { at: sheet::at(34, 26), dir: UP },
        Stroke::Wire { a: sheet::at(26, -8), b: sheet::at(26, 10) },
        Stroke::Wire { a: sheet::at(26, 10), b: sheet::at(32, 10) },
        Stroke::Wire { a: sheet::at(32, 10), b: sheet::at(32, 40) },
        Stroke::Two { id: 126, kind: capacitor(Real { bits: C_IN }), a: sheet::at(32, 40), b: sheet::at(36, 40) },
        Stroke::Two { id: 127, kind: resistor(Real { bits: R_IN }), a: sheet::at(36, 40), b: sheet::at(42, 40) },
        Stroke::Wire { a: sheet::at(42, 40), b: sheet::at(46, 40) },
        Stroke::Wire { a: sheet::at(46, 40), b: sheet::at(46, 30) },
    ]
}

/// Draws the bias and the drive of the input pair.
fn draw_moog_input(sh: &mut Sheet)
    requires
        old(sh).wf(),
    ensures
        final(sh).wf(),
        final(sh).strokes@ == old(sh).strokes@ + moog_input_strokes(),
{
    sh.two(123, resistor(Real { bits: R_BASE }), (42, 30), (46, 30));
    sh.two(124, resistor(Real { bits: R_BASE }), (70, 30), (66, 30));
    sh.wire((74, 30), (70, 30));
    sh.wire((74, 30), (76, 30));
    sh.wire((76, 30), (76, 36));
    sh.wire((76, 36), (38, 36));
    sh.wire((38, 36), (38, 30));
    sh.wire((38, 30), (42, 30));
    sh.wire((38, 30), (34, 30));
    sh.two(125, capacitor(Real { bits: C_DECOUPLE }), (34, 30), (34, 26));
    sh.ground((34, 26), UP);
    sh.wire((26, -8), (26, 10));
    sh.wire((26, 10), (32, 10));
    sh.wire((32, 10), (32, 40));
    sh.two(126, capacitor(Real { bits: C_IN }), (32, 40), (36, 40));
    sh.two(127, resistor(Real { bits: R_IN }), (36, 40), (42, 40));
    sh.wire((42, 40), (46, 40));
    sh.wire((46, 40), (46, 30));
    proof {
        assert(sh.strokes@ =~= old(sh).strokes@ + moog_input_strokes());
    }
}

/// The cutoff knob, its exponential converter, and the current sink under the ladder.
pub open spec fn moog_cutoff_strokes(v: VcoValues) -> Seq<Stroke> {
    seq![
        Stroke::Wire { a: sheet::at(-14, -20), b: sheet::at(-14, 44) },
        Stroke::Wire { a: sheet::at(-14, 44), b: sheet::at(12, 44) },
        Stroke::Wire { a: sheet::at(12, 44), b: sheet::at(26, 44) },
        Stroke::Two { id: 131, kind: resistor(Real { bits: R_SPAN_CUTOFF }), a: sheet::at(12, 44), b: sheet::at(12, 48) },
        Stroke::Placed { id: ID_CUTOFF, kind: pot(Real { bits: OHMS_100K }, Real { bits: CUTOFF_WIPER }), at: sheet::at(12, 52), facing: Facing::North, len: 4, mirror: true },
        Stroke::Ground { at: sheet::at(12, 52), dir: DOWN },
        Stroke::Placed { id: 132, kind: opamp(Real { bits: VOLTS_9 }), at: sheet::at(16, 50), facing: Facing::East, len: 4, mirror: false },
        Stroke::Wire { a: sheet::at(14, 50), b: sheet::at(14, 49) },
        Stroke::Wire { a: sheet::at(14, 49), b: sheet::at(16, 49) },
        Stroke::Wire { a: sheet::at(20, 50), b: sheet::at(20, 51) },
        Stroke::Wire { a: sheet::at(20, 51), b: sheet::at(16, 51) },
        Stroke::Two { id: 133, kind: resistor(v.r_scale), a: sheet::at(22, 50), b: sheet::at(26, 50) },
        Stroke::Wire { a: sheet::at(20, 50), b: sheet::at(22, 50) },
        Stroke::Two { id: 134, kind: resistor(Real { bits: R_OFF_CUTOFF }), a: sheet::at(26, 44), b: sheet::at(26, 50) },
        Stroke::Two { id: 135, kind: resistor(v.r_gnd), a: sheet::at(26, 50), b: sheet::at(26, 54) },
        Stroke::Ground { at: sheet::at(26, 54), dir: DOWN },
        Stroke::Placed { id: 136, kind: npn(), at: sheet::at(30, 50), facing: Facing::East, len: 4, mirror: false },
        Stroke::Wire { a: sheet::at(26, 50), b: sheet::at(30, 50) },
        Stroke::Ground { at: sheet::at(34, 52), dir: DOWN },
        Stroke::Wire { a: sheet::at(34, 48), b: sheet::at(34, 32) },
        Stroke::Wire { a: sheet::at(34, 32), b: sheet::at(50, 32) },
        Stroke::Wire { a: sheet::at(50, 32), b: sheet::at(56, 32) },
        Stroke::Wire { a: sheet::at(56, 32), b: sheet::at(62, 32) },
    ]
}

/// Draws the cutoff knob, its converter and the current sink.
fn draw_moog_cutoff(sh: &mut Sheet, v: VcoValues)
    requires
        old(sh).wf(),
    ensures
        final(sh).wf(),
        final(sh).strokes@ == old(sh).strokes@ + moog_cutoff_strokes(v),
{
    sh.wire((-14, -20), (-14, 44));
    sh.wire((-14, 44), (12, 44));
    sh.wire((12, 44), (26, 44));
    sh.two(131, resistor(Real { bits: R_SPAN_CUTOFF }), (12, 44), (12, 48));
    let cp: Vec<Point> = sh.part(ID_CUTOFF, pot(Real { bits: OHMS_100K }, Real { bits: CUTOFF_WIPER }), (12, 52), Facing::North, 4, true);
    sh.ground(cp[0], DOWN);
    let f: Vec<Point> = sh.part(132, opamp(Real { bits: VOLTS_9 }), (16, 50), Facing::East, 4, false);
    sh.wire(cp[1], (14, 49));
    sh.wire((14, 49), f[0]);
    sh.wire(f[2], (20, 51));
    sh.wire((20, 51), f[1]);
    sh.two(133, resistor(v.r_scale), (22, 50), (26, 50));
    sh.wire(f[2], (22, 50));
    sh.two(134, resistor(Real { bits: R_OFF_CUTOFF }), (26, 44), (26, 50));
    sh.two(135, resistor(v.r_gnd), (26, 50), (26, 54));
    sh.ground((26, 54), DOWN);
    let tail: Vec<Point> = sh.part(136, npn(), (30, 50), Facing::East, 4, false);
    sh.wire((26, 50), tail[0]);
    sh.ground(tail[2], DOWN);
    sh.wire(tail[1], (34, 32));
    sh.wire((34, 32), (50, 32));
    sh.wire((50, 32), (56, 32));
    sh.wire((56, 32), (62, 32));
    proof {
        assert(sh.strokes@ =~= old(sh).strokes@ + moog_cutoff_strokes(v));
    }
}

/// The output: the top collector without its bias, into the mixer.
pub open spec fn moog_output_strokes() -> Seq<Stroke> {
    seq![
        Stroke::Wire { a: sheet::at(50, -4), b: sheet::at(80, -4) },
        Stroke::Two { id: 140, kind: capacitor(Real { bits: C_OUT }), a: sheet::at(80, -4), b: sheet::at(84, -4) },
        Stroke::Two { id: 141, kind: resistor(Real { bits: R_BLEED }), a: sheet::at(84, -4), b: sheet::at(84, 0) },
        Stroke::Ground { at: sheet::at(84, 0), dir: DOWN },
        Stroke::Two { id: 143, kind: resistor(Real { bits: R_MIX }), a: sheet::at(88, -4), b: sheet::at(108, -4) },
        Stroke::Wire { a: sheet::at(84, -4), b: sheet::at(88, -4) },
        Stroke::Wire { a: sheet::at(108, -4), b: sheet::at(108, -5) },
        Stroke::Wire { a: sheet::at(108, -5), b: sheet::at(112, -5) },
    ]
}

/// Draws the output into the mixer.
fn draw_moog_output(sh: &mut Sheet)
    requires
        old(sh).wf(),
    ensures
        final(sh).wf(),
        final(sh).strokes@ == old(sh).strokes@ + moog_output_strokes(),
{
    sh.wire((50, -4), (80, -4));
    sh.two(140, capacitor(Real { bits: C_OUT }), (80, -4), (84, -4));
    sh.two(141, resistor(Real { bits: R_BLEED }), (84, -4), (84, 0));
    sh.ground((84, 0), DOWN);
    sh.two(143, resistor(Real { bits: R_MIX }), (88, -4), (108, -4));
    sh.wire((84, -4), (88, -4));
    sh.wire((108, -4), (108, -5));
    sh.wire((108, -5), (112, -5));
    proof {
        assert(sh.strokes@ =~= old(sh).strokes@ + moog_output_strokes());
    }
}

/// The capacitor across the legs over the input pair.
pub open spec fn moog_first_cap_strokes() -> Seq<Stroke> {
    seq![
        Stroke::Two { id: 116, kind: capacitor(Real { bits: C_RUNG }), a: sheet::at(50, 28), b: sheet::at(62, 28) },
    ]
}

/// Draws the capacitor over the input pair.
fn draw_moog_first_cap(sh: &mut Sheet)
    requires
        old(sh).wf(),
    ensures
        final(sh).wf(),
        final(sh).strokes@ == old(sh).strokes@ + moog_first_cap_strokes(),
{
    sh.two(116, capacitor(Real { bits: C_RUNG }), (50, 28), (62, 28));
    proof {
        assert(sh.strokes@ =~= old(sh).strokes@ + moog_first_cap_strokes());
    }
}

/// The strokes of the whole room.
pub open spec fn moog_strokes(v: VcoValues) -> Seq<Stroke> {
    moog_supply_strokes()
        + modules::mixer_speaker_strokes(
            10,
            ID_SPEAKER,
            sheet::at(112, -4),
            Real { bits: VOLTS_9 },
            Real { bits: R_F },
        )
        + modules::vco_strokes(20, sheet::at(-8, -2), RAIL_Y, Real { bits: PITCH_WIPER }, VCO_SEED, v)
        + moog_chain_strokes()
        + rung_strokes(100, Y_IN)
        + moog_first_cap_strokes()
        + rung_strokes(102, 22)
        + moog_rung_wiring_strokes(117, 22)
        + rung_strokes(104, 14)
        + moog_rung_wiring_strokes(118, 14)
        + rung_strokes(106, 6)
        + moog_rung_wiring_strokes(119, 6)
        + rung_strokes(108, (-2) as i32)
        + moog_rung_wiring_strokes(120, (-2) as i32)
        + moog_loads_strokes()
        + moog_input_strokes()
        + moog_cutoff_strokes(v)
        + moog_output_strokes()
}

/// What is written on the parts that a player touches.
pub open spec fn moog_legends() -> Seq<Legend> {
    seq![
        (Legend { id: ID_SUPPLY, name: "SUPPLY" }),
        (Legend { id: ID_PITCH, name: "PITCH" }),
        (Legend { id: ID_CUTOFF, name: "CUTOFF" }),
    ]
}

/// The ladder room: an oscillator through a transistor ladder of four rungs into a speaker.
pub fn moog_room_circuit(v: VcoValues) -> (r: Vec<ElementSpec>)
    ensures
        lists::views(r@) == legends::labelled(sheet::picture(moog_strokes(v), 300), moog_legends()),
{
    let mut sh: Sheet = Sheet::new();
    draw_moog_supply(&mut sh);
    let (sum, out): (Point, Point) = mixer_speaker(
        &mut sh,
        10,
        ID_SPEAKER,
        (112, -4),
        Real { bits: VOLTS_9 },
        Real { bits: R_F },
    );
    let osc: Vco = vco(&mut sh, 20, (-8, -2), RAIL_Y, Real { bits: PITCH_WIPER }, VCO_SEED, v);
    draw_moog_chain(&mut sh);
    let (in_l, in_r): (Point, Point) = rung(&mut sh, 100, Y_IN);
    draw_moog_first_cap(&mut sh);
    let _ = rung(&mut sh, 102, 22);
    draw_moog_rung_wiring(&mut sh, 117, 22);
    let _ = rung(&mut sh, 104, 14);
    draw_moog_rung_wiring(&mut sh, 118, 14);
    let _ = rung(&mut sh, 106, 6);
    draw_moog_rung_wiring(&mut sh, 119, 6);
    let _ = rung(&mut sh, 108, -2);
    draw_moog_rung_wiring(&mut sh, 120, -2);
    draw_moog_loads(&mut sh);
    draw_moog_input(&mut sh);
    draw_moog_cutoff(&mut sh, v);
    draw_moog_output(&mut sh);
    proof {
        assert(sum == sheet::at(112, -5) && out == sheet::at(118, -4));
        assert(osc.square == sheet::at(26, -8));
        assert(in_l == sheet::at(46, 30) && in_r == sheet::at(66, 30));
        assert(moog_supply_strokes().len() == 8);
        assert(modules::mixer_speaker_strokes(
            10,
            ID_SPEAKER,
            sheet::at(112, -4),
            Real { bits: VOLTS_9 },
            Real { bits: R_F },
        ).len() == 8);
        assert(modules::vco_strokes(20, sheet::at(-8, -2), RAIL_Y, Real { bits: PITCH_WIPER }, VCO_SEED, v).len() == 42);
        assert(moog_chain_strokes().len() == 7);
        assert(rung_strokes(100, Y_IN).len() == 2);
        assert(moog_first_cap_strokes().len() == 1);
        assert(rung_strokes(102, 22).len() == 2);
        assert(moog_rung_wiring_strokes(117, 22).len() == 9);
        assert(rung_strokes(104, 14).len() == 2);
        assert(moog_rung_wiring_strokes(118, 14).len() == 9);
        assert(rung_strokes(106, 6).len() == 2);
        assert(moog_rung_wiring_strokes(119, 6).len() == 9);
        assert(rung_strokes(108, (-2) as i32).len() == 2);
        assert(moog_rung_wiring_strokes(120, (-2) as i32).len() == 9);
        assert(moog_loads_strokes().len() == 4);
        assert(moog_input_strokes().len() == 18);
        assert(moog_cutoff_strokes(v).len() == 23);
        assert(moog_output_strokes().len() == 8);
        assert(sh.strokes@ =~= moog_strokes(v));
    }
    let mut legends: Vec<Legend> = Vec::new();
    legends.push(Legend { id: ID_SUPPLY, name: "SUPPLY" });
    legends.push(Legend { id: ID_PITCH, name: "PITCH" });
    legends.push(Legend { id: ID_CUTOFF, name: "CUTOFF" });
    assert(legends@ =~= moog_legends());
    proof {
        sheet::lemma_numbers_grow(sh.strokes@, 300, sh.strokes@.len() as int);
    }
    let mut els: Vec<ElementSpec> = sh.finish(300);
    name_controls(&mut els, &legends);
    els
}

/// The strokes up to the first rung.
spec fn moog_foot(v: VcoValues) -> Seq<Stroke> {
    moog_supply_strokes()
        + modules::mixer_speaker_strokes(
            10,
            ID_SPEAKER,
            sheet::at(112, -4),
            Real { bits: VOLTS_9 },
            Real { bits: R_F },
        )
        + modules::vco_strokes(20, sheet::at(-8, -2), RAIL_Y, Real { bits: PITCH_WIPER }, VCO_SEED, v)
        + moog_chain_strokes()
        + rung_strokes(100, Y_IN)
        + moog_first_cap_strokes()
}

/// The strokes up to the third rung.
spec fn moog_middle(v: VcoValues) -> Seq<Stroke> {
    moog_foot(v)
        + rung_strokes(102, 22)
        + moog_rung_wiring_strokes(117, 22)
        + rung_strokes(104, 14)
        + moog_rung_wiring_strokes(118, 14)
        + rung_strokes(106, 6)
        + moog_rung_wiring_strokes(119, 6)
}

proof fn lemma_the_foot_is_neat(v: VcoValues)
    ensures
        sheet::neat(moog_foot(v), |x: int| 1 <= x < 32 || 100 <= x < 102 || 110 <= x < 117),
{
    let s0 = moog_supply_strokes();
    let q0 = |x: int| x == 2;
    assert(sheet::neat(s0, q0));
    let t0 = s0;
    let r0 = q0;
    let s1 = modules::mixer_speaker_strokes(10, ID_SPEAKER, sheet::at(112, -4), Real { bits: VOLTS_9 }, Real { bits: R_F });
    let q1 = |x: int| x == 1 || 10 <= x < 12;
    assert(sheet::neat(s1, q1));
    let t1 = t0 + s1;
    let r1 = |x: int| 1 <= x < 12;
    sheet::lemma_joined_is_neat(t0, s1, r0, q1, r1);
    let s2 = modules::vco_strokes(20, sheet::at(-8, -2), RAIL_Y, Real { bits: PITCH_WIPER }, VCO_SEED, v);
    let q2 = |x: int| 20 <= x < 32;
    assert(sheet::neat(s2, q2));
    let t2 = t1 + s2;
    let r2 = |x: int| 1 <= x < 32;
    sheet::lemma_joined_is_neat(t1, s2, r1, q2, r2);
    let s3 = moog_chain_strokes();
    let q3 = |x: int| 110 <= x < 116;
    assert(sheet::neat(s3, q3));
    let t3 = t2 + s3;
    let r3 = |x: int| 1 <= x < 32 || 110 <= x < 116;
    sheet::lemma_joined_is_neat(t2, s3, r2, q3, r3);
    let s4 = rung_strokes(100, Y_IN);
    let q4 = |x: int| 100 <= x < 102;
    assert(sheet::neat(s4, q4));
    let t4 = t3 + s4;
    let r4 = |x: int| 1 <= x < 32 || 100 <= x < 102 || 110 <= x < 116;
    sheet::lemma_joined_is_neat(t3, s4, r3, q4, r4);
    let s5 = moog_first_cap_strokes();
    let q5 = |x: int| x == 116;
    assert(sheet::neat(s5, q5));
    let t5 = t4 + s5;
    let r5 = |x: int| 1 <= x < 32 || 100 <= x < 102 || 110 <= x < 117;
    sheet::lemma_joined_is_neat(t4, s5, r4, q5, r5);
    assert(t5 == moog_foot(v));
}

proof fn lemma_the_middle_is_neat(v: VcoValues)
    ensures
        sheet::neat(moog_middle(v), |x: int| 1 <= x < 32 || 100 <= x < 108 || 110 <= x < 120),
{
    lemma_the_foot_is_neat(v);
    let t5 = moog_foot(v);
    let r5 = |x: int| 1 <= x < 32 || 100 <= x < 102 || 110 <= x < 117;
    let s6 = rung_strokes(102, 22);
    let q6 = |x: int| 102 <= x < 104;
    assert(sheet::neat(s6, q6));
    let t6 = t5 + s6;
    let r6 = |x: int| 1 <= x < 32 || 100 <= x < 104 || 110 <= x < 117;
    sheet::lemma_joined_is_neat(t5, s6, r5, q6, r6);
    let s7 = moog_rung_wiring_strokes(117, 22);
    let q7 = |x: int| x == 117;
    assert(sheet::neat(s7, q7));
    let t7 = t6 + s7;
    let r7 = |x: int| 1 <= x < 32 || 100 <= x < 104 || 110 <= x < 118;
    sheet::lemma_joined_is_neat(t6, s7, r6, q7, r7);
    let s8 = rung_strokes(104, 14);
    let q8 = |x: int| 104 <= x < 106;
    assert(sheet::neat(s8, q8));
    let t8 = t7 + s8;
    let r8 = |x: int| 1 <= x < 32 || 100 <= x < 106 || 110 <= x < 118;
    sheet::lemma_joined_is_neat(t7, s8, r7, q8, r8);
    let s9 = moog_rung_wiring_strokes(118, 14);
    let q9 = |x: int| x == 118;
    assert(sheet::neat(s9, q9));
    let t9 = t8 + s9;
    let r9 = |x: int| 1 <= x < 32 || 100 <= x < 106 || 110 <= x < 119;
    sheet::lemma_joined_is_neat(t8, s9, r8, q9, r9);
    let s10 = rung_strokes(106, 6);
    let q10 = |x: int| 106 <= x < 108;
    assert(sheet::neat(s10, q10));
    let t10 = t9 + s10;
    let r10 = |x: int| 1 <= x < 32 || 100 <= x < 108 || 110 <= x < 119;
    sheet::lemma_joined_is_neat(t9, s10, r9, q10, r10);
    let s11 = moog_rung_wiring_strokes(119, 6);
    let q11 = |x: int| x == 119;
    assert(sheet::neat(s11, q11));
    let t11 = t10 + s11;
    let r11 = |x: int| 1 <= x < 32 || 100 <= x < 108 || 110 <= x < 120;
    sheet::lemma_joined_is_neat(t10, s11, r10, q11, r11);
    assert(t11 == moog_middle(v));
}

/// The parts of the ladder room have different numbers, and its wires are straight.
pub proof fn law_the_ladder_room_is_legal(v: VcoValues)
    ensures
        sheet::legal(legends::labelled(sheet::picture(moog_strokes(v), 300), moog_legends())),
{
    lemma_the_middle_is_neat(v);
    let t11 = moog_middle(v);
    let r11 = |x: int| 1 <= x < 32 || 100 <= x < 108 || 110 <= x < 120;
    let s12 = rung_strokes(108, (-2) as i32);
    let q12 = |x: int| 108 <= x < 110;
    assert(sheet::neat(s12, q12));
    let t12 = t11 + s12;
    let r12 = |x: int| 1 <= x < 32 || 100 <= x < 110 || 110 <= x < 120;
    sheet::lemma_joined_is_neat(t11, s12, r11, q12, r12);
    let s13 = moog_rung_wiring_strokes(120, (-2) as i32);
    let q13 = |x: int| x == 120;
    assert(sheet::neat(s13, q13));
    let t13 = t12 + s13;
    let r13 = |x: int| 1 <= x < 32 || 100 <= x < 110 || 110 <= x < 121;
    sheet::lemma_joined_is_neat(t12, s13, r12, q13, r13);
    let s14 = moog_loads_strokes();
    let q14 = |x: int| 121 <= x < 123;
    assert(sheet::neat(s14, q14));
    let t14 = t13 + s14;
    let r14 = |x: int| 1 <= x < 32 || 100 <= x < 110 || 110 <= x < 123;
    sheet::lemma_joined_is_neat(t13, s14, r13, q14, r14);
    let s15 = moog_input_strokes();
    let q15 = |x: int| 123 <= x < 128;
    assert(sheet::neat(s15, q15));
    let t15 = t14 + s15;
    let r15 = |x: int| 1 <= x < 32 || 100 <= x < 110 || 110 <= x < 128;
    sheet::lemma_joined_is_neat(t14, s15, r14, q15, r15);
    let s16 = moog_cutoff_strokes(v);
    let q16 = |x: int| 130 <= x < 137;
    assert(sheet::neat(s16, q16));
    let t16 = t15 + s16;
    let r16 = |x: int| 1 <= x < 32 || 100 <= x < 110 || 110 <= x < 137;
    sheet::lemma_joined_is_neat(t15, s16, r15, q16, r16);
    let s17 = moog_output_strokes();
    let q17 = |x: int| 140 <= x < 144;
    assert(sheet::neat(s17, q17));
    let t17 = t16 + s17;
    let r17 = |x: int| 1 <= x < 32 || 100 <= x < 110 || 110 <= x < 144;
    sheet::lemma_joined_is_neat(t16, s17, r16, q17, r17);
    assert(t17 == moog_strokes(v));
    assert(t17.len() <= 1_000);
    sheet::law_neat_strokes_make_a_legal_picture(t17, r17, 300);
}

/// The control panel, over the whole instrument.
pub open spec fn moog_panels_table() -> Seq<PanelDef> {
    seq![
        legends::heading(-200, -240, 1300, 640, "THE LADDER"),
    ]
}

/// The control panel, over the whole instrument.
pub fn moog_panels() -> (r: Vec<PanelDef>)
    ensures
        r@ == moog_panels_table(),
{
    let mut out: Vec<PanelDef> = Vec::new();
    out.push(boxed(-200, -240, 1300, 640, "THE LADDER"));
    assert(out@ =~= moog_panels_table());
    out
}

/// The headings of the blocks, and the plaque.
pub open spec fn moog_label_boxes_table() -> Seq<PanelDef> {
    seq![
        legends::heading(-110, -205, 290, 80, "VCO  1V/OCT  PITCH"),
        legends::heading(-150, 425, 280, 550, "CUTOFF  EXPO CONVERTER"),
        legends::heading(280, 455, 400, 540, "CURRENT SINK"),
        legends::heading(370, -145, 780, 350, "TRANSISTOR LADDER  4 RUNGS"),
        legends::heading(780, -85, 920, 20, "OUT  DC BLOCK"),
        legends::heading(1050, -100, 1260, 10, "MIXER + SPEAKER"),
        legends::heading(960, 220, 1280, 236, "AFTER THE MOOG 904A. THE"),
        legends::heading(960, 240, 1280, 256, "LADDER IS REAL: TEN NPN"),
        legends::heading(960, 260, 1280, 276, "TRANSISTORS, FOUR BRIDGING"),
        legends::heading(960, 280, 1280, 296, "CAPS, ONE CURRENT SINK, AND"),
        legends::heading(960, 300, 1280, 316, "AN EXPONENTIAL CONVERTER ON"),
        legends::heading(960, 320, 1280, 336, "ITS BASE - 17.7 MV/OCTAVE,"),
        legends::heading(960, 340, 1280, 356, "THE SAME JUNCTION MOOG USED"),
        legends::heading(960, 360, 1280, 376, "(NO TEMPCO: NOTHING HERE"),
        legends::heading(960, 380, 1280, 396, "DRIFTS WITH TEMPERATURE)."),
        legends::heading(960, 410, 1280, 426, "MISSING, AND SAID PLAINLY:"),
        legends::heading(960, 430, 1280, 446, "RESONANCE. THE LOOP NEEDS A"),
        legends::heading(960, 450, 1280, 466, "BUFFER, EVERY BUFFER TRIED"),
        legends::heading(960, 470, 1280, 486, "EITHER LATCHED AT ITS RAIL"),
        legends::heading(960, 490, 1280, 506, "OR QUARANTINED THE ROOM AT"),
        legends::heading(960, 510, 1280, 526, "FULL TURN. A KNOB THAT CAN"),
        legends::heading(960, 530, 1280, 546, "BREAK THE SIM IS NOT A KNOB"),
        legends::heading(960, 550, 1280, 566, "- SEE THE SCOPE NOTES."),
        legends::heading(960, 580, 1280, 596, "ALSO ONE OSCILLATOR, NOT"),
        legends::heading(960, 600, 1280, 616, "THREE, AND NO VCA."),
    ]
}

/// The headings of the blocks, and the plaque.
pub fn moog_label_boxes() -> (r: Vec<PanelDef>)
    ensures
        r@ == moog_label_boxes_table(),
{
    let mut out: Vec<PanelDef> = Vec::new();
    out.push(boxed(-110, -205, 290, 80, "VCO  1V/OCT  PITCH"));
    out.push(boxed(-150, 425, 280, 550, "CUTOFF  EXPO CONVERTER"));
    out.push(boxed(280, 455, 400, 540, "CURRENT SINK"));
    out.push(boxed(370, -145, 780, 350, "TRANSISTOR LADDER  4 RUNGS"));
    out.push(boxed(780, -85, 920, 20, "OUT  DC BLOCK"));
    out.push(boxed(1050, -100, 1260, 10, "MIXER + SPEAKER"));
    out.push(boxed(960, 220, 1280, 236, "AFTER THE MOOG 904A. THE"));
    out.push(boxed(960, 240, 1280, 256, "LADDER IS REAL: TEN NPN"));
    out.push(boxed(960, 260, 1280, 276, "TRANSISTORS, FOUR BRIDGING"));
    out.push(boxed(960, 280, 1280, 296, "CAPS, ONE CURRENT SINK, AND"));
    out.push(boxed(960, 300, 1280, 316, "AN EXPONENTIAL CONVERTER ON"));
    out.push(boxed(960, 320, 1280, 336, "ITS BASE - 17.7 MV/OCTAVE,"));
    out.push(boxed(960, 340, 1280, 356, "THE SAME JUNCTION MOOG USED"));
    out.push(boxed(960, 360, 1280, 376, "(NO TEMPCO: NOTHING HERE"));
    out.push(boxed(960, 380, 1280, 396, "DRIFTS WITH TEMPERATURE)."));
    out.push(boxed(960, 410, 1280, 426, "MISSING, AND SAID PLAINLY:"));
    out.push(boxed(960, 430, 1280, 446, "RESONANCE. THE LOOP NEEDS A"));
    out.push(boxed(960, 450, 1280, 466, "BUFFER, EVERY BUFFER TRIED"));
    out.push(boxed(960, 470, 1280, 486, "EITHER LATCHED AT ITS RAIL"));
    out.push(boxed(960, 490, 1280, 506, "OR QUARANTINED THE ROOM AT"));
    out.push(boxed(960, 510, 1280, 526, "FULL TURN. A KNOB THAT CAN"));
    out.push(boxed(960, 530, 1280, 546, "BREAK THE SIM IS NOT A KNOB"));
    out.push(boxed(960, 550, 1280, 566, "- SEE THE SCOPE NOTES."));
    out.push(boxed(960, 580, 1280, 596, "ALSO ONE OSCILLATOR, NOT"));
    out.push(boxed(960, 600, 1280, 616, "THREE, AND NO VCA."));
    assert(out@ =~= moog_label_boxes_table());
    out
}

/// The supply of the ladder room is earthed at its foot, and its rail runs from its head.
pub proof fn law_the_supply_is_wired()
    ensures
        ({
            let d = netlist::laid_out(moog_supply_strokes());
            &&& d.len() == 8
            &&& netlist::has_part(d, 2, ElementKind::VoltageSource { wave: crate::parts::Wave::Sine, dc: Real { bits: 0x4022_0000_0000_0000 }, amp: Real { bits: 0 }, hz: Real { bits: 0 }, phase: Real { bits: 0 } })
            &&& netlist::has_ground(d, sheet::at(-16, -16), 0)
            &&& netlist::on_net(d, 2, 0, sheet::at(-16, -20))
            &&& netlist::joined(d, sheet::at(74, -20), sheet::at(-16, -20))
            &&& netlist::on_net(d, 2, 1, sheet::at(-16, -16))
            &&& netlist::earthed(d, sheet::at(-16, -16))
        }),
{
    let d = netlist::laid_out(moog_supply_strokes());
    assert(d.len() == 8);
    assert(netlist::has_part(d, 2, ElementKind::VoltageSource { wave: crate::parts::Wave::Sine, dc: Real { bits: 0x4022_0000_0000_0000 }, amp: Real { bits: 0 }, hz: Real { bits: 0 }, phase: Real { bits: 0 } })) by {
        netlist::lemma_part(d, 0);
        assert(d[0].id == 2);
        assert(d[0].kind == (ElementKind::VoltageSource { wave: crate::parts::Wave::Sine, dc: Real { bits: 0x4022_0000_0000_0000 }, amp: Real { bits: 0 }, hz: Real { bits: 0 }, phase: Real { bits: 0 } }));
    }
    assert(netlist::has_ground(d, sheet::at(-16, -16), 0)) by {
        netlist::lemma_ground(d, 1);
        assert(d[1].pins[0] == sheet::at(-16, -16));
    }
    assert(netlist::on_net(d, 2, 0, sheet::at(-16, -20))) by {
        netlist::lemma_pin(d, 0, 2, 0);
        assert(d[0].pins[0] == sheet::at(-16, -20));
    }
    assert(netlist::joined(d, sheet::at(74, -20), sheet::at(-16, -20))) by {
        netlist::lemma_joined_here(d, sheet::at(74, -20));
        netlist::lemma_joined_along(d, sheet::at(74, -20), sheet::at(74, -20), sheet::at(62, -20), 7);
        netlist::lemma_joined_along(d, sheet::at(74, -20), sheet::at(62, -20), sheet::at(50, -20), 6);
        netlist::lemma_joined_along(d, sheet::at(74, -20), sheet::at(50, -20), sheet::at(12, -20), 5);
        netlist::lemma_joined_along(d, sheet::at(74, -20), sheet::at(12, -20), sheet::at(-6, -20), 4);
        netlist::lemma_joined_along(d, sheet::at(74, -20), sheet::at(-6, -20), sheet::at(-14, -20), 3);
        netlist::lemma_joined_along(d, sheet::at(74, -20), sheet::at(-14, -20), sheet::at(-16, -20), 2);
    }
    assert(netlist::on_net(d, 2, 1, sheet::at(-16, -16))) by {
        netlist::lemma_pin(d, 0, 2, 1);
        assert(d[0].pins[1] == sheet::at(-16, -16));
    }
    assert(netlist::earthed(d, sheet::at(-16, -16))) by {
        netlist::lemma_earth(d, 1);
    }
}

/// Six resistors in a row from the rail to ground bias the rungs.
pub proof fn law_the_chain_is_wired()
    ensures
        ({
            let d = netlist::laid_out(moog_chain_strokes());
            &&& d.len() == 7
            &&& netlist::has_part(d, 110, ElementKind::Resistor { ohms: Real { bits: 0x40e6_f300_0000_0000 } })
            &&& netlist::has_part(d, 111, ElementKind::Resistor { ohms: Real { bits: 0x40c1_c600_0000_0000 } })
            &&& netlist::has_part(d, 112, ElementKind::Resistor { ohms: Real { bits: 0x40c1_c600_0000_0000 } })
            &&& netlist::has_part(d, 113, ElementKind::Resistor { ohms: Real { bits: 0x40c1_c600_0000_0000 } })
            &&& netlist::has_part(d, 114, ElementKind::Resistor { ohms: Real { bits: 0x40c5_7c00_0000_0000 } })
            &&& netlist::has_part(d, 115, ElementKind::Resistor { ohms: Real { bits: 0x40cf_4000_0000_0000 } })
            &&& netlist::has_ground(d, sheet::at(74, 40), 3)
            &&& netlist::on_net(d, 110, 0, sheet::at(74, -20))
            &&& netlist::on_net(d, 110, 1, sheet::at(74, -2))
            &&& netlist::on_net(d, 111, 0, sheet::at(74, -2))
            &&& netlist::on_net(d, 111, 1, sheet::at(74, 6))
            &&& netlist::on_net(d, 112, 0, sheet::at(74, 6))
            &&& netlist::on_net(d, 112, 1, sheet::at(74, 14))
            &&& netlist::on_net(d, 113, 0, sheet::at(74, 14))
            &&& netlist::on_net(d, 113, 1, sheet::at(74, 22))
            &&& netlist::on_net(d, 114, 0, sheet::at(74, 22))
            &&& netlist::on_net(d, 114, 1, sheet::at(74, 30))
            &&& netlist::on_net(d, 115, 0, sheet::at(74, 30))
            &&& netlist::on_net(d, 115, 1, sheet::at(74, 40))
            &&& netlist::earthed(d, sheet::at(74, 40))
        }),
{
    let d = netlist::laid_out(moog_chain_strokes());
    assert(d.len() == 7);
    assert(netlist::has_part(d, 110, ElementKind::Resistor { ohms: Real { bits: 0x40e6_f300_0000_0000 } })) by {
        netlist::lemma_part(d, 0);
        assert(d[0].id == 110);
        assert(d[0].kind == (ElementKind::Resistor { ohms: Real { bits: 0x40e6_f300_0000_0000 } }));
    }
    assert(netlist::has_part(d, 111, ElementKind::Resistor { ohms: Real { bits: 0x40c1_c600_0000_0000 } })) by {
        netlist::lemma_part(d, 1);
        assert(d[1].id == 111);
        assert(d[1].kind == (ElementKind::Resistor { ohms: Real { bits: 0x40c1_c600_0000_0000 } }));
    }
    assert(netlist::has_part(d, 112, ElementKind::Resistor { ohms: Real { bits: 0x40c1_c600_0000_0000 } })) by {
        netlist::lemma_part(d, 2);
        assert(d[2].id == 112);
        assert(d[2].kind == (ElementKind::Resistor { ohms: Real { bits: 0x40c1_c600_0000_0000 } }));
    }
    assert(netlist::has_part(d, 113, ElementKind::Resistor { ohms: Real { bits: 0x40c1_c600_0000_0000 } })) by {
        netlist::lemma_part(d, 3);
        assert(d[3].id == 113);
        assert(d[3].kind == (ElementKind::Resistor { ohms: Real { bits: 0x40c1_c600_0000_0000 } }));
    }
    assert(netlist::has_part(d, 114, ElementKind::Resistor { ohms: Real { bits: 0x40c5_7c00_0000_0000 } })) by {
        netlist::lemma_part(d, 4);
        assert(d[4].id == 114);
        assert(d[4].kind == (ElementKind::Resistor { ohms: Real { bits: 0x40c5_7c00_0000_0000 } }));
    }
    assert(netlist::has_part(d, 115, ElementKind::Resistor { ohms: Real { bits: 0x40cf_4000_0000_0000 } })) by {
        netlist::lemma_part(d, 5);
        assert(d[5].id == 115);
        assert(d[5].kind == (ElementKind::Resistor { ohms: Real { bits: 0x40cf_4000_0000_0000 } }));
    }
    assert(netlist::has_ground(d, sheet::at(74, 40), 3)) by {
        netlist::lemma_ground(d, 6);
        assert(d[6].pins[0] == sheet::at(74, 40));
    }
    assert(netlist::on_net(d, 110, 0, sheet::at(74, -20))) by {
        netlist::lemma_pin(d, 0, 110, 0);
        assert(d[0].pins[0] == sheet::at(74, -20));
    }
    assert(netlist::on_net(d, 110, 1, sheet::at(74, -2))) by {
        netlist::lemma_pin(d, 0, 110, 1);
        assert(d[0].pins[1] == sheet::at(74, -2));
    }
    assert(netlist::on_net(d, 111, 0, sheet::at(74, -2))) by {
        netlist::lemma_pin(d, 1, 111, 0);
        assert(d[1].pins[0] == sheet::at(74, -2));
    }
    assert(netlist::on_net(d, 111, 1, sheet::at(74, 6))) by {
        netlist::lemma_pin(d, 1, 111, 1);
        assert(d[1].pins[1] == sheet::at(74, 6));
    }
    assert(netlist::on_net(d, 112, 0, sheet::at(74, 6))) by {
        netlist::lemma_pin(d, 2, 112, 0);
        assert(d[2].pins[0] == sheet::at(74, 6));
    }
    assert(netlist::on_net(d, 112, 1, sheet::at(74, 14))) by {
        netlist::lemma_pin(d, 2, 112, 1);
        assert(d[2].pins[1] == sheet::at(74, 14));
    }
    assert(netlist::on_net(d, 113, 0, sheet::at(74, 14))) by {
        netlist::lemma_pin(d, 3, 113, 0);
        assert(d[3].pins[0] == sheet::at(74, 14));
    }
    assert(netlist::on_net(d, 113, 1, sheet::at(74, 22))) by {
        netlist::lemma_pin(d, 3, 113, 1);
        assert(d[3].pins[1] == sheet::at(74, 22));
    }
    assert(netlist::on_net(d, 114, 0, sheet::at(74, 22))) by {
        netlist::lemma_pin(d, 4, 114, 0);
        assert(d[4].pins[0] == sheet::at(74, 22));
    }
    assert(netlist::on_net(d, 114, 1, sheet::at(74, 30))) by {
        netlist::lemma_pin(d, 4, 114, 1);
        assert(d[4].pins[1] == sheet::at(74, 30));
    }
    assert(netlist::on_net(d, 115, 0, sheet::at(74, 30))) by {
        netlist::lemma_pin(d, 5, 115, 0);
        assert(d[5].pins[0] == sheet::at(74, 30));
    }
    assert(netlist::on_net(d, 115, 1, sheet::at(74, 40))) by {
        netlist::lemma_pin(d, 5, 115, 1);
        assert(d[5].pins[1] == sheet::at(74, 40));
    }
    assert(netlist::earthed(d, sheet::at(74, 40))) by {
        netlist::lemma_earth(d, 6);
    }
}

/// Each side of the ladder hangs from the rail by its load.
pub proof fn law_the_loads_are_wired()
    ensures
        ({
            let d = netlist::laid_out(moog_loads_strokes());
            &&& d.len() == 4
            &&& netlist::has_part(d, 121, ElementKind::Resistor { ohms: Real { bits: 0x40d5_7c00_0000_0000 } })
            &&& netlist::has_part(d, 122, ElementKind::Resistor { ohms: Real { bits: 0x40d5_7c00_0000_0000 } })
            &&& netlist::on_net(d, 121, 0, sheet::at(50, -12))
            &&& netlist::joined(d, sheet::at(50, -20), sheet::at(50, -12))
            &&& netlist::on_net(d, 121, 1, sheet::at(50, -4))
            &&& netlist::on_net(d, 122, 0, sheet::at(62, -12))
            &&& netlist::joined(d, sheet::at(62, -20), sheet::at(62, -12))
            &&& netlist::on_net(d, 122, 1, sheet::at(62, -4))
        }),
{
    let d = netlist::laid_out(moog_loads_strokes());
    assert(d.len() == 4);
    assert(netlist::has_part(d, 121, ElementKind::Resistor { ohms: Real { bits: 0x40d5_7c00_0000_0000 } })) by {
        netlist::lemma_part(d, 0);
        assert(d[0].id == 121);
        assert(d[0].kind == (ElementKind::Resistor { ohms: Real { bits: 0x40d5_7c00_0000_0000 } }));
    }
    assert(netlist::has_part(d, 122, ElementKind::Resistor { ohms: Real { bits: 0x40d5_7c00_0000_0000 } })) by {
        netlist::lemma_part(d, 1);
        assert(d[1].id == 122);
        assert(d[1].kind == (ElementKind::Resistor { ohms: Real { bits: 0x40d5_7c00_0000_0000 } }));
    }
    assert(netlist::on_net(d, 121, 0, sheet::at(50, -12))) by {
        netlist::lemma_pin(d, 0, 121, 0);
        assert(d[0].pins[0] == sheet::at(50, -12));
    }
    assert(netlist::joined(d, sheet::at(50, -20), sheet::at(50, -12))) by {
        netlist::lemma_joined_here(d, sheet::at(50, -20));
        netlist::lemma_joined_along(d, sheet::at(50, -20), sheet::at(50, -20), sheet::at(50, -12), 2);
    }
    assert(netlist::on_net(d, 121, 1, sheet::at(50, -4))) by {
        netlist::lemma_pin(d, 0, 121, 1);
        assert(d[0].pins[1] == sheet::at(50, -4));
    }
    assert(netlist::on_net(d, 122, 0, sheet::at(62, -12))) by {
        netlist::lemma_pin(d, 1, 122, 0);
        assert(d[1].pins[0] == sheet::at(62, -12));
    }
    assert(netlist::joined(d, sheet::at(62, -20), sheet::at(62, -12))) by {
        netlist::lemma_joined_here(d, sheet::at(62, -20));
        netlist::lemma_joined_along(d, sheet::at(62, -20), sheet::at(62, -20), sheet::at(62, -12), 3);
    }
    assert(netlist::on_net(d, 122, 1, sheet::at(62, -4))) by {
        netlist::lemma_pin(d, 1, 122, 1);
        assert(d[1].pins[1] == sheet::at(62, -4));
    }
}

/// The oscillator comes through its capacitor and resistor onto one base of the pair; both
/// bases are biased through a resistor each, from a point that is held by a capacitor to
/// ground.
pub proof fn law_the_input_is_wired()
    ensures
        ({
            let d = netlist::laid_out(moog_input_strokes());
            &&& d.len() == 18
            &&& netlist::has_part(d, 123, ElementKind::Resistor { ohms: Real { bits: 0x408f_4000_0000_0000 } })
            &&& netlist::has_part(d, 124, ElementKind::Resistor { ohms: Real { bits: 0x408f_4000_0000_0000 } })
            &&& netlist::has_part(d, 125, ElementKind::Capacitor { farads: Real { bits: 0x3ee4_f8b5_88e3_68f1 } })
            &&& netlist::has_ground(d, sheet::at(34, 26), 2)
            &&& netlist::has_part(d, 126, ElementKind::Capacitor { farads: Real { bits: 0x3eb0_c6f7_a0b5_ed8d } })
            &&& netlist::has_part(d, 127, ElementKind::Resistor { ohms: Real { bits: 0x411c_afc0_0000_0000 } })
            &&& netlist::on_net(d, 123, 0, sheet::at(42, 30))
            &&& netlist::on_net(d, 125, 0, sheet::at(42, 30))
            &&& netlist::on_net(d, 124, 0, sheet::at(42, 30))
            &&& netlist::on_net(d, 123, 1, sheet::at(46, 30))
            &&& netlist::on_net(d, 127, 1, sheet::at(46, 30))
            &&& netlist::on_net(d, 124, 1, sheet::at(66, 30))
            &&& netlist::on_net(d, 125, 1, sheet::at(34, 26))
            &&& netlist::earthed(d, sheet::at(34, 26))
            &&& netlist::on_net(d, 126, 0, sheet::at(32, 40))
            &&& netlist::joined(d, sheet::at(26, -8), sheet::at(32, 40))
            &&& netlist::on_net(d, 126, 1, sheet::at(36, 40))
            &&& netlist::on_net(d, 127, 0, sheet::at(36, 40))
        }),
{
    let d = netlist::laid_out(moog_input_strokes());
    assert(d.len() == 18);
    assert(netlist::has_part(d, 123, ElementKind::Resistor { ohms: Real { bits: 0x408f_4000_0000_0000 } })) by {
        netlist::lemma_part(d, 0);
        assert(d[0].id == 123);
        assert(d[0].kind == (ElementKind::Resistor { ohms: Real { bits: 0x408f_4000_0000_0000 } }));
    }
    assert(netlist::has_part(d, 124, ElementKind::Resistor { ohms: Real { bits: 0x408f_4000_0000_0000 } })) by {
        netlist::lemma_part(d, 1);
        assert(d[1].id == 124);
        assert(d[1].kind == (ElementKind::Resistor { ohms: Real { bits: 0x408f_4000_0000_0000 } }));
    }
    assert(netlist::has_part(d, 125, ElementKind::Capacitor { farads: Real { bits: 0x3ee4_f8b5_88e3_68f1 } })) by {
        netlist::lemma_part(d, 9);
        assert(d[9].id == 125);
        assert(d[9].kind == (ElementKind::Capacitor { farads: Real { bits: 0x3ee4_f8b5_88e3_68f1 } }));
    }
    assert(netlist::has_ground(d, sheet::at(34, 26), 2)) by {
        netlist::lemma_ground(d, 10);
        assert(d[10].pins[0] == sheet::at(34, 26));
    }
    assert(netlist::has_part(d, 126, ElementKind::Capacitor { farads: Real { bits: 0x3eb0_c6f7_a0b5_ed8d } })) by {
        netlist::lemma_part(d, 14);
        assert(d[14].id == 126);
        assert(d[14].kind == (ElementKind::Capacitor { farads: Real { bits: 0x3eb0_c6f7_a0b5_ed8d } }));
    }
    assert(netlist::has_part(d, 127, ElementKind::Resistor { ohms: Real { bits: 0x411c_afc0_0000_0000 } })) by {
        netlist::lemma_part(d, 15);
        assert(d[15].id == 127);
        assert(d[15].kind == (ElementKind::Resistor { ohms: Real { bits: 0x411c_afc0_0000_0000 } }));
    }
    assert(netlist::on_net(d, 123, 0, sheet::at(42, 30))) by {
        netlist::lemma_pin(d, 0, 123, 0);
        assert(d[0].pins[0] == sheet::at(42, 30));
    }
    assert(netlist::on_net(d, 125, 0, sheet::at(42, 30))) by {
        netlist::lemma_pin(d, 9, 125, 0);
        assert(d[9].pins[0] == sheet::at(34, 30));
        netlist::lemma_pin_along(d, 125, 0, sheet::at(34, 30), sheet::at(38, 30), 8);
        netlist::lemma_pin_along(d, 125, 0, sheet::at(38, 30), sheet::at(42, 30), 7);
    }
    assert(netlist::on_net(d, 124, 0, sheet::at(42, 30))) by {
        netlist::lemma_pin(d, 1, 124, 0);
        assert(d[1].pins[0] == sheet::at(70, 30));
        netlist::lemma_pin_along(d, 124, 0, sheet::at(70, 30), sheet::at(74, 30), 2);
        netlist::lemma_pin_along(d, 124, 0, sheet::at(74, 30), sheet::at(76, 30), 3);
        netlist::lemma_pin_along(d, 124, 0, sheet::at(76, 30), sheet::at(76, 36), 4);
        netlist::lemma_pin_along(d, 124, 0, sheet::at(76, 36), sheet::at(38, 36), 5);
        netlist::lemma_pin_along(d, 124, 0, sheet::at(38, 36), sheet::at(38, 30), 6);
        netlist::lemma_pin_along(d, 124, 0, sheet::at(38, 30), sheet::at(42, 30), 7);
    }
    assert(netlist::on_net(d, 123, 1, sheet::at(46, 30))) by {
        netlist::lemma_pin(d, 0, 123, 1);
        assert(d[0].pins[1] == sheet::at(46, 30));
    }
    assert(netlist::on_net(d, 127, 1, sheet::at(46, 30))) by {
        netlist::lemma_pin(d, 15, 127, 1);
        assert(d[15].pins[1] == sheet::at(42, 40));
        netlist::lemma_pin_along(d, 127, 1, sheet::at(42, 40), sheet::at(46, 40), 16);
        netlist::lemma_pin_along(d, 127, 1, sheet::at(46, 40), sheet::at(46, 30), 17);
    }
    assert(netlist::on_net(d, 124, 1, sheet::at(66, 30))) by {
        netlist::lemma_pin(d, 1, 124, 1);
        assert(d[1].pins[1] == sheet::at(66, 30));
    }
    assert(netlist::on_net(d, 125, 1, sheet::at(34, 26))) by {
        netlist::lemma_pin(d, 9, 125, 1);
        assert(d[9].pins[1] == sheet::at(34, 26));
    }
    assert(netlist::earthed(d, sheet::at(34, 26))) by {
        netlist::lemma_earth(d, 10);
    }
    assert(netlist::on_net(d, 126, 0, sheet::at(32, 40))) by {
        netlist::lemma_pin(d, 14, 126, 0);
        assert(d[14].pins[0] == sheet::at(32, 40));
    }
    assert(netlist::joined(d, sheet::at(26, -8), sheet::at(32, 40))) by {
        netlist::lemma_joined_here(d, sheet::at(26, -8));
        netlist::lemma_joined_along(d, sheet::at(26, -8), sheet::at(26, -8), sheet::at(26, 10), 11);
        netlist::lemma_joined_along(d, sheet::at(26, -8), sheet::at(26, 10), sheet::at(32, 10), 12);
        netlist::lemma_joined_along(d, sheet::at(26, -8), sheet::at(32, 10), sheet::at(32, 40), 13);
    }
    assert(netlist::on_net(d, 126, 1, sheet::at(36, 40))) by {
        netlist::lemma_pin(d, 14, 126, 1);
        assert(d[14].pins[1] == sheet::at(36, 40));
    }
    assert(netlist::on_net(d, 127, 0, sheet::at(36, 40))) by {
        netlist::lemma_pin(d, 15, 127, 0);
        assert(d[15].pins[0] == sheet::at(36, 40));
    }
}

/// The cutoff knob drives a follower, the follower a converter, and the converter draws the
/// current of the whole ladder.
pub proof fn law_the_cutoff_is_wired(v: VcoValues)
    ensures
        ({
            let d = netlist::laid_out(moog_cutoff_strokes(v));
            &&& d.len() == 23
            &&& netlist::has_part(d, 131, ElementKind::Resistor { ohms: Real { bits: 0x4103_2a40_0000_0000 } })
            &&& netlist::has_part(d, 130, ElementKind::Potentiometer { ohms: Real { bits: 0x40f8_6a00_0000_0000 }, wiper: Real { bits: 0x3fe1_9999_9999_999a } })
            &&& netlist::has_ground(d, sheet::at(12, 52), 0)
            &&& netlist::has_part(d, 132, ElementKind::OpAmp { rail: Real { bits: 0x4022_0000_0000_0000 }, isc: Real { bits: 0x3f99_9999_9999_999a } })
            &&& netlist::has_part(d, 133, ElementKind::Resistor { ohms: v.r_scale })
            &&& netlist::has_part(d, 134, ElementKind::Resistor { ohms: Real { bits: 0x40a2_f600_0000_0000 } })
            &&& netlist::has_part(d, 135, ElementKind::Resistor { ohms: v.r_gnd })
            &&& netlist::has_ground(d, sheet::at(26, 54), 0)
            &&& netlist::has_part(d, 136, ElementKind::Npn { beta: Real { bits: 0x4059_0000_0000_0000 } })
            &&& netlist::has_ground(d, sheet::at(34, 52), 0)
            &&& netlist::on_net(d, 131, 0, sheet::at(12, 44))
            &&& netlist::on_net(d, 134, 0, sheet::at(12, 44))
            &&& netlist::joined(d, sheet::at(-14, -20), sheet::at(12, 44))
            &&& netlist::on_net(d, 131, 1, sheet::at(12, 48))
            &&& netlist::on_net(d, 130, 2, sheet::at(12, 48))
            &&& netlist::on_net(d, 130, 0, sheet::at(12, 52))
            &&& netlist::earthed(d, sheet::at(12, 52))
            &&& netlist::on_net(d, 130, 1, sheet::at(14, 50))
            &&& netlist::on_net(d, 132, 0, sheet::at(14, 50))
            &&& netlist::on_net(d, 132, 1, sheet::at(16, 51))
            &&& netlist::on_net(d, 132, 2, sheet::at(16, 51))
            &&& netlist::on_net(d, 133, 0, sheet::at(16, 51))
            &&& netlist::on_net(d, 133, 1, sheet::at(26, 50))
            &&& netlist::on_net(d, 134, 1, sheet::at(26, 50))
            &&& netlist::on_net(d, 135, 0, sheet::at(26, 50))
            &&& netlist::on_net(d, 136, 0, sheet::at(26, 50))
            &&& netlist::on_net(d, 135, 1, sheet::at(26, 54))
            &&& netlist::earthed(d, sheet::at(26, 54))
            &&& netlist::on_net(d, 136, 1, sheet::at(34, 48))
            &&& netlist::joined(d, sheet::at(62, 32), sheet::at(34, 48))
            &&& netlist::on_net(d, 136, 2, sheet::at(34, 52))
            &&& netlist::earthed(d, sheet::at(34, 52))
        }),
{
    let d = netlist::laid_out(moog_cutoff_strokes(v));
    assert(d.len() == 23);
    assert(netlist::has_part(d, 131, ElementKind::Resistor { ohms: Real { bits: 0x4103_2a40_0000_0000 } })) by {
        netlist::lemma_part(d, 3);
        assert(d[3].id == 131);
        assert(d[3].kind == (ElementKind::Resistor { ohms: Real { bits: 0x4103_2a40_0000_0000 } }));
    }
    assert(netlist::has_part(d, 130, ElementKind::Potentiometer { ohms: Real { bits: 0x40f8_6a00_0000_0000 }, wiper: Real { bits: 0x3fe1_9999_9999_999a } })) by {
        netlist::lemma_part(d, 4);
        assert(d[4].id == 130);
        assert(d[4].kind == (ElementKind::Potentiometer { ohms: Real { bits: 0x40f8_6a00_0000_0000 }, wiper: Real { bits: 0x3fe1_9999_9999_999a } }));
    }
    assert(netlist::has_ground(d, sheet::at(12, 52), 0)) by {
        netlist::lemma_ground(d, 5);
        assert(d[5].pins[0] == sheet::at(12, 52));
    }
    assert(netlist::has_part(d, 132, ElementKind::OpAmp { rail: Real { bits: 0x4022_0000_0000_0000 }, isc: Real { bits: 0x3f99_9999_9999_999a } })) by {
        netlist::lemma_part(d, 6);
        assert(d[6].id == 132);
        assert(d[6].kind == (ElementKind::OpAmp { rail: Real { bits: 0x4022_0000_0000_0000 }, isc: Real { bits: 0x3f99_9999_9999_999a } }));
    }
    assert(netlist::has_part(d, 133, ElementKind::Resistor { ohms: v.r_scale })) by {
        netlist::lemma_part(d, 11);
        assert(d[11].id == 133);
        assert(d[11].kind == (ElementKind::Resistor { ohms: v.r_scale }));
    }
    assert(netlist::has_part(d, 134, ElementKind::Resistor { ohms: Real { bits: 0x40a2_f600_0000_0000 } })) by {
        netlist::lemma_part(d, 13);
        assert(d[13].id == 134);
        assert(d[13].kind == (ElementKind::Resistor { ohms: Real { bits: 0x40a2_f600_0000_0000 } }));
    }
    assert(netlist::has_part(d, 135, ElementKind::Resistor { ohms: v.r_gnd })) by {
        netlist::lemma_part(d, 14);
        assert(d[14].id == 135);
        assert(d[14].kind == (ElementKind::Resistor { ohms: v.r_gnd }));
    }
    assert(netlist::has_ground(d, sheet::at(26, 54), 0)) by {
        netlist::lemma_ground(d, 15);
        assert(d[15].pins[0] == sheet::at(26, 54));
    }
    assert(netlist::has_part(d, 136, ElementKind::Npn { beta: Real { bits: 0x4059_0000_0000_0000 } })) by {
        netlist::lemma_part(d, 16);
        assert(d[16].id == 136);
        assert(d[16].kind == (ElementKind::Npn { beta: Real { bits: 0x4059_0000_0000_0000 } }));
    }
    assert(netlist::has_ground(d, sheet::at(34, 52), 0)) by {
        netlist::lemma_ground(d, 18);
        assert(d[18].pins[0] == sheet::at(34, 52));
    }
    assert(netlist::on_net(d, 131, 0, sheet::at(12, 44))) by {
        netlist::lemma_pin(d, 3, 131, 0);
        assert(d[3].pins[0] == sheet::at(12, 44));
    }
    assert(netlist::on_net(d, 134, 0, sheet::at(12, 44))) by {
        netlist::lemma_pin(d, 13, 134, 0);
        assert(d[13].pins[0] == sheet::at(26, 44));
        netlist::lemma_pin_along(d, 134, 0, sheet::at(26, 44), sheet::at(12, 44), 2);
    }
    assert(netlist::joined(d, sheet::at(-14, -20), sheet::at(12, 44))) by {
        netlist::lemma_joined_here(d, sheet::at(-14, -20));
        netlist::lemma_joined_along(d, sheet::at(-14, -20), sheet::at(-14, -20), sheet::at(-14, 44), 0);
        netlist::lemma_joined_along(d, sheet::at(-14, -20), sheet::at(-14, 44), sheet::at(12, 44), 1);
    }
    assert(netlist::on_net(d, 131, 1, sheet::at(12, 48))) by {
        netlist::lemma_pin(d, 3, 131, 1);
        assert(d[3].pins[1] == sheet::at(12, 48));
    }
    assert(netlist::on_net(d, 130, 2, sheet::at(12, 48))) by {
        netlist::lemma_pin(d, 4, 130, 2);
        assert(d[4].pins[2] == sheet::at(12, 48));
    }
    assert(netlist::on_net(d, 130, 0, sheet::at(12, 52))) by {
        netlist::lemma_pin(d, 4, 130, 0);
        assert(d[4].pins[0] == sheet::at(12, 52));
    }
    assert(netlist::earthed(d, sheet::at(12, 52))) by {
        netlist::lemma_earth(d, 5);
    }
    assert(netlist::on_net(d, 130, 1, sheet::at(14, 50))) by {
        netlist::lemma_pin(d, 4, 130, 1);
        assert(d[4].pins[1] == sheet::at(14, 50));
    }
    assert(netlist::on_net(d, 132, 0, sheet::at(14, 50))) by {
        netlist::lemma_pin(d, 6, 132, 0);
        assert(d[6].pins[0] == sheet::at(16, 49));
        netlist::lemma_pin_along(d, 132, 0, sheet::at(16, 49), sheet::at(14, 49), 8);
        netlist::lemma_pin_along(d, 132, 0, sheet::at(14, 49), sheet::at(14, 50), 7);
    }
    assert(netlist::on_net(d, 132, 1, sheet::at(16, 51))) by {
        netlist::lemma_pin(d, 6, 132, 1);
        assert(d[6].pins[1] == sheet::at(16, 51));
    }
    assert(netlist::on_net(d, 132, 2, sheet::at(16, 51))) by {
        netlist::lemma_pin(d, 6, 132, 2);
        assert(d[6].pins[2] == sheet::at(20, 50));
        netlist::lemma_pin_along(d, 132, 2, sheet::at(20, 50), sheet::at(20, 51), 9);
        netlist::lemma_pin_along(d, 132, 2, sheet::at(20, 51), sheet::at(16, 51), 10);
    }
    assert(netlist::on_net(d, 133, 0, sheet::at(16, 51))) by {
        netlist::lemma_pin(d, 11, 133, 0);
        assert(d[11].pins[0] == sheet::at(22, 50));
        netlist::lemma_pin_along(d, 133, 0, sheet::at(22, 50), sheet::at(20, 50), 12);
        netlist::lemma_pin_along(d, 133, 0, sheet::at(20, 50), sheet::at(20, 51), 9);
        netlist::lemma_pin_along(d, 133, 0, sheet::at(20, 51), sheet::at(16, 51), 10);
    }
    assert(netlist::on_net(d, 133, 1, sheet::at(26, 50))) by {
        netlist::lemma_pin(d, 11, 133, 1);
        assert(d[11].pins[1] == sheet::at(26, 50));
    }
    assert(netlist::on_net(d, 134, 1, sheet::at(26, 50))) by {
        netlist::lemma_pin(d, 13, 134, 1);
        assert(d[13].pins[1] == sheet::at(26, 50));
    }
    assert(netlist::on_net(d, 135, 0, sheet::at(26, 50))) by {
        netlist::lemma_pin(d, 14, 135, 0);
        assert(d[14].pins[0] == sheet::at(26, 50));
    }
    assert(netlist::on_net(d, 136, 0, sheet::at(26, 50))) by {
        netlist::lemma_pin(d, 16, 136, 0);
        assert(d[16].pins[0] == sheet::at(30, 50));
        netlist::lemma_pin_along(d, 136, 0, sheet::at(30, 50), sheet::at(26, 50), 17);
    }
    assert(netlist::on_net(d, 135, 1, sheet::at(26, 54))) by {
        netlist::lemma_pin(d, 14, 135, 1);
        assert(d[14].pins[1] == sheet::at(26, 54));
    }
    assert(netlist::earthed(d, sheet::at(26, 54))) by {
        netlist::lemma_earth(d, 15);
    }
    assert(netlist::on_net(d, 136, 1, sheet::at(34, 48))) by {
        netlist::lemma_pin(d, 16, 136, 1);
        assert(d[16].pins[1] == sheet::at(34, 48));
    }
    assert(netlist::joined(d, sheet::at(62, 32), sheet::at(34, 48))) by {
        netlist::lemma_joined_here(d, sheet::at(62, 32));
        netlist::lemma_joined_along(d, sheet::at(62, 32), sheet::at(62, 32), sheet::at(56, 32), 22);
        netlist::lemma_joined_along(d, sheet::at(62, 32), sheet::at(56, 32), sheet::at(50, 32), 21);
        netlist::lemma_joined_along(d, sheet::at(62, 32), sheet::at(50, 32), sheet::at(34, 32), 20);
        netlist::lemma_joined_along(d, sheet::at(62, 32), sheet::at(34, 32), sheet::at(34, 48), 19);
    }
    assert(netlist::on_net(d, 136, 2, sheet::at(34, 52))) by {
        netlist::lemma_pin(d, 16, 136, 2);
        assert(d[16].pins[2] == sheet::at(34, 52));
    }
    assert(netlist::earthed(d, sheet::at(34, 52))) by {
        netlist::lemma_earth(d, 18);
    }
}

/// The output leaves through a capacitor, is bled to ground, and goes to the sum.
pub proof fn law_the_output_is_wired()
    ensures
        ({
            let d = netlist::laid_out(moog_output_strokes());
            &&& d.len() == 8
            &&& netlist::has_part(d, 140, ElementKind::Capacitor { farads: Real { bits: 0x3e8d_8724_7702_c0d0 } })
            &&& netlist::has_part(d, 141, ElementKind::Resistor { ohms: Real { bits: 0x411c_afc0_0000_0000 } })
            &&& netlist::has_ground(d, sheet::at(84, 0), 0)
            &&& netlist::has_part(d, 143, ElementKind::Resistor { ohms: Real { bits: 0x412e_8480_0000_0000 } })
            &&& netlist::on_net(d, 140, 0, sheet::at(80, -4))
            &&& netlist::joined(d, sheet::at(50, -4), sheet::at(80, -4))
            &&& netlist::on_net(d, 140, 1, sheet::at(84, -4))
            &&& netlist::on_net(d, 141, 0, sheet::at(84, -4))
            &&& netlist::on_net(d, 143, 0, sheet::at(84, -4))
            &&& netlist::on_net(d, 141, 1, sheet::at(84, 0))
            &&& netlist::earthed(d, sheet::at(84, 0))
            &&& netlist::on_net(d, 143, 1, sheet::at(108, -4))
            &&& netlist::joined(d, sheet::at(112, -5), sheet::at(108, -4))
        }),
{
    let d = netlist::laid_out(moog_output_strokes());
    assert(d.len() == 8);
    assert(netlist::has_part(d, 140, ElementKind::Capacitor { farads: Real { bits: 0x3e8d_8724_7702_c0d0 } })) by {
        netlist::lemma_part(d, 1);
        assert(d[1].id == 140);
        assert(d[1].kind == (ElementKind::Capacitor { farads: Real { bits: 0x3e8d_8724_7702_c0d0 } }));
    }
    assert(netlist::has_part(d, 141, ElementKind::Resistor { ohms: Real { bits: 0x411c_afc0_0000_0000 } })) by {
        netlist::lemma_part(d, 2);
        assert(d[2].id == 141);
        assert(d[2].kind == (ElementKind::Resistor { ohms: Real { bits: 0x411c_afc0_0000_0000 } }));
    }
    assert(netlist::has_ground(d, sheet::at(84, 0), 0)) by {
        netlist::lemma_ground(d, 3);
        assert(d[3].pins[0] == sheet::at(84, 0));
    }
    assert(netlist::has_part(d, 143, ElementKind::Resistor { ohms: Real { bits: 0x412e_8480_0000_0000 } })) by {
        netlist::lemma_part(d, 4);
        assert(d[4].id == 143);
        assert(d[4].kind == (ElementKind::Resistor { ohms: Real { bits: 0x412e_8480_0000_0000 } }));
    }
    assert(netlist::on_net(d, 140, 0, sheet::at(80, -4))) by {
        netlist::lemma_pin(d, 1, 140, 0);
        assert(d[1].pins[0] == sheet::at(80, -4));
    }
    assert(netlist::joined(d, sheet::at(50, -4), sheet::at(80, -4))) by {
        netlist::lemma_joined_here(d, sheet::at(50, -4));
        netlist::lemma_joined_along(d, sheet::at(50, -4), sheet::at(50, -4), sheet::at(80, -4), 0);
    }
    assert(netlist::on_net(d, 140, 1, sheet::at(84, -4))) by {
        netlist::lemma_pin(d, 1, 140, 1);
        assert(d[1].pins[1] == sheet::at(84, -4));
    }
    assert(netlist::on_net(d, 141, 0, sheet::at(84, -4))) by {
        netlist::lemma_pin(d, 2, 141, 0);
        assert(d[2].pins[0] == sheet::at(84, -4));
    }
    assert(netlist::on_net(d, 143, 0, sheet::at(84, -4))) by {
        netlist::lemma_pin(d, 4, 143, 0);
        assert(d[4].pins[0] == sheet::at(88, -4));
        netlist::lemma_pin_along(d, 143, 0, sheet::at(88, -4), sheet::at(84, -4), 5);
    }
    assert(netlist::on_net(d, 141, 1, sheet::at(84, 0))) by {
        netlist::lemma_pin(d, 2, 141, 1);
        assert(d[2].pins[1] == sheet::at(84, 0));
    }
    assert(netlist::earthed(d, sheet::at(84, 0))) by {
        netlist::lemma_earth(d, 3);
    }
    assert(netlist::on_net(d, 143, 1, sheet::at(108, -4))) by {
        netlist::lemma_pin(d, 4, 143, 1);
        assert(d[4].pins[1] == sheet::at(108, -4));
    }
    assert(netlist::joined(d, sheet::at(112, -5), sheet::at(108, -4))) by {
        netlist::lemma_joined_here(d, sheet::at(112, -5));
        netlist::lemma_joined_along(d, sheet::at(112, -5), sheet::at(112, -5), sheet::at(108, -5), 7);
        netlist::lemma_joined_along(d, sheet::at(112, -5), sheet::at(108, -5), sheet::at(108, -4), 6);
    }
}

/// The first capacitor lies across the foot of the ladder.
pub proof fn law_the_first_cap_is_wired()
    ensures
        ({
            let d = netlist::laid_out(moog_first_cap_strokes());
            &&& d.len() == 1
            &&& netlist::has_part(d, 116, ElementKind::Capacitor { farads: Real { bits: 0x3e7a_d7f2_9abc_af48 } })
            &&& netlist::on_net(d, 116, 0, sheet::at(50, 28))
            &&& netlist::on_net(d, 116, 1, sheet::at(62, 28))
        }),
{
    let d = netlist::laid_out(moog_first_cap_strokes());
    assert(d.len() == 1);
    assert(netlist::has_part(d, 116, ElementKind::Capacitor { farads: Real { bits: 0x3e7a_d7f2_9abc_af48 } })) by {
        netlist::lemma_part(d, 0);
        assert(d[0].id == 116);
        assert(d[0].kind == (ElementKind::Capacitor { farads: Real { bits: 0x3e7a_d7f2_9abc_af48 } }));
    }
    assert(netlist::on_net(d, 116, 0, sheet::at(50, 28))) by {
        netlist::lemma_pin(d, 0, 116, 0);
        assert(d[0].pins[0] == sheet::at(50, 28));
    }
    assert(netlist::on_net(d, 116, 1, sheet::at(62, 28))) by {
        netlist::lemma_pin(d, 0, 116, 1);
        assert(d[0].pins[1] == sheet::at(62, 28));
    }
}

/// A rung is two transistors that face each other.
pub proof fn law_a_rung_is_a_pair(id0: u32, y: i32)
    requires
        id0 < u32::MAX,
        -100 <= y <= 100,
    ensures
        ({
            let d = netlist::laid_out(rung_strokes(id0, y));
            &&& d.len() == 2
            &&& netlist::has_part(d, id0, ElementKind::Npn { beta: Real { bits: 0x4059_0000_0000_0000 } })
            &&& netlist::has_part(d, (id0 + 1) as u32, ElementKind::Npn { beta: Real { bits: 0x4059_0000_0000_0000 } })
            &&& netlist::on_net(d, id0, 0, sheet::at(46, y as int))
            &&& netlist::on_net(d, id0, 1, sheet::at(50, y - 2))
            &&& netlist::on_net(d, id0, 2, sheet::at(50, y + 2))
            &&& netlist::on_net(d, (id0 + 1) as u32, 0, sheet::at(66, y as int))
            &&& netlist::on_net(d, (id0 + 1) as u32, 1, sheet::at(62, y - 2))
            &&& netlist::on_net(d, (id0 + 1) as u32, 2, sheet::at(62, y + 2))
        }),
{
    let d = netlist::laid_out(rung_strokes(id0, y));
    assert(d.len() == 2);
    assert(netlist::has_part(d, id0, ElementKind::Npn { beta: Real { bits: 0x4059_0000_0000_0000 } })) by {
        netlist::lemma_part(d, 0);
        assert(d[0].id == id0);
        assert(d[0].kind == (ElementKind::Npn { beta: Real { bits: 0x4059_0000_0000_0000 } }));
    }
    assert(netlist::has_part(d, (id0 + 1) as u32, ElementKind::Npn { beta: Real { bits: 0x4059_0000_0000_0000 } })) by {
        netlist::lemma_part(d, 1);
        assert(d[1].id == (id0 + 1) as u32);
        assert(d[1].kind == (ElementKind::Npn { beta: Real { bits: 0x4059_0000_0000_0000 } }));
    }
    assert(netlist::on_net(d, id0, 0, sheet::at(46, y as int))) by {
        netlist::lemma_pin(d, 0, id0, 0);
        assert(d[0].pins[0] == sheet::at(46, y as int));
    }
    assert(netlist::on_net(d, id0, 1, sheet::at(50, y - 2))) by {
        netlist::lemma_pin(d, 0, id0, 1);
        assert(d[0].pins[1] == sheet::at(50, y - 2));
    }
    assert(netlist::on_net(d, id0, 2, sheet::at(50, y + 2))) by {
        netlist::lemma_pin(d, 0, id0, 2);
        assert(d[0].pins[2] == sheet::at(50, y + 2));
    }
    assert(netlist::on_net(d, (id0 + 1) as u32, 0, sheet::at(66, y as int))) by {
        netlist::lemma_pin(d, 1, (id0 + 1) as u32, 0);
        assert(d[1].pins[0] == sheet::at(66, y as int));
    }
    assert(netlist::on_net(d, (id0 + 1) as u32, 1, sheet::at(62, y - 2))) by {
        netlist::lemma_pin(d, 1, (id0 + 1) as u32, 1);
        assert(d[1].pins[1] == sheet::at(62, y - 2));
    }
    assert(netlist::on_net(d, (id0 + 1) as u32, 2, sheet::at(62, y + 2))) by {
        netlist::lemma_pin(d, 1, (id0 + 1) as u32, 2);
        assert(d[1].pins[2] == sheet::at(62, y + 2));
    }
}

/// The wiring of a rung: each side goes on to the rung below, the capacitor lies across
/// its top, and both bases are on its tap of the chain.
pub proof fn law_a_rung_is_wired(cap_id: u32, y: i32)
    requires
        -100 <= y <= 100,
    ensures
        ({
            let d = netlist::laid_out(moog_rung_wiring_strokes(cap_id, y));
            &&& d.len() == 9
            &&& netlist::has_part(d, cap_id, ElementKind::Capacitor { farads: Real { bits: 0x3e7a_d7f2_9abc_af48 } })
            &&& netlist::on_net(d, cap_id, 0, sheet::at(50, y - 2))
            &&& netlist::on_net(d, cap_id, 1, sheet::at(62, y - 2))
            &&& netlist::joined(d, sheet::at(50, y + 6), sheet::at(50, y + 2))
            &&& netlist::joined(d, sheet::at(62, y + 6), sheet::at(62, y + 2))
            &&& netlist::joined(d, sheet::at(66, y as int), sheet::at(74, y as int))
            &&& netlist::joined(d, sheet::at(46, y as int), sheet::at(74, y as int))
        }),
{
    let d = netlist::laid_out(moog_rung_wiring_strokes(cap_id, y));
    assert(d.len() == 9);
    assert(netlist::has_part(d, cap_id, ElementKind::Capacitor { farads: Real { bits: 0x3e7a_d7f2_9abc_af48 } })) by {
        netlist::lemma_part(d, 2);
        assert(d[2].id == cap_id);
        assert(d[2].kind == (ElementKind::Capacitor { farads: Real { bits: 0x3e7a_d7f2_9abc_af48 } }));
    }
    assert(netlist::on_net(d, cap_id, 0, sheet::at(50, y - 2))) by {
        netlist::lemma_pin(d, 2, cap_id, 0);
        assert(d[2].pins[0] == sheet::at(50, y - 2));
    }
    assert(netlist::on_net(d, cap_id, 1, sheet::at(62, y - 2))) by {
        netlist::lemma_pin(d, 2, cap_id, 1);
        assert(d[2].pins[1] == sheet::at(62, y - 2));
    }
    assert(netlist::joined(d, sheet::at(50, y + 6), sheet::at(50, y + 2))) by {
        netlist::lemma_joined_here(d, sheet::at(50, y + 6));
        netlist::lemma_joined_along(d, sheet::at(50, y + 6), sheet::at(50, y + 6), sheet::at(50, y + 2), 0);
    }
    assert(netlist::joined(d, sheet::at(62, y + 6), sheet::at(62, y + 2))) by {
        netlist::lemma_joined_here(d, sheet::at(62, y + 6));
        netlist::lemma_joined_along(d, sheet::at(62, y + 6), sheet::at(62, y + 6), sheet::at(62, y + 2), 1);
    }
    assert(netlist::joined(d, sheet::at(66, y as int), sheet::at(74, y as int))) by {
        netlist::lemma_joined_here(d, sheet::at(66, y as int));
        netlist::lemma_joined_along(d, sheet::at(66, y as int), sheet::at(66, y as int), sheet::at(74, y as int), 3);
    }
    assert(netlist::joined(d, sheet::at(46, y as int), sheet::at(74, y as int))) by {
        netlist::lemma_joined_here(d, sheet::at(46, y as int));
        netlist::lemma_joined_along(d, sheet::at(46, y as int), sheet::at(46, y as int), sheet::at(38, y as int), 8);
        netlist::lemma_joined_along(d, sheet::at(46, y as int), sheet::at(38, y as int), sheet::at(38, y + 4), 7);
        netlist::lemma_joined_along(d, sheet::at(46, y as int), sheet::at(38, y + 4), sheet::at(76, y + 4), 6);
        netlist::lemma_joined_along(d, sheet::at(46, y as int), sheet::at(76, y + 4), sheet::at(76, y as int), 5);
        netlist::lemma_joined_along(d, sheet::at(46, y as int), sheet::at(76, y as int), sheet::at(74, y as int), 4);
    }
}

/// The ladder room is the supply, the output stage, the oscillator and the ladder, rung on
/// rung eight units apart, in this order and with nothing else.
pub proof fn law_the_ladder_room_has_its_blocks(v: VcoValues)
    ensures
        ({
            let all = moog_strokes(v);
            &&& all.len() == 165
            &&& netlist::placed(all, 0, moog_supply_strokes())
            &&& netlist::placed(all, 8, modules::mixer_speaker_strokes(10, 1, sheet::at(112, -4), Real { bits: 0x4022_0000_0000_0000 }, Real { bits: 0x411c_afc0_0000_0000 }))
            &&& netlist::placed(all, 16, modules::vco_strokes(20, sheet::at(-8, -2), (-20) as i32, Real { bits: 0x3fd3_3333_3333_3333 }, 0x904a_904a, v))
            &&& netlist::placed(all, 58, moog_chain_strokes())
            &&& netlist::placed(all, 65, rung_strokes(100, 30))
            &&& netlist::placed(all, 67, moog_first_cap_strokes())
            &&& netlist::placed(all, 68, rung_strokes(102, 22))
            &&& netlist::placed(all, 70, moog_rung_wiring_strokes(117, 22))
            &&& netlist::placed(all, 79, rung_strokes(104, 14))
            &&& netlist::placed(all, 81, moog_rung_wiring_strokes(118, 14))
            &&& netlist::placed(all, 90, rung_strokes(106, 6))
            &&& netlist::placed(all, 92, moog_rung_wiring_strokes(119, 6))
            &&& netlist::placed(all, 101, rung_strokes(108, (-2) as i32))
            &&& netlist::placed(all, 103, moog_rung_wiring_strokes(120, (-2) as i32))
            &&& netlist::placed(all, 112, moog_loads_strokes())
            &&& netlist::placed(all, 116, moog_input_strokes())
            &&& netlist::placed(all, 134, moog_cutoff_strokes(v))
            &&& netlist::placed(all, 157, moog_output_strokes())
        }),
{
    let t0 = moog_supply_strokes();
    netlist::lemma_placed_here(t0);
    assert(t0.len() == 8);
    let s1 = modules::mixer_speaker_strokes(10, 1, sheet::at(112, -4), Real { bits: 0x4022_0000_0000_0000 }, Real { bits: 0x411c_afc0_0000_0000 });
    assert(s1.len() == 8);
    let t1 = t0 + s1;
    netlist::lemma_placed_last(t0, s1);
    netlist::lemma_placed_before(t0, s1, 0, t0);
    let s2 = modules::vco_strokes(20, sheet::at(-8, -2), (-20) as i32, Real { bits: 0x3fd3_3333_3333_3333 }, 0x904a_904a, v);
    assert(s2.len() == 42);
    let t2 = t1 + s2;
    netlist::lemma_placed_last(t1, s2);
    netlist::lemma_placed_before(t1, s2, 0, t0);
    netlist::lemma_placed_before(t1, s2, 8, s1);
    let s3 = moog_chain_strokes();
    assert(s3.len() == 7);
    let t3 = t2 + s3;
    netlist::lemma_placed_last(t2, s3);
    netlist::lemma_placed_before(t2, s3, 0, t0);
    netlist::lemma_placed_before(t2, s3, 8, s1);
    netlist::lemma_placed_before(t2, s3, 16, s2);
    let s4 = rung_strokes(100, 30);
    assert(s4.len() == 2);
    let t4 = t3 + s4;
    netlist::lemma_placed_last(t3, s4);
    netlist::lemma_placed_before(t3, s4, 0, t0);
    netlist::lemma_placed_before(t3, s4, 8, s1);
    netlist::lemma_placed_before(t3, s4, 16, s2);
    netlist::lemma_placed_before(t3, s4, 58, s3);
    let s5 = moog_first_cap_strokes();
    assert(s5.len() == 1);
    let t5 = t4 + s5;
    netlist::lemma_placed_last(t4, s5);
    netlist::lemma_placed_before(t4, s5, 0, t0);
    netlist::lemma_placed_before(t4, s5, 8, s1);
    netlist::lemma_placed_before(t4, s5, 16, s2);
    netlist::lemma_placed_before(t4, s5, 58, s3);
    netlist::lemma_placed_before(t4, s5, 65, s4);
    let s6 = rung_strokes(102, 22);
    assert(s6.len() == 2);
    let t6 = t5 + s6;
    netlist::lemma_placed_last(t5, s6);
    netlist::lemma_placed_before(t5, s6, 0, t0);
    netlist::lemma_placed_before(t5, s6, 8, s1);
    netlist::lemma_placed_before(t5, s6, 16, s2);
    netlist::lemma_placed_before(t5, s6, 58, s3);
    netlist::lemma_placed_before(t5, s6, 65, s4);
    netlist::lemma_placed_before(t5, s6, 67, s5);
    let s7 = moog_rung_wiring_strokes(117, 22);
    assert(s7.len() == 9);
    let t7 = t6 + s7;
    netlist::lemma_placed_last(t6, s7);
    netlist::lemma_placed_before(t6, s7, 0, t0);
    netlist::lemma_placed_before(t6, s7, 8, s1);
    netlist::lemma_placed_before(t6, s7, 16, s2);
    netlist::lemma_placed_before(t6, s7, 58, s3);
    netlist::lemma_placed_before(t6, s7, 65, s4);
    netlist::lemma_placed_before(t6, s7, 67, s5);
    netlist::lemma_placed_before(t6, s7, 68, s6);
    let s8 = rung_strokes(104, 14);
    assert(s8.len() == 2);
    let t8 = t7 + s8;
    netlist::lemma_placed_last(t7, s8);
    netlist::lemma_placed_before(t7, s8, 0, t0);
    netlist::lemma_placed_before(t7, s8, 8, s1);
    netlist::lemma_placed_before(t7, s8, 16, s2);
    netlist::lemma_placed_before(t7, s8, 58, s3);
    netlist::lemma_placed_before(t7, s8, 65, s4);
    netlist::lemma_placed_before(t7, s8, 67, s5);
    netlist::lemma_placed_before(t7, s8, 68, s6);
    netlist::lemma_placed_before(t7, s8, 70, s7);
    let s9 = moog_rung_wiring_strokes(118, 14);
    assert(s9.len() == 9);
    let t9 = t8 + s9;
    netlist::lemma_placed_last(t8, s9);
    netlist::lemma_placed_before(t8, s9, 0, t0);
    netlist::lemma_placed_before(t8, s9, 8, s1);
    netlist::lemma_placed_before(t8, s9, 16, s2);
    netlist::lemma_placed_before(t8, s9, 58, s3);
    netlist::lemma_placed_before(t8, s9, 65, s4);
    netlist::lemma_placed_before(t8, s9, 67, s5);
    netlist::lemma_placed_before(t8, s9, 68, s6);
    netlist::lemma_placed_before(t8, s9, 70, s7);
    netlist::lemma_placed_before(t8, s9, 79, s8);
    let s10 = rung_strokes(106, 6);
    assert(s10.len() == 2);
    let t10 = t9 + s10;
    netlist::lemma_placed_last(t9, s10);
    netlist::lemma_placed_before(t9, s10, 0, t0);
    netlist::lemma_placed_before(t9, s10, 8, s1);
    netlist::lemma_placed_before(t9, s10, 16, s2);
    netlist::lemma_placed_before(t9, s10, 58, s3);
    netlist::lemma_placed_before(t9, s10, 65, s4);
    netlist::lemma_placed_before(t9, s10, 67, s5);
    netlist::lemma_placed_before(t9, s10, 68, s6);
    netlist::lemma_placed_before(t9, s10, 70, s7);
    netlist::lemma_placed_before(t9, s10, 79, s8);
    netlist::lemma_placed_before(t9, s10, 81, s9);
    let s11 = moog_rung_wiring_strokes(119, 6);
    assert(s11.len() == 9);
    let t11 = t10 + s11;
    netlist::lemma_placed_last(t10, s11);
    netlist::lemma_placed_before(t10, s11, 0, t0);
    netlist::lemma_placed_before(t10, s11, 8, s1);
    netlist::lemma_placed_before(t10, s11, 16, s2);
    netlist::lemma_placed_before(t10, s11, 58, s3);
    netlist::lemma_placed_before(t10, s11, 65, s4);
    netlist::lemma_placed_before(t10, s11, 67, s5);
    netlist::lemma_placed_before(t10, s11, 68, s6);
    netlist::lemma_placed_before(t10, s11, 70, s7);
    netlist::lemma_placed_before(t10, s11, 79, s8);
    netlist::lemma_placed_before(t10, s11, 81, s9);
    netlist::lemma_placed_before(t10, s11, 90, s10);
    let s12 = rung_strokes(108, (-2) as i32);
    assert(s12.len() == 2);
    let t12 = t11 + s12;
    netlist::lemma_placed_last(t11, s12);
    netlist::lemma_placed_before(t11, s12, 0, t0);
    netlist::lemma_placed_before(t11, s12, 8, s1);
    netlist::lemma_placed_before(t11, s12, 16, s2);
    netlist::lemma_placed_before(t11, s12, 58, s3);
    netlist::lemma_placed_before(t11, s12, 65, s4);
    netlist::lemma_placed_before(t11, s12, 67, s5);
    netlist::lemma_placed_before(t11, s12, 68, s6);
    netlist::lemma_placed_before(t11, s12, 70, s7);
    netlist::lemma_placed_before(t11, s12, 79, s8);
    netlist::lemma_placed_before(t11, s12, 81, s9);
    netlist::lemma_placed_before(t11, s12, 90, s10);
    netlist::lemma_placed_before(t11, s12, 92, s11);
    let s13 = moog_rung_wiring_strokes(120, (-2) as i32);
    assert(s13.len() == 9);
    let t13 = t12 + s13;
    netlist::lemma_placed_last(t12, s13);
    netlist::lemma_placed_before(t12, s13, 0, t0);
    netlist::lemma_placed_before(t12, s13, 8, s1);
    netlist::lemma_placed_before(t12, s13, 16, s2);
    netlist::lemma_placed_before(t12, s13, 58, s3);
    netlist::lemma_placed_before(t12, s13, 65, s4);
    netlist::lemma_placed_before(t12, s13, 67, s5);
    netlist::lemma_placed_before(t12, s13, 68, s6);
    netlist::lemma_placed_before(t12, s13, 70, s7);
    netlist::lemma_placed_before(t12, s13, 79, s8);
    netlist::lemma_placed_before(t12, s13, 81, s9);
    netlist::lemma_placed_before(t12, s13, 90, s10);
    netlist::lemma_placed_before(t12, s13, 92, s11);
    netlist::lemma_placed_before(t12, s13, 101, s12);
    let s14 = moog_loads_strokes();
    assert(s14.len() == 4);
    let t14 = t13 + s14;
    netlist::lemma_placed_last(t13, s14);
    netlist::lemma_placed_before(t13, s14, 0, t0);
    netlist::lemma_placed_before(t13, s14, 8, s1);
    netlist::lemma_placed_before(t13, s14, 16, s2);
    netlist::lemma_placed_before(t13, s14, 58, s3);
    netlist::lemma_placed_before(t13, s14, 65, s4);
    netlist::lemma_placed_before(t13, s14, 67, s5);
    netlist::lemma_placed_before(t13, s14, 68, s6);
    netlist::lemma_placed_before(t13, s14, 70, s7);
    netlist::lemma_placed_before(t13, s14, 79, s8);
    netlist::lemma_placed_before(t13, s14, 81, s9);
    netlist::lemma_placed_before(t13, s14, 90, s10);
    netlist::lemma_placed_before(t13, s14, 92, s11);
    netlist::lemma_placed_before(t13, s14, 101, s12);
    netlist::lemma_placed_before(t13, s14, 103, s13);
    let s15 = moog_input_strokes();
    assert(s15.len() == 18);
    let t15 = t14 + s15;
    netlist::lemma_placed_last(t14, s15);
    netlist::lemma_placed_before(t14, s15, 0, t0);
    netlist::lemma_placed_before(t14, s15, 8, s1);
    netlist::lemma_placed_before(t14, s15, 16, s2);
    netlist::lemma_placed_before(t14, s15, 58, s3);
    netlist::lemma_placed_before(t14, s15, 65, s4);
    netlist::lemma_placed_before(t14, s15, 67, s5);
    netlist::lemma_placed_before(t14, s15, 68, s6);
    netlist::lemma_placed_before(t14, s15, 70, s7);
    netlist::lemma_placed_before(t14, s15, 79, s8);
    netlist::lemma_placed_before(t14, s15, 81, s9);
    netlist::lemma_placed_before(t14, s15, 90, s10);
    netlist::lemma_placed_before(t14, s15, 92, s11);
    netlist::lemma_placed_before(t14, s15, 101, s12);
    netlist::lemma_placed_before(t14, s15, 103, s13);
    netlist::lemma_placed_before(t14, s15, 112, s14);
    let s16 = moog_cutoff_strokes(v);
    assert(s16.len() == 23);
    let t16 = t15 + s16;
    netlist::lemma_placed_last(t15, s16);
    netlist::lemma_placed_before(t15, s16, 0, t0);
    netlist::lemma_placed_before(t15, s16, 8, s1);
    netlist::lemma_placed_before(t15, s16, 16, s2);
    netlist::lemma_placed_before(t15, s16, 58, s3);
    netlist::lemma_placed_before(t15, s16, 65, s4);
    netlist::lemma_placed_before(t15, s16, 67, s5);
    netlist::lemma_placed_before(t15, s16, 68, s6);
    netlist::lemma_placed_before(t15, s16, 70, s7);
    netlist::lemma_placed_before(t15, s16, 79, s8);
    netlist::lemma_placed_before(t15, s16, 81, s9);
    netlist::lemma_placed_before(t15, s16, 90, s10);
    netlist::lemma_placed_before(t15, s16, 92, s11);
    netlist::lemma_placed_before(t15, s16, 101, s12);
    netlist::lemma_placed_before(t15, s16, 103, s13);
    netlist::lemma_placed_before(t15, s16, 112, s14);
    netlist::lemma_placed_before(t15, s16, 116, s15);
    let s17 = moog_output_strokes();
    assert(s17.len() == 8);
    let t17 = t16 + s17;
    netlist::lemma_placed_last(t16, s17);
    netlist::lemma_placed_before(t16, s17, 0, t0);
    netlist::lemma_placed_before(t16, s17, 8, s1);
    netlist::lemma_placed_before(t16, s17, 16, s2);
    netlist::lemma_placed_before(t16, s17, 58, s3);
    netlist::lemma_placed_before(t16, s17, 65, s4);
    netlist::lemma_placed_before(t16, s17, 67, s5);
    netlist::lemma_placed_before(t16, s17, 68, s6);
    netlist::lemma_placed_before(t16, s17, 70, s7);
    netlist::lemma_placed_before(t16, s17, 79, s8);
    netlist::lemma_placed_before(t16, s17, 81, s9);
    netlist::lemma_placed_before(t16, s17, 90, s10);
    netlist::lemma_placed_before(t16, s17, 92, s11);
    netlist::lemma_placed_before(t16, s17, 101, s12);
    netlist::lemma_placed_before(t16, s17, 103, s13);
    netlist::lemma_placed_before(t16, s17, 112, s14);
    netlist::lemma_placed_before(t16, s17, 116, s15);
    netlist::lemma_placed_before(t16, s17, 134, s16);
    assert(t17 == moog_strokes(v));
}

/// The panel of the ladder room lies over these units, under this name.
pub proof fn law_the_ladder_panel_is_where_it_is()
    ensures
        ({
            let t = moog_panels_table();
            &&& t.len() == 1
            &&& (t[0].x0, t[0].y0, t[0].x1, t[0].y1) == ((-200) as i32, (-240) as i32, 1300i32, 640i32)
            &&& t[0].name@ == "THE LADDER"@
        }),
{
}

/// The headings of the ladder room lie over these units, and read so.
pub proof fn law_the_ladder_headings_are_where_they_are()
    ensures
        ({
            let t = moog_label_boxes_table();
            &&& t.len() == 25
            &&& (t[0].x0, t[0].y0, t[0].x1, t[0].y1) == ((-110) as i32, (-205) as i32, 290i32, 80i32)
            &&& t[0].name@ == "VCO  1V/OCT  PITCH"@
            &&& (t[1].x0, t[1].y0, t[1].x1, t[1].y1) == ((-150) as i32, 425i32, 280i32, 550i32)
            &&& t[1].name@ == "CUTOFF  EXPO CONVERTER"@
            &&& (t[2].x0, t[2].y0, t[2].x1, t[2].y1) == (280i32, 455i32, 400i32, 540i32)
            &&& t[2].name@ == "CURRENT SINK"@
            &&& (t[3].x0, t[3].y0, t[3].x1, t[3].y1) == (370i32, (-145) as i32, 780i32, 350i32)
            &&& t[3].name@ == "TRANSISTOR LADDER  4 RUNGS"@
            &&& (t[4].x0, t[4].y0, t[4].x1, t[4].y1) == (780i32, (-85) as i32, 920i32, 20i32)
            &&& t[4].name@ == "OUT  DC BLOCK"@
            &&& (t[5].x0, t[5].y0, t[5].x1, t[5].y1) == (1050i32, (-100) as i32, 1260i32, 10i32)
            &&& t[5].name@ == "MIXER + SPEAKER"@
            &&& (t[6].x0, t[6].y0, t[6].x1, t[6].y1) == (960i32, 220i32, 1280i32, 236i32)
            &&& t[6].name@ == "AFTER THE MOOG 904A. THE"@
            &&& (t[7].x0, t[7].y0, t[7].x1, t[7].y1) == (960i32, 240i32, 1280i32, 256i32)
            &&& t[7].name@ == "LADDER IS REAL: TEN NPN"@
            &&& (t[8].x0, t[8].y0, t[8].x1, t[8].y1) == (960i32, 260i32, 1280i32, 276i32)
            &&& t[8].name@ == "TRANSISTORS, FOUR BRIDGING"@
            &&& (t[9].x0, t[9].y0, t[9].x1, t[9].y1) == (960i32, 280i32, 1280i32, 296i32)
            &&& t[9].name@ == "CAPS, ONE CURRENT SINK, AND"@
            &&& (t[10].x0, t[10].y0, t[10].x1, t[10].y1) == (960i32, 300i32, 1280i32, 316i32)
            &&& t[10].name@ == "AN EXPONENTIAL CONVERTER ON"@
            &&& (t[11].x0, t[11].y0, t[11].x1, t[11].y1) == (960i32, 320i32, 1280i32, 336i32)
            &&& t[11].name@ == "ITS BASE - 17.7 MV/OCTAVE,"@
            &&& (t[12].x0, t[12].y0, t[12].x1, t[12].y1) == (960i32, 340i32, 1280i32, 356i32)
            &&& t[12].name@ == "THE SAME JUNCTION MOOG USED"@
            &&& (t[13].x0, t[13].y0, t[13].x1, t[13].y1) == (960i32, 360i32, 1280i32, 376i32)
            &&& t[13].name@ == "(NO TEMPCO: NOTHING HERE"@
            &&& (t[14].x0, t[14].y0, t[14].x1, t[14].y1) == (960i32, 380i32, 1280i32, 396i32)
            &&& t[14].name@ == "DRIFTS WITH TEMPERATURE)."@
            &&& (t[15].x0, t[15].y0, t[15].x1, t[15].y1) == (960i32, 410i32, 1280i32, 426i32)
            &&& t[15].name@ == "MISSING, AND SAID PLAINLY:"@
            &&& (t[16].x0, t[16].y0, t[16].x1, t[16].y1) == (960i32, 430i32, 1280i32, 446i32)
            &&& t[16].name@ == "RESONANCE. THE LOOP NEEDS A"@
            &&& (t[17].x0, t[17].y0, t[17].x1, t[17].y1) == (960i32, 450i32, 1280i32, 466i32)
            &&& t[17].name@ == "BUFFER, EVERY BUFFER TRIED"@
            &&& (t[18].x0, t[18].y0, t[18].x1, t[18].y1) == (960i32, 470i32, 1280i32, 486i32)
            &&& t[18].name@ == "EITHER LATCHED AT ITS RAIL"@
            &&& (t[19].x0, t[19].y0, t[19].x1, t[19].y1) == (960i32, 490i32, 1280i32, 506i32)
            &&& t[19].name@ == "OR QUARANTINED THE ROOM AT"@
            &&& (t[20].x0, t[20].y0, t[20].x1, t[20].y1) == (960i32, 510i32, 1280i32, 526i32)
            &&& t[20].name@ == "FULL TURN. A KNOB THAT CAN"@
            &&& (t[21].x0, t[21].y0, t[21].x1, t[21].y1) == (960i32, 530i32, 1280i32, 546i32)
            &&& t[21].name@ == "BREAK THE SIM IS NOT A KNOB"@
            &&& (t[22].x0, t[22].y0, t[22].x1, t[22].y1) == (960i32, 550i32, 1280i32, 566i32)
            &&& t[22].name@ == "- SEE THE SCOPE NOTES."@
            &&& (t[23].x0, t[23].y0, t[23].x1, t[23].y1) == (960i32, 580i32, 1280i32, 596i32)
            &&& t[23].name@ == "ALSO ONE OSCILLATOR, NOT"@
            &&& (t[24].x0, t[24].y0, t[24].x1, t[24].y1) == (960i32, 600i32, 1280i32, 616i32)
            &&& t[24].name@ == "THREE, AND NO VCA."@
        }),
{
}

} // verus!
