//! The scream room: after a two-pole filter with two diodes in its resonance loop.
use vstd::prelude::*;

use crate::binary64::Real;
use crate::legends::{self, boxed, name_controls, Legend, PanelDef};
use crate::lists;
use crate::modules::{
    self, capacitor, mixer_speaker, opamp, pot, resistor, supply, vco, Vco, VcoValues, OHMS_100K,
    OHMS_1K, VOLTS_9,
};
use crate::netlist;
use crate::parts::{ElementKind, ElementSpec, Point};
use crate::sheet::{self, Facing, Sheet, Stroke, DOWN, RIGHT, UP};

verus! {

pub const ID_SPEAKER: u32 = 1;

pub const ID_SUPPLY: u32 = 2;

pub const ID_PITCH: u32 = 21;

pub const ID_DRIVE: u32 = 41;

pub const ID_NOISE: u32 = 44;

pub const ID_CUTOFF: u32 = 50;

pub const ID_PEAK: u32 = 71;

/// The row of the supply rail.
pub const RAIL_Y: i32 = -30;

/// The seed of the oscillator's dither.
pub const VCO_SEED: u32 = 0x2001;

/// The seed of the noise.
pub const NOISE_SEED: u32 = 0x5320;

/// Where the pitch knob stands: 0.3.
pub const PITCH_WIPER: u64 = 0x3fd3_3333_3333_3333;

/// Where the drive knob stands: 0.15.
pub const DRIVE_WIPER: u64 = 0x3fc3_3333_3333_3333;

/// Where the noise knob stands: 0.15.
pub const NOISE_WIPER: u64 = 0x3fc3_3333_3333_3333;

/// Where the cutoff knob stands: 0.55.
pub const CUTOFF_WIPER: u64 = 0x3fe1_9999_9999_999a;

/// Where the peak knob stands: 0.55.
pub const PEAK_WIPER: u64 = 0x3fe1_9999_9999_999a;

/// The capacitor of an integrator: 22 nanofarads.
pub const C_FILT: u64 = 0x3e57_9f50_5f35_670c;

/// What brings the signal down: a megohm.
pub const R_DRIVE_IN: u64 = 0x412e_8480_0000_0000;

/// The drive knob: 10 kilohms.
pub const POT_DRIVE: u64 = 0x40c3_8800_0000_0000;

/// The noise: two volts.
pub const NOISE_V: u64 = 0x4000_0000_0000_0000;

/// What brings the noise down: 470 kilohms.
pub const R_NOISE_IN: u64 = 0x411c_afc0_0000_0000;

/// The cutoff knob: 10 kilohms.
pub const POT_CUTOFF: u64 = 0x40c3_8800_0000_0000;

/// The bias of the integrators: 470 kilohms.
pub const R_CUT_BIAS: u64 = 0x411c_afc0_0000_0000;

/// The bias of the damping: a megohm.
pub const R_DAMP_BIAS: u64 = 0x412e_8480_0000_0000;

/// Round the gain stage: a megohm.
pub const R_F_GAIN: u64 = 0x412e_8480_0000_0000;

/// Under the gain stage: 5.1 kilohms.
pub const R_G_GAIN: u64 = 0x40b3_ec00_0000_0000;

/// Back into the loop: 1.2 megohms.
pub const R_FEEDBACK: u64 = 0x4132_4f80_0000_0000;

/// Into the mixer: 470 kilohms.
pub const R_OUT: u64 = 0x411c_afc0_0000_0000;

/// Round the mixer: 15 kilohms.
pub const RF_MIX: u64 = 0x40cd_4c00_0000_0000;

/// The filter's input, where the oscillator and the noise are summed.
pub fn in_node() -> (p: Point)
    ensures
        p == sheet::at(34, 0),
{
    (34, 0)
}

/// The first integrator's output.
pub fn x_node() -> (p: Point)
    ensures
        p == sheet::at(46, 0),
{
    (46, 0)
}

/// The second integrator's output, which is the filter's.
pub fn y_node() -> (p: Point)
    ensures
        p == sheet::at(58, 0),
{
    (58, 0)
}

/// The bias that both integrators share.
pub fn cut_bias() -> (p: Point)
    ensures
        p == sheet::at(45, -8),
{
    (45, -8)
}

/// The output in volts.
pub fn amp_out() -> (p: Point)
    ensures
        p == sheet::at(78, 0),
{
    (78, 0)
}

/// The node that the two diodes clamp.
pub fn res_node() -> (p: Point)
    ensures
        p == sheet::at(74, 14),
{
    (74, 14)
}

/// The output that the speaker hangs on.
pub fn out_node() -> (p: Point)
    ensures
        p == sheet::at(94, -4),
{
    (94, -4)
}

/// The supply and its rail, with a corner at every tap.
pub open spec fn ms20_supply_strokes() -> Seq<Stroke> {
    seq![
        Stroke::Two { id: ID_SUPPLY, kind: supply(), a: sheet::at(-26, -30), b: sheet::at(-26, -26) },
        Stroke::Ground { at: sheet::at(-26, -26), dir: DOWN },
        Stroke::Wire { a: sheet::at(-26, -30), b: sheet::at(-22, -30) },
        Stroke::Wire { a: sheet::at(-22, -30), b: sheet::at(-20, -30) },
        Stroke::Wire { a: sheet::at(-20, -30), b: sheet::at(-2, -30) },
        Stroke::Wire { a: sheet::at(-2, -30), b: sheet::at(40, -30) },
        Stroke::Wire { a: sheet::at(40, -30), b: sheet::at(52, -30) },
    ]
}

/// Draws the supply and its rail.
fn draw_ms20_supply(sh: &mut Sheet)
    requires
        old(sh).wf(),
    ensures
        final(sh).wf(),
        final(sh).strokes@ == old(sh).strokes@ + ms20_supply_strokes(),
{
    sh.two(ID_SUPPLY, supply(), (-26, -30), (-26, -26));
    sh.ground((-26, -26), DOWN);
    sh.wire((-26, -30), (-22, -30));
    sh.wire((-22, -30), (-20, -30));
    sh.wire((-20, -30), (-2, -30));
    sh.wire((-2, -30), (40, -30));
    sh.wire((40, -30), (52, -30));
    proof {
        assert(sh.strokes@ =~= old(sh).strokes@ + ms20_supply_strokes());
    }
}

/// The oscillator's square, brought down to millivolts, and how hard it drives.
pub open spec fn ms20_drive_strokes() -> Seq<Stroke> {
    seq![
        Stroke::Wire { a: sheet::at(12, -14), b: sheet::at(12, -14) },
        Stroke::Wire { a: sheet::at(12, -14), b: sheet::at(24, -14) },
        Stroke::Wire { a: sheet::at(24, -14), b: sheet::at(24, 0) },
        Stroke::Two { id: 40, kind: resistor(Real { bits: R_DRIVE_IN }), a: sheet::at(24, 0), b: sheet::at(30, 0) },
        Stroke::Wire { a: sheet::at(30, 0), b: sheet::at(34, 0) },
        Stroke::Placed { id: ID_DRIVE, kind: pot(Real { bits: POT_DRIVE }, Real { bits: DRIVE_WIPER }), at: sheet::at(30, 4), facing: Facing::East, len: 4, mirror: false },
        Stroke::Wire { a: sheet::at(30, 0), b: sheet::at(30, 4) },
        Stroke::Wire { a: sheet::at(32, 2), b: sheet::at(34, 2) },
        Stroke::Wire { a: sheet::at(34, 2), b: sheet::at(34, 4) },
        Stroke::Ground { at: sheet::at(34, 4), dir: RIGHT },
    ]
}

/// Draws the input and its drive.
fn draw_ms20_drive(sh: &mut Sheet)
    requires
        old(sh).wf(),
    ensures
        final(sh).wf(),
        final(sh).strokes@ == old(sh).strokes@ + ms20_drive_strokes(),
{
    sh.wire((12, -14), (12, -14));
    sh.wire((12, -14), (24, -14));
    sh.wire((24, -14), (24, 0));
    sh.two(40, resistor(Real { bits: R_DRIVE_IN }), (24, 0), (30, 0));
    sh.wire((30, 0), (34, 0));
    let dp: Vec<Point> = sh.part(ID_DRIVE, pot(Real { bits: POT_DRIVE }, Real { bits: DRIVE_WIPER }), (30, 4), Facing::East, 4, false);
    sh.wire((30, 0), (30, 4));
    sh.wire(dp[1], (34, 2));
    sh.wire((34, 2), dp[2]);
    sh.ground(dp[2], RIGHT);
    proof {
        assert(sh.strokes@ =~= old(sh).strokes@ + ms20_drive_strokes());
    }
}

/// The noise and its level, into the same node.
pub open spec fn ms20_noise_strokes() -> Seq<Stroke> {
    seq![
        Stroke::Two { id: 42, kind: ElementKind::Noise { volts: Real { bits: NOISE_V }, ohms: Real { bits: OHMS_1K }, seed: NOISE_SEED }, a: sheet::at(18, 14), b: sheet::at(18, 18) },
        Stroke::Ground { at: sheet::at(18, 18), dir: DOWN },
        Stroke::Placed { id: ID_NOISE, kind: pot(Real { bits: OHMS_100K }, Real { bits: NOISE_WIPER }), at: sheet::at(18, 14), facing: Facing::East, len: 4, mirror: false },
        Stroke::Ground { at: sheet::at(22, 14), dir: RIGHT },
        Stroke::Two { id: 45, kind: resistor(Real { bits: R_NOISE_IN }), a: sheet::at(20, 12), b: sheet::at(28, 12) },
        Stroke::Wire { a: sheet::at(28, 12), b: sheet::at(30, 12) },
        Stroke::Wire { a: sheet::at(30, 12), b: sheet::at(30, 6) },
        Stroke::Wire { a: sheet::at(30, 6), b: sheet::at(30, 4) },
    ]
}

/// Draws the noise and its level.
fn draw_ms20_noise(sh: &mut Sheet)
    requires
        old(sh).wf(),
    ensures
        final(sh).wf(),
        final(sh).strokes@ == old(sh).strokes@ + ms20_noise_strokes(),
{
    sh.two(42, ElementKind::Noise { volts: Real { bits: NOISE_V }, ohms: Real { bits: OHMS_1K }, seed: NOISE_SEED }, (18, 14), (18, 18));
    sh.ground((18, 18), DOWN);
    let np: Vec<Point> = sh.part(ID_NOISE, pot(Real { bits: OHMS_100K }, Real { bits: NOISE_WIPER }), (18, 14), Facing::East, 4, false);
    sh.ground(np[2], RIGHT);
    sh.two(45, resistor(Real { bits: R_NOISE_IN }), (20, 12), (28, 12));
    sh.wire((28, 12), (30, 12));
    sh.wire((30, 12), (30, 6));
    sh.wire((30, 6), (30, 4));
    proof {
        assert(sh.strokes@ =~= old(sh).strokes@ + ms20_noise_strokes());
    }
}

/// The cutoff knob across the rail, and the bias that it sets.
pub open spec fn ms20_cutoff_strokes() -> Seq<Stroke> {
    seq![
        Stroke::Placed { id: ID_CUTOFF, kind: pot(Real { bits: POT_CUTOFF }, Real { bits: CUTOFF_WIPER }), at: sheet::at(40, -26), facing: Facing::North, len: 4, mirror: true },
        Stroke::Ground { at: sheet::at(40, -26), dir: DOWN },
        Stroke::Two { id: 51, kind: resistor(Real { bits: R_CUT_BIAS }), a: sheet::at(42, -28), b: sheet::at(42, -8) },
        Stroke::Wire { a: sheet::at(42, -8), b: sheet::at(45, -8) },
    ]
}

/// Draws the cutoff knob and its bias.
fn draw_ms20_cutoff(sh: &mut Sheet)
    requires
        old(sh).wf(),
    ensures
        final(sh).wf(),
        final(sh).strokes@ == old(sh).strokes@ + ms20_cutoff_strokes(),
{
    let cp: Vec<Point> = sh.part(ID_CUTOFF, pot(Real { bits: POT_CUTOFF }, Real { bits: CUTOFF_WIPER }), (40, -26), Facing::North, 4, true);
    sh.ground(cp[0], DOWN);
    sh.two(51, resistor(Real { bits: R_CUT_BIAS }), (42, -28), (42, -8));
    sh.wire((42, -8), (45, -8));
    proof {
        assert(sh.strokes@ =~= old(sh).strokes@ + ms20_cutoff_strokes());
    }
}

/// The core: two integrators, each into a capacitor, in a loop.
pub open spec fn ms20_core_strokes() -> Seq<Stroke> {
    seq![
        Stroke::Placed { id: 52, kind: ElementKind::Ota, at: sheet::at(42, 0), facing: Facing::East, len: 4, mirror: false },
        Stroke::Wire { a: sheet::at(34, 0), b: sheet::at(38, 0) },
        Stroke::Wire { a: sheet::at(38, 0), b: sheet::at(38, -1) },
        Stroke::Wire { a: sheet::at(38, -1), b: sheet::at(42, -1) },
        Stroke::Wire { a: sheet::at(45, -2), b: sheet::at(45, -8) },
        Stroke::Wire { a: sheet::at(45, -8), b: sheet::at(45, -8) },
        Stroke::Two { id: 53, kind: capacitor(Real { bits: C_FILT }), a: sheet::at(46, 0), b: sheet::at(46, 6) },
        Stroke::Ground { at: sheet::at(46, 6), dir: DOWN },
        Stroke::Placed { id: 54, kind: ElementKind::Ota, at: sheet::at(54, 0), facing: Facing::East, len: 4, mirror: false },
        Stroke::Wire { a: sheet::at(46, 0), b: sheet::at(50, 0) },
        Stroke::Wire { a: sheet::at(50, 0), b: sheet::at(50, -1) },
        Stroke::Wire { a: sheet::at(50, -1), b: sheet::at(54, -1) },
        Stroke::Ground { at: sheet::at(54, 1), dir: DOWN },
        Stroke::Wire { a: sheet::at(57, -2), b: sheet::at(57, -8) },
        Stroke::Wire { a: sheet::at(57, -8), b: sheet::at(45, -8) },
        Stroke::Two { id: 55, kind: capacitor(Real { bits: C_FILT }), a: sheet::at(58, 0), b: sheet::at(58, 6) },
        Stroke::Ground { at: sheet::at(58, 6), dir: DOWN },
        Stroke::Wire { a: sheet::at(58, 0), b: sheet::at(62, 0) },
        Stroke::Wire { a: sheet::at(62, 0), b: sheet::at(62, 10) },
        Stroke::Wire { a: sheet::at(62, 10), b: sheet::at(36, 10) },
        Stroke::Wire { a: sheet::at(36, 10), b: sheet::at(36, 1) },
        Stroke::Wire { a: sheet::at(36, 1), b: sheet::at(42, 1) },
    ]
}

/// Draws the core.
fn draw_ms20_core(sh: &mut Sheet)
    requires
        old(sh).wf(),
    ensures
        final(sh).wf(),
        final(sh).strokes@ == old(sh).strokes@ + ms20_core_strokes(),
{
    let i1: Vec<Point> = sh.part(52, ElementKind::Ota, (42, 0), Facing::East, 4, false);
    sh.wire((34, 0), (38, 0));
    sh.wire((38, 0), (38, -1));
    sh.wire((38, -1), i1[0]);
    sh.wire(i1[3], (45, -8));
    sh.wire((45, -8), (45, -8));
    sh.two(53, capacitor(Real { bits: C_FILT }), (46, 0), (46, 6));
    sh.ground((46, 6), DOWN);
    let i2: Vec<Point> = sh.part(54, ElementKind::Ota, (54, 0), Facing::East, 4, false);
    sh.wire((46, 0), (50, 0));
    sh.wire((50, 0), (50, -1));
    sh.wire((50, -1), i2[0]);
    sh.ground(i2[1], DOWN);
    sh.wire(i2[3], (57, -8));
    sh.wire((57, -8), (45, -8));
    sh.two(55, capacitor(Real { bits: C_FILT }), (58, 0), (58, 6));
    sh.ground((58, 6), DOWN);
    sh.wire((58, 0), (62, 0));
    sh.wire((62, 0), (62, 10));
    sh.wire((62, 10), (36, 10));
    sh.wire((36, 10), (36, 1));
    sh.wire((36, 1), i1[1]);
    proof {
        assert(sh.strokes@ =~= old(sh).strokes@ + ms20_core_strokes());
    }
}

/// The damping across the output node, biased from the same knob.
pub open spec fn ms20_damping_strokes() -> Seq<Stroke> {
    seq![
        Stroke::Placed { id: 56, kind: ElementKind::Ota, at: sheet::at(54, -18), facing: Facing::East, len: 4, mirror: false },
        Stroke::Ground { at: sheet::at(54, -19), dir: UP },
        Stroke::Wire { a: sheet::at(58, 0), b: sheet::at(62, 0) },
        Stroke::Wire { a: sheet::at(62, 0), b: sheet::at(62, -17) },
        Stroke::Wire { a: sheet::at(62, -17), b: sheet::at(54, -17) },
        Stroke::Wire { a: sheet::at(58, -18), b: sheet::at(62, -18) },
        Stroke::Wire { a: sheet::at(62, -18), b: sheet::at(62, -17) },
        Stroke::Two { id: 57, kind: resistor(Real { bits: R_DAMP_BIAS }), a: sheet::at(52, -28), b: sheet::at(52, -20) },
        Stroke::Wire { a: sheet::at(42, -28), b: sheet::at(42, -28) },
        Stroke::Wire { a: sheet::at(42, -28), b: sheet::at(52, -28) },
        Stroke::Wire { a: sheet::at(52, -20), b: sheet::at(57, -20) },
    ]
}

/// Draws the damping.
fn draw_ms20_damping(sh: &mut Sheet)
    requires
        old(sh).wf(),
    ensures
        final(sh).wf(),
        final(sh).strokes@ == old(sh).strokes@ + ms20_damping_strokes(),
{
    let damper: Vec<Point> = sh.part(56, ElementKind::Ota, (54, -18), Facing::East, 4, false);
    sh.ground(damper[0], UP);
    sh.wire((58, 0), (62, 0));
    sh.wire((62, 0), (62, -17));
    sh.wire((62, -17), (54, -17));
    sh.wire(damper[2], (62, -18));
    sh.wire((62, -18), (62, -17));
    sh.two(57, resistor(Real { bits: R_DAMP_BIAS }), (52, -28), (52, -20));
    sh.wire((42, -28), (42, -28));
    sh.wire((42, -28), (52, -28));
    sh.wire((52, -20), damper[3]);
    proof {
        assert(sh.strokes@ =~= old(sh).strokes@ + ms20_damping_strokes());
    }
}

/// The gain stage: from millivolts to volts.
pub open spec fn ms20_gain_strokes() -> Seq<Stroke> {
    seq![
        Stroke::Placed { id: 70, kind: opamp(Real { bits: VOLTS_9 }), at: sheet::at(72, 0), facing: Facing::East, len: 6, mirror: false },
        Stroke::Wire { a: sheet::at(62, 0), b: sheet::at(66, 0) },
        Stroke::Wire { a: sheet::at(66, 0), b: sheet::at(66, -1) },
        Stroke::Wire { a: sheet::at(66, -1), b: sheet::at(72, -1) },
        Stroke::Wire { a: sheet::at(78, 0), b: sheet::at(78, 4) },
        Stroke::Two { id: 72, kind: resistor(Real { bits: R_F_GAIN }), a: sheet::at(78, 4), b: sheet::at(70, 4) },
        Stroke::Wire { a: sheet::at(70, 4), b: sheet::at(70, 1) },
        Stroke::Wire { a: sheet::at(70, 1), b: sheet::at(72, 1) },
        Stroke::Two { id: 73, kind: resistor(Real { bits: R_G_GAIN }), a: sheet::at(70, 4), b: sheet::at(70, 8) },
        Stroke::Ground { at: sheet::at(70, 8), dir: DOWN },
    ]
}

/// Draws the gain stage.
fn draw_ms20_gain(sh: &mut Sheet)
    requires
        old(sh).wf(),
    ensures
        final(sh).wf(),
        final(sh).strokes@ == old(sh).strokes@ + ms20_gain_strokes(),
{
    let g: Vec<Point> = sh.part(70, opamp(Real { bits: VOLTS_9 }), (72, 0), Facing::East, 6, false);
    sh.wire((62, 0), (66, 0));
    sh.wire((66, 0), (66, -1));
    sh.wire((66, -1), g[0]);
    sh.wire((78, 0), (78, 4));
    sh.two(72, resistor(Real { bits: R_F_GAIN }), (78, 4), (70, 4));
    sh.wire((70, 4), (70, 1));
    sh.wire((70, 1), g[1]);
    sh.two(73, resistor(Real { bits: R_G_GAIN }), (70, 4), (70, 8));
    sh.ground((70, 8), DOWN);
    proof {
        assert(sh.strokes@ =~= old(sh).strokes@ + ms20_gain_strokes());
    }
}

/// The resonance: how much goes back round the loop, the two diodes that limit it, and the
/// way back.
pub open spec fn ms20_peak_strokes() -> Seq<Stroke> {
    seq![
        Stroke::Placed { id: ID_PEAK, kind: pot(Real { bits: OHMS_100K }, Real { bits: PEAK_WIPER }), at: sheet::at(78, 10), facing: Facing::East, len: 4, mirror: false },
        Stroke::Ground { at: sheet::at(78, 10), dir: DOWN },
        Stroke::Wire { a: sheet::at(78, 0), b: sheet::at(84, 0) },
        Stroke::Wire { a: sheet::at(84, 0), b: sheet::at(84, 10) },
        Stroke::Wire { a: sheet::at(84, 10), b: sheet::at(82, 10) },
        Stroke::Wire { a: sheet::at(80, 8), b: sheet::at(80, 14) },
        Stroke::Wire { a: sheet::at(80, 14), b: sheet::at(74, 14) },
        Stroke::Two { id: 74, kind: ElementKind::Diode, a: sheet::at(74, 14), b: sheet::at(74, 20) },
        Stroke::Two { id: 75, kind: ElementKind::Diode, a: sheet::at(78, 20), b: sheet::at(78, 14) },
        Stroke::Wire { a: sheet::at(74, 14), b: sheet::at(78, 14) },
        Stroke::Wire { a: sheet::at(74, 20), b: sheet::at(78, 20) },
        Stroke::Ground { at: sheet::at(74, 20), dir: DOWN },
        Stroke::Two { id: 76, kind: resistor(Real { bits: R_FEEDBACK }), a: sheet::at(74, 14), b: sheet::at(68, 14) },
        Stroke::Wire { a: sheet::at(68, 14), b: sheet::at(62, 14) },
        Stroke::Wire { a: sheet::at(62, 14), b: sheet::at(62, 10) },
    ]
}

/// Draws the resonance loop.
fn draw_ms20_peak(sh: &mut Sheet)
    requires
        old(sh).wf(),
    ensures
        final(sh).wf(),
        final(sh).strokes@ == old(sh).strokes@ + ms20_peak_strokes(),
{
    let pk: Vec<Point> = sh.part(ID_PEAK, pot(Real { bits: OHMS_100K }, Real { bits: PEAK_WIPER }), (78, 10), Facing::East, 4, false);
    sh.ground(pk[0], DOWN);
    sh.wire((78, 0), (84, 0));
    sh.wire((84, 0), (84, 10));
    sh.wire((84, 10), (82, 10));
    sh.wire(pk[1], (80, 14));
    sh.wire((80, 14), (74, 14));
    sh.two(74, ElementKind::Diode, (74, 14), (74, 20));
    sh.two(75, ElementKind::Diode, (78, 20), (78, 14));
    sh.wire((74, 14), (78, 14));
    sh.wire((74, 20), (78, 20));
    sh.ground((74, 20), DOWN);
    sh.two(76, resistor(Real { bits: R_FEEDBACK }), (74, 14), (68, 14));
    sh.wire((68, 14), (62, 14));
    sh.wire((62, 14), (62, 10));
    proof {
        assert(sh.strokes@ =~= old(sh).strokes@ + ms20_peak_strokes());
    }
}

/// The gain stage into the mixer.
pub open spec fn ms20_output_strokes() -> Seq<Stroke> {
    seq![
        Stroke::Two { id: 77, kind: resistor(Real { bits: R_OUT }), a: sheet::at(78, -4), b: sheet::at(86, -4) },
        Stroke::Wire { a: sheet::at(78, 0), b: sheet::at(78, -4) },
    ]
}

/// Draws the way into the mixer.
fn draw_ms20_output(sh: &mut Sheet)
    requires
        old(sh).wf(),
    ensures
        final(sh).wf(),
        final(sh).strokes@ == old(sh).strokes@ + ms20_output_strokes(),
{
    sh.two(77, resistor(Real { bits: R_OUT }), (78, -4), (86, -4));
    sh.wire((78, 0), (78, -4));
    proof {
        assert(sh.strokes@ =~= old(sh).strokes@ + ms20_output_strokes());
    }
}

/// The last wire into the mixer.
pub open spec fn ms20_sum_strokes() -> Seq<Stroke> {
    seq![
        Stroke::Wire { a: sheet::at(86, -4), b: sheet::at(86, -5) },
        Stroke::Wire { a: sheet::at(86, -5), b: sheet::at(88, -5) },
    ]
}

/// Draws the last wire into the mixer.
fn draw_ms20_sum(sh: &mut Sheet)
    requires
        old(sh).wf(),
    ensures
        final(sh).wf(),
        final(sh).strokes@ == old(sh).strokes@ + ms20_sum_strokes(),
{
    sh.wire((86, -4), (86, -5));
    sh.wire((86, -5), (88, -5));
    proof {
        assert(sh.strokes@ =~= old(sh).strokes@ + ms20_sum_strokes());
    }
}

/// The strokes of the whole room.
pub open spec fn ms20_strokes(v: VcoValues) -> Seq<Stroke> {
    ms20_supply_strokes()
        + modules::vco_strokes(20, sheet::at(-22, -8), RAIL_Y, Real { bits: PITCH_WIPER }, VCO_SEED, v)
        + ms20_drive_strokes()
        + ms20_noise_strokes()
        + ms20_cutoff_strokes()
        + ms20_core_strokes()
        + ms20_damping_strokes()
        + ms20_gain_strokes()
        + ms20_peak_strokes()
        + ms20_output_strokes()
        + modules::mixer_speaker_strokes(
            80,
            ID_SPEAKER,
            sheet::at(88, -4),
            Real { bits: VOLTS_9 },
            Real { bits: RF_MIX },
        )
        + ms20_sum_strokes()
}

/// What is written on the parts that a player touches.
pub open spec fn ms20_legends() -> Seq<Legend> {
    seq![
        (Legend { id: ID_SUPPLY, name: "SUPPLY" }),
        (Legend { id: ID_PITCH, name: "PITCH" }),
        (Legend { id: ID_DRIVE, name: "DRIVE" }),
        (Legend { id: ID_NOISE, name: "NOISE" }),
        (Legend { id: ID_CUTOFF, name: "CUTOFF" }),
        (Legend { id: ID_PEAK, name: "PEAK" }),
    ]
}

/// The scream room: an oscillator and noise through a two-pole filter whose resonance two
/// diodes limit.
pub fn ms20_room_circuit(v: VcoValues) -> (r: Vec<ElementSpec>)
    ensures
        lists::views(r@) == legends::labelled(sheet::picture(ms20_strokes(v), 300), ms20_legends()),
{
    let mut sh: Sheet = Sheet::new();
    draw_ms20_supply(&mut sh);
    let osc: Vco = vco(&mut sh, 20, (-22, -8), RAIL_Y, Real { bits: PITCH_WIPER }, VCO_SEED, v);
    draw_ms20_drive(&mut sh);
    draw_ms20_noise(&mut sh);
    draw_ms20_cutoff(&mut sh);
    draw_ms20_core(&mut sh);
    draw_ms20_damping(&mut sh);
    draw_ms20_gain(&mut sh);
    draw_ms20_peak(&mut sh);
    draw_ms20_output(&mut sh);
    let (sum, out): (Point, Point) = mixer_speaker(
        &mut sh,
        80,
        ID_SPEAKER,
        (88, -4),
        Real { bits: VOLTS_9 },
        Real { bits: RF_MIX },
    );
    draw_ms20_sum(&mut sh);
    proof {
        assert(osc.square == sheet::at(12, -14));
        assert(sum == sheet::at(88, -5) && out == sheet::at(94, -4));
        assert(ms20_supply_strokes().len() == 7);
        assert(modules::vco_strokes(20, sheet::at(-22, -8), RAIL_Y, Real { bits: PITCH_WIPER }, VCO_SEED, v).len() == 42);
        assert(ms20_drive_strokes().len() == 10);
        assert(ms20_noise_strokes().len() == 8);
        assert(ms20_cutoff_strokes().len() == 4);
        assert(ms20_core_strokes().len() == 22);
        assert(ms20_damping_strokes().len() == 11);
        assert(ms20_gain_strokes().len() == 10);
        assert(ms20_peak_strokes().len() == 15);
        assert(ms20_output_strokes().len() == 2);
        assert(modules::mixer_speaker_strokes(
            80,
            ID_SPEAKER,
            sheet::at(88, -4),
            Real { bits: VOLTS_9 },
            Real { bits: RF_MIX },
        ).len() == 8);
        assert(ms20_sum_strokes().len() == 2);
        assert(sh.strokes@ =~= ms20_strokes(v));
    }
    let mut legends: Vec<Legend> = Vec::new();
    legends.push(Legend { id: ID_SUPPLY, name: "SUPPLY" });
    legends.push(Legend { id: ID_PITCH, name: "PITCH" });
    legends.push(Legend { id: ID_DRIVE, name: "DRIVE" });
    legends.push(Legend { id: ID_NOISE, name: "NOISE" });
    legends.push(Legend { id: ID_CUTOFF, name: "CUTOFF" });
    legends.push(Legend { id: ID_PEAK, name: "PEAK" });
    assert(legends@ =~= ms20_legends());
    proof {
        sheet::lemma_numbers_grow(sh.strokes@, 300, sh.strokes@.len() as int);
    }
    let mut els: Vec<ElementSpec> = sh.finish(300);
    name_controls(&mut els, &legends);
    els
}

/// The parts of the scream room have different numbers, and its wires are straight.
pub proof fn law_the_scream_room_is_legal(v: VcoValues)
    ensures
        sheet::legal(legends::labelled(sheet::picture(ms20_strokes(v), 300), ms20_legends())),
{
    let s0 = ms20_supply_strokes();
    let q0 = |x: int| x == 2;
    assert(sheet::neat(s0, q0));
    let t0 = s0;
    let r0 = q0;
    let s1 = modules::vco_strokes(20, sheet::at(-22, -8), RAIL_Y, Real { bits: PITCH_WIPER }, VCO_SEED, v);
    let q1 = |x: int| 20 <= x < 32;
    assert(sheet::neat(s1, q1));
    let t1 = t0 + s1;
    let r1 = |x: int| 2 <= x < 32;
    sheet::lemma_joined_is_neat(t0, s1, r0, q1, r1);
    let s2 = ms20_drive_strokes();
    let q2 = |x: int| 40 <= x < 42;
    assert(sheet::neat(s2, q2));
    let t2 = t1 + s2;
    let r2 = |x: int| 2 <= x < 42;
    sheet::lemma_joined_is_neat(t1, s2, r1, q2, r2);
    let s3 = ms20_noise_strokes();
    let q3 = |x: int| 42 <= x < 46;
    assert(sheet::neat(s3, q3));
    let t3 = t2 + s3;
    let r3 = |x: int| 2 <= x < 46;
    sheet::lemma_joined_is_neat(t2, s3, r2, q3, r3);
    let s4 = ms20_cutoff_strokes();
    let q4 = |x: int| 50 <= x < 52;
    assert(sheet::neat(s4, q4));
    let t4 = t3 + s4;
    let r4 = |x: int| 2 <= x < 52;
    sheet::lemma_joined_is_neat(t3, s4, r3, q4, r4);
    let s5 = ms20_core_strokes();
    let q5 = |x: int| 52 <= x < 56;
    assert(sheet::neat(s5, q5));
    let t5 = t4 + s5;
    let r5 = |x: int| 2 <= x < 56;
    sheet::lemma_joined_is_neat(t4, s5, r4, q5, r5);
    let s6 = ms20_damping_strokes();
    let q6 = |x: int| 56 <= x < 58;
    assert(sheet::neat(s6, q6));
    let t6 = t5 + s6;
    let r6 = |x: int| 2 <= x < 58;
    sheet::lemma_joined_is_neat(t5, s6, r5, q6, r6);
    let s7 = ms20_gain_strokes();
    let q7 = |x: int| x == 70 || 72 <= x < 74;
    assert(sheet::neat(s7, q7));
    let t7 = t6 + s7;
    let r7 = |x: int| 2 <= x < 58 || x == 70 || 72 <= x < 74;
    sheet::lemma_joined_is_neat(t6, s7, r6, q7, r7);
    let s8 = ms20_peak_strokes();
    let q8 = |x: int| x == 71 || 74 <= x < 77;
    assert(sheet::neat(s8, q8));
    let t8 = t7 + s8;
    let r8 = |x: int| 2 <= x < 77;
    sheet::lemma_joined_is_neat(t7, s8, r7, q8, r8);
    let s9 = ms20_output_strokes();
    let q9 = |x: int| x == 77;
    assert(sheet::neat(s9, q9));
    let t9 = t8 + s9;
    let r9 = |x: int| 2 <= x < 78;
    sheet::lemma_joined_is_neat(t8, s9, r8, q9, r9);
    let s10 = modules::mixer_speaker_strokes(80, ID_SPEAKER, sheet::at(88, -4), Real { bits: VOLTS_9 }, Real { bits: RF_MIX });
    let q10 = |x: int| x == 1 || 80 <= x < 82;
    assert(sheet::neat(s10, q10));
    let t10 = t9 + s10;
    let r10 = |x: int| 1 <= x < 82;
    sheet::lemma_joined_is_neat(t9, s10, r9, q10, r10);
    let s11 = ms20_sum_strokes();
    let q11 = |x: int| false;
    assert(sheet::neat(s11, q11));
    let t11 = t10 + s11;
    let r11 = |x: int| 1 <= x < 82;
    sheet::lemma_joined_is_neat(t10, s11, r10, q11, r11);
    assert(t11 == ms20_strokes(v));
    assert(t11.len() <= 1_000);
    sheet::law_neat_strokes_make_a_legal_picture(t11, r11, 300);
}

/// The control panel, over the whole instrument.
pub open spec fn ms20_panels_table() -> Seq<PanelDef> {
    seq![
        legends::heading(-280, -320, 1120, 240, "THE SCREAM"),
    ]
}

/// The control panel, over the whole instrument.
pub fn ms20_panels() -> (r: Vec<PanelDef>)
    ensures
        r@ == ms20_panels_table(),
{
    let mut out: Vec<PanelDef> = Vec::new();
    out.push(boxed(-280, -320, 1120, 240, "THE SCREAM"));
    assert(out@ =~= ms20_panels_table());
    out
}

/// The headings of the blocks, and the plaque.
pub open spec fn ms20_label_boxes_table() -> Seq<PanelDef> {
    seq![
        legends::heading(-230, -205, 150, 50, "VCO  1V/OCT  PITCH"),
        legends::heading(160, 100, 290, 190, "NOISE"),
        legends::heading(230, -150, 350, 60, "INPUT MIX  DRIVE"),
        legends::heading(380, -280, 480, -60, "CUTOFF"),
        legends::heading(400, -50, 630, 115, "2-POLE OTA-C CORE"),
        legends::heading(500, -220, 630, -120, "DAMPING  Q"),
        legends::heading(640, -30, 850, 90, "GAIN  X197"),
        legends::heading(640, 120, 850, 220, "PEAK  DIODE LIMITER"),
        legends::heading(860, -100, 1040, -5, "MIXER + SPEAKER"),
        legends::heading(1140, -300, 1460, -284, "AFTER THE KORG MS-20. TWO"),
        legends::heading(1140, -280, 1460, -264, "POLES IS WHAT AN MS-20"),
        legends::heading(1140, -260, 1460, -244, "FILTER IS, NOT A COMPROMISE"),
        legends::heading(1140, -240, 1460, -224, "- MEASURED -12.2 DB/OCTAVE."),
        legends::heading(1140, -220, 1460, -204, "THE LADDER ROOM IS THE 24."),
        legends::heading(1140, -190, 1460, -174, "THE TWO DIODES ARE REAL AND"),
        legends::heading(1140, -170, 1460, -154, "THEY ARE THE POINT. INERT"),
        legends::heading(1140, -150, 1460, -134, "AT PEAK 0.05 (1.0X), THEY"),
        legends::heading(1140, -130, 1460, -114, "TAKE 6.6X OFF THE LOOP AT"),
        legends::heading(1140, -110, 1460, -94, "0.95. THAT IS THE SCREAM."),
        legends::heading(1140, -80, 1460, -64, "RESONANCE IS A LOOP ROUND"),
        legends::heading(1140, -60, 1460, -44, "THE CORE, AS KORG'S IS, SO"),
        legends::heading(1140, -40, 1460, -24, "THE PASSBAND HOLDS: 0.05 DB"),
        legends::heading(1140, -20, 1460, -4, "OF MOVEMENT DOWN LOW WHILE"),
        legends::heading(1140, 0, 1460, 16, "THE CORNER GAINS 9.4 DB. A"),
        legends::heading(1140, 20, 1460, 36, "LADDER LOSES ITS BASS TO"),
        legends::heading(1140, 40, 1460, 56, "RESONANCE; THIS DOES NOT."),
        legends::heading(1140, 70, 1460, 86, "STAND-IN: THE CORE IS A"),
        legends::heading(1140, 90, 1460, 106, "STATE-VARIABLE OTA PAIR,"),
        legends::heading(1140, 110, 1460, 126, "NOT A SALLEN-KEY ON"),
        legends::heading(1140, 130, 1460, 146, "TRANSISTOR VCRS. SAME TWO"),
        legends::heading(1140, 150, 1460, 166, "POLES, SAME CURRENT LAW,"),
        legends::heading(1140, 170, 1460, 186, "BUT IT IS NOT A KORG35."),
        legends::heading(1140, 200, 1460, 216, "THE VCO IS THIS PROJECT'S"),
        legends::heading(1140, 220, 1460, 236, "OWN, NOT AN MS-20 VCO, AND"),
        legends::heading(1140, 240, 1460, 256, "THERE IS NO ENVELOPE OR"),
        legends::heading(1140, 260, 1460, 276, "VCA. THIS ROOM IS THE"),
        legends::heading(1140, 280, 1460, 296, "FILTER, PLAYED BY HAND."),
    ]
}

/// The headings of the blocks, and the plaque.
pub fn ms20_label_boxes() -> (r: Vec<PanelDef>)
    ensures
        r@ == ms20_label_boxes_table(),
{
    let mut out: Vec<PanelDef> = Vec::new();
    out.push(boxed(-230, -205, 150, 50, "VCO  1V/OCT  PITCH"));
    out.push(boxed(160, 100, 290, 190, "NOISE"));
    out.push(boxed(230, -150, 350, 60, "INPUT MIX  DRIVE"));
    out.push(boxed(380, -280, 480, -60, "CUTOFF"));
    out.push(boxed(400, -50, 630, 115, "2-POLE OTA-C CORE"));
    out.push(boxed(500, -220, 630, -120, "DAMPING  Q"));
    out.push(boxed(640, -30, 850, 90, "GAIN  X197"));
    out.push(boxed(640, 120, 850, 220, "PEAK  DIODE LIMITER"));
    out.push(boxed(860, -100, 1040, -5, "MIXER + SPEAKER"));
    out.push(boxed(1140, -300, 1460, -284, "AFTER THE KORG MS-20. TWO"));
    out.push(boxed(1140, -280, 1460, -264, "POLES IS WHAT AN MS-20"));
    out.push(boxed(1140, -260, 1460, -244, "FILTER IS, NOT A COMPROMISE"));
    out.push(boxed(1140, -240, 1460, -224, "- MEASURED -12.2 DB/OCTAVE."));
    out.push(boxed(1140, -220, 1460, -204, "THE LADDER ROOM IS THE 24."));
    out.push(boxed(1140, -190, 1460, -174, "THE TWO DIODES ARE REAL AND"));
    out.push(boxed(1140, -170, 1460, -154, "THEY ARE THE POINT. INERT"));
    out.push(boxed(1140, -150, 1460, -134, "AT PEAK 0.05 (1.0X), THEY"));
    out.push(boxed(1140, -130, 1460, -114, "TAKE 6.6X OFF THE LOOP AT"));
    out.push(boxed(1140, -110, 1460, -94, "0.95. THAT IS THE SCREAM."));
    out.push(boxed(1140, -80, 1460, -64, "RESONANCE IS A LOOP ROUND"));
    out.push(boxed(1140, -60, 1460, -44, "THE CORE, AS KORG'S IS, SO"));
    out.push(boxed(1140, -40, 1460, -24, "THE PASSBAND HOLDS: 0.05 DB"));
    out.push(boxed(1140, -20, 1460, -4, "OF MOVEMENT DOWN LOW WHILE"));
    out.push(boxed(1140, 0, 1460, 16, "THE CORNER GAINS 9.4 DB. A"));
    out.push(boxed(1140, 20, 1460, 36, "LADDER LOSES ITS BASS TO"));
    out.push(boxed(1140, 40, 1460, 56, "RESONANCE; THIS DOES NOT."));
    out.push(boxed(1140, 70, 1460, 86, "STAND-IN: THE CORE IS A"));
    out.push(boxed(1140, 90, 1460, 106, "STATE-VARIABLE OTA PAIR,"));
    out.push(boxed(1140, 110, 1460, 126, "NOT A SALLEN-KEY ON"));
    out.push(boxed(1140, 130, 1460, 146, "TRANSISTOR VCRS. SAME TWO"));
    out.push(boxed(1140, 150, 1460, 166, "POLES, SAME CURRENT LAW,"));
    out.push(boxed(1140, 170, 1460, 186, "BUT IT IS NOT A KORG35."));
    out.push(boxed(1140, 200, 1460, 216, "THE VCO IS THIS PROJECT'S"));
    out.push(boxed(1140, 220, 1460, 236, "OWN, NOT AN MS-20 VCO, AND"));
    out.push(boxed(1140, 240, 1460, 256, "THERE IS NO ENVELOPE OR"));
    out.push(boxed(1140, 260, 1460, 276, "VCA. THIS ROOM IS THE"));
    out.push(boxed(1140, 280, 1460, 296, "FILTER, PLAYED BY HAND."));
    assert(out@ =~= ms20_label_boxes_table());
    out
}

/// The supply of the scream room is earthed at its foot, and its rail runs from its head.
pub proof fn law_the_supply_is_wired()
    ensures
        ({
            let d = netlist::laid_out(ms20_supply_strokes());
            &&& d.len() == 7
            &&& netlist::has_part(d, 2, ElementKind::VoltageSource { wave: crate::parts::Wave::Sine, dc: Real { bits: 0x4022_0000_0000_0000 }, amp: Real { bits: 0 }, hz: Real { bits: 0 }, phase: Real { bits: 0 } })
            &&& netlist::has_ground(d, sheet::at(-26, -26), 0)
            &&& netlist::on_net(d, 2, 0, sheet::at(-26, -30))
            &&& netlist::joined(d, sheet::at(52, -30), sheet::at(-26, -30))
            &&& netlist::on_net(d, 2, 1, sheet::at(-26, -26))
            &&& netlist::earthed(d, sheet::at(-26, -26))
        }),
{
    let d = netlist::laid_out(ms20_supply_strokes());
    assert(d.len() == 7);
    assert(netlist::has_part(d, 2, ElementKind::VoltageSource { wave: crate::parts::Wave::Sine, dc: Real { bits: 0x4022_0000_0000_0000 }, amp: Real { bits: 0 }, hz: Real { bits: 0 }, phase: Real { bits: 0 } })) by {
        netlist::lemma_part(d, 0);
        assert(d[0].id == 2);
        assert(d[0].kind == (ElementKind::VoltageSource { wave: crate::parts::Wave::Sine, dc: Real { bits: 0x4022_0000_0000_0000 }, amp: Real { bits: 0 }, hz: Real { bits: 0 }, phase: Real { bits: 0 } }));
    }
    assert(netlist::has_ground(d, sheet::at(-26, -26), 0)) by {
        netlist::lemma_ground(d, 1);
        assert(d[1].pins[0] == sheet::at(-26, -26));
    }
    assert(netlist::on_net(d, 2, 0, sheet::at(-26, -30))) by {
        netlist::lemma_pin(d, 0, 2, 0);
        assert(d[0].pins[0] == sheet::at(-26, -30));
    }
    assert(netlist::joined(d, sheet::at(52, -30), sheet::at(-26, -30))) by {
        netlist::lemma_joined_here(d, sheet::at(52, -30));
        netlist::lemma_joined_along(d, sheet::at(52, -30), sheet::at(52, -30), sheet::at(40, -30), 6);
        netlist::lemma_joined_along(d, sheet::at(52, -30), sheet::at(40, -30), sheet::at(-2, -30), 5);
        netlist::lemma_joined_along(d, sheet::at(52, -30), sheet::at(-2, -30), sheet::at(-20, -30), 4);
        netlist::lemma_joined_along(d, sheet::at(52, -30), sheet::at(-20, -30), sheet::at(-22, -30), 3);
        netlist::lemma_joined_along(d, sheet::at(52, -30), sheet::at(-22, -30), sheet::at(-26, -30), 2);
    }
    assert(netlist::on_net(d, 2, 1, sheet::at(-26, -26))) by {
        netlist::lemma_pin(d, 0, 2, 1);
        assert(d[0].pins[1] == sheet::at(-26, -26));
    }
    assert(netlist::earthed(d, sheet::at(-26, -26))) by {
        netlist::lemma_earth(d, 1);
    }
}

/// The oscillator comes through a resistor onto the drive knob, which is a rheostat to
/// ground.
pub proof fn law_the_drive_is_wired()
    ensures
        ({
            let d = netlist::laid_out(ms20_drive_strokes());
            &&& d.len() == 10
            &&& netlist::has_part(d, 40, ElementKind::Resistor { ohms: Real { bits: 0x412e_8480_0000_0000 } })
            &&& netlist::has_part(d, 41, ElementKind::Potentiometer { ohms: Real { bits: 0x40c3_8800_0000_0000 }, wiper: Real { bits: 0x3fc3_3333_3333_3333 } })
            &&& netlist::has_ground(d, sheet::at(34, 4), 3)
            &&& netlist::on_net(d, 40, 0, sheet::at(24, 0))
            &&& netlist::joined(d, sheet::at(12, -14), sheet::at(24, 0))
            &&& netlist::on_net(d, 40, 1, sheet::at(30, 0))
            &&& netlist::on_net(d, 41, 0, sheet::at(30, 0))
            &&& netlist::joined(d, sheet::at(34, 0), sheet::at(30, 0))
            &&& netlist::on_net(d, 41, 1, sheet::at(32, 2))
            &&& netlist::on_net(d, 41, 2, sheet::at(32, 2))
            &&& netlist::earthed(d, sheet::at(32, 2))
        }),
{
    let d = netlist::laid_out(ms20_drive_strokes());
    assert(d.len() == 10);
    assert(netlist::has_part(d, 40, ElementKind::Resistor { ohms: Real { bits: 0x412e_8480_0000_0000 } })) by {
        netlist::lemma_part(d, 3);
        assert(d[3].id == 40);
        assert(d[3].kind == (ElementKind::Resistor { ohms: Real { bits: 0x412e_8480_0000_0000 } }));
    }
    assert(netlist::has_part(d, 41, ElementKind::Potentiometer { ohms: Real { bits: 0x40c3_8800_0000_0000 }, wiper: Real { bits: 0x3fc3_3333_3333_3333 } })) by {
        netlist::lemma_part(d, 5);
        assert(d[5].id == 41);
        assert(d[5].kind == (ElementKind::Potentiometer { ohms: Real { bits: 0x40c3_8800_0000_0000 }, wiper: Real { bits: 0x3fc3_3333_3333_3333 } }));
    }
    assert(netlist::has_ground(d, sheet::at(34, 4), 3)) by {
        netlist::lemma_ground(d, 9);
        assert(d[9].pins[0] == sheet::at(34, 4));
    }
    assert(netlist::on_net(d, 40, 0, sheet::at(24, 0))) by {
        netlist::lemma_pin(d, 3, 40, 0);
        assert(d[3].pins[0] == sheet::at(24, 0));
    }
    assert(netlist::joined(d, sheet::at(12, -14), sheet::at(24, 0))) by {
        netlist::lemma_joined_here(d, sheet::at(12, -14));
        netlist::lemma_joined_along(d, sheet::at(12, -14), sheet::at(12, -14), sheet::at(24, -14), 1);
        netlist::lemma_joined_along(d, sheet::at(12, -14), sheet::at(24, -14), sheet::at(24, 0), 2);
    }
    assert(netlist::on_net(d, 40, 1, sheet::at(30, 0))) by {
        netlist::lemma_pin(d, 3, 40, 1);
        assert(d[3].pins[1] == sheet::at(30, 0));
    }
    assert(netlist::on_net(d, 41, 0, sheet::at(30, 0))) by {
        netlist::lemma_pin(d, 5, 41, 0);
        assert(d[5].pins[0] == sheet::at(30, 4));
        netlist::lemma_pin_along(d, 41, 0, sheet::at(30, 4), sheet::at(30, 0), 6);
    }
    assert(netlist::joined(d, sheet::at(34, 0), sheet::at(30, 0))) by {
        netlist::lemma_joined_here(d, sheet::at(34, 0));
        netlist::lemma_joined_along(d, sheet::at(34, 0), sheet::at(34, 0), sheet::at(30, 0), 4);
    }
    assert(netlist::on_net(d, 41, 1, sheet::at(32, 2))) by {
        netlist::lemma_pin(d, 5, 41, 1);
        assert(d[5].pins[1] == sheet::at(32, 2));
    }
    assert(netlist::on_net(d, 41, 2, sheet::at(32, 2))) by {
        netlist::lemma_pin(d, 5, 41, 2);
        assert(d[5].pins[2] == sheet::at(34, 4));
        netlist::lemma_pin_along(d, 41, 2, sheet::at(34, 4), sheet::at(34, 2), 8);
        netlist::lemma_pin_along(d, 41, 2, sheet::at(34, 2), sheet::at(32, 2), 7);
    }
    assert(netlist::earthed(d, sheet::at(32, 2))) by {
        netlist::lemma_earth(d, 9);
        netlist::lemma_earth_along(d, sheet::at(34, 4), sheet::at(34, 2), 8);
        netlist::lemma_earth_along(d, sheet::at(34, 2), sheet::at(32, 2), 7);
    }
}

/// The noise lies across its knob, and the wiper comes through a resistor onto the drive.
pub proof fn law_the_noise_is_wired()
    ensures
        ({
            let d = netlist::laid_out(ms20_noise_strokes());
            &&& d.len() == 8
            &&& netlist::has_part(d, 42, ElementKind::Noise { volts: Real { bits: 0x4000_0000_0000_0000 }, ohms: Real { bits: 0x408f_4000_0000_0000 }, seed: 0x5320 })
            &&& netlist::has_ground(d, sheet::at(18, 18), 0)
            &&& netlist::has_part(d, 44, ElementKind::Potentiometer { ohms: Real { bits: 0x40f8_6a00_0000_0000 }, wiper: Real { bits: 0x3fc3_3333_3333_3333 } })
            &&& netlist::has_ground(d, sheet::at(22, 14), 3)
            &&& netlist::has_part(d, 45, ElementKind::Resistor { ohms: Real { bits: 0x411c_afc0_0000_0000 } })
            &&& netlist::on_net(d, 42, 0, sheet::at(18, 14))
            &&& netlist::on_net(d, 44, 0, sheet::at(18, 14))
            &&& netlist::on_net(d, 42, 1, sheet::at(18, 18))
            &&& netlist::earthed(d, sheet::at(18, 18))
            &&& netlist::on_net(d, 44, 1, sheet::at(20, 12))
            &&& netlist::on_net(d, 45, 0, sheet::at(20, 12))
            &&& netlist::on_net(d, 44, 2, sheet::at(22, 14))
            &&& netlist::earthed(d, sheet::at(22, 14))
            &&& netlist::on_net(d, 45, 1, sheet::at(28, 12))
            &&& netlist::joined(d, sheet::at(30, 4), sheet::at(28, 12))
        }),
{
    let d = netlist::laid_out(ms20_noise_strokes());
    assert(d.len() == 8);
    assert(netlist::has_part(d, 42, ElementKind::Noise { volts: Real { bits: 0x4000_0000_0000_0000 }, ohms: Real { bits: 0x408f_4000_0000_0000 }, seed: 0x5320 })) by {
        netlist::lemma_part(d, 0);
        assert(d[0].id == 42);
        assert(d[0].kind == (ElementKind::Noise { volts: Real { bits: 0x4000_0000_0000_0000 }, ohms: Real { bits: 0x408f_4000_0000_0000 }, seed: 0x5320 }));
    }
    assert(netlist::has_ground(d, sheet::at(18, 18), 0)) by {
        netlist::lemma_ground(d, 1);
        assert(d[1].pins[0] == sheet::at(18, 18));
    }
    assert(netlist::has_part(d, 44, ElementKind::Potentiometer { ohms: Real { bits: 0x40f8_6a00_0000_0000 }, wiper: Real { bits: 0x3fc3_3333_3333_3333 } })) by {
        netlist::lemma_part(d, 2);
        assert(d[2].id == 44);
        assert(d[2].kind == (ElementKind::Potentiometer { ohms: Real { bits: 0x40f8_6a00_0000_0000 }, wiper: Real { bits: 0x3fc3_3333_3333_3333 } }));
    }
    assert(netlist::has_ground(d, sheet::at(22, 14), 3)) by {
        netlist::lemma_ground(d, 3);
        assert(d[3].pins[0] == sheet::at(22, 14));
    }
    assert(netlist::has_part(d, 45, ElementKind::Resistor { ohms: Real { bits: 0x411c_afc0_0000_0000 } })) by {
        netlist::lemma_part(d, 4);
        assert(d[4].id == 45);
        assert(d[4].kind == (ElementKind::Resistor { ohms: Real { bits: 0x411c_afc0_0000_0000 } }));
    }
    assert(netlist::on_net(d, 42, 0, sheet::at(18, 14))) by {
        netlist::lemma_pin(d, 0, 42, 0);
        assert(d[0].pins[0] == sheet::at(18, 14));
    }
    assert(netlist::on_net(d, 44, 0, sheet::at(18, 14))) by {
        netlist::lemma_pin(d, 2, 44, 0);
        assert(d[2].pins[0] == sheet::at(18, 14));
    }
    assert(netlist::on_net(d, 42, 1, sheet::at(18, 18))) by {
        netlist::lemma_pin(d, 0, 42, 1);
        assert(d[0].pins[1] == sheet::at(18, 18));
    }
    assert(netlist::earthed(d, sheet::at(18, 18))) by {
        netlist::lemma_earth(d, 1);
    }
    assert(netlist::on_net(d, 44, 1, sheet::at(20, 12))) by {
        netlist::lemma_pin(d, 2, 44, 1);
        assert(d[2].pins[1] == sheet::at(20, 12));
    }
    assert(netlist::on_net(d, 45, 0, sheet::at(20, 12))) by {
        netlist::lemma_pin(d, 4, 45, 0);
        assert(d[4].pins[0] == sheet::at(20, 12));
    }
    assert(netlist::on_net(d, 44, 2, sheet::at(22, 14))) by {
        netlist::lemma_pin(d, 2, 44, 2);
        assert(d[2].pins[2] == sheet::at(22, 14));
    }
    assert(netlist::earthed(d, sheet::at(22, 14))) by {
        netlist::lemma_earth(d, 3);
    }
    assert(netlist::on_net(d, 45, 1, sheet::at(28, 12))) by {
        netlist::lemma_pin(d, 4, 45, 1);
        assert(d[4].pins[1] == sheet::at(28, 12));
    }
    assert(netlist::joined(d, sheet::at(30, 4), sheet::at(28, 12))) by {
        netlist::lemma_joined_here(d, sheet::at(30, 4));
        netlist::lemma_joined_along(d, sheet::at(30, 4), sheet::at(30, 4), sheet::at(30, 6), 7);
        netlist::lemma_joined_along(d, sheet::at(30, 4), sheet::at(30, 6), sheet::at(30, 12), 6);
        netlist::lemma_joined_along(d, sheet::at(30, 4), sheet::at(30, 12), sheet::at(28, 12), 5);
    }
}

/// The cutoff knob lies across the supply, and its wiper feeds both stages through one
/// resistor.
pub proof fn law_the_cutoff_is_wired()
    ensures
        ({
            let d = netlist::laid_out(ms20_cutoff_strokes());
            &&& d.len() == 4
            &&& netlist::has_part(d, 50, ElementKind::Potentiometer { ohms: Real { bits: 0x40c3_8800_0000_0000 }, wiper: Real { bits: 0x3fe1_9999_9999_999a } })
            &&& netlist::has_ground(d, sheet::at(40, -26), 0)
            &&& netlist::has_part(d, 51, ElementKind::Resistor { ohms: Real { bits: 0x411c_afc0_0000_0000 } })
            &&& netlist::on_net(d, 50, 0, sheet::at(40, -26))
            &&& netlist::earthed(d, sheet::at(40, -26))
            &&& netlist::on_net(d, 50, 1, sheet::at(42, -28))
            &&& netlist::on_net(d, 51, 0, sheet::at(42, -28))
            &&& netlist::on_net(d, 50, 2, sheet::at(40, -30))
            &&& netlist::on_net(d, 51, 1, sheet::at(42, -8))
            &&& netlist::joined(d, sheet::at(45, -8), sheet::at(42, -8))
        }),
{
    let d = netlist::laid_out(ms20_cutoff_strokes());
    assert(d.len() == 4);
    assert(netlist::has_part(d, 50, ElementKind::Potentiometer { ohms: Real { bits: 0x40c3_8800_0000_0000 }, wiper: Real { bits: 0x3fe1_9999_9999_999a } })) by {
        netlist::lemma_part(d, 0);
        assert(d[0].id == 50);
        assert(d[0].kind == (ElementKind::Potentiometer { ohms: Real { bits: 0x40c3_8800_0000_0000 }, wiper: Real { bits: 0x3fe1_9999_9999_999a } }));
    }
    assert(netlist::has_ground(d, sheet::at(40, -26), 0)) by {
        netlist::lemma_ground(d, 1);
        assert(d[1].pins[0] == sheet::at(40, -26));
    }
    assert(netlist::has_part(d, 51, ElementKind::Resistor { ohms: Real { bits: 0x411c_afc0_0000_0000 } })) by {
        netlist::lemma_part(d, 2);
        assert(d[2].id == 51);
        assert(d[2].kind == (ElementKind::Resistor { ohms: Real { bits: 0x411c_afc0_0000_0000 } }));
    }
    assert(netlist::on_net(d, 50, 0, sheet::at(40, -26))) by {
        netlist::lemma_pin(d, 0, 50, 0);
        assert(d[0].pins[0] == sheet::at(40, -26));
    }
    assert(netlist::earthed(d, sheet::at(40, -26))) by {
        netlist::lemma_earth(d, 1);
    }
    assert(netlist::on_net(d, 50, 1, sheet::at(42, -28))) by {
        netlist::lemma_pin(d, 0, 50, 1);
        assert(d[0].pins[1] == sheet::at(42, -28));
    }
    assert(netlist::on_net(d, 51, 0, sheet::at(42, -28))) by {
        netlist::lemma_pin(d, 2, 51, 0);
        assert(d[2].pins[0] == sheet::at(42, -28));
    }
    assert(netlist::on_net(d, 50, 2, sheet::at(40, -30))) by {
        netlist::lemma_pin(d, 0, 50, 2);
        assert(d[0].pins[2] == sheet::at(40, -30));
    }
    assert(netlist::on_net(d, 51, 1, sheet::at(42, -8))) by {
        netlist::lemma_pin(d, 2, 51, 1);
        assert(d[2].pins[1] == sheet::at(42, -8));
    }
    assert(netlist::joined(d, sheet::at(45, -8), sheet::at(42, -8))) by {
        netlist::lemma_joined_here(d, sheet::at(45, -8));
        netlist::lemma_joined_along(d, sheet::at(45, -8), sheet::at(45, -8), sheet::at(42, -8), 3);
    }
}

/// Two stages follow each other, each onto its capacitor, and the second goes back to the
/// first.
pub proof fn law_the_core_is_wired()
    ensures
        ({
            let d = netlist::laid_out(ms20_core_strokes());
            &&& d.len() == 22
            &&& netlist::has_part(d, 52, ElementKind::Ota)
            &&& netlist::has_part(d, 53, ElementKind::Capacitor { farads: Real { bits: 0x3e57_9f50_5f35_670c } })
            &&& netlist::has_ground(d, sheet::at(46, 6), 0)
            &&& netlist::has_part(d, 54, ElementKind::Ota)
            &&& netlist::has_ground(d, sheet::at(54, 1), 0)
            &&& netlist::has_part(d, 55, ElementKind::Capacitor { farads: Real { bits: 0x3e57_9f50_5f35_670c } })
            &&& netlist::has_ground(d, sheet::at(58, 6), 0)
            &&& netlist::on_net(d, 52, 0, sheet::at(42, -1))
            &&& netlist::joined(d, sheet::at(34, 0), sheet::at(42, -1))
            &&& netlist::on_net(d, 52, 1, sheet::at(42, 1))
            &&& netlist::on_net(d, 54, 2, sheet::at(42, 1))
            &&& netlist::on_net(d, 55, 0, sheet::at(42, 1))
            &&& netlist::on_net(d, 52, 2, sheet::at(46, 0))
            &&& netlist::on_net(d, 53, 0, sheet::at(46, 0))
            &&& netlist::on_net(d, 54, 0, sheet::at(46, 0))
            &&& netlist::on_net(d, 52, 3, sheet::at(45, -2))
            &&& netlist::on_net(d, 54, 3, sheet::at(45, -2))
            &&& netlist::on_net(d, 53, 1, sheet::at(46, 6))
            &&& netlist::earthed(d, sheet::at(46, 6))
            &&& netlist::on_net(d, 54, 1, sheet::at(54, 1))
            &&& netlist::earthed(d, sheet::at(54, 1))
            &&& netlist::on_net(d, 55, 1, sheet::at(58, 6))
            &&& netlist::earthed(d, sheet::at(58, 6))
        }),
{
    let d = netlist::laid_out(ms20_core_strokes());
    assert(d.len() == 22);
    assert(netlist::has_part(d, 52, ElementKind::Ota)) by {
        netlist::lemma_part(d, 0);
        assert(d[0].id == 52);
        assert(d[0].kind == ElementKind::Ota);
    }
    assert(netlist::has_part(d, 53, ElementKind::Capacitor { farads: Real { bits: 0x3e57_9f50_5f35_670c } })) by {
        netlist::lemma_part(d, 6);
        assert(d[6].id == 53);
        assert(d[6].kind == (ElementKind::Capacitor { farads: Real { bits: 0x3e57_9f50_5f35_670c } }));
    }
    assert(netlist::has_ground(d, sheet::at(46, 6), 0)) by {
        netlist::lemma_ground(d, 7);
        assert(d[7].pins[0] == sheet::at(46, 6));
    }
    assert(netlist::has_part(d, 54, ElementKind::Ota)) by {
        netlist::lemma_part(d, 8);
        assert(d[8].id == 54);
        assert(d[8].kind == ElementKind::Ota);
    }
    assert(netlist::has_ground(d, sheet::at(54, 1), 0)) by {
        netlist::lemma_ground(d, 12);
        assert(d[12].pins[0] == sheet::at(54, 1));
    }
    assert(netlist::has_part(d, 55, ElementKind::Capacitor { farads: Real { bits: 0x3e57_9f50_5f35_670c } })) by {
        netlist::lemma_part(d, 15);
        assert(d[15].id == 55);
        assert(d[15].kind == (ElementKind::Capacitor { farads: Real { bits: 0x3e57_9f50_5f35_670c } }));
    }
    assert(netlist::has_ground(d, sheet::at(58, 6), 0)) by {
        netlist::lemma_ground(d, 16);
        assert(d[16].pins[0] == sheet::at(58, 6));
    }
    assert(netlist::on_net(d, 52, 0, sheet::at(42, -1))) by {
        netlist::lemma_pin(d, 0, 52, 0);
        assert(d[0].pins[0] == sheet::at(42, -1));
    }
    assert(netlist::joined(d, sheet::at(34, 0), sheet::at(42, -1))) by {
        netlist::lemma_joined_here(d, sheet::at(34, 0));
        netlist::lemma_joined_along(d, sheet::at(34, 0), sheet::at(34, 0), sheet::at(38, 0), 1);
        netlist::lemma_joined_along(d, sheet::at(34, 0), sheet::at(38, 0), sheet::at(38, -1), 2);
        netlist::lemma_joined_along(d, sheet::at(34, 0), sheet::at(38, -1), sheet::at(42, -1), 3);
    }
    assert(netlist::on_net(d, 52, 1, sheet::at(42, 1))) by {
        netlist::lemma_pin(d, 0, 52, 1);
        assert(d[0].pins[1] == sheet::at(42, 1));
    }
    assert(netlist::on_net(d, 54, 2, sheet::at(42, 1))) by {
        netlist::lemma_pin(d, 8, 54, 2);
        assert(d[8].pins[2] == sheet::at(58, 0));
        netlist::lemma_pin_along(d, 54, 2, sheet::at(58, 0), sheet::at(62, 0), 17);
        netlist::lemma_pin_along(d, 54, 2, sheet::at(62, 0), sheet::at(62, 10), 18);
        netlist::lemma_pin_along(d, 54, 2, sheet::at(62, 10), sheet::at(36, 10), 19);
        netlist::lemma_pin_along(d, 54, 2, sheet::at(36, 10), sheet::at(36, 1), 20);
        netlist::lemma_pin_along(d, 54, 2, sheet::at(36, 1), sheet::at(42, 1), 21);
    }
    assert(netlist::on_net(d, 55, 0, sheet::at(42, 1))) by {
        netlist::lemma_pin(d, 15, 55, 0);
        assert(d[15].pins[0] == sheet::at(58, 0));
        netlist::lemma_pin_along(d, 55, 0, sheet::at(58, 0), sheet::at(62, 0), 17);
        netlist::lemma_pin_along(d, 55, 0, sheet::at(62, 0), sheet::at(62, 10), 18);
        netlist::lemma_pin_along(d, 55, 0, sheet::at(62, 10), sheet::at(36, 10), 19);
        netlist::lemma_pin_along(d, 55, 0, sheet::at(36, 10), sheet::at(36, 1), 20);
        netlist::lemma_pin_along(d, 55, 0, sheet::at(36, 1), sheet::at(42, 1), 21);
    }
    assert(netlist::on_net(d, 52, 2, sheet::at(46, 0))) by {
        netlist::lemma_pin(d, 0, 52, 2);
        assert(d[0].pins[2] == sheet::at(46, 0));
    }
    assert(netlist::on_net(d, 53, 0, sheet::at(46, 0))) by {
        netlist::lemma_pin(d, 6, 53, 0);
        assert(d[6].pins[0] == sheet::at(46, 0));
    }
    assert(netlist::on_net(d, 54, 0, sheet::at(46, 0))) by {
        netlist::lemma_pin(d, 8, 54, 0);
        assert(d[8].pins[0] == sheet::at(54, -1));
        netlist::lemma_pin_along(d, 54, 0, sheet::at(54, -1), sheet::at(50, -1), 11);
        netlist::lemma_pin_along(d, 54, 0, sheet::at(50, -1), sheet::at(50, 0), 10);
        netlist::lemma_pin_along(d, 54, 0, sheet::at(50, 0), sheet::at(46, 0), 9);
    }
    assert(netlist::on_net(d, 52, 3, sheet::at(45, -2))) by {
        netlist::lemma_pin(d, 0, 52, 3);
        assert(d[0].pins[3] == sheet::at(45, -2));
    }
    assert(netlist::on_net(d, 54, 3, sheet::at(45, -2))) by {
        netlist::lemma_pin(d, 8, 54, 3);
        assert(d[8].pins[3] == sheet::at(57, -2));
        netlist::lemma_pin_along(d, 54, 3, sheet::at(57, -2), sheet::at(57, -8), 13);
        netlist::lemma_pin_along(d, 54, 3, sheet::at(57, -8), sheet::at(45, -8), 14);
        netlist::lemma_pin_along(d, 54, 3, sheet::at(45, -8), sheet::at(45, -2), 4);
    }
    assert(netlist::on_net(d, 53, 1, sheet::at(46, 6))) by {
        netlist::lemma_pin(d, 6, 53, 1);
        assert(d[6].pins[1] == sheet::at(46, 6));
    }
    assert(netlist::earthed(d, sheet::at(46, 6))) by {
        netlist::lemma_earth(d, 7);
    }
    assert(netlist::on_net(d, 54, 1, sheet::at(54, 1))) by {
        netlist::lemma_pin(d, 8, 54, 1);
        assert(d[8].pins[1] == sheet::at(54, 1));
    }
    assert(netlist::earthed(d, sheet::at(54, 1))) by {
        netlist::lemma_earth(d, 12);
    }
    assert(netlist::on_net(d, 55, 1, sheet::at(58, 6))) by {
        netlist::lemma_pin(d, 15, 55, 1);
        assert(d[15].pins[1] == sheet::at(58, 6));
    }
    assert(netlist::earthed(d, sheet::at(58, 6))) by {
        netlist::lemma_earth(d, 16);
    }
}

/// The damping stage takes what the second stage gives and gives it back to the same point.
pub proof fn law_the_damping_is_wired()
    ensures
        ({
            let d = netlist::laid_out(ms20_damping_strokes());
            &&& d.len() == 11
            &&& netlist::has_part(d, 56, ElementKind::Ota)
            &&& netlist::has_ground(d, sheet::at(54, -19), 2)
            &&& netlist::has_part(d, 57, ElementKind::Resistor { ohms: Real { bits: 0x412e_8480_0000_0000 } })
            &&& netlist::on_net(d, 56, 0, sheet::at(54, -19))
            &&& netlist::earthed(d, sheet::at(54, -19))
            &&& netlist::on_net(d, 56, 1, sheet::at(54, -17))
            &&& netlist::on_net(d, 56, 2, sheet::at(54, -17))
            &&& netlist::joined(d, sheet::at(58, 0), sheet::at(54, -17))
            &&& netlist::on_net(d, 56, 3, sheet::at(57, -20))
            &&& netlist::on_net(d, 57, 1, sheet::at(57, -20))
            &&& netlist::on_net(d, 57, 0, sheet::at(52, -28))
            &&& netlist::joined(d, sheet::at(42, -28), sheet::at(52, -28))
        }),
{
    let d = netlist::laid_out(ms20_damping_strokes());
    assert(d.len() == 11);
    assert(netlist::has_part(d, 56, ElementKind::Ota)) by {
        netlist::lemma_part(d, 0);
        assert(d[0].id == 56);
        assert(d[0].kind == ElementKind::Ota);
    }
    assert(netlist::has_ground(d, sheet::at(54, -19), 2)) by {
        netlist::lemma_ground(d, 1);
        assert(d[1].pins[0] == sheet::at(54, -19));
    }
    assert(netlist::has_part(d, 57, ElementKind::Resistor { ohms: Real { bits: 0x412e_8480_0000_0000 } })) by {
        netlist::lemma_part(d, 7);
        assert(d[7].id == 57);
        assert(d[7].kind == (ElementKind::Resistor { ohms: Real { bits: 0x412e_8480_0000_0000 } }));
    }
    assert(netlist::on_net(d, 56, 0, sheet::at(54, -19))) by {
        netlist::lemma_pin(d, 0, 56, 0);
        assert(d[0].pins[0] == sheet::at(54, -19));
    }
    assert(netlist::earthed(d, sheet::at(54, -19))) by {
        netlist::lemma_earth(d, 1);
    }
    assert(netlist::on_net(d, 56, 1, sheet::at(54, -17))) by {
        netlist::lemma_pin(d, 0, 56, 1);
        assert(d[0].pins[1] == sheet::at(54, -17));
    }
    assert(netlist::on_net(d, 56, 2, sheet::at(54, -17))) by {
        netlist::lemma_pin(d, 0, 56, 2);
        assert(d[0].pins[2] == sheet::at(58, -18));
        netlist::lemma_pin_along(d, 56, 2, sheet::at(58, -18), sheet::at(62, -18), 5);
        netlist::lemma_pin_along(d, 56, 2, sheet::at(62, -18), sheet::at(62, -17), 6);
        netlist::lemma_pin_along(d, 56, 2, sheet::at(62, -17), sheet::at(54, -17), 4);
    }
    assert(netlist::joined(d, sheet::at(58, 0), sheet::at(54, -17))) by {
        netlist::lemma_joined_here(d, sheet::at(58, 0));
        netlist::lemma_joined_along(d, sheet::at(58, 0), sheet::at(58, 0), sheet::at(62, 0), 2);
        netlist::lemma_joined_along(d, sheet::at(58, 0), sheet::at(62, 0), sheet::at(62, -17), 3);
        netlist::lemma_joined_along(d, sheet::at(58, 0), sheet::at(62, -17), sheet::at(54, -17), 4);
    }
    assert(netlist::on_net(d, 56, 3, sheet::at(57, -20))) by {
        netlist::lemma_pin(d, 0, 56, 3);
        assert(d[0].pins[3] == sheet::at(57, -20));
    }
    assert(netlist::on_net(d, 57, 1, sheet::at(57, -20))) by {
        netlist::lemma_pin(d, 7, 57, 1);
        assert(d[7].pins[1] == sheet::at(52, -20));
        netlist::lemma_pin_along(d, 57, 1, sheet::at(52, -20), sheet::at(57, -20), 10);
    }
    assert(netlist::on_net(d, 57, 0, sheet::at(52, -28))) by {
        netlist::lemma_pin(d, 7, 57, 0);
        assert(d[7].pins[0] == sheet::at(52, -28));
    }
    assert(netlist::joined(d, sheet::at(42, -28), sheet::at(52, -28))) by {
        netlist::lemma_joined_here(d, sheet::at(42, -28));
        netlist::lemma_joined_along(d, sheet::at(42, -28), sheet::at(42, -28), sheet::at(52, -28), 9);
    }
}

/// The amplifier gains by its two resistors.
pub proof fn law_the_gain_is_wired()
    ensures
        ({
            let d = netlist::laid_out(ms20_gain_strokes());
            &&& d.len() == 10
            &&& netlist::has_part(d, 70, ElementKind::OpAmp { rail: Real { bits: 0x4022_0000_0000_0000 }, isc: Real { bits: 0x3f99_9999_9999_999a } })
            &&& netlist::has_part(d, 72, ElementKind::Resistor { ohms: Real { bits: 0x412e_8480_0000_0000 } })
            &&& netlist::has_part(d, 73, ElementKind::Resistor { ohms: Real { bits: 0x40b3_ec00_0000_0000 } })
            &&& netlist::has_ground(d, sheet::at(70, 8), 0)
            &&& netlist::on_net(d, 70, 0, sheet::at(72, -1))
            &&& netlist::joined(d, sheet::at(62, 0), sheet::at(72, -1))
            &&& netlist::on_net(d, 70, 1, sheet::at(72, 1))
            &&& netlist::on_net(d, 72, 1, sheet::at(72, 1))
            &&& netlist::on_net(d, 73, 0, sheet::at(72, 1))
            &&& netlist::on_net(d, 70, 2, sheet::at(78, 0))
            &&& netlist::on_net(d, 72, 0, sheet::at(78, 0))
            &&& netlist::on_net(d, 73, 1, sheet::at(70, 8))
            &&& netlist::earthed(d, sheet::at(70, 8))
        }),
{
    let d = netlist::laid_out(ms20_gain_strokes());
    assert(d.len() == 10);
    assert(netlist::has_part(d, 70, ElementKind::OpAmp { rail: Real { bits: 0x4022_0000_0000_0000 }, isc: Real { bits: 0x3f99_9999_9999_999a } })) by {
        netlist::lemma_part(d, 0);
        assert(d[0].id == 70);
        assert(d[0].kind == (ElementKind::OpAmp { rail: Real { bits: 0x4022_0000_0000_0000 }, isc: Real { bits: 0x3f99_9999_9999_999a } }));
    }
    assert(netlist::has_part(d, 72, ElementKind::Resistor { ohms: Real { bits: 0x412e_8480_0000_0000 } })) by {
        netlist::lemma_part(d, 5);
        assert(d[5].id == 72);
        assert(d[5].kind == (ElementKind::Resistor { ohms: Real { bits: 0x412e_8480_0000_0000 } }));
    }
    assert(netlist::has_part(d, 73, ElementKind::Resistor { ohms: Real { bits: 0x40b3_ec00_0000_0000 } })) by {
        netlist::lemma_part(d, 8);
        assert(d[8].id == 73);
        assert(d[8].kind == (ElementKind::Resistor { ohms: Real { bits: 0x40b3_ec00_0000_0000 } }));
    }
    assert(netlist::has_ground(d, sheet::at(70, 8), 0)) by {
        netlist::lemma_ground(d, 9);
        assert(d[9].pins[0] == sheet::at(70, 8));
    }
    assert(netlist::on_net(d, 70, 0, sheet::at(72, -1))) by {
        netlist::lemma_pin(d, 0, 70, 0);
        assert(d[0].pins[0] == sheet::at(72, -1));
    }
    assert(netlist::joined(d, sheet::at(62, 0), sheet::at(72, -1))) by {
        netlist::lemma_joined_here(d, sheet::at(62, 0));
        netlist::lemma_joined_along(d, sheet::at(62, 0), sheet::at(62, 0), sheet::at(66, 0), 1);
        netlist::lemma_joined_along(d, sheet::at(62, 0), sheet::at(66, 0), sheet::at(66, -1), 2);
        netlist::lemma_joined_along(d, sheet::at(62, 0), sheet::at(66, -1), sheet::at(72, -1), 3);
    }
    assert(netlist::on_net(d, 70, 1, sheet::at(72, 1))) by {
        netlist::lemma_pin(d, 0, 70, 1);
        assert(d[0].pins[1] == sheet::at(72, 1));
    }
    assert(netlist::on_net(d, 72, 1, sheet::at(72, 1))) by {
        netlist::lemma_pin(d, 5, 72, 1);
        assert(d[5].pins[1] == sheet::at(70, 4));
        netlist::lemma_pin_along(d, 72, 1, sheet::at(70, 4), sheet::at(70, 1), 6);
        netlist::lemma_pin_along(d, 72, 1, sheet::at(70, 1), sheet::at(72, 1), 7);
    }
    assert(netlist::on_net(d, 73, 0, sheet::at(72, 1))) by {
        netlist::lemma_pin(d, 8, 73, 0);
        assert(d[8].pins[0] == sheet::at(70, 4));
        netlist::lemma_pin_along(d, 73, 0, sheet::at(70, 4), sheet::at(70, 1), 6);
        netlist::lemma_pin_along(d, 73, 0, sheet::at(70, 1), sheet::at(72, 1), 7);
    }
    assert(netlist::on_net(d, 70, 2, sheet::at(78, 0))) by {
        netlist::lemma_pin(d, 0, 70, 2);
        assert(d[0].pins[2] == sheet::at(78, 0));
    }
    assert(netlist::on_net(d, 72, 0, sheet::at(78, 0))) by {
        netlist::lemma_pin(d, 5, 72, 0);
        assert(d[5].pins[0] == sheet::at(78, 4));
        netlist::lemma_pin_along(d, 72, 0, sheet::at(78, 4), sheet::at(78, 0), 4);
    }
    assert(netlist::on_net(d, 73, 1, sheet::at(70, 8))) by {
        netlist::lemma_pin(d, 8, 73, 1);
        assert(d[8].pins[1] == sheet::at(70, 8));
    }
    assert(netlist::earthed(d, sheet::at(70, 8))) by {
        netlist::lemma_earth(d, 9);
    }
}

/// The peak knob takes the amplifier down to a pair of diodes, and from them back into the
/// second capacitor.
pub proof fn law_the_peak_is_wired()
    ensures
        ({
            let d = netlist::laid_out(ms20_peak_strokes());
            &&& d.len() == 15
            &&& netlist::has_part(d, 71, ElementKind::Potentiometer { ohms: Real { bits: 0x40f8_6a00_0000_0000 }, wiper: Real { bits: 0x3fe1_9999_9999_999a } })
            &&& netlist::has_ground(d, sheet::at(78, 10), 0)
            &&& netlist::has_part(d, 74, ElementKind::Diode)
            &&& netlist::has_part(d, 75, ElementKind::Diode)
            &&& netlist::has_ground(d, sheet::at(74, 20), 0)
            &&& netlist::has_part(d, 76, ElementKind::Resistor { ohms: Real { bits: 0x4132_4f80_0000_0000 } })
            &&& netlist::on_net(d, 71, 0, sheet::at(78, 10))
            &&& netlist::earthed(d, sheet::at(78, 10))
            &&& netlist::on_net(d, 71, 1, sheet::at(80, 8))
            &&& netlist::on_net(d, 74, 0, sheet::at(80, 8))
            &&& netlist::on_net(d, 76, 0, sheet::at(80, 8))
            &&& netlist::on_net(d, 75, 1, sheet::at(80, 8))
            &&& netlist::on_net(d, 71, 2, sheet::at(82, 10))
            &&& netlist::joined(d, sheet::at(78, 0), sheet::at(82, 10))
            &&& netlist::on_net(d, 74, 1, sheet::at(74, 20))
            &&& netlist::on_net(d, 75, 0, sheet::at(74, 20))
            &&& netlist::earthed(d, sheet::at(74, 20))
            &&& netlist::on_net(d, 76, 1, sheet::at(68, 14))
            &&& netlist::joined(d, sheet::at(62, 10), sheet::at(68, 14))
        }),
{
    let d = netlist::laid_out(ms20_peak_strokes());
    assert(d.len() == 15);
    assert(netlist::has_part(d, 71, ElementKind::Potentiometer { ohms: Real { bits: 0x40f8_6a00_0000_0000 }, wiper: Real { bits: 0x3fe1_9999_9999_999a } })) by {
        netlist::lemma_part(d, 0);
        assert(d[0].id == 71);
        assert(d[0].kind == (ElementKind::Potentiometer { ohms: Real { bits: 0x40f8_6a00_0000_0000 }, wiper: Real { bits: 0x3fe1_9999_9999_999a } }));
    }
    assert(netlist::has_ground(d, sheet::at(78, 10), 0)) by {
        netlist::lemma_ground(d, 1);
        assert(d[1].pins[0] == sheet::at(78, 10));
    }
    assert(netlist::has_part(d, 74, ElementKind::Diode)) by {
        netlist::lemma_part(d, 7);
        assert(d[7].id == 74);
        assert(d[7].kind == ElementKind::Diode);
    }
    assert(netlist::has_part(d, 75, ElementKind::Diode)) by {
        netlist::lemma_part(d, 8);
        assert(d[8].id == 75);
        assert(d[8].kind == ElementKind::Diode);
    }
    assert(netlist::has_ground(d, sheet::at(74, 20), 0)) by {
        netlist::lemma_ground(d, 11);
        assert(d[11].pins[0] == sheet::at(74, 20));
    }
    assert(netlist::has_part(d, 76, ElementKind::Resistor { ohms: Real { bits: 0x4132_4f80_0000_0000 } })) by {
        netlist::lemma_part(d, 12);
        assert(d[12].id == 76);
        assert(d[12].kind == (ElementKind::Resistor { ohms: Real { bits: 0x4132_4f80_0000_0000 } }));
    }
    assert(netlist::on_net(d, 71, 0, sheet::at(78, 10))) by {
        netlist::lemma_pin(d, 0, 71, 0);
        assert(d[0].pins[0] == sheet::at(78, 10));
    }
    assert(netlist::earthed(d, sheet::at(78, 10))) by {
        netlist::lemma_earth(d, 1);
    }
    assert(netlist::on_net(d, 71, 1, sheet::at(80, 8))) by {
        netlist::lemma_pin(d, 0, 71, 1);
        assert(d[0].pins[1] == sheet::at(80, 8));
    }
    assert(netlist::on_net(d, 74, 0, sheet::at(80, 8))) by {
        netlist::lemma_pin(d, 7, 74, 0);
        assert(d[7].pins[0] == sheet::at(74, 14));
        netlist::lemma_pin_along(d, 74, 0, sheet::at(74, 14), sheet::at(80, 14), 6);
        netlist::lemma_pin_along(d, 74, 0, sheet::at(80, 14), sheet::at(80, 8), 5);
    }
    assert(netlist::on_net(d, 76, 0, sheet::at(80, 8))) by {
        netlist::lemma_pin(d, 12, 76, 0);
        assert(d[12].pins[0] == sheet::at(74, 14));
        netlist::lemma_pin_along(d, 76, 0, sheet::at(74, 14), sheet::at(80, 14), 6);
        netlist::lemma_pin_along(d, 76, 0, sheet::at(80, 14), sheet::at(80, 8), 5);
    }
    assert(netlist::on_net(d, 75, 1, sheet::at(80, 8))) by {
        netlist::lemma_pin(d, 8, 75, 1);
        assert(d[8].pins[1] == sheet::at(78, 14));
        netlist::lemma_pin_along(d, 75, 1, sheet::at(78, 14), sheet::at(74, 14), 9);
        netlist::lemma_pin_along(d, 75, 1, sheet::at(74, 14), sheet::at(80, 14), 6);
        netlist::lemma_pin_along(d, 75, 1, sheet::at(80, 14), sheet::at(80, 8), 5);
    }
    assert(netlist::on_net(d, 71, 2, sheet::at(82, 10))) by {
        netlist::lemma_pin(d, 0, 71, 2);
        assert(d[0].pins[2] == sheet::at(82, 10));
    }
    assert(netlist::joined(d, sheet::at(78, 0), sheet::at(82, 10))) by {
        netlist::lemma_joined_here(d, sheet::at(78, 0));
        netlist::lemma_joined_along(d, sheet::at(78, 0), sheet::at(78, 0), sheet::at(84, 0), 2);
        netlist::lemma_joined_along(d, sheet::at(78, 0), sheet::at(84, 0), sheet::at(84, 10), 3);
        netlist::lemma_joined_along(d, sheet::at(78, 0), sheet::at(84, 10), sheet::at(82, 10), 4);
    }
    assert(netlist::on_net(d, 74, 1, sheet::at(74, 20))) by {
        netlist::lemma_pin(d, 7, 74, 1);
        assert(d[7].pins[1] == sheet::at(74, 20));
    }
    assert(netlist::on_net(d, 75, 0, sheet::at(74, 20))) by {
        netlist::lemma_pin(d, 8, 75, 0);
        assert(d[8].pins[0] == sheet::at(78, 20));
        netlist::lemma_pin_along(d, 75, 0, sheet::at(78, 20), sheet::at(74, 20), 10);
    }
    assert(netlist::earthed(d, sheet::at(74, 20))) by {
        netlist::lemma_earth(d, 11);
    }
    assert(netlist::on_net(d, 76, 1, sheet::at(68, 14))) by {
        netlist::lemma_pin(d, 12, 76, 1);
        assert(d[12].pins[1] == sheet::at(68, 14));
    }
    assert(netlist::joined(d, sheet::at(62, 10), sheet::at(68, 14))) by {
        netlist::lemma_joined_here(d, sheet::at(62, 10));
        netlist::lemma_joined_along(d, sheet::at(62, 10), sheet::at(62, 10), sheet::at(62, 14), 14);
        netlist::lemma_joined_along(d, sheet::at(62, 10), sheet::at(62, 14), sheet::at(68, 14), 13);
    }
}

/// The amplifier goes to the sum through one resistor.
pub proof fn law_the_output_is_wired()
    ensures
        ({
            let d = netlist::laid_out(ms20_output_strokes());
            &&& d.len() == 2
            &&& netlist::has_part(d, 77, ElementKind::Resistor { ohms: Real { bits: 0x411c_afc0_0000_0000 } })
            &&& netlist::on_net(d, 77, 0, sheet::at(78, -4))
            &&& netlist::joined(d, sheet::at(78, 0), sheet::at(78, -4))
            &&& netlist::on_net(d, 77, 1, sheet::at(86, -4))
        }),
{
    let d = netlist::laid_out(ms20_output_strokes());
    assert(d.len() == 2);
    assert(netlist::has_part(d, 77, ElementKind::Resistor { ohms: Real { bits: 0x411c_afc0_0000_0000 } })) by {
        netlist::lemma_part(d, 0);
        assert(d[0].id == 77);
        assert(d[0].kind == (ElementKind::Resistor { ohms: Real { bits: 0x411c_afc0_0000_0000 } }));
    }
    assert(netlist::on_net(d, 77, 0, sheet::at(78, -4))) by {
        netlist::lemma_pin(d, 0, 77, 0);
        assert(d[0].pins[0] == sheet::at(78, -4));
    }
    assert(netlist::joined(d, sheet::at(78, 0), sheet::at(78, -4))) by {
        netlist::lemma_joined_here(d, sheet::at(78, 0));
        netlist::lemma_joined_along(d, sheet::at(78, 0), sheet::at(78, 0), sheet::at(78, -4), 1);
    }
    assert(netlist::on_net(d, 77, 1, sheet::at(86, -4))) by {
        netlist::lemma_pin(d, 0, 77, 1);
        assert(d[0].pins[1] == sheet::at(86, -4));
    }
}

/// The sum is wired to the output stage.
pub proof fn law_the_sum_is_wired()
    ensures
        ({
            let d = netlist::laid_out(ms20_sum_strokes());
            &&& d.len() == 2
            &&& netlist::joined(d, sheet::at(88, -5), sheet::at(86, -4))
        }),
{
    let d = netlist::laid_out(ms20_sum_strokes());
    assert(d.len() == 2);
    assert(netlist::joined(d, sheet::at(88, -5), sheet::at(86, -4))) by {
        netlist::lemma_joined_here(d, sheet::at(88, -5));
        netlist::lemma_joined_along(d, sheet::at(88, -5), sheet::at(88, -5), sheet::at(86, -5), 1);
        netlist::lemma_joined_along(d, sheet::at(88, -5), sheet::at(86, -5), sheet::at(86, -4), 0);
    }
}

/// The scream room is the supply, the oscillator, the filter and the output stage, in this
/// order and with nothing else.
pub proof fn law_the_scream_room_has_its_blocks(v: VcoValues)
    ensures
        ({
            let all = ms20_strokes(v);
            &&& all.len() == 141
            &&& netlist::placed(all, 0, ms20_supply_strokes())
            &&& netlist::placed(all, 7, modules::vco_strokes(20, sheet::at(-22, -8), (-30) as i32, Real { bits: 0x3fd3_3333_3333_3333 }, 0x2001, v))
            &&& netlist::placed(all, 49, ms20_drive_strokes())
            &&& netlist::placed(all, 59, ms20_noise_strokes())
            &&& netlist::placed(all, 67, ms20_cutoff_strokes())
            &&& netlist::placed(all, 71, ms20_core_strokes())
            &&& netlist::placed(all, 93, ms20_damping_strokes())
            &&& netlist::placed(all, 104, ms20_gain_strokes())
            &&& netlist::placed(all, 114, ms20_peak_strokes())
            &&& netlist::placed(all, 129, ms20_output_strokes())
            &&& netlist::placed(all, 131, modules::mixer_speaker_strokes(80, 1, sheet::at(88, -4), Real { bits: 0x4022_0000_0000_0000 }, Real { bits: 0x40cd_4c00_0000_0000 }))
            &&& netlist::placed(all, 139, ms20_sum_strokes())
        }),
{
    let t0 = ms20_supply_strokes();
    netlist::lemma_placed_here(t0);
    assert(t0.len() == 7);
    let s1 = modules::vco_strokes(20, sheet::at(-22, -8), (-30) as i32, Real { bits: 0x3fd3_3333_3333_3333 }, 0x2001, v);
    assert(s1.len() == 42);
    let t1 = t0 + s1;
    netlist::lemma_placed_last(t0, s1);
    netlist::lemma_placed_before(t0, s1, 0, t0);
    let s2 = ms20_drive_strokes();
    assert(s2.len() == 10);
    let t2 = t1 + s2;
    netlist::lemma_placed_last(t1, s2);
    netlist::lemma_placed_before(t1, s2, 0, t0);
    netlist::lemma_placed_before(t1, s2, 7, s1);
    let s3 = ms20_noise_strokes();
    assert(s3.len() == 8);
    let t3 = t2 + s3;
    netlist::lemma_placed_last(t2, s3);
    netlist::lemma_placed_before(t2, s3, 0, t0);
    netlist::lemma_placed_before(t2, s3, 7, s1);
    netlist::lemma_placed_before(t2, s3, 49, s2);
    let s4 = ms20_cutoff_strokes();
    assert(s4.len() == 4);
    let t4 = t3 + s4;
    netlist::lemma_placed_last(t3, s4);
    netlist::lemma_placed_before(t3, s4, 0, t0);
    netlist::lemma_placed_before(t3, s4, 7, s1);
    netlist::lemma_placed_before(t3, s4, 49, s2);
    netlist::lemma_placed_before(t3, s4, 59, s3);
    let s5 = ms20_core_strokes();
    assert(s5.len() == 22);
    let t5 = t4 + s5;
    netlist::lemma_placed_last(t4, s5);
    netlist::lemma_placed_before(t4, s5, 0, t0);
    netlist::lemma_placed_before(t4, s5, 7, s1);
    netlist::lemma_placed_before(t4, s5, 49, s2);
    netlist::lemma_placed_before(t4, s5, 59, s3);
    netlist::lemma_placed_before(t4, s5, 67, s4);
    let s6 = ms20_damping_strokes();
    assert(s6.len() == 11);
    let t6 = t5 + s6;
    netlist::lemma_placed_last(t5, s6);
    netlist::lemma_placed_before(t5, s6, 0, t0);
    netlist::lemma_placed_before(t5, s6, 7, s1);
    netlist::lemma_placed_before(t5, s6, 49, s2);
    netlist::lemma_placed_before(t5, s6, 59, s3);
    netlist::lemma_placed_before(t5, s6, 67, s4);
    netlist::lemma_placed_before(t5, s6, 71, s5);
    let s7 = ms20_gain_strokes();
    assert(s7.len() == 10);
    let t7 = t6 + s7;
    netlist::lemma_placed_last(t6, s7);
    netlist::lemma_placed_before(t6, s7, 0, t0);
    netlist::lemma_placed_before(t6, s7, 7, s1);
    netlist::lemma_placed_before(t6, s7, 49, s2);
    netlist::lemma_placed_before(t6, s7, 59, s3);
    netlist::lemma_placed_before(t6, s7, 67, s4);
    netlist::lemma_placed_before(t6, s7, 71, s5);
    netlist::lemma_placed_before(t6, s7, 93, s6);
    let s8 = ms20_peak_strokes();
    assert(s8.len() == 15);
    let t8 = t7 + s8;
    netlist::lemma_placed_last(t7, s8);
    netlist::lemma_placed_before(t7, s8, 0, t0);
    netlist::lemma_placed_before(t7, s8, 7, s1);
    netlist::lemma_placed_before(t7, s8, 49, s2);
    netlist::lemma_placed_before(t7, s8, 59, s3);
    netlist::lemma_placed_before(t7, s8, 67, s4);
    netlist::lemma_placed_before(t7, s8, 71, s5);
    netlist::lemma_placed_before(t7, s8, 93, s6);
    netlist::lemma_placed_before(t7, s8, 104, s7);
    let s9 = ms20_output_strokes();
    assert(s9.len() == 2);
    let t9 = t8 + s9;
    netlist::lemma_placed_last(t8, s9);
    netlist::lemma_placed_before(t8, s9, 0, t0);
    netlist::lemma_placed_before(t8, s9, 7, s1);
    netlist::lemma_placed_before(t8, s9, 49, s2);
    netlist::lemma_placed_before(t8, s9, 59, s3);
    netlist::lemma_placed_before(t8, s9, 67, s4);
    netlist::lemma_placed_before(t8, s9, 71, s5);
    netlist::lemma_placed_before(t8, s9, 93, s6);
    netlist::lemma_placed_before(t8, s9, 104, s7);
    netlist::lemma_placed_before(t8, s9, 114, s8);
    let s10 = modules::mixer_speaker_strokes(80, 1, sheet::at(88, -4), Real { bits: 0x4022_0000_0000_0000 }, Real { bits: 0x40cd_4c00_0000_0000 });
    assert(s10.len() == 8);
    let t10 = t9 + s10;
    netlist::lemma_placed_last(t9, s10);
    netlist::lemma_placed_before(t9, s10, 0, t0);
    netlist::lemma_placed_before(t9, s10, 7, s1);
    netlist::lemma_placed_before(t9, s10, 49, s2);
    netlist::lemma_placed_before(t9, s10, 59, s3);
    netlist::lemma_placed_before(t9, s10, 67, s4);
    netlist::lemma_placed_before(t9, s10, 71, s5);
    netlist::lemma_placed_before(t9, s10, 93, s6);
    netlist::lemma_placed_before(t9, s10, 104, s7);
    netlist::lemma_placed_before(t9, s10, 114, s8);
    netlist::lemma_placed_before(t9, s10, 129, s9);
    let s11 = ms20_sum_strokes();
    assert(s11.len() == 2);
    let t11 = t10 + s11;
    netlist::lemma_placed_last(t10, s11);
    netlist::lemma_placed_before(t10, s11, 0, t0);
    netlist::lemma_placed_before(t10, s11, 7, s1);
    netlist::lemma_placed_before(t10, s11, 49, s2);
    netlist::lemma_placed_before(t10, s11, 59, s3);
    netlist::lemma_placed_before(t10, s11, 67, s4);
    netlist::lemma_placed_before(t10, s11, 71, s5);
    netlist::lemma_placed_before(t10, s11, 93, s6);
    netlist::lemma_placed_before(t10, s11, 104, s7);
    netlist::lemma_placed_before(t10, s11, 114, s8);
    netlist::lemma_placed_before(t10, s11, 129, s9);
    netlist::lemma_placed_before(t10, s11, 131, s10);
    assert(t11 == ms20_strokes(v));
}

/// The panel of the scream room lies over these units, under this name.
pub proof fn law_the_scream_panel_is_where_it_is()
    ensures
        ({
            let t = ms20_panels_table();
            &&& t.len() == 1
            &&& (t[0].x0, t[0].y0, t[0].x1, t[0].y1) == ((-280) as i32, (-320) as i32, 1120i32, 240i32)
            &&& t[0].name@ == "THE SCREAM"@
        }),
{
}

/// The headings of the scream room lie over these units, and read so.
pub proof fn law_the_scream_headings_are_where_they_are()
    ensures
        ({
            let t = ms20_label_boxes_table();
            &&& t.len() == 37
            &&& (t[0].x0, t[0].y0, t[0].x1, t[0].y1) == ((-230) as i32, (-205) as i32, 150i32, 50i32)
            &&& t[0].name@ == "VCO  1V/OCT  PITCH"@
            &&& (t[1].x0, t[1].y0, t[1].x1, t[1].y1) == (160i32, 100i32, 290i32, 190i32)
            &&& t[1].name@ == "NOISE"@
            &&& (t[2].x0, t[2].y0, t[2].x1, t[2].y1) == (230i32, (-150) as i32, 350i32, 60i32)
            &&& t[2].name@ == "INPUT MIX  DRIVE"@
            &&& (t[3].x0, t[3].y0, t[3].x1, t[3].y1) == (380i32, (-280) as i32, 480i32, (-60) as i32)
            &&& t[3].name@ == "CUTOFF"@
            &&& (t[4].x0, t[4].y0, t[4].x1, t[4].y1) == (400i32, (-50) as i32, 630i32, 115i32)
            &&& t[4].name@ == "2-POLE OTA-C CORE"@
            &&& (t[5].x0, t[5].y0, t[5].x1, t[5].y1) == (500i32, (-220) as i32, 630i32, (-120) as i32)
            &&& t[5].name@ == "DAMPING  Q"@
            &&& (t[6].x0, t[6].y0, t[6].x1, t[6].y1) == (640i32, (-30) as i32, 850i32, 90i32)
            &&& t[6].name@ == "GAIN  X197"@
            &&& (t[7].x0, t[7].y0, t[7].x1, t[7].y1) == (640i32, 120i32, 850i32, 220i32)
            &&& t[7].name@ == "PEAK  DIODE LIMITER"@
            &&& (t[8].x0, t[8].y0, t[8].x1, t[8].y1) == (860i32, (-100) as i32, 1040i32, (-5) as i32)
            &&& t[8].name@ == "MIXER + SPEAKER"@
            &&& (t[9].x0, t[9].y0, t[9].x1, t[9].y1) == (1140i32, (-300) as i32, 1460i32, (-284) as i32)
            &&& t[9].name@ == "AFTER THE KORG MS-20. TWO"@
            &&& (t[10].x0, t[10].y0, t[10].x1, t[10].y1) == (1140i32, (-280) as i32, 1460i32, (-264) as i32)
            &&& t[10].name@ == "POLES IS WHAT AN MS-20"@
            &&& (t[11].x0, t[11].y0, t[11].x1, t[11].y1) == (1140i32, (-260) as i32, 1460i32, (-244) as i32)
            &&& t[11].name@ == "FILTER IS, NOT A COMPROMISE"@
            &&& (t[12].x0, t[12].y0, t[12].x1, t[12].y1) == (1140i32, (-240) as i32, 1460i32, (-224) as i32)
            &&& t[12].name@ == "- MEASURED -12.2 DB/OCTAVE."@
            &&& (t[13].x0, t[13].y0, t[13].x1, t[13].y1) == (1140i32, (-220) as i32, 1460i32, (-204) as i32)
            &&& t[13].name@ == "THE LADDER ROOM IS THE 24."@
            &&& (t[14].x0, t[14].y0, t[14].x1, t[14].y1) == (1140i32, (-190) as i32, 1460i32, (-174) as i32)
            &&& t[14].name@ == "THE TWO DIODES ARE REAL AND"@
            &&& (t[15].x0, t[15].y0, t[15].x1, t[15].y1) == (1140i32, (-170) as i32, 1460i32, (-154) as i32)
            &&& t[15].name@ == "THEY ARE THE POINT. INERT"@
            &&& (t[16].x0, t[16].y0, t[16].x1, t[16].y1) == (1140i32, (-150) as i32, 1460i32, (-134) as i32)
            &&& t[16].name@ == "AT PEAK 0.05 (1.0X), THEY"@
            &&& (t[17].x0, t[17].y0, t[17].x1, t[17].y1) == (1140i32, (-130) as i32, 1460i32, (-114) as i32)
            &&& t[17].name@ == "TAKE 6.6X OFF THE LOOP AT"@
            &&& (t[18].x0, t[18].y0, t[18].x1, t[18].y1) == (1140i32, (-110) as i32, 1460i32, (-94) as i32)
            &&& t[18].name@ == "0.95. THAT IS THE SCREAM."@
            &&& (t[19].x0, t[19].y0, t[19].x1, t[19].y1) == (1140i32, (-80) as i32, 1460i32, (-64) as i32)
            &&& t[19].name@ == "RESONANCE IS A LOOP ROUND"@
            &&& (t[20].x0, t[20].y0, t[20].x1, t[20].y1) == (1140i32, (-60) as i32, 1460i32, (-44) as i32)
            &&& t[20].name@ == "THE CORE, AS KORG'S IS, SO"@
            &&& (t[21].x0, t[21].y0, t[21].x1, t[21].y1) == (1140i32, (-40) as i32, 1460i32, (-24) as i32)
            &&& t[21].name@ == "THE PASSBAND HOLDS: 0.05 DB"@
            &&& (t[22].x0, t[22].y0, t[22].x1, t[22].y1) == (1140i32, (-20) as i32, 1460i32, (-4) as i32)
            &&& t[22].name@ == "OF MOVEMENT DOWN LOW WHILE"@
            &&& (t[23].x0, t[23].y0, t[23].x1, t[23].y1) == (1140i32, 0i32, 1460i32, 16i32)
            &&& t[23].name@ == "THE CORNER GAINS 9.4 DB. A"@
            &&& (t[24].x0, t[24].y0, t[24].x1, t[24].y1) == (1140i32, 20i32, 1460i32, 36i32)
            &&& t[24].name@ == "LADDER LOSES ITS BASS TO"@
            &&& (t[25].x0, t[25].y0, t[25].x1, t[25].y1) == (1140i32, 40i32, 1460i32, 56i32)
            &&& t[25].name@ == "RESONANCE; THIS DOES NOT."@
            &&& (t[26].x0, t[26].y0, t[26].x1, t[26].y1) == (1140i32, 70i32, 1460i32, 86i32)
            &&& t[26].name@ == "STAND-IN: THE CORE IS A"@
            &&& (t[27].x0, t[27].y0, t[27].x1, t[27].y1) == (1140i32, 90i32, 1460i32, 106i32)
            &&& t[27].name@ == "STATE-VARIABLE OTA PAIR,"@
            &&& (t[28].x0, t[28].y0, t[28].x1, t[28].y1) == (1140i32, 110i32, 1460i32, 126i32)
            &&& t[28].name@ == "NOT A SALLEN-KEY ON"@
            &&& (t[29].x0, t[29].y0, t[29].x1, t[29].y1) == (1140i32, 130i32, 1460i32, 146i32)
            &&& t[29].name@ == "TRANSISTOR VCRS. SAME TWO"@
            &&& (t[30].x0, t[30].y0, t[30].x1, t[30].y1) == (1140i32, 150i32, 1460i32, 166i32)
            &&& t[30].name@ == "POLES, SAME CURRENT LAW,"@
            &&& (t[31].x0, t[31].y0, t[31].x1, t[31].y1) == (1140i32, 170i32, 1460i32, 186i32)
            &&& t[31].name@ == "BUT IT IS NOT A KORG35."@
            &&& (t[32].x0, t[32].y0, t[32].x1, t[32].y1) == (1140i32, 200i32, 1460i32, 216i32)
            &&& t[32].name@ == "THE VCO IS THIS PROJECT'S"@
            &&& (t[33].x0, t[33].y0, t[33].x1, t[33].y1) == (1140i32, 220i32, 1460i32, 236i32)
            &&& t[33].name@ == "OWN, NOT AN MS-20 VCO, AND"@
            &&& (t[34].x0, t[34].y0, t[34].x1, t[34].y1) == (1140i32, 240i32, 1460i32, 256i32)
            &&& t[34].name@ == "THERE IS NO ENVELOPE OR"@
            &&& (t[35].x0, t[35].y0, t[35].x1, t[35].y1) == (1140i32, 260i32, 1460i32, 276i32)
            &&& t[35].name@ == "VCA. THIS ROOM IS THE"@
            &&& (t[36].x0, t[36].y0, t[36].x1, t[36].y1) == (1140i32, 280i32, 1460i32, 296i32)
            &&& t[36].name@ == "FILTER, PLAYED BY HAND."@
        }),
{
}

} // verus!
