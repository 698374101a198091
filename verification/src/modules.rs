//! The blocks that instruments are made of.
//!
//! Each draws itself on a sheet, anchored at a point, with numbers of its own from `id0`
//! on, and tells where it can be connected.
use vstd::prelude::*;

use crate::binary64::Real;
use crate::netlist;
use crate::parts::{ElementKind, Point, Wave};
use crate::sheet::{self, shift, Facing, Sheet, Stroke, DOWN, LEFT, RIGHT, UP};

verus! {

/// Five volts.
pub const VOLTS_5: u64 = 0x4014_0000_0000_0000;

/// Nine volts.
pub const VOLTS_9: u64 = 0x4022_0000_0000_0000;

/// Eight ohms: a speaker.
pub const OHMS_8: u64 = 0x4020_0000_0000_0000;

/// A kilohm.
pub const OHMS_1K: u64 = 0x408f_4000_0000_0000;

/// A hundred kilohms.
pub const OHMS_100K: u64 = 0x40f8_6a00_0000_0000;

/// The most that an amplifier puts out: 25 milliamperes.
pub const OPAMP_ISC: u64 = 0x3f99_9999_9999_999a;

/// The threshold of a transistor switch, in volts.
pub const NMOS_VT: u64 = 0x3ff0_0000_0000_0000;

/// A resistor.
#[verifier::allow_in_spec]
pub fn resistor(ohms: Real) -> (r: ElementKind)
    returns
        (ElementKind::Resistor { ohms }),
{
    ElementKind::Resistor { ohms }
}

/// A capacitor.
#[verifier::allow_in_spec]
pub fn capacitor(farads: Real) -> (r: ElementKind)
    returns
        (ElementKind::Capacitor { farads }),
{
    ElementKind::Capacitor { farads }
}

/// A knob.
#[verifier::allow_in_spec]
pub fn pot(ohms: Real, wiper: Real) -> (r: ElementKind)
    returns
        (ElementKind::Potentiometer { ohms, wiper }),
{
    ElementKind::Potentiometer { ohms, wiper }
}

/// An amplifier.
#[verifier::allow_in_spec]
pub fn opamp(rail: Real) -> (r: ElementKind)
    returns
        (ElementKind::OpAmp { rail, isc: Real { bits: OPAMP_ISC } }),
{
    ElementKind::OpAmp { rail, isc: Real { bits: OPAMP_ISC } }
}

/// A transistor that is used as a resistor.
#[verifier::allow_in_spec]
pub fn nmos(k: Real) -> (r: ElementKind)
    returns
        (ElementKind::Nmos { vt: Real { bits: NMOS_VT }, k }),
{
    ElementKind::Nmos { vt: Real { bits: NMOS_VT }, k }
}

/// A supply of nine volts.
#[verifier::allow_in_spec]
pub fn supply() -> (r: ElementKind)
    returns
        (ElementKind::VoltageSource {
            wave: Wave::Sine,
            dc: Real { bits: VOLTS_9 },
            amp: Real { bits: 0 },
            hz: Real { bits: 0 },
            phase: Real { bits: 0 },
        }),
{
    ElementKind::VoltageSource {
        wave: Wave::Sine,
        dc: Real { bits: VOLTS_9 },
        amp: Real { bits: 0 },
        hz: Real { bits: 0 },
        phase: Real { bits: 0 },
    }
}

/// The values of an oscillator.
#[derive(Clone, Copy, Debug)]
pub struct VcoValues {
    /// From the supply to the pitch knob: how far the knob reaches.
    pub r_span: Real,
    /// From the pitch to the converter: how much an octave is.
    pub r_scale: Real,
    /// From the supply to the converter: where the pitch starts.
    pub r_off: Real,
    /// From the converter to ground.
    pub r_gnd: Real,
    /// The capacitor that the pitch is timed by.
    pub c: Real,
    /// The noise under it, in volts.
    pub dither: Real,
    /// The upper half of the Schmitt trigger's divider.
    pub r_hyst_top: Real,
    /// The lower half.
    pub r_hyst_bot: Real,
}

/// Where an oscillator can be connected.
#[derive(Clone, Copy, Debug)]
pub struct Vco {
    /// The square wave. An amplifier's output, so it can be loaded.
    pub square: Point,
    /// The triangle wave. Whatever hangs on it changes the pitch.
    pub triangle: Point,
    /// The converter's own summing point.
    pub bias: Point,
    /// The pitch: a volt for an octave.
    pub cv: Point,
}

/// The strokes of a voltage-controlled oscillator: a pitch knob and its follower, an
/// exponential converter, an integrator with dither under its capacitor, and a Schmitt
/// trigger round the top.
pub open spec fn vco_strokes(id0: u32, a: Point, rail_y: i32, pitch_wiper: Real, seed: u32, v: VcoValues) -> Seq<Stroke> {
    seq![
        Stroke::Two { id: id0, kind: resistor(v.r_span), a: ((a.0 + 2) as i32, rail_y), b: sheet::shifted(a, 2, -4) },
        Stroke::Placed { id: (id0 + 1) as u32, kind: pot(Real { bits: OHMS_100K }, pitch_wiper), at: sheet::shifted(a, 2, 0), facing: Facing::North, len: 4, mirror: true },
        Stroke::Ground { at: sheet::shifted(a, 2, 0), dir: DOWN },
        Stroke::Placed { id: (id0 + 2) as u32, kind: opamp(Real { bits: VOLTS_9 }), at: sheet::shifted(a, 6, -2), facing: Facing::East, len: 4, mirror: false },
        Stroke::Wire { a: sheet::shifted(a, 4, -2), b: sheet::shifted(a, 4, -3) },
        Stroke::Wire { a: sheet::shifted(a, 4, -3), b: sheet::shifted(a, 6, -3) },
        Stroke::Wire { a: sheet::shifted(a, 10, -2), b: sheet::shifted(a, 10, -1) },
        Stroke::Wire { a: sheet::shifted(a, 10, -1), b: sheet::shifted(a, 6, -1) },
        Stroke::Two { id: (id0 + 3) as u32, kind: resistor(v.r_scale), a: sheet::shifted(a, 13, -2), b: sheet::shifted(a, 17, -2) },
        Stroke::Two { id: (id0 + 4) as u32, kind: resistor(v.r_off), a: ((a.0 + 20) as i32, rail_y), b: sheet::shifted(a, 20, -4) },
        Stroke::Wire { a: sheet::shifted(a, 10, -2), b: sheet::shifted(a, 13, -2) },
        Stroke::Placed { id: (id0 + 5) as u32, kind: ElementKind::Ota, at: sheet::shifted(a, 14, 2), facing: Facing::East, len: 4, mirror: true },
        Stroke::Ground { at: sheet::shifted(a, 14, 1), dir: UP },
        Stroke::Wire { a: sheet::shifted(a, 17, -2), b: sheet::shifted(a, 17, 0) },
        Stroke::Wire { a: sheet::shifted(a, 17, 0), b: sheet::shifted(a, 15, 0) },
        Stroke::Wire { a: sheet::shifted(a, 15, 0), b: sheet::shifted(a, 15, 4) },
        Stroke::Wire { a: sheet::shifted(a, 15, 4), b: sheet::shifted(a, 17, 4) },
        Stroke::Wire { a: sheet::shifted(a, 20, -4), b: sheet::shifted(a, 20, 0) },
        Stroke::Wire { a: sheet::shifted(a, 20, 0), b: sheet::shifted(a, 19, 0) },
        Stroke::Wire { a: sheet::shifted(a, 19, 0), b: sheet::shifted(a, 19, 4) },
        Stroke::Wire { a: sheet::shifted(a, 19, 4), b: sheet::shifted(a, 17, 4) },
        Stroke::Two { id: (id0 + 6) as u32, kind: resistor(v.r_gnd), a: sheet::shifted(a, 17, 4), b: sheet::shifted(a, 17, 7) },
        Stroke::Ground { at: sheet::shifted(a, 17, 7), dir: DOWN },
        Stroke::Two { id: (id0 + 7) as u32, kind: capacitor(v.c), a: sheet::shifted(a, 22, 2), b: sheet::shifted(a, 22, 5) },
        Stroke::Two { id: (id0 + 8) as u32, kind: ElementKind::Noise { volts: v.dither, ohms: Real { bits: OHMS_1K }, seed }, a: sheet::shifted(a, 22, 5), b: sheet::shifted(a, 22, 8) },
        Stroke::Ground { at: sheet::shifted(a, 22, 8), dir: DOWN },
        Stroke::Wire { a: sheet::shifted(a, 18, 2), b: sheet::shifted(a, 22, 2) },
        Stroke::Wire { a: sheet::shifted(a, 22, 2), b: sheet::shifted(a, 24, 2) },
        Stroke::Placed { id: (id0 + 9) as u32, kind: opamp(Real { bits: VOLTS_5 }), at: sheet::shifted(a, 28, -6), facing: Facing::East, len: 6, mirror: false },
        Stroke::Wire { a: sheet::shifted(a, 24, 2), b: sheet::shifted(a, 26, 2) },
        Stroke::Wire { a: sheet::shifted(a, 26, 2), b: sheet::shifted(a, 26, -5) },
        Stroke::Wire { a: sheet::shifted(a, 26, -5), b: sheet::shifted(a, 28, -5) },
        Stroke::Wire { a: sheet::shifted(a, 34, -6), b: sheet::shifted(a, 34, -9) },
        Stroke::Two { id: (id0 + 10) as u32, kind: resistor(v.r_hyst_top), a: sheet::shifted(a, 34, -9), b: sheet::shifted(a, 28, -9) },
        Stroke::Wire { a: sheet::shifted(a, 28, -9), b: sheet::shifted(a, 28, -7) },
        Stroke::Two { id: (id0 + 11) as u32, kind: resistor(v.r_hyst_bot), a: sheet::shifted(a, 26, -7), b: sheet::shifted(a, 28, -7) },
        Stroke::Ground { at: sheet::shifted(a, 26, -7), dir: LEFT },
        Stroke::Wire { a: sheet::shifted(a, 34, -6), b: sheet::shifted(a, 36, -6) },
        Stroke::Wire { a: sheet::shifted(a, 36, -6), b: sheet::shifted(a, 36, 12) },
        Stroke::Wire { a: sheet::shifted(a, 36, 12), b: sheet::shifted(a, 12, 12) },
        Stroke::Wire { a: sheet::shifted(a, 12, 12), b: sheet::shifted(a, 12, 3) },
        Stroke::Wire { a: sheet::shifted(a, 12, 3), b: sheet::shifted(a, 14, 3) },
    ]
}

/// Draws a voltage-controlled oscillator, anchored at `a`, with its two supply taps on the
/// row `rail_y`. It takes twelve numbers.
pub fn vco(sh: &mut Sheet, id0: u32, a: Point, rail_y: i32, pitch_wiper: Real, seed: u32, v: VcoValues) -> (r: Vco)
    requires
        old(sh).wf(),
        sheet::spans(a, 0, -9, 36, 12),
        id0 <= u32::MAX - 11,
    ensures
        final(sh).wf(),
        final(sh).strokes@ == old(sh).strokes@ + vco_strokes(id0, a, rail_y, pitch_wiper, seed, v),
        r.square == sheet::shifted(a, 34, -6),
        r.triangle == sheet::shifted(a, 24, 2),
        r.bias == sheet::shifted(a, 17, 4),
        r.cv == sheet::shifted(a, 10, -2),
{
    sh.two(id0, resistor(v.r_span), (a.0 + 2, rail_y), shift(a, 2, -4));
    let pp: Vec<Point> = sh.part(id0 + 1, pot(Real { bits: OHMS_100K }, pitch_wiper), shift(a, 2, 0), Facing::North, 4, true);
    sh.ground(pp[0], DOWN);
    let f: Vec<Point> = sh.part(id0 + 2, opamp(Real { bits: VOLTS_9 }), shift(a, 6, -2), Facing::East, 4, false);
    sh.wire(pp[1], shift(a, 4, -3));
    sh.wire(shift(a, 4, -3), f[0]);
    sh.wire(f[2], shift(a, 10, -1));
    sh.wire(shift(a, 10, -1), f[1]);
    sh.two(id0 + 3, resistor(v.r_scale), shift(a, 13, -2), shift(a, 17, -2));
    sh.two(id0 + 4, resistor(v.r_off), (a.0 + 20, rail_y), shift(a, 20, -4));
    sh.wire(f[2], shift(a, 13, -2));
    let ota: Vec<Point> = sh.part(id0 + 5, ElementKind::Ota, shift(a, 14, 2), Facing::East, 4, true);
    sh.ground(ota[1], UP);
    sh.wire(shift(a, 17, -2), shift(a, 17, 0));
    sh.wire(shift(a, 17, 0), shift(a, 15, 0));
    sh.wire(shift(a, 15, 0), shift(a, 15, 4));
    sh.wire(shift(a, 15, 4), ota[3]);
    sh.wire(shift(a, 20, -4), shift(a, 20, 0));
    sh.wire(shift(a, 20, 0), shift(a, 19, 0));
    sh.wire(shift(a, 19, 0), shift(a, 19, 4));
    sh.wire(shift(a, 19, 4), ota[3]);
    sh.two(id0 + 6, resistor(v.r_gnd), ota[3], shift(a, 17, 7));
    sh.ground(shift(a, 17, 7), DOWN);
    sh.two(id0 + 7, capacitor(v.c), shift(a, 22, 2), shift(a, 22, 5));
    sh.two(id0 + 8, ElementKind::Noise { volts: v.dither, ohms: Real { bits: OHMS_1K }, seed }, shift(a, 22, 5), shift(a, 22, 8));
    sh.ground(shift(a, 22, 8), DOWN);
    sh.wire(ota[2], shift(a, 22, 2));
    sh.wire(shift(a, 22, 2), shift(a, 24, 2));
    let comparator: Vec<Point> = sh.part(id0 + 9, opamp(Real { bits: VOLTS_5 }), shift(a, 28, -6), Facing::East, 6, false);
    sh.wire(shift(a, 24, 2), shift(a, 26, 2));
    sh.wire(shift(a, 26, 2), shift(a, 26, -5));
    sh.wire(shift(a, 26, -5), comparator[1]);
    sh.wire(comparator[2], shift(a, 34, -9));
    sh.two(id0 + 10, resistor(v.r_hyst_top), shift(a, 34, -9), shift(a, 28, -9));
    sh.wire(shift(a, 28, -9), comparator[0]);
    sh.two(id0 + 11, resistor(v.r_hyst_bot), shift(a, 26, -7), comparator[0]);
    sh.ground(shift(a, 26, -7), LEFT);
    sh.wire(comparator[2], shift(a, 36, -6));
    sh.wire(shift(a, 36, -6), shift(a, 36, 12));
    sh.wire(shift(a, 36, 12), shift(a, 12, 12));
    sh.wire(shift(a, 12, 12), shift(a, 12, 3));
    sh.wire(shift(a, 12, 3), ota[0]);
    proof {
        assert(sh.strokes@ =~= old(sh).strokes@ + vco_strokes(id0, a, rail_y, pitch_wiper, seed, v));
    }
    Vco { square: comparator[2], triangle: shift(a, 24, 2), bias: ota[3], cv: f[2] }
}

/// The strokes of an attack-decay envelope: a diode into a capacitor with a rheostat across
/// it.
pub open spec fn ad_envelope_strokes(id0: u32, a: Point, trig: Point, farads: Real, pot_ohms: Real, wiper: Real) -> Seq<Stroke> {
    seq![
        Stroke::Two { id: id0, kind: ElementKind::Diode, a: trig, b: a },
        Stroke::Wire { a: a, b: sheet::shifted(a, 4, 0) },
        Stroke::Two { id: (id0 + 1) as u32, kind: capacitor(farads), a: sheet::shifted(a, 4, 0), b: sheet::shifted(a, 4, 3) },
        Stroke::Ground { at: sheet::shifted(a, 4, 3), dir: DOWN },
        Stroke::Placed { id: (id0 + 2) as u32, kind: pot(pot_ohms, wiper), at: sheet::shifted(a, 4, 0), facing: Facing::East, len: 4, mirror: false },
        Stroke::Wire { a: sheet::shifted(a, 6, -2), b: sheet::shifted(a, 8, -2) },
        Stroke::Wire { a: sheet::shifted(a, 8, -2), b: sheet::shifted(a, 8, 0) },
        Stroke::Ground { at: sheet::shifted(a, 8, 0), dir: RIGHT },
    ]
}

/// Draws an attack-decay envelope that `trig` sets off, and tells where the envelope is. It
/// takes three numbers.
pub fn ad_envelope(sh: &mut Sheet, id0: u32, a: Point, trig: Point, farads: Real, pot_ohms: Real, wiper: Real) -> (r: Point)
    requires
        old(sh).wf(),
        sheet::spans(a, 0, -2, 8, 3),
        id0 <= u32::MAX - 2,
    ensures
        final(sh).wf(),
        final(sh).strokes@ == old(sh).strokes@ + ad_envelope_strokes(id0, a, trig, farads, pot_ohms, wiper),
        r == sheet::shifted(a, 4, 0),
{
    sh.two(id0, ElementKind::Diode, trig, a);
    sh.wire(a, shift(a, 4, 0));
    sh.two(id0 + 1, capacitor(farads), shift(a, 4, 0), shift(a, 4, 3));
    sh.ground(shift(a, 4, 3), DOWN);
    let d: Vec<Point> = sh.part(id0 + 2, pot(pot_ohms, wiper), shift(a, 4, 0), Facing::East, 4, false);
    sh.wire(d[1], shift(a, 8, -2));
    sh.wire(shift(a, 8, -2), d[2]);
    sh.ground(d[2], RIGHT);
    proof {
        assert(sh.strokes@ =~= old(sh).strokes@ + ad_envelope_strokes(id0, a, trig, farads, pot_ohms, wiper));
    }
    shift(a, 4, 0)
}

/// The strokes of a voltage-controlled amplifier that is one transistor.
pub open spec fn nmos_vca_strokes(id0: u32, a: Point, sig: Point, k: Real, r_ser: Real) -> Seq<Stroke> {
    seq![
        Stroke::Placed { id: id0, kind: nmos(k), at: a, facing: Facing::South, len: 4, mirror: true },
        Stroke::Wire { a: sig, b: sheet::shifted(a, -2, 4) },
        Stroke::Two { id: (id0 + 1) as u32, kind: resistor(r_ser), a: sheet::shifted(a, 2, 4), b: sheet::shifted(a, 8, 4) },
    ]
}

/// Draws a voltage-controlled amplifier for the signal at `sig`, and tells where its gate is
/// and the far end of its series resistor. It takes two numbers.
pub fn nmos_vca(sh: &mut Sheet, id0: u32, a: Point, sig: Point, k: Real, r_ser: Real) -> (r: (Point, Point))
    requires
        old(sh).wf(),
        sheet::spans(a, -2, 0, 8, 4),
        id0 < u32::MAX,
    ensures
        final(sh).wf(),
        final(sh).strokes@ == old(sh).strokes@ + nmos_vca_strokes(id0, a, sig, k, r_ser),
        r == (a, sheet::shifted(a, 8, 4)),
{
    let m: Vec<Point> = sh.part(id0, nmos(k), a, Facing::South, 4, true);
    sh.wire(sig, m[1]);
    sh.two(id0 + 1, resistor(r_ser), m[2], shift(a, 8, 4));
    proof {
        assert(sh.strokes@ =~= old(sh).strokes@ + nmos_vca_strokes(id0, a, sig, k, r_ser));
    }
    (m[0], shift(a, 8, 4))
}

/// The strokes of an output stage: an amplifier that sums currents, and a speaker on it.
pub open spec fn mixer_speaker_strokes(id0: u32, speaker_id: u32, a: Point, rail: Real, rf: Real) -> Seq<Stroke> {
    seq![
        Stroke::Placed { id: id0, kind: opamp(rail), at: a, facing: Facing::East, len: 6, mirror: true },
        Stroke::Ground { at: sheet::shifted(a, 0, 1), dir: DOWN },
        Stroke::Wire { a: sheet::shifted(a, 6, 0), b: sheet::shifted(a, 6, -5) },
        Stroke::Two { id: (id0 + 1) as u32, kind: resistor(rf), a: sheet::shifted(a, 6, -5), b: sheet::shifted(a, 0, -5) },
        Stroke::Wire { a: sheet::shifted(a, 0, -5), b: sheet::shifted(a, 0, -1) },
        Stroke::Wire { a: sheet::shifted(a, 6, 0), b: sheet::shifted(a, 8, 0) },
        Stroke::Two { id: speaker_id, kind: ElementKind::Speaker { ohms: Real { bits: OHMS_8 } }, a: sheet::shifted(a, 8, 0), b: sheet::shifted(a, 12, 0) },
        Stroke::Ground { at: sheet::shifted(a, 12, 0), dir: RIGHT },
    ]
}

/// Draws an output stage, and tells where the currents are summed and where the speaker
/// hangs. It takes two numbers and the speaker's own.
pub fn mixer_speaker(sh: &mut Sheet, id0: u32, speaker_id: u32, a: Point, rail: Real, rf: Real) -> (r: (Point, Point))
    requires
        old(sh).wf(),
        sheet::spans(a, 0, -5, 12, 1),
        id0 < u32::MAX,
    ensures
        final(sh).wf(),
        final(sh).strokes@ == old(sh).strokes@ + mixer_speaker_strokes(id0, speaker_id, a, rail, rf),
        r == (sheet::shifted(a, 0, -1), sheet::shifted(a, 6, 0)),
{
    let m: Vec<Point> = sh.part(id0, opamp(rail), a, Facing::East, 6, true);
    sh.ground(m[0], DOWN);
    sh.wire(m[2], shift(a, 6, -5));
    sh.two(id0 + 1, resistor(rf), shift(a, 6, -5), shift(a, 0, -5));
    sh.wire(shift(a, 0, -5), m[1]);
    sh.wire(m[2], shift(a, 8, 0));
    sh.two(speaker_id, ElementKind::Speaker { ohms: Real { bits: OHMS_8 } }, shift(a, 8, 0), shift(a, 12, 0));
    sh.ground(shift(a, 12, 0), RIGHT);
    proof {
        assert(sh.strokes@ =~= old(sh).strokes@ + mixer_speaker_strokes(id0, speaker_id, a, rail, rf));
    }
    (m[1], m[2])
}

/// The strokes of a timer that gives short triggers: a diode lets the charge current past the
/// rheostat that sets the pace.
pub open spec fn clock_555_strokes(id0: u32, a: Point, rail_pt: Point, ra: Real, r_min: Real, pot_ohms: Real, wiper: Real, farads: Real) -> Seq<Stroke> {
    seq![
        Stroke::Placed { id: id0, kind: ElementKind::Timer555, at: a, facing: Facing::East, len: 4, mirror: false },
        Stroke::Wire { a: rail_pt, b: (a.0, rail_pt.1) },
        Stroke::Wire { a: (a.0, rail_pt.1), b: a },
        Stroke::Ground { at: sheet::shifted(a, 0, 4), dir: DOWN },
        Stroke::Wire { a: sheet::shifted(a, 0, 1), b: sheet::shifted(a, -1, 1) },
        Stroke::Wire { a: sheet::shifted(a, -1, 1), b: sheet::shifted(a, -1, 2) },
        Stroke::Wire { a: sheet::shifted(a, -1, 2), b: sheet::shifted(a, -1, 3) },
        Stroke::Wire { a: sheet::shifted(a, -1, 3), b: sheet::shifted(a, 0, 3) },
        Stroke::Wire { a: (a.0, rail_pt.1), b: ((a.0 + 4) as i32, rail_pt.1) },
        Stroke::Two { id: (id0 + 1) as u32, kind: resistor(ra), a: ((a.0 + 4) as i32, rail_pt.1), b: sheet::shifted(a, 4, 1) },
        Stroke::Wire { a: sheet::shifted(a, 4, 1), b: sheet::shifted(a, 6, 1) },
        Stroke::Two { id: (id0 + 2) as u32, kind: resistor(r_min), a: sheet::shifted(a, 6, 1), b: sheet::shifted(a, 10, 1) },
        Stroke::Placed { id: (id0 + 3) as u32, kind: pot(pot_ohms, wiper), at: sheet::shifted(a, 10, 1), facing: Facing::East, len: 4, mirror: false },
        Stroke::Wire { a: sheet::shifted(a, 12, -1), b: sheet::shifted(a, 14, -1) },
        Stroke::Wire { a: sheet::shifted(a, 14, -1), b: sheet::shifted(a, 14, 1) },
        Stroke::Wire { a: sheet::shifted(a, 14, 1), b: sheet::shifted(a, 14, 8) },
        Stroke::Wire { a: sheet::shifted(a, 14, 8), b: sheet::shifted(a, -1, 8) },
        Stroke::Wire { a: sheet::shifted(a, -1, 8), b: sheet::shifted(a, -1, 3) },
        Stroke::Two { id: (id0 + 4) as u32, kind: ElementKind::Diode, a: sheet::shifted(a, 6, 1), b: sheet::shifted(a, 6, 8) },
        Stroke::Wire { a: sheet::shifted(a, 6, 8), b: sheet::shifted(a, -1, 8) },
        Stroke::Two { id: (id0 + 5) as u32, kind: capacitor(farads), a: sheet::shifted(a, -3, 8), b: sheet::shifted(a, -1, 8) },
        Stroke::Ground { at: sheet::shifted(a, -3, 8), dir: LEFT },
    ]
}

/// Draws a timer that gives short triggers, supplied from `rail_pt`, and tells where its
/// output is. It takes six numbers; the knob takes the fourth.
pub fn clock_555(sh: &mut Sheet, id0: u32, a: Point, rail_pt: Point, ra: Real, r_min: Real, pot_ohms: Real, wiper: Real, farads: Real) -> (r: Point)
    requires
        old(sh).wf(),
        sheet::spans(a, -3, -1, 14, 8),
        id0 <= u32::MAX - 5,
    ensures
        final(sh).wf(),
        final(sh).strokes@ == old(sh).strokes@ + clock_555_strokes(id0, a, rail_pt, ra, r_min, pot_ohms, wiper, farads),
        r == sheet::shifted(a, 4, 3),
{
    let d: Vec<Point> = sh.part(id0, ElementKind::Timer555, a, Facing::East, 4, false);
    sh.wire(rail_pt, (a.0, rail_pt.1));
    sh.wire((a.0, rail_pt.1), d[0]);
    sh.ground(d[1], DOWN);
    sh.wire(d[2], shift(a, -1, 1));
    sh.wire(shift(a, -1, 1), shift(a, -1, 2));
    sh.wire(shift(a, -1, 2), shift(a, -1, 3));
    sh.wire(shift(a, -1, 3), d[3]);
    sh.wire((a.0, rail_pt.1), (a.0 + 4, rail_pt.1));
    sh.two(id0 + 1, resistor(ra), (a.0 + 4, rail_pt.1), d[5]);
    sh.wire(d[5], shift(a, 6, 1));
    sh.two(id0 + 2, resistor(r_min), shift(a, 6, 1), shift(a, 10, 1));
    let pp: Vec<Point> = sh.part(id0 + 3, pot(pot_ohms, wiper), shift(a, 10, 1), Facing::East, 4, false);
    sh.wire(pp[1], shift(a, 14, -1));
    sh.wire(shift(a, 14, -1), pp[2]);
    sh.wire(pp[2], shift(a, 14, 8));
    sh.wire(shift(a, 14, 8), shift(a, -1, 8));
    sh.wire(shift(a, -1, 8), shift(a, -1, 3));
    sh.two(id0 + 4, ElementKind::Diode, shift(a, 6, 1), shift(a, 6, 8));
    sh.wire(shift(a, 6, 8), shift(a, -1, 8));
    sh.two(id0 + 5, capacitor(farads), shift(a, -3, 8), shift(a, -1, 8));
    sh.ground(shift(a, -3, 8), LEFT);
    proof {
        assert(sh.strokes@ =~= old(sh).strokes@ + clock_555_strokes(id0, a, rail_pt, ra, r_min, pot_ohms, wiper, farads));
    }
    d[4]
}

/// The oscillator's wires are straight, and its parts have twelve different numbers from
/// `id0` on, wherever it is drawn.
pub proof fn law_the_oscillator_is_well_drawn(
    id0: u32,
    a: Point,
    rail_y: i32,
    pitch_wiper: Real,
    seed: u32,
    v: VcoValues,
)
    requires
        sheet::spans(a, 0, -9, 36, 12),
        id0 <= u32::MAX - 11,
    ensures
        sheet::all_straight(vco_strokes(id0, a, rail_y, pitch_wiper, seed, v)),
        sheet::named_apart(vco_strokes(id0, a, rail_y, pitch_wiper, seed, v)),
        forall|i: int|
            #![trigger vco_strokes(id0, a, rail_y, pitch_wiper, seed, v)[i]]
            0 <= i < vco_strokes(id0, a, rail_y, pitch_wiper, seed, v).len() && sheet::own_id(
                vco_strokes(id0, a, rail_y, pitch_wiper, seed, v)[i],
            ) is Some ==> id0 <= sheet::own_id(vco_strokes(id0, a, rail_y, pitch_wiper, seed, v)[i])->0
                <= id0 + 11,
{
    let s = vco_strokes(id0, a, rail_y, pitch_wiper, seed, v);
    assert(s.len() == 42);
}

/// The output stage's wires are straight, and its parts have different numbers where the
/// speaker's is not one of the stage's own.
pub proof fn law_the_output_stage_is_well_drawn(
    id0: u32,
    speaker_id: u32,
    a: Point,
    rail: Real,
    rf: Real,
)
    requires
        sheet::spans(a, 0, -5, 12, 1),
        id0 < u32::MAX,
        speaker_id != id0,
        speaker_id != id0 + 1,
    ensures
        sheet::all_straight(mixer_speaker_strokes(id0, speaker_id, a, rail, rf)),
        sheet::named_apart(mixer_speaker_strokes(id0, speaker_id, a, rail, rf)),
{
}

/// The timer's wires are straight, and its parts have different numbers, wherever it is
/// drawn and wherever it is supplied from.
pub proof fn law_the_timer_is_well_drawn(
    id0: u32,
    a: Point,
    rail_pt: Point,
    ra: Real,
    r_min: Real,
    pot_ohms: Real,
    wiper: Real,
    farads: Real,
)
    requires
        sheet::spans(a, -3, -1, 14, 8),
        id0 <= u32::MAX - 5,
    ensures
        sheet::all_straight(clock_555_strokes(id0, a, rail_pt, ra, r_min, pot_ohms, wiper, farads)),
        sheet::named_apart(clock_555_strokes(id0, a, rail_pt, ra, r_min, pot_ohms, wiper, farads)),
{
}

/// The oscillator is wired as one: the pitch knob between its two resistors and ground, its
/// wiper on the follower; the follower into the converter, with the offset and the ground
/// resistor; the amplifier into the capacitor over the noise; the trigger with its divider on its
/// own output, and that output back into the amplifier.
pub proof fn law_the_oscillator_is_wired(id0: u32, a: Point, rail_y: i32, pitch_wiper: Real, seed: u32, v: VcoValues)
    requires
        sheet::spans(a, 0, -9, 36, 12),
        id0 <= u32::MAX - 11,
    ensures
        ({
            let d = netlist::laid_out(vco_strokes(id0, a, rail_y, pitch_wiper, seed, v));
            &&& d.len() == 42
            &&& netlist::has_part(d, id0, ElementKind::Resistor { ohms: v.r_span })
            &&& netlist::has_part(d, (id0 + 1) as u32, ElementKind::Potentiometer { ohms: Real { bits: 0x40f8_6a00_0000_0000 }, wiper: pitch_wiper })
            &&& netlist::has_ground(d, sheet::shifted(a, 2, 0), 0)
            &&& netlist::has_part(d, (id0 + 2) as u32, ElementKind::OpAmp { rail: Real { bits: 0x4022_0000_0000_0000 }, isc: Real { bits: 0x3f99_9999_9999_999a } })
            &&& netlist::has_part(d, (id0 + 3) as u32, ElementKind::Resistor { ohms: v.r_scale })
            &&& netlist::has_part(d, (id0 + 4) as u32, ElementKind::Resistor { ohms: v.r_off })
            &&& netlist::has_part(d, (id0 + 5) as u32, ElementKind::Ota)
            &&& netlist::has_ground(d, sheet::shifted(a, 14, 1), 2)
            &&& netlist::has_part(d, (id0 + 6) as u32, ElementKind::Resistor { ohms: v.r_gnd })
            &&& netlist::has_ground(d, sheet::shifted(a, 17, 7), 0)
            &&& netlist::has_part(d, (id0 + 7) as u32, ElementKind::Capacitor { farads: v.c })
            &&& netlist::has_part(d, (id0 + 8) as u32, ElementKind::Noise { volts: v.dither, ohms: Real { bits: 0x408f_4000_0000_0000 }, seed })
            &&& netlist::has_ground(d, sheet::shifted(a, 22, 8), 0)
            &&& netlist::has_part(d, (id0 + 9) as u32, ElementKind::OpAmp { rail: Real { bits: 0x4014_0000_0000_0000 }, isc: Real { bits: 0x3f99_9999_9999_999a } })
            &&& netlist::has_part(d, (id0 + 10) as u32, ElementKind::Resistor { ohms: v.r_hyst_top })
            &&& netlist::has_part(d, (id0 + 11) as u32, ElementKind::Resistor { ohms: v.r_hyst_bot })
            &&& netlist::has_ground(d, sheet::shifted(a, 26, -7), 1)
            &&& netlist::on_net(d, id0, 0, ((a.0 + 2) as i32, rail_y))
            &&& netlist::on_net(d, id0, 1, sheet::shifted(a, 2, -4))
            &&& netlist::on_net(d, (id0 + 1) as u32, 2, sheet::shifted(a, 2, -4))
            &&& netlist::on_net(d, (id0 + 1) as u32, 0, sheet::shifted(a, 2, 0))
            &&& netlist::earthed(d, sheet::shifted(a, 2, 0))
            &&& netlist::on_net(d, (id0 + 1) as u32, 1, sheet::shifted(a, 4, -2))
            &&& netlist::on_net(d, (id0 + 2) as u32, 0, sheet::shifted(a, 4, -2))
            &&& netlist::on_net(d, (id0 + 2) as u32, 1, sheet::shifted(a, 6, -1))
            &&& netlist::on_net(d, (id0 + 2) as u32, 2, sheet::shifted(a, 6, -1))
            &&& netlist::on_net(d, (id0 + 3) as u32, 0, sheet::shifted(a, 6, -1))
            &&& netlist::on_net(d, (id0 + 3) as u32, 1, sheet::shifted(a, 17, -2))
            &&& netlist::on_net(d, (id0 + 5) as u32, 3, sheet::shifted(a, 17, -2))
            &&& netlist::on_net(d, (id0 + 6) as u32, 0, sheet::shifted(a, 17, -2))
            &&& netlist::on_net(d, (id0 + 4) as u32, 1, sheet::shifted(a, 17, -2))
            &&& netlist::on_net(d, (id0 + 4) as u32, 0, ((a.0 + 20) as i32, rail_y))
            &&& netlist::on_net(d, (id0 + 5) as u32, 0, sheet::shifted(a, 14, 3))
            &&& netlist::on_net(d, (id0 + 9) as u32, 2, sheet::shifted(a, 14, 3))
            &&& netlist::on_net(d, (id0 + 10) as u32, 0, sheet::shifted(a, 14, 3))
            &&& netlist::on_net(d, (id0 + 5) as u32, 1, sheet::shifted(a, 14, 1))
            &&& netlist::earthed(d, sheet::shifted(a, 14, 1))
            &&& netlist::on_net(d, (id0 + 5) as u32, 2, sheet::shifted(a, 18, 2))
            &&& netlist::on_net(d, (id0 + 7) as u32, 0, sheet::shifted(a, 18, 2))
            &&& netlist::on_net(d, (id0 + 9) as u32, 1, sheet::shifted(a, 18, 2))
            &&& netlist::on_net(d, (id0 + 6) as u32, 1, sheet::shifted(a, 17, 7))
            &&& netlist::earthed(d, sheet::shifted(a, 17, 7))
            &&& netlist::on_net(d, (id0 + 7) as u32, 1, sheet::shifted(a, 22, 5))
            &&& netlist::on_net(d, (id0 + 8) as u32, 0, sheet::shifted(a, 22, 5))
            &&& netlist::on_net(d, (id0 + 8) as u32, 1, sheet::shifted(a, 22, 8))
            &&& netlist::earthed(d, sheet::shifted(a, 22, 8))
            &&& netlist::on_net(d, (id0 + 9) as u32, 0, sheet::shifted(a, 28, -7))
            &&& netlist::on_net(d, (id0 + 11) as u32, 1, sheet::shifted(a, 28, -7))
            &&& netlist::on_net(d, (id0 + 10) as u32, 1, sheet::shifted(a, 28, -7))
            &&& netlist::on_net(d, (id0 + 11) as u32, 0, sheet::shifted(a, 26, -7))
            &&& netlist::earthed(d, sheet::shifted(a, 26, -7))
        }),
{
    let d = netlist::laid_out(vco_strokes(id0, a, rail_y, pitch_wiper, seed, v));
    assert(d.len() == 42);
    assert(netlist::has_part(d, id0, ElementKind::Resistor { ohms: v.r_span })) by {
        netlist::lemma_part(d, 0);
        assert(d[0].id == id0);
        assert(d[0].kind == (ElementKind::Resistor { ohms: v.r_span }));
    }
    assert(netlist::has_part(d, (id0 + 1) as u32, ElementKind::Potentiometer { ohms: Real { bits: 0x40f8_6a00_0000_0000 }, wiper: pitch_wiper })) by {
        netlist::lemma_part(d, 1);
        assert(d[1].id == (id0 + 1) as u32);
        assert(d[1].kind == (ElementKind::Potentiometer { ohms: Real { bits: 0x40f8_6a00_0000_0000 }, wiper: pitch_wiper }));
    }
    assert(netlist::has_ground(d, sheet::shifted(a, 2, 0), 0)) by {
        netlist::lemma_ground(d, 2);
        assert(d[2].pins[0] == sheet::shifted(a, 2, 0));
    }
    assert(netlist::has_part(d, (id0 + 2) as u32, ElementKind::OpAmp { rail: Real { bits: 0x4022_0000_0000_0000 }, isc: Real { bits: 0x3f99_9999_9999_999a } })) by {
        netlist::lemma_part(d, 3);
        assert(d[3].id == (id0 + 2) as u32);
        assert(d[3].kind == (ElementKind::OpAmp { rail: Real { bits: 0x4022_0000_0000_0000 }, isc: Real { bits: 0x3f99_9999_9999_999a } }));
    }
    assert(netlist::has_part(d, (id0 + 3) as u32, ElementKind::Resistor { ohms: v.r_scale })) by {
        netlist::lemma_part(d, 8);
        assert(d[8].id == (id0 + 3) as u32);
        assert(d[8].kind == (ElementKind::Resistor { ohms: v.r_scale }));
    }
    assert(netlist::has_part(d, (id0 + 4) as u32, ElementKind::Resistor { ohms: v.r_off })) by {
        netlist::lemma_part(d, 9);
        assert(d[9].id == (id0 + 4) as u32);
        assert(d[9].kind == (ElementKind::Resistor { ohms: v.r_off }));
    }
    assert(netlist::has_part(d, (id0 + 5) as u32, ElementKind::Ota)) by {
        netlist::lemma_part(d, 11);
        assert(d[11].id == (id0 + 5) as u32);
        assert(d[11].kind == ElementKind::Ota);
    }
    assert(netlist::has_ground(d, sheet::shifted(a, 14, 1), 2)) by {
        netlist::lemma_ground(d, 12);
        assert(d[12].pins[0] == sheet::shifted(a, 14, 1));
    }
    assert(netlist::has_part(d, (id0 + 6) as u32, ElementKind::Resistor { ohms: v.r_gnd })) by {
        netlist::lemma_part(d, 21);
        assert(d[21].id == (id0 + 6) as u32);
        assert(d[21].kind == (ElementKind::Resistor { ohms: v.r_gnd }));
    }
    assert(netlist::has_ground(d, sheet::shifted(a, 17, 7), 0)) by {
        netlist::lemma_ground(d, 22);
        assert(d[22].pins[0] == sheet::shifted(a, 17, 7));
    }
    assert(netlist::has_part(d, (id0 + 7) as u32, ElementKind::Capacitor { farads: v.c })) by {
        netlist::lemma_part(d, 23);
        assert(d[23].id == (id0 + 7) as u32);
        assert(d[23].kind == (ElementKind::Capacitor { farads: v.c }));
    }
    assert(netlist::has_part(d, (id0 + 8) as u32, ElementKind::Noise { volts: v.dither, ohms: Real { bits: 0x408f_4000_0000_0000 }, seed })) by {
        netlist::lemma_part(d, 24);
        assert(d[24].id == (id0 + 8) as u32);
        assert(d[24].kind == (ElementKind::Noise { volts: v.dither, ohms: Real { bits: 0x408f_4000_0000_0000 }, seed }));
    }
    assert(netlist::has_ground(d, sheet::shifted(a, 22, 8), 0)) by {
        netlist::lemma_ground(d, 25);
        assert(d[25].pins[0] == sheet::shifted(a, 22, 8));
    }
    assert(netlist::has_part(d, (id0 + 9) as u32, ElementKind::OpAmp { rail: Real { bits: 0x4014_0000_0000_0000 }, isc: Real { bits: 0x3f99_9999_9999_999a } })) by {
        netlist::lemma_part(d, 28);
        assert(d[28].id == (id0 + 9) as u32);
        assert(d[28].kind == (ElementKind::OpAmp { rail: Real { bits: 0x4014_0000_0000_0000 }, isc: Real { bits: 0x3f99_9999_9999_999a } }));
    }
    assert(netlist::has_part(d, (id0 + 10) as u32, ElementKind::Resistor { ohms: v.r_hyst_top })) by {
        netlist::lemma_part(d, 33);
        assert(d[33].id == (id0 + 10) as u32);
        assert(d[33].kind == (ElementKind::Resistor { ohms: v.r_hyst_top }));
    }
    assert(netlist::has_part(d, (id0 + 11) as u32, ElementKind::Resistor { ohms: v.r_hyst_bot })) by {
        netlist::lemma_part(d, 35);
        assert(d[35].id == (id0 + 11) as u32);
        assert(d[35].kind == (ElementKind::Resistor { ohms: v.r_hyst_bot }));
    }
    assert(netlist::has_ground(d, sheet::shifted(a, 26, -7), 1)) by {
        netlist::lemma_ground(d, 36);
        assert(d[36].pins[0] == sheet::shifted(a, 26, -7));
    }
    assert(netlist::on_net(d, id0, 0, ((a.0 + 2) as i32, rail_y))) by {
        netlist::lemma_pin(d, 0, id0, 0);
        assert(d[0].pins[0] == ((a.0 + 2) as i32, rail_y));
    }
    assert(netlist::on_net(d, id0, 1, sheet::shifted(a, 2, -4))) by {
        netlist::lemma_pin(d, 0, id0, 1);
        assert(d[0].pins[1] == sheet::shifted(a, 2, -4));
    }
    assert(netlist::on_net(d, (id0 + 1) as u32, 2, sheet::shifted(a, 2, -4))) by {
        netlist::lemma_pin(d, 1, (id0 + 1) as u32, 2);
        assert(d[1].pins[2] == sheet::shifted(a, 2, -4));
    }
    assert(netlist::on_net(d, (id0 + 1) as u32, 0, sheet::shifted(a, 2, 0))) by {
        netlist::lemma_pin(d, 1, (id0 + 1) as u32, 0);
        assert(d[1].pins[0] == sheet::shifted(a, 2, 0));
    }
    assert(netlist::earthed(d, sheet::shifted(a, 2, 0))) by {
        netlist::lemma_earth(d, 2);
    }
    assert(netlist::on_net(d, (id0 + 1) as u32, 1, sheet::shifted(a, 4, -2))) by {
        netlist::lemma_pin(d, 1, (id0 + 1) as u32, 1);
        assert(d[1].pins[1] == sheet::shifted(a, 4, -2));
    }
    assert(netlist::on_net(d, (id0 + 2) as u32, 0, sheet::shifted(a, 4, -2))) by {
        netlist::lemma_pin(d, 3, (id0 + 2) as u32, 0);
        assert(d[3].pins[0] == sheet::shifted(a, 6, -3));
        netlist::lemma_pin_along(d, (id0 + 2) as u32, 0, sheet::shifted(a, 6, -3), sheet::shifted(a, 4, -3), 5);
        netlist::lemma_pin_along(d, (id0 + 2) as u32, 0, sheet::shifted(a, 4, -3), sheet::shifted(a, 4, -2), 4);
    }
    assert(netlist::on_net(d, (id0 + 2) as u32, 1, sheet::shifted(a, 6, -1))) by {
        netlist::lemma_pin(d, 3, (id0 + 2) as u32, 1);
        assert(d[3].pins[1] == sheet::shifted(a, 6, -1));
    }
    assert(netlist::on_net(d, (id0 + 2) as u32, 2, sheet::shifted(a, 6, -1))) by {
        netlist::lemma_pin(d, 3, (id0 + 2) as u32, 2);
        assert(d[3].pins[2] == sheet::shifted(a, 10, -2));
        netlist::lemma_pin_along(d, (id0 + 2) as u32, 2, sheet::shifted(a, 10, -2), sheet::shifted(a, 10, -1), 6);
        netlist::lemma_pin_along(d, (id0 + 2) as u32, 2, sheet::shifted(a, 10, -1), sheet::shifted(a, 6, -1), 7);
    }
    assert(netlist::on_net(d, (id0 + 3) as u32, 0, sheet::shifted(a, 6, -1))) by {
        netlist::lemma_pin(d, 8, (id0 + 3) as u32, 0);
        assert(d[8].pins[0] == sheet::shifted(a, 13, -2));
        netlist::lemma_pin_along(d, (id0 + 3) as u32, 0, sheet::shifted(a, 13, -2), sheet::shifted(a, 10, -2), 10);
        netlist::lemma_pin_along(d, (id0 + 3) as u32, 0, sheet::shifted(a, 10, -2), sheet::shifted(a, 10, -1), 6);
        netlist::lemma_pin_along(d, (id0 + 3) as u32, 0, sheet::shifted(a, 10, -1), sheet::shifted(a, 6, -1), 7);
    }
    assert(netlist::on_net(d, (id0 + 3) as u32, 1, sheet::shifted(a, 17, -2))) by {
        netlist::lemma_pin(d, 8, (id0 + 3) as u32, 1);
        assert(d[8].pins[1] == sheet::shifted(a, 17, -2));
    }
    assert(netlist::on_net(d, (id0 + 5) as u32, 3, sheet::shifted(a, 17, -2))) by {
        netlist::lemma_pin(d, 11, (id0 + 5) as u32, 3);
        assert(d[11].pins[3] == sheet::shifted(a, 17, 4));
        netlist::lemma_pin_along(d, (id0 + 5) as u32, 3, sheet::shifted(a, 17, 4), sheet::shifted(a, 15, 4), 16);
        netlist::lemma_pin_along(d, (id0 + 5) as u32, 3, sheet::shifted(a, 15, 4), sheet::shifted(a, 15, 0), 15);
        netlist::lemma_pin_along(d, (id0 + 5) as u32, 3, sheet::shifted(a, 15, 0), sheet::shifted(a, 17, 0), 14);
        netlist::lemma_pin_along(d, (id0 + 5) as u32, 3, sheet::shifted(a, 17, 0), sheet::shifted(a, 17, -2), 13);
    }
    assert(netlist::on_net(d, (id0 + 6) as u32, 0, sheet::shifted(a, 17, -2))) by {
        netlist::lemma_pin(d, 21, (id0 + 6) as u32, 0);
        assert(d[21].pins[0] == sheet::shifted(a, 17, 4));
        netlist::lemma_pin_along(d, (id0 + 6) as u32, 0, sheet::shifted(a, 17, 4), sheet::shifted(a, 15, 4), 16);
        netlist::lemma_pin_along(d, (id0 + 6) as u32, 0, sheet::shifted(a, 15, 4), sheet::shifted(a, 15, 0), 15);
        netlist::lemma_pin_along(d, (id0 + 6) as u32, 0, sheet::shifted(a, 15, 0), sheet::shifted(a, 17, 0), 14);
        netlist::lemma_pin_along(d, (id0 + 6) as u32, 0, sheet::shifted(a, 17, 0), sheet::shifted(a, 17, -2), 13);
    }
    assert(netlist::on_net(d, (id0 + 4) as u32, 1, sheet::shifted(a, 17, -2))) by {
        netlist::lemma_pin(d, 9, (id0 + 4) as u32, 1);
        assert(d[9].pins[1] == sheet::shifted(a, 20, -4));
        netlist::lemma_pin_along(d, (id0 + 4) as u32, 1, sheet::shifted(a, 20, -4), sheet::shifted(a, 20, 0), 17);
        netlist::lemma_pin_along(d, (id0 + 4) as u32, 1, sheet::shifted(a, 20, 0), sheet::shifted(a, 19, 0), 18);
        netlist::lemma_pin_along(d, (id0 + 4) as u32, 1, sheet::shifted(a, 19, 0), sheet::shifted(a, 19, 4), 19);
        netlist::lemma_pin_along(d, (id0 + 4) as u32, 1, sheet::shifted(a, 19, 4), sheet::shifted(a, 17, 4), 20);
        netlist::lemma_pin_along(d, (id0 + 4) as u32, 1, sheet::shifted(a, 17, 4), sheet::shifted(a, 15, 4), 16);
        netlist::lemma_pin_along(d, (id0 + 4) as u32, 1, sheet::shifted(a, 15, 4), sheet::shifted(a, 15, 0), 15);
        netlist::lemma_pin_along(d, (id0 + 4) as u32, 1, sheet::shifted(a, 15, 0), sheet::shifted(a, 17, 0), 14);
        netlist::lemma_pin_along(d, (id0 + 4) as u32, 1, sheet::shifted(a, 17, 0), sheet::shifted(a, 17, -2), 13);
    }
    assert(netlist::on_net(d, (id0 + 4) as u32, 0, ((a.0 + 20) as i32, rail_y))) by {
        netlist::lemma_pin(d, 9, (id0 + 4) as u32, 0);
        assert(d[9].pins[0] == ((a.0 + 20) as i32, rail_y));
    }
    assert(netlist::on_net(d, (id0 + 5) as u32, 0, sheet::shifted(a, 14, 3))) by {
        netlist::lemma_pin(d, 11, (id0 + 5) as u32, 0);
        assert(d[11].pins[0] == sheet::shifted(a, 14, 3));
    }
    assert(netlist::on_net(d, (id0 + 9) as u32, 2, sheet::shifted(a, 14, 3))) by {
        netlist::lemma_pin(d, 28, (id0 + 9) as u32, 2);
        assert(d[28].pins[2] == sheet::shifted(a, 34, -6));
        netlist::lemma_pin_along(d, (id0 + 9) as u32, 2, sheet::shifted(a, 34, -6), sheet::shifted(a, 36, -6), 37);
        netlist::lemma_pin_along(d, (id0 + 9) as u32, 2, sheet::shifted(a, 36, -6), sheet::shifted(a, 36, 12), 38);
        netlist::lemma_pin_along(d, (id0 + 9) as u32, 2, sheet::shifted(a, 36, 12), sheet::shifted(a, 12, 12), 39);
        netlist::lemma_pin_along(d, (id0 + 9) as u32, 2, sheet::shifted(a, 12, 12), sheet::shifted(a, 12, 3), 40);
        netlist::lemma_pin_along(d, (id0 + 9) as u32, 2, sheet::shifted(a, 12, 3), sheet::shifted(a, 14, 3), 41);
    }
    assert(netlist::on_net(d, (id0 + 10) as u32, 0, sheet::shifted(a, 14, 3))) by {
        netlist::lemma_pin(d, 33, (id0 + 10) as u32, 0);
        assert(d[33].pins[0] == sheet::shifted(a, 34, -9));
        netlist::lemma_pin_along(d, (id0 + 10) as u32, 0, sheet::shifted(a, 34, -9), sheet::shifted(a, 34, -6), 32);
        netlist::lemma_pin_along(d, (id0 + 10) as u32, 0, sheet::shifted(a, 34, -6), sheet::shifted(a, 36, -6), 37);
        netlist::lemma_pin_along(d, (id0 + 10) as u32, 0, sheet::shifted(a, 36, -6), sheet::shifted(a, 36, 12), 38);
        netlist::lemma_pin_along(d, (id0 + 10) as u32, 0, sheet::shifted(a, 36, 12), sheet::shifted(a, 12, 12), 39);
        netlist::lemma_pin_along(d, (id0 + 10) as u32, 0, sheet::shifted(a, 12, 12), sheet::shifted(a, 12, 3), 40);
        netlist::lemma_pin_along(d, (id0 + 10) as u32, 0, sheet::shifted(a, 12, 3), sheet::shifted(a, 14, 3), 41);
    }
    assert(netlist::on_net(d, (id0 + 5) as u32, 1, sheet::shifted(a, 14, 1))) by {
        netlist::lemma_pin(d, 11, (id0 + 5) as u32, 1);
        assert(d[11].pins[1] == sheet::shifted(a, 14, 1));
    }
    assert(netlist::earthed(d, sheet::shifted(a, 14, 1))) by {
        netlist::lemma_earth(d, 12);
    }
    assert(netlist::on_net(d, (id0 + 5) as u32, 2, sheet::shifted(a, 18, 2))) by {
        netlist::lemma_pin(d, 11, (id0 + 5) as u32, 2);
        assert(d[11].pins[2] == sheet::shifted(a, 18, 2));
    }
    assert(netlist::on_net(d, (id0 + 7) as u32, 0, sheet::shifted(a, 18, 2))) by {
        netlist::lemma_pin(d, 23, (id0 + 7) as u32, 0);
        assert(d[23].pins[0] == sheet::shifted(a, 22, 2));
        netlist::lemma_pin_along(d, (id0 + 7) as u32, 0, sheet::shifted(a, 22, 2), sheet::shifted(a, 18, 2), 26);
    }
    assert(netlist::on_net(d, (id0 + 9) as u32, 1, sheet::shifted(a, 18, 2))) by {
        netlist::lemma_pin(d, 28, (id0 + 9) as u32, 1);
        assert(d[28].pins[1] == sheet::shifted(a, 28, -5));
        netlist::lemma_pin_along(d, (id0 + 9) as u32, 1, sheet::shifted(a, 28, -5), sheet::shifted(a, 26, -5), 31);
        netlist::lemma_pin_along(d, (id0 + 9) as u32, 1, sheet::shifted(a, 26, -5), sheet::shifted(a, 26, 2), 30);
        netlist::lemma_pin_along(d, (id0 + 9) as u32, 1, sheet::shifted(a, 26, 2), sheet::shifted(a, 24, 2), 29);
        netlist::lemma_pin_along(d, (id0 + 9) as u32, 1, sheet::shifted(a, 24, 2), sheet::shifted(a, 22, 2), 27);
        netlist::lemma_pin_along(d, (id0 + 9) as u32, 1, sheet::shifted(a, 22, 2), sheet::shifted(a, 18, 2), 26);
    }
    assert(netlist::on_net(d, (id0 + 6) as u32, 1, sheet::shifted(a, 17, 7))) by {
        netlist::lemma_pin(d, 21, (id0 + 6) as u32, 1);
        assert(d[21].pins[1] == sheet::shifted(a, 17, 7));
    }
    assert(netlist::earthed(d, sheet::shifted(a, 17, 7))) by {
        netlist::lemma_earth(d, 22);
    }
    assert(netlist::on_net(d, (id0 + 7) as u32, 1, sheet::shifted(a, 22, 5))) by {
        netlist::lemma_pin(d, 23, (id0 + 7) as u32, 1);
        assert(d[23].pins[1] == sheet::shifted(a, 22, 5));
    }
    assert(netlist::on_net(d, (id0 + 8) as u32, 0, sheet::shifted(a, 22, 5))) by {
        netlist::lemma_pin(d, 24, (id0 + 8) as u32, 0);
        assert(d[24].pins[0] == sheet::shifted(a, 22, 5));
    }
    assert(netlist::on_net(d, (id0 + 8) as u32, 1, sheet::shifted(a, 22, 8))) by {
        netlist::lemma_pin(d, 24, (id0 + 8) as u32, 1);
        assert(d[24].pins[1] == sheet::shifted(a, 22, 8));
    }
    assert(netlist::earthed(d, sheet::shifted(a, 22, 8))) by {
        netlist::lemma_earth(d, 25);
    }
    assert(netlist::on_net(d, (id0 + 9) as u32, 0, sheet::shifted(a, 28, -7))) by {
        netlist::lemma_pin(d, 28, (id0 + 9) as u32, 0);
        assert(d[28].pins[0] == sheet::shifted(a, 28, -7));
    }
    assert(netlist::on_net(d, (id0 + 11) as u32, 1, sheet::shifted(a, 28, -7))) by {
        netlist::lemma_pin(d, 35, (id0 + 11) as u32, 1);
        assert(d[35].pins[1] == sheet::shifted(a, 28, -7));
    }
    assert(netlist::on_net(d, (id0 + 10) as u32, 1, sheet::shifted(a, 28, -7))) by {
        netlist::lemma_pin(d, 33, (id0 + 10) as u32, 1);
        assert(d[33].pins[1] == sheet::shifted(a, 28, -9));
        netlist::lemma_pin_along(d, (id0 + 10) as u32, 1, sheet::shifted(a, 28, -9), sheet::shifted(a, 28, -7), 34);
    }
    assert(netlist::on_net(d, (id0 + 11) as u32, 0, sheet::shifted(a, 26, -7))) by {
        netlist::lemma_pin(d, 35, (id0 + 11) as u32, 0);
        assert(d[35].pins[0] == sheet::shifted(a, 26, -7));
    }
    assert(netlist::earthed(d, sheet::shifted(a, 26, -7))) by {
        netlist::lemma_earth(d, 36);
    }
}

/// The envelope is wired as one: the diode from the trigger onto the capacitor, and the
/// rheostat across it.
pub proof fn law_the_envelope_is_wired(id0: u32, a: Point, trig: Point, farads: Real, pot_ohms: Real, wiper: Real)
    requires
        sheet::spans(a, 0, -2, 8, 3),
        id0 <= u32::MAX - 2,
    ensures
        ({
            let d = netlist::laid_out(ad_envelope_strokes(id0, a, trig, farads, pot_ohms, wiper));
            &&& d.len() == 8
            &&& netlist::has_part(d, id0, ElementKind::Diode)
            &&& netlist::has_part(d, (id0 + 1) as u32, ElementKind::Capacitor { farads: farads })
            &&& netlist::has_ground(d, sheet::shifted(a, 4, 3), 0)
            &&& netlist::has_part(d, (id0 + 2) as u32, ElementKind::Potentiometer { ohms: pot_ohms, wiper: wiper })
            &&& netlist::has_ground(d, sheet::shifted(a, 8, 0), 3)
            &&& netlist::on_net(d, id0, 0, trig)
            &&& netlist::on_net(d, id0, 1, a)
            &&& netlist::on_net(d, (id0 + 1) as u32, 0, a)
            &&& netlist::on_net(d, (id0 + 2) as u32, 0, a)
            &&& netlist::on_net(d, (id0 + 1) as u32, 1, sheet::shifted(a, 4, 3))
            &&& netlist::earthed(d, sheet::shifted(a, 4, 3))
            &&& netlist::on_net(d, (id0 + 2) as u32, 1, sheet::shifted(a, 6, -2))
            &&& netlist::on_net(d, (id0 + 2) as u32, 2, sheet::shifted(a, 6, -2))
            &&& netlist::earthed(d, sheet::shifted(a, 6, -2))
        }),
{
    let d = netlist::laid_out(ad_envelope_strokes(id0, a, trig, farads, pot_ohms, wiper));
    assert(d.len() == 8);
    assert(netlist::has_part(d, id0, ElementKind::Diode)) by {
        netlist::lemma_part(d, 0);
        assert(d[0].id == id0);
        assert(d[0].kind == ElementKind::Diode);
    }
    assert(netlist::has_part(d, (id0 + 1) as u32, ElementKind::Capacitor { farads: farads })) by {
        netlist::lemma_part(d, 2);
        assert(d[2].id == (id0 + 1) as u32);
        assert(d[2].kind == (ElementKind::Capacitor { farads: farads }));
    }
    assert(netlist::has_ground(d, sheet::shifted(a, 4, 3), 0)) by {
        netlist::lemma_ground(d, 3);
        assert(d[3].pins[0] == sheet::shifted(a, 4, 3));
    }
    assert(netlist::has_part(d, (id0 + 2) as u32, ElementKind::Potentiometer { ohms: pot_ohms, wiper: wiper })) by {
        netlist::lemma_part(d, 4);
        assert(d[4].id == (id0 + 2) as u32);
        assert(d[4].kind == (ElementKind::Potentiometer { ohms: pot_ohms, wiper: wiper }));
    }
    assert(netlist::has_ground(d, sheet::shifted(a, 8, 0), 3)) by {
        netlist::lemma_ground(d, 7);
        assert(d[7].pins[0] == sheet::shifted(a, 8, 0));
    }
    assert(netlist::on_net(d, id0, 0, trig)) by {
        netlist::lemma_pin(d, 0, id0, 0);
        assert(d[0].pins[0] == trig);
    }
    assert(netlist::on_net(d, id0, 1, a)) by {
        netlist::lemma_pin(d, 0, id0, 1);
        assert(d[0].pins[1] == a);
    }
    assert(netlist::on_net(d, (id0 + 1) as u32, 0, a)) by {
        netlist::lemma_pin(d, 2, (id0 + 1) as u32, 0);
        assert(d[2].pins[0] == sheet::shifted(a, 4, 0));
        netlist::lemma_pin_along(d, (id0 + 1) as u32, 0, sheet::shifted(a, 4, 0), a, 1);
    }
    assert(netlist::on_net(d, (id0 + 2) as u32, 0, a)) by {
        netlist::lemma_pin(d, 4, (id0 + 2) as u32, 0);
        assert(d[4].pins[0] == sheet::shifted(a, 4, 0));
        netlist::lemma_pin_along(d, (id0 + 2) as u32, 0, sheet::shifted(a, 4, 0), a, 1);
    }
    assert(netlist::on_net(d, (id0 + 1) as u32, 1, sheet::shifted(a, 4, 3))) by {
        netlist::lemma_pin(d, 2, (id0 + 1) as u32, 1);
        assert(d[2].pins[1] == sheet::shifted(a, 4, 3));
    }
    assert(netlist::earthed(d, sheet::shifted(a, 4, 3))) by {
        netlist::lemma_earth(d, 3);
    }
    assert(netlist::on_net(d, (id0 + 2) as u32, 1, sheet::shifted(a, 6, -2))) by {
        netlist::lemma_pin(d, 4, (id0 + 2) as u32, 1);
        assert(d[4].pins[1] == sheet::shifted(a, 6, -2));
    }
    assert(netlist::on_net(d, (id0 + 2) as u32, 2, sheet::shifted(a, 6, -2))) by {
        netlist::lemma_pin(d, 4, (id0 + 2) as u32, 2);
        assert(d[4].pins[2] == sheet::shifted(a, 8, 0));
        netlist::lemma_pin_along(d, (id0 + 2) as u32, 2, sheet::shifted(a, 8, 0), sheet::shifted(a, 8, -2), 6);
        netlist::lemma_pin_along(d, (id0 + 2) as u32, 2, sheet::shifted(a, 8, -2), sheet::shifted(a, 6, -2), 5);
    }
    assert(netlist::earthed(d, sheet::shifted(a, 6, -2))) by {
        netlist::lemma_earth(d, 7);
        netlist::lemma_earth_along(d, sheet::shifted(a, 8, 0), sheet::shifted(a, 8, -2), 6);
        netlist::lemma_earth_along(d, sheet::shifted(a, 8, -2), sheet::shifted(a, 6, -2), 5);
    }
}

/// The amplifier of one transistor is wired as one: the signal onto its drain, and the
/// resistor on its source.
pub proof fn law_the_amplifier_is_wired(id0: u32, a: Point, sig: Point, k: Real, r_ser: Real)
    requires
        sheet::spans(a, -2, 0, 8, 4),
        id0 < u32::MAX,
    ensures
        ({
            let d = netlist::laid_out(nmos_vca_strokes(id0, a, sig, k, r_ser));
            &&& d.len() == 3
            &&& netlist::has_part(d, id0, ElementKind::Nmos { vt: Real { bits: 0x3ff0_0000_0000_0000 }, k: k })
            &&& netlist::has_part(d, (id0 + 1) as u32, ElementKind::Resistor { ohms: r_ser })
            &&& netlist::on_net(d, id0, 0, a)
            &&& netlist::on_net(d, id0, 1, sheet::shifted(a, -2, 4))
            &&& netlist::joined(d, sig, sheet::shifted(a, -2, 4))
            &&& netlist::on_net(d, id0, 2, sheet::shifted(a, 2, 4))
            &&& netlist::on_net(d, (id0 + 1) as u32, 0, sheet::shifted(a, 2, 4))
            &&& netlist::on_net(d, (id0 + 1) as u32, 1, sheet::shifted(a, 8, 4))
        }),
{
    let d = netlist::laid_out(nmos_vca_strokes(id0, a, sig, k, r_ser));
    assert(d.len() == 3);
    assert(netlist::has_part(d, id0, ElementKind::Nmos { vt: Real { bits: 0x3ff0_0000_0000_0000 }, k: k })) by {
        netlist::lemma_part(d, 0);
        assert(d[0].id == id0);
        assert(d[0].kind == (ElementKind::Nmos { vt: Real { bits: 0x3ff0_0000_0000_0000 }, k: k }));
    }
    assert(netlist::has_part(d, (id0 + 1) as u32, ElementKind::Resistor { ohms: r_ser })) by {
        netlist::lemma_part(d, 2);
        assert(d[2].id == (id0 + 1) as u32);
        assert(d[2].kind == (ElementKind::Resistor { ohms: r_ser }));
    }
    assert(netlist::on_net(d, id0, 0, a)) by {
        netlist::lemma_pin(d, 0, id0, 0);
        assert(d[0].pins[0] == a);
    }
    assert(netlist::on_net(d, id0, 1, sheet::shifted(a, -2, 4))) by {
        netlist::lemma_pin(d, 0, id0, 1);
        assert(d[0].pins[1] == sheet::shifted(a, -2, 4));
    }
    assert(netlist::joined(d, sig, sheet::shifted(a, -2, 4))) by {
        netlist::lemma_joined_here(d, sig);
        netlist::lemma_joined_along(d, sig, sig, sheet::shifted(a, -2, 4), 1);
    }
    assert(netlist::on_net(d, id0, 2, sheet::shifted(a, 2, 4))) by {
        netlist::lemma_pin(d, 0, id0, 2);
        assert(d[0].pins[2] == sheet::shifted(a, 2, 4));
    }
    assert(netlist::on_net(d, (id0 + 1) as u32, 0, sheet::shifted(a, 2, 4))) by {
        netlist::lemma_pin(d, 2, (id0 + 1) as u32, 0);
        assert(d[2].pins[0] == sheet::shifted(a, 2, 4));
    }
    assert(netlist::on_net(d, (id0 + 1) as u32, 1, sheet::shifted(a, 8, 4))) by {
        netlist::lemma_pin(d, 2, (id0 + 1) as u32, 1);
        assert(d[2].pins[1] == sheet::shifted(a, 8, 4));
    }
}

/// The output stage is wired as one: the amplifier with its resistor from its output to its
/// input, its other input on ground, and the speaker on its output.
pub proof fn law_the_output_stage_is_wired(id0: u32, speaker_id: u32, a: Point, rail: Real, rf: Real)
    requires
        sheet::spans(a, 0, -5, 12, 1),
        id0 < u32::MAX,
    ensures
        ({
            let d = netlist::laid_out(mixer_speaker_strokes(id0, speaker_id, a, rail, rf));
            &&& d.len() == 8
            &&& netlist::has_part(d, id0, ElementKind::OpAmp { rail: rail, isc: Real { bits: 0x3f99_9999_9999_999a } })
            &&& netlist::has_ground(d, sheet::shifted(a, 0, 1), 0)
            &&& netlist::has_part(d, (id0 + 1) as u32, ElementKind::Resistor { ohms: rf })
            &&& netlist::has_part(d, speaker_id, ElementKind::Speaker { ohms: Real { bits: 0x4020_0000_0000_0000 } })
            &&& netlist::has_ground(d, sheet::shifted(a, 12, 0), 3)
            &&& netlist::on_net(d, id0, 0, sheet::shifted(a, 0, 1))
            &&& netlist::earthed(d, sheet::shifted(a, 0, 1))
            &&& netlist::on_net(d, id0, 1, sheet::shifted(a, 0, -1))
            &&& netlist::on_net(d, (id0 + 1) as u32, 1, sheet::shifted(a, 0, -1))
            &&& netlist::on_net(d, id0, 2, sheet::shifted(a, 6, 0))
            &&& netlist::on_net(d, (id0 + 1) as u32, 0, sheet::shifted(a, 6, 0))
            &&& netlist::on_net(d, speaker_id, 0, sheet::shifted(a, 6, 0))
            &&& netlist::on_net(d, speaker_id, 1, sheet::shifted(a, 12, 0))
            &&& netlist::earthed(d, sheet::shifted(a, 12, 0))
        }),
{
    let d = netlist::laid_out(mixer_speaker_strokes(id0, speaker_id, a, rail, rf));
    assert(d.len() == 8);
    assert(netlist::has_part(d, id0, ElementKind::OpAmp { rail: rail, isc: Real { bits: 0x3f99_9999_9999_999a } })) by {
        netlist::lemma_part(d, 0);
        assert(d[0].id == id0);
        assert(d[0].kind == (ElementKind::OpAmp { rail: rail, isc: Real { bits: 0x3f99_9999_9999_999a } }));
    }
    assert(netlist::has_ground(d, sheet::shifted(a, 0, 1), 0)) by {
        netlist::lemma_ground(d, 1);
        assert(d[1].pins[0] == sheet::shifted(a, 0, 1));
    }
    assert(netlist::has_part(d, (id0 + 1) as u32, ElementKind::Resistor { ohms: rf })) by {
        netlist::lemma_part(d, 3);
        assert(d[3].id == (id0 + 1) as u32);
        assert(d[3].kind == (ElementKind::Resistor { ohms: rf }));
    }
    assert(netlist::has_part(d, speaker_id, ElementKind::Speaker { ohms: Real { bits: 0x4020_0000_0000_0000 } })) by {
        netlist::lemma_part(d, 6);
        assert(d[6].id == speaker_id);
        assert(d[6].kind == (ElementKind::Speaker { ohms: Real { bits: 0x4020_0000_0000_0000 } }));
    }
    assert(netlist::has_ground(d, sheet::shifted(a, 12, 0), 3)) by {
        netlist::lemma_ground(d, 7);
        assert(d[7].pins[0] == sheet::shifted(a, 12, 0));
    }
    assert(netlist::on_net(d, id0, 0, sheet::shifted(a, 0, 1))) by {
        netlist::lemma_pin(d, 0, id0, 0);
        assert(d[0].pins[0] == sheet::shifted(a, 0, 1));
    }
    assert(netlist::earthed(d, sheet::shifted(a, 0, 1))) by {
        netlist::lemma_earth(d, 1);
    }
    assert(netlist::on_net(d, id0, 1, sheet::shifted(a, 0, -1))) by {
        netlist::lemma_pin(d, 0, id0, 1);
        assert(d[0].pins[1] == sheet::shifted(a, 0, -1));
    }
    assert(netlist::on_net(d, (id0 + 1) as u32, 1, sheet::shifted(a, 0, -1))) by {
        netlist::lemma_pin(d, 3, (id0 + 1) as u32, 1);
        assert(d[3].pins[1] == sheet::shifted(a, 0, -5));
        netlist::lemma_pin_along(d, (id0 + 1) as u32, 1, sheet::shifted(a, 0, -5), sheet::shifted(a, 0, -1), 4);
    }
    assert(netlist::on_net(d, id0, 2, sheet::shifted(a, 6, 0))) by {
        netlist::lemma_pin(d, 0, id0, 2);
        assert(d[0].pins[2] == sheet::shifted(a, 6, 0));
    }
    assert(netlist::on_net(d, (id0 + 1) as u32, 0, sheet::shifted(a, 6, 0))) by {
        netlist::lemma_pin(d, 3, (id0 + 1) as u32, 0);
        assert(d[3].pins[0] == sheet::shifted(a, 6, -5));
        netlist::lemma_pin_along(d, (id0 + 1) as u32, 0, sheet::shifted(a, 6, -5), sheet::shifted(a, 6, 0), 2);
    }
    assert(netlist::on_net(d, speaker_id, 0, sheet::shifted(a, 6, 0))) by {
        netlist::lemma_pin(d, 6, speaker_id, 0);
        assert(d[6].pins[0] == sheet::shifted(a, 8, 0));
        netlist::lemma_pin_along(d, speaker_id, 0, sheet::shifted(a, 8, 0), sheet::shifted(a, 6, 0), 5);
    }
    assert(netlist::on_net(d, speaker_id, 1, sheet::shifted(a, 12, 0))) by {
        netlist::lemma_pin(d, 6, speaker_id, 1);
        assert(d[6].pins[1] == sheet::shifted(a, 12, 0));
    }
    assert(netlist::earthed(d, sheet::shifted(a, 12, 0))) by {
        netlist::lemma_earth(d, 7);
    }
}

/// The timer is wired as one: supplied from the rail, its two inputs on the capacitor, the
/// rheostat in the way of the discharge, and the diode past it.
pub proof fn law_the_timer_is_wired(id0: u32, a: Point, rail_pt: Point, ra: Real, r_min: Real, pot_ohms: Real, wiper: Real, farads: Real)
    requires
        sheet::spans(a, -3, -1, 14, 8),
        id0 <= u32::MAX - 5,
    ensures
        ({
            let d = netlist::laid_out(clock_555_strokes(id0, a, rail_pt, ra, r_min, pot_ohms, wiper, farads));
            &&& d.len() == 22
            &&& netlist::has_part(d, id0, ElementKind::Timer555)
            &&& netlist::has_ground(d, sheet::shifted(a, 0, 4), 0)
            &&& netlist::has_part(d, (id0 + 1) as u32, ElementKind::Resistor { ohms: ra })
            &&& netlist::has_part(d, (id0 + 2) as u32, ElementKind::Resistor { ohms: r_min })
            &&& netlist::has_part(d, (id0 + 3) as u32, ElementKind::Potentiometer { ohms: pot_ohms, wiper: wiper })
            &&& netlist::has_part(d, (id0 + 4) as u32, ElementKind::Diode)
            &&& netlist::has_part(d, (id0 + 5) as u32, ElementKind::Capacitor { farads: farads })
            &&& netlist::has_ground(d, sheet::shifted(a, -3, 8), 1)
            &&& netlist::on_net(d, id0, 0, a)
            &&& netlist::on_net(d, (id0 + 1) as u32, 0, a)
            &&& netlist::joined(d, rail_pt, a)
            &&& netlist::on_net(d, id0, 1, sheet::shifted(a, 0, 4))
            &&& netlist::earthed(d, sheet::shifted(a, 0, 4))
            &&& netlist::on_net(d, id0, 2, sheet::shifted(a, 0, 1))
            &&& netlist::on_net(d, id0, 3, sheet::shifted(a, 0, 1))
            &&& netlist::on_net(d, (id0 + 5) as u32, 1, sheet::shifted(a, 0, 1))
            &&& netlist::on_net(d, (id0 + 4) as u32, 1, sheet::shifted(a, 0, 1))
            &&& netlist::on_net(d, (id0 + 3) as u32, 2, sheet::shifted(a, 0, 1))
            &&& netlist::on_net(d, (id0 + 3) as u32, 1, sheet::shifted(a, 0, 1))
            &&& netlist::on_net(d, id0, 4, sheet::shifted(a, 4, 3))
            &&& netlist::on_net(d, id0, 5, sheet::shifted(a, 4, 1))
            &&& netlist::on_net(d, (id0 + 1) as u32, 1, sheet::shifted(a, 4, 1))
            &&& netlist::on_net(d, (id0 + 2) as u32, 0, sheet::shifted(a, 4, 1))
            &&& netlist::on_net(d, (id0 + 4) as u32, 0, sheet::shifted(a, 4, 1))
            &&& netlist::on_net(d, (id0 + 2) as u32, 1, sheet::shifted(a, 10, 1))
            &&& netlist::on_net(d, (id0 + 3) as u32, 0, sheet::shifted(a, 10, 1))
            &&& netlist::on_net(d, (id0 + 5) as u32, 0, sheet::shifted(a, -3, 8))
            &&& netlist::earthed(d, sheet::shifted(a, -3, 8))
        }),
{
    let d = netlist::laid_out(clock_555_strokes(id0, a, rail_pt, ra, r_min, pot_ohms, wiper, farads));
    assert(d.len() == 22);
    assert(netlist::has_part(d, id0, ElementKind::Timer555)) by {
        netlist::lemma_part(d, 0);
        assert(d[0].id == id0);
        assert(d[0].kind == ElementKind::Timer555);
    }
    assert(netlist::has_ground(d, sheet::shifted(a, 0, 4), 0)) by {
        netlist::lemma_ground(d, 3);
        assert(d[3].pins[0] == sheet::shifted(a, 0, 4));
    }
    assert(netlist::has_part(d, (id0 + 1) as u32, ElementKind::Resistor { ohms: ra })) by {
        netlist::lemma_part(d, 9);
        assert(d[9].id == (id0 + 1) as u32);
        assert(d[9].kind == (ElementKind::Resistor { ohms: ra }));
    }
    assert(netlist::has_part(d, (id0 + 2) as u32, ElementKind::Resistor { ohms: r_min })) by {
        netlist::lemma_part(d, 11);
        assert(d[11].id == (id0 + 2) as u32);
        assert(d[11].kind == (ElementKind::Resistor { ohms: r_min }));
    }
    assert(netlist::has_part(d, (id0 + 3) as u32, ElementKind::Potentiometer { ohms: pot_ohms, wiper: wiper })) by {
        netlist::lemma_part(d, 12);
        assert(d[12].id == (id0 + 3) as u32);
        assert(d[12].kind == (ElementKind::Potentiometer { ohms: pot_ohms, wiper: wiper }));
    }
    assert(netlist::has_part(d, (id0 + 4) as u32, ElementKind::Diode)) by {
        netlist::lemma_part(d, 18);
        assert(d[18].id == (id0 + 4) as u32);
        assert(d[18].kind == ElementKind::Diode);
    }
    assert(netlist::has_part(d, (id0 + 5) as u32, ElementKind::Capacitor { farads: farads })) by {
        netlist::lemma_part(d, 20);
        assert(d[20].id == (id0 + 5) as u32);
        assert(d[20].kind == (ElementKind::Capacitor { farads: farads }));
    }
    assert(netlist::has_ground(d, sheet::shifted(a, -3, 8), 1)) by {
        netlist::lemma_ground(d, 21);
        assert(d[21].pins[0] == sheet::shifted(a, -3, 8));
    }
    assert(netlist::on_net(d, id0, 0, a)) by {
        netlist::lemma_pin(d, 0, id0, 0);
        assert(d[0].pins[0] == a);
    }
    assert(netlist::on_net(d, (id0 + 1) as u32, 0, a)) by {
        netlist::lemma_pin(d, 9, (id0 + 1) as u32, 0);
        assert(d[9].pins[0] == ((a.0 + 4) as i32, rail_pt.1));
        netlist::lemma_pin_along(d, (id0 + 1) as u32, 0, ((a.0 + 4) as i32, rail_pt.1), (a.0, rail_pt.1), 8);
        netlist::lemma_pin_along(d, (id0 + 1) as u32, 0, (a.0, rail_pt.1), a, 2);
    }
    assert(netlist::joined(d, rail_pt, a)) by {
        netlist::lemma_joined_here(d, rail_pt);
        netlist::lemma_joined_along(d, rail_pt, rail_pt, (a.0, rail_pt.1), 1);
        netlist::lemma_joined_along(d, rail_pt, (a.0, rail_pt.1), a, 2);
    }
    assert(netlist::on_net(d, id0, 1, sheet::shifted(a, 0, 4))) by {
        netlist::lemma_pin(d, 0, id0, 1);
        assert(d[0].pins[1] == sheet::shifted(a, 0, 4));
    }
    assert(netlist::earthed(d, sheet::shifted(a, 0, 4))) by {
        netlist::lemma_earth(d, 3);
    }
    assert(netlist::on_net(d, id0, 2, sheet::shifted(a, 0, 1))) by {
        netlist::lemma_pin(d, 0, id0, 2);
        assert(d[0].pins[2] == sheet::shifted(a, 0, 1));
    }
    assert(netlist::on_net(d, id0, 3, sheet::shifted(a, 0, 1))) by {
        netlist::lemma_pin(d, 0, id0, 3);
        assert(d[0].pins[3] == sheet::shifted(a, 0, 3));
        netlist::lemma_pin_along(d, id0, 3, sheet::shifted(a, 0, 3), sheet::shifted(a, -1, 3), 7);
        netlist::lemma_pin_along(d, id0, 3, sheet::shifted(a, -1, 3), sheet::shifted(a, -1, 2), 6);
        netlist::lemma_pin_along(d, id0, 3, sheet::shifted(a, -1, 2), sheet::shifted(a, -1, 1), 5);
        netlist::lemma_pin_along(d, id0, 3, sheet::shifted(a, -1, 1), sheet::shifted(a, 0, 1), 4);
    }
    assert(netlist::on_net(d, (id0 + 5) as u32, 1, sheet::shifted(a, 0, 1))) by {
        netlist::lemma_pin(d, 20, (id0 + 5) as u32, 1);
        assert(d[20].pins[1] == sheet::shifted(a, -1, 8));
        netlist::lemma_pin_along(d, (id0 + 5) as u32, 1, sheet::shifted(a, -1, 8), sheet::shifted(a, -1, 3), 17);
        netlist::lemma_pin_along(d, (id0 + 5) as u32, 1, sheet::shifted(a, -1, 3), sheet::shifted(a, -1, 2), 6);
        netlist::lemma_pin_along(d, (id0 + 5) as u32, 1, sheet::shifted(a, -1, 2), sheet::shifted(a, -1, 1), 5);
        netlist::lemma_pin_along(d, (id0 + 5) as u32, 1, sheet::shifted(a, -1, 1), sheet::shifted(a, 0, 1), 4);
    }
    assert(netlist::on_net(d, (id0 + 4) as u32, 1, sheet::shifted(a, 0, 1))) by {
        netlist::lemma_pin(d, 18, (id0 + 4) as u32, 1);
        assert(d[18].pins[1] == sheet::shifted(a, 6, 8));
        netlist::lemma_pin_along(d, (id0 + 4) as u32, 1, sheet::shifted(a, 6, 8), sheet::shifted(a, -1, 8), 19);
        netlist::lemma_pin_along(d, (id0 + 4) as u32, 1, sheet::shifted(a, -1, 8), sheet::shifted(a, -1, 3), 17);
        netlist::lemma_pin_along(d, (id0 + 4) as u32, 1, sheet::shifted(a, -1, 3), sheet::shifted(a, -1, 2), 6);
        netlist::lemma_pin_along(d, (id0 + 4) as u32, 1, sheet::shifted(a, -1, 2), sheet::shifted(a, -1, 1), 5);
        netlist::lemma_pin_along(d, (id0 + 4) as u32, 1, sheet::shifted(a, -1, 1), sheet::shifted(a, 0, 1), 4);
    }
    assert(netlist::on_net(d, (id0 + 3) as u32, 2, sheet::shifted(a, 0, 1))) by {
        netlist::lemma_pin(d, 12, (id0 + 3) as u32, 2);
        assert(d[12].pins[2] == sheet::shifted(a, 14, 1));
        netlist::lemma_pin_along(d, (id0 + 3) as u32, 2, sheet::shifted(a, 14, 1), sheet::shifted(a, 14, 8), 15);
        netlist::lemma_pin_along(d, (id0 + 3) as u32, 2, sheet::shifted(a, 14, 8), sheet::shifted(a, -1, 8), 16);
        netlist::lemma_pin_along(d, (id0 + 3) as u32, 2, sheet::shifted(a, -1, 8), sheet::shifted(a, -1, 3), 17);
        netlist::lemma_pin_along(d, (id0 + 3) as u32, 2, sheet::shifted(a, -1, 3), sheet::shifted(a, -1, 2), 6);
        netlist::lemma_pin_along(d, (id0 + 3) as u32, 2, sheet::shifted(a, -1, 2), sheet::shifted(a, -1, 1), 5);
        netlist::lemma_pin_along(d, (id0 + 3) as u32, 2, sheet::shifted(a, -1, 1), sheet::shifted(a, 0, 1), 4);
    }
    assert(netlist::on_net(d, (id0 + 3) as u32, 1, sheet::shifted(a, 0, 1))) by {
        netlist::lemma_pin(d, 12, (id0 + 3) as u32, 1);
        assert(d[12].pins[1] == sheet::shifted(a, 12, -1));
        netlist::lemma_pin_along(d, (id0 + 3) as u32, 1, sheet::shifted(a, 12, -1), sheet::shifted(a, 14, -1), 13);
        netlist::lemma_pin_along(d, (id0 + 3) as u32, 1, sheet::shifted(a, 14, -1), sheet::shifted(a, 14, 1), 14);
        netlist::lemma_pin_along(d, (id0 + 3) as u32, 1, sheet::shifted(a, 14, 1), sheet::shifted(a, 14, 8), 15);
        netlist::lemma_pin_along(d, (id0 + 3) as u32, 1, sheet::shifted(a, 14, 8), sheet::shifted(a, -1, 8), 16);
        netlist::lemma_pin_along(d, (id0 + 3) as u32, 1, sheet::shifted(a, -1, 8), sheet::shifted(a, -1, 3), 17);
        netlist::lemma_pin_along(d, (id0 + 3) as u32, 1, sheet::shifted(a, -1, 3), sheet::shifted(a, -1, 2), 6);
        netlist::lemma_pin_along(d, (id0 + 3) as u32, 1, sheet::shifted(a, -1, 2), sheet::shifted(a, -1, 1), 5);
        netlist::lemma_pin_along(d, (id0 + 3) as u32, 1, sheet::shifted(a, -1, 1), sheet::shifted(a, 0, 1), 4);
    }
    assert(netlist::on_net(d, id0, 4, sheet::shifted(a, 4, 3))) by {
        netlist::lemma_pin(d, 0, id0, 4);
        assert(d[0].pins[4] == sheet::shifted(a, 4, 3));
    }
    assert(netlist::on_net(d, id0, 5, sheet::shifted(a, 4, 1))) by {
        netlist::lemma_pin(d, 0, id0, 5);
        assert(d[0].pins[5] == sheet::shifted(a, 4, 1));
    }
    assert(netlist::on_net(d, (id0 + 1) as u32, 1, sheet::shifted(a, 4, 1))) by {
        netlist::lemma_pin(d, 9, (id0 + 1) as u32, 1);
        assert(d[9].pins[1] == sheet::shifted(a, 4, 1));
    }
    assert(netlist::on_net(d, (id0 + 2) as u32, 0, sheet::shifted(a, 4, 1))) by {
        netlist::lemma_pin(d, 11, (id0 + 2) as u32, 0);
        assert(d[11].pins[0] == sheet::shifted(a, 6, 1));
        netlist::lemma_pin_along(d, (id0 + 2) as u32, 0, sheet::shifted(a, 6, 1), sheet::shifted(a, 4, 1), 10);
    }
    assert(netlist::on_net(d, (id0 + 4) as u32, 0, sheet::shifted(a, 4, 1))) by {
        netlist::lemma_pin(d, 18, (id0 + 4) as u32, 0);
        assert(d[18].pins[0] == sheet::shifted(a, 6, 1));
        netlist::lemma_pin_along(d, (id0 + 4) as u32, 0, sheet::shifted(a, 6, 1), sheet::shifted(a, 4, 1), 10);
    }
    assert(netlist::on_net(d, (id0 + 2) as u32, 1, sheet::shifted(a, 10, 1))) by {
        netlist::lemma_pin(d, 11, (id0 + 2) as u32, 1);
        assert(d[11].pins[1] == sheet::shifted(a, 10, 1));
    }
    assert(netlist::on_net(d, (id0 + 3) as u32, 0, sheet::shifted(a, 10, 1))) by {
        netlist::lemma_pin(d, 12, (id0 + 3) as u32, 0);
        assert(d[12].pins[0] == sheet::shifted(a, 10, 1));
    }
    assert(netlist::on_net(d, (id0 + 5) as u32, 0, sheet::shifted(a, -3, 8))) by {
        netlist::lemma_pin(d, 20, (id0 + 5) as u32, 0);
        assert(d[20].pins[0] == sheet::shifted(a, -3, 8));
    }
    assert(netlist::earthed(d, sheet::shifted(a, -3, 8))) by {
        netlist::lemma_earth(d, 21);
    }
}

} // verus!
