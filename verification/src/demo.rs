//! The showcase room: ten small circuits on one sheet.
use vstd::prelude::*;

use crate::binary64::Real;
use crate::lists;
use crate::modules::{capacitor, opamp, pot, resistor};
use crate::netlist;
use crate::parts::{self, ElementKind, ElementSpec, Part, Wave};
use crate::sheet;

verus! {

/// 100 times.
pub const BETA_100: u64 = 0x4059_0000_0000_0000;

/// 0.01 farads.
pub const FARADS_10_MILLI: u64 = 0x3f84_7ae1_47ae_147b;

/// 1e-06 farads.
pub const FARADS_1_MICRO: u64 = 0x3eb0_c6f7_a0b5_ed8d;

/// 4.7e-06 farads.
pub const FARADS_4P7_MICRO: u64 = 0x3ed3_b696_29a2_90b9;

/// 0.005 farads.
pub const FARADS_5_MILLI: u64 = 0x3f74_7ae1_47ae_147b;

/// 0.05 amperes for a volt squared.
pub const GAIN_50_MILLI: u64 = 0x3fa9_9999_9999_999a;

/// 1 hertz.
pub const HERTZ_1: u64 = 0x3ff0_0000_0000_0000;

/// 0.3 hertz.
pub const HERTZ_300_MILLI: u64 = 0x3fd3_3333_3333_3333;

/// 0.4 hertz.
pub const HERTZ_400_MILLI: u64 = 0x3fd9_9999_9999_999a;

/// 440 hertz.
pub const HERTZ_440: u64 = 0x407b_8000_0000_0000;

/// 100000 ohms.
pub const OHMS_100K: u64 = 0x40f8_6a00_0000_0000;

/// 10000 ohms.
pub const OHMS_10K: u64 = 0x40c3_8800_0000_0000;

/// 1000 ohms.
pub const OHMS_1K: u64 = 0x408f_4000_0000_0000;

/// 1e+06 ohms.
pub const OHMS_1M: u64 = 0x412e_8480_0000_0000;

/// 220 ohms.
pub const OHMS_220: u64 = 0x406b_8000_0000_0000;

/// 2e+06 ohms.
pub const OHMS_2M: u64 = 0x413e_8480_0000_0000;

/// 330 ohms.
pub const OHMS_330: u64 = 0x4074_a000_0000_0000;

/// 470 ohms.
pub const OHMS_470: u64 = 0x407d_6000_0000_0000;

/// 60 ohms.
pub const OHMS_60: u64 = 0x404e_0000_0000_0000;

/// 8 ohms.
pub const OHMS_8: u64 = 0x4020_0000_0000_0000;

/// 90 ohms.
pub const OHMS_90: u64 = 0x4056_8000_0000_0000;

/// 0.4 of the whole.
pub const PART_400_MILLI: u64 = 0x3fd9_9999_9999_999a;

/// 0.5 of the whole.
pub const PART_500_MILLI: u64 = 0x3fe0_0000_0000_0000;

/// 1.5 volts.
pub const VOLTS_1P5: u64 = 0x3ff8_0000_0000_0000;

/// 2 volts.
pub const VOLTS_2: u64 = 0x4000_0000_0000_0000;

/// 2.5 volts.
pub const VOLTS_2P5: u64 = 0x4004_0000_0000_0000;

/// 3 volts.
pub const VOLTS_3: u64 = 0x4008_0000_0000_0000;

/// 5 volts.
pub const VOLTS_5: u64 = 0x4014_0000_0000_0000;

/// 5.6 volts.
pub const VOLTS_5P6: u64 = 0x4016_6666_6666_6666;

/// 6 volts.
pub const VOLTS_6: u64 = 0x4018_0000_0000_0000;

/// 9 volts.
pub const VOLTS_9: u64 = 0x4022_0000_0000_0000;

/// 1 watts.
pub const WATTS_1: u64 = 0x3ff0_0000_0000_0000;

/// 1.2 watts.
pub const WATTS_1P2: u64 = 0x3ff3_3333_3333_3333;

/// 0.4 watts.
pub const WATTS_400_MILLI: u64 = 0x3fd9_9999_9999_999a;

/// 0.6 watts.
pub const WATTS_600_MILLI: u64 = 0x3fe3_3333_3333_3333;

/// A battery.
#[verifier::allow_in_spec]
pub fn battery(volts: Real) -> (r: ElementKind)
    returns
        (ElementKind::VoltageSource { wave: Wave::Sine, dc: volts, amp: Real { bits: 0 }, hz: Real { bits: 0 }, phase: Real { bits: 0 } }),
{
    ElementKind::VoltageSource { wave: Wave::Sine, dc: volts, amp: Real { bits: 0 }, hz: Real { bits: 0 }, phase: Real { bits: 0 } }
}

/// A wave about zero.
#[verifier::allow_in_spec]
pub fn sine(amp: Real, hz: Real) -> (r: ElementKind)
    returns
        (ElementKind::VoltageSource { wave: Wave::Sine, dc: Real { bits: 0 }, amp: amp, hz: hz, phase: Real { bits: 0 } }),
{
    ElementKind::VoltageSource { wave: Wave::Sine, dc: Real { bits: 0 }, amp: amp, hz: hz, phase: Real { bits: 0 } }
}

/// A wave about a level.
#[verifier::allow_in_spec]
pub fn wobble(dc: Real, amp: Real, hz: Real) -> (r: ElementKind)
    returns
        (ElementKind::VoltageSource { wave: Wave::Sine, dc: dc, amp: amp, hz: hz, phase: Real { bits: 0 } }),
{
    ElementKind::VoltageSource { wave: Wave::Sine, dc: dc, amp: amp, hz: hz, phase: Real { bits: 0 } }
}

/// A lamp.
#[verifier::allow_in_spec]
pub fn lamp(ohms: Real, rated_watts: Real) -> (r: ElementKind)
    returns
        (ElementKind::Lamp { ohms, rated_watts }),
{
    ElementKind::Lamp { ohms, rated_watts }
}

/// Puts some parts behind others.
fn append_parts(out: &mut Vec<ElementSpec>, more: Vec<ElementSpec>)
    ensures
        lists::views(final(out)@) == lists::views(old(out)@) + lists::views(more@),
{
    let ghost added = more@;
    let mut more: Vec<ElementSpec> = more;
    out.append(&mut more);
    proof {
        assert(lists::views(out@) =~= lists::views(old(out)@) + lists::views(added));
    }
}

/// A battery, a switch and a lamp.
pub open spec fn switched_lamp_parts() -> Seq<Part> {
    seq![
        parts::plain(1, battery(Real { bits: VOLTS_9 }), seq![sheet::at(2, 2), sheet::at(2, 8)]),
        parts::plain(2, ElementKind::Wire, seq![sheet::at(2, 2), sheet::at(7, 2)]),
        parts::plain(3, ElementKind::Switch { closed: false }, seq![sheet::at(7, 2), sheet::at(11, 2)]),
        parts::plain(4, ElementKind::Wire, seq![sheet::at(11, 2), sheet::at(16, 2)]),
        parts::plain(5, lamp(Real { bits: OHMS_90 }, Real { bits: WATTS_1 }), seq![sheet::at(16, 2), sheet::at(16, 8)]),
        parts::plain(6, ElementKind::Wire, seq![sheet::at(16, 8), sheet::at(9, 8)]),
        parts::plain(7, ElementKind::Ground, seq![sheet::at(9, 8)]),
        parts::plain(8, ElementKind::Wire, seq![sheet::at(9, 8), sheet::at(2, 8)]),
    ]
}

/// A battery, a switch and a lamp.
fn switched_lamp() -> (out: Vec<ElementSpec>)
    ensures
        lists::views(out@) == switched_lamp_parts(),
{
    let mut out: Vec<ElementSpec> = Vec::new();
    out.push(ElementSpec::two(1, battery(Real { bits: VOLTS_9 }), (2, 2), (2, 8)));
    out.push(ElementSpec::two(2, ElementKind::Wire, (2, 2), (7, 2)));
    out.push(ElementSpec::two(3, ElementKind::Switch { closed: false }, (7, 2), (11, 2)));
    out.push(ElementSpec::two(4, ElementKind::Wire, (11, 2), (16, 2)));
    out.push(ElementSpec::two(5, lamp(Real { bits: OHMS_90 }, Real { bits: WATTS_1 }), (16, 2), (16, 8)));
    out.push(ElementSpec::two(6, ElementKind::Wire, (16, 8), (9, 8)));
    out.push(ElementSpec::one(7, ElementKind::Ground, (9, 8)));
    out.push(ElementSpec::two(8, ElementKind::Wire, (9, 8), (2, 8)));
    assert(lists::views(out@) =~= switched_lamp_parts());
    out
}

/// A knob that dims a lamp through a transistor.
pub open spec fn dimmer_parts() -> Seq<Part> {
    seq![
        parts::plain(10, battery(Real { bits: VOLTS_9 }), seq![sheet::at(22, 2), sheet::at(22, 8)]),
        parts::plain(11, ElementKind::Wire, seq![sheet::at(22, 2), sheet::at(26, 2)]),
        parts::plain(12, ElementKind::Wire, seq![sheet::at(26, 2), sheet::at(33, 2)]),
        parts::plain(13, pot(Real { bits: OHMS_10K }, Real { bits: PART_500_MILLI }), seq![sheet::at(26, 8), sheet::at(28, 5), sheet::at(26, 2)]),
        parts::plain(14, resistor(Real { bits: OHMS_1K }), seq![sheet::at(28, 5), sheet::at(31, 5)]),
        parts::plain(15, ElementKind::Npn { beta: Real { bits: BETA_100 } }, seq![sheet::at(31, 5), sheet::at(33, 2), sheet::at(33, 6)]),
        parts::plain(16, lamp(Real { bits: OHMS_220 }, Real { bits: WATTS_400_MILLI }), seq![sheet::at(33, 6), sheet::at(33, 8)]),
        parts::plain(17, ElementKind::Wire, seq![sheet::at(33, 8), sheet::at(26, 8)]),
        parts::plain(18, ElementKind::Wire, seq![sheet::at(26, 8), sheet::at(24, 8)]),
        parts::plain(19, ElementKind::Ground, seq![sheet::at(24, 8)]),
        parts::plain(20, ElementKind::Wire, seq![sheet::at(24, 8), sheet::at(22, 8)]),
    ]
}

/// A knob that dims a lamp through a transistor.
fn dimmer() -> (out: Vec<ElementSpec>)
    ensures
        lists::views(out@) == dimmer_parts(),
{
    let mut out: Vec<ElementSpec> = Vec::new();
    out.push(ElementSpec::two(10, battery(Real { bits: VOLTS_9 }), (22, 2), (22, 8)));
    out.push(ElementSpec::two(11, ElementKind::Wire, (22, 2), (26, 2)));
    out.push(ElementSpec::two(12, ElementKind::Wire, (26, 2), (33, 2)));
    out.push(ElementSpec::three(13, pot(Real { bits: OHMS_10K }, Real { bits: PART_500_MILLI }), (26, 8), (28, 5), (26, 2)));
    out.push(ElementSpec::two(14, resistor(Real { bits: OHMS_1K }), (28, 5), (31, 5)));
    out.push(ElementSpec::three(15, ElementKind::Npn { beta: Real { bits: BETA_100 } }, (31, 5), (33, 2), (33, 6)));
    out.push(ElementSpec::two(16, lamp(Real { bits: OHMS_220 }, Real { bits: WATTS_400_MILLI }), (33, 6), (33, 8)));
    out.push(ElementSpec::two(17, ElementKind::Wire, (33, 8), (26, 8)));
    out.push(ElementSpec::two(18, ElementKind::Wire, (26, 8), (24, 8)));
    out.push(ElementSpec::one(19, ElementKind::Ground, (24, 8)));
    out.push(ElementSpec::two(20, ElementKind::Wire, (24, 8), (22, 8)));
    assert(lists::views(out@) =~= dimmer_parts());
    out
}

/// A slow wave that switches a lamp, softened by a capacitor.
pub open spec fn fader_parts() -> Seq<Part> {
    seq![
        parts::plain(30, battery(Real { bits: VOLTS_9 }), seq![sheet::at(2, 12), sheet::at(2, 18)]),
        parts::plain(31, ElementKind::Wire, seq![sheet::at(2, 12), sheet::at(6, 12)]),
        parts::plain(32, lamp(Real { bits: OHMS_60 }, Real { bits: WATTS_1P2 }), seq![sheet::at(6, 12), sheet::at(10, 12)]),
        parts::plain(33, ElementKind::Wire, seq![sheet::at(10, 12), sheet::at(12, 12)]),
        parts::plain(34, ElementKind::Wire, seq![sheet::at(12, 12), sheet::at(12, 13)]),
        parts::plain(35, ElementKind::Nmos { vt: Real { bits: VOLTS_1P5 }, k: Real { bits: GAIN_50_MILLI } }, seq![sheet::at(10, 15), sheet::at(12, 13), sheet::at(12, 17)]),
        parts::plain(36, ElementKind::Wire, seq![sheet::at(12, 17), sheet::at(12, 18)]),
        parts::plain(37, ElementKind::Wire, seq![sheet::at(12, 18), sheet::at(6, 18)]),
        parts::plain(38, ElementKind::Wire, seq![sheet::at(6, 18), sheet::at(2, 18)]),
        parts::plain(39, wobble(Real { bits: VOLTS_3 }, Real { bits: VOLTS_3 }, Real { bits: HERTZ_300_MILLI }), seq![sheet::at(6, 15), sheet::at(6, 18)]),
        parts::plain(40, ElementKind::Wire, seq![sheet::at(6, 15), sheet::at(10, 15)]),
        parts::plain(41, ElementKind::Ground, seq![sheet::at(6, 18)]),
        parts::plain(42, capacitor(Real { bits: FARADS_5_MILLI }), seq![sheet::at(6, 10), sheet::at(10, 10)]),
        parts::plain(43, ElementKind::Wire, seq![sheet::at(6, 12), sheet::at(6, 10)]),
        parts::plain(44, ElementKind::Wire, seq![sheet::at(10, 12), sheet::at(10, 10)]),
    ]
}

/// A slow wave that switches a lamp, softened by a capacitor.
fn fader() -> (out: Vec<ElementSpec>)
    ensures
        lists::views(out@) == fader_parts(),
{
    let mut out: Vec<ElementSpec> = Vec::new();
    out.push(ElementSpec::two(30, battery(Real { bits: VOLTS_9 }), (2, 12), (2, 18)));
    out.push(ElementSpec::two(31, ElementKind::Wire, (2, 12), (6, 12)));
    out.push(ElementSpec::two(32, lamp(Real { bits: OHMS_60 }, Real { bits: WATTS_1P2 }), (6, 12), (10, 12)));
    out.push(ElementSpec::two(33, ElementKind::Wire, (10, 12), (12, 12)));
    out.push(ElementSpec::two(34, ElementKind::Wire, (12, 12), (12, 13)));
    out.push(ElementSpec::three(35, ElementKind::Nmos { vt: Real { bits: VOLTS_1P5 }, k: Real { bits: GAIN_50_MILLI } }, (10, 15), (12, 13), (12, 17)));
    out.push(ElementSpec::two(36, ElementKind::Wire, (12, 17), (12, 18)));
    out.push(ElementSpec::two(37, ElementKind::Wire, (12, 18), (6, 18)));
    out.push(ElementSpec::two(38, ElementKind::Wire, (6, 18), (2, 18)));
    out.push(ElementSpec::two(39, wobble(Real { bits: VOLTS_3 }, Real { bits: VOLTS_3 }, Real { bits: HERTZ_300_MILLI }), (6, 15), (6, 18)));
    out.push(ElementSpec::two(40, ElementKind::Wire, (6, 15), (10, 15)));
    out.push(ElementSpec::one(41, ElementKind::Ground, (6, 18)));
    out.push(ElementSpec::two(42, capacitor(Real { bits: FARADS_5_MILLI }), (6, 10), (10, 10)));
    out.push(ElementSpec::two(43, ElementKind::Wire, (6, 12), (6, 10)));
    out.push(ElementSpec::two(44, ElementKind::Wire, (10, 12), (10, 10)));
    assert(lists::views(out@) =~= fader_parts());
    out
}

/// A comparator that blinks two lights in turn.
pub open spec fn blinker_parts() -> Seq<Part> {
    seq![
        parts::plain(50, sine(Real { bits: VOLTS_2 }, Real { bits: HERTZ_400_MILLI }), seq![sheet::at(22, 13), sheet::at(22, 18)]),
        parts::plain(51, ElementKind::Wire, seq![sheet::at(22, 13), sheet::at(26, 13)]),
        parts::plain(52, opamp(Real { bits: VOLTS_5 }), seq![sheet::at(26, 13), sheet::at(26, 15), sheet::at(30, 14)]),
        parts::plain(53, ElementKind::Wire, seq![sheet::at(26, 15), sheet::at(24, 15)]),
        parts::plain(54, ElementKind::Wire, seq![sheet::at(24, 15), sheet::at(24, 18)]),
        parts::plain(55, resistor(Real { bits: OHMS_220 }), seq![sheet::at(30, 14), sheet::at(33, 14)]),
        parts::plain(56, ElementKind::Led { color: 0 }, seq![sheet::at(33, 14), sheet::at(33, 18)]),
        parts::plain(57, ElementKind::Wire, seq![sheet::at(33, 14), sheet::at(35, 14)]),
        parts::plain(58, ElementKind::Led { color: 1 }, seq![sheet::at(35, 18), sheet::at(35, 14)]),
        parts::plain(59, ElementKind::Wire, seq![sheet::at(33, 18), sheet::at(35, 18)]),
        parts::plain(60, ElementKind::Wire, seq![sheet::at(24, 18), sheet::at(33, 18)]),
        parts::plain(61, ElementKind::Wire, seq![sheet::at(22, 18), sheet::at(24, 18)]),
        parts::plain(62, ElementKind::Ground, seq![sheet::at(24, 18)]),
    ]
}

/// A comparator that blinks two lights in turn.
fn blinker() -> (out: Vec<ElementSpec>)
    ensures
        lists::views(out@) == blinker_parts(),
{
    let mut out: Vec<ElementSpec> = Vec::new();
    out.push(ElementSpec::two(50, sine(Real { bits: VOLTS_2 }, Real { bits: HERTZ_400_MILLI }), (22, 13), (22, 18)));
    out.push(ElementSpec::two(51, ElementKind::Wire, (22, 13), (26, 13)));
    out.push(ElementSpec::three(52, opamp(Real { bits: VOLTS_5 }), (26, 13), (26, 15), (30, 14)));
    out.push(ElementSpec::two(53, ElementKind::Wire, (26, 15), (24, 15)));
    out.push(ElementSpec::two(54, ElementKind::Wire, (24, 15), (24, 18)));
    out.push(ElementSpec::two(55, resistor(Real { bits: OHMS_220 }), (30, 14), (33, 14)));
    out.push(ElementSpec::two(56, ElementKind::Led { color: 0 }, (33, 14), (33, 18)));
    out.push(ElementSpec::two(57, ElementKind::Wire, (33, 14), (35, 14)));
    out.push(ElementSpec::two(58, ElementKind::Led { color: 1 }, (35, 18), (35, 14)));
    out.push(ElementSpec::two(59, ElementKind::Wire, (33, 18), (35, 18)));
    out.push(ElementSpec::two(60, ElementKind::Wire, (24, 18), (33, 18)));
    out.push(ElementSpec::two(61, ElementKind::Wire, (22, 18), (24, 18)));
    out.push(ElementSpec::one(62, ElementKind::Ground, (24, 18)));
    assert(lists::views(out@) =~= blinker_parts());
    out
}

/// An oscillator of one amplifier, about once a second.
pub open spec fn multivibrator_parts() -> Seq<Part> {
    seq![
        parts::plain(70, opamp(Real { bits: VOLTS_5 }), seq![sheet::at(6, 26), sheet::at(6, 24), sheet::at(10, 25)]),
        parts::plain(71, ElementKind::Wire, seq![sheet::at(10, 25), sheet::at(12, 25)]),
        parts::plain(72, resistor(Real { bits: OHMS_100K }), seq![sheet::at(12, 25), sheet::at(12, 21)]),
        parts::plain(73, ElementKind::Wire, seq![sheet::at(12, 21), sheet::at(4, 21)]),
        parts::plain(74, ElementKind::Wire, seq![sheet::at(4, 21), sheet::at(4, 24)]),
        parts::plain(75, ElementKind::Wire, seq![sheet::at(4, 24), sheet::at(6, 24)]),
        parts::plain(76, capacitor(Real { bits: FARADS_4P7_MICRO }), seq![sheet::at(4, 24), sheet::at(4, 28)]),
        parts::plain(77, ElementKind::Ground, seq![sheet::at(4, 28)]),
        parts::plain(78, resistor(Real { bits: OHMS_100K }), seq![sheet::at(12, 25), sheet::at(12, 29)]),
        parts::plain(79, ElementKind::Wire, seq![sheet::at(12, 29), sheet::at(9, 29)]),
        parts::plain(80, ElementKind::Wire, seq![sheet::at(9, 29), sheet::at(9, 26)]),
        parts::plain(81, ElementKind::Wire, seq![sheet::at(9, 26), sheet::at(6, 26)]),
        parts::plain(82, resistor(Real { bits: OHMS_100K }), seq![sheet::at(9, 29), sheet::at(9, 32)]),
        parts::plain(83, ElementKind::Ground, seq![sheet::at(9, 32)]),
        parts::plain(84, resistor(Real { bits: OHMS_470 }), seq![sheet::at(12, 25), sheet::at(15, 25)]),
        parts::plain(85, ElementKind::Led { color: 3 }, seq![sheet::at(15, 25), sheet::at(15, 29)]),
        parts::plain(86, ElementKind::Ground, seq![sheet::at(15, 29)]),
    ]
}

/// An oscillator of one amplifier, about once a second.
fn multivibrator() -> (out: Vec<ElementSpec>)
    ensures
        lists::views(out@) == multivibrator_parts(),
{
    let mut out: Vec<ElementSpec> = Vec::new();
    out.push(ElementSpec::three(70, opamp(Real { bits: VOLTS_5 }), (6, 26), (6, 24), (10, 25)));
    out.push(ElementSpec::two(71, ElementKind::Wire, (10, 25), (12, 25)));
    out.push(ElementSpec::two(72, resistor(Real { bits: OHMS_100K }), (12, 25), (12, 21)));
    out.push(ElementSpec::two(73, ElementKind::Wire, (12, 21), (4, 21)));
    out.push(ElementSpec::two(74, ElementKind::Wire, (4, 21), (4, 24)));
    out.push(ElementSpec::two(75, ElementKind::Wire, (4, 24), (6, 24)));
    out.push(ElementSpec::two(76, capacitor(Real { bits: FARADS_4P7_MICRO }), (4, 24), (4, 28)));
    out.push(ElementSpec::one(77, ElementKind::Ground, (4, 28)));
    out.push(ElementSpec::two(78, resistor(Real { bits: OHMS_100K }), (12, 25), (12, 29)));
    out.push(ElementSpec::two(79, ElementKind::Wire, (12, 29), (9, 29)));
    out.push(ElementSpec::two(80, ElementKind::Wire, (9, 29), (9, 26)));
    out.push(ElementSpec::two(81, ElementKind::Wire, (9, 26), (6, 26)));
    out.push(ElementSpec::two(82, resistor(Real { bits: OHMS_100K }), (9, 29), (9, 32)));
    out.push(ElementSpec::one(83, ElementKind::Ground, (9, 32)));
    out.push(ElementSpec::two(84, resistor(Real { bits: OHMS_470 }), (12, 25), (15, 25)));
    out.push(ElementSpec::two(85, ElementKind::Led { color: 3 }, (15, 25), (15, 29)));
    out.push(ElementSpec::one(86, ElementKind::Ground, (15, 29)));
    assert(lists::views(out@) =~= multivibrator_parts());
    out
}

/// A wave through a diode into a capacitor and a lamp.
pub open spec fn rectifier_parts() -> Seq<Part> {
    seq![
        parts::plain(90, sine(Real { bits: VOLTS_6 }, Real { bits: HERTZ_1 }), seq![sheet::at(20, 22), sheet::at(20, 26)]),
        parts::plain(91, ElementKind::Wire, seq![sheet::at(20, 22), sheet::at(23, 22)]),
        parts::plain(92, ElementKind::Diode, seq![sheet::at(23, 22), sheet::at(26, 22)]),
        parts::plain(93, ElementKind::Wire, seq![sheet::at(26, 22), sheet::at(29, 22)]),
        parts::plain(94, capacitor(Real { bits: FARADS_10_MILLI }), seq![sheet::at(26, 22), sheet::at(26, 26)]),
        parts::plain(95, lamp(Real { bits: OHMS_60 }, Real { bits: WATTS_600_MILLI }), seq![sheet::at(29, 22), sheet::at(29, 26)]),
        parts::plain(96, ElementKind::Wire, seq![sheet::at(29, 26), sheet::at(26, 26)]),
        parts::plain(97, ElementKind::Wire, seq![sheet::at(26, 26), sheet::at(23, 26)]),
        parts::plain(98, ElementKind::Ground, seq![sheet::at(23, 26)]),
        parts::plain(99, ElementKind::Wire, seq![sheet::at(23, 26), sheet::at(20, 26)]),
    ]
}

/// A wave through a diode into a capacitor and a lamp.
fn rectifier() -> (out: Vec<ElementSpec>)
    ensures
        lists::views(out@) == rectifier_parts(),
{
    let mut out: Vec<ElementSpec> = Vec::new();
    out.push(ElementSpec::two(90, sine(Real { bits: VOLTS_6 }, Real { bits: HERTZ_1 }), (20, 22), (20, 26)));
    out.push(ElementSpec::two(91, ElementKind::Wire, (20, 22), (23, 22)));
    out.push(ElementSpec::two(92, ElementKind::Diode, (23, 22), (26, 22)));
    out.push(ElementSpec::two(93, ElementKind::Wire, (26, 22), (29, 22)));
    out.push(ElementSpec::two(94, capacitor(Real { bits: FARADS_10_MILLI }), (26, 22), (26, 26)));
    out.push(ElementSpec::two(95, lamp(Real { bits: OHMS_60 }, Real { bits: WATTS_600_MILLI }), (29, 22), (29, 26)));
    out.push(ElementSpec::two(96, ElementKind::Wire, (29, 26), (26, 26)));
    out.push(ElementSpec::two(97, ElementKind::Wire, (26, 26), (23, 26)));
    out.push(ElementSpec::one(98, ElementKind::Ground, (23, 26)));
    out.push(ElementSpec::two(99, ElementKind::Wire, (23, 26), (20, 26)));
    assert(lists::views(out@) =~= rectifier_parts());
    out
}

/// A steady voltage for a light.
pub open spec fn regulator_parts() -> Seq<Part> {
    seq![
        parts::plain(100, battery(Real { bits: VOLTS_9 }), seq![sheet::at(33, 22), sheet::at(33, 26)]),
        parts::plain(101, resistor(Real { bits: OHMS_220 }), seq![sheet::at(33, 22), sheet::at(37, 22)]),
        parts::plain(102, ElementKind::Zener { vz: Real { bits: VOLTS_5P6 } }, seq![sheet::at(37, 26), sheet::at(37, 22)]),
        parts::plain(103, resistor(Real { bits: OHMS_330 }), seq![sheet::at(37, 22), sheet::at(40, 22)]),
        parts::plain(104, ElementKind::Led { color: 2 }, seq![sheet::at(40, 22), sheet::at(40, 26)]),
        parts::plain(105, ElementKind::Wire, seq![sheet::at(40, 26), sheet::at(37, 26)]),
        parts::plain(106, ElementKind::Wire, seq![sheet::at(37, 26), sheet::at(35, 26)]),
        parts::plain(107, ElementKind::Ground, seq![sheet::at(35, 26)]),
        parts::plain(108, ElementKind::Wire, seq![sheet::at(35, 26), sheet::at(33, 26)]),
    ]
}

/// A steady voltage for a light.
fn regulator() -> (out: Vec<ElementSpec>)
    ensures
        lists::views(out@) == regulator_parts(),
{
    let mut out: Vec<ElementSpec> = Vec::new();
    out.push(ElementSpec::two(100, battery(Real { bits: VOLTS_9 }), (33, 22), (33, 26)));
    out.push(ElementSpec::two(101, resistor(Real { bits: OHMS_220 }), (33, 22), (37, 22)));
    out.push(ElementSpec::two(102, ElementKind::Zener { vz: Real { bits: VOLTS_5P6 } }, (37, 26), (37, 22)));
    out.push(ElementSpec::two(103, resistor(Real { bits: OHMS_330 }), (37, 22), (40, 22)));
    out.push(ElementSpec::two(104, ElementKind::Led { color: 2 }, (40, 22), (40, 26)));
    out.push(ElementSpec::two(105, ElementKind::Wire, (40, 26), (37, 26)));
    out.push(ElementSpec::two(106, ElementKind::Wire, (37, 26), (35, 26)));
    out.push(ElementSpec::one(107, ElementKind::Ground, (35, 26)));
    out.push(ElementSpec::two(108, ElementKind::Wire, (35, 26), (33, 26)));
    assert(lists::views(out@) =~= regulator_parts());
    out
}

/// An oscillator whose pace a knob sets.
pub open spec fn ota_vco_parts() -> Seq<Part> {
    seq![
        parts::plain(120, ElementKind::Ota, seq![sheet::at(4, 36), sheet::at(4, 38), sheet::at(8, 37), sheet::at(6, 40)]),
        parts::plain(121, ElementKind::Wire, seq![sheet::at(4, 36), sheet::at(2, 36)]),
        parts::plain(122, ElementKind::Ground, seq![sheet::at(2, 36)]),
        parts::plain(123, capacitor(Real { bits: FARADS_1_MICRO }), seq![sheet::at(8, 37), sheet::at(8, 41)]),
        parts::plain(124, ElementKind::Ground, seq![sheet::at(8, 41)]),
        parts::plain(125, resistor(Real { bits: OHMS_1M }), seq![sheet::at(8, 37), sheet::at(13, 37)]),
        parts::plain(130, opamp(Real { bits: VOLTS_5 }), seq![sheet::at(13, 37), sheet::at(13, 39), sheet::at(17, 38)]),
        parts::plain(131, resistor(Real { bits: OHMS_2M }), seq![sheet::at(19, 34), sheet::at(19, 38)]),
        parts::plain(132, ElementKind::Wire, seq![sheet::at(17, 38), sheet::at(19, 38)]),
        parts::plain(133, ElementKind::Wire, seq![sheet::at(19, 34), sheet::at(13, 34)]),
        parts::plain(134, ElementKind::Wire, seq![sheet::at(13, 34), sheet::at(13, 37)]),
        parts::plain(135, ElementKind::Wire, seq![sheet::at(13, 39), sheet::at(11, 39)]),
        parts::plain(136, ElementKind::Ground, seq![sheet::at(11, 39)]),
        parts::plain(137, ElementKind::Wire, seq![sheet::at(17, 38), sheet::at(17, 42)]),
        parts::plain(138, ElementKind::Wire, seq![sheet::at(17, 42), sheet::at(2, 42)]),
        parts::plain(139, ElementKind::Wire, seq![sheet::at(2, 42), sheet::at(2, 38)]),
        parts::plain(140, ElementKind::Wire, seq![sheet::at(2, 38), sheet::at(4, 38)]),
        parts::plain(141, resistor(Real { bits: OHMS_470 }), seq![sheet::at(17, 38), sheet::at(21, 38)]),
        parts::plain(142, ElementKind::Led { color: 4 }, seq![sheet::at(21, 38), sheet::at(21, 42)]),
        parts::plain(143, ElementKind::Ground, seq![sheet::at(21, 42)]),
        parts::plain(144, battery(Real { bits: VOLTS_9 }), seq![sheet::at(25, 34), sheet::at(25, 42)]),
        parts::plain(145, ElementKind::Ground, seq![sheet::at(25, 42)]),
        parts::plain(146, ElementKind::Wire, seq![sheet::at(25, 34), sheet::at(27, 34)]),
        parts::plain(147, ElementKind::Wire, seq![sheet::at(25, 42), sheet::at(27, 42)]),
        parts::plain(148, pot(Real { bits: OHMS_10K }, Real { bits: PART_400_MILLI }), seq![sheet::at(27, 42), sheet::at(29, 38), sheet::at(27, 34)]),
        parts::plain(149, resistor(Real { bits: OHMS_100K }), seq![sheet::at(29, 38), sheet::at(29, 44)]),
        parts::plain(150, ElementKind::Wire, seq![sheet::at(29, 44), sheet::at(6, 44)]),
        parts::plain(151, ElementKind::Wire, seq![sheet::at(6, 44), sheet::at(6, 40)]),
    ]
}

/// An oscillator whose pace a knob sets.
fn ota_vco() -> (out: Vec<ElementSpec>)
    ensures
        lists::views(out@) == ota_vco_parts(),
{
    let mut out: Vec<ElementSpec> = Vec::new();
    out.push(ElementSpec::new(120, ElementKind::Ota, vec![(4, 36), (4, 38), (8, 37), (6, 40)]));
    out.push(ElementSpec::two(121, ElementKind::Wire, (4, 36), (2, 36)));
    out.push(ElementSpec::one(122, ElementKind::Ground, (2, 36)));
    out.push(ElementSpec::two(123, capacitor(Real { bits: FARADS_1_MICRO }), (8, 37), (8, 41)));
    out.push(ElementSpec::one(124, ElementKind::Ground, (8, 41)));
    out.push(ElementSpec::two(125, resistor(Real { bits: OHMS_1M }), (8, 37), (13, 37)));
    out.push(ElementSpec::three(130, opamp(Real { bits: VOLTS_5 }), (13, 37), (13, 39), (17, 38)));
    out.push(ElementSpec::two(131, resistor(Real { bits: OHMS_2M }), (19, 34), (19, 38)));
    out.push(ElementSpec::two(132, ElementKind::Wire, (17, 38), (19, 38)));
    out.push(ElementSpec::two(133, ElementKind::Wire, (19, 34), (13, 34)));
    out.push(ElementSpec::two(134, ElementKind::Wire, (13, 34), (13, 37)));
    out.push(ElementSpec::two(135, ElementKind::Wire, (13, 39), (11, 39)));
    out.push(ElementSpec::one(136, ElementKind::Ground, (11, 39)));
    out.push(ElementSpec::two(137, ElementKind::Wire, (17, 38), (17, 42)));
    out.push(ElementSpec::two(138, ElementKind::Wire, (17, 42), (2, 42)));
    out.push(ElementSpec::two(139, ElementKind::Wire, (2, 42), (2, 38)));
    out.push(ElementSpec::two(140, ElementKind::Wire, (2, 38), (4, 38)));
    out.push(ElementSpec::two(141, resistor(Real { bits: OHMS_470 }), (17, 38), (21, 38)));
    out.push(ElementSpec::two(142, ElementKind::Led { color: 4 }, (21, 38), (21, 42)));
    out.push(ElementSpec::one(143, ElementKind::Ground, (21, 42)));
    out.push(ElementSpec::two(144, battery(Real { bits: VOLTS_9 }), (25, 34), (25, 42)));
    out.push(ElementSpec::one(145, ElementKind::Ground, (25, 42)));
    out.push(ElementSpec::two(146, ElementKind::Wire, (25, 34), (27, 34)));
    out.push(ElementSpec::two(147, ElementKind::Wire, (25, 42), (27, 42)));
    out.push(ElementSpec::three(148, pot(Real { bits: OHMS_10K }, Real { bits: PART_400_MILLI }), (27, 42), (29, 38), (27, 34)));
    out.push(ElementSpec::two(149, resistor(Real { bits: OHMS_100K }), (29, 38), (29, 44)));
    out.push(ElementSpec::two(150, ElementKind::Wire, (29, 44), (6, 44)));
    out.push(ElementSpec::two(151, ElementKind::Wire, (6, 44), (6, 40)));
    assert(lists::views(out@) =~= ota_vco_parts());
    out
}

/// A timer that blinks a light, with a button to hold it lit.
pub open spec fn timer_parts() -> Seq<Part> {
    seq![
        parts::plain(160, battery(Real { bits: VOLTS_9 }), seq![sheet::at(34, 36), sheet::at(34, 48)]),
        parts::plain(161, ElementKind::Ground, seq![sheet::at(34, 48)]),
        parts::plain(162, ElementKind::Wire, seq![sheet::at(34, 36), sheet::at(34, 34)]),
        parts::plain(163, ElementKind::Wire, seq![sheet::at(34, 34), sheet::at(52, 34)]),
        parts::plain(164, ElementKind::Wire, seq![sheet::at(34, 36), sheet::at(40, 36)]),
        parts::plain(165, ElementKind::Timer555, seq![sheet::at(40, 36), sheet::at(40, 44), sheet::at(40, 38), sheet::at(40, 42), sheet::at(46, 42), sheet::at(46, 38)]),
        parts::plain(166, resistor(Real { bits: OHMS_100K }), seq![sheet::at(52, 34), sheet::at(52, 38)]),
        parts::plain(167, ElementKind::Wire, seq![sheet::at(52, 38), sheet::at(46, 38)]),
        parts::plain(168, resistor(Real { bits: OHMS_100K }), seq![sheet::at(52, 38), sheet::at(52, 42)]),
        parts::plain(169, ElementKind::Wire, seq![sheet::at(52, 42), sheet::at(52, 46)]),
        parts::plain(170, ElementKind::Wire, seq![sheet::at(52, 46), sheet::at(38, 46)]),
        parts::plain(171, ElementKind::Wire, seq![sheet::at(38, 46), sheet::at(38, 42)]),
        parts::plain(172, ElementKind::Wire, seq![sheet::at(38, 42), sheet::at(40, 42)]),
        parts::plain(173, ElementKind::Wire, seq![sheet::at(38, 42), sheet::at(38, 38)]),
        parts::plain(174, ElementKind::Wire, seq![sheet::at(38, 38), sheet::at(40, 38)]),
        parts::plain(175, capacitor(Real { bits: FARADS_4P7_MICRO }), seq![sheet::at(38, 46), sheet::at(38, 48)]),
        parts::plain(176, ElementKind::Ground, seq![sheet::at(38, 48)]),
        parts::plain(177, ElementKind::Wire, seq![sheet::at(40, 44), sheet::at(36, 44)]),
        parts::plain(178, ElementKind::Ground, seq![sheet::at(36, 44)]),
        parts::plain(179, ElementKind::Wire, seq![sheet::at(38, 38), sheet::at(36, 38)]),
        parts::plain(180, ElementKind::Button { closed: false }, seq![sheet::at(36, 38), sheet::at(36, 40)]),
        parts::plain(181, ElementKind::Ground, seq![sheet::at(36, 40)]),
        parts::plain(182, resistor(Real { bits: OHMS_470 }), seq![sheet::at(46, 42), sheet::at(49, 42)]),
        parts::plain(183, ElementKind::Led { color: 3 }, seq![sheet::at(49, 42), sheet::at(49, 44)]),
        parts::plain(184, ElementKind::Ground, seq![sheet::at(49, 44)]),
    ]
}

/// A timer that blinks a light, with a button to hold it lit.
fn timer() -> (out: Vec<ElementSpec>)
    ensures
        lists::views(out@) == timer_parts(),
{
    let mut out: Vec<ElementSpec> = Vec::new();
    out.push(ElementSpec::two(160, battery(Real { bits: VOLTS_9 }), (34, 36), (34, 48)));
    out.push(ElementSpec::one(161, ElementKind::Ground, (34, 48)));
    out.push(ElementSpec::two(162, ElementKind::Wire, (34, 36), (34, 34)));
    out.push(ElementSpec::two(163, ElementKind::Wire, (34, 34), (52, 34)));
    out.push(ElementSpec::two(164, ElementKind::Wire, (34, 36), (40, 36)));
    out.push(ElementSpec::new(165, ElementKind::Timer555, vec![(40, 36), (40, 44), (40, 38), (40, 42), (46, 42), (46, 38)]));
    out.push(ElementSpec::two(166, resistor(Real { bits: OHMS_100K }), (52, 34), (52, 38)));
    out.push(ElementSpec::two(167, ElementKind::Wire, (52, 38), (46, 38)));
    out.push(ElementSpec::two(168, resistor(Real { bits: OHMS_100K }), (52, 38), (52, 42)));
    out.push(ElementSpec::two(169, ElementKind::Wire, (52, 42), (52, 46)));
    out.push(ElementSpec::two(170, ElementKind::Wire, (52, 46), (38, 46)));
    out.push(ElementSpec::two(171, ElementKind::Wire, (38, 46), (38, 42)));
    out.push(ElementSpec::two(172, ElementKind::Wire, (38, 42), (40, 42)));
    out.push(ElementSpec::two(173, ElementKind::Wire, (38, 42), (38, 38)));
    out.push(ElementSpec::two(174, ElementKind::Wire, (38, 38), (40, 38)));
    out.push(ElementSpec::two(175, capacitor(Real { bits: FARADS_4P7_MICRO }), (38, 46), (38, 48)));
    out.push(ElementSpec::one(176, ElementKind::Ground, (38, 48)));
    out.push(ElementSpec::two(177, ElementKind::Wire, (40, 44), (36, 44)));
    out.push(ElementSpec::one(178, ElementKind::Ground, (36, 44)));
    out.push(ElementSpec::two(179, ElementKind::Wire, (38, 38), (36, 38)));
    out.push(ElementSpec::two(180, ElementKind::Button { closed: false }, (36, 38), (36, 40)));
    out.push(ElementSpec::one(181, ElementKind::Ground, (36, 40)));
    out.push(ElementSpec::two(182, resistor(Real { bits: OHMS_470 }), (46, 42), (49, 42)));
    out.push(ElementSpec::two(183, ElementKind::Led { color: 3 }, (49, 42), (49, 44)));
    out.push(ElementSpec::one(184, ElementKind::Ground, (49, 44)));
    assert(lists::views(out@) =~= timer_parts());
    out
}

/// A wave of 440 hertz into a speaker, behind a switch.
pub open spec fn concert_pitch_parts() -> Seq<Part> {
    seq![
        parts::plain(200, sine(Real { bits: VOLTS_2P5 }, Real { bits: HERTZ_440 }), seq![sheet::at(2, 52), sheet::at(2, 60)]),
        parts::plain(201, ElementKind::Wire, seq![sheet::at(2, 52), sheet::at(5, 52)]),
        parts::plain(202, ElementKind::Switch { closed: false }, seq![sheet::at(5, 52), sheet::at(8, 52)]),
        parts::plain(203, resistor(Real { bits: OHMS_8 }), seq![sheet::at(8, 52), sheet::at(11, 52)]),
        parts::plain(204, ElementKind::Speaker { ohms: Real { bits: OHMS_8 } }, seq![sheet::at(11, 52), sheet::at(11, 60)]),
        parts::plain(205, ElementKind::Wire, seq![sheet::at(11, 60), sheet::at(2, 60)]),
        parts::plain(206, ElementKind::Ground, seq![sheet::at(2, 60)]),
    ]
}

/// A wave of 440 hertz into a speaker, behind a switch.
fn concert_pitch() -> (out: Vec<ElementSpec>)
    ensures
        lists::views(out@) == concert_pitch_parts(),
{
    let mut out: Vec<ElementSpec> = Vec::new();
    out.push(ElementSpec::two(200, sine(Real { bits: VOLTS_2P5 }, Real { bits: HERTZ_440 }), (2, 52), (2, 60)));
    out.push(ElementSpec::two(201, ElementKind::Wire, (2, 52), (5, 52)));
    out.push(ElementSpec::two(202, ElementKind::Switch { closed: false }, (5, 52), (8, 52)));
    out.push(ElementSpec::two(203, resistor(Real { bits: OHMS_8 }), (8, 52), (11, 52)));
    out.push(ElementSpec::two(204, ElementKind::Speaker { ohms: Real { bits: OHMS_8 } }, (11, 52), (11, 60)));
    out.push(ElementSpec::two(205, ElementKind::Wire, (11, 60), (2, 60)));
    out.push(ElementSpec::one(206, ElementKind::Ground, (2, 60)));
    assert(lists::views(out@) =~= concert_pitch_parts());
    out
}

/// The parts of the showcase.
pub open spec fn demo_parts() -> Seq<Part> {
    switched_lamp_parts()
        + dimmer_parts()
        + fader_parts()
        + blinker_parts()
        + multivibrator_parts()
        + rectifier_parts()
        + regulator_parts()
        + ota_vco_parts()
        + timer_parts()
        + concert_pitch_parts()
}

/// The showcase: ten small circuits on one sheet.
pub fn demo_room_circuit() -> (r: Vec<ElementSpec>)
    ensures
        lists::views(r@) == demo_parts(),
{
    let mut out: Vec<ElementSpec> = switched_lamp();
    append_parts(&mut out, dimmer());
    append_parts(&mut out, fader());
    append_parts(&mut out, blinker());
    append_parts(&mut out, multivibrator());
    append_parts(&mut out, rectifier());
    append_parts(&mut out, regulator());
    append_parts(&mut out, ota_vco());
    append_parts(&mut out, timer());
    append_parts(&mut out, concert_pitch());
    out
}

/// A battery, a switch and a lamp in one loop.
pub proof fn law_the_switched_lamp_is_wired()
    ensures
        ({
            let d = switched_lamp_parts();
            &&& d.len() == 8
            &&& netlist::has_part(d, 1, ElementKind::VoltageSource { wave: crate::parts::Wave::Sine, dc: Real { bits: 0x4022_0000_0000_0000 }, amp: Real { bits: 0 }, hz: Real { bits: 0 }, phase: Real { bits: 0 } })
            &&& netlist::has_part(d, 3, ElementKind::Switch { closed: false })
            &&& netlist::has_part(d, 5, ElementKind::Lamp { ohms: Real { bits: 0x4056_8000_0000_0000 }, rated_watts: Real { bits: 0x3ff0_0000_0000_0000 } })
            &&& netlist::has_ground(d, sheet::at(9, 8), 0)
            &&& netlist::on_net(d, 1, 0, sheet::at(2, 2))
            &&& netlist::on_net(d, 3, 0, sheet::at(2, 2))
            &&& netlist::on_net(d, 1, 1, sheet::at(2, 8))
            &&& netlist::on_net(d, 5, 1, sheet::at(2, 8))
            &&& netlist::earthed(d, sheet::at(2, 8))
            &&& netlist::on_net(d, 3, 1, sheet::at(11, 2))
            &&& netlist::on_net(d, 5, 0, sheet::at(11, 2))
        }),
{
    let d = switched_lamp_parts();
    assert(d.len() == 8);
    assert(netlist::has_part(d, 1, ElementKind::VoltageSource { wave: crate::parts::Wave::Sine, dc: Real { bits: 0x4022_0000_0000_0000 }, amp: Real { bits: 0 }, hz: Real { bits: 0 }, phase: Real { bits: 0 } })) by {
        netlist::lemma_part(d, 0);
        assert(d[0].id == 1);
        assert(d[0].kind == (ElementKind::VoltageSource { wave: crate::parts::Wave::Sine, dc: Real { bits: 0x4022_0000_0000_0000 }, amp: Real { bits: 0 }, hz: Real { bits: 0 }, phase: Real { bits: 0 } }));
    }
    assert(netlist::has_part(d, 3, ElementKind::Switch { closed: false })) by {
        netlist::lemma_part(d, 2);
        assert(d[2].id == 3);
        assert(d[2].kind == (ElementKind::Switch { closed: false }));
    }
    assert(netlist::has_part(d, 5, ElementKind::Lamp { ohms: Real { bits: 0x4056_8000_0000_0000 }, rated_watts: Real { bits: 0x3ff0_0000_0000_0000 } })) by {
        netlist::lemma_part(d, 4);
        assert(d[4].id == 5);
        assert(d[4].kind == (ElementKind::Lamp { ohms: Real { bits: 0x4056_8000_0000_0000 }, rated_watts: Real { bits: 0x3ff0_0000_0000_0000 } }));
    }
    assert(netlist::has_ground(d, sheet::at(9, 8), 0)) by {
        netlist::lemma_ground(d, 6);
        assert(d[6].pins[0] == sheet::at(9, 8));
    }
    assert(netlist::on_net(d, 1, 0, sheet::at(2, 2))) by {
        netlist::lemma_pin(d, 0, 1, 0);
        assert(d[0].pins[0] == sheet::at(2, 2));
    }
    assert(netlist::on_net(d, 3, 0, sheet::at(2, 2))) by {
        netlist::lemma_pin(d, 2, 3, 0);
        assert(d[2].pins[0] == sheet::at(7, 2));
        netlist::lemma_pin_along(d, 3, 0, sheet::at(7, 2), sheet::at(2, 2), 1);
    }
    assert(netlist::on_net(d, 1, 1, sheet::at(2, 8))) by {
        netlist::lemma_pin(d, 0, 1, 1);
        assert(d[0].pins[1] == sheet::at(2, 8));
    }
    assert(netlist::on_net(d, 5, 1, sheet::at(2, 8))) by {
        netlist::lemma_pin(d, 4, 5, 1);
        assert(d[4].pins[1] == sheet::at(16, 8));
        netlist::lemma_pin_along(d, 5, 1, sheet::at(16, 8), sheet::at(9, 8), 5);
        netlist::lemma_pin_along(d, 5, 1, sheet::at(9, 8), sheet::at(2, 8), 7);
    }
    assert(netlist::earthed(d, sheet::at(2, 8))) by {
        netlist::lemma_earth(d, 6);
        netlist::lemma_earth_along(d, sheet::at(9, 8), sheet::at(2, 8), 7);
    }
    assert(netlist::on_net(d, 3, 1, sheet::at(11, 2))) by {
        netlist::lemma_pin(d, 2, 3, 1);
        assert(d[2].pins[1] == sheet::at(11, 2));
    }
    assert(netlist::on_net(d, 5, 0, sheet::at(11, 2))) by {
        netlist::lemma_pin(d, 4, 5, 0);
        assert(d[4].pins[0] == sheet::at(16, 2));
        netlist::lemma_pin_along(d, 5, 0, sheet::at(16, 2), sheet::at(11, 2), 3);
    }
}

/// A knob across the battery sets the base of a follower that feeds the lamp.
pub proof fn law_the_dimmer_is_wired()
    ensures
        ({
            let d = dimmer_parts();
            &&& d.len() == 11
            &&& netlist::has_part(d, 10, ElementKind::VoltageSource { wave: crate::parts::Wave::Sine, dc: Real { bits: 0x4022_0000_0000_0000 }, amp: Real { bits: 0 }, hz: Real { bits: 0 }, phase: Real { bits: 0 } })
            &&& netlist::has_part(d, 13, ElementKind::Potentiometer { ohms: Real { bits: 0x40c3_8800_0000_0000 }, wiper: Real { bits: 0x3fe0_0000_0000_0000 } })
            &&& netlist::has_part(d, 14, ElementKind::Resistor { ohms: Real { bits: 0x408f_4000_0000_0000 } })
            &&& netlist::has_part(d, 15, ElementKind::Npn { beta: Real { bits: 0x4059_0000_0000_0000 } })
            &&& netlist::has_part(d, 16, ElementKind::Lamp { ohms: Real { bits: 0x406b_8000_0000_0000 }, rated_watts: Real { bits: 0x3fd9_9999_9999_999a } })
            &&& netlist::has_ground(d, sheet::at(24, 8), 0)
            &&& netlist::on_net(d, 10, 0, sheet::at(22, 2))
            &&& netlist::on_net(d, 13, 2, sheet::at(22, 2))
            &&& netlist::on_net(d, 15, 1, sheet::at(22, 2))
            &&& netlist::on_net(d, 10, 1, sheet::at(22, 8))
            &&& netlist::on_net(d, 13, 0, sheet::at(22, 8))
            &&& netlist::on_net(d, 16, 1, sheet::at(22, 8))
            &&& netlist::earthed(d, sheet::at(22, 8))
            &&& netlist::on_net(d, 13, 1, sheet::at(28, 5))
            &&& netlist::on_net(d, 14, 0, sheet::at(28, 5))
            &&& netlist::on_net(d, 14, 1, sheet::at(31, 5))
            &&& netlist::on_net(d, 15, 0, sheet::at(31, 5))
            &&& netlist::on_net(d, 15, 2, sheet::at(33, 6))
            &&& netlist::on_net(d, 16, 0, sheet::at(33, 6))
        }),
{
    let d = dimmer_parts();
    assert(d.len() == 11);
    assert(netlist::has_part(d, 10, ElementKind::VoltageSource { wave: crate::parts::Wave::Sine, dc: Real { bits: 0x4022_0000_0000_0000 }, amp: Real { bits: 0 }, hz: Real { bits: 0 }, phase: Real { bits: 0 } })) by {
        netlist::lemma_part(d, 0);
        assert(d[0].id == 10);
        assert(d[0].kind == (ElementKind::VoltageSource { wave: crate::parts::Wave::Sine, dc: Real { bits: 0x4022_0000_0000_0000 }, amp: Real { bits: 0 }, hz: Real { bits: 0 }, phase: Real { bits: 0 } }));
    }
    assert(netlist::has_part(d, 13, ElementKind::Potentiometer { ohms: Real { bits: 0x40c3_8800_0000_0000 }, wiper: Real { bits: 0x3fe0_0000_0000_0000 } })) by {
        netlist::lemma_part(d, 3);
        assert(d[3].id == 13);
        assert(d[3].kind == (ElementKind::Potentiometer { ohms: Real { bits: 0x40c3_8800_0000_0000 }, wiper: Real { bits: 0x3fe0_0000_0000_0000 } }));
    }
    assert(netlist::has_part(d, 14, ElementKind::Resistor { ohms: Real { bits: 0x408f_4000_0000_0000 } })) by {
        netlist::lemma_part(d, 4);
        assert(d[4].id == 14);
        assert(d[4].kind == (ElementKind::Resistor { ohms: Real { bits: 0x408f_4000_0000_0000 } }));
    }
    assert(netlist::has_part(d, 15, ElementKind::Npn { beta: Real { bits: 0x4059_0000_0000_0000 } })) by {
        netlist::lemma_part(d, 5);
        assert(d[5].id == 15);
        assert(d[5].kind == (ElementKind::Npn { beta: Real { bits: 0x4059_0000_0000_0000 } }));
    }
    assert(netlist::has_part(d, 16, ElementKind::Lamp { ohms: Real { bits: 0x406b_8000_0000_0000 }, rated_watts: Real { bits: 0x3fd9_9999_9999_999a } })) by {
        netlist::lemma_part(d, 6);
        assert(d[6].id == 16);
        assert(d[6].kind == (ElementKind::Lamp { ohms: Real { bits: 0x406b_8000_0000_0000 }, rated_watts: Real { bits: 0x3fd9_9999_9999_999a } }));
    }
    assert(netlist::has_ground(d, sheet::at(24, 8), 0)) by {
        netlist::lemma_ground(d, 9);
        assert(d[9].pins[0] == sheet::at(24, 8));
    }
    assert(netlist::on_net(d, 10, 0, sheet::at(22, 2))) by {
        netlist::lemma_pin(d, 0, 10, 0);
        assert(d[0].pins[0] == sheet::at(22, 2));
    }
    assert(netlist::on_net(d, 13, 2, sheet::at(22, 2))) by {
        netlist::lemma_pin(d, 3, 13, 2);
        assert(d[3].pins[2] == sheet::at(26, 2));
        netlist::lemma_pin_along(d, 13, 2, sheet::at(26, 2), sheet::at(22, 2), 1);
    }
    assert(netlist::on_net(d, 15, 1, sheet::at(22, 2))) by {
        netlist::lemma_pin(d, 5, 15, 1);
        assert(d[5].pins[1] == sheet::at(33, 2));
        netlist::lemma_pin_along(d, 15, 1, sheet::at(33, 2), sheet::at(26, 2), 2);
        netlist::lemma_pin_along(d, 15, 1, sheet::at(26, 2), sheet::at(22, 2), 1);
    }
    assert(netlist::on_net(d, 10, 1, sheet::at(22, 8))) by {
        netlist::lemma_pin(d, 0, 10, 1);
        assert(d[0].pins[1] == sheet::at(22, 8));
    }
    assert(netlist::on_net(d, 13, 0, sheet::at(22, 8))) by {
        netlist::lemma_pin(d, 3, 13, 0);
        assert(d[3].pins[0] == sheet::at(26, 8));
        netlist::lemma_pin_along(d, 13, 0, sheet::at(26, 8), sheet::at(24, 8), 8);
        netlist::lemma_pin_along(d, 13, 0, sheet::at(24, 8), sheet::at(22, 8), 10);
    }
    assert(netlist::on_net(d, 16, 1, sheet::at(22, 8))) by {
        netlist::lemma_pin(d, 6, 16, 1);
        assert(d[6].pins[1] == sheet::at(33, 8));
        netlist::lemma_pin_along(d, 16, 1, sheet::at(33, 8), sheet::at(26, 8), 7);
        netlist::lemma_pin_along(d, 16, 1, sheet::at(26, 8), sheet::at(24, 8), 8);
        netlist::lemma_pin_along(d, 16, 1, sheet::at(24, 8), sheet::at(22, 8), 10);
    }
    assert(netlist::earthed(d, sheet::at(22, 8))) by {
        netlist::lemma_earth(d, 9);
        netlist::lemma_earth_along(d, sheet::at(24, 8), sheet::at(22, 8), 10);
    }
    assert(netlist::on_net(d, 13, 1, sheet::at(28, 5))) by {
        netlist::lemma_pin(d, 3, 13, 1);
        assert(d[3].pins[1] == sheet::at(28, 5));
    }
    assert(netlist::on_net(d, 14, 0, sheet::at(28, 5))) by {
        netlist::lemma_pin(d, 4, 14, 0);
        assert(d[4].pins[0] == sheet::at(28, 5));
    }
    assert(netlist::on_net(d, 14, 1, sheet::at(31, 5))) by {
        netlist::lemma_pin(d, 4, 14, 1);
        assert(d[4].pins[1] == sheet::at(31, 5));
    }
    assert(netlist::on_net(d, 15, 0, sheet::at(31, 5))) by {
        netlist::lemma_pin(d, 5, 15, 0);
        assert(d[5].pins[0] == sheet::at(31, 5));
    }
    assert(netlist::on_net(d, 15, 2, sheet::at(33, 6))) by {
        netlist::lemma_pin(d, 5, 15, 2);
        assert(d[5].pins[2] == sheet::at(33, 6));
    }
    assert(netlist::on_net(d, 16, 0, sheet::at(33, 6))) by {
        netlist::lemma_pin(d, 6, 16, 0);
        assert(d[6].pins[0] == sheet::at(33, 6));
    }
}

/// A slow wave fades the lamp through a transistor, with a capacitor across the lamp.
pub proof fn law_the_fader_is_wired()
    ensures
        ({
            let d = fader_parts();
            &&& d.len() == 15
            &&& netlist::has_part(d, 30, ElementKind::VoltageSource { wave: crate::parts::Wave::Sine, dc: Real { bits: 0x4022_0000_0000_0000 }, amp: Real { bits: 0 }, hz: Real { bits: 0 }, phase: Real { bits: 0 } })
            &&& netlist::has_part(d, 32, ElementKind::Lamp { ohms: Real { bits: 0x404e_0000_0000_0000 }, rated_watts: Real { bits: 0x3ff3_3333_3333_3333 } })
            &&& netlist::has_part(d, 35, ElementKind::Nmos { vt: Real { bits: 0x3ff8_0000_0000_0000 }, k: Real { bits: 0x3fa9_9999_9999_999a } })
            &&& netlist::has_part(d, 39, ElementKind::VoltageSource { wave: crate::parts::Wave::Sine, dc: Real { bits: 0x4008_0000_0000_0000 }, amp: Real { bits: 0x4008_0000_0000_0000 }, hz: Real { bits: 0x3fd3_3333_3333_3333 }, phase: Real { bits: 0 } })
            &&& netlist::has_ground(d, sheet::at(6, 18), 0)
            &&& netlist::has_part(d, 42, ElementKind::Capacitor { farads: Real { bits: 0x3f74_7ae1_47ae_147b } })
            &&& netlist::on_net(d, 30, 0, sheet::at(2, 12))
            &&& netlist::on_net(d, 32, 0, sheet::at(2, 12))
            &&& netlist::on_net(d, 42, 0, sheet::at(2, 12))
            &&& netlist::on_net(d, 30, 1, sheet::at(2, 18))
            &&& netlist::on_net(d, 39, 1, sheet::at(2, 18))
            &&& netlist::on_net(d, 35, 2, sheet::at(2, 18))
            &&& netlist::earthed(d, sheet::at(2, 18))
            &&& netlist::on_net(d, 32, 1, sheet::at(10, 12))
            &&& netlist::on_net(d, 42, 1, sheet::at(10, 12))
            &&& netlist::on_net(d, 35, 1, sheet::at(10, 12))
            &&& netlist::on_net(d, 35, 0, sheet::at(10, 15))
            &&& netlist::on_net(d, 39, 0, sheet::at(10, 15))
        }),
{
    let d = fader_parts();
    assert(d.len() == 15);
    assert(netlist::has_part(d, 30, ElementKind::VoltageSource { wave: crate::parts::Wave::Sine, dc: Real { bits: 0x4022_0000_0000_0000 }, amp: Real { bits: 0 }, hz: Real { bits: 0 }, phase: Real { bits: 0 } })) by {
        netlist::lemma_part(d, 0);
        assert(d[0].id == 30);
        assert(d[0].kind == (ElementKind::VoltageSource { wave: crate::parts::Wave::Sine, dc: Real { bits: 0x4022_0000_0000_0000 }, amp: Real { bits: 0 }, hz: Real { bits: 0 }, phase: Real { bits: 0 } }));
    }
    assert(netlist::has_part(d, 32, ElementKind::Lamp { ohms: Real { bits: 0x404e_0000_0000_0000 }, rated_watts: Real { bits: 0x3ff3_3333_3333_3333 } })) by {
        netlist::lemma_part(d, 2);
        assert(d[2].id == 32);
        assert(d[2].kind == (ElementKind::Lamp { ohms: Real { bits: 0x404e_0000_0000_0000 }, rated_watts: Real { bits: 0x3ff3_3333_3333_3333 } }));
    }
    assert(netlist::has_part(d, 35, ElementKind::Nmos { vt: Real { bits: 0x3ff8_0000_0000_0000 }, k: Real { bits: 0x3fa9_9999_9999_999a } })) by {
        netlist::lemma_part(d, 5);
        assert(d[5].id == 35);
        assert(d[5].kind == (ElementKind::Nmos { vt: Real { bits: 0x3ff8_0000_0000_0000 }, k: Real { bits: 0x3fa9_9999_9999_999a } }));
    }
    assert(netlist::has_part(d, 39, ElementKind::VoltageSource { wave: crate::parts::Wave::Sine, dc: Real { bits: 0x4008_0000_0000_0000 }, amp: Real { bits: 0x4008_0000_0000_0000 }, hz: Real { bits: 0x3fd3_3333_3333_3333 }, phase: Real { bits: 0 } })) by {
        netlist::lemma_part(d, 9);
        assert(d[9].id == 39);
        assert(d[9].kind == (ElementKind::VoltageSource { wave: crate::parts::Wave::Sine, dc: Real { bits: 0x4008_0000_0000_0000 }, amp: Real { bits: 0x4008_0000_0000_0000 }, hz: Real { bits: 0x3fd3_3333_3333_3333 }, phase: Real { bits: 0 } }));
    }
    assert(netlist::has_ground(d, sheet::at(6, 18), 0)) by {
        netlist::lemma_ground(d, 11);
        assert(d[11].pins[0] == sheet::at(6, 18));
    }
    assert(netlist::has_part(d, 42, ElementKind::Capacitor { farads: Real { bits: 0x3f74_7ae1_47ae_147b } })) by {
        netlist::lemma_part(d, 12);
        assert(d[12].id == 42);
        assert(d[12].kind == (ElementKind::Capacitor { farads: Real { bits: 0x3f74_7ae1_47ae_147b } }));
    }
    assert(netlist::on_net(d, 30, 0, sheet::at(2, 12))) by {
        netlist::lemma_pin(d, 0, 30, 0);
        assert(d[0].pins[0] == sheet::at(2, 12));
    }
    assert(netlist::on_net(d, 32, 0, sheet::at(2, 12))) by {
        netlist::lemma_pin(d, 2, 32, 0);
        assert(d[2].pins[0] == sheet::at(6, 12));
        netlist::lemma_pin_along(d, 32, 0, sheet::at(6, 12), sheet::at(2, 12), 1);
    }
    assert(netlist::on_net(d, 42, 0, sheet::at(2, 12))) by {
        netlist::lemma_pin(d, 12, 42, 0);
        assert(d[12].pins[0] == sheet::at(6, 10));
        netlist::lemma_pin_along(d, 42, 0, sheet::at(6, 10), sheet::at(6, 12), 13);
        netlist::lemma_pin_along(d, 42, 0, sheet::at(6, 12), sheet::at(2, 12), 1);
    }
    assert(netlist::on_net(d, 30, 1, sheet::at(2, 18))) by {
        netlist::lemma_pin(d, 0, 30, 1);
        assert(d[0].pins[1] == sheet::at(2, 18));
    }
    assert(netlist::on_net(d, 39, 1, sheet::at(2, 18))) by {
        netlist::lemma_pin(d, 9, 39, 1);
        assert(d[9].pins[1] == sheet::at(6, 18));
        netlist::lemma_pin_along(d, 39, 1, sheet::at(6, 18), sheet::at(2, 18), 8);
    }
    assert(netlist::on_net(d, 35, 2, sheet::at(2, 18))) by {
        netlist::lemma_pin(d, 5, 35, 2);
        assert(d[5].pins[2] == sheet::at(12, 17));
        netlist::lemma_pin_along(d, 35, 2, sheet::at(12, 17), sheet::at(12, 18), 6);
        netlist::lemma_pin_along(d, 35, 2, sheet::at(12, 18), sheet::at(6, 18), 7);
        netlist::lemma_pin_along(d, 35, 2, sheet::at(6, 18), sheet::at(2, 18), 8);
    }
    assert(netlist::earthed(d, sheet::at(2, 18))) by {
        netlist::lemma_earth(d, 11);
        netlist::lemma_earth_along(d, sheet::at(6, 18), sheet::at(2, 18), 8);
    }
    assert(netlist::on_net(d, 32, 1, sheet::at(10, 12))) by {
        netlist::lemma_pin(d, 2, 32, 1);
        assert(d[2].pins[1] == sheet::at(10, 12));
    }
    assert(netlist::on_net(d, 42, 1, sheet::at(10, 12))) by {
        netlist::lemma_pin(d, 12, 42, 1);
        assert(d[12].pins[1] == sheet::at(10, 10));
        netlist::lemma_pin_along(d, 42, 1, sheet::at(10, 10), sheet::at(10, 12), 14);
    }
    assert(netlist::on_net(d, 35, 1, sheet::at(10, 12))) by {
        netlist::lemma_pin(d, 5, 35, 1);
        assert(d[5].pins[1] == sheet::at(12, 13));
        netlist::lemma_pin_along(d, 35, 1, sheet::at(12, 13), sheet::at(12, 12), 4);
        netlist::lemma_pin_along(d, 35, 1, sheet::at(12, 12), sheet::at(10, 12), 3);
    }
    assert(netlist::on_net(d, 35, 0, sheet::at(10, 15))) by {
        netlist::lemma_pin(d, 5, 35, 0);
        assert(d[5].pins[0] == sheet::at(10, 15));
    }
    assert(netlist::on_net(d, 39, 0, sheet::at(10, 15))) by {
        netlist::lemma_pin(d, 9, 39, 0);
        assert(d[9].pins[0] == sheet::at(6, 15));
        netlist::lemma_pin_along(d, 39, 0, sheet::at(6, 15), sheet::at(10, 15), 10);
    }
}

/// A sign detector drives two lights that stand against each other.
pub proof fn law_the_blinker_is_wired()
    ensures
        ({
            let d = blinker_parts();
            &&& d.len() == 13
            &&& netlist::has_part(d, 50, ElementKind::VoltageSource { wave: crate::parts::Wave::Sine, dc: Real { bits: 0 }, amp: Real { bits: 0x4000_0000_0000_0000 }, hz: Real { bits: 0x3fd9_9999_9999_999a }, phase: Real { bits: 0 } })
            &&& netlist::has_part(d, 52, ElementKind::OpAmp { rail: Real { bits: 0x4014_0000_0000_0000 }, isc: Real { bits: 0x3f99_9999_9999_999a } })
            &&& netlist::has_part(d, 55, ElementKind::Resistor { ohms: Real { bits: 0x406b_8000_0000_0000 } })
            &&& netlist::has_part(d, 56, ElementKind::Led { color: 0 })
            &&& netlist::has_part(d, 58, ElementKind::Led { color: 1 })
            &&& netlist::has_ground(d, sheet::at(24, 18), 0)
            &&& netlist::on_net(d, 50, 0, sheet::at(22, 13))
            &&& netlist::on_net(d, 52, 0, sheet::at(22, 13))
            &&& netlist::on_net(d, 50, 1, sheet::at(22, 18))
            &&& netlist::on_net(d, 56, 1, sheet::at(22, 18))
            &&& netlist::on_net(d, 52, 1, sheet::at(22, 18))
            &&& netlist::on_net(d, 58, 0, sheet::at(22, 18))
            &&& netlist::earthed(d, sheet::at(22, 18))
            &&& netlist::on_net(d, 52, 2, sheet::at(30, 14))
            &&& netlist::on_net(d, 55, 0, sheet::at(30, 14))
            &&& netlist::on_net(d, 55, 1, sheet::at(33, 14))
            &&& netlist::on_net(d, 56, 0, sheet::at(33, 14))
            &&& netlist::on_net(d, 58, 1, sheet::at(33, 14))
        }),
{
    let d = blinker_parts();
    assert(d.len() == 13);
    assert(netlist::has_part(d, 50, ElementKind::VoltageSource { wave: crate::parts::Wave::Sine, dc: Real { bits: 0 }, amp: Real { bits: 0x4000_0000_0000_0000 }, hz: Real { bits: 0x3fd9_9999_9999_999a }, phase: Real { bits: 0 } })) by {
        netlist::lemma_part(d, 0);
        assert(d[0].id == 50);
        assert(d[0].kind == (ElementKind::VoltageSource { wave: crate::parts::Wave::Sine, dc: Real { bits: 0 }, amp: Real { bits: 0x4000_0000_0000_0000 }, hz: Real { bits: 0x3fd9_9999_9999_999a }, phase: Real { bits: 0 } }));
    }
    assert(netlist::has_part(d, 52, ElementKind::OpAmp { rail: Real { bits: 0x4014_0000_0000_0000 }, isc: Real { bits: 0x3f99_9999_9999_999a } })) by {
        netlist::lemma_part(d, 2);
        assert(d[2].id == 52);
        assert(d[2].kind == (ElementKind::OpAmp { rail: Real { bits: 0x4014_0000_0000_0000 }, isc: Real { bits: 0x3f99_9999_9999_999a } }));
    }
    assert(netlist::has_part(d, 55, ElementKind::Resistor { ohms: Real { bits: 0x406b_8000_0000_0000 } })) by {
        netlist::lemma_part(d, 5);
        assert(d[5].id == 55);
        assert(d[5].kind == (ElementKind::Resistor { ohms: Real { bits: 0x406b_8000_0000_0000 } }));
    }
    assert(netlist::has_part(d, 56, ElementKind::Led { color: 0 })) by {
        netlist::lemma_part(d, 6);
        assert(d[6].id == 56);
        assert(d[6].kind == (ElementKind::Led { color: 0 }));
    }
    assert(netlist::has_part(d, 58, ElementKind::Led { color: 1 })) by {
        netlist::lemma_part(d, 8);
        assert(d[8].id == 58);
        assert(d[8].kind == (ElementKind::Led { color: 1 }));
    }
    assert(netlist::has_ground(d, sheet::at(24, 18), 0)) by {
        netlist::lemma_ground(d, 12);
        assert(d[12].pins[0] == sheet::at(24, 18));
    }
    assert(netlist::on_net(d, 50, 0, sheet::at(22, 13))) by {
        netlist::lemma_pin(d, 0, 50, 0);
        assert(d[0].pins[0] == sheet::at(22, 13));
    }
    assert(netlist::on_net(d, 52, 0, sheet::at(22, 13))) by {
        netlist::lemma_pin(d, 2, 52, 0);
        assert(d[2].pins[0] == sheet::at(26, 13));
        netlist::lemma_pin_along(d, 52, 0, sheet::at(26, 13), sheet::at(22, 13), 1);
    }
    assert(netlist::on_net(d, 50, 1, sheet::at(22, 18))) by {
        netlist::lemma_pin(d, 0, 50, 1);
        assert(d[0].pins[1] == sheet::at(22, 18));
    }
    assert(netlist::on_net(d, 56, 1, sheet::at(22, 18))) by {
        netlist::lemma_pin(d, 6, 56, 1);
        assert(d[6].pins[1] == sheet::at(33, 18));
        netlist::lemma_pin_along(d, 56, 1, sheet::at(33, 18), sheet::at(24, 18), 10);
        netlist::lemma_pin_along(d, 56, 1, sheet::at(24, 18), sheet::at(22, 18), 11);
    }
    assert(netlist::on_net(d, 52, 1, sheet::at(22, 18))) by {
        netlist::lemma_pin(d, 2, 52, 1);
        assert(d[2].pins[1] == sheet::at(26, 15));
        netlist::lemma_pin_along(d, 52, 1, sheet::at(26, 15), sheet::at(24, 15), 3);
        netlist::lemma_pin_along(d, 52, 1, sheet::at(24, 15), sheet::at(24, 18), 4);
        netlist::lemma_pin_along(d, 52, 1, sheet::at(24, 18), sheet::at(22, 18), 11);
    }
    assert(netlist::on_net(d, 58, 0, sheet::at(22, 18))) by {
        netlist::lemma_pin(d, 8, 58, 0);
        assert(d[8].pins[0] == sheet::at(35, 18));
        netlist::lemma_pin_along(d, 58, 0, sheet::at(35, 18), sheet::at(33, 18), 9);
        netlist::lemma_pin_along(d, 58, 0, sheet::at(33, 18), sheet::at(24, 18), 10);
        netlist::lemma_pin_along(d, 58, 0, sheet::at(24, 18), sheet::at(22, 18), 11);
    }
    assert(netlist::earthed(d, sheet::at(22, 18))) by {
        netlist::lemma_earth(d, 12);
        netlist::lemma_earth_along(d, sheet::at(24, 18), sheet::at(22, 18), 11);
    }
    assert(netlist::on_net(d, 52, 2, sheet::at(30, 14))) by {
        netlist::lemma_pin(d, 2, 52, 2);
        assert(d[2].pins[2] == sheet::at(30, 14));
    }
    assert(netlist::on_net(d, 55, 0, sheet::at(30, 14))) by {
        netlist::lemma_pin(d, 5, 55, 0);
        assert(d[5].pins[0] == sheet::at(30, 14));
    }
    assert(netlist::on_net(d, 55, 1, sheet::at(33, 14))) by {
        netlist::lemma_pin(d, 5, 55, 1);
        assert(d[5].pins[1] == sheet::at(33, 14));
    }
    assert(netlist::on_net(d, 56, 0, sheet::at(33, 14))) by {
        netlist::lemma_pin(d, 6, 56, 0);
        assert(d[6].pins[0] == sheet::at(33, 14));
    }
    assert(netlist::on_net(d, 58, 1, sheet::at(33, 14))) by {
        netlist::lemma_pin(d, 8, 58, 1);
        assert(d[8].pins[1] == sheet::at(35, 14));
        netlist::lemma_pin_along(d, 58, 1, sheet::at(35, 14), sheet::at(33, 14), 7);
    }
}

/// An amplifier that charges and discharges its own capacitor blinks a light.
pub proof fn law_the_multivibrator_is_wired()
    ensures
        ({
            let d = multivibrator_parts();
            &&& d.len() == 17
            &&& netlist::has_part(d, 70, ElementKind::OpAmp { rail: Real { bits: 0x4014_0000_0000_0000 }, isc: Real { bits: 0x3f99_9999_9999_999a } })
            &&& netlist::has_part(d, 72, ElementKind::Resistor { ohms: Real { bits: 0x40f8_6a00_0000_0000 } })
            &&& netlist::has_part(d, 76, ElementKind::Capacitor { farads: Real { bits: 0x3ed3_b696_29a2_90b9 } })
            &&& netlist::has_ground(d, sheet::at(4, 28), 0)
            &&& netlist::has_part(d, 78, ElementKind::Resistor { ohms: Real { bits: 0x40f8_6a00_0000_0000 } })
            &&& netlist::has_part(d, 82, ElementKind::Resistor { ohms: Real { bits: 0x40f8_6a00_0000_0000 } })
            &&& netlist::has_ground(d, sheet::at(9, 32), 0)
            &&& netlist::has_part(d, 84, ElementKind::Resistor { ohms: Real { bits: 0x407d_6000_0000_0000 } })
            &&& netlist::has_part(d, 85, ElementKind::Led { color: 3 })
            &&& netlist::has_ground(d, sheet::at(15, 29), 0)
            &&& netlist::on_net(d, 70, 0, sheet::at(6, 26))
            &&& netlist::on_net(d, 82, 0, sheet::at(6, 26))
            &&& netlist::on_net(d, 78, 1, sheet::at(6, 26))
            &&& netlist::on_net(d, 70, 1, sheet::at(6, 24))
            &&& netlist::on_net(d, 76, 0, sheet::at(6, 24))
            &&& netlist::on_net(d, 72, 1, sheet::at(6, 24))
            &&& netlist::on_net(d, 70, 2, sheet::at(10, 25))
            &&& netlist::on_net(d, 72, 0, sheet::at(10, 25))
            &&& netlist::on_net(d, 78, 0, sheet::at(10, 25))
            &&& netlist::on_net(d, 84, 0, sheet::at(10, 25))
            &&& netlist::on_net(d, 76, 1, sheet::at(4, 28))
            &&& netlist::earthed(d, sheet::at(4, 28))
            &&& netlist::on_net(d, 82, 1, sheet::at(9, 32))
            &&& netlist::earthed(d, sheet::at(9, 32))
            &&& netlist::on_net(d, 84, 1, sheet::at(15, 25))
            &&& netlist::on_net(d, 85, 0, sheet::at(15, 25))
            &&& netlist::on_net(d, 85, 1, sheet::at(15, 29))
            &&& netlist::earthed(d, sheet::at(15, 29))
        }),
{
    let d = multivibrator_parts();
    assert(d.len() == 17);
    assert(netlist::has_part(d, 70, ElementKind::OpAmp { rail: Real { bits: 0x4014_0000_0000_0000 }, isc: Real { bits: 0x3f99_9999_9999_999a } })) by {
        netlist::lemma_part(d, 0);
        assert(d[0].id == 70);
        assert(d[0].kind == (ElementKind::OpAmp { rail: Real { bits: 0x4014_0000_0000_0000 }, isc: Real { bits: 0x3f99_9999_9999_999a } }));
    }
    assert(netlist::has_part(d, 72, ElementKind::Resistor { ohms: Real { bits: 0x40f8_6a00_0000_0000 } })) by {
        netlist::lemma_part(d, 2);
        assert(d[2].id == 72);
        assert(d[2].kind == (ElementKind::Resistor { ohms: Real { bits: 0x40f8_6a00_0000_0000 } }));
    }
    assert(netlist::has_part(d, 76, ElementKind::Capacitor { farads: Real { bits: 0x3ed3_b696_29a2_90b9 } })) by {
        netlist::lemma_part(d, 6);
        assert(d[6].id == 76);
        assert(d[6].kind == (ElementKind::Capacitor { farads: Real { bits: 0x3ed3_b696_29a2_90b9 } }));
    }
    assert(netlist::has_ground(d, sheet::at(4, 28), 0)) by {
        netlist::lemma_ground(d, 7);
        assert(d[7].pins[0] == sheet::at(4, 28));
    }
    assert(netlist::has_part(d, 78, ElementKind::Resistor { ohms: Real { bits: 0x40f8_6a00_0000_0000 } })) by {
        netlist::lemma_part(d, 8);
        assert(d[8].id == 78);
        assert(d[8].kind == (ElementKind::Resistor { ohms: Real { bits: 0x40f8_6a00_0000_0000 } }));
    }
    assert(netlist::has_part(d, 82, ElementKind::Resistor { ohms: Real { bits: 0x40f8_6a00_0000_0000 } })) by {
        netlist::lemma_part(d, 12);
        assert(d[12].id == 82);
        assert(d[12].kind == (ElementKind::Resistor { ohms: Real { bits: 0x40f8_6a00_0000_0000 } }));
    }
    assert(netlist::has_ground(d, sheet::at(9, 32), 0)) by {
        netlist::lemma_ground(d, 13);
        assert(d[13].pins[0] == sheet::at(9, 32));
    }
    assert(netlist::has_part(d, 84, ElementKind::Resistor { ohms: Real { bits: 0x407d_6000_0000_0000 } })) by {
        netlist::lemma_part(d, 14);
        assert(d[14].id == 84);
        assert(d[14].kind == (ElementKind::Resistor { ohms: Real { bits: 0x407d_6000_0000_0000 } }));
    }
    assert(netlist::has_part(d, 85, ElementKind::Led { color: 3 })) by {
        netlist::lemma_part(d, 15);
        assert(d[15].id == 85);
        assert(d[15].kind == (ElementKind::Led { color: 3 }));
    }
    assert(netlist::has_ground(d, sheet::at(15, 29), 0)) by {
        netlist::lemma_ground(d, 16);
        assert(d[16].pins[0] == sheet::at(15, 29));
    }
    assert(netlist::on_net(d, 70, 0, sheet::at(6, 26))) by {
        netlist::lemma_pin(d, 0, 70, 0);
        assert(d[0].pins[0] == sheet::at(6, 26));
    }
    assert(netlist::on_net(d, 82, 0, sheet::at(6, 26))) by {
        netlist::lemma_pin(d, 12, 82, 0);
        assert(d[12].pins[0] == sheet::at(9, 29));
        netlist::lemma_pin_along(d, 82, 0, sheet::at(9, 29), sheet::at(9, 26), 10);
        netlist::lemma_pin_along(d, 82, 0, sheet::at(9, 26), sheet::at(6, 26), 11);
    }
    assert(netlist::on_net(d, 78, 1, sheet::at(6, 26))) by {
        netlist::lemma_pin(d, 8, 78, 1);
        assert(d[8].pins[1] == sheet::at(12, 29));
        netlist::lemma_pin_along(d, 78, 1, sheet::at(12, 29), sheet::at(9, 29), 9);
        netlist::lemma_pin_along(d, 78, 1, sheet::at(9, 29), sheet::at(9, 26), 10);
        netlist::lemma_pin_along(d, 78, 1, sheet::at(9, 26), sheet::at(6, 26), 11);
    }
    assert(netlist::on_net(d, 70, 1, sheet::at(6, 24))) by {
        netlist::lemma_pin(d, 0, 70, 1);
        assert(d[0].pins[1] == sheet::at(6, 24));
    }
    assert(netlist::on_net(d, 76, 0, sheet::at(6, 24))) by {
        netlist::lemma_pin(d, 6, 76, 0);
        assert(d[6].pins[0] == sheet::at(4, 24));
        netlist::lemma_pin_along(d, 76, 0, sheet::at(4, 24), sheet::at(6, 24), 5);
    }
    assert(netlist::on_net(d, 72, 1, sheet::at(6, 24))) by {
        netlist::lemma_pin(d, 2, 72, 1);
        assert(d[2].pins[1] == sheet::at(12, 21));
        netlist::lemma_pin_along(d, 72, 1, sheet::at(12, 21), sheet::at(4, 21), 3);
        netlist::lemma_pin_along(d, 72, 1, sheet::at(4, 21), sheet::at(4, 24), 4);
        netlist::lemma_pin_along(d, 72, 1, sheet::at(4, 24), sheet::at(6, 24), 5);
    }
    assert(netlist::on_net(d, 70, 2, sheet::at(10, 25))) by {
        netlist::lemma_pin(d, 0, 70, 2);
        assert(d[0].pins[2] == sheet::at(10, 25));
    }
    assert(netlist::on_net(d, 72, 0, sheet::at(10, 25))) by {
        netlist::lemma_pin(d, 2, 72, 0);
        assert(d[2].pins[0] == sheet::at(12, 25));
        netlist::lemma_pin_along(d, 72, 0, sheet::at(12, 25), sheet::at(10, 25), 1);
    }
    assert(netlist::on_net(d, 78, 0, sheet::at(10, 25))) by {
        netlist::lemma_pin(d, 8, 78, 0);
        assert(d[8].pins[0] == sheet::at(12, 25));
        netlist::lemma_pin_along(d, 78, 0, sheet::at(12, 25), sheet::at(10, 25), 1);
    }
    assert(netlist::on_net(d, 84, 0, sheet::at(10, 25))) by {
        netlist::lemma_pin(d, 14, 84, 0);
        assert(d[14].pins[0] == sheet::at(12, 25));
        netlist::lemma_pin_along(d, 84, 0, sheet::at(12, 25), sheet::at(10, 25), 1);
    }
    assert(netlist::on_net(d, 76, 1, sheet::at(4, 28))) by {
        netlist::lemma_pin(d, 6, 76, 1);
        assert(d[6].pins[1] == sheet::at(4, 28));
    }
    assert(netlist::earthed(d, sheet::at(4, 28))) by {
        netlist::lemma_earth(d, 7);
    }
    assert(netlist::on_net(d, 82, 1, sheet::at(9, 32))) by {
        netlist::lemma_pin(d, 12, 82, 1);
        assert(d[12].pins[1] == sheet::at(9, 32));
    }
    assert(netlist::earthed(d, sheet::at(9, 32))) by {
        netlist::lemma_earth(d, 13);
    }
    assert(netlist::on_net(d, 84, 1, sheet::at(15, 25))) by {
        netlist::lemma_pin(d, 14, 84, 1);
        assert(d[14].pins[1] == sheet::at(15, 25));
    }
    assert(netlist::on_net(d, 85, 0, sheet::at(15, 25))) by {
        netlist::lemma_pin(d, 15, 85, 0);
        assert(d[15].pins[0] == sheet::at(15, 25));
    }
    assert(netlist::on_net(d, 85, 1, sheet::at(15, 29))) by {
        netlist::lemma_pin(d, 15, 85, 1);
        assert(d[15].pins[1] == sheet::at(15, 29));
    }
    assert(netlist::earthed(d, sheet::at(15, 29))) by {
        netlist::lemma_earth(d, 16);
    }
}

/// A diode charges the capacitor that the lamp hangs on.
pub proof fn law_the_rectifier_is_wired()
    ensures
        ({
            let d = rectifier_parts();
            &&& d.len() == 10
            &&& netlist::has_part(d, 90, ElementKind::VoltageSource { wave: crate::parts::Wave::Sine, dc: Real { bits: 0 }, amp: Real { bits: 0x4018_0000_0000_0000 }, hz: Real { bits: 0x3ff0_0000_0000_0000 }, phase: Real { bits: 0 } })
            &&& netlist::has_part(d, 92, ElementKind::Diode)
            &&& netlist::has_part(d, 94, ElementKind::Capacitor { farads: Real { bits: 0x3f84_7ae1_47ae_147b } })
            &&& netlist::has_part(d, 95, ElementKind::Lamp { ohms: Real { bits: 0x404e_0000_0000_0000 }, rated_watts: Real { bits: 0x3fe3_3333_3333_3333 } })
            &&& netlist::has_ground(d, sheet::at(23, 26), 0)
            &&& netlist::on_net(d, 90, 0, sheet::at(20, 22))
            &&& netlist::on_net(d, 92, 0, sheet::at(20, 22))
            &&& netlist::on_net(d, 90, 1, sheet::at(20, 26))
            &&& netlist::on_net(d, 94, 1, sheet::at(20, 26))
            &&& netlist::on_net(d, 95, 1, sheet::at(20, 26))
            &&& netlist::earthed(d, sheet::at(20, 26))
            &&& netlist::on_net(d, 92, 1, sheet::at(26, 22))
            &&& netlist::on_net(d, 94, 0, sheet::at(26, 22))
            &&& netlist::on_net(d, 95, 0, sheet::at(26, 22))
        }),
{
    let d = rectifier_parts();
    assert(d.len() == 10);
    assert(netlist::has_part(d, 90, ElementKind::VoltageSource { wave: crate::parts::Wave::Sine, dc: Real { bits: 0 }, amp: Real { bits: 0x4018_0000_0000_0000 }, hz: Real { bits: 0x3ff0_0000_0000_0000 }, phase: Real { bits: 0 } })) by {
        netlist::lemma_part(d, 0);
        assert(d[0].id == 90);
        assert(d[0].kind == (ElementKind::VoltageSource { wave: crate::parts::Wave::Sine, dc: Real { bits: 0 }, amp: Real { bits: 0x4018_0000_0000_0000 }, hz: Real { bits: 0x3ff0_0000_0000_0000 }, phase: Real { bits: 0 } }));
    }
    assert(netlist::has_part(d, 92, ElementKind::Diode)) by {
        netlist::lemma_part(d, 2);
        assert(d[2].id == 92);
        assert(d[2].kind == ElementKind::Diode);
    }
    assert(netlist::has_part(d, 94, ElementKind::Capacitor { farads: Real { bits: 0x3f84_7ae1_47ae_147b } })) by {
        netlist::lemma_part(d, 4);
        assert(d[4].id == 94);
        assert(d[4].kind == (ElementKind::Capacitor { farads: Real { bits: 0x3f84_7ae1_47ae_147b } }));
    }
    assert(netlist::has_part(d, 95, ElementKind::Lamp { ohms: Real { bits: 0x404e_0000_0000_0000 }, rated_watts: Real { bits: 0x3fe3_3333_3333_3333 } })) by {
        netlist::lemma_part(d, 5);
        assert(d[5].id == 95);
        assert(d[5].kind == (ElementKind::Lamp { ohms: Real { bits: 0x404e_0000_0000_0000 }, rated_watts: Real { bits: 0x3fe3_3333_3333_3333 } }));
    }
    assert(netlist::has_ground(d, sheet::at(23, 26), 0)) by {
        netlist::lemma_ground(d, 8);
        assert(d[8].pins[0] == sheet::at(23, 26));
    }
    assert(netlist::on_net(d, 90, 0, sheet::at(20, 22))) by {
        netlist::lemma_pin(d, 0, 90, 0);
        assert(d[0].pins[0] == sheet::at(20, 22));
    }
    assert(netlist::on_net(d, 92, 0, sheet::at(20, 22))) by {
        netlist::lemma_pin(d, 2, 92, 0);
        assert(d[2].pins[0] == sheet::at(23, 22));
        netlist::lemma_pin_along(d, 92, 0, sheet::at(23, 22), sheet::at(20, 22), 1);
    }
    assert(netlist::on_net(d, 90, 1, sheet::at(20, 26))) by {
        netlist::lemma_pin(d, 0, 90, 1);
        assert(d[0].pins[1] == sheet::at(20, 26));
    }
    assert(netlist::on_net(d, 94, 1, sheet::at(20, 26))) by {
        netlist::lemma_pin(d, 4, 94, 1);
        assert(d[4].pins[1] == sheet::at(26, 26));
        netlist::lemma_pin_along(d, 94, 1, sheet::at(26, 26), sheet::at(23, 26), 7);
        netlist::lemma_pin_along(d, 94, 1, sheet::at(23, 26), sheet::at(20, 26), 9);
    }
    assert(netlist::on_net(d, 95, 1, sheet::at(20, 26))) by {
        netlist::lemma_pin(d, 5, 95, 1);
        assert(d[5].pins[1] == sheet::at(29, 26));
        netlist::lemma_pin_along(d, 95, 1, sheet::at(29, 26), sheet::at(26, 26), 6);
        netlist::lemma_pin_along(d, 95, 1, sheet::at(26, 26), sheet::at(23, 26), 7);
        netlist::lemma_pin_along(d, 95, 1, sheet::at(23, 26), sheet::at(20, 26), 9);
    }
    assert(netlist::earthed(d, sheet::at(20, 26))) by {
        netlist::lemma_earth(d, 8);
        netlist::lemma_earth_along(d, sheet::at(23, 26), sheet::at(20, 26), 9);
    }
    assert(netlist::on_net(d, 92, 1, sheet::at(26, 22))) by {
        netlist::lemma_pin(d, 2, 92, 1);
        assert(d[2].pins[1] == sheet::at(26, 22));
    }
    assert(netlist::on_net(d, 94, 0, sheet::at(26, 22))) by {
        netlist::lemma_pin(d, 4, 94, 0);
        assert(d[4].pins[0] == sheet::at(26, 22));
    }
    assert(netlist::on_net(d, 95, 0, sheet::at(26, 22))) by {
        netlist::lemma_pin(d, 5, 95, 0);
        assert(d[5].pins[0] == sheet::at(29, 22));
        netlist::lemma_pin_along(d, 95, 0, sheet::at(29, 22), sheet::at(26, 22), 3);
    }
}

/// A Zener diode holds the point that the light is fed from.
pub proof fn law_the_regulator_is_wired()
    ensures
        ({
            let d = regulator_parts();
            &&& d.len() == 9
            &&& netlist::has_part(d, 100, ElementKind::VoltageSource { wave: crate::parts::Wave::Sine, dc: Real { bits: 0x4022_0000_0000_0000 }, amp: Real { bits: 0 }, hz: Real { bits: 0 }, phase: Real { bits: 0 } })
            &&& netlist::has_part(d, 101, ElementKind::Resistor { ohms: Real { bits: 0x406b_8000_0000_0000 } })
            &&& netlist::has_part(d, 102, ElementKind::Zener { vz: Real { bits: 0x4016_6666_6666_6666 } })
            &&& netlist::has_part(d, 103, ElementKind::Resistor { ohms: Real { bits: 0x4074_a000_0000_0000 } })
            &&& netlist::has_part(d, 104, ElementKind::Led { color: 2 })
            &&& netlist::has_ground(d, sheet::at(35, 26), 0)
            &&& netlist::on_net(d, 100, 0, sheet::at(33, 22))
            &&& netlist::on_net(d, 101, 0, sheet::at(33, 22))
            &&& netlist::on_net(d, 100, 1, sheet::at(33, 26))
            &&& netlist::on_net(d, 102, 0, sheet::at(33, 26))
            &&& netlist::on_net(d, 104, 1, sheet::at(33, 26))
            &&& netlist::earthed(d, sheet::at(33, 26))
            &&& netlist::on_net(d, 101, 1, sheet::at(37, 22))
            &&& netlist::on_net(d, 102, 1, sheet::at(37, 22))
            &&& netlist::on_net(d, 103, 0, sheet::at(37, 22))
            &&& netlist::on_net(d, 103, 1, sheet::at(40, 22))
            &&& netlist::on_net(d, 104, 0, sheet::at(40, 22))
        }),
{
    let d = regulator_parts();
    assert(d.len() == 9);
    assert(netlist::has_part(d, 100, ElementKind::VoltageSource { wave: crate::parts::Wave::Sine, dc: Real { bits: 0x4022_0000_0000_0000 }, amp: Real { bits: 0 }, hz: Real { bits: 0 }, phase: Real { bits: 0 } })) by {
        netlist::lemma_part(d, 0);
        assert(d[0].id == 100);
        assert(d[0].kind == (ElementKind::VoltageSource { wave: crate::parts::Wave::Sine, dc: Real { bits: 0x4022_0000_0000_0000 }, amp: Real { bits: 0 }, hz: Real { bits: 0 }, phase: Real { bits: 0 } }));
    }
    assert(netlist::has_part(d, 101, ElementKind::Resistor { ohms: Real { bits: 0x406b_8000_0000_0000 } })) by {
        netlist::lemma_part(d, 1);
        assert(d[1].id == 101);
        assert(d[1].kind == (ElementKind::Resistor { ohms: Real { bits: 0x406b_8000_0000_0000 } }));
    }
    assert(netlist::has_part(d, 102, ElementKind::Zener { vz: Real { bits: 0x4016_6666_6666_6666 } })) by {
        netlist::lemma_part(d, 2);
        assert(d[2].id == 102);
        assert(d[2].kind == (ElementKind::Zener { vz: Real { bits: 0x4016_6666_6666_6666 } }));
    }
    assert(netlist::has_part(d, 103, ElementKind::Resistor { ohms: Real { bits: 0x4074_a000_0000_0000 } })) by {
        netlist::lemma_part(d, 3);
        assert(d[3].id == 103);
        assert(d[3].kind == (ElementKind::Resistor { ohms: Real { bits: 0x4074_a000_0000_0000 } }));
    }
    assert(netlist::has_part(d, 104, ElementKind::Led { color: 2 })) by {
        netlist::lemma_part(d, 4);
        assert(d[4].id == 104);
        assert(d[4].kind == (ElementKind::Led { color: 2 }));
    }
    assert(netlist::has_ground(d, sheet::at(35, 26), 0)) by {
        netlist::lemma_ground(d, 7);
        assert(d[7].pins[0] == sheet::at(35, 26));
    }
    assert(netlist::on_net(d, 100, 0, sheet::at(33, 22))) by {
        netlist::lemma_pin(d, 0, 100, 0);
        assert(d[0].pins[0] == sheet::at(33, 22));
    }
    assert(netlist::on_net(d, 101, 0, sheet::at(33, 22))) by {
        netlist::lemma_pin(d, 1, 101, 0);
        assert(d[1].pins[0] == sheet::at(33, 22));
    }
    assert(netlist::on_net(d, 100, 1, sheet::at(33, 26))) by {
        netlist::lemma_pin(d, 0, 100, 1);
        assert(d[0].pins[1] == sheet::at(33, 26));
    }
    assert(netlist::on_net(d, 102, 0, sheet::at(33, 26))) by {
        netlist::lemma_pin(d, 2, 102, 0);
        assert(d[2].pins[0] == sheet::at(37, 26));
        netlist::lemma_pin_along(d, 102, 0, sheet::at(37, 26), sheet::at(35, 26), 6);
        netlist::lemma_pin_along(d, 102, 0, sheet::at(35, 26), sheet::at(33, 26), 8);
    }
    assert(netlist::on_net(d, 104, 1, sheet::at(33, 26))) by {
        netlist::lemma_pin(d, 4, 104, 1);
        assert(d[4].pins[1] == sheet::at(40, 26));
        netlist::lemma_pin_along(d, 104, 1, sheet::at(40, 26), sheet::at(37, 26), 5);
        netlist::lemma_pin_along(d, 104, 1, sheet::at(37, 26), sheet::at(35, 26), 6);
        netlist::lemma_pin_along(d, 104, 1, sheet::at(35, 26), sheet::at(33, 26), 8);
    }
    assert(netlist::earthed(d, sheet::at(33, 26))) by {
        netlist::lemma_earth(d, 7);
        netlist::lemma_earth_along(d, sheet::at(35, 26), sheet::at(33, 26), 8);
    }
    assert(netlist::on_net(d, 101, 1, sheet::at(37, 22))) by {
        netlist::lemma_pin(d, 1, 101, 1);
        assert(d[1].pins[1] == sheet::at(37, 22));
    }
    assert(netlist::on_net(d, 102, 1, sheet::at(37, 22))) by {
        netlist::lemma_pin(d, 2, 102, 1);
        assert(d[2].pins[1] == sheet::at(37, 22));
    }
    assert(netlist::on_net(d, 103, 0, sheet::at(37, 22))) by {
        netlist::lemma_pin(d, 3, 103, 0);
        assert(d[3].pins[0] == sheet::at(37, 22));
    }
    assert(netlist::on_net(d, 103, 1, sheet::at(40, 22))) by {
        netlist::lemma_pin(d, 3, 103, 1);
        assert(d[3].pins[1] == sheet::at(40, 22));
    }
    assert(netlist::on_net(d, 104, 0, sheet::at(40, 22))) by {
        netlist::lemma_pin(d, 4, 104, 0);
        assert(d[4].pins[0] == sheet::at(40, 22));
    }
}

/// A stage whose current the knob sets charges a capacitor, and a trigger turns it round.
pub proof fn law_the_ota_vco_is_wired()
    ensures
        ({
            let d = ota_vco_parts();
            &&& d.len() == 28
            &&& netlist::has_part(d, 120, ElementKind::Ota)
            &&& netlist::has_ground(d, sheet::at(2, 36), 0)
            &&& netlist::has_part(d, 123, ElementKind::Capacitor { farads: Real { bits: 0x3eb0_c6f7_a0b5_ed8d } })
            &&& netlist::has_ground(d, sheet::at(8, 41), 0)
            &&& netlist::has_part(d, 125, ElementKind::Resistor { ohms: Real { bits: 0x412e_8480_0000_0000 } })
            &&& netlist::has_part(d, 130, ElementKind::OpAmp { rail: Real { bits: 0x4014_0000_0000_0000 }, isc: Real { bits: 0x3f99_9999_9999_999a } })
            &&& netlist::has_part(d, 131, ElementKind::Resistor { ohms: Real { bits: 0x413e_8480_0000_0000 } })
            &&& netlist::has_ground(d, sheet::at(11, 39), 0)
            &&& netlist::has_part(d, 141, ElementKind::Resistor { ohms: Real { bits: 0x407d_6000_0000_0000 } })
            &&& netlist::has_part(d, 142, ElementKind::Led { color: 4 })
            &&& netlist::has_ground(d, sheet::at(21, 42), 0)
            &&& netlist::has_part(d, 144, ElementKind::VoltageSource { wave: crate::parts::Wave::Sine, dc: Real { bits: 0x4022_0000_0000_0000 }, amp: Real { bits: 0 }, hz: Real { bits: 0 }, phase: Real { bits: 0 } })
            &&& netlist::has_ground(d, sheet::at(25, 42), 0)
            &&& netlist::has_part(d, 148, ElementKind::Potentiometer { ohms: Real { bits: 0x40c3_8800_0000_0000 }, wiper: Real { bits: 0x3fd9_9999_9999_999a } })
            &&& netlist::has_part(d, 149, ElementKind::Resistor { ohms: Real { bits: 0x40f8_6a00_0000_0000 } })
            &&& netlist::on_net(d, 120, 0, sheet::at(4, 36))
            &&& netlist::earthed(d, sheet::at(4, 36))
            &&& netlist::on_net(d, 120, 1, sheet::at(4, 38))
            &&& netlist::on_net(d, 130, 2, sheet::at(4, 38))
            &&& netlist::on_net(d, 141, 0, sheet::at(4, 38))
            &&& netlist::on_net(d, 131, 1, sheet::at(4, 38))
            &&& netlist::on_net(d, 120, 2, sheet::at(8, 37))
            &&& netlist::on_net(d, 123, 0, sheet::at(8, 37))
            &&& netlist::on_net(d, 125, 0, sheet::at(8, 37))
            &&& netlist::on_net(d, 120, 3, sheet::at(6, 40))
            &&& netlist::on_net(d, 149, 1, sheet::at(6, 40))
            &&& netlist::on_net(d, 123, 1, sheet::at(8, 41))
            &&& netlist::earthed(d, sheet::at(8, 41))
            &&& netlist::on_net(d, 125, 1, sheet::at(13, 37))
            &&& netlist::on_net(d, 130, 0, sheet::at(13, 37))
            &&& netlist::on_net(d, 131, 0, sheet::at(13, 37))
            &&& netlist::on_net(d, 130, 1, sheet::at(13, 39))
            &&& netlist::earthed(d, sheet::at(13, 39))
            &&& netlist::on_net(d, 141, 1, sheet::at(21, 38))
            &&& netlist::on_net(d, 142, 0, sheet::at(21, 38))
            &&& netlist::on_net(d, 142, 1, sheet::at(21, 42))
            &&& netlist::earthed(d, sheet::at(21, 42))
            &&& netlist::on_net(d, 144, 0, sheet::at(25, 34))
            &&& netlist::on_net(d, 148, 2, sheet::at(25, 34))
            &&& netlist::on_net(d, 144, 1, sheet::at(25, 42))
            &&& netlist::on_net(d, 148, 0, sheet::at(25, 42))
            &&& netlist::earthed(d, sheet::at(25, 42))
            &&& netlist::on_net(d, 148, 1, sheet::at(29, 38))
            &&& netlist::on_net(d, 149, 0, sheet::at(29, 38))
        }),
{
    let d = ota_vco_parts();
    assert(d.len() == 28);
    assert(netlist::has_part(d, 120, ElementKind::Ota)) by {
        netlist::lemma_part(d, 0);
        assert(d[0].id == 120);
        assert(d[0].kind == ElementKind::Ota);
    }
    assert(netlist::has_ground(d, sheet::at(2, 36), 0)) by {
        netlist::lemma_ground(d, 2);
        assert(d[2].pins[0] == sheet::at(2, 36));
    }
    assert(netlist::has_part(d, 123, ElementKind::Capacitor { farads: Real { bits: 0x3eb0_c6f7_a0b5_ed8d } })) by {
        netlist::lemma_part(d, 3);
        assert(d[3].id == 123);
        assert(d[3].kind == (ElementKind::Capacitor { farads: Real { bits: 0x3eb0_c6f7_a0b5_ed8d } }));
    }
    assert(netlist::has_ground(d, sheet::at(8, 41), 0)) by {
        netlist::lemma_ground(d, 4);
        assert(d[4].pins[0] == sheet::at(8, 41));
    }
    assert(netlist::has_part(d, 125, ElementKind::Resistor { ohms: Real { bits: 0x412e_8480_0000_0000 } })) by {
        netlist::lemma_part(d, 5);
        assert(d[5].id == 125);
        assert(d[5].kind == (ElementKind::Resistor { ohms: Real { bits: 0x412e_8480_0000_0000 } }));
    }
    assert(netlist::has_part(d, 130, ElementKind::OpAmp { rail: Real { bits: 0x4014_0000_0000_0000 }, isc: Real { bits: 0x3f99_9999_9999_999a } })) by {
        netlist::lemma_part(d, 6);
        assert(d[6].id == 130);
        assert(d[6].kind == (ElementKind::OpAmp { rail: Real { bits: 0x4014_0000_0000_0000 }, isc: Real { bits: 0x3f99_9999_9999_999a } }));
    }
    assert(netlist::has_part(d, 131, ElementKind::Resistor { ohms: Real { bits: 0x413e_8480_0000_0000 } })) by {
        netlist::lemma_part(d, 7);
        assert(d[7].id == 131);
        assert(d[7].kind == (ElementKind::Resistor { ohms: Real { bits: 0x413e_8480_0000_0000 } }));
    }
    assert(netlist::has_ground(d, sheet::at(11, 39), 0)) by {
        netlist::lemma_ground(d, 12);
        assert(d[12].pins[0] == sheet::at(11, 39));
    }
    assert(netlist::has_part(d, 141, ElementKind::Resistor { ohms: Real { bits: 0x407d_6000_0000_0000 } })) by {
        netlist::lemma_part(d, 17);
        assert(d[17].id == 141);
        assert(d[17].kind == (ElementKind::Resistor { ohms: Real { bits: 0x407d_6000_0000_0000 } }));
    }
    assert(netlist::has_part(d, 142, ElementKind::Led { color: 4 })) by {
        netlist::lemma_part(d, 18);
        assert(d[18].id == 142);
        assert(d[18].kind == (ElementKind::Led { color: 4 }));
    }
    assert(netlist::has_ground(d, sheet::at(21, 42), 0)) by {
        netlist::lemma_ground(d, 19);
        assert(d[19].pins[0] == sheet::at(21, 42));
    }
    assert(netlist::has_part(d, 144, ElementKind::VoltageSource { wave: crate::parts::Wave::Sine, dc: Real { bits: 0x4022_0000_0000_0000 }, amp: Real { bits: 0 }, hz: Real { bits: 0 }, phase: Real { bits: 0 } })) by {
        netlist::lemma_part(d, 20);
        assert(d[20].id == 144);
        assert(d[20].kind == (ElementKind::VoltageSource { wave: crate::parts::Wave::Sine, dc: Real { bits: 0x4022_0000_0000_0000 }, amp: Real { bits: 0 }, hz: Real { bits: 0 }, phase: Real { bits: 0 } }));
    }
    assert(netlist::has_ground(d, sheet::at(25, 42), 0)) by {
        netlist::lemma_ground(d, 21);
        assert(d[21].pins[0] == sheet::at(25, 42));
    }
    assert(netlist::has_part(d, 148, ElementKind::Potentiometer { ohms: Real { bits: 0x40c3_8800_0000_0000 }, wiper: Real { bits: 0x3fd9_9999_9999_999a } })) by {
        netlist::lemma_part(d, 24);
        assert(d[24].id == 148);
        assert(d[24].kind == (ElementKind::Potentiometer { ohms: Real { bits: 0x40c3_8800_0000_0000 }, wiper: Real { bits: 0x3fd9_9999_9999_999a } }));
    }
    assert(netlist::has_part(d, 149, ElementKind::Resistor { ohms: Real { bits: 0x40f8_6a00_0000_0000 } })) by {
        netlist::lemma_part(d, 25);
        assert(d[25].id == 149);
        assert(d[25].kind == (ElementKind::Resistor { ohms: Real { bits: 0x40f8_6a00_0000_0000 } }));
    }
    assert(netlist::on_net(d, 120, 0, sheet::at(4, 36))) by {
        netlist::lemma_pin(d, 0, 120, 0);
        assert(d[0].pins[0] == sheet::at(4, 36));
    }
    assert(netlist::earthed(d, sheet::at(4, 36))) by {
        netlist::lemma_earth(d, 2);
        netlist::lemma_earth_along(d, sheet::at(2, 36), sheet::at(4, 36), 1);
    }
    assert(netlist::on_net(d, 120, 1, sheet::at(4, 38))) by {
        netlist::lemma_pin(d, 0, 120, 1);
        assert(d[0].pins[1] == sheet::at(4, 38));
    }
    assert(netlist::on_net(d, 130, 2, sheet::at(4, 38))) by {
        netlist::lemma_pin(d, 6, 130, 2);
        assert(d[6].pins[2] == sheet::at(17, 38));
        netlist::lemma_pin_along(d, 130, 2, sheet::at(17, 38), sheet::at(17, 42), 13);
        netlist::lemma_pin_along(d, 130, 2, sheet::at(17, 42), sheet::at(2, 42), 14);
        netlist::lemma_pin_along(d, 130, 2, sheet::at(2, 42), sheet::at(2, 38), 15);
        netlist::lemma_pin_along(d, 130, 2, sheet::at(2, 38), sheet::at(4, 38), 16);
    }
    assert(netlist::on_net(d, 141, 0, sheet::at(4, 38))) by {
        netlist::lemma_pin(d, 17, 141, 0);
        assert(d[17].pins[0] == sheet::at(17, 38));
        netlist::lemma_pin_along(d, 141, 0, sheet::at(17, 38), sheet::at(17, 42), 13);
        netlist::lemma_pin_along(d, 141, 0, sheet::at(17, 42), sheet::at(2, 42), 14);
        netlist::lemma_pin_along(d, 141, 0, sheet::at(2, 42), sheet::at(2, 38), 15);
        netlist::lemma_pin_along(d, 141, 0, sheet::at(2, 38), sheet::at(4, 38), 16);
    }
    assert(netlist::on_net(d, 131, 1, sheet::at(4, 38))) by {
        netlist::lemma_pin(d, 7, 131, 1);
        assert(d[7].pins[1] == sheet::at(19, 38));
        netlist::lemma_pin_along(d, 131, 1, sheet::at(19, 38), sheet::at(17, 38), 8);
        netlist::lemma_pin_along(d, 131, 1, sheet::at(17, 38), sheet::at(17, 42), 13);
        netlist::lemma_pin_along(d, 131, 1, sheet::at(17, 42), sheet::at(2, 42), 14);
        netlist::lemma_pin_along(d, 131, 1, sheet::at(2, 42), sheet::at(2, 38), 15);
        netlist::lemma_pin_along(d, 131, 1, sheet::at(2, 38), sheet::at(4, 38), 16);
    }
    assert(netlist::on_net(d, 120, 2, sheet::at(8, 37))) by {
        netlist::lemma_pin(d, 0, 120, 2);
        assert(d[0].pins[2] == sheet::at(8, 37));
    }
    assert(netlist::on_net(d, 123, 0, sheet::at(8, 37))) by {
        netlist::lemma_pin(d, 3, 123, 0);
        assert(d[3].pins[0] == sheet::at(8, 37));
    }
    assert(netlist::on_net(d, 125, 0, sheet::at(8, 37))) by {
        netlist::lemma_pin(d, 5, 125, 0);
        assert(d[5].pins[0] == sheet::at(8, 37));
    }
    assert(netlist::on_net(d, 120, 3, sheet::at(6, 40))) by {
        netlist::lemma_pin(d, 0, 120, 3);
        assert(d[0].pins[3] == sheet::at(6, 40));
    }
    assert(netlist::on_net(d, 149, 1, sheet::at(6, 40))) by {
        netlist::lemma_pin(d, 25, 149, 1);
        assert(d[25].pins[1] == sheet::at(29, 44));
        netlist::lemma_pin_along(d, 149, 1, sheet::at(29, 44), sheet::at(6, 44), 26);
        netlist::lemma_pin_along(d, 149, 1, sheet::at(6, 44), sheet::at(6, 40), 27);
    }
    assert(netlist::on_net(d, 123, 1, sheet::at(8, 41))) by {
        netlist::lemma_pin(d, 3, 123, 1);
        assert(d[3].pins[1] == sheet::at(8, 41));
    }
    assert(netlist::earthed(d, sheet::at(8, 41))) by {
        netlist::lemma_earth(d, 4);
    }
    assert(netlist::on_net(d, 125, 1, sheet::at(13, 37))) by {
        netlist::lemma_pin(d, 5, 125, 1);
        assert(d[5].pins[1] == sheet::at(13, 37));
    }
    assert(netlist::on_net(d, 130, 0, sheet::at(13, 37))) by {
        netlist::lemma_pin(d, 6, 130, 0);
        assert(d[6].pins[0] == sheet::at(13, 37));
    }
    assert(netlist::on_net(d, 131, 0, sheet::at(13, 37))) by {
        netlist::lemma_pin(d, 7, 131, 0);
        assert(d[7].pins[0] == sheet::at(19, 34));
        netlist::lemma_pin_along(d, 131, 0, sheet::at(19, 34), sheet::at(13, 34), 9);
        netlist::lemma_pin_along(d, 131, 0, sheet::at(13, 34), sheet::at(13, 37), 10);
    }
    assert(netlist::on_net(d, 130, 1, sheet::at(13, 39))) by {
        netlist::lemma_pin(d, 6, 130, 1);
        assert(d[6].pins[1] == sheet::at(13, 39));
    }
    assert(netlist::earthed(d, sheet::at(13, 39))) by {
        netlist::lemma_earth(d, 12);
        netlist::lemma_earth_along(d, sheet::at(11, 39), sheet::at(13, 39), 11);
    }
    assert(netlist::on_net(d, 141, 1, sheet::at(21, 38))) by {
        netlist::lemma_pin(d, 17, 141, 1);
        assert(d[17].pins[1] == sheet::at(21, 38));
    }
    assert(netlist::on_net(d, 142, 0, sheet::at(21, 38))) by {
        netlist::lemma_pin(d, 18, 142, 0);
        assert(d[18].pins[0] == sheet::at(21, 38));
    }
    assert(netlist::on_net(d, 142, 1, sheet::at(21, 42))) by {
        netlist::lemma_pin(d, 18, 142, 1);
        assert(d[18].pins[1] == sheet::at(21, 42));
    }
    assert(netlist::earthed(d, sheet::at(21, 42))) by {
        netlist::lemma_earth(d, 19);
    }
    assert(netlist::on_net(d, 144, 0, sheet::at(25, 34))) by {
        netlist::lemma_pin(d, 20, 144, 0);
        assert(d[20].pins[0] == sheet::at(25, 34));
    }
    assert(netlist::on_net(d, 148, 2, sheet::at(25, 34))) by {
        netlist::lemma_pin(d, 24, 148, 2);
        assert(d[24].pins[2] == sheet::at(27, 34));
        netlist::lemma_pin_along(d, 148, 2, sheet::at(27, 34), sheet::at(25, 34), 22);
    }
    assert(netlist::on_net(d, 144, 1, sheet::at(25, 42))) by {
        netlist::lemma_pin(d, 20, 144, 1);
        assert(d[20].pins[1] == sheet::at(25, 42));
    }
    assert(netlist::on_net(d, 148, 0, sheet::at(25, 42))) by {
        netlist::lemma_pin(d, 24, 148, 0);
        assert(d[24].pins[0] == sheet::at(27, 42));
        netlist::lemma_pin_along(d, 148, 0, sheet::at(27, 42), sheet::at(25, 42), 23);
    }
    assert(netlist::earthed(d, sheet::at(25, 42))) by {
        netlist::lemma_earth(d, 21);
    }
    assert(netlist::on_net(d, 148, 1, sheet::at(29, 38))) by {
        netlist::lemma_pin(d, 24, 148, 1);
        assert(d[24].pins[1] == sheet::at(29, 38));
    }
    assert(netlist::on_net(d, 149, 0, sheet::at(29, 38))) by {
        netlist::lemma_pin(d, 25, 149, 0);
        assert(d[25].pins[0] == sheet::at(29, 38));
    }
}

/// A timer on its two resistors and its capacitor, which a button discharges.
pub proof fn law_the_timer_is_wired()
    ensures
        ({
            let d = timer_parts();
            &&& d.len() == 25
            &&& netlist::has_part(d, 160, ElementKind::VoltageSource { wave: crate::parts::Wave::Sine, dc: Real { bits: 0x4022_0000_0000_0000 }, amp: Real { bits: 0 }, hz: Real { bits: 0 }, phase: Real { bits: 0 } })
            &&& netlist::has_ground(d, sheet::at(34, 48), 0)
            &&& netlist::has_part(d, 165, ElementKind::Timer555)
            &&& netlist::has_part(d, 166, ElementKind::Resistor { ohms: Real { bits: 0x40f8_6a00_0000_0000 } })
            &&& netlist::has_part(d, 168, ElementKind::Resistor { ohms: Real { bits: 0x40f8_6a00_0000_0000 } })
            &&& netlist::has_part(d, 175, ElementKind::Capacitor { farads: Real { bits: 0x3ed3_b696_29a2_90b9 } })
            &&& netlist::has_ground(d, sheet::at(38, 48), 0)
            &&& netlist::has_ground(d, sheet::at(36, 44), 0)
            &&& netlist::has_part(d, 180, ElementKind::Button { closed: false })
            &&& netlist::has_ground(d, sheet::at(36, 40), 0)
            &&& netlist::has_part(d, 182, ElementKind::Resistor { ohms: Real { bits: 0x407d_6000_0000_0000 } })
            &&& netlist::has_part(d, 183, ElementKind::Led { color: 3 })
            &&& netlist::has_ground(d, sheet::at(49, 44), 0)
            &&& netlist::on_net(d, 160, 0, sheet::at(34, 36))
            &&& netlist::on_net(d, 165, 0, sheet::at(34, 36))
            &&& netlist::on_net(d, 166, 0, sheet::at(34, 36))
            &&& netlist::on_net(d, 160, 1, sheet::at(34, 48))
            &&& netlist::earthed(d, sheet::at(34, 48))
            &&& netlist::on_net(d, 165, 1, sheet::at(40, 44))
            &&& netlist::earthed(d, sheet::at(40, 44))
            &&& netlist::on_net(d, 165, 2, sheet::at(40, 38))
            &&& netlist::on_net(d, 180, 0, sheet::at(40, 38))
            &&& netlist::on_net(d, 175, 0, sheet::at(40, 38))
            &&& netlist::on_net(d, 165, 3, sheet::at(40, 38))
            &&& netlist::on_net(d, 168, 1, sheet::at(40, 38))
            &&& netlist::on_net(d, 165, 4, sheet::at(46, 42))
            &&& netlist::on_net(d, 182, 0, sheet::at(46, 42))
            &&& netlist::on_net(d, 165, 5, sheet::at(46, 38))
            &&& netlist::on_net(d, 166, 1, sheet::at(46, 38))
            &&& netlist::on_net(d, 168, 0, sheet::at(46, 38))
            &&& netlist::on_net(d, 175, 1, sheet::at(38, 48))
            &&& netlist::earthed(d, sheet::at(38, 48))
            &&& netlist::on_net(d, 180, 1, sheet::at(36, 40))
            &&& netlist::earthed(d, sheet::at(36, 40))
            &&& netlist::on_net(d, 182, 1, sheet::at(49, 42))
            &&& netlist::on_net(d, 183, 0, sheet::at(49, 42))
            &&& netlist::on_net(d, 183, 1, sheet::at(49, 44))
            &&& netlist::earthed(d, sheet::at(49, 44))
        }),
{
    let d = timer_parts();
    assert(d.len() == 25);
    assert(netlist::has_part(d, 160, ElementKind::VoltageSource { wave: crate::parts::Wave::Sine, dc: Real { bits: 0x4022_0000_0000_0000 }, amp: Real { bits: 0 }, hz: Real { bits: 0 }, phase: Real { bits: 0 } })) by {
        netlist::lemma_part(d, 0);
        assert(d[0].id == 160);
        assert(d[0].kind == (ElementKind::VoltageSource { wave: crate::parts::Wave::Sine, dc: Real { bits: 0x4022_0000_0000_0000 }, amp: Real { bits: 0 }, hz: Real { bits: 0 }, phase: Real { bits: 0 } }));
    }
    assert(netlist::has_ground(d, sheet::at(34, 48), 0)) by {
        netlist::lemma_ground(d, 1);
        assert(d[1].pins[0] == sheet::at(34, 48));
    }
    assert(netlist::has_part(d, 165, ElementKind::Timer555)) by {
        netlist::lemma_part(d, 5);
        assert(d[5].id == 165);
        assert(d[5].kind == ElementKind::Timer555);
    }
    assert(netlist::has_part(d, 166, ElementKind::Resistor { ohms: Real { bits: 0x40f8_6a00_0000_0000 } })) by {
        netlist::lemma_part(d, 6);
        assert(d[6].id == 166);
        assert(d[6].kind == (ElementKind::Resistor { ohms: Real { bits: 0x40f8_6a00_0000_0000 } }));
    }
    assert(netlist::has_part(d, 168, ElementKind::Resistor { ohms: Real { bits: 0x40f8_6a00_0000_0000 } })) by {
        netlist::lemma_part(d, 8);
        assert(d[8].id == 168);
        assert(d[8].kind == (ElementKind::Resistor { ohms: Real { bits: 0x40f8_6a00_0000_0000 } }));
    }
    assert(netlist::has_part(d, 175, ElementKind::Capacitor { farads: Real { bits: 0x3ed3_b696_29a2_90b9 } })) by {
        netlist::lemma_part(d, 15);
        assert(d[15].id == 175);
        assert(d[15].kind == (ElementKind::Capacitor { farads: Real { bits: 0x3ed3_b696_29a2_90b9 } }));
    }
    assert(netlist::has_ground(d, sheet::at(38, 48), 0)) by {
        netlist::lemma_ground(d, 16);
        assert(d[16].pins[0] == sheet::at(38, 48));
    }
    assert(netlist::has_ground(d, sheet::at(36, 44), 0)) by {
        netlist::lemma_ground(d, 18);
        assert(d[18].pins[0] == sheet::at(36, 44));
    }
    assert(netlist::has_part(d, 180, ElementKind::Button { closed: false })) by {
        netlist::lemma_part(d, 20);
        assert(d[20].id == 180);
        assert(d[20].kind == (ElementKind::Button { closed: false }));
    }
    assert(netlist::has_ground(d, sheet::at(36, 40), 0)) by {
        netlist::lemma_ground(d, 21);
        assert(d[21].pins[0] == sheet::at(36, 40));
    }
    assert(netlist::has_part(d, 182, ElementKind::Resistor { ohms: Real { bits: 0x407d_6000_0000_0000 } })) by {
        netlist::lemma_part(d, 22);
        assert(d[22].id == 182);
        assert(d[22].kind == (ElementKind::Resistor { ohms: Real { bits: 0x407d_6000_0000_0000 } }));
    }
    assert(netlist::has_part(d, 183, ElementKind::Led { color: 3 })) by {
        netlist::lemma_part(d, 23);
        assert(d[23].id == 183);
        assert(d[23].kind == (ElementKind::Led { color: 3 }));
    }
    assert(netlist::has_ground(d, sheet::at(49, 44), 0)) by {
        netlist::lemma_ground(d, 24);
        assert(d[24].pins[0] == sheet::at(49, 44));
    }
    assert(netlist::on_net(d, 160, 0, sheet::at(34, 36))) by {
        netlist::lemma_pin(d, 0, 160, 0);
        assert(d[0].pins[0] == sheet::at(34, 36));
    }
    assert(netlist::on_net(d, 165, 0, sheet::at(34, 36))) by {
        netlist::lemma_pin(d, 5, 165, 0);
        assert(d[5].pins[0] == sheet::at(40, 36));
        netlist::lemma_pin_along(d, 165, 0, sheet::at(40, 36), sheet::at(34, 36), 4);
    }
    assert(netlist::on_net(d, 166, 0, sheet::at(34, 36))) by {
        netlist::lemma_pin(d, 6, 166, 0);
        assert(d[6].pins[0] == sheet::at(52, 34));
        netlist::lemma_pin_along(d, 166, 0, sheet::at(52, 34), sheet::at(34, 34), 3);
        netlist::lemma_pin_along(d, 166, 0, sheet::at(34, 34), sheet::at(34, 36), 2);
    }
    assert(netlist::on_net(d, 160, 1, sheet::at(34, 48))) by {
        netlist::lemma_pin(d, 0, 160, 1);
        assert(d[0].pins[1] == sheet::at(34, 48));
    }
    assert(netlist::earthed(d, sheet::at(34, 48))) by {
        netlist::lemma_earth(d, 1);
    }
    assert(netlist::on_net(d, 165, 1, sheet::at(40, 44))) by {
        netlist::lemma_pin(d, 5, 165, 1);
        assert(d[5].pins[1] == sheet::at(40, 44));
    }
    assert(netlist::earthed(d, sheet::at(40, 44))) by {
        netlist::lemma_earth(d, 18);
        netlist::lemma_earth_along(d, sheet::at(36, 44), sheet::at(40, 44), 17);
    }
    assert(netlist::on_net(d, 165, 2, sheet::at(40, 38))) by {
        netlist::lemma_pin(d, 5, 165, 2);
        assert(d[5].pins[2] == sheet::at(40, 38));
    }
    assert(netlist::on_net(d, 180, 0, sheet::at(40, 38))) by {
        netlist::lemma_pin(d, 20, 180, 0);
        assert(d[20].pins[0] == sheet::at(36, 38));
        netlist::lemma_pin_along(d, 180, 0, sheet::at(36, 38), sheet::at(38, 38), 19);
        netlist::lemma_pin_along(d, 180, 0, sheet::at(38, 38), sheet::at(40, 38), 14);
    }
    assert(netlist::on_net(d, 175, 0, sheet::at(40, 38))) by {
        netlist::lemma_pin(d, 15, 175, 0);
        assert(d[15].pins[0] == sheet::at(38, 46));
        netlist::lemma_pin_along(d, 175, 0, sheet::at(38, 46), sheet::at(38, 42), 11);
        netlist::lemma_pin_along(d, 175, 0, sheet::at(38, 42), sheet::at(38, 38), 13);
        netlist::lemma_pin_along(d, 175, 0, sheet::at(38, 38), sheet::at(40, 38), 14);
    }
    assert(netlist::on_net(d, 165, 3, sheet::at(40, 38))) by {
        netlist::lemma_pin(d, 5, 165, 3);
        assert(d[5].pins[3] == sheet::at(40, 42));
        netlist::lemma_pin_along(d, 165, 3, sheet::at(40, 42), sheet::at(38, 42), 12);
        netlist::lemma_pin_along(d, 165, 3, sheet::at(38, 42), sheet::at(38, 38), 13);
        netlist::lemma_pin_along(d, 165, 3, sheet::at(38, 38), sheet::at(40, 38), 14);
    }
    assert(netlist::on_net(d, 168, 1, sheet::at(40, 38))) by {
        netlist::lemma_pin(d, 8, 168, 1);
        assert(d[8].pins[1] == sheet::at(52, 42));
        netlist::lemma_pin_along(d, 168, 1, sheet::at(52, 42), sheet::at(52, 46), 9);
        netlist::lemma_pin_along(d, 168, 1, sheet::at(52, 46), sheet::at(38, 46), 10);
        netlist::lemma_pin_along(d, 168, 1, sheet::at(38, 46), sheet::at(38, 42), 11);
        netlist::lemma_pin_along(d, 168, 1, sheet::at(38, 42), sheet::at(38, 38), 13);
        netlist::lemma_pin_along(d, 168, 1, sheet::at(38, 38), sheet::at(40, 38), 14);
    }
    assert(netlist::on_net(d, 165, 4, sheet::at(46, 42))) by {
        netlist::lemma_pin(d, 5, 165, 4);
        assert(d[5].pins[4] == sheet::at(46, 42));
    }
    assert(netlist::on_net(d, 182, 0, sheet::at(46, 42))) by {
        netlist::lemma_pin(d, 22, 182, 0);
        assert(d[22].pins[0] == sheet::at(46, 42));
    }
    assert(netlist::on_net(d, 165, 5, sheet::at(46, 38))) by {
        netlist::lemma_pin(d, 5, 165, 5);
        assert(d[5].pins[5] == sheet::at(46, 38));
    }
    assert(netlist::on_net(d, 166, 1, sheet::at(46, 38))) by {
        netlist::lemma_pin(d, 6, 166, 1);
        assert(d[6].pins[1] == sheet::at(52, 38));
        netlist::lemma_pin_along(d, 166, 1, sheet::at(52, 38), sheet::at(46, 38), 7);
    }
    assert(netlist::on_net(d, 168, 0, sheet::at(46, 38))) by {
        netlist::lemma_pin(d, 8, 168, 0);
        assert(d[8].pins[0] == sheet::at(52, 38));
        netlist::lemma_pin_along(d, 168, 0, sheet::at(52, 38), sheet::at(46, 38), 7);
    }
    assert(netlist::on_net(d, 175, 1, sheet::at(38, 48))) by {
        netlist::lemma_pin(d, 15, 175, 1);
        assert(d[15].pins[1] == sheet::at(38, 48));
    }
    assert(netlist::earthed(d, sheet::at(38, 48))) by {
        netlist::lemma_earth(d, 16);
    }
    assert(netlist::on_net(d, 180, 1, sheet::at(36, 40))) by {
        netlist::lemma_pin(d, 20, 180, 1);
        assert(d[20].pins[1] == sheet::at(36, 40));
    }
    assert(netlist::earthed(d, sheet::at(36, 40))) by {
        netlist::lemma_earth(d, 21);
    }
    assert(netlist::on_net(d, 182, 1, sheet::at(49, 42))) by {
        netlist::lemma_pin(d, 22, 182, 1);
        assert(d[22].pins[1] == sheet::at(49, 42));
    }
    assert(netlist::on_net(d, 183, 0, sheet::at(49, 42))) by {
        netlist::lemma_pin(d, 23, 183, 0);
        assert(d[23].pins[0] == sheet::at(49, 42));
    }
    assert(netlist::on_net(d, 183, 1, sheet::at(49, 44))) by {
        netlist::lemma_pin(d, 23, 183, 1);
        assert(d[23].pins[1] == sheet::at(49, 44));
    }
    assert(netlist::earthed(d, sheet::at(49, 44))) by {
        netlist::lemma_earth(d, 24);
    }
}

/// A wave goes through a switch and a resistor to the speaker.
pub proof fn law_the_concert_pitch_is_wired()
    ensures
        ({
            let d = concert_pitch_parts();
            &&& d.len() == 7
            &&& netlist::has_part(d, 200, ElementKind::VoltageSource { wave: crate::parts::Wave::Sine, dc: Real { bits: 0 }, amp: Real { bits: 0x4004_0000_0000_0000 }, hz: Real { bits: 0x407b_8000_0000_0000 }, phase: Real { bits: 0 } })
            &&& netlist::has_part(d, 202, ElementKind::Switch { closed: false })
            &&& netlist::has_part(d, 203, ElementKind::Resistor { ohms: Real { bits: 0x4020_0000_0000_0000 } })
            &&& netlist::has_part(d, 204, ElementKind::Speaker { ohms: Real { bits: 0x4020_0000_0000_0000 } })
            &&& netlist::has_ground(d, sheet::at(2, 60), 0)
            &&& netlist::on_net(d, 200, 0, sheet::at(2, 52))
            &&& netlist::on_net(d, 202, 0, sheet::at(2, 52))
            &&& netlist::on_net(d, 200, 1, sheet::at(2, 60))
            &&& netlist::on_net(d, 204, 1, sheet::at(2, 60))
            &&& netlist::earthed(d, sheet::at(2, 60))
            &&& netlist::on_net(d, 202, 1, sheet::at(8, 52))
            &&& netlist::on_net(d, 203, 0, sheet::at(8, 52))
            &&& netlist::on_net(d, 203, 1, sheet::at(11, 52))
            &&& netlist::on_net(d, 204, 0, sheet::at(11, 52))
        }),
{
    let d = concert_pitch_parts();
    assert(d.len() == 7);
    assert(netlist::has_part(d, 200, ElementKind::VoltageSource { wave: crate::parts::Wave::Sine, dc: Real { bits: 0 }, amp: Real { bits: 0x4004_0000_0000_0000 }, hz: Real { bits: 0x407b_8000_0000_0000 }, phase: Real { bits: 0 } })) by {
        netlist::lemma_part(d, 0);
        assert(d[0].id == 200);
        assert(d[0].kind == (ElementKind::VoltageSource { wave: crate::parts::Wave::Sine, dc: Real { bits: 0 }, amp: Real { bits: 0x4004_0000_0000_0000 }, hz: Real { bits: 0x407b_8000_0000_0000 }, phase: Real { bits: 0 } }));
    }
    assert(netlist::has_part(d, 202, ElementKind::Switch { closed: false })) by {
        netlist::lemma_part(d, 2);
        assert(d[2].id == 202);
        assert(d[2].kind == (ElementKind::Switch { closed: false }));
    }
    assert(netlist::has_part(d, 203, ElementKind::Resistor { ohms: Real { bits: 0x4020_0000_0000_0000 } })) by {
        netlist::lemma_part(d, 3);
        assert(d[3].id == 203);
        assert(d[3].kind == (ElementKind::Resistor { ohms: Real { bits: 0x4020_0000_0000_0000 } }));
    }
    assert(netlist::has_part(d, 204, ElementKind::Speaker { ohms: Real { bits: 0x4020_0000_0000_0000 } })) by {
        netlist::lemma_part(d, 4);
        assert(d[4].id == 204);
        assert(d[4].kind == (ElementKind::Speaker { ohms: Real { bits: 0x4020_0000_0000_0000 } }));
    }
    assert(netlist::has_ground(d, sheet::at(2, 60), 0)) by {
        netlist::lemma_ground(d, 6);
        assert(d[6].pins[0] == sheet::at(2, 60));
    }
    assert(netlist::on_net(d, 200, 0, sheet::at(2, 52))) by {
        netlist::lemma_pin(d, 0, 200, 0);
        assert(d[0].pins[0] == sheet::at(2, 52));
    }
    assert(netlist::on_net(d, 202, 0, sheet::at(2, 52))) by {
        netlist::lemma_pin(d, 2, 202, 0);
        assert(d[2].pins[0] == sheet::at(5, 52));
        netlist::lemma_pin_along(d, 202, 0, sheet::at(5, 52), sheet::at(2, 52), 1);
    }
    assert(netlist::on_net(d, 200, 1, sheet::at(2, 60))) by {
        netlist::lemma_pin(d, 0, 200, 1);
        assert(d[0].pins[1] == sheet::at(2, 60));
    }
    assert(netlist::on_net(d, 204, 1, sheet::at(2, 60))) by {
        netlist::lemma_pin(d, 4, 204, 1);
        assert(d[4].pins[1] == sheet::at(11, 60));
        netlist::lemma_pin_along(d, 204, 1, sheet::at(11, 60), sheet::at(2, 60), 5);
    }
    assert(netlist::earthed(d, sheet::at(2, 60))) by {
        netlist::lemma_earth(d, 6);
    }
    assert(netlist::on_net(d, 202, 1, sheet::at(8, 52))) by {
        netlist::lemma_pin(d, 2, 202, 1);
        assert(d[2].pins[1] == sheet::at(8, 52));
    }
    assert(netlist::on_net(d, 203, 0, sheet::at(8, 52))) by {
        netlist::lemma_pin(d, 3, 203, 0);
        assert(d[3].pins[0] == sheet::at(8, 52));
    }
    assert(netlist::on_net(d, 203, 1, sheet::at(11, 52))) by {
        netlist::lemma_pin(d, 3, 203, 1);
        assert(d[3].pins[1] == sheet::at(11, 52));
    }
    assert(netlist::on_net(d, 204, 0, sheet::at(11, 52))) by {
        netlist::lemma_pin(d, 4, 204, 0);
        assert(d[4].pins[0] == sheet::at(11, 52));
    }
}

/// The showcase is its ten circuits, one behind the other, with nothing else.
pub proof fn law_the_showcase_has_its_circuits()
    ensures
        ({
            let all = demo_parts();
            &&& all.len() == 143
            &&& netlist::placed(all, 0, switched_lamp_parts())
            &&& netlist::placed(all, 8, dimmer_parts())
            &&& netlist::placed(all, 19, fader_parts())
            &&& netlist::placed(all, 34, blinker_parts())
            &&& netlist::placed(all, 47, multivibrator_parts())
            &&& netlist::placed(all, 64, rectifier_parts())
            &&& netlist::placed(all, 74, regulator_parts())
            &&& netlist::placed(all, 83, ota_vco_parts())
            &&& netlist::placed(all, 111, timer_parts())
            &&& netlist::placed(all, 136, concert_pitch_parts())
        }),
{
    let t0 = switched_lamp_parts();
    netlist::lemma_placed_here(t0);
    assert(t0.len() == 8);
    let s1 = dimmer_parts();
    assert(s1.len() == 11);
    let t1 = t0 + s1;
    netlist::lemma_placed_last(t0, s1);
    netlist::lemma_placed_before(t0, s1, 0, t0);
    let s2 = fader_parts();
    assert(s2.len() == 15);
    let t2 = t1 + s2;
    netlist::lemma_placed_last(t1, s2);
    netlist::lemma_placed_before(t1, s2, 0, t0);
    netlist::lemma_placed_before(t1, s2, 8, s1);
    let s3 = blinker_parts();
    assert(s3.len() == 13);
    let t3 = t2 + s3;
    netlist::lemma_placed_last(t2, s3);
    netlist::lemma_placed_before(t2, s3, 0, t0);
    netlist::lemma_placed_before(t2, s3, 8, s1);
    netlist::lemma_placed_before(t2, s3, 19, s2);
    let s4 = multivibrator_parts();
    assert(s4.len() == 17);
    let t4 = t3 + s4;
    netlist::lemma_placed_last(t3, s4);
    netlist::lemma_placed_before(t3, s4, 0, t0);
    netlist::lemma_placed_before(t3, s4, 8, s1);
    netlist::lemma_placed_before(t3, s4, 19, s2);
    netlist::lemma_placed_before(t3, s4, 34, s3);
    let s5 = rectifier_parts();
    assert(s5.len() == 10);
    let t5 = t4 + s5;
    netlist::lemma_placed_last(t4, s5);
    netlist::lemma_placed_before(t4, s5, 0, t0);
    netlist::lemma_placed_before(t4, s5, 8, s1);
    netlist::lemma_placed_before(t4, s5, 19, s2);
    netlist::lemma_placed_before(t4, s5, 34, s3);
    netlist::lemma_placed_before(t4, s5, 47, s4);
    let s6 = regulator_parts();
    assert(s6.len() == 9);
    let t6 = t5 + s6;
    netlist::lemma_placed_last(t5, s6);
    netlist::lemma_placed_before(t5, s6, 0, t0);
    netlist::lemma_placed_before(t5, s6, 8, s1);
    netlist::lemma_placed_before(t5, s6, 19, s2);
    netlist::lemma_placed_before(t5, s6, 34, s3);
    netlist::lemma_placed_before(t5, s6, 47, s4);
    netlist::lemma_placed_before(t5, s6, 64, s5);
    let s7 = ota_vco_parts();
    assert(s7.len() == 28);
    let t7 = t6 + s7;
    netlist::lemma_placed_last(t6, s7);
    netlist::lemma_placed_before(t6, s7, 0, t0);
    netlist::lemma_placed_before(t6, s7, 8, s1);
    netlist::lemma_placed_before(t6, s7, 19, s2);
    netlist::lemma_placed_before(t6, s7, 34, s3);
    netlist::lemma_placed_before(t6, s7, 47, s4);
    netlist::lemma_placed_before(t6, s7, 64, s5);
    netlist::lemma_placed_before(t6, s7, 74, s6);
    let s8 = timer_parts();
    assert(s8.len() == 25);
    let t8 = t7 + s8;
    netlist::lemma_placed_last(t7, s8);
    netlist::lemma_placed_before(t7, s8, 0, t0);
    netlist::lemma_placed_before(t7, s8, 8, s1);
    netlist::lemma_placed_before(t7, s8, 19, s2);
    netlist::lemma_placed_before(t7, s8, 34, s3);
    netlist::lemma_placed_before(t7, s8, 47, s4);
    netlist::lemma_placed_before(t7, s8, 64, s5);
    netlist::lemma_placed_before(t7, s8, 74, s6);
    netlist::lemma_placed_before(t7, s8, 83, s7);
    let s9 = concert_pitch_parts();
    assert(s9.len() == 7);
    let t9 = t8 + s9;
    netlist::lemma_placed_last(t8, s9);
    netlist::lemma_placed_before(t8, s9, 0, t0);
    netlist::lemma_placed_before(t8, s9, 8, s1);
    netlist::lemma_placed_before(t8, s9, 19, s2);
    netlist::lemma_placed_before(t8, s9, 34, s3);
    netlist::lemma_placed_before(t8, s9, 47, s4);
    netlist::lemma_placed_before(t8, s9, 64, s5);
    netlist::lemma_placed_before(t8, s9, 74, s6);
    netlist::lemma_placed_before(t8, s9, 83, s7);
    netlist::lemma_placed_before(t8, s9, 111, s8);
    assert(t9 == demo_parts());
}

} // verus!
