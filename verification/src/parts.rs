//! The document: parts on a grid, each with a kind, its pins and a name.
use vstd::prelude::*;

use crate::binary64::Real;
use crate::lists::Copied;

verus! {

/// A grid point.
pub type Point = (i32, i32);

/// The shape of a source's alternating part.
#[derive(Clone, Copy, Debug, PartialEq, Eq, Structural)]
pub enum Wave {
    Sine,
    /// A shape that only the solver reads.
    Shape { tag: u8 },
}

/// What a part is, with its parameters.
#[derive(Clone, Copy, Debug, PartialEq, Eq, Structural)]
pub enum ElementKind {
    Wire,
    Ground,
    Label,
    Rail { wave: Wave, dc: Real, amp: Real, hz: Real, phase: Real },
    VoltageSource { wave: Wave, dc: Real, amp: Real, hz: Real, phase: Real },
    CurrentSource { amps: Real },
    Resistor { ohms: Real },
    Capacitor { farads: Real },
    Inductor { henries: Real },
    Switch { closed: bool },
    Button { closed: bool },
    Lamp { ohms: Real, rated_watts: Real },
    Speaker { ohms: Real },
    Diode,
    Zener { vz: Real },
    Led { color: u8 },
    Noise { volts: Real, ohms: Real, seed: u32 },
    Photocell { r_dark: Real, r_lit: Real, light: Real },
    Motor { ohms: Real, henries: Real, bemf: Real },
    Potentiometer { ohms: Real, wiper: Real },
    Npn { beta: Real },
    Nmos { vt: Real, k: Real },
    OpAmp { rail: Real, isc: Real },
    Ota,
    Timer555,
    /// A kind that only the solver knows, values and all, by a number of the caller's; and
    /// how many pins it has.
    Other { tag: u16, pins: u8 },
}

impl ElementKind {
    /// How many pins a part of this kind has.
    pub open spec fn pins(self) -> nat {
        match self {
            ElementKind::Ground | ElementKind::Label | ElementKind::Rail { .. } => 1,
            ElementKind::Potentiometer { .. }
            | ElementKind::Npn { .. }
            | ElementKind::Nmos { .. }
            | ElementKind::OpAmp { .. } => 3,
            ElementKind::Ota => 4,
            ElementKind::Timer555 => 6,
            ElementKind::Other { pins, .. } => pins as nat,
            _ => 2,
        }
    }

    /// How many pins a part of this kind has.
    pub fn pin_count(&self) -> (n: usize)
        ensures
            n == self.pins(),
    {
        match self {
            ElementKind::Ground | ElementKind::Label | ElementKind::Rail { .. } => 1,
            ElementKind::Potentiometer { .. }
            | ElementKind::Npn { .. }
            | ElementKind::Nmos { .. }
            | ElementKind::OpAmp { .. } => 3,
            ElementKind::Ota => 4,
            ElementKind::Timer555 => 6,
            ElementKind::Other { pins, .. } => *pins as usize,
            _ => 2,
        }
    }

    /// A number for the kind alone, whatever its parameters.
    pub open spec fn ordinal(self) -> int {
        match self {
            ElementKind::Wire => 0,
            ElementKind::Ground => 1,
            ElementKind::Label => 2,
            ElementKind::Rail { .. } => 3,
            ElementKind::VoltageSource { .. } => 4,
            ElementKind::CurrentSource { .. } => 5,
            ElementKind::Resistor { .. } => 6,
            ElementKind::Capacitor { .. } => 7,
            ElementKind::Inductor { .. } => 8,
            ElementKind::Switch { .. } => 9,
            ElementKind::Button { .. } => 10,
            ElementKind::Lamp { .. } => 11,
            ElementKind::Speaker { .. } => 12,
            ElementKind::Diode => 13,
            ElementKind::Zener { .. } => 14,
            ElementKind::Led { .. } => 15,
            ElementKind::Noise { .. } => 16,
            ElementKind::Photocell { .. } => 17,
            ElementKind::Motor { .. } => 18,
            ElementKind::Potentiometer { .. } => 19,
            ElementKind::Npn { .. } => 20,
            ElementKind::Nmos { .. } => 21,
            ElementKind::OpAmp { .. } => 22,
            ElementKind::Ota => 23,
            ElementKind::Timer555 => 24,
            ElementKind::Other { tag, .. } => 25 + tag,
        }
    }

    fn ordinal_of(&self) -> (n: u32)
        ensures
            n == self.ordinal(),
    {
        match self {
            ElementKind::Wire => 0,
            ElementKind::Ground => 1,
            ElementKind::Label => 2,
            ElementKind::Rail { .. } => 3,
            ElementKind::VoltageSource { .. } => 4,
            ElementKind::CurrentSource { .. } => 5,
            ElementKind::Resistor { .. } => 6,
            ElementKind::Capacitor { .. } => 7,
            ElementKind::Inductor { .. } => 8,
            ElementKind::Switch { .. } => 9,
            ElementKind::Button { .. } => 10,
            ElementKind::Lamp { .. } => 11,
            ElementKind::Speaker { .. } => 12,
            ElementKind::Diode => 13,
            ElementKind::Zener { .. } => 14,
            ElementKind::Led { .. } => 15,
            ElementKind::Noise { .. } => 16,
            ElementKind::Photocell { .. } => 17,
            ElementKind::Motor { .. } => 18,
            ElementKind::Potentiometer { .. } => 19,
            ElementKind::Npn { .. } => 20,
            ElementKind::Nmos { .. } => 21,
            ElementKind::OpAmp { .. } => 22,
            ElementKind::Ota => 23,
            ElementKind::Timer555 => 24,
            ElementKind::Other { tag, .. } => 25 + *tag as u32,
        }
    }

    /// The same kind, whatever the parameters.
    pub open spec fn same_kind(self, other: ElementKind) -> bool {
        self.ordinal() == other.ordinal()
    }

    /// Whether the two are the same kind, whatever their parameters.
    pub fn is_same_kind(&self, other: &ElementKind) -> (r: bool)
        ensures
            r == self.same_kind(*other),
    {
        self.ordinal_of() == other.ordinal_of()
    }
}

/// One part of a document.
#[derive(Clone, Debug)]
pub struct ElementSpec {
    pub id: u32,
    pub kind: ElementKind,
    pub pins: Vec<Point>,
    pub name: String,
    pub tier: u8,
    pub rot: u8,
}

/// What a part is, as a value.
pub struct Part {
    pub id: u32,
    pub kind: ElementKind,
    pub pins: Seq<Point>,
    pub name: Seq<char>,
    pub tier: u8,
    pub rot: u8,
}

impl View for ElementSpec {
    type V = Part;

    open spec fn view(&self) -> Part {
        Part {
            id: self.id,
            kind: self.kind,
            pins: self.pins@,
            name: self.name@,
            tier: self.tier,
            rot: self.rot,
        }
    }
}

/// The points of a list, copied.
pub fn copy_points(v: &Vec<Point>) -> (r: Vec<Point>)
    ensures
        r@ == v@,
{
    let mut out: Vec<Point> = Vec::new();
    let mut i: usize = 0;
    while i < v.len()
        invariant
            i <= v.len(),
            out@ == v@.take(i as int),
        decreases v.len() - i,
    {
        out.push(v[i]);
        i += 1;
        proof {
            assert(v@.take(i as int) =~= v@.take(i - 1).push(v@[i - 1]));
        }
    }
    proof {
        assert(v@.take(v@.len() as int) =~= v@);
    }
    out
}

/// A plain part: no name, the starting tier, unrotated.
pub open spec fn plain(id: u32, kind: ElementKind, pins: Seq<Point>) -> Part {
    Part { id, kind, pins, name: Seq::empty(), tier: 0, rot: 0 }
}

impl ElementSpec {
    /// A plain part with these pins.
    pub fn new(id: u32, kind: ElementKind, pins: Vec<Point>) -> (r: ElementSpec)
        ensures
            r@ == plain(id, kind, pins@),
    {
        ElementSpec { id, kind, pins, name: String::new(), tier: 0, rot: 0 }
    }

    /// A plain part with one pin.
    pub fn one(id: u32, kind: ElementKind, a: Point) -> (r: ElementSpec)
        ensures
            r@ == plain(id, kind, seq![a]),
    {
        let mut pins: Vec<Point> = Vec::new();
        pins.push(a);
        assert(pins@ =~= seq![a]);
        ElementSpec::new(id, kind, pins)
    }

    /// A plain part with two pins.
    pub fn two(id: u32, kind: ElementKind, a: Point, b: Point) -> (r: ElementSpec)
        ensures
            r@ == plain(id, kind, seq![a, b]),
    {
        let mut pins: Vec<Point> = Vec::new();
        pins.push(a);
        pins.push(b);
        assert(pins@ =~= seq![a, b]);
        ElementSpec::new(id, kind, pins)
    }

    /// A plain part with three pins.
    pub fn three(id: u32, kind: ElementKind, a: Point, b: Point, c: Point) -> (r: ElementSpec)
        ensures
            r@ == plain(id, kind, seq![a, b, c]),
    {
        let mut pins: Vec<Point> = Vec::new();
        pins.push(a);
        pins.push(b);
        pins.push(c);
        assert(pins@ =~= seq![a, b, c]);
        ElementSpec::new(id, kind, pins)
    }
}

impl Copied for ElementSpec {
    fn copied(&self) -> (r: ElementSpec) {
        ElementSpec {
            id: self.id,
            kind: self.kind,
            pins: copy_points(&self.pins),
            name: self.name.clone(),
            tier: self.tier,
            rot: self.rot,
        }
    }
}

/// Kinds are the same exactly where they are the same variant; two that only the solver knows,
/// where they have the same number.
pub proof fn law_a_kind_is_its_variant(a: ElementKind, b: ElementKind)
    ensures
        a.same_kind(b) <==> match (a, b) {
            (ElementKind::Wire, ElementKind::Wire) => true,
            (ElementKind::Ground, ElementKind::Ground) => true,
            (ElementKind::Label, ElementKind::Label) => true,
            (ElementKind::Rail { .. }, ElementKind::Rail { .. }) => true,
            (ElementKind::VoltageSource { .. }, ElementKind::VoltageSource { .. }) => true,
            (ElementKind::CurrentSource { .. }, ElementKind::CurrentSource { .. }) => true,
            (ElementKind::Resistor { .. }, ElementKind::Resistor { .. }) => true,
            (ElementKind::Capacitor { .. }, ElementKind::Capacitor { .. }) => true,
            (ElementKind::Inductor { .. }, ElementKind::Inductor { .. }) => true,
            (ElementKind::Switch { .. }, ElementKind::Switch { .. }) => true,
            (ElementKind::Button { .. }, ElementKind::Button { .. }) => true,
            (ElementKind::Lamp { .. }, ElementKind::Lamp { .. }) => true,
            (ElementKind::Speaker { .. }, ElementKind::Speaker { .. }) => true,
            (ElementKind::Diode, ElementKind::Diode) => true,
            (ElementKind::Zener { .. }, ElementKind::Zener { .. }) => true,
            (ElementKind::Led { .. }, ElementKind::Led { .. }) => true,
            (ElementKind::Noise { .. }, ElementKind::Noise { .. }) => true,
            (ElementKind::Photocell { .. }, ElementKind::Photocell { .. }) => true,
            (ElementKind::Motor { .. }, ElementKind::Motor { .. }) => true,
            (ElementKind::Potentiometer { .. }, ElementKind::Potentiometer { .. }) => true,
            (ElementKind::Npn { .. }, ElementKind::Npn { .. }) => true,
            (ElementKind::Nmos { .. }, ElementKind::Nmos { .. }) => true,
            (ElementKind::OpAmp { .. }, ElementKind::OpAmp { .. }) => true,
            (ElementKind::Ota, ElementKind::Ota) => true,
            (ElementKind::Timer555, ElementKind::Timer555) => true,
            (ElementKind::Other { tag: s, .. }, ElementKind::Other { tag: t, .. }) => s == t,
            _ => false,
        },
{
}

/// How many pins a part has: a ground, a label and a rail are on one point; a part with a
/// third terminal, a wiper, a base, a gate or an output, on three; the others that the library
/// knows by name on two, but for the transconductance amplifier and the timer.
pub proof fn law_pins_go_by_the_kind(kind: ElementKind)
    ensures
        kind.pins() == 1 <==> kind is Ground || kind is Label || kind is Rail || (
        kind matches ElementKind::Other { pins, .. } && pins == 1),
        kind.pins() == 3 <==> kind is Potentiometer || kind is Npn || kind is Nmos || kind is OpAmp || (
        kind matches ElementKind::Other { pins, .. } && pins == 3),
        kind is Ota ==> kind.pins() == 4,
        kind is Timer555 ==> kind.pins() == 6,
        kind matches ElementKind::Other { pins, .. } ==> kind.pins() == pins,
        kind is Wire || kind is VoltageSource || kind is CurrentSource || kind is Resistor
            || kind is Capacitor || kind is Inductor || kind is Switch || kind is Button
            || kind is Lamp || kind is Speaker || kind is Diode || kind is Zener || kind is Led
            || kind is Noise || kind is Photocell || kind is Motor ==> kind.pins() == 2,
{
}

/// A part shows all of itself.
pub proof fn law_a_part_shows_all_of_itself(e: ElementSpec)
    ensures
        e@.id == e.id,
        e@.kind == e.kind,
        e@.pins == e.pins@,
        e@.name == e.name@,
        e@.tier == e.tier,
        e@.rot == e.rot,
{
}

/// A plain part has its id, its kind and its pins, and nothing else.
pub proof fn law_a_plain_part_is_plain(id: u32, kind: ElementKind, pins: Seq<Point>)
    ensures
        plain(id, kind, pins).id == id,
        plain(id, kind, pins).kind == kind,
        plain(id, kind, pins).pins == pins,
        plain(id, kind, pins).name.len() == 0,
        plain(id, kind, pins).tier == 0,
        plain(id, kind, pins).rot == 0,
{
}

} // verus!
