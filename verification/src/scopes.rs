//! Oscilloscopes on the sheet: geometry, settings and channels, kept usable whatever
//! a template or a client asks for.
use vstd::prelude::*;

use crate::binary64::{fin, Real};
use crate::lists::{self, Copied, find, remove_all, Keyed};
use crate::probes::{Probe, MAX_PROBES};
use crate::regions::{self, take_number};
use crate::text::{self, text_is};

verus! {

/// How many scopes a room may hold.
pub const MAX_SCOPES: usize = 32;

/// The shortest and the longest side of a scope, in grid units: 2 and 400.
pub const MIN_SCOPE_SPAN: u64 = 0x4000_0000_0000_0000;

pub const MAX_SCOPE_SPAN: u64 = 0x4079_0000_0000_0000;

/// How far from the origin a scope may stand: a million grid units either way.
pub const MAX_SCOPE_COORD: u64 = 0x412e_8480_0000_0000;

pub const MIN_SCOPE_COORD: u64 = 0xc12e_8480_0000_0000;

/// The shortest and the longest timebase: a thousandth of a second and a minute.
pub const MIN_TIMEBASE: u64 = 0x3f50_624d_d2f1_a9fc;

pub const MAX_TIMEBASE: u64 = 0x404e_0000_0000_0000;

/// The smallest vertical step: 1e-12.
pub const MIN_STEP: u64 = 0x3d71_9799_812d_ea11;

/// The largest level or offset, either way: 1e12.
pub const MAX_LEVEL: u64 = 0x426d_1a94_a200_0000;

pub const MIN_LEVEL: u64 = 0xc26d_1a94_a200_0000;

/// The numbers 0, 1, 5, 6 and 12.
pub const ZERO: u64 = 0;

pub const ONE: u64 = 0x3ff0_0000_0000_0000;

pub const FIVE: u64 = 0x4014_0000_0000_0000;

pub const SIX: u64 = 0x4018_0000_0000_0000;

pub const TWELVE: u64 = 0x4028_0000_0000_0000;

/// The settings of a scope.
#[derive(Clone, Debug)]
pub struct ScopeSet {
    pub timebase: Real,
    pub y_mode: String,
    pub y_step: Real,
    pub y_offset: Real,
    pub trig_mode: String,
    pub trig_slope: String,
    pub trig_level: Real,
    pub trig_auto_level: bool,
    pub trig_source: u32,
}

/// The settings of a scope, as a value.
pub struct Tuning {
    pub timebase: Real,
    pub y_mode: Seq<char>,
    pub y_step: Real,
    pub y_offset: Real,
    pub trig_mode: Seq<char>,
    pub trig_slope: Seq<char>,
    pub trig_level: Real,
    pub trig_auto_level: bool,
    pub trig_source: u32,
}

impl View for ScopeSet {
    type V = Tuning;

    open spec fn view(&self) -> Tuning {
        Tuning {
            timebase: self.timebase,
            y_mode: self.y_mode@,
            y_step: self.y_step,
            y_offset: self.y_offset,
            trig_mode: self.trig_mode@,
            trig_slope: self.trig_slope@,
            trig_level: self.trig_level,
            trig_auto_level: self.trig_auto_level,
            trig_source: self.trig_source,
        }
    }
}

/// The settings of a scope that nobody has touched.
pub open spec fn untouched() -> Tuning {
    Tuning {
        timebase: Real { bits: FIVE },
        y_mode: "auto"@,
        y_step: Real { bits: ONE },
        y_offset: Real { bits: ZERO },
        trig_mode: "off"@,
        trig_slope: "rising"@,
        trig_level: Real { bits: ZERO },
        trig_auto_level: true,
        trig_source: 0,
    }
}

impl Default for ScopeSet {
    fn default() -> (r: ScopeSet)
        ensures
            r@ == untouched(),
    {
        ScopeSet {
            timebase: Real::of(FIVE),
            y_mode: "auto".to_owned(),
            y_step: Real::of(ONE),
            y_offset: Real::of(ZERO),
            trig_mode: "off".to_owned(),
            trig_slope: "rising".to_owned(),
            trig_level: Real::of(ZERO),
            trig_auto_level: true,
            trig_source: 0,
        }
    }
}

impl Tuning {
    /// The settings forced back onto their invariants: a number outside its bounds goes
    /// to the nearer one, and what is no number or no such word to its default.
    pub open spec fn saned(self) -> Tuning {
        let d = untouched();
        Tuning {
            timebase: self.timebase.fenced(
                Real { bits: MIN_TIMEBASE },
                Real { bits: MAX_TIMEBASE },
                d.timebase,
            ),
            y_mode: if self.y_mode == "auto"@ || self.y_mode == "manual"@ {
                self.y_mode
            } else {
                d.y_mode
            },
            y_step: if self.y_step.finite() && (Real { bits: ZERO }).below(self.y_step) {
                self.y_step.clamped(Real { bits: MIN_STEP }, Real { bits: MAX_LEVEL })
            } else {
                d.y_step
            },
            y_offset: self.y_offset.fenced(
                Real { bits: MIN_LEVEL },
                Real { bits: MAX_LEVEL },
                d.y_offset,
            ),
            trig_mode: if self.trig_mode == "off"@ || self.trig_mode == "auto"@ || self.trig_mode
                == "normal"@ {
                self.trig_mode
            } else {
                d.trig_mode
            },
            trig_slope: if self.trig_slope == "rising"@ || self.trig_slope == "falling"@ {
                self.trig_slope
            } else {
                d.trig_slope
            },
            trig_level: self.trig_level.fenced(
                Real { bits: MIN_LEVEL },
                Real { bits: MAX_LEVEL },
                d.trig_level,
            ),
            trig_auto_level: self.trig_auto_level,
            trig_source: if self.trig_source <= MAX_PROBES {
                self.trig_source
            } else {
                MAX_PROBES as u32
            },
        }
    }
}

impl ScopeSet {
    /// The settings forced back onto their invariants.
    pub fn sane(self) -> (r: ScopeSet)
        ensures
            r@ == self@.saned(),
    {
        let d: ScopeSet = ScopeSet::default();
        let zero: Real = Real::of(ZERO);
        ScopeSet {
            timebase: fin(
                self.timebase,
                Real::of(MIN_TIMEBASE),
                Real::of(MAX_TIMEBASE),
                d.timebase,
            ),
            y_mode: if text_is(self.y_mode.as_str(), "auto") || text_is(self.y_mode.as_str(), "manual") {
                self.y_mode
            } else {
                d.y_mode
            },
            y_step: if self.y_step.is_finite() && zero.is_below(self.y_step) {
                self.y_step.clamp_to(Real::of(MIN_STEP), Real::of(MAX_LEVEL))
            } else {
                d.y_step
            },
            y_offset: fin(self.y_offset, Real::of(MIN_LEVEL), Real::of(MAX_LEVEL), d.y_offset),
            trig_mode: if text_is(self.trig_mode.as_str(), "off") || text_is(self.trig_mode.as_str(), "auto")
                || text_is(self.trig_mode.as_str(), "normal") {
                self.trig_mode
            } else {
                d.trig_mode
            },
            trig_slope: if text_is(self.trig_slope.as_str(), "rising") || text_is(self.trig_slope.as_str(),
                "falling",
            ) {
                self.trig_slope
            } else {
                d.trig_slope
            },
            trig_level: fin(
                self.trig_level,
                Real::of(MIN_LEVEL),
                Real::of(MAX_LEVEL),
                d.trig_level,
            ),
            trig_auto_level: self.trig_auto_level,
            trig_source: if self.trig_source <= MAX_PROBES as u32 {
                self.trig_source
            } else {
                MAX_PROBES as u32
            },
        }
    }
}

impl Copied for ScopeSet {
    fn copied(&self) -> (r: ScopeSet) {
        ScopeSet {
            timebase: self.timebase,
            y_mode: self.y_mode.clone(),
            y_step: self.y_step,
            y_offset: self.y_offset,
            trig_mode: self.trig_mode.clone(),
            trig_slope: self.trig_slope.clone(),
            trig_level: self.trig_level,
            trig_auto_level: self.trig_auto_level,
            trig_source: self.trig_source,
        }
    }
}

/// A list with every run of one number cut down to one.
pub open spec fn deduped(s: Seq<u32>) -> Seq<u32>
    decreases s.len(),
{
    if s.len() <= 1 {
        s
    } else if s[s.len() - 1] == s[s.len() - 2] {
        deduped(s.drop_last())
    } else {
        deduped(s.drop_last()).push(s.last())
    }
}

/// A channel list: no number twice in a row, and no more than a room has probes.
pub open spec fn channels(s: Seq<u32>) -> Seq<u32> {
    text::capped(deduped(s), MAX_PROBES as nat)
}

/// Cuts every run of one number down to one.
pub fn dedup(v: &Vec<u32>) -> (r: Vec<u32>)
    ensures
        r@ == deduped(v@),
{
    let mut out: Vec<u32> = Vec::new();
    let mut i: usize = 0;
    assert(deduped(v@.take(0)) =~= Seq::<u32>::empty());
    while i < v.len()
        invariant
            i <= v@.len(),
            out@ == deduped(v@.take(i as int)),
        decreases v.len() - i,
    {
        proof {
            assert(v@.take(i + 1).drop_last() =~= v@.take(i as int));
            if i == 0 {
                assert(v@.take(1) =~= v@.take(0).push(v@[0]));
            }
        }
        if i == 0 || v[i - 1] != v[i] {
            out.push(v[i]);
        }
        i += 1;
    }
    proof {
        assert(v@.take(v@.len() as int) =~= v@);
    }
    out
}

/// A usable channel list.
fn tidy_channels(v: &Vec<u32>) -> (r: Vec<u32>)
    ensures
        r@ == channels(v@),
{
    let mut out: Vec<u32> = dedup(v);
    out.truncate(MAX_PROBES);
    out
}

/// An oscilloscope. `pids` are the probes it shows; none is every probe of the room.
#[derive(Clone, Debug)]
pub struct Scope {
    pub sid: u32,
    pub x: Real,
    pub y: Real,
    pub w: Real,
    pub h: Real,
    pub set: ScopeSet,
    pub pids: Option<Vec<u32>>,
}

/// An oscilloscope, as a value.
pub struct Instrument {
    pub sid: u32,
    pub x: Real,
    pub y: Real,
    pub w: Real,
    pub h: Real,
    pub set: Tuning,
    pub pids: Option<Seq<u32>>,
}

/// A channel selection, as a value.
pub open spec fn selection(pids: Option<Vec<u32>>) -> Option<Seq<u32>> {
    match pids {
        Some(p) => Some(p@),
        None => None,
    }
}

impl View for Scope {
    type V = Instrument;

    open spec fn view(&self) -> Instrument {
        Instrument {
            sid: self.sid,
            x: self.x,
            y: self.y,
            w: self.w,
            h: self.h,
            set: self.set@,
            pids: selection(self.pids),
        }
    }
}

impl Keyed for Scope {
    open spec fn key(&self) -> u32 {
        self.sid
    }

    fn key_of(&self) -> (k: u32) {
        self.sid
    }
}

/// A coordinate inside the world, or `dflt` where there is none.
pub open spec fn fenced_coord(v: Real, dflt: Real) -> Real {
    v.fenced(Real { bits: MIN_SCOPE_COORD }, Real { bits: MAX_SCOPE_COORD }, dflt)
}

/// A side that a scope can have, or `dflt` where there is none.
pub open spec fn fenced_span(v: Real, dflt: Real) -> Real {
    v.fenced(Real { bits: MIN_SCOPE_SPAN }, Real { bits: MAX_SCOPE_SPAN }, dflt)
}

fn fence_coord(v: Real, dflt: Real) -> (r: Real)
    ensures
        r == fenced_coord(v, dflt),
{
    fin(v, Real::of(MIN_SCOPE_COORD), Real::of(MAX_SCOPE_COORD), dflt)
}

fn fence_span(v: Real, dflt: Real) -> (r: Real)
    ensures
        r == fenced_span(v, dflt),
{
    fin(v, Real::of(MIN_SCOPE_SPAN), Real::of(MAX_SCOPE_SPAN), dflt)
}

impl Instrument {
    /// The scope forced back onto its invariants.
    pub open spec fn saned(self) -> Instrument {
        Instrument {
            sid: self.sid,
            x: fenced_coord(self.x, Real { bits: ZERO }),
            y: fenced_coord(self.y, Real { bits: ZERO }),
            w: fenced_span(self.w, Real { bits: TWELVE }),
            h: fenced_span(self.h, Real { bits: SIX }),
            set: self.set.saned(),
            pids: match self.pids {
                Some(p) => Some(channels(p)),
                None => None,
            },
        }
    }
}

impl Scope {
    /// The scope forced back onto its invariants.
    pub fn sane(self) -> (r: Scope)
        ensures
            r@ == self@.saned(),
    {
        Scope {
            sid: self.sid,
            x: fence_coord(self.x, Real::of(ZERO)),
            y: fence_coord(self.y, Real::of(ZERO)),
            w: fence_span(self.w, Real::of(TWELVE)),
            h: fence_span(self.h, Real::of(SIX)),
            set: self.set.sane(),
            pids: match self.pids {
                Some(p) => Some(tidy_channels(&p)),
                None => None,
            },
        }
    }
}

impl Copied for Scope {
    fn copied(&self) -> (r: Scope) {
        Scope {
            sid: self.sid,
            x: self.x,
            y: self.y,
            w: self.w,
            h: self.h,
            set: self.set.copied(),
            pids: copy_pids(&self.pids),
        }
    }
}

/// The numbers of a list, copied.
pub fn copy_ids(v: &Vec<u32>) -> (r: Vec<u32>)
    ensures
        r@ == v@,
{
    let mut out: Vec<u32> = Vec::new();
    let mut i: usize = 0;
    while i < v.len()
        invariant
            i <= v@.len(),
            out@ == v@.take(i as int),
        decreases v.len() - i,
    {
        out.push(v[i]);
        i += 1;
        proof {
            assert(v@.take(i as int) =~= v@.take(i - 1).push(v@[i - 1]));
        }
    }
    proof {
        assert(v@.take(v@.len() as int) =~= v@);
    }
    out
}

fn copy_pids(pids: &Option<Vec<u32>>) -> (r: Option<Vec<u32>>)
    ensures
        selection(r) == selection(*pids),
{
    match pids {
        Some(p) => Some(copy_ids(p)),
        None => None,
    }
}

/// What a player does to a scope.
#[derive(Clone, Debug)]
pub enum ScopeOp {
    Add { x: Real, y: Real, w: Real, h: Real, set: ScopeSet, pids: Option<Vec<u32>> },
    Remove { sid: u32 },
    Rect { sid: u32, x: Real, y: Real, w: Real, h: Real },
    Tune { sid: u32, set: ScopeSet, pids: Option<Vec<u32>> },
}

/// What a player does to a scope, as a value.
pub enum BenchOp {
    Add { x: Real, y: Real, w: Real, h: Real, set: Tuning, pids: Option<Seq<u32>> },
    Remove { sid: u32 },
    Rect { sid: u32, x: Real, y: Real, w: Real, h: Real },
    Tune { sid: u32, set: Tuning, pids: Option<Seq<u32>> },
}

impl View for ScopeOp {
    type V = BenchOp;

    open spec fn view(&self) -> BenchOp {
        match self {
            ScopeOp::Add { x, y, w, h, set, pids } => BenchOp::Add {
                x: *x,
                y: *y,
                w: *w,
                h: *h,
                set: set@,
                pids: selection(*pids),
            },
            ScopeOp::Remove { sid } => BenchOp::Remove { sid: *sid },
            ScopeOp::Rect { sid, x, y, w, h } => BenchOp::Rect {
                sid: *sid,
                x: *x,
                y: *y,
                w: *w,
                h: *h,
            },
            ScopeOp::Tune { sid, set, pids } => BenchOp::Tune {
                sid: *sid,
                set: set@,
                pids: selection(*pids),
            },
        }
    }
}

/// The ids of some scopes, in order.
pub open spec fn scope_ids(bench: Seq<Instrument>) -> Seq<u32> {
    Seq::new(bench.len(), |i: int| bench[i].sid)
}

/// The place of the first scope with this id.
pub open spec fn scope_at(bench: Seq<Instrument>, sid: u32) -> Option<int> {
    scope_ids(bench).index_of_first(sid)
}

/// The scopes and the next number after an op, or nothing where it is dropped: a full
/// budget or a scope that is not there. A number that is none leaves a rectangle's side
/// as it was.
pub open spec fn benched(bench: Seq<Instrument>, next: u32, op: BenchOp) -> Option<
    (Seq<Instrument>, u32),
> {
    match op {
        BenchOp::Add { x, y, w, h, set, pids } => if bench.len() >= MAX_SCOPES {
            None
        } else {
            let scope = Instrument { sid: next, x, y, w, h, set, pids };
            Some((bench.push(scope.saned()), regions::following(next)))
        },
        BenchOp::Remove { sid } => match scope_at(bench, sid) {
            None => None,
            Some(_) => Some((bench.filter(|s: Instrument| s.sid != sid), next)),
        },
        BenchOp::Rect { sid, x, y, w, h } => match scope_at(bench, sid) {
            None => None,
            Some(i) => Some(
                (
                    bench.update(
                        i,
                        Instrument {
                            x: fenced_coord(x, bench[i].x),
                            y: fenced_coord(y, bench[i].y),
                            w: fenced_span(w, bench[i].w),
                            h: fenced_span(h, bench[i].h),
                            ..bench[i]
                        },
                    ),
                    next,
                ),
            ),
        },
        BenchOp::Tune { sid, set, pids } => match scope_at(bench, sid) {
            None => None,
            Some(i) => Some(
                (
                    bench.update(
                        i,
                        Instrument {
                            set: set.saned(),
                            pids: match pids {
                                Some(p) => Some(channels(p)),
                                None => None,
                            },
                            ..bench[i]
                        },
                    ),
                    next,
                ),
            ),
        },
    }
}

/// Applies an op to a room's scopes. An op that is dropped changes nothing.
pub fn apply_scope_op(scopes: &mut Vec<Scope>, next_sid: &mut u32, op: &ScopeOp) -> (r: bool)
    ensures
        r == (benched(lists::views(old(scopes)@), *old(next_sid), op@) is Some),
        r ==> (lists::views(final(scopes)@), *final(next_sid)) == benched(
            lists::views(old(scopes)@),
            *old(next_sid),
            op@,
        )->0,
        !r ==> *final(scopes) == *old(scopes) && *final(next_sid) == *old(next_sid),
{
    let ghost bench = lists::views(scopes@);
    let ghost before = scopes@;
    proof {
        assert(scope_ids(bench) =~= lists::keys(before));
    }
    match op {
        ScopeOp::Add { x, y, w, h, set, pids } => {
            if scopes.len() >= MAX_SCOPES {
                return false;
            }
            let sid: u32 = take_number(next_sid);
            let scope: Scope = Scope {
                sid,
                x: *x,
                y: *y,
                w: *w,
                h: *h,
                set: set.copied(),
                pids: copy_pids(pids),
            };
            let scope: Scope = scope.sane();
            scopes.push(scope);
            proof {
                assert(lists::views(scopes@) =~= bench.push(scope@));
            }
            true
        },
        ScopeOp::Remove { sid } => {
            proof {
                let p = lists::keyed_otherwise::<Scope>(*sid);
                let q = |s: Instrument| s.sid != *sid;
                assert forall|e: Scope| #[trigger] p(e) == q(e@) by {}
                lists::lemma_views_of_filter(before, p, q);
            }
            remove_all(scopes, *sid)
        },
        ScopeOp::Rect { sid, x, y, w, h } => {
            match find(scopes, *sid) {
                None => false,
                Some(i) => {
                    let moved: Scope = Scope {
                        sid: scopes[i].sid,
                        x: fence_coord(*x, scopes[i].x),
                        y: fence_coord(*y, scopes[i].y),
                        w: fence_span(*w, scopes[i].w),
                        h: fence_span(*h, scopes[i].h),
                        set: scopes[i].set.copied(),
                        pids: copy_pids(&scopes[i].pids),
                    };
                    scopes.set(i, moved);
                    proof {
                        assert(lists::views(scopes@) =~= bench.update(i as int, moved@));
                    }
                    true
                },
            }
        },
        ScopeOp::Tune { sid, set, pids } => {
            match find(scopes, *sid) {
                None => false,
                Some(i) => {
                    let tuned: Scope = Scope {
                        sid: scopes[i].sid,
                        x: scopes[i].x,
                        y: scopes[i].y,
                        w: scopes[i].w,
                        h: scopes[i].h,
                        set: set.copied().sane(),
                        pids: match pids {
                            Some(p) => Some(tidy_channels(p)),
                            None => None,
                        },
                    };
                    scopes.set(i, tuned);
                    proof {
                        assert(lists::views(scopes@) =~= bench.update(i as int, tuned@));
                    }
                    true
                },
            }
        },
    }
}

/// The channels of a list that still have a probe.
pub open spec fn live_channels(pids: Seq<u32>, alive: Seq<u32>) -> Seq<u32> {
    pids.filter(|p: u32| alive.contains(p))
}

/// A scope without the channels whose probe is gone. One that shows every probe stays
/// as it is.
pub open spec fn pruned(s: Instrument, alive: Seq<u32>) -> Instrument {
    Instrument {
        pids: match s.pids {
            Some(p) => Some(live_channels(p, alive)),
            None => None,
        },
        ..s
    }
}

/// Every scope without the channels whose probe is gone.
pub open spec fn all_pruned(bench: Seq<Instrument>, alive: Seq<u32>) -> Seq<Instrument> {
    Seq::new(bench.len(), |i: int| pruned(bench[i], alive))
}

/// The channels of a list that still have a probe, and whether any went.
fn keep_live(pids: &Vec<u32>, alive: &Vec<Probe>) -> (r: (Vec<u32>, bool))
    ensures
        r.0@ == live_channels(pids@, lists::keys(alive@)),
        r.1 == (live_channels(pids@, lists::keys(alive@)) != pids@),
{
    let ghost live = lists::keys(alive@);
    let ghost p = |p: u32| live.contains(p);
    let mut out: Vec<u32> = Vec::new();
    let mut i: usize = 0;
    proof {
        reveal(Seq::filter);
        assert(pids@.take(0).filter(p) =~= Seq::<u32>::empty());
    }
    while i < pids.len()
        invariant
            i <= pids@.len(),
            live == lists::keys(alive@),
            p == (|p: u32| live.contains(p)),
            out@ == pids@.take(i as int).filter(p),
        decreases pids.len() - i,
    {
        proof {
            reveal(Seq::filter);
            assert(pids@.take(i + 1).drop_last() =~= pids@.take(i as int));
        }
        if lists::has_id(alive, pids[i]) {
            out.push(pids[i]);
        }
        i += 1;
    }
    proof {
        assert(pids@.take(pids@.len() as int) =~= pids@);
        lists::lemma_filter_all(pids@, p);
        if out@ != pids@ {
            assert(out@.len() < pids@.len()) by {
                if forall|k: int| 0 <= k < pids@.len() ==> #[trigger] p(pids@[k]) {
                    assert(false);
                }
            }
        }
    }
    let changed: bool = out.len() != pids.len();
    (out, changed)
}

/// Drops dead channels from every scope; tells whether any scope changed.
pub fn prune_scope_pids(scopes: &mut Vec<Scope>, alive: &Vec<Probe>) -> (r: bool)
    ensures
        lists::views(final(scopes)@) == all_pruned(lists::views(old(scopes)@), lists::keys(alive@)),
        r == (lists::views(final(scopes)@) != lists::views(old(scopes)@)),
        !r ==> *final(scopes) == *old(scopes),
{
    let ghost whole = *scopes;
    let ghost before = scopes@;
    let ghost live = lists::keys(alive@);
    let mut changed: bool = false;
    let mut i: usize = 0;
    while i < scopes.len()
        invariant
            i <= scopes@.len(),
            scopes@.len() == before.len(),
            live == lists::keys(alive@),
            forall|k: int| 0 <= k < i ==> (#[trigger] scopes@[k])@ == pruned(before[k]@, live),
            forall|k: int| i <= k < scopes@.len() ==> #[trigger] scopes@[k] == before[k],
            changed == exists|k: int| 0 <= k < i && pruned((#[trigger] before[k])@, live)
                != before[k]@,
            !changed ==> *scopes == whole,
        decreases scopes.len() - i,
    {
        let ghost here = scopes@;
        assert(here[i as int] == before[i as int]);
        let kept: Option<(Vec<u32>, bool)> = match &scopes[i].pids {
            Some(p) => Some(keep_live(p, alive)),
            None => None,
        };
        match kept {
            Some((p, true)) => {
                let mut next: Scope = scopes[i].copied();
                next.pids = Some(p);
                scopes.set(i, next);
                changed = true;
                proof {
                    assert(next@ == pruned(before[i as int]@, live));
                    assert(before[i as int]@.pids != next@.pids);
                    assert(pruned(before[i as int]@, live) != before[i as int]@);
                }
            },
            _ => {
                proof {
                    assert(pruned(before[i as int]@, live) == before[i as int]@);
                }
            },
        }
        i += 1;
    }
    proof {
        assert(lists::views(scopes@) =~= all_pruned(lists::views(before), live));
        if changed {
            let k = choose|k: int|
                0 <= k < i && pruned((#[trigger] before[k])@, live) != before[k]@;
            assert(lists::views(scopes@)[k] != lists::views(before)[k]);
        }
    }
    changed
}

/// After pruning, every channel has a probe, so pruning again changes nothing.
pub proof fn law_pruning_leaves_only_live_channels(bench: Seq<Instrument>, alive: Seq<u32>)
    ensures
        forall|i: int|
            #![trigger all_pruned(bench, alive)[i]]
            0 <= i < bench.len() && bench[i].pids is Some ==> forall|k: int|
                0 <= k < all_pruned(bench, alive)[i].pids->0.len() ==> alive.contains(
                    #[trigger] all_pruned(bench, alive)[i].pids->0[k],
                ),
        all_pruned(all_pruned(bench, alive), alive) == all_pruned(bench, alive),
{
    let once = all_pruned(bench, alive);
    let p = |p: u32| alive.contains(p);
    assert forall|i: int|
        #![trigger all_pruned(bench, alive)[i]]
        0 <= i < bench.len() && bench[i].pids is Some implies forall|k: int|
        0 <= k < once[i].pids->0.len() ==> alive.contains(#[trigger] once[i].pids->0[k]) by {
        assert forall|k: int| 0 <= k < once[i].pids->0.len() implies alive.contains(
            #[trigger] once[i].pids->0[k],
        ) by {
            bench[i].pids->0.lemma_filter_pred(p, k);
        }
    }
    assert forall|i: int| 0 <= i < once.len() implies pruned(once[i], alive) == once[i] by {
        if once[i].pids is Some {
            let l = once[i].pids->0;
            assert(all_pruned(bench, alive)[i] == once[i]);
            assert forall|k: int| 0 <= k < l.len() implies #[trigger] p(l[k]) by {
                assert(alive.contains(all_pruned(bench, alive)[i].pids->0[k]));
            }
            lists::lemma_filter_all(l, p);
        }
    }
    assert(all_pruned(once, alive) =~= once);
}

/// A scope is usable after it was made so, whoever asked for what.
pub proof fn law_sane_scopes_are_usable(s: Instrument)
    ensures
        ({
            let r = s.saned();
            &&& r.x.within(Real { bits: MIN_SCOPE_COORD }, Real { bits: MAX_SCOPE_COORD })
            &&& r.y.within(Real { bits: MIN_SCOPE_COORD }, Real { bits: MAX_SCOPE_COORD })
            &&& r.w.within(Real { bits: MIN_SCOPE_SPAN }, Real { bits: MAX_SCOPE_SPAN })
            &&& r.h.within(Real { bits: MIN_SCOPE_SPAN }, Real { bits: MAX_SCOPE_SPAN })
            &&& r.set.timebase.within(Real { bits: MIN_TIMEBASE }, Real { bits: MAX_TIMEBASE })
            &&& r.set.y_step.within(Real { bits: MIN_STEP }, Real { bits: MAX_LEVEL })
            &&& r.set.y_offset.within(Real { bits: MIN_LEVEL }, Real { bits: MAX_LEVEL })
            &&& r.set.trig_level.within(Real { bits: MIN_LEVEL }, Real { bits: MAX_LEVEL })
            &&& r.set.trig_source <= MAX_PROBES
            &&& r.pids is Some ==> r.pids->0.len() <= MAX_PROBES
        }),
        s.saned().set.saned() == s.saned().set,
{
}

/// The scopes of a file that a room takes over, of the first `n`: each made usable, as many
/// as the budget allows, in order. One whose number is the last that there is does not come
/// in.
pub open spec fn taken_over(bench: Seq<Instrument>, n: int) -> Seq<Instrument>
    decreases n,
{
    if n <= 0 {
        Seq::empty()
    } else {
        let had = taken_over(bench, n - 1);
        if had.len() < MAX_SCOPES && bench[n - 1].sid != u32::MAX {
            had.push(bench[n - 1].saned())
        } else {
            had
        }
    }
}

/// The scopes of a file that a room takes over.
pub open spec fn reloaded(bench: Seq<Instrument>) -> Seq<Instrument> {
    taken_over(bench, bench.len() as int)
}

/// Takes the scopes of a file over; the counter is then past their numbers.
pub fn reload_scopes(scopes: &Vec<Scope>, next_sid: u32) -> (r: (Vec<Scope>, u32))
    ensures
        lists::views(r.0@) == reloaded(lists::views(scopes@)),
        r.1 == lists::past(scope_ids(lists::views(r.0@)), next_sid),
{
    let ghost bench = lists::views(scopes@);
    let mut out: Vec<Scope> = Vec::new();
    let mut i: usize = 0;
    assert(lists::views(out@) =~= Seq::<Instrument>::empty());
    while i < scopes.len()
        invariant
            i <= scopes@.len(),
            bench == lists::views(scopes@),
            lists::views(out@) == taken_over(bench, i as int),
        decreases scopes.len() - i,
    {
        assert(bench[i as int] == scopes@[i as int]@);
        if out.len() < MAX_SCOPES && scopes[i].sid != u32::MAX {
            let ghost had = out@;
            let s: Scope = scopes[i].copied().sane();
            out.push(s);
            assert(lists::views(out@) =~= lists::views(had).push(s@));
        }
        i += 1;
    }
    proof {
        law_reloaded_scopes_are_usable(bench, next_sid);
        assert(scope_ids(lists::views(out@)) =~= lists::keys(out@));
        assert forall|k: int| 0 <= k < out@.len() implies (#[trigger] out@[k]).key() < u32::MAX by {
            assert(lists::views(out@)[k].sid == out@[k].sid);
        }
    }
    let then: u32 = lists::count_past(&out, next_sid);
    (out, then)
}

/// Whatever a file holds, the scopes that a room takes over are within the budget, each made
/// usable, with the counter past their numbers; and none is lost where the budget holds them
/// all.
pub proof fn law_reloaded_scopes_are_usable(bench: Seq<Instrument>, next: u32)
    ensures
        reloaded(bench).len() <= MAX_SCOPES,
        forall|i: int|
            0 <= i < reloaded(bench).len() ==> (#[trigger] reloaded(bench)[i]).sid < u32::MAX
                && reloaded(bench)[i].sid < lists::past(scope_ids(reloaded(bench)), next),
        bench.len() <= MAX_SCOPES && (forall|i: int|
            0 <= i < bench.len() ==> (#[trigger] bench[i]).sid < u32::MAX) ==> reloaded(bench)
            == bench.map_values(|s: Instrument| s.saned()),
{
    let r = reloaded(bench);
    lemma_taken_over(bench, bench.len() as int);
    let ids = scope_ids(r);
    assert forall|i: int| 0 <= i < ids.len() implies #[trigger] ids[i] < u32::MAX by {
        assert(r[i].sid == ids[i]);
    }
    lists::law_the_counter_is_past_them(ids, next);
    assert forall|i: int| 0 <= i < r.len() implies (#[trigger] r[i]).sid < u32::MAX && r[i].sid
        < lists::past(ids, next) by {
        assert(ids[i] == r[i].sid);
    }
    if bench.len() <= MAX_SCOPES && (forall|i: int|
        0 <= i < bench.len() ==> (#[trigger] bench[i]).sid < u32::MAX) {
        assert(r =~= bench.map_values(|s: Instrument| s.saned()));
    }
}

proof fn lemma_taken_over(bench: Seq<Instrument>, n: int)
    requires
        0 <= n <= bench.len(),
    ensures
        taken_over(bench, n).len() <= MAX_SCOPES,
        forall|i: int|
            0 <= i < taken_over(bench, n).len() ==> (#[trigger] taken_over(bench, n)[i]).sid
                < u32::MAX,
        n <= MAX_SCOPES && (forall|i: int|
            0 <= i < bench.len() ==> (#[trigger] bench[i]).sid < u32::MAX) ==> {
            &&& taken_over(bench, n).len() == n
            &&& forall|i: int|
                0 <= i < n ==> #[trigger] taken_over(bench, n)[i] == bench[i].saned()
        },
    decreases n,
{
    if n > 0 {
        lemma_taken_over(bench, n - 1);
    }
}

/// What a scope shows of itself.
pub proof fn law_a_scope_shows_all_of_itself(s: Scope, set: ScopeSet, op: ScopeOp)
    ensures
        s@.sid == s.sid && s@.x == s.x && s@.y == s.y && s@.w == s.w && s@.h == s.h && s@.set == s.set@,
        s.key() == s.sid,
        s.pids is None <==> s@.pids is None,
        s.pids is Some ==> s@.pids == Some(s.pids->0@),
        set@.timebase == set.timebase && set@.y_mode == set.y_mode@ && set@.y_step == set.y_step,
        set@.y_offset == set.y_offset && set@.trig_mode == set.trig_mode@,
        set@.trig_slope == set.trig_slope@ && set@.trig_level == set.trig_level,
        set@.trig_auto_level == set.trig_auto_level && set@.trig_source == set.trig_source,
        match (op, op@) {
            (ScopeOp::Add { x, y, w, h, set, pids }, BenchOp::Add {
                x: a,
                y: b,
                w: c,
                h: d,
                set: t,
                pids: p,
            }) => a == x && b == y && c == w && d == h && t == set@ && (pids is None <==> p is None)
                && (pids is Some ==> p == Some(pids->0@)),
            (ScopeOp::Remove { sid }, BenchOp::Remove { sid: i }) => i == sid,
            (ScopeOp::Rect { sid, x, y, w, h }, BenchOp::Rect { sid: i, x: a, y: b, w: c, h: d }) => i
                == sid && a == x && b == y && c == w && d == h,
            (ScopeOp::Tune { sid, set, pids }, BenchOp::Tune { sid: i, set: t, pids: p }) => i == sid
                && t == set@ && (pids is None <==> p is None) && (pids is Some ==> p == Some(
                pids->0@,
            )),
            _ => false,
        },
{
}

/// The number is the one that was asked for, where that is inside the bounds; the nearer bound
/// where it is outside; and the default where it is no number.
pub open spec fn fenced_to(asked: Real, lo: u64, hi: u64, dflt: Real, got: Real) -> bool {
    let (l, h) = (Real { bits: lo }, Real { bits: hi });
    if !asked.finite() {
        got == dflt
    } else if asked.rank() < l.rank() {
        got == l
    } else if asked.rank() > h.rank() {
        got == h
    } else {
        got == asked
    }
}

/// The word is the one that was asked for where it is one of these, and else the first.
pub open spec fn one_of(asked: Seq<char>, words: Seq<Seq<char>>, got: Seq<char>) -> bool {
    if words.contains(asked) {
        got == asked
    } else {
        got == words[0]
    }
}

/// Settings are taken as they were asked for, each number inside its bounds and each word one
/// of those that there are: timebases of a millisecond to a minute, levels of a million
/// million either way, a vertical step above nothing, and the eight probes for a source.
pub proof fn law_settings_are_what_was_asked_for(t: Tuning)
    ensures
        ({
            let r = t.saned();
            &&& fenced_to(
                t.timebase,
                0x3f50_624d_d2f1_a9fc,
                0x404e_0000_0000_0000,
                Real { bits: 0x4014_0000_0000_0000 },
                r.timebase,
            )
            &&& one_of(t.y_mode, seq!["auto"@, "manual"@], r.y_mode)
            &&& t.y_step.finite() && t.y_step.rank() > 0 ==> fenced_to(
                t.y_step,
                0x3d71_9799_812d_ea11,
                0x426d_1a94_a200_0000,
                t.y_step,
                r.y_step,
            )
            &&& !t.y_step.finite() || t.y_step.rank() <= 0 ==> r.y_step.bits
                == 0x3ff0_0000_0000_0000
            &&& fenced_to(t.y_offset, 0xc26d_1a94_a200_0000, 0x426d_1a94_a200_0000, Real { bits: 0 }, r.y_offset)
            &&& one_of(t.trig_mode, seq!["off"@, "auto"@, "normal"@], r.trig_mode)
            &&& one_of(t.trig_slope, seq!["rising"@, "falling"@], r.trig_slope)
            &&& fenced_to(t.trig_level, 0xc26d_1a94_a200_0000, 0x426d_1a94_a200_0000, Real { bits: 0 }, r.trig_level)
            &&& r.trig_auto_level == t.trig_auto_level
            &&& t.trig_source <= 8 ==> r.trig_source == t.trig_source
            &&& t.trig_source > 8 ==> r.trig_source == 8
        }),
{
    let r = t.saned();
    let y = seq!["auto"@, "manual"@];
    let m = seq!["off"@, "auto"@, "normal"@];
    let s = seq!["rising"@, "falling"@];
    assert(y[0] == "auto"@ && y[1] == "manual"@);
    assert(m[0] == "off"@ && m[1] == "auto"@ && m[2] == "normal"@);
    assert(s[0] == "rising"@ && s[1] == "falling"@);
    assert(y.contains("auto"@) && y.contains("manual"@));
    assert(m.contains("off"@) && m.contains("auto"@) && m.contains("normal"@));
    assert(s.contains("rising"@) && s.contains("falling"@));
}

/// No channel comes twice in a row.
pub open spec fn no_repeats(s: Seq<u32>) -> bool {
    forall|i: int| 0 < i < s.len() ==> #[trigger] s[i] != s[i - 1]
}

/// A list of channels keeps its order; a channel that is named again right away is not shown
/// again, and no more than eight are shown. A list without such repeats, of no more than
/// eight, is left as it is.
pub proof fn law_channels_are_shown_once_in_a_row(s: Seq<u32>, x: u32)
    ensures
        no_repeats(channels(s)),
        channels(s).len() <= 8,
        forall|i: int| 0 <= i < channels(s).len() ==> s.contains(#[trigger] channels(s)[i]),
        no_repeats(s) && s.len() <= 8 ==> channels(s) == s,
        s.len() > 0 && s.last() == x ==> channels(s.push(x)) == channels(s),
        s.len() > 0 && s.last() != x && channels(s).len() < 8 ==> channels(s.push(x)) == channels(
            s,
        ).push(x),
        s.len() > 0 ==> channels(s)[0] == s[0],
{
    lemma_deduped(s);
    let p = s.push(x);
    assert(p.drop_last() =~= s);
    if s.len() > 0 {
        assert(p[p.len() - 2] == s.last());
    }
}

proof fn lemma_deduped(s: Seq<u32>)
    ensures
        no_repeats(deduped(s)),
        forall|i: int| 0 <= i < deduped(s).len() ==> s.contains(#[trigger] deduped(s)[i]),
        s.len() > 0 ==> deduped(s).len() > 0 && deduped(s).last() == s.last() && deduped(s)[0] == s[0],
        no_repeats(s) ==> deduped(s) == s,
    decreases s.len(),
{
    if s.len() > 1 {
        let d = s.drop_last();
        lemma_deduped(d);
        assert(d.last() == s[s.len() - 2]);
        assert forall|i: int| 0 <= i < deduped(s).len() implies s.contains(
            #[trigger] deduped(s)[i],
        ) by {
            if i < deduped(d).len() {
                let k = choose|k: int| 0 <= k < d.len() && d[k] == deduped(d)[i];
                assert(s[k] == deduped(s)[i]);
            } else {
                assert(s[s.len() - 1] == deduped(s)[i]);
            }
        }
        if no_repeats(s) {
            assert forall|i: int| 0 < i < d.len() implies #[trigger] d[i] != d[i - 1] by {
                assert(s[i] != s[i - 1]);
            }
            assert(s[s.len() - 1] != s[s.len() - 2]);
            assert(d.push(s.last()) =~= s);
        }
    } else if s.len() == 1 {
        assert(s.contains(s[0]));
    }
}

/// The scope at this place is the first with this number.
pub open spec fn found(bench: Seq<Instrument>, sid: u32, i: int) -> bool {
    &&& 0 <= i < bench.len()
    &&& bench[i].sid == sid
    &&& forall|j: int| 0 <= j < i ==> (#[trigger] bench[j]).sid != sid
}

proof fn lemma_found(bench: Seq<Instrument>, sid: u32)
    ensures
        match scope_at(bench, sid) {
            Some(i) => found(bench, sid, i),
            None => forall|j: int| 0 <= j < bench.len() ==> (#[trigger] bench[j]).sid != sid,
        },
{
    let ids = scope_ids(bench);
    ids.index_of_first_ensures(sid);
    assert forall|j: int| 0 <= j < bench.len() implies ids[j] == (#[trigger] bench[j]).sid by {}
    match scope_at(bench, sid) {
        Some(i) => {
            assert(ids[i] == bench[i].sid);
        },
        None => {
            assert forall|j: int| 0 <= j < bench.len() implies (#[trigger] bench[j]).sid != sid by {
                assert(ids[j] != sid);
            }
        },
    }
}

/// The place and the size that were asked for, each inside its bounds.
pub open spec fn placed_as(
    x: Real,
    y: Real,
    w: Real,
    h: Real,
    else_x: Real,
    else_y: Real,
    else_w: Real,
    else_h: Real,
    got: Instrument,
) -> bool {
    &&& fenced_to(x, 0xc12e_8480_0000_0000, 0x412e_8480_0000_0000, else_x, got.x)
    &&& fenced_to(y, 0xc12e_8480_0000_0000, 0x412e_8480_0000_0000, else_y, got.y)
    &&& fenced_to(w, 0x4000_0000_0000_0000, 0x4079_0000_0000_0000, else_w, got.w)
    &&& fenced_to(h, 0x4000_0000_0000_0000, 0x4079_0000_0000_0000, else_h, got.h)
}

/// A scope is where it was put and as large as it was made, inside the bounds; and twelve by
/// six at the origin where that is no number.
pub proof fn law_a_scope_is_where_it_was_put(s: Instrument)
    ensures
        s.saned().sid == s.sid,
        s.saned().set == s.set.saned(),
        placed_as(
            s.x,
            s.y,
            s.w,
            s.h,
            Real { bits: 0 },
            Real { bits: 0 },
            Real { bits: 0x4028_0000_0000_0000 },
            Real { bits: 0x4018_0000_0000_0000 },
            s.saned(),
        ),
        s.pids is None <==> s.saned().pids is None,
        s.pids is Some ==> s.saned().pids == Some(channels(s.pids->0)),
{
}

/// Every op on a scope does what it says to that scope, and to no other: an added one comes
/// last, with the next number; a moved one keeps its settings and its channels; a tuned one
/// stays where it is. Or it is refused: there are 32 already, or there is no such scope.
pub open spec fn scope_op_done(
    bench: Seq<Instrument>,
    next: u32,
    op: BenchOp,
    done: Option<(Seq<Instrument>, u32)>,
) -> bool {
    match (op, done) {
        (BenchOp::Add { x, y, w, h, set, pids }, Some((after, then))) => {
            &&& after.len() == bench.len() + 1
            &&& forall|j: int| 0 <= j < bench.len() ==> #[trigger] after[j] == bench[j]
            &&& after.last().sid == next
            &&& placed_as(
                x,
                y,
                w,
                h,
                Real { bits: 0 },
                Real { bits: 0 },
                Real { bits: 0x4028_0000_0000_0000 },
                Real { bits: 0x4018_0000_0000_0000 },
                after.last(),
            )
            &&& after.last().set == set.saned()
            &&& pids is None <==> after.last().pids is None
            &&& pids is Some ==> after.last().pids == Some(channels(pids->0))
            &&& next < u32::MAX ==> then == next + 1
        },
        (BenchOp::Add { .. }, None) => bench.len() >= 32,
        (BenchOp::Remove { sid }, Some((after, then))) => {
            &&& lists::sifted(bench, after, |s: Instrument| s.sid == sid)
            &&& after.len() < bench.len()
            &&& then == next
        },
        (BenchOp::Rect { sid, x, y, w, h }, Some((after, then))) => then == next && exists|i: int|
            #[trigger] found(bench, sid, i) && lists::same_but_at(bench, after, i) && after[i].sid
                == sid && after[i].set == bench[i].set && after[i].pids == bench[i].pids
                && placed_as(
                x,
                y,
                w,
                h,
                bench[i].x,
                bench[i].y,
                bench[i].w,
                bench[i].h,
                after[i],
            ),
        (BenchOp::Tune { sid, set, pids }, Some((after, then))) => then == next && exists|i: int|
            #[trigger] found(bench, sid, i) && lists::same_but_at(bench, after, i) && {
                &&& after[i].sid == sid
                &&& after[i].x == bench[i].x
                &&& after[i].y == bench[i].y
                &&& after[i].w == bench[i].w
                &&& after[i].h == bench[i].h
                &&& after[i].set == set.saned()
                &&& pids is None <==> after[i].pids is None
                &&& pids is Some ==> after[i].pids == Some(channels(pids->0))
            },
        (BenchOp::Remove { sid }, None) => forall|j: int|
            0 <= j < bench.len() ==> (#[trigger] bench[j]).sid != sid,
        (BenchOp::Rect { sid, .. }, None) => forall|j: int|
            0 <= j < bench.len() ==> (#[trigger] bench[j]).sid != sid,
        (BenchOp::Tune { sid, .. }, None) => forall|j: int|
            0 <= j < bench.len() ==> (#[trigger] bench[j]).sid != sid,
    }
}

/// Every op does what it says, or is refused.
pub proof fn law_an_op_changes_its_own_scope(bench: Seq<Instrument>, next: u32, op: BenchOp)
    ensures
        scope_op_done(bench, next, op, benched(bench, next, op)),
{
    match op {
        BenchOp::Add { x, y, w, h, set, pids } => {
            law_a_scope_is_where_it_was_put(Instrument { sid: next, x, y, w, h, set, pids });
        },
        BenchOp::Remove { sid } => {
            lemma_found(bench, sid);
            let p = |s: Instrument| s.sid != sid;
            lists::lemma_filter_sifts(bench, p, |s: Instrument| s.sid == sid);
            lists::lemma_filter_all(bench, p);
            if let Some(i) = scope_at(bench, sid) {
                assert(!p(bench[i]));
            }
        },
        BenchOp::Rect { sid, .. } => {
            lemma_found(bench, sid);
            if let Some(i) = scope_at(bench, sid) {
                assert(found(bench, sid, i));
            }
        },
        BenchOp::Tune { sid, .. } => {
            lemma_found(bench, sid);
            if let Some(i) = scope_at(bench, sid) {
                assert(found(bench, sid, i));
            }
        },
    }
}

/// Pruning takes the channels off a scope whose probe is gone, and nothing else: the other
/// channels keep their order, and one that shows every probe goes on doing so.
pub proof fn law_pruning_takes_only_dead_channels(bench: Seq<Instrument>, alive: Seq<u32>, i: int)
    requires
        0 <= i < bench.len(),
    ensures
        all_pruned(bench, alive).len() == bench.len(),
        ({
            let (s, r) = (bench[i], all_pruned(bench, alive)[i]);
            &&& r.sid == s.sid && r.x == s.x && r.y == s.y && r.w == s.w && r.h == s.h && r.set == s.set
            &&& s.pids is None ==> r.pids is None
            &&& s.pids matches Some(p) ==> r.pids is Some && lists::sifted(
                p,
                r.pids->0,
                |c: u32| !alive.contains(c),
            )
        }),
{
    if let Some(p) = bench[i].pids {
        lists::lemma_filter_sifts(p, |c: u32| alive.contains(c), |c: u32| !alive.contains(c));
    }
}

/// A scope of a file comes in as it is, made usable, in its order.
pub proof fn law_a_scope_of_a_file_comes_in(bench: Seq<Instrument>, n: int)
    requires
        0 < n <= bench.len(),
    ensures
        ({
            let (had, now) = (taken_over(bench, n - 1), taken_over(bench, n));
            if had.len() < 32 && bench[n - 1].sid < u32::MAX {
                lists::one_more(had, now, bench[n - 1].saned())
            } else {
                now == had
            }
        }),
        taken_over(bench, 0).len() == 0,
{
}

/// A scope that nobody has touched: five seconds across, the vertical scale found by itself,
/// not triggered; rising where it is, at a level found by itself, on the first channel.
pub proof fn law_an_untouched_scope()
    ensures
        untouched().timebase.bits == 0x4014_0000_0000_0000,
        untouched().y_mode == "auto"@ && untouched().y_step.bits == 0x3ff0_0000_0000_0000,
        untouched().y_offset.bits == 0,
        untouched().trig_mode == "off"@ && untouched().trig_slope == "rising"@,
        untouched().trig_level.bits == 0,
        untouched().trig_auto_level && untouched().trig_source == 0,
{
}

} // verus!
