//! The scopes that a template puts on the bench.
//!
//! A seed is a JSON object that somebody typed: every field is optional, and every field
//! is fenced, so that no template can make a room with an unusable scope in it.
use vstd::prelude::*;

use crate::binary64::Real;
use crate::lists;
use crate::regions::{self, take_number};
use crate::scopes::{
    Instrument, Scope, ScopeSet, Tuning, FIVE, MAX_SCOPES, SIX, TWELVE, ZERO,
};

verus! {

/// A JSON value: `serde_json::Value`.
#[verifier::external_type_specification]
#[verifier::external_body]
pub struct ExValue(serde_json::Value);

/// The numbers of a JSON object by their keys, each as the bits of the nearest number in
/// binary64. A value that is no object has none.
pub uninterp spec fn numbers_in(v: serde_json::Value) -> Map<Seq<char>, u64>;

/// The arrays of a JSON object by their keys. An item that is no whole number, or none of
/// 64 bits without a sign, is left open. A value that is no object has none.
pub uninterp spec fn arrays_in(v: serde_json::Value) -> Map<Seq<char>, Seq<Option<u64>>>;

/// `serde_json::Value::get`, then `as_f64`: the number under a key, and nothing where the
/// value is no object, has no such key, or holds no number there.
#[verifier::external_body]
fn number_under(v: &serde_json::Value, key: &str) -> (r: Option<u64>)
    ensures
        r == if numbers_in(*v).contains_key(key@) {
            Some(numbers_in(*v)[key@])
        } else {
            None
        },
{
    v.get(key).and_then(|n| n.as_f64()).map(|n| n.to_bits())
}

/// `serde_json::Value::get`, then `as_array`, then `as_u64` of each item: the array under
/// a key, and nothing where the value is no object, has no such key, or holds no array
/// there.
#[verifier::external_body]
fn array_under(v: &serde_json::Value, key: &str) -> (r: Option<Vec<Option<u64>>>)
    ensures
        match r {
            Some(a) => arrays_in(*v).contains_key(key@) && a@ == arrays_in(*v)[key@],
            None => !arrays_in(*v).contains_key(key@),
        },
{
    v.get(key).and_then(|a| a.as_array()).map(|a| a.iter().map(|n| n.as_u64()).collect())
}

/// A template's seed for a scope: a rectangle, a timebase and a list of channels, all of
/// them optional.
#[derive(Clone, Debug)]
pub struct ScopeSeed {
    pub x: Option<Real>,
    pub y: Option<Real>,
    pub w: Option<Real>,
    pub h: Option<Real>,
    pub timebase: Option<Real>,
    /// An item that is no number of a probe is none.
    pub pids: Option<Vec<Option<u64>>>,
}

/// A template's seed for a scope, as a value.
pub struct Seed {
    pub x: Option<Real>,
    pub y: Option<Real>,
    pub w: Option<Real>,
    pub h: Option<Real>,
    pub timebase: Option<Real>,
    pub pids: Option<Seq<Option<u64>>>,
}

impl View for ScopeSeed {
    type V = Seed;

    open spec fn view(&self) -> Seed {
        Seed {
            x: self.x,
            y: self.y,
            w: self.w,
            h: self.h,
            timebase: self.timebase,
            pids: match self.pids {
                Some(p) => Some(p@),
                None => None,
            },
        }
    }
}

/// The number under a key.
pub open spec fn number_at(v: serde_json::Value, key: Seq<char>) -> Option<Real> {
    if numbers_in(v).contains_key(key) {
        Some(Real { bits: numbers_in(v)[key] })
    } else {
        None
    }
}

/// The seed that a JSON value is.
pub open spec fn seed_in(v: serde_json::Value) -> Seed {
    Seed {
        x: number_at(v, "x"@),
        y: number_at(v, "y"@),
        w: number_at(v, "w"@),
        h: number_at(v, "h"@),
        timebase: number_at(v, "timebase"@),
        pids: if arrays_in(v).contains_key("pids"@) {
            Some(arrays_in(v)["pids"@])
        } else {
            None
        },
    }
}

fn real_under(v: &serde_json::Value, key: &str) -> (r: Option<Real>)
    ensures
        r == number_at(*v, key@),
{
    match number_under(v, key) {
        Some(bits) => Some(Real::of(bits)),
        None => None,
    }
}

/// The seed that a JSON value is.
pub fn read_seed(v: &serde_json::Value) -> (s: ScopeSeed)
    ensures
        s@ == seed_in(*v),
{
    ScopeSeed {
        x: real_under(v, "x"),
        y: real_under(v, "y"),
        w: real_under(v, "w"),
        h: real_under(v, "h"),
        timebase: real_under(v, "timebase"),
        pids: array_under(v, "pids"),
    }
}

/// What was written, or the default.
pub open spec fn or_else(v: Option<Real>, dflt: u64) -> Real {
    match v {
        Some(r) => r,
        None => Real { bits: dflt },
    }
}

fn or_default(v: &Option<Real>, dflt: u64) -> (r: Real)
    ensures
        r == or_else(*v, dflt),
{
    match v {
        Some(x) => *x,
        None => Real::of(dflt),
    }
}

/// The numbers of a list, in order, cut down to 32 bits.
pub open spec fn channel_numbers(s: Seq<Option<u64>>) -> Seq<u32>
    decreases s.len(),
{
    if s.len() == 0 {
        Seq::empty()
    } else {
        match s.last() {
            Some(n) => channel_numbers(s.drop_last()).push(n as u32),
            None => channel_numbers(s.drop_last()),
        }
    }
}

fn pick_numbers(v: &Vec<Option<u64>>) -> (r: Vec<u32>)
    ensures
        r@ == channel_numbers(v@),
{
    let mut out: Vec<u32> = Vec::new();
    let mut i: usize = 0;
    while i < v.len()
        invariant
            i <= v@.len(),
            out@ == channel_numbers(v@.take(i as int)),
        decreases v.len() - i,
    {
        proof {
            assert(v@.take(i + 1).drop_last() =~= v@.take(i as int));
        }
        if let Some(n) = v[i] {
            out.push(
                #[verifier::truncate]
                (n as u32),
            );
        }
        i += 1;
    }
    proof {
        assert(v@.take(v@.len() as int) =~= v@);
    }
    out
}

impl Seed {
    /// The scope that a seed describes, before it is made usable.
    pub open spec fn instrument(self, sid: u32) -> Instrument {
        Instrument {
            sid,
            x: or_else(self.x, ZERO),
            y: or_else(self.y, ZERO),
            w: or_else(self.w, TWELVE),
            h: or_else(self.h, SIX),
            set: Tuning {
                timebase: or_else(self.timebase, FIVE),
                ..crate::scopes::untouched()
            },
            pids: match self.pids {
                Some(p) => Some(channel_numbers(p)),
                None => None,
            },
        }
    }
}

/// A seed as a real instrument.
pub fn plant(seed: &ScopeSeed, sid: u32) -> (r: Scope)
    ensures
        r@ == seed@.instrument(sid).saned(),
{
    let pids: Option<Vec<u32>> = match &seed.pids {
        Some(p) => Some(pick_numbers(p)),
        None => None,
    };
    let mut set: ScopeSet = ScopeSet::default();
    set.timebase = or_default(&seed.timebase, FIVE);
    let scope: Scope = Scope {
        sid,
        x: or_default(&seed.x, ZERO),
        y: or_default(&seed.y, ZERO),
        w: or_default(&seed.w, TWELVE),
        h: or_default(&seed.h, SIX),
        set,
        pids,
    };
    proof {
        assert(scope@ == seed@.instrument(sid));
    }
    scope.sane()
}

impl Scope {
    /// A template's seed, as it was typed, as a real instrument.
    pub fn from_seed(v: &serde_json::Value, sid: u32) -> (r: Scope)
        ensures
            r@ == seed_in(*v).instrument(sid).saned(),
    {
        plant(&read_seed(v), sid)
    }
}

/// The scopes that the first `n` seeds give, numbered from a counter, and the counter
/// after them. A room's budget bounds them.
pub open spec fn planted(seeds: Seq<serde_json::Value>, next: u32, n: int) -> (
    Seq<Instrument>,
    u32,
)
    decreases n,
{
    if n <= 0 {
        (Seq::empty(), next)
    } else {
        let (bench, at) = planted(seeds, next, n - 1);
        if bench.len() >= MAX_SCOPES {
            (bench, at)
        } else {
            (
                bench.push(seed_in(seeds[n - 1]).instrument(at).saned()),
                regions::following(at),
            )
        }
    }
}

/// The scopes of a room that is opened: those that were kept, and the template's seeds
/// where no list was kept. An empty list was kept on purpose: somebody closed them all.
pub fn seed_bench(kept: Option<Vec<Scope>>, seeds: &Vec<serde_json::Value>, next: &mut u32) -> (r:
    Vec<Scope>)
    ensures
        match kept {
            Some(v) => r == v && *final(next) == *old(next),
            None => (lists::views(r@), *final(next)) == planted(
                seeds@,
                *old(next),
                seeds@.len() as int,
            ),
        },
{
    match kept {
        Some(v) => v,
        None => {
            let ghost first = *next;
            let mut out: Vec<Scope> = Vec::new();
            let mut i: usize = 0;
            assert(lists::views(out@) =~= Seq::<Instrument>::empty());
            while i < seeds.len()
                invariant
                    i <= seeds@.len(),
                    (lists::views(out@), *next) == planted(seeds@, first, i as int),
                decreases seeds.len() - i,
            {
                if out.len() < MAX_SCOPES {
                    let ghost before = out@;
                    let sid: u32 = take_number(next);
                    out.push(Scope::from_seed(&seeds[i], sid));
                    proof {
                        assert(lists::views(out@) =~= lists::views(before).push(out@.last()@));
                    }
                }
                i += 1;
            }
            out
        },
    }
}

/// A seed shows all of itself.
pub proof fn law_a_seed_shows_all_of_itself(s: ScopeSeed)
    ensures
        s@.x == s.x && s@.y == s.y && s@.w == s.w && s@.h == s.h && s@.timebase == s.timebase,
        s.pids is None <==> s@.pids is None,
        s.pids matches Some(p) ==> s@.pids == Some(p@),
{
}

/// Each value of a seed is the number under its own key, and missing where there is none.
pub proof fn law_a_seed_is_read_by_its_keys(v: serde_json::Value)
    ensures
        numbers_in(v).contains_key("x"@) ==> (seed_in(v).x matches Some(r) && r.bits == numbers_in(
            v,
        )["x"@]),
        !numbers_in(v).contains_key("x"@) ==> seed_in(v).x is None,
        numbers_in(v).contains_key("y"@) ==> (seed_in(v).y matches Some(r) && r.bits == numbers_in(
            v,
        )["y"@]),
        !numbers_in(v).contains_key("y"@) ==> seed_in(v).y is None,
        numbers_in(v).contains_key("w"@) ==> (seed_in(v).w matches Some(r) && r.bits == numbers_in(
            v,
        )["w"@]),
        !numbers_in(v).contains_key("w"@) ==> seed_in(v).w is None,
        numbers_in(v).contains_key("h"@) ==> (seed_in(v).h matches Some(r) && r.bits == numbers_in(
            v,
        )["h"@]),
        !numbers_in(v).contains_key("h"@) ==> seed_in(v).h is None,
        numbers_in(v).contains_key("timebase"@) ==> (seed_in(v).timebase matches Some(r) && r.bits
            == numbers_in(v)["timebase"@]),
        !numbers_in(v).contains_key("timebase"@) ==> seed_in(v).timebase is None,
        arrays_in(v).contains_key("pids"@) ==> seed_in(v).pids == Some(arrays_in(v)["pids"@]),
        !arrays_in(v).contains_key("pids"@) ==> seed_in(v).pids is None,
{
}

/// A scope from a seed has what the seed says: its place, its size, its timebase, its
/// channels. What the seed does not say is the origin, twelve by six, five seconds; and the
/// other settings are those of an untouched scope.
pub proof fn law_a_seeded_scope_is_what_the_seed_says(s: Seed, sid: u32)
    ensures
        ({
            let i = s.instrument(sid);
            &&& i.sid == sid
            &&& s.x matches Some(v) ==> i.x == v
            &&& s.x is None ==> i.x.bits == 0
            &&& s.y matches Some(v) ==> i.y == v
            &&& s.y is None ==> i.y.bits == 0
            &&& s.w matches Some(v) ==> i.w == v
            &&& s.w is None ==> i.w.bits == 0x4028_0000_0000_0000
            &&& s.h matches Some(v) ==> i.h == v
            &&& s.h is None ==> i.h.bits == 0x4018_0000_0000_0000
            &&& s.timebase matches Some(v) ==> i.set.timebase == v
            &&& s.timebase is None ==> i.set.timebase.bits == 0x4014_0000_0000_0000
            &&& s.pids is None <==> i.pids is None
            &&& s.pids matches Some(p) ==> i.pids == Some(channel_numbers(p))
            &&& i.set.y_mode == "auto"@ && i.set.trig_mode == "off"@ && i.set.trig_slope == "rising"@
            &&& i.set.y_step.bits == 0x3ff0_0000_0000_0000
            &&& i.set.y_offset.bits == 0 && i.set.trig_level.bits == 0
            &&& i.set.trig_auto_level && i.set.trig_source == 0
        }),
{
}

/// The channels of a seed are its numbers, in order, each by its low 32 bits; what is no number
/// is passed over.
pub proof fn law_a_seeds_channels_are_its_numbers(s: Seq<Option<u64>>, x: Option<u64>)
    ensures
        x matches Some(n) ==> lists::one_more(
            channel_numbers(s),
            channel_numbers(s.push(x)),
            (n % 0x1_0000_0000) as u32,
        ),
        x is None ==> channel_numbers(s.push(x)) == channel_numbers(s),
        channel_numbers(Seq::empty()).len() == 0,
{
    let t = s.push(x);
    assert(t.drop_last() =~= s);
    if let Some(n) = x {
        assert(n as u32 == (n % 0x1_0000_0000) as u32) by (bit_vector);
    }
}

/// Seeds become scopes one by one, in order, each with the next number, while there is room.
pub proof fn law_seeds_are_planted_in_order(seeds: Seq<serde_json::Value>, next: u32, n: int)
    requires
        0 < n <= seeds.len(),
    ensures
        ({
            let ((had, at), (now, then)) = (planted(seeds, next, n - 1), planted(seeds, next, n));
            if had.len() < 32 {
                &&& lists::one_more(had, now, seed_in(seeds[n - 1]).instrument(at).saned())
                &&& at < u32::MAX ==> then == at + 1
            } else {
                now == had && then == at
            }
        }),
        planted(seeds, next, 0).0.len() == 0,
        planted(seeds, next, 0).1 == next,
{
}

} // verus!
