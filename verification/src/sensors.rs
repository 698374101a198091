//! Readings from outside: which layer a part reads, who may drive it, and when it goes
//! dark.
//!
//! Where a part's pins have their centre and how large a layer is are the caller's
//! arithmetic; the decisions are made here.
use vstd::prelude::*;

use crate::binary64::Real;
use crate::document;
use crate::lists::{self, find, Keyed};
use crate::parts::{ElementKind, ElementSpec, Part};
use crate::regions::{Layer, Rect, Zone};

verus! {

/// How many readings one message may carry.
pub const MAX_SENSOR_BATCH: usize = 64;

/// How many ticks a driven part may go without a fresh reading before it falls dark.
pub const SENSOR_STALE_TICKS: u32 = 3;

/// The centre of a part's pins.
#[derive(Clone, Copy, Debug, PartialEq, Eq, Structural)]
pub struct Centre {
    pub x: Real,
    pub y: Real,
}

/// The rectangle holds the point, its edges included.
pub open spec fn covers(r: Rect, c: Centre) -> bool {
    !c.x.below(r.x0) && !r.x1.below(c.x) && !c.y.below(r.y0) && !r.y1.below(c.y)
}

/// Of two layers, the one that a part keeps to: the smaller, and of two as large the one
/// with the lower id.
pub open spec fn preferred(zones: Seq<Zone>, areas: Seq<Real>, k: int, j: int) -> bool {
    areas[k].below(areas[j]) || (areas[k].same(areas[j]) && zones[k].id <= zones[j].id)
}

/// The layer that a part reads, of the first `n`.
pub open spec fn best_under(zones: Seq<Zone>, areas: Seq<Real>, c: Centre, n: int) -> Option<int>
    decreases n,
{
    if n <= 0 {
        None
    } else {
        let best = best_under(zones, areas, c, n - 1);
        if !covers(zones[n - 1].rect, c) {
            best
        } else if best is Some && preferred(zones, areas, best->0, n - 1) {
            best
        } else {
            Some(n - 1)
        }
    }
}

/// The layer that a part reads; none for a part without pins.
pub open spec fn read_layer(zones: Seq<Zone>, areas: Seq<Real>, c: Option<Centre>) -> Option<u32> {
    match c {
        None => None,
        Some(c) => match best_under(zones, areas, c, zones.len() as int) {
            Some(i) => Some(zones[i].id),
            None => None,
        },
    }
}

/// The layer that a part with this centre reads. `areas` are the sizes of the layers, in
/// order.
pub fn layer_under(layers: &Vec<Layer>, areas: &Vec<Real>, centre: Option<Centre>) -> (r: Option<
    u32,
>)
    requires
        areas@.len() == layers@.len(),
    ensures
        r == read_layer(lists::views(layers@), areas@, centre),
{
    let ghost zones = lists::views(layers@);
    match centre {
        None => None,
        Some(c) => {
            let mut best: Option<usize> = None;
            let mut i: usize = 0;
            while i < layers.len()
                invariant
                    i <= layers@.len(),
                    areas@.len() == layers@.len(),
                    zones == lists::views(layers@),
                    match best {
                        Some(k) => k < i && best_under(zones, areas@, c, i as int) == Some(k as int),
                        None => best_under(zones, areas@, c, i as int) is None,
                    },
                decreases layers.len() - i,
            {
                let rect: Rect = layers[i].rect;
                proof {
                    assert(zones[i as int] == layers@[i as int]@);
                }
                let outside: bool = c.x.is_below(rect.x0) || rect.x1.is_below(c.x) || c.y.is_below(
                    rect.y0,
                ) || rect.y1.is_below(c.y);
                if !outside {
                    let stays: bool = match best {
                        Some(k) => {
                            proof {
                                assert(zones[k as int] == layers@[k as int]@);
                            }
                            areas[k].is_below(areas[i]) || (areas[k].is_same(areas[i])
                                && layers[k].id <= layers[i].id)
                        },
                        None => false,
                    };
                    if !stays {
                        best = Some(i);
                    }
                }
                i += 1;
            }
            match best {
                Some(k) => Some(layers[k].id),
                None => None,
            }
        },
    }
}

/// A part reads the smallest layer that it sits on, the lowest id breaking a tie, and no
/// layer at all where it sits on none.
pub proof fn law_the_smallest_layer_is_read(zones: Seq<Zone>, areas: Seq<Real>, c: Centre)
    requires
        areas.len() == zones.len(),
        forall|i: int| 0 <= i < areas.len() ==> !(#[trigger] areas[i]).nan(),
    ensures
        match best_under(zones, areas, c, zones.len() as int) {
            Some(k) => 0 <= k < zones.len() && covers(zones[k].rect, c) && forall|j: int|
                #![trigger zones[j]]
                0 <= j < zones.len() && covers(zones[j].rect, c) ==> preferred(zones, areas, k, j),
            None => forall|j: int| 0 <= j < zones.len() ==> !covers((#[trigger] zones[j]).rect, c),
        },
{
    lemma_smallest_of(zones, areas, c, zones.len() as int);
}

proof fn lemma_smallest_of(zones: Seq<Zone>, areas: Seq<Real>, c: Centre, n: int)
    requires
        areas.len() == zones.len(),
        0 <= n <= zones.len(),
        forall|i: int| 0 <= i < areas.len() ==> !(#[trigger] areas[i]).nan(),
    ensures
        match best_under(zones, areas, c, n) {
            Some(k) => 0 <= k < n && covers(zones[k].rect, c) && forall|j: int|
                #![trigger zones[j]]
                0 <= j < n && covers(zones[j].rect, c) ==> preferred(zones, areas, k, j),
            None => forall|j: int| 0 <= j < n ==> !covers((#[trigger] zones[j]).rect, c),
        },
    decreases n,
{
    if n > 0 {
        lemma_smallest_of(zones, areas, c, n - 1);
        let before = best_under(zones, areas, c, n - 1);
        assert(!areas[n - 1].nan());
        if let Some(k) = before {
            assert(!areas[k].nan());
            assert forall|j: int|
                #![trigger zones[j]]
                0 <= j < n && covers(zones[j].rect, c) implies preferred(
                zones,
                areas,
                best_under(zones, areas, c, n)->0,
                j,
            ) by {
                assert(!areas[j].nan());
                if j < n - 1 {
                    assert(preferred(zones, areas, k, j));
                }
            }
        }
    }
}

/// The right of one session to drive one layer.
#[derive(Clone, Copy, Debug, PartialEq, Eq, Structural)]
pub struct Claim {
    pub lid: u32,
    pub who: u32,
}

impl Keyed for Claim {
    open spec fn key(&self) -> u32 {
        self.lid
    }

    fn key_of(&self) -> (k: u32) {
        self.lid
    }
}

/// A part and the layer that it reads.
#[derive(Clone, Copy, Debug, PartialEq, Eq, Structural)]
pub struct Over {
    pub id: u32,
    pub lid: u32,
}

impl Keyed for Over {
    open spec fn key(&self) -> u32 {
        self.id
    }

    fn key_of(&self) -> (k: u32) {
        self.id
    }
}

/// A part that is driven from outside, and by whom.
#[derive(Clone, Copy, Debug, PartialEq, Eq, Structural)]
pub struct Driven {
    pub id: u32,
    pub who: u32,
    /// The last reading.
    pub q: u16,
    /// Ticks since the last reading.
    pub stale: u32,
}

impl Keyed for Driven {
    open spec fn key(&self) -> u32 {
        self.id
    }

    fn key_of(&self) -> (k: u32) {
        self.id
    }
}

/// A reading that came in.
#[derive(Clone, Copy, Debug, PartialEq, Eq, Structural)]
pub struct Reading {
    pub who: u32,
    pub id: u32,
    pub q: u16,
}

/// A reading as the room is told of it.
#[derive(Clone, Copy, Debug, PartialEq, Eq, Structural)]
pub struct Shown {
    pub id: u32,
    pub q: u16,
}

/// The session may drive the part: the part sits on a layer that the session has claimed.
pub open spec fn backed(over: Seq<Over>, claims: Seq<Claim>, id: u32, who: u32) -> bool {
    match lists::place(over, id) {
        None => false,
        Some(i) => claims.contains(Claim { lid: over[i].lid, who }),
    }
}

/// Whether the claim is in the list.
pub fn is_claimed(claims: &Vec<Claim>, lid: u32, who: u32) -> (r: bool)
    ensures
        r == claims@.contains(Claim { lid, who }),
{
    let mut i: usize = 0;
    while i < claims.len()
        invariant
            i <= claims@.len(),
            forall|k: int| 0 <= k < i ==> #[trigger] claims@[k] != (Claim { lid, who }),
        decreases claims.len() - i,
    {
        if claims[i].lid == lid && claims[i].who == who {
            assert(claims@[i as int] == (Claim { lid, who }));
            return true;
        }
        i += 1;
    }
    false
}

fn is_backed(over: &Vec<Over>, claims: &Vec<Claim>, id: u32, who: u32) -> (r: bool)
    ensures
        r == backed(over@, claims@, id, who),
{
    match find(over, id) {
        None => false,
        Some(i) => is_claimed(claims, over[i].lid, who),
    }
}

/// The driven parts whose driver may still drive them.
pub open spec fn still_backed(
    driven: Seq<Driven>,
    over: Seq<Over>,
    claims: Seq<Claim>,
) -> Seq<Driven> {
    driven.filter(|d: Driven| backed(over, claims, d.id, d.who))
}

/// The parts whose driver may not.
pub open spec fn gone_dark(driven: Seq<Driven>, over: Seq<Over>, claims: Seq<Claim>) -> Seq<u32> {
    lists::keys(driven.filter(|d: Driven| !backed(over, claims, d.id, d.who)))
}

/// Drops every driven part whose layer its driver no longer claims, and notes the parts
/// that must be written dark.
pub fn fail_dark(
    driven: &mut Vec<Driven>,
    to_dark: &mut Vec<u32>,
    over: &Vec<Over>,
    claims: &Vec<Claim>,
)
    ensures
        final(driven)@ == still_backed(old(driven)@, over@, claims@),
        final(to_dark)@ == old(to_dark)@ + gone_dark(old(driven)@, over@, claims@),
{
    let ghost all = driven@;
    let ghost p = |d: Driven| backed(over@, claims@, d.id, d.who);
    let ghost q = |d: Driven| !backed(over@, claims@, d.id, d.who);
    let mut kept: Vec<Driven> = Vec::new();
    let mut i: usize = 0;
    proof {
        reveal(Seq::filter);
        assert(all.take(0).filter(p) =~= Seq::<Driven>::empty());
        assert(lists::keys(all.take(0).filter(q)) =~= Seq::<u32>::empty());
        assert(to_dark@ =~= old(to_dark)@ + lists::keys(all.take(0).filter(q)));
    }
    while i < driven.len()
        invariant
            i <= driven@.len(),
            driven@ == all,
            p == (|d: Driven| backed(over@, claims@, d.id, d.who)),
            q == (|d: Driven| !backed(over@, claims@, d.id, d.who)),
            kept@ == all.take(i as int).filter(p),
            to_dark@ == old(to_dark)@ + lists::keys(all.take(i as int).filter(q)),
        decreases driven.len() - i,
    {
        proof {
            reveal(Seq::filter);
            assert(all.take(i + 1).drop_last() =~= all.take(i as int));
        }
        let d: Driven = driven[i];
        if is_backed(over, claims, d.id, d.who) {
            kept.push(d);
        } else {
            to_dark.push(d.id);
            proof {
                assert(to_dark@ =~= old(to_dark)@ + lists::keys(all.take(i + 1).filter(q)));
            }
        }
        i += 1;
    }
    proof {
        assert(all.take(all.len() as int) =~= all);
    }
    *driven = kept;
}

/// The claims of everybody else.
pub open spec fn claims_without(claims: Seq<Claim>, who: u32) -> Seq<Claim> {
    claims.filter(|c: Claim| c.who != who)
}

/// Releases a session's claims, then drops what it was driving; tells whether a claim
/// went.
pub fn drop_claims_of(
    claims: &mut Vec<Claim>,
    who: u32,
    driven: &mut Vec<Driven>,
    to_dark: &mut Vec<u32>,
    over: &Vec<Over>,
) -> (r: bool)
    ensures
        final(claims)@ == claims_without(old(claims)@, who),
        r == (final(claims)@ != old(claims)@),
        final(driven)@ == still_backed(old(driven)@, over@, final(claims)@),
        final(to_dark)@ == old(to_dark)@ + gone_dark(old(driven)@, over@, final(claims)@),
{
    let ghost all = claims@;
    let ghost p = |c: Claim| c.who != who;
    let mut kept: Vec<Claim> = Vec::new();
    let mut i: usize = 0;
    proof {
        reveal(Seq::filter);
        assert(all.take(0).filter(p) =~= Seq::<Claim>::empty());
    }
    while i < claims.len()
        invariant
            i <= claims@.len(),
            claims@ == all,
            p == (|c: Claim| c.who != who),
            kept@ == all.take(i as int).filter(p),
        decreases claims.len() - i,
    {
        proof {
            reveal(Seq::filter);
            assert(all.take(i + 1).drop_last() =~= all.take(i as int));
        }
        if claims[i].who != who {
            kept.push(claims[i]);
        }
        i += 1;
    }
    proof {
        assert(all.take(all.len() as int) =~= all);
        lists::lemma_filter_all(all, p);
        if kept@.len() == all.len() {
            if exists|k: int| 0 <= k < all.len() && !#[trigger] p(all[k]) {
                assert(false);
            }
        }
    }
    let dropped: bool = kept.len() != claims.len();
    *claims = kept;
    fail_dark(driven, to_dark, over, claims);
    dropped
}

/// A session that has left drives nothing any more.
pub proof fn law_who_left_drives_nothing(
    driven: Seq<Driven>,
    over: Seq<Over>,
    claims: Seq<Claim>,
    who: u32,
)
    ensures
        forall|i: int|
            0 <= i < still_backed(driven, over, claims_without(claims, who)).len()
                ==> (#[trigger] still_backed(driven, over, claims_without(claims, who))[i]).who
                != who,
        forall|i: int|
            #![trigger driven[i]]
            0 <= i < driven.len() && driven[i].who == who ==> gone_dark(
                driven,
                over,
                claims_without(claims, who),
            ).contains(driven[i].id),
{
    let left = claims_without(claims, who);
    let p = |d: Driven| backed(over, left, d.id, d.who);
    let q = |d: Driven| !backed(over, left, d.id, d.who);
    assert forall|id: u32| !#[trigger] backed(over, left, id, who) by {
        if backed(over, left, id, who) {
            let c = Claim { lid: over[lists::place(over, id)->0].lid, who };
            let k = choose|k: int| 0 <= k < left.len() && left[k] == c;
            claims.lemma_filter_pred(|c: Claim| c.who != who, k);
        }
    }
    assert forall|i: int| 0 <= i < still_backed(driven, over, left).len() implies (
    #[trigger] still_backed(driven, over, left)[i]).who != who by {
        driven.lemma_filter_pred(p, i);
    }
    assert forall|i: int|
        #![trigger driven[i]]
        0 <= i < driven.len() && driven[i].who == who implies gone_dark(
        driven,
        over,
        left,
    ).contains(driven[i].id) by {
        assert(q(driven[i]));
        driven.lemma_filter_contains(q, i);
        let f = driven.filter(q);
        let k = choose|k: int| 0 <= k < f.len() && f[k] == driven[i];
        assert(lists::keys(f)[k] == driven[i].id);
    }
}

/// A reading is honoured: it is for a photocell, on a layer that the sender has claimed.
pub open spec fn honoured(
    doc: Seq<Part>,
    over: Seq<Over>,
    claims: Seq<Claim>,
    r: Reading,
) -> bool {
    &&& document::part_at(doc, r.id) is Some
    &&& doc[document::part_at(doc, r.id)->0].kind is Photocell
    &&& backed(over, claims, r.id, r.who)
}

/// The readings that are honoured, in order.
pub fn accept_readings(
    elems: &Vec<ElementSpec>,
    over: &Vec<Over>,
    claims: &Vec<Claim>,
    readings: &Vec<Reading>,
) -> (r: Vec<Reading>)
    ensures
        r@ == readings@.filter(
            |x: Reading| honoured(lists::views(elems@), over@, claims@, x),
        ),
{
    let ghost p = |x: Reading| honoured(lists::views(elems@), over@, claims@, x);
    let mut out: Vec<Reading> = Vec::new();
    let mut i: usize = 0;
    proof {
        reveal(Seq::filter);
        assert(readings@.take(0).filter(p) =~= Seq::<Reading>::empty());
    }
    while i < readings.len()
        invariant
            i <= readings@.len(),
            p == (|x: Reading| honoured(lists::views(elems@), over@, claims@, x)),
            out@ == readings@.take(i as int).filter(p),
        decreases readings.len() - i,
    {
        let x: Reading = readings[i];
        proof {
            reveal(Seq::filter);
            assert(readings@.take(i + 1).drop_last() =~= readings@.take(i as int));
            document::lemma_part_at(elems@, x.id);
        }
        let cell: bool = match find(elems, x.id) {
            None => false,
            Some(k) => {
                proof {
                    assert(lists::views(elems@)[k as int] == elems@[k as int]@);
                }
                match elems[k].kind {
                    ElementKind::Photocell { .. } => true,
                    _ => false,
                }
            },
        };
        if cell && is_backed(over, claims, x.id, x.who) {
            out.push(x);
        }
        i += 1;
    }
    proof {
        assert(readings@.take(readings@.len() as int) =~= readings@);
    }
    out
}

/// The driven parts after a reading landed.
pub open spec fn landed(driven: Seq<Driven>, r: Reading) -> Seq<Driven> {
    match lists::place(driven, r.id) {
        Some(i) => driven.update(i, Driven { id: r.id, who: r.who, q: r.q, stale: 0 }),
        None => driven.push(Driven { id: r.id, who: r.who, q: r.q, stale: 0 }),
    }
}

/// The reading is news to the room.
pub open spec fn is_news(driven: Seq<Driven>, r: Reading) -> bool {
    match lists::place(driven, r.id) {
        Some(i) => driven[i].q != r.q,
        None => true,
    }
}

/// Notes a reading that the solver took; what changed is queued for the room.
pub fn note_reading(driven: &mut Vec<Driven>, shown: &mut Vec<Shown>, r: Reading)
    ensures
        final(driven)@ == landed(old(driven)@, r),
        final(shown)@ == if is_news(old(driven)@, r) {
            old(shown)@.push(Shown { id: r.id, q: r.q })
        } else {
            old(shown)@
        },
{
    match find(driven, r.id) {
        Some(i) => {
            let changed: bool = driven[i].q != r.q;
            driven.set(i, Driven { id: r.id, who: r.who, q: r.q, stale: 0 });
            if changed {
                shown.push(Shown { id: r.id, q: r.q });
            }
        },
        None => {
            driven.push(Driven { id: r.id, who: r.who, q: r.q, stale: 0 });
            shown.push(Shown { id: r.id, q: r.q });
        },
    }
}

/// Every driven part, one tick older.
pub open spec fn aged(driven: Seq<Driven>) -> Seq<Driven> {
    Seq::new(driven.len(), |i: int| Driven { stale: (driven[i].stale + 1) as u32, ..driven[i] })
}

/// The driven part had a reading lately.
pub open spec fn fresh(d: Driven) -> bool {
    d.stale <= SENSOR_STALE_TICKS
}

/// The watchdog: every driven part ages by a tick, and one that has gone without a
/// reading for too long is dropped and noted as dark.
pub fn age_driven(driven: &mut Vec<Driven>, to_dark: &mut Vec<u32>)
    requires
        forall|i: int| 0 <= i < old(driven)@.len() ==> fresh(#[trigger] old(driven)@[i]),
    ensures
        final(driven)@ == aged(old(driven)@).filter(|d: Driven| fresh(d)),
        final(to_dark)@ == old(to_dark)@ + lists::keys(aged(old(driven)@).filter(|d: Driven| !fresh(d))),
        forall|i: int| 0 <= i < final(driven)@.len() ==> fresh(#[trigger] final(driven)@[i]),
{
    let ghost before = driven@;
    let ghost all = aged(before);
    let ghost p = |d: Driven| fresh(d);
    let ghost q = |d: Driven| !fresh(d);
    let mut kept: Vec<Driven> = Vec::new();
    let mut i: usize = 0;
    proof {
        reveal(Seq::filter);
        assert(all.take(0).filter(p) =~= Seq::<Driven>::empty());
        assert(to_dark@ =~= old(to_dark)@ + lists::keys(all.take(0).filter(q)));
    }
    while i < driven.len()
        invariant
            i <= driven@.len(),
            driven@ == before,
            all == aged(before),
            p == (|d: Driven| fresh(d)),
            q == (|d: Driven| !fresh(d)),
            forall|k: int| 0 <= k < before.len() ==> fresh(#[trigger] before[k]),
            kept@ == all.take(i as int).filter(p),
            to_dark@ == old(to_dark)@ + lists::keys(all.take(i as int).filter(q)),
        decreases driven.len() - i,
    {
        proof {
            reveal(Seq::filter);
            assert(all.take(i + 1).drop_last() =~= all.take(i as int));
            assert(fresh(before[i as int]));
        }
        let d: Driven = driven[i];
        let older: Driven = Driven { id: d.id, who: d.who, q: d.q, stale: d.stale + 1 };
        if older.stale <= SENSOR_STALE_TICKS {
            kept.push(older);
        } else {
            to_dark.push(older.id);
            proof {
                assert(to_dark@ =~= old(to_dark)@ + lists::keys(all.take(i + 1).filter(q)));
            }
        }
        i += 1;
    }
    proof {
        assert(all.take(all.len() as int) =~= all);
        assert forall|k: int| 0 <= k < kept@.len() implies fresh(#[trigger] kept@[k]) by {
            all.lemma_filter_pred(p, k);
        }
    }
    *driven = kept;
}

/// Driven parts after some ticks without any reading.
pub open spec fn unread_for(driven: Seq<Driven>, n: nat) -> Seq<Driven>
    decreases n,
{
    if n == 0 {
        driven
    } else {
        aged(unread_for(driven, (n - 1) as nat)).filter(|d: Driven| fresh(d))
    }
}

/// A frozen sensor is never shown: parts that were all read just now stay driven for
/// exactly so many ticks of silence, and then none is left.
pub proof fn law_silence_goes_dark(driven: Seq<Driven>, n: nat)
    requires
        forall|i: int| 0 <= i < driven.len() ==> (#[trigger] driven[i]).stale == 0,
    ensures
        n <= SENSOR_STALE_TICKS ==> unread_for(driven, n) == Seq::new(
            driven.len(),
            |i: int| Driven { stale: n as u32, ..driven[i] },
        ),
        n > SENSOR_STALE_TICKS ==> unread_for(driven, n) == Seq::<Driven>::empty(),
    decreases n,
{
    let p = |d: Driven| fresh(d);
    if n == 0 {
        assert(driven =~= Seq::new(driven.len(), |i: int| Driven { stale: 0u32, ..driven[i] }));
    } else {
        law_silence_goes_dark(driven, (n - 1) as nat);
        let before = unread_for(driven, (n - 1) as nat);
        let now = aged(before);
        if n <= SENSOR_STALE_TICKS {
            assert forall|i: int| 0 <= i < now.len() implies #[trigger] p(now[i]) by {}
            lists::lemma_filter_all(now, p);
            assert(now =~= Seq::new(
                driven.len(),
                |i: int| Driven { stale: n as u32, ..driven[i] },
            ));
        } else {
            assert forall|i: int| 0 <= i < now.len() implies !#[trigger] p(now[i]) by {}
            lemma_filter_none(now, p);
        }
    }
}

proof fn lemma_filter_none(s: Seq<Driven>, p: spec_fn(Driven) -> bool)
    requires
        forall|i: int| 0 <= i < s.len() ==> !#[trigger] p(s[i]),
    ensures
        s.filter(p) == Seq::<Driven>::empty(),
    decreases s.len(),
{
    reveal(Seq::filter);
    if s.len() > 0 {
        let d = s.drop_last();
        assert forall|i: int| 0 <= i < d.len() implies !#[trigger] p(d[i]) by {
            assert(d[i] == s[i]);
        }
        assert(!p(s[s.len() - 1]));
        lemma_filter_none(d, p);
    }
}

/// Each number smaller than the next.
pub open spec fn rising(s: Seq<u32>) -> bool {
    forall|i: int, j: int| 0 <= i < j < s.len() ==> #[trigger] s[i] < #[trigger] s[j]
}

/// The numbers of a list, each once, in ascending order.
pub fn sorted_once(v: &Vec<u32>) -> (r: Vec<u32>)
    ensures
        rising(r@),
        forall|x: u32| #[trigger] r@.contains(x) == v@.contains(x),
{
    let mut out: Vec<u32> = Vec::new();
    let mut i: usize = 0;
    while i < v.len()
        invariant
            i <= v@.len(),
            rising(out@),
            forall|x: u32| #[trigger] out@.contains(x) == v@.take(i as int).contains(x),
        decreases v.len() - i,
    {
        let x: u32 = v[i];
        let mut at: usize = 0;
        while at < out.len() && out[at] < x
            invariant
                at <= out@.len(),
                forall|k: int| 0 <= k < at ==> #[trigger] out@[k] < x,
            decreases out.len() - at,
        {
            at += 1;
        }
        let ghost before = out@;
        if at >= out.len() || out[at] != x {
            out.insert(at, x);
            proof {
                assert(rising(out@)) by {
                    assert forall|a: int, b: int| 0 <= a < b < out@.len() implies #[trigger] out@[a]
                        < #[trigger] out@[b] by {
                        if a < at && b > at {
                            assert(before[a] < before[b - 1]);
                        }
                    }
                }
            }
        }
        proof {
            assert forall|y: u32| #[trigger] out@.contains(y) == (before.contains(y) || y
                == x) by {
                if before.contains(y) {
                    let k = choose|k: int| 0 <= k < before.len() && before[k] == y;
                    if out@ == before {
                        assert(out@[k] == y);
                    } else if k < at {
                        assert(out@[k] == y);
                    } else {
                        assert(out@[k + 1] == y);
                    }
                }
                if y == x {
                    assert(out@[at as int] == x);
                }
                if out@.contains(y) && y != x {
                    let k = choose|k: int| 0 <= k < out@.len() && out@[k] == y;
                    if out@ == before {
                    } else if k < at {
                        assert(before[k] == y);
                    } else {
                        assert(before[k - 1] == y);
                    }
                }
            }
            let t = v@.take(i + 1);
            assert(t =~= v@.take(i as int).push(x));
            assert forall|y: u32| #[trigger] out@.contains(y) == t.contains(y) by {
                if v@.take(i as int).contains(y) {
                    let k = choose|k: int| 0 <= k < i && v@.take(i as int)[k] == y;
                    assert(t[k] == y);
                }
                if y == x {
                    assert(t[i as int] == x);
                }
                if t.contains(y) && y != x {
                    let k = choose|k: int| 0 <= k < t.len() && t[k] == y;
                    assert(v@.take(i as int)[k] == y);
                }
            }
        }
        i += 1;
    }
    proof {
        assert(v@.take(v@.len() as int) =~= v@);
    }
    out
}

/// The point lies between the low and the high corner in both directions.
pub open spec fn lies_in(r: Rect, c: Centre) -> bool {
    &&& r.x0.rank() <= c.x.rank() <= r.x1.rank()
    &&& r.y0.rank() <= c.y.rank() <= r.y1.rank()
}

/// A part that reads a layer has its centre between that layer's low and high corner, in x
/// and in y; a part whose centre lies in some layer reads one, and none smaller holds it, nor
/// one as large with a lower number. A part without pins reads nothing.
pub proof fn law_a_part_reads_a_layer_that_it_sits_on(zones: Seq<Zone>, areas: Seq<Real>, c: Centre)
    requires
        areas.len() == zones.len(),
        forall|i: int| 0 <= i < areas.len() ==> !(#[trigger] areas[i]).nan(),
        c.x.finite() && c.y.finite(),
        forall|i: int|
            0 <= i < zones.len() ==> {
                let r = (#[trigger] zones[i]).rect;
                r.x0.finite() && r.y0.finite() && r.x1.finite() && r.y1.finite()
            },
    ensures
        match read_layer(zones, areas, Some(c)) {
            Some(lid) => exists|k: int|
                0 <= k < zones.len() && (#[trigger] zones[k]).id == lid && lies_in(zones[k].rect, c)
                    && forall|j: int|
                    0 <= j < zones.len() && lies_in((#[trigger] zones[j]).rect, c) ==> {
                        ||| areas[k].rank() < areas[j].rank()
                        ||| areas[k].rank() == areas[j].rank() && lid <= zones[j].id
                    },
            None => forall|j: int| 0 <= j < zones.len() ==> !lies_in((#[trigger] zones[j]).rect, c),
        },
        read_layer(zones, areas, None) is None,
{
    law_the_smallest_layer_is_read(zones, areas, c);
    assert forall|j: int| 0 <= j < zones.len() implies lies_in((#[trigger] zones[j]).rect, c)
        == covers(zones[j].rect, c) by {}
    if let Some(k) = best_under(zones, areas, c, zones.len() as int) {
        assert(!areas[k].nan());
        assert forall|j: int|
            0 <= j < zones.len() && lies_in((#[trigger] zones[j]).rect, c) implies {
            ||| areas[k].rank() < areas[j].rank()
            ||| areas[k].rank() == areas[j].rank() && zones[k].id <= zones[j].id
        } by {
            assert(preferred(zones, areas, k, j));
        }
        assert(zones[k].id == read_layer(zones, areas, Some(c))->0);
    }
}

/// A session may drive a part where the part reads a layer, and that same session has claimed
/// that layer.
pub proof fn law_who_may_drive_a_part(over: Seq<Over>, claims: Seq<Claim>, id: u32, who: u32)
    ensures
        backed(over, claims, id, who) <==> exists|i: int, k: int|
            0 <= i < over.len() && 0 <= k < claims.len() && (#[trigger] over[i]).id == id && (
            #[trigger] claims[k]).lid == over[i].lid && claims[k].who == who && forall|j: int|
                0 <= j < i ==> (#[trigger] over[j]).id != id,
{
    lists::lemma_first_keyed(over, id);
    if backed(over, claims, id, who) {
        let i = lists::place(over, id)->0;
        let k = choose|k: int| 0 <= k < claims.len() && claims[k] == (Claim { lid: over[i].lid, who });
        assert forall|j: int| 0 <= j < i implies (#[trigger] over[j]).id != id by {
            assert(over[j].key() != id);
        }
        assert(over[i].id == id && claims[k].lid == over[i].lid);
    }
    if exists|i: int, k: int|
        0 <= i < over.len() && 0 <= k < claims.len() && (#[trigger] over[i]).id == id && (
        #[trigger] claims[k]).lid == over[i].lid && claims[k].who == who && forall|j: int|
            0 <= j < i ==> (#[trigger] over[j]).id != id {
        let (i, k) = choose|i: int, k: int|
            0 <= i < over.len() && 0 <= k < claims.len() && (#[trigger] over[i]).id == id && (
            #[trigger] claims[k]).lid == over[i].lid && claims[k].who == who && forall|j: int|
                0 <= j < i ==> (#[trigger] over[j]).id != id;
        assert forall|j: int| 0 <= j < i implies (#[trigger] over[j]).key() != id by {
            assert(over[j].id != id);
        }
        assert(lists::first_keyed(over, id, i));
        assert(claims[k] == (Claim { lid: over[i].lid, who }));
    }
}

/// A driven part stays driven, as it was, where its driver may drive it; and exactly the
/// others go dark.
pub proof fn law_what_nobody_may_drive_goes_dark(
    driven: Seq<Driven>,
    over: Seq<Over>,
    claims: Seq<Claim>,
)
    ensures
        lists::sifted(
            driven,
            still_backed(driven, over, claims),
            |d: Driven| !backed(over, claims, d.id, d.who),
        ),
        forall|i: int|
            0 <= i < driven.len() && !backed(over, claims, (#[trigger] driven[i]).id, driven[i].who)
                ==> gone_dark(driven, over, claims).contains(driven[i].id),
        forall|k: int|
            0 <= k < gone_dark(driven, over, claims).len() ==> exists|i: int|
                0 <= i < driven.len() && (#[trigger] driven[i]).id == #[trigger] gone_dark(
                    driven,
                    over,
                    claims,
                )[k] && !backed(over, claims, driven[i].id, driven[i].who),
{
    let p = |d: Driven| backed(over, claims, d.id, d.who);
    let q = |d: Driven| !backed(over, claims, d.id, d.who);
    lists::lemma_filter_sifts(driven, p, q);
    lists::lemma_filter_sifts(driven, q, p);
    let g = driven.filter(q);
    lists::lemma_sifted(driven, g, p);
    let dark = gone_dark(driven, over, claims);
    assert forall|i: int|
        0 <= i < driven.len() && !backed(over, claims, (#[trigger] driven[i]).id, driven[i].who) implies dark.contains(
        driven[i].id,
    ) by {
        assert(!p(driven[i]));
        let k = choose|k: int| 0 <= k < g.len() && g[k] == driven[i];
        assert(dark[k] == driven[i].id);
    }
    assert forall|k: int| 0 <= k < dark.len() implies exists|i: int|
        0 <= i < driven.len() && (#[trigger] driven[i]).id == #[trigger] dark[k] && !backed(
            over,
            claims,
            driven[i].id,
            driven[i].who,
        ) by {
        assert(!p(g[k]));
        let i = choose|i: int| 0 <= i < driven.len() && driven[i] == g[k];
        assert(driven[i].id == dark[k]);
    }
}

/// Whoever leaves takes their own claims along, and nobody else's.
pub proof fn law_leaving_gives_back_only_what_one_had(claims: Seq<Claim>, who: u32)
    ensures
        lists::sifted(claims, claims_without(claims, who), |c: Claim| c.who == who),
{
    lists::lemma_filter_sifts(claims, |c: Claim| c.who != who, |c: Claim| c.who == who);
}

/// A reading counts where the part that it names is a photocell and the sender may drive it.
pub proof fn law_which_readings_count(
    doc: Seq<Part>,
    over: Seq<Over>,
    claims: Seq<Claim>,
    r: Reading,
)
    ensures
        honoured(doc, over, claims, r) <==> backed(over, claims, r.id, r.who) && exists|i: int|
            #[trigger] document::found(doc, r.id, i) && doc[i].kind is Photocell,
{
    document::lemma_found(doc, r.id);
    if let Some(i) = document::part_at(doc, r.id) {
        assert(document::found(doc, r.id, i));
    }
}

/// A reading that landed is the part's: it has the sender for its driver and the reading for
/// its light, and the watchdog starts over. Other parts are as they were. The room hears of it
/// where the part had another light, or none.
pub open spec fn reading_on(driven: Seq<Driven>, r: Reading, next: Seq<Driven>, news: bool) -> bool {
    ||| {
        &&& forall|j: int| 0 <= j < driven.len() ==> (#[trigger] driven[j]).id != r.id
        &&& next.len() == driven.len() + 1
        &&& forall|j: int| 0 <= j < driven.len() ==> #[trigger] next[j] == driven[j]
        &&& next[driven.len() as int].id == r.id
        &&& next[driven.len() as int].who == r.who
        &&& next[driven.len() as int].q == r.q
        &&& next[driven.len() as int].stale == 0
        &&& news
    }
    ||| exists|i: int| #[trigger]
        lists::first_keyed(driven, r.id, i) && lists::same_but_at(driven, next, i) && {
            &&& next[i].id == r.id
            &&& next[i].who == r.who
            &&& next[i].q == r.q
            &&& next[i].stale == 0
            &&& news == (driven[i].q != r.q)
        }
}

/// A reading lands on the part that it names.
pub proof fn law_a_reading_lands_on_its_part(driven: Seq<Driven>, r: Reading)
    ensures
        reading_on(driven, r, landed(driven, r), is_news(driven, r)),
{
    lists::lemma_first_keyed(driven, r.id);
    match lists::place(driven, r.id) {
        Some(i) => {
            assert(lists::first_keyed(driven, r.id, i));
        },
        None => {
            assert forall|j: int| 0 <= j < driven.len() implies (#[trigger] driven[j]).id != r.id by {
                assert(driven[j].key() != r.id);
            }
        },
    }
}

/// A tick makes every driven part one tick older and nothing else of it; one that has gone
/// without a reading for more than three ticks is no longer fresh.
pub proof fn law_driven_parts_age_by_the_tick(driven: Seq<Driven>, i: int)
    requires
        0 <= i < driven.len(),
        driven[i].stale < u32::MAX,
    ensures
        aged(driven).len() == driven.len(),
        aged(driven)[i].id == driven[i].id,
        aged(driven)[i].who == driven[i].who,
        aged(driven)[i].q == driven[i].q,
        aged(driven)[i].stale == driven[i].stale + 1,
        fresh(driven[i]) <==> driven[i].stale <= 3,
{
}

} // verus!
