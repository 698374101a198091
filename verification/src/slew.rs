//! Knobs that travel instead of jumping.
//!
//! A wiper walks toward where a hand asked it to be. The document holds the target,
//! the solver holds the position. The walk's arithmetic is the caller's: it measures
//! the gap that is left, and says where one stride would take the wiper.
use vstd::prelude::*;

use crate::binary64::Real;
use crate::lists::{self, find, Keyed};

verus! {

/// A wiper this near its target has arrived: one part in ten thousand of the track.
pub const EPS: u64 = 0x3f1a_36e2_eb1c_432d;

/// One knob in flight.
#[derive(Clone, Copy, Debug, PartialEq, Eq, Structural)]
pub struct InFlight {
    pub id: u32,
    /// Where the wiper is.
    pub now: Real,
    /// Where it was asked to go.
    pub target: Real,
}

impl Keyed for InFlight {
    open spec fn key(&self) -> u32 {
        self.id
    }

    fn key_of(&self) -> (k: u32) {
        self.id
    }
}

/// What one stride would do to a knob: how far it is from its target, and where the
/// stride would take it.
#[derive(Clone, Copy, Debug, PartialEq, Eq, Structural)]
pub struct Stride {
    pub gap: Real,
    pub moved: Real,
}

impl Stride {
    /// The knob is as good as there.
    pub open spec fn arrives(self) -> bool {
        self.gap.at_most(Real { bits: EPS })
    }
}

/// A knob after a stride: on its target where it arrives, else where the stride takes it.
pub open spec fn strode(f: InFlight, s: Stride) -> InFlight {
    InFlight {
        now: if s.arrives() {
            f.target
        } else {
            s.moved
        },
        ..f
    }
}

/// A wiper position to be written to a part.
#[derive(Clone, Copy, Debug, PartialEq, Eq, Structural)]
pub struct WiperWrite {
    pub id: u32,
    pub frac: Real,
}

/// The knobs that are travelling, in the order in which they set out.
#[derive(Debug)]
pub struct Slews {
    pub live: Vec<InFlight>,
}

/// The knobs after one was aimed. A knob in flight keeps its place and its position and
/// gets a new target; one that is there already does not set out.
pub open spec fn aimed(
    live: Seq<InFlight>,
    id: u32,
    from: Real,
    target: Real,
    gap: Real,
) -> Seq<InFlight> {
    match lists::place(live, id) {
        Some(i) => live.update(i, InFlight { target, ..live[i] }),
        None => if gap.below(Real { bits: EPS }) {
            live
        } else {
            live.push(InFlight { id, now: from, target })
        },
    }
}

/// The knobs that go on: written, and not arrived.
pub open spec fn going_on(
    live: Seq<InFlight>,
    strides: Seq<Stride>,
    alive: Seq<bool>,
    n: int,
) -> Seq<InFlight>
    decreases n,
{
    if n <= 0 {
        Seq::empty()
    } else if alive[n - 1] && !strides[n - 1].arrives() {
        going_on(live, strides, alive, n - 1).push(live[n - 1])
    } else {
        going_on(live, strides, alive, n - 1)
    }
}

impl Default for Slews {
    /// No knob in flight.
    fn default() -> (r: Slews)
        ensures
            r.live@ == Seq::<InFlight>::empty(),
    {
        Slews::new()
    }
}

impl Slews {
    /// No knob in flight.
    pub fn new() -> (r: Slews)
        ensures
            r.live@ == Seq::<InFlight>::empty(),
    {
        Slews { live: Vec::new() }
    }

    /// Whether nothing is in flight.
    pub fn is_empty(&self) -> (r: bool)
        ensures
            r == (self.live@.len() == 0),
    {
        self.live.len() == 0
    }

    /// Points a knob at a new target. `from` is where the document had the wiper, and
    /// `gap` how far that is from the target.
    pub fn aim(&mut self, id: u32, from: Real, target: Real, gap: Real)
        ensures
            final(self).live@ == aimed(old(self).live@, id, from, target, gap),
    {
        match find(&self.live, id) {
            Some(i) => {
                let f: InFlight = self.live[i];
                self.live.set(i, InFlight { id: f.id, now: f.now, target });
            },
            None => {
                if !gap.is_below(Real::of(EPS)) {
                    self.live.push(InFlight { id, now: from, target });
                }
            },
        }
    }

    /// Where a travelling knob has to be put back to, after something rebuilt the solver
    /// from the document, which has it at its target. Nothing for a knob at rest.
    pub fn reassert(&self, id: u32) -> (r: Option<WiperWrite>)
        ensures
            r == match lists::place(self.live@, id) {
                Some(i) => Some(WiperWrite { id, frac: self.live@[i].now }),
                None => None,
            },
    {
        match find(&self.live, id) {
            Some(i) => Some(WiperWrite { id: self.live[i].id, frac: self.live[i].now }),
            None => None,
        }
    }

    /// Takes every travelling knob one stride on, and says what to write for each, in
    /// order. A knob that arrives is written once more, exactly on its target.
    pub fn advance(&mut self, strides: &Vec<Stride>) -> (writes: Vec<WiperWrite>)
        requires
            strides@.len() == old(self).live@.len(),
        ensures
            final(self).live@ == Seq::new(
                old(self).live@.len(),
                |i: int| strode(old(self).live@[i], strides@[i]),
            ),
            writes@ == Seq::new(
                old(self).live@.len(),
                |i: int|
                    WiperWrite {
                        id: old(self).live@[i].id,
                        frac: strode(old(self).live@[i], strides@[i]).now,
                    },
            ),
    {
        let ghost before = self.live@;
        let mut writes: Vec<WiperWrite> = Vec::new();
        let mut i: usize = 0;
        while i < self.live.len()
            invariant
                i <= self.live@.len(),
                self.live@.len() == before.len(),
                strides@.len() == before.len(),
                forall|k: int| 0 <= k < i ==> #[trigger] self.live@[k] == strode(before[k], strides@[k]),
                forall|k: int| i <= k < before.len() ==> #[trigger] self.live@[k] == before[k],
                writes@ == Seq::new(
                    i as nat,
                    |k: int|
                        WiperWrite { id: before[k].id, frac: strode(before[k], strides@[k]).now },
                ),
            decreases self.live.len() - i,
        {
            let f: InFlight = self.live[i];
            let now: Real = if strides[i].gap.is_at_most(Real::of(EPS)) {
                f.target
            } else {
                strides[i].moved
            };
            self.live.set(i, InFlight { id: f.id, now, target: f.target });
            writes.push(WiperWrite { id: f.id, frac: now });
            i += 1;
            proof {
                assert(writes@ =~= Seq::new(
                    i as nat,
                    |k: int|
                        WiperWrite { id: before[k].id, frac: strode(before[k], strides@[k]).now },
                ));
            }
        }
        proof {
            assert(self.live@ =~= Seq::new(
                before.len(),
                |k: int| strode(before[k], strides@[k]),
            ));
        }
        writes
    }

    /// Forgets the knobs that arrived, and those whose part is gone: whose write failed.
    pub fn settle(&mut self, strides: &Vec<Stride>, alive: &Vec<bool>)
        requires
            strides@.len() == old(self).live@.len(),
            alive@.len() == old(self).live@.len(),
        ensures
            final(self).live@ == going_on(
                old(self).live@,
                strides@,
                alive@,
                old(self).live@.len() as int,
            ),
    {
        let ghost before = self.live@;
        let mut kept: Vec<InFlight> = Vec::new();
        let mut i: usize = 0;
        while i < self.live.len()
            invariant
                i <= self.live@.len(),
                self.live@ == before,
                strides@.len() == before.len(),
                alive@.len() == before.len(),
                kept@ == going_on(before, strides@, alive@, i as int),
            decreases self.live.len() - i,
        {
            if alive[i] && !strides[i].gap.is_at_most(Real::of(EPS)) {
                kept.push(self.live[i]);
            }
            i += 1;
        }
        self.live = kept;
    }

    /// Abandons every journey.
    pub fn clear(&mut self)
        ensures
            final(self).live@ == Seq::<InFlight>::empty(),
    {
        self.live.clear();
    }
}

/// Aiming a knob in flight anew does not move it, and leaves the others alone.
pub proof fn law_re_aiming_moves_nothing(
    live: Seq<InFlight>,
    id: u32,
    from: Real,
    target: Real,
    gap: Real,
)
    requires
        lists::place(live, id) is Some,
    ensures
        aimed(live, id, from, target, gap).len() == live.len(),
        forall|i: int|
            0 <= i < live.len() ==> (#[trigger] aimed(live, id, from, target, gap)[i]).now
                == live[i].now,
        forall|i: int|
            0 <= i < live.len() && i != lists::place(live, id)->0 ==> #[trigger] aimed(
                live,
                id,
                from,
                target,
                gap,
            )[i] == live[i],
        aimed(live, id, from, target, gap)[lists::place(live, id)->0].target == target,
{
    lists::keys(live).index_of_first_ensures(id);
}

/// A knob that arrives stops on its target and costs nothing more.
pub proof fn law_arrived_knobs_retire(live: Seq<InFlight>, strides: Seq<Stride>, alive: Seq<bool>)
    requires
        strides.len() == live.len(),
        alive.len() == live.len(),
        forall|i: int| 0 <= i < live.len() ==> (#[trigger] strides[i]).arrives() || !alive[i],
    ensures
        going_on(live, strides, alive, live.len() as int) == Seq::<InFlight>::empty(),
        forall|i: int|
            0 <= i < live.len() && strides[i].arrives() ==> (#[trigger] strode(
                live[i],
                strides[i],
            )).now == live[i].target,
{
    lemma_none_goes_on(live, strides, alive, live.len() as int);
}

proof fn lemma_none_goes_on(
    live: Seq<InFlight>,
    strides: Seq<Stride>,
    alive: Seq<bool>,
    n: int,
)
    requires
        0 <= n <= live.len(),
        strides.len() == live.len(),
        alive.len() == live.len(),
        forall|i: int| 0 <= i < live.len() ==> (#[trigger] strides[i]).arrives() || !alive[i],
    ensures
        going_on(live, strides, alive, n) == Seq::<InFlight>::empty(),
    decreases n,
{
    if n > 0 {
        assert(strides[n - 1].arrives() || !alive[n - 1]);
        lemma_none_goes_on(live, strides, alive, n - 1);
    }
}

/// A knob at rest sets out from where it is, to where it was asked to be, unless it is as
/// good as there; the knobs in flight are as they were.
pub proof fn law_a_knob_sets_out_from_where_it_is(
    live: Seq<InFlight>,
    id: u32,
    from: Real,
    target: Real,
    gap: Real,
)
    requires
        forall|j: int| 0 <= j < live.len() ==> (#[trigger] live[j]).id != id,
    ensures
        ({
            let next = aimed(live, id, from, target, gap);
            if !gap.nan() && gap.rank() < (Real { bits: 0x3f1a_36e2_eb1c_432d }).rank() {
                next == live
            } else {
                &&& next.len() == live.len() + 1
                &&& forall|j: int| 0 <= j < live.len() ==> #[trigger] next[j] == live[j]
                &&& next[live.len() as int].id == id
                &&& next[live.len() as int].now == from
                &&& next[live.len() as int].target == target
            }
        }),
{
    lists::lemma_first_keyed(live, id);
    if let Some(i) = lists::place(live, id) {
        assert(live[i].id != id);
    }
}

/// A stride takes a knob where the stride says, and exactly onto its target once it is as good
/// as there; it stays the same knob with the same target.
pub proof fn law_a_stride_ends_on_the_target(f: InFlight, s: Stride)
    ensures
        strode(f, s).id == f.id,
        strode(f, s).target == f.target,
        s.gap.nan() || s.gap.rank() > (Real { bits: 0x3f1a_36e2_eb1c_432d }).rank() ==> strode(f, s).now == s.moved,
        !s.gap.nan() && s.gap.rank() <= (Real { bits: 0x3f1a_36e2_eb1c_432d }).rank() ==> strode(f, s).now == f.target,
{
}

/// A knob goes on exactly while its part is there and it has not arrived; those that go on
/// keep their order and are as they were.
pub proof fn law_knobs_go_on_until_they_arrive(
    live: Seq<InFlight>,
    strides: Seq<Stride>,
    alive: Seq<bool>,
    n: int,
    i: int,
)
    requires
        0 <= i < n <= live.len(),
        strides.len() == live.len(),
        alive.len() == live.len(),
        forall|a: int, b: int| 0 <= a < b < live.len() ==> #[trigger] live[a].id != #[trigger] live[b].id,
    ensures
        going_on(live, strides, alive, n).contains(live[i]) <==> alive[i] && (strides[i].gap.nan()
            || strides[i].gap.rank() > (Real { bits: 0x3f1a_36e2_eb1c_432d }).rank()),
        going_on(live, strides, alive, n).len() <= n,
        forall|k: int|
            0 <= k < going_on(live, strides, alive, n).len() ==> exists|j: int|
                k <= j < n && #[trigger] going_on(live, strides, alive, n)[k] == #[trigger] live[j],
    decreases n,
{
    let all = going_on(live, strides, alive, n);
    let had = going_on(live, strides, alive, n - 1);
    if n > 1 {
        law_knobs_go_on_until_they_arrive(
            live,
            strides,
            alive,
            n - 1,
            if i < n - 1 {
                i
            } else {
                0
            },
        );
    } else {
        assert(had.len() == 0);
    }
    assert forall|k: int| 0 <= k < all.len() implies exists|j: int|
        k <= j < n && #[trigger] all[k] == #[trigger] live[j] by {
        if k < had.len() {
            assert(all[k] == had[k]);
            let j = choose|j: int| k <= j < n - 1 && had[k] == #[trigger] live[j];
            assert(all[k] == live[j]);
        } else {
            assert(all[k] == live[n - 1]);
        }
    }
    if i < n - 1 {
        if had.contains(live[i]) {
            let k = choose|k: int| 0 <= k < had.len() && had[k] == live[i];
            assert(all[k] == live[i]);
        }
        if all.contains(live[i]) {
            let k = choose|k: int| 0 <= k < all.len() && all[k] == live[i];
            if k == had.len() {
                assert(live[n - 1].id != live[i].id);
            }
            assert(had[k] == live[i]);
        }
    } else {
        if all.len() > had.len() {
            assert(all[had.len() as int] == live[i]);
        } else if all.contains(live[i]) {
            let k = choose|k: int| 0 <= k < all.len() && all[k] == live[i];
            assert(all[k] == had[k]);
            let j = choose|j: int| k <= j < n - 1 && had[k] == #[trigger] live[j];
            assert(live[j].id != live[i].id);
        }
    }
}

/// A knob was turned. One in flight goes on from where it is, to the new target; one at rest
/// sets out from where it is, unless it is as good as there. The others are as they were.
pub open spec fn knob_aimed(
    had: Seq<InFlight>,
    live: Seq<InFlight>,
    id: u32,
    from: Real,
    target: Real,
    gap: Real,
) -> bool {
    ||| exists|i: int| #[trigger]
        lists::first_keyed(had, id, i) && lists::same_but_at(had, live, i) && live[i].id == id
            && live[i].now == had[i].now && live[i].target == target
    ||| {
        &&& forall|j: int| 0 <= j < had.len() ==> (#[trigger] had[j]).id != id
        &&& if !gap.nan() && gap.rank() < (Real { bits: 0x3f1a_36e2_eb1c_432d }).rank() {
            live == had
        } else {
            &&& live.len() == had.len() + 1
            &&& forall|j: int| 0 <= j < had.len() ==> #[trigger] live[j] == had[j]
            &&& live.last().id == id
            &&& live.last().now == from
            &&& live.last().target == target
        }
    }
}

/// A turned knob is aimed at where it was turned to.
pub proof fn law_a_turned_knob_is_aimed(
    live: Seq<InFlight>,
    id: u32,
    from: Real,
    target: Real,
    gap: Real,
)
    ensures
        knob_aimed(live, aimed(live, id, from, target, gap), id, from, target, gap),
{
    lists::lemma_first_keyed(live, id);
    match lists::place(live, id) {
        Some(i) => {
            assert(lists::first_keyed(live, id, i));
            assert(live[i].key() == id);
        },
        None => {
            assert forall|j: int| 0 <= j < live.len() implies (#[trigger] live[j]).id != id by {
                assert(live[j].key() != id);
            }
        },
    }
}

} // verus!
