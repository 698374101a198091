//! Lists of things that carry an id, in the order they were added.
use vstd::prelude::*;

verus! {

/// The views of the items, in order.
pub open spec fn views<T: View>(s: Seq<T>) -> Seq<T::V> {
    Seq::new(s.len(), |i: int| s[i].view())
}

/// A thing that can be copied without losing anything that its view shows.
pub trait Copied: View + Sized {
    /// The same thing again.
    fn copied(&self) -> (r: Self)
        ensures
            r@ == self@,
    ;
}

/// The items, copied.
pub fn copy_all<T: Copied>(v: &Vec<T>) -> (r: Vec<T>)
    ensures
        views(r@) == views(v@),
{
    let mut out: Vec<T> = Vec::new();
    let mut i: usize = 0;
    while i < v.len()
        invariant
            i <= v@.len(),
            out@.len() == i,
            forall|k: int| 0 <= k < i ==> (#[trigger] out@[k])@ == v@[k]@,
        decreases v.len() - i,
    {
        out.push(v[i].copied());
        i += 1;
    }
    proof {
        assert(views(out@) =~= views(v@));
    }
    out
}

/// A thing with an id.
pub trait Keyed {
    /// The id.
    spec fn key(&self) -> u32;

    /// The id.
    fn key_of(&self) -> (k: u32)
        ensures
            k == self.key(),
    ;
}

/// The ids of the items, in order.
pub open spec fn keys<T: Keyed>(s: Seq<T>) -> Seq<u32> {
    Seq::new(s.len(), |i: int| s[i].key())
}

/// The place of the first item with this id.
pub open spec fn place<T: Keyed>(s: Seq<T>, id: u32) -> Option<int> {
    keys(s).index_of_first(id)
}

/// Says of an item that it has another id.
pub open spec fn keyed_otherwise<T: Keyed>(id: u32) -> spec_fn(T) -> bool {
    |t: T| t.key() != id
}

/// The items with another id.
pub open spec fn without<T: Keyed>(s: Seq<T>, id: u32) -> Seq<T> {
    s.filter(keyed_otherwise(id))
}

/// The place of the first of some numbers that is this one.
pub proof fn lemma_index_of_first(ids: Seq<u32>, id: u32, at: Option<int>)
    requires
        match at {
            Some(i) => 0 <= i < ids.len() && ids[i] == id && forall|j: int|
                0 <= j < i ==> #[trigger] ids[j] != id,
            None => forall|j: int| 0 <= j < ids.len() ==> #[trigger] ids[j] != id,
        },
    ensures
        ids.index_of_first(id) == at,
{
    ids.index_of_first_ensures(id);
    match at {
        Some(i) => {
            assert(ids.contains(id));
            let k = ids.index_of_first(id)->0;
            if k < i {
                assert(ids[k] != id);
            }
            if i < k {
                assert(ids[i] != id);
            }
        },
        None => {},
    }
}

/// Finds the first item with this id.
pub fn find<T: Keyed>(v: &Vec<T>, id: u32) -> (r: Option<usize>)
    ensures
        match r {
            Some(i) => place(v@, id) == Some(i as int) && i < v@.len() && v@[i as int].key() == id,
            None => place(v@, id) is None,
        },
{
    let mut i: usize = 0;
    while i < v.len()
        invariant
            i <= v@.len(),
            forall|j: int| 0 <= j < i ==> #[trigger] keys(v@)[j] != id,
        decreases v.len() - i,
    {
        if v[i].key_of() == id {
            proof {
                lemma_index_of_first(keys(v@), id, Some(i as int));
            }
            return Some(i);
        }
        i += 1;
    }
    proof {
        lemma_index_of_first(keys(v@), id, None);
    }
    None
}

/// Whether some item has this id.
pub fn has_id<T: Keyed>(v: &Vec<T>, id: u32) -> (r: bool)
    ensures
        r == (place(v@, id) is Some),
        r == keys(v@).contains(id),
{
    proof {
        keys(v@).index_of_first_ensures(id);
    }
    find(v, id).is_some()
}

/// Filtering, from the front.
pub proof fn lemma_filter_front<T>(s: Seq<T>, p: spec_fn(T) -> bool)
    requires
        s.len() > 0,
    ensures
        p(s[0]) ==> s.filter(p) == seq![s[0]] + s.drop_first().filter(p),
        !p(s[0]) ==> s.filter(p) == s.drop_first().filter(p),
{
    let head = seq![s[0]];
    assert(s =~= head + s.drop_first());
    Seq::filter_distributes_over_add(head, s.drop_first(), p);
    reveal(Seq::filter);
    assert(head.drop_last() =~= Seq::<T>::empty());
    assert(head.drop_last().filter(p) =~= Seq::<T>::empty());
    if p(s[0]) {
        assert(head.filter(p) =~= head);
    } else {
        assert(head.filter(p) =~= Seq::<T>::empty());
        assert(s.filter(p) =~= s.drop_first().filter(p));
    }
}

/// Viewing what a filter leaves is filtering what is viewed.
pub proof fn lemma_views_of_filter<T: View>(
    s: Seq<T>,
    p: spec_fn(T) -> bool,
    q: spec_fn(T::V) -> bool,
)
    requires
        forall|t: T| #[trigger] p(t) == q(t@),
    ensures
        views(s.filter(p)) == views(s).filter(q),
    decreases s.len(),
{
    reveal(Seq::filter);
    if s.len() > 0 {
        lemma_views_of_filter(s.drop_last(), p, q);
        assert(views(s).drop_last() =~= views(s.drop_last()));
        assert(p(s.last()) == q(s.last()@));
        if p(s.last()) {
            assert(views(s.filter(p)) =~= views(s.drop_last().filter(p)).push(s.last()@));
        }
    } else {
        assert(views(s.filter(p)) =~= views(s).filter(q));
    }
}

/// A filter that keeps everything, and the length of what any filter keeps.
pub proof fn lemma_filter_all<T>(s: Seq<T>, p: spec_fn(T) -> bool)
    ensures
        s.filter(p).len() <= s.len(),
        (forall|i: int| 0 <= i < s.len() ==> #[trigger] p(s[i])) ==> s.filter(p) == s,
        (exists|i: int| 0 <= i < s.len() && !#[trigger] p(s[i])) ==> s.filter(p).len() < s.len(),
    decreases s.len(),
{
    reveal(Seq::filter);
    if s.len() > 0 {
        let d = s.drop_last();
        lemma_filter_all(d, p);
        assert(forall|i: int| 0 <= i < d.len() ==> d[i] == s[i]);
        if forall|i: int| 0 <= i < s.len() ==> #[trigger] p(s[i]) {
            assert(d.push(s.last()) =~= s);
        }
        if exists|i: int| 0 <= i < s.len() && !#[trigger] p(s[i]) {
            let i = choose|i: int| 0 <= i < s.len() && !#[trigger] p(s[i]);
            if i < d.len() {
                assert(!p(d[i]));
            }
        }
    }
}

/// Removes every item with this id; tells whether there was one.
pub fn remove_all<T: Keyed>(v: &mut Vec<T>, id: u32) -> (r: bool)
    ensures
        final(v)@ == without(old(v)@, id),
        r == (place(old(v)@, id) is Some),
        !r ==> *final(v) == *old(v),
{
    let ghost whole = *v;
    let ghost all = v@;
    let ghost p = keyed_otherwise::<T>(id);
    let mut removed: bool = false;
    let mut i: usize = 0;
    let ghost mut done: int = 0;
    assert(all.skip(0) =~= all);
    assert(Seq::<T>::empty() + all.filter(p) =~= all.filter(p));
    while i < v.len()
        invariant
            0 <= i <= v@.len(),
            0 <= done <= all.len(),
            v@.skip(i as int) == all.skip(done),
            all.filter(p) == v@.take(i as int) + all.skip(done).filter(p),
            removed == exists|j: int| 0 <= j < done && #[trigger] keys(all)[j] == id,
            p == keyed_otherwise::<T>(id),
            !removed ==> *v == whole && i == done,
            whole@ == all,
        decreases v@.len() - i,
    {
        let ghost before = v@;
        proof {
            lemma_filter_front(all.skip(done), p);
            assert(all.skip(done).drop_first() =~= all.skip(done + 1));
            assert(before.skip(i as int)[0] == before[i as int]);
            assert(all.skip(done)[0] == all[done]);
            assert(keys(all)[done] == before[i as int].key());
        }
        if v[i].key_of() == id {
            let _ = v.remove(i);
            removed = true;
            proof {
                assert(v@.skip(i as int) =~= all.skip(done).drop_first());
                assert(v@.take(i as int) =~= before.take(i as int));
                done = done + 1;
            }
        } else {
            i += 1;
            proof {
                assert(v@.skip(i as int) =~= all.skip(done).drop_first());
                assert(v@.take(i as int) + all.skip(done + 1).filter(p) =~= before.take(i - 1) + (
                seq![all[done]] + all.skip(done + 1).filter(p)));
                done = done + 1;
            }
        }
    }
    proof {
        assert(v@.skip(i as int).len() == 0);
        assert(all.skip(done).len() == 0);
        reveal(Seq::filter);
        assert(v@ =~= all.filter(p));
        keys(all).index_of_first_ensures(id);
        if removed {
            assert(keys(all).contains(id));
        }
    }
    removed
}

/// No number before a smaller one.
pub open spec fn ordered(s: Seq<u32>) -> bool {
    forall|i: int, j: int| 0 <= i < j < s.len() ==> #[trigger] s[i] <= #[trigger] s[j]
}

/// The same numbers, as often each, in ascending order.
pub open spec fn ascending(s: Seq<u32>) -> Seq<u32> {
    s.sort_by(|a: u32, b: u32| a <= b)
}

/// Sorting orders the numbers and keeps each as often as it was.
pub proof fn lemma_ascending(s: Seq<u32>)
    ensures
        ordered(ascending(s)),
        ascending(s).to_multiset() == s.to_multiset(),
        ascending(s).len() == s.len(),
{
    let leq = |a: u32, b: u32| a <= b;
    s.lemma_sort_by_ensures(leq);
    let r = ascending(s);
    assert forall|i: int, j: int| 0 <= i < j < r.len() implies #[trigger] r[i]
        <= #[trigger] r[j] by {
        assert(leq(r[i], r[j]));
    }
    s.to_multiset_ensures();
    r.to_multiset_ensures();
}

/// An ordered arrangement of the numbers is the sorted one.
pub proof fn lemma_ascending_is(s: Seq<u32>, r: Seq<u32>)
    requires
        ordered(r),
        r.to_multiset() == s.to_multiset(),
    ensures
        r == ascending(s),
{
    let leq = |a: u32, b: u32| a <= b;
    s.lemma_sort_by_ensures(leq);
    assert(vstd::relations::sorted_by(r, leq));
    vstd::seq_lib::lemma_sorted_unique(r, ascending(s), leq);
}

/// Sorting one number more puts it behind those that are smaller.
pub proof fn lemma_ascending_push(s: Seq<u32>, x: u32, at: int)
    requires
        0 <= at <= s.len(),
        forall|i: int| 0 <= i < at ==> #[trigger] ascending(s)[i] < x,
        at < s.len() ==> ascending(s)[at] >= x,
    ensures
        ascending(s.push(x)) == ascending(s).insert(at, x),
{
    lemma_ascending(s);
    let a = ascending(s);
    let r = a.insert(at, x);
    assert(ordered(r)) by {
        assert forall|i: int, j: int| 0 <= i < j < r.len() implies #[trigger] r[i]
            <= #[trigger] r[j] by {
            if j == at {
                assert(r[i] == a[i]);
            } else if i == at {
                assert(r[j] == a[j - 1]);
                assert(a[at] <= a[j - 1]);
            } else if i < at && j < at {
                assert(r[i] == a[i] && r[j] == a[j]);
            } else if i < at {
                assert(r[i] == a[i] && r[j] == a[j - 1]);
            } else {
                assert(r[i] == a[i - 1] && r[j] == a[j - 1]);
            }
        }
    }
    vstd::seq_lib::to_multiset_insert(a, at, x);
    vstd::seq_lib::to_multiset_build(s, x);
    lemma_ascending_is(s.push(x), r);
}

/// A counter that has started, and is past all of these numbers.
pub open spec fn past(ids: Seq<u32>, next: u32) -> u32
    decreases ids.len(),
{
    if ids.len() == 0 {
        if next < 1 {
            1
        } else {
            next
        }
    } else {
        let p = past(ids.drop_last(), next);
        if ids.last() >= p {
            (ids.last() + 1) as u32
        } else {
            p
        }
    }
}

/// The counter is past all of the numbers and has not gone back; and where it was past them,
/// it is where it was.
pub proof fn law_the_counter_is_past_them(ids: Seq<u32>, next: u32)
    requires
        forall|i: int| 0 <= i < ids.len() ==> #[trigger] ids[i] < u32::MAX,
    ensures
        forall|i: int| 0 <= i < ids.len() ==> #[trigger] ids[i] < past(ids, next),
        past(ids, next) >= next,
        past(ids, next) >= 1,
        next >= 1 && (forall|i: int| 0 <= i < ids.len() ==> #[trigger] ids[i] < next) ==> past(
            ids,
            next,
        ) == next,
    decreases ids.len(),
{
    if ids.len() > 0 {
        let d = ids.drop_last();
        assert forall|i: int| 0 <= i < d.len() implies #[trigger] d[i] < u32::MAX by {
            assert(d[i] == ids[i]);
        }
        law_the_counter_is_past_them(d, next);
        assert(ids[ids.len() - 1] < u32::MAX);
        assert forall|i: int| 0 <= i < ids.len() implies #[trigger] ids[i] < past(ids, next) by {
            if i < d.len() {
                assert(d[i] == ids[i]);
            }
        }
        if next >= 1 && (forall|i: int| 0 <= i < ids.len() ==> #[trigger] ids[i] < next) {
            assert forall|i: int| 0 <= i < d.len() implies #[trigger] d[i] < next by {
                assert(d[i] == ids[i]);
            }
            assert(ids[ids.len() - 1] < next);
        }
    }
}

/// A counter past the numbers of some items.
pub fn count_past<T: Keyed>(v: &Vec<T>, next: u32) -> (r: u32)
    requires
        forall|i: int| 0 <= i < v@.len() ==> (#[trigger] v@[i]).key() < u32::MAX,
    ensures
        r == past(keys(v@), next),
{
    let ghost all = keys(v@);
    let mut r: u32 = if next < 1 {
        1
    } else {
        next
    };
    let mut i: usize = 0;
    assert(all.take(0) =~= Seq::<u32>::empty());
    while i < v.len()
        invariant
            i <= v@.len(),
            all == keys(v@),
            forall|k: int| 0 <= k < v@.len() ==> (#[trigger] v@[k]).key() < u32::MAX,
            r == past(all.take(i as int), next),
        decreases v.len() - i,
    {
        proof {
            assert(all.take(i + 1).drop_last() =~= all.take(i as int));
            assert(all[i as int] == v@[i as int].key());
        }
        let k: u32 = v[i].key_of();
        if k >= r {
            r = k + 1;
        }
        i += 1;
    }
    assert(all.take(all.len() as int) =~= all);
    r
}

/// The lists are equally long and the same everywhere but in this place.
pub open spec fn same_but_at<T>(a: Seq<T>, b: Seq<T>, i: int) -> bool {
    &&& a.len() == b.len()
    &&& 0 <= i < a.len()
    &&& forall|j: int| 0 <= j < a.len() && j != i ==> #[trigger] a[j] == b[j]
}

/// The second list is the first with one more item at its end.
pub open spec fn one_more<T>(a: Seq<T>, b: Seq<T>, x: T) -> bool {
    &&& b.len() == a.len() + 1
    &&& b[a.len() as int] == x
    &&& forall|j: int| 0 <= j < a.len() ==> #[trigger] b[j] == a[j]
}

/// The second list is the first without what is so, in the same order.
pub open spec fn sifted<T>(a: Seq<T>, b: Seq<T>, so: spec_fn(T) -> bool) -> bool
    decreases a.len(),
{
    if a.len() == 0 {
        b.len() == 0
    } else if so(a.last()) {
        sifted(a.drop_last(), b, so)
    } else {
        b.len() > 0 && b.last() == a.last() && sifted(a.drop_last(), b.drop_last(), so)
    }
}

/// A filter leaves out what is not so, and keeps the order of the others.
pub proof fn lemma_filter_sifts<T>(s: Seq<T>, p: spec_fn(T) -> bool, so: spec_fn(T) -> bool)
    requires
        forall|t: T| #[trigger] p(t) == !so(t),
    ensures
        sifted(s, s.filter(p), so),
    decreases s.len(),
{
    reveal(Seq::filter);
    if s.len() > 0 {
        lemma_filter_sifts(s.drop_last(), p, so);
        assert(p(s.last()) == !so(s.last()));
        if p(s.last()) {
            assert(s.filter(p).drop_last() =~= s.drop_last().filter(p));
        }
    }
}

/// What is sifted holds nothing that is so, and everything else.
pub proof fn lemma_sifted<T>(a: Seq<T>, b: Seq<T>, so: spec_fn(T) -> bool)
    requires
        sifted(a, b, so),
    ensures
        b.len() <= a.len(),
        forall|j: int| 0 <= j < b.len() ==> !so(#[trigger] b[j]) && a.contains(b[j]),
        forall|j: int| 0 <= j < a.len() && !so(#[trigger] a[j]) ==> b.contains(a[j]),
        (forall|j: int| 0 <= j < a.len() ==> !so(#[trigger] a[j])) ==> b == a,
    decreases a.len(),
{
    if a.len() > 0 {
        let d = a.drop_last();
        let e = if so(a.last()) {
            b
        } else {
            b.drop_last()
        };
        lemma_sifted(d, e, so);
        assert(a.last() == a[a.len() - 1]);
        assert forall|j: int| 0 <= j < b.len() implies !so(#[trigger] b[j]) && a.contains(b[j]) by {
            if j < e.len() {
                assert(b[j] == e[j]);
                let k = choose|k: int| 0 <= k < d.len() && d[k] == e[j];
                assert(a[k] == b[j]);
            } else {
                assert(b[j] == a[a.len() - 1]);
            }
        }
        assert forall|j: int| 0 <= j < a.len() && !so(#[trigger] a[j]) implies b.contains(a[j]) by {
            if j < d.len() {
                assert(d[j] == a[j]);
                let k = choose|k: int| 0 <= k < e.len() && e[k] == d[j];
                assert(b[k] == a[j]);
            } else {
                assert(b[b.len() - 1] == a[j]);
            }
        }
        if forall|j: int| 0 <= j < a.len() ==> !so(#[trigger] a[j]) {
            assert forall|j: int| 0 <= j < d.len() implies !so(#[trigger] d[j]) by {
                assert(d[j] == a[j]);
            }
            assert(!so(a[a.len() - 1]));
            assert(b =~= a);
        }
    } else {
        assert(b =~= a);
    }
}

/// The item at this place is the first with this id.
pub open spec fn first_keyed<T: Keyed>(s: Seq<T>, id: u32, i: int) -> bool {
    &&& 0 <= i < s.len()
    &&& s[i].key() == id
    &&& forall|j: int| 0 <= j < i ==> (#[trigger] s[j]).key() != id
}

/// Looking for an id finds the first item that has it, or there is none.
pub proof fn lemma_first_keyed<T: Keyed>(s: Seq<T>, id: u32)
    ensures
        match place(s, id) {
            Some(i) => first_keyed(s, id, i),
            None => forall|j: int| 0 <= j < s.len() ==> (#[trigger] s[j]).key() != id,
        },
        forall|i: int| #[trigger] first_keyed(s, id, i) ==> place(s, id) == Some(i),
{
    let ids = keys(s);
    ids.index_of_first_ensures(id);
    assert forall|j: int| 0 <= j < s.len() implies ids[j] == (#[trigger] s[j]).key() by {}
    assert forall|i: int| #[trigger] first_keyed(s, id, i) implies place(s, id) == Some(i) by {
        assert forall|j: int| 0 <= j < i implies #[trigger] ids[j] != id by {
            assert(s[j].key() != id);
        }
        lemma_index_of_first(ids, id, Some(i));
    }
    match place(s, id) {
        Some(i) => {
            assert(ids[i] == s[i].key());
            assert forall|j: int| 0 <= j < i implies (#[trigger] s[j]).key() != id by {
                assert(ids[j] != id);
            }
        },
        None => {
            assert forall|j: int| 0 <= j < s.len() implies (#[trigger] s[j]).key() != id by {
                assert(ids[j] != id);
            }
        },
    }
}

/// The second list is the first without the item at this place.
pub open spec fn one_less<T>(a: Seq<T>, b: Seq<T>, i: int) -> bool {
    &&& 0 <= i < a.len()
    &&& b.len() == a.len() - 1
    &&& forall|j: int| 0 <= j < i ==> #[trigger] b[j] == a[j]
    &&& forall|j: int| i <= j < b.len() ==> #[trigger] b[j] == a[j + 1]
}

} // verus!
