//! Names pinned to grid points. They are words, and join nothing.
use vstd::prelude::*;

use crate::lists::{self, Copied, find, remove_all, Keyed};
use crate::regions::{self, name_or_number, take_number};
use crate::text::{self, clean_name, is_empty_text};

verus! {

pub const MAX_NET_LABELS: usize = 64;

/// The longest net name, in characters: as long as a part's.
pub const MAX_NET_LABEL_NAME: usize = 24;

/// How far from the origin a label may stand.
pub const MAX_NET_LABEL_COORD: i32 = 1_000_000_000;

/// A name and the grid point it is pinned to.
#[derive(Clone, Debug)]
pub struct NetLabel {
    pub nlid: u32,
    pub x: i32,
    pub y: i32,
    pub name: String,
}

/// A pinned name, as a value.
pub struct Tag {
    pub nlid: u32,
    pub x: i32,
    pub y: i32,
    pub name: Seq<char>,
}

impl View for NetLabel {
    type V = Tag;

    open spec fn view(&self) -> Tag {
        Tag { nlid: self.nlid, x: self.x, y: self.y, name: self.name@ }
    }
}

impl Keyed for NetLabel {
    open spec fn key(&self) -> u32 {
        self.nlid
    }

    fn key_of(&self) -> (k: u32) {
        self.nlid
    }
}

impl Copied for NetLabel {
    fn copied(&self) -> (r: NetLabel) {
        NetLabel { nlid: self.nlid, x: self.x, y: self.y, name: self.name.clone() }
    }
}

/// What a player does to a net label.
#[derive(Clone, Debug)]
pub enum NetLabelOp {
    Add { x: i32, y: i32, name: Option<String> },
    Remove { nlid: u32 },
    Move { nlid: u32, x: i32, y: i32 },
    Rename { nlid: u32, name: String },
}

/// What a player does to a net label, as a value.
pub enum TagOp {
    Add { x: i32, y: i32, name: Option<Seq<char>> },
    Remove { nlid: u32 },
    Move { nlid: u32, x: i32, y: i32 },
    Rename { nlid: u32, name: Seq<char> },
}

impl View for NetLabelOp {
    type V = TagOp;

    open spec fn view(&self) -> TagOp {
        match self {
            NetLabelOp::Add { x, y, name } => TagOp::Add {
                x: *x,
                y: *y,
                name: match name {
                    Some(n) => Some(n@),
                    None => None,
                },
            },
            NetLabelOp::Remove { nlid } => TagOp::Remove { nlid: *nlid },
            NetLabelOp::Move { nlid, x, y } => TagOp::Move { nlid: *nlid, x: *x, y: *y },
            NetLabelOp::Rename { nlid, name } => TagOp::Rename { nlid: *nlid, name: name@ },
        }
    }
}

/// A point that a label may hold.
pub open spec fn on_the_map(x: i32, y: i32) -> bool {
    -MAX_NET_LABEL_COORD <= x <= MAX_NET_LABEL_COORD && -MAX_NET_LABEL_COORD <= y
        <= MAX_NET_LABEL_COORD
}

/// What a net label's name becomes.
pub fn clean_net_label_name(name: &str) -> (r: String)
    ensures
        r@ == text::cleaned(name@, MAX_NET_LABEL_NAME as nat),
{
    clean_name(name, MAX_NET_LABEL_NAME)
}

/// The point, where a label may hold it. Nothing need be connected there.
pub fn norm_net_label_point(x: i32, y: i32) -> (r: Option<(i32, i32)>)
    ensures
        on_the_map(x, y) ==> r == Some((x, y)),
        !on_the_map(x, y) ==> r is None,
{
    if x < -MAX_NET_LABEL_COORD || x > MAX_NET_LABEL_COORD || y < -MAX_NET_LABEL_COORD || y
        > MAX_NET_LABEL_COORD {
        None
    } else {
        Some((x, y))
    }
}

/// The ids of some labels, in order.
pub open spec fn tag_ids(tags: Seq<Tag>) -> Seq<u32> {
    Seq::new(tags.len(), |i: int| tags[i].nlid)
}

/// The place of the first label with this id.
pub open spec fn tag_at(tags: Seq<Tag>, nlid: u32) -> Option<int> {
    tag_ids(tags).index_of_first(nlid)
}

/// Some label stands on the point; one of them may be left out.
pub open spec fn taken(tags: Seq<Tag>, x: i32, y: i32, but: Option<u32>) -> bool {
    exists|i: int|
        0 <= i < tags.len() && (#[trigger] tags[i]).x == x && tags[i].y == y && but != Some(
            tags[i].nlid,
        )
}

/// The labels and the next number after an op, or nothing where it is dropped: a point
/// off the map or taken, a label that is not there, a full budget, an empty name.
pub open spec fn tagged(tags: Seq<Tag>, next: u32, op: TagOp) -> Option<(Seq<Tag>, u32)> {
    match op {
        TagOp::Add { x, y, name } => if !on_the_map(x, y) || tags.len() >= MAX_NET_LABELS || taken(
            tags,
            x,
            y,
            None,
        ) {
            None
        } else {
            let tag = Tag {
                nlid: next,
                x,
                y,
                name: regions::given_name(name, MAX_NET_LABEL_NAME as nat, "NET "@, next),
            };
            Some((tags.push(tag), regions::following(next)))
        },
        TagOp::Remove { nlid } => match tag_at(tags, nlid) {
            None => None,
            Some(_) => Some((tags.filter(|t: Tag| t.nlid != nlid), next)),
        },
        TagOp::Move { nlid, x, y } => match tag_at(tags, nlid) {
            Some(i) => if !on_the_map(x, y) || taken(tags, x, y, Some(nlid)) {
                None
            } else {
                Some((tags.update(i, Tag { x, y, ..tags[i] }), next))
            },
            None => None,
        },
        TagOp::Rename { nlid, name } => {
            let name = text::cleaned(name, MAX_NET_LABEL_NAME as nat);
            match tag_at(tags, nlid) {
                Some(i) => if name.len() == 0 {
                    None
                } else {
                    Some((tags.update(i, Tag { name, ..tags[i] }), next))
                },
                None => None,
            }
        },
    }
}

/// Whether some label stands on the point; one of them may be left out.
fn point_taken(labels: &Vec<NetLabel>, x: i32, y: i32, but: Option<u32>) -> (r: bool)
    ensures
        r == taken(lists::views(labels@), x, y, but),
{
    let ghost tags = lists::views(labels@);
    let mut i: usize = 0;
    while i < labels.len()
        invariant
            i <= labels@.len(),
            tags == lists::views(labels@),
            forall|k: int|
                0 <= k < i ==> !((#[trigger] tags[k]).x == x && tags[k].y == y && but != Some(
                    tags[k].nlid,
                )),
        decreases labels.len() - i,
    {
        proof {
            assert(tags[i as int] == labels@[i as int]@);
        }
        let other: bool = match but {
            Some(id) => id != labels[i].nlid,
            None => true,
        };
        if labels[i].x == x && labels[i].y == y && other {
            return true;
        }
        i += 1;
    }
    false
}

/// Applies an op to a room's net labels. An op that is dropped changes nothing.
pub fn apply_net_label_op(labels: &mut Vec<NetLabel>, next_nlid: &mut u32, op: &NetLabelOp) -> (r:
    bool)
    ensures
        r == (tagged(lists::views(old(labels)@), *old(next_nlid), op@) is Some),
        r ==> (lists::views(final(labels)@), *final(next_nlid)) == tagged(
            lists::views(old(labels)@),
            *old(next_nlid),
            op@,
        )->0,
        !r ==> *final(labels) == *old(labels) && *final(next_nlid) == *old(next_nlid),
{
    let ghost tags = lists::views(labels@);
    let ghost before = labels@;
    proof {
        assert(tag_ids(tags) =~= lists::keys(before));
    }
    match op {
        NetLabelOp::Add { x, y, name } => {
            if norm_net_label_point(*x, *y).is_none() {
                return false;
            }
            if labels.len() >= MAX_NET_LABELS {
                return false;
            }
            if point_taken(labels, *x, *y, None) {
                return false;
            }
            let nlid: u32 = take_number(next_nlid);
            let name: String = name_or_number(name, MAX_NET_LABEL_NAME, "NET ", nlid);
            let label: NetLabel = NetLabel { nlid, x: *x, y: *y, name };
            labels.push(label);
            proof {
                assert(lists::views(labels@) =~= tags.push(label@));
            }
            true
        },
        NetLabelOp::Remove { nlid } => {
            proof {
                let p = lists::keyed_otherwise::<NetLabel>(*nlid);
                let q = |t: Tag| t.nlid != *nlid;
                assert forall|e: NetLabel| #[trigger] p(e) == q(e@) by {}
                lists::lemma_views_of_filter(before, p, q);
            }
            remove_all(labels, *nlid)
        },
        NetLabelOp::Move { nlid, x, y } => {
            if norm_net_label_point(*x, *y).is_none() {
                return false;
            }
            if point_taken(labels, *x, *y, Some(*nlid)) {
                return false;
            }
            match find(labels, *nlid) {
                None => false,
                Some(i) => {
                    let moved: NetLabel = NetLabel {
                        nlid: labels[i].nlid,
                        x: *x,
                        y: *y,
                        name: labels[i].name.clone(),
                    };
                    labels.set(i, moved);
                    proof {
                        assert(lists::views(labels@) =~= tags.update(i as int, moved@));
                    }
                    true
                },
            }
        },
        NetLabelOp::Rename { nlid, name } => {
            let name: String = clean_net_label_name(name.as_str());
            if is_empty_text(name.as_str()) {
                return false;
            }
            match find(labels, *nlid) {
                None => false,
                Some(i) => {
                    let renamed: NetLabel = NetLabel {
                        nlid: labels[i].nlid,
                        x: labels[i].x,
                        y: labels[i].y,
                        name,
                    };
                    labels.set(i, renamed);
                    proof {
                        assert(lists::views(labels@) =~= tags.update(i as int, renamed@));
                    }
                    true
                },
            }
        },
    }
}

/// Labels by the rules: no more than the budget, the ids below the next number, every name
/// tidy, every label on the map, and no two on one point.
pub open spec fn by_the_rules(tags: Seq<Tag>, next: u32) -> bool {
    &&& tags.len() <= MAX_NET_LABELS
    &&& forall|i: int| 0 <= i < tags.len() ==> (#[trigger] tags[i]).nlid < next
    &&& forall|i: int|
        0 <= i < tags.len() ==> text::tidy((#[trigger] tags[i]).name, MAX_NET_LABEL_NAME as nat)
    &&& forall|i: int| 0 <= i < tags.len() ==> on_the_map((#[trigger] tags[i]).x, tags[i].y)
    &&& forall|i: int, j: int|
        0 <= i < j < tags.len() ==> !(#[trigger] tags[i].x == #[trigger] tags[j].x && tags[i].y
            == tags[j].y)
}

/// No two labels have the same id.
pub open spec fn ids_apart(tags: Seq<Tag>) -> bool {
    forall|i: int, j: int|
        0 <= i < j < tags.len() ==> #[trigger] tags[i].nlid != #[trigger] tags[j].nlid
}

/// What holds of a room's net labels at all times: they are by the rules, with ids apart.
pub open spec fn sound(tags: Seq<Tag>, next: u32) -> bool {
    by_the_rules(tags, next) && ids_apart(tags)
}

/// Every op that is taken keeps the labels sound, until the numbers run out.
pub proof fn law_ops_keep_labels_sound(tags: Seq<Tag>, next: u32, op: TagOp)
    requires
        sound(tags, next),
        tagged(tags, next, op) is Some,
        next < u32::MAX,
    ensures
        ({
            let after = tagged(tags, next, op)->0;
            sound(after.0, after.1)
        }),
{
    let (after, then) = tagged(tags, next, op)->0;
    match op {
        TagOp::Add { x, y, name } => {
            reveal_strlit("NET ");
            text::lemma_numbered_is_tidy("NET "@, next, MAX_NET_LABEL_NAME as nat);
            if name is Some {
                text::law_cleaning_twice_is_cleaning_once(name->0, MAX_NET_LABEL_NAME as nat);
            }
            assert forall|i: int| 0 <= i < tags.len() implies !((#[trigger] tags[i]).x == x
                && tags[i].y == y) by {
                if tags[i].x == x && tags[i].y == y {
                    assert(taken(tags, x, y, None));
                }
            }
        },
        TagOp::Remove { nlid } => {
            lemma_filter_keeps_tags_sound(tags, next, |t: Tag| t.nlid != nlid);
        },
        TagOp::Move { nlid, x, y } => {
            tag_ids(tags).index_of_first_ensures(nlid);
            let i = tag_at(tags, nlid)->0;
            assert(tag_ids(tags)[i] == tags[i].nlid);
            assert forall|j: int| 0 <= j < tags.len() && j != i implies !((#[trigger] tags[j]).x
                == x && tags[j].y == y) by {
                if j < i {
                    assert(tags[j].nlid != tags[i].nlid);
                } else {
                    assert(tags[i].nlid != tags[j].nlid);
                }
                if tags[j].x == x && tags[j].y == y {
                    assert(taken(tags, x, y, Some(nlid)));
                }
            }
        },
        TagOp::Rename { nlid, name } => {
            text::law_cleaning_twice_is_cleaning_once(name, MAX_NET_LABEL_NAME as nat);
            tag_ids(tags).index_of_first_ensures(nlid);
        },
    }
}

proof fn lemma_filter_keeps_tags_sound(tags: Seq<Tag>, next: u32, p: spec_fn(Tag) -> bool)
    requires
        sound(tags, next),
    ensures
        sound(tags.filter(p), next),
        forall|i: int|
            0 <= i < tags.filter(p).len() ==> tags.contains(#[trigger] tags.filter(p)[i]),
    decreases tags.len(),
{
    reveal(Seq::filter);
    if tags.len() > 0 {
        let d = tags.drop_last();
        assert forall|i: int| 0 <= i < d.len() implies d[i] == tags[i] by {}
        lemma_filter_keeps_tags_sound(d, next, p);
        let fd = d.filter(p);
        assert forall|i: int| 0 <= i < fd.len() implies tags.contains(#[trigger] fd[i])
            && fd[i].nlid != tags.last().nlid && !(fd[i].x == tags.last().x && fd[i].y
            == tags.last().y) by {
            let k = choose|k: int| 0 <= k < d.len() && d[k] == fd[i];
            assert(tags[k] == fd[i]);
            assert(tags[k].nlid != tags[tags.len() - 1].nlid);
            assert(!(tags[k].x == tags[tags.len() - 1].x && tags[k].y == tags[tags.len() - 1].y));
        }
        assert(tags[tags.len() - 1] == tags.last());
    }
}

/// A label from a file, as an op would have made it on a map with these; nothing where none
/// could have: it stands off the map or on another's point, or no number comes after its
/// own. One without a name gets one.
pub open spec fn restored(t: Tag, others: Seq<Tag>) -> Option<Tag> {
    if !on_the_map(t.x, t.y) || taken(others, t.x, t.y, None) || t.nlid == u32::MAX {
        None
    } else {
        Some(
            Tag {
                nlid: t.nlid,
                x: t.x,
                y: t.y,
                name: regions::given_name(
                    Some(t.name),
                    MAX_NET_LABEL_NAME as nat,
                    "NET "@,
                    t.nlid,
                ),
            },
        )
    }
}

/// The labels of a file that a room takes over, of the first `n`: of those on one point the
/// first, and as many as the budget allows, in order.
pub open spec fn taken_over(tags: Seq<Tag>, n: int) -> Seq<Tag>
    decreases n,
{
    if n <= 0 {
        Seq::empty()
    } else {
        let had = taken_over(tags, n - 1);
        match restored(tags[n - 1], had) {
            Some(t) => if had.len() < MAX_NET_LABELS {
                had.push(t)
            } else {
                had
            },
            None => had,
        }
    }
}

/// The labels of a file that a room takes over.
pub open spec fn reloaded(tags: Seq<Tag>) -> Seq<Tag> {
    taken_over(tags, tags.len() as int)
}

/// Takes the net labels of a file over; the counter is then past their numbers.
pub fn reload_net_labels(labels: &Vec<NetLabel>, next_nlid: u32) -> (r: (Vec<NetLabel>, u32))
    ensures
        lists::views(r.0@) == reloaded(lists::views(labels@)),
        r.1 == lists::past(tag_ids(lists::views(r.0@)), next_nlid),
        by_the_rules(lists::views(r.0@), r.1),
{
    let ghost tags = lists::views(labels@);
    let mut out: Vec<NetLabel> = Vec::new();
    let mut i: usize = 0;
    assert(lists::views(out@) =~= Seq::<Tag>::empty());
    while i < labels.len()
        invariant
            i <= labels@.len(),
            tags == lists::views(labels@),
            lists::views(out@) == taken_over(tags, i as int),
        decreases labels.len() - i,
    {
        assert(tags[i as int] == labels@[i as int]@);
        let l: &NetLabel = &labels[i];
        if norm_net_label_point(l.x, l.y).is_some() && l.nlid != u32::MAX && out.len()
            < MAX_NET_LABELS && !point_taken(&out, l.x, l.y, None) {
            let ghost had = out@;
            let given: Option<String> = Some(l.name.clone());
            let name: String = name_or_number(&given, MAX_NET_LABEL_NAME, "NET ", l.nlid);
            let label: NetLabel = NetLabel { nlid: l.nlid, x: l.x, y: l.y, name };
            out.push(label);
            assert(lists::views(out@) =~= lists::views(had).push(label@));
        }
        i += 1;
    }
    proof {
        law_reloaded_labels_are_by_the_rules(tags, next_nlid);
        assert(tag_ids(lists::views(out@)) =~= lists::keys(out@));
        assert forall|k: int| 0 <= k < out@.len() implies (#[trigger] out@[k]).key() < u32::MAX by {
            assert(lists::views(out@)[k].nlid == out@[k].nlid);
        }
    }
    let then: u32 = lists::count_past(&out, next_nlid);
    (out, then)
}

proof fn lemma_taken_over(tags: Seq<Tag>, n: int)
    requires
        0 <= n <= tags.len(),
    ensures
        taken_over(tags, n).len() <= MAX_NET_LABELS,
        by_the_rules(taken_over(tags, n), u32::MAX),
        forall|i: int|
            0 <= i < taken_over(tags, n).len() ==> exists|k: int|
                0 <= k < n && (#[trigger] tags[k]).nlid == (#[trigger] taken_over(tags, n)[i]).nlid,
        ids_apart(tags) ==> ids_apart(taken_over(tags, n)),
        taken_over(tags, n).len() < MAX_NET_LABELS ==> forall|k: int|
            0 <= k < n && on_the_map((#[trigger] tags[k]).x, tags[k].y) && tags[k].nlid < u32::MAX
                ==> taken(taken_over(tags, n), tags[k].x, tags[k].y, None),
    decreases n,
{
    if n > 0 {
        lemma_taken_over(tags, n - 1);
        let had = taken_over(tags, n - 1);
        let now = taken_over(tags, n);
        let t = tags[n - 1];
        reveal_strlit("NET ");
        text::lemma_numbered_is_tidy("NET "@, t.nlid, MAX_NET_LABEL_NAME as nat);
        text::law_cleaning_twice_is_cleaning_once(t.name, MAX_NET_LABEL_NAME as nat);
        if now.len() > had.len() {
            assert forall|i: int| 0 <= i < had.len() implies !((#[trigger] had[i]).x == t.x
                && had[i].y == t.y) by {
                if had[i].x == t.x && had[i].y == t.y {
                    assert(taken(had, t.x, t.y, None));
                }
            }
        }
        assert forall|i: int| 0 <= i < now.len() implies exists|k: int|
            0 <= k < n && (#[trigger] tags[k]).nlid == (#[trigger] now[i]).nlid by {
            if i < had.len() {
                assert(now[i] == had[i]);
                let k = choose|k: int|
                    0 <= k < n - 1 && (#[trigger] tags[k]).nlid == taken_over(tags, n - 1)[i].nlid;
                assert(tags[k].nlid == now[i].nlid);
            } else {
                assert(tags[n - 1].nlid == now[i].nlid);
            }
        }
        if ids_apart(tags) {
            assert forall|i: int, j: int| 0 <= i < j < now.len() implies #[trigger] now[i].nlid
                != #[trigger] now[j].nlid by {
                assert(now[i] == had[i]);
                if j < had.len() {
                    assert(now[j] == had[j]);
                } else {
                    let k = choose|k: int|
                        0 <= k < n - 1 && (#[trigger] tags[k]).nlid == taken_over(
                            tags,
                            n - 1,
                        )[i].nlid;
                    assert(tags[k].nlid != tags[n - 1].nlid);
                }
            }
        }
        if now.len() < MAX_NET_LABELS {
            assert forall|k: int|
                0 <= k < n && on_the_map((#[trigger] tags[k]).x, tags[k].y) && tags[k].nlid
                    < u32::MAX implies taken(now, tags[k].x, tags[k].y, None) by {
                if k == n - 1 && now.len() > had.len() {
                    assert(now[had.len() as int].x == t.x);
                } else {
                    assert(taken(had, tags[k].x, tags[k].y, None));
                    let i = choose|i: int|
                        0 <= i < had.len() && (#[trigger] had[i]).x == tags[k].x && had[i].y
                            == tags[k].y;
                    assert(now[i] == had[i]);
                }
            }
        }
    }
}

/// Whatever a file holds, the labels that a room takes over are by the rules, with the
/// counter past them, and sound where the file's ids are apart. Every point of the map that
/// the file names keeps a label, as long as the budget is not used up.
pub proof fn law_reloaded_labels_are_by_the_rules(tags: Seq<Tag>, next: u32)
    ensures
        ({
            let r = reloaded(tags);
            let then = lists::past(tag_ids(r), next);
            &&& by_the_rules(r, then)
            &&& ids_apart(tags) ==> sound(r, then)
            &&& forall|i: int| 0 <= i < r.len() ==> (#[trigger] r[i]).nlid < u32::MAX
            &&& r.len() < MAX_NET_LABELS ==> forall|k: int|
                0 <= k < tags.len() && on_the_map((#[trigger] tags[k]).x, tags[k].y)
                    && tags[k].nlid < u32::MAX ==> taken(r, tags[k].x, tags[k].y, None)
        }),
{
    let r = reloaded(tags);
    lemma_taken_over(tags, tags.len() as int);
    let ids = tag_ids(r);
    assert forall|i: int| 0 <= i < ids.len() implies #[trigger] ids[i] < u32::MAX by {
        assert(r[i].nlid == ids[i]);
    }
    lists::law_the_counter_is_past_them(ids, next);
    assert forall|i: int| 0 <= i < r.len() implies (#[trigger] r[i]).nlid < lists::past(ids, next) by {
        assert(ids[i] == r[i].nlid);
    }
}

/// Sound labels come back as they were, and so does their counter.
pub proof fn law_sound_labels_come_back(tags: Seq<Tag>, next: u32)
    requires
        by_the_rules(tags, next),
        next >= 1,
    ensures
        reloaded(tags) == tags,
        lists::past(tag_ids(tags), next) == next,
{
    lemma_all_are_taken_over(tags, next, tags.len() as int);
    assert(tags.take(tags.len() as int) =~= tags);
    let ids = tag_ids(tags);
    assert forall|i: int| 0 <= i < ids.len() implies #[trigger] ids[i] < next by {
        assert(tags[i].nlid == ids[i]);
    }
    lists::law_the_counter_is_past_them(ids, next);
}

proof fn lemma_all_are_taken_over(tags: Seq<Tag>, next: u32, n: int)
    requires
        by_the_rules(tags, next),
        0 <= n <= tags.len(),
    ensures
        taken_over(tags, n) == tags.take(n),
    decreases n,
{
    if n > 0 {
        lemma_all_are_taken_over(tags, next, n - 1);
        let had = tags.take(n - 1);
        let t = tags[n - 1];
        if taken(had, t.x, t.y, None) {
            let i = choose|i: int|
                0 <= i < had.len() && (#[trigger] had[i]).x == t.x && had[i].y == t.y;
            assert(tags[i].x == tags[n - 1].x && tags[i].y == tags[n - 1].y);
        }
        assert(t.nlid < next && text::tidy(t.name, MAX_NET_LABEL_NAME as nat));
        assert(restored(t, had) == Some(t));
        assert(tags.take(n) =~= had.push(t));
    } else {
        assert(tags.take(0) =~= Seq::<Tag>::empty());
    }
}

/// What a label shows of itself.
pub proof fn law_a_label_shows_all_of_itself(l: NetLabel, op: NetLabelOp)
    ensures
        l@.nlid == l.nlid && l@.x == l.x && l@.y == l.y && l@.name == l.name@,
        l.key() == l.nlid,
        match (op, op@) {
            (NetLabelOp::Add { x, y, name }, TagOp::Add { x: a, y: b, name: n }) => a == x && b == y
                && match (name, n) {
                (Some(s), Some(t)) => t == s@,
                (None, None) => true,
                _ => false,
            },
            (NetLabelOp::Remove { nlid }, TagOp::Remove { nlid: i }) => i == nlid,
            (NetLabelOp::Move { nlid, x, y }, TagOp::Move { nlid: i, x: a, y: b }) => i == nlid && a == x
                && b == y,
            (NetLabelOp::Rename { nlid, name }, TagOp::Rename { nlid: i, name: n }) => i == nlid && n
                == name@,
            _ => false,
        },
{
}

/// The label at this place is the first with this id.
pub open spec fn found(tags: Seq<Tag>, nlid: u32, i: int) -> bool {
    &&& 0 <= i < tags.len()
    &&& tags[i].nlid == nlid
    &&& forall|j: int| 0 <= j < i ==> (#[trigger] tags[j]).nlid != nlid
}

proof fn lemma_found(tags: Seq<Tag>, nlid: u32)
    ensures
        match tag_at(tags, nlid) {
            Some(i) => found(tags, nlid, i),
            None => forall|j: int| 0 <= j < tags.len() ==> (#[trigger] tags[j]).nlid != nlid,
        },
{
    let ids = tag_ids(tags);
    ids.index_of_first_ensures(nlid);
    assert forall|j: int| 0 <= j < tags.len() implies ids[j] == (#[trigger] tags[j]).nlid by {}
    match tag_at(tags, nlid) {
        Some(i) => {
            assert(ids[i] == tags[i].nlid);
        },
        None => {
            assert forall|j: int| 0 <= j < tags.len() implies (#[trigger] tags[j]).nlid != nlid by {
                assert(ids[j] != nlid);
            }
        },
    }
}

/// Every op on a label does what it says to that label, and to no other: an added one comes
/// last, with the next number, on the point that was named; a moved one keeps its number and
/// its name; a renamed one stays where it is. Or it is refused: the point is off the map or
/// another label's, there are 64 already, there is no such label, or nothing of the name can
/// be read.
pub open spec fn label_op_done(
    tags: Seq<Tag>,
    next: u32,
    op: TagOp,
    done: Option<(Seq<Tag>, u32)>,
) -> bool {
    match (op, done) {
        (TagOp::Add { x, y, name }, Some((after, then))) => {
            &&& after.len() == tags.len() + 1
            &&& forall|j: int| 0 <= j < tags.len() ==> #[trigger] after[j] == tags[j]
            &&& after.last().nlid == next
            &&& after.last().x == x
            &&& after.last().y == y
            &&& regions::named_as(name, 24, "NET "@, next, after.last().name)
            &&& next < u32::MAX ==> then == next + 1
        },
        (TagOp::Add { x, y, .. }, None) => {
            ||| !(-1_000_000_000 <= x <= 1_000_000_000) || !(-1_000_000_000 <= y <= 1_000_000_000)
            ||| tags.len() >= 64
            ||| exists|j: int|
                0 <= j < tags.len() && (#[trigger] tags[j]).x == x && tags[j].y == y
        },
        (TagOp::Remove { nlid }, Some((after, then))) => {
            &&& lists::sifted(tags, after, |t: Tag| t.nlid == nlid)
            &&& after.len() < tags.len()
            &&& then == next
        },
        (TagOp::Remove { nlid }, None) => forall|j: int|
            0 <= j < tags.len() ==> (#[trigger] tags[j]).nlid != nlid,
        (TagOp::Move { nlid, x, y }, Some((after, then))) => then == next && exists|i: int|
            #[trigger] found(tags, nlid, i) && lists::same_but_at(tags, after, i) && after[i].nlid
                == nlid && after[i].x == x && after[i].y == y && after[i].name == tags[i].name,
        (TagOp::Move { nlid, x, y }, None) => {
            ||| !(-1_000_000_000 <= x <= 1_000_000_000) || !(-1_000_000_000 <= y <= 1_000_000_000)
            ||| forall|j: int| 0 <= j < tags.len() ==> (#[trigger] tags[j]).nlid != nlid
            ||| exists|j: int|
                0 <= j < tags.len() && (#[trigger] tags[j]).x == x && tags[j].y == y
                    && tags[j].nlid != nlid
        },
        (TagOp::Rename { nlid, name }, Some((after, then))) => then == next && exists|i: int|
            #[trigger] found(tags, nlid, i) && lists::same_but_at(tags, after, i) && after[i].nlid
                == nlid && after[i].x == tags[i].x && after[i].y == tags[i].y && text::reads_as(
                name,
                24,
                after[i].name,
            ) && after[i].name.len() > 0,
        (TagOp::Rename { nlid, name }, None) => text::reads_as(name, 24, Seq::empty()) || forall|
            j: int,
        | 0 <= j < tags.len() ==> (#[trigger] tags[j]).nlid != nlid,
    }
}

/// Every op does what it says, or is refused.
pub proof fn law_an_op_changes_its_own_label(tags: Seq<Tag>, next: u32, op: TagOp)
    ensures
        label_op_done(tags, next, op, tagged(tags, next, op)),
{
    match op {
        TagOp::Add { x, y, name } => {
            regions::law_a_name_is_what_was_given(name, 24, "NET "@, next);
        },
        TagOp::Remove { nlid } => {
            lemma_found(tags, nlid);
            let p = |t: Tag| t.nlid != nlid;
            lists::lemma_filter_sifts(tags, p, |t: Tag| t.nlid == nlid);
            lists::lemma_filter_all(tags, p);
            if let Some(i) = tag_at(tags, nlid) {
                assert(!p(tags[i]));
            }
        },
        TagOp::Move { nlid, .. } => {
            lemma_found(tags, nlid);
            if let Some(i) = tag_at(tags, nlid) {
                assert(found(tags, nlid, i));
            }
        },
        TagOp::Rename { nlid, name } => {
            lemma_found(tags, nlid);
            text::law_a_clean_text_reads_as_it_was_written(name, 24);
            if text::cleaned(name, 24).len() == 0 {
                assert(text::cleaned(name, 24) =~= Seq::<char>::empty());
            }
            if let Some(i) = tag_at(tags, nlid) {
                assert(found(tags, nlid, i));
            }
        },
    }
}

/// A label that is added stands on no other label's point, and one that is moved stands on
/// none but its own.
pub proof fn law_no_label_is_put_on_another(tags: Seq<Tag>, next: u32, op: TagOp, j: int)
    requires
        0 <= j < tags.len(),
        tagged(tags, next, op) is Some,
    ensures
        op matches TagOp::Add { x, y, .. } ==> !(tags[j].x == x && tags[j].y == y),
        op matches TagOp::Move { nlid, x, y } ==> tags[j].nlid == nlid || !(tags[j].x == x
            && tags[j].y == y),
{
}

/// A label of a file comes in as it is: its number, its point, and its name as far as it can
/// be read. It stays out only where it is off the map, where a label that came in stands on
/// its point, or where no number comes after its own.
pub proof fn law_a_label_of_a_file_comes_in_as_it_is(t: Tag, others: Seq<Tag>)
    ensures
        match restored(t, others) {
            Some(r) => {
                &&& r.nlid == t.nlid
                &&& r.x == t.x
                &&& r.y == t.y
                &&& regions::named_as(Some(t.name), 24, "NET "@, t.nlid, r.name)
            },
            None => {
                ||| t.nlid == u32::MAX
                ||| !(-1_000_000_000 <= t.x <= 1_000_000_000) || !(-1_000_000_000 <= t.y
                    <= 1_000_000_000)
                ||| exists|j: int|
                    0 <= j < others.len() && (#[trigger] others[j]).x == t.x && others[j].y == t.y
            },
        },
{
    regions::law_a_name_is_what_was_given(Some(t.name), 24, "NET "@, t.nlid);
}

/// A file's labels come in one by one, in order, while there is room.
pub proof fn law_a_files_labels_come_in_order(tags: Seq<Tag>, n: int)
    requires
        0 < n <= tags.len(),
    ensures
        ({
            let (had, now) = (taken_over(tags, n - 1), taken_over(tags, n));
            match restored(tags[n - 1], had) {
                Some(t) => if had.len() < 64 {
                    lists::one_more(had, now, t)
                } else {
                    now == had
                },
                None => now == had,
            }
        }),
        taken_over(tags, 0).len() == 0,
        reloaded(tags) == taken_over(tags, tags.len() as int),
{
}

} // verus!
