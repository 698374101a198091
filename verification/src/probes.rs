//! Probes: what a room measures, and on which parts.
use vstd::prelude::*;

use crate::lists::{self, Keyed};
use crate::netlabels::{NetLabel, Tag};

verus! {

/// How many probes a room may hold.
pub const MAX_PROBES: usize = 8;

/// What a probe reads.
#[derive(Clone, Copy, Debug, PartialEq, Eq, Structural)]
pub enum ProbeKind {
    V,
    I,
}

/// A probe on a pin. `r` is the point a voltage is taken against; none is ground.
#[derive(Clone, Copy, Debug, PartialEq, Eq)]
pub struct Probe {
    pub pid: u32,
    pub elem: u32,
    pub pin: usize,
    pub kind: ProbeKind,
    pub r: Option<(u32, usize)>,
}

/// A probe, as a save file holds it.
#[derive(Clone, Copy, Debug, PartialEq, Eq)]
pub struct SavedProbe {
    pub pid: u32,
    pub elem: u32,
    pub pin: usize,
    pub kind: ProbeKind,
    pub r: Option<(u32, usize)>,
}

impl Keyed for Probe {
    open spec fn key(&self) -> u32 {
        self.pid
    }

    fn key_of(&self) -> (k: u32) {
        self.pid
    }
}

/// A saved probe, back in the room.
pub open spec fn restored(p: SavedProbe) -> Probe {
    Probe { pid: p.pid, elem: p.elem, pin: p.pin, kind: p.kind, r: p.r }
}

/// A probe, as a save file holds it.
pub open spec fn stored(p: Probe) -> SavedProbe {
    SavedProbe { pid: p.pid, elem: p.elem, pin: p.pin, kind: p.kind, r: p.r }
}

impl Probe {
    /// A probe out of a save file.
    pub fn from_saved(p: &SavedProbe) -> (r: Probe)
        ensures
            r == restored(*p),
    {
        Probe { pid: p.pid, elem: p.elem, pin: p.pin, kind: p.kind, r: p.r }
    }

    /// The probe for a save file.
    pub fn saved(&self) -> (r: SavedProbe)
        ensures
            r == stored(*self),
    {
        SavedProbe { pid: self.pid, elem: self.elem, pin: self.pin, kind: self.kind, r: self.r }
    }
}

/// A probe survives a save file unchanged, and a save file's probe survives a room.
pub proof fn law_probes_survive_saving(p: Probe, s: SavedProbe)
    ensures
        restored(stored(p)) == p,
        stored(restored(s)) == s,
{
}

/// The probes of a room, for a save file.
pub fn save_probes(probes: &Vec<Probe>) -> (r: Vec<SavedProbe>)
    ensures
        r@ == probes@.map_values(|p: Probe| stored(p)),
{
    let mut out: Vec<SavedProbe> = Vec::new();
    let mut i: usize = 0;
    while i < probes.len()
        invariant
            i <= probes@.len(),
            out@ == probes@.take(i as int).map_values(|p: Probe| stored(p)),
        decreases probes.len() - i,
    {
        out.push(probes[i].saved());
        i += 1;
        proof {
            assert(out@ =~= probes@.take(i as int).map_values(|p: Probe| stored(p)));
        }
    }
    proof {
        assert(probes@.take(probes@.len() as int) =~= probes@);
    }
    out
}

/// The probes of a save file, back in a room.
pub fn load_probes(saved: &Vec<SavedProbe>) -> (r: Vec<Probe>)
    ensures
        r@ == saved@.map_values(|p: SavedProbe| restored(p)),
{
    let mut out: Vec<Probe> = Vec::new();
    let mut i: usize = 0;
    while i < saved.len()
        invariant
            i <= saved@.len(),
            out@ == saved@.take(i as int).map_values(|p: SavedProbe| restored(p)),
        decreases saved.len() - i,
    {
        out.push(Probe::from_saved(&saved[i]));
        i += 1;
        proof {
            assert(out@ =~= saved@.take(i as int).map_values(|p: SavedProbe| restored(p)));
        }
    }
    proof {
        assert(saved@.take(saved@.len() as int) =~= saved@);
    }
    out
}

/// What reading a probe takes.
#[derive(Clone, Copy, Debug, PartialEq, Eq)]
pub enum ProbeRead {
    /// The voltage at a pin, less the one at the reference where there is one.
    Voltage { elem: u32, pin: usize, minus: Option<(u32, usize)> },
    /// The current into a pin, out of the whole frame: a wire's is known only there.
    FrameCurrent { elem: u32, pin: usize },
    /// The current into a pin.
    Current { elem: u32, pin: usize },
}

/// Whether some probe reads a wire's current. `wires` says of each probe whether it sits
/// on a wire.
pub fn needs_frame(probes: &Vec<Probe>, wires: &Vec<bool>) -> (r: bool)
    requires
        wires@.len() == probes@.len(),
    ensures
        r == exists|i: int|
            0 <= i < probes@.len() && (#[trigger] probes@[i]).kind == ProbeKind::I && wires@[i],
{
    let mut i: usize = 0;
    while i < probes.len()
        invariant
            i <= probes@.len(),
            wires@.len() == probes@.len(),
            forall|k: int|
                0 <= k < i ==> !((#[trigger] probes@[k]).kind == ProbeKind::I && wires@[k]),
        decreases probes.len() - i,
    {
        if probes[i].kind == ProbeKind::I && wires[i] {
            assert(probes@[i as int].kind == ProbeKind::I);
            return true;
        }
        i += 1;
    }
    false
}

/// What reading a probe takes, with or without the frame at hand.
pub open spec fn read_of(p: Probe, frame: bool) -> ProbeRead {
    match p.kind {
        ProbeKind::V => ProbeRead::Voltage { elem: p.elem, pin: p.pin, minus: p.r },
        ProbeKind::I => if frame {
            ProbeRead::FrameCurrent { elem: p.elem, pin: p.pin }
        } else {
            ProbeRead::Current { elem: p.elem, pin: p.pin }
        },
    }
}

/// What sampling the probes takes, in order.
pub fn sample_probes(probes: &Vec<Probe>, wires: &Vec<bool>) -> (r: Vec<ProbeRead>)
    requires
        wires@.len() == probes@.len(),
    ensures
        r@ == Seq::new(
            probes@.len(),
            |i: int|
                read_of(
                    probes@[i],
                    exists|k: int|
                        0 <= k < probes@.len() && (#[trigger] probes@[k]).kind == ProbeKind::I
                            && wires@[k],
                ),
        ),
{
    let frame: bool = needs_frame(probes, wires);
    let mut out: Vec<ProbeRead> = Vec::new();
    let mut i: usize = 0;
    while i < probes.len()
        invariant
            i <= probes@.len(),
            out@ == Seq::new(i as nat, |k: int| read_of(probes@[k], frame)),
        decreases probes.len() - i,
    {
        let p: Probe = probes[i];
        let read: ProbeRead = match p.kind {
            ProbeKind::V => ProbeRead::Voltage { elem: p.elem, pin: p.pin, minus: p.r },
            ProbeKind::I => if frame {
                ProbeRead::FrameCurrent { elem: p.elem, pin: p.pin }
            } else {
                ProbeRead::Current { elem: p.elem, pin: p.pin }
            },
        };
        out.push(read);
        i += 1;
        proof {
            assert(out@ =~= Seq::new(i as nat, |k: int| read_of(probes@[k], frame)));
        }
    }
    out
}

/// A probe and the net label whose name it shows.
#[derive(Clone, Copy, Debug, PartialEq, Eq, Structural)]
pub struct ProbeName {
    pub pid: u32,
    pub nlid: u32,
}

/// Which labels name a net, and which probe shows which of them.
#[derive(Clone, Debug)]
pub struct NetMap {
    pub live: Vec<u32>,
    pub probes: Vec<ProbeName>,
}

/// The first label stands before the second in reading order.
pub open spec fn reads_before(a: Tag, b: Tag) -> bool {
    a.y < b.y || (a.y == b.y && a.x < b.x)
}

/// The label whose name a net shows, of the first `n`: the lowest row, then the lowest
/// column, then the one that is older in the list.
pub open spec fn name_of_net(
    tags: Seq<Tag>,
    nodes: Seq<Option<u64>>,
    node: u64,
    n: int,
) -> Option<int>
    decreases n,
{
    if n <= 0 {
        None
    } else {
        let best = name_of_net(tags, nodes, node, n - 1);
        if nodes[n - 1] != Some(node) {
            best
        } else if best is Some && !reads_before(tags[n - 1], tags[best->0]) {
            best
        } else {
            Some(n - 1)
        }
    }
}

/// The labels, of the first `n`, that name a net, in order.
pub open spec fn live_labels(tags: Seq<Tag>, nodes: Seq<Option<u64>>, n: int) -> Seq<u32>
    decreases n,
{
    if n <= 0 {
        Seq::empty()
    } else if nodes[n - 1] is Some {
        live_labels(tags, nodes, n - 1).push(tags[n - 1].nlid)
    } else {
        live_labels(tags, nodes, n - 1)
    }
}

/// The names that the first `n` probes show, in order.
pub open spec fn shown_names(
    tags: Seq<Tag>,
    nodes: Seq<Option<u64>>,
    probes: Seq<Probe>,
    pins: Seq<Option<u64>>,
    n: int,
) -> Seq<ProbeName>
    decreases n,
{
    if n <= 0 {
        Seq::empty()
    } else {
        let before = shown_names(tags, nodes, probes, pins, n - 1);
        match pins[n - 1] {
            None => before,
            Some(node) => match name_of_net(tags, nodes, node, tags.len() as int) {
                None => before,
                Some(i) => before.push(
                    ProbeName { pid: probes[n - 1].pid, nlid: tags[i].nlid },
                ),
            },
        }
    }
}

/// Which net each label and each probe is on, as a read-out. `nodes` are the nets under
/// the labels, `pins` the nets under the probes; none is no net.
pub fn derive_net_map(
    labels: &Vec<NetLabel>,
    nodes: &Vec<Option<u64>>,
    probes: &Vec<Probe>,
    pins: &Vec<Option<u64>>,
) -> (r: NetMap)
    requires
        nodes@.len() == labels@.len(),
        pins@.len() == probes@.len(),
    ensures
        r.live@ == live_labels(lists::views(labels@), nodes@, labels@.len() as int),
        r.probes@ == shown_names(
            lists::views(labels@),
            nodes@,
            probes@,
            pins@,
            probes@.len() as int,
        ),
{
    let ghost tags = lists::views(labels@);
    let mut live: Vec<u32> = Vec::new();
    let mut i: usize = 0;
    while i < labels.len()
        invariant
            i <= labels@.len(),
            nodes@.len() == labels@.len(),
            tags == lists::views(labels@),
            live@ == live_labels(tags, nodes@, i as int),
        decreases labels.len() - i,
    {
        proof {
            assert(tags[i as int] == labels@[i as int]@);
        }
        if nodes[i].is_some() {
            live.push(labels[i].nlid);
        }
        i += 1;
    }
    let mut names: Vec<ProbeName> = Vec::new();
    let mut k: usize = 0;
    while k < probes.len()
        invariant
            k <= probes@.len(),
            nodes@.len() == labels@.len(),
            pins@.len() == probes@.len(),
            tags == lists::views(labels@),
            names@ == shown_names(tags, nodes@, probes@, pins@, k as int),
        decreases probes.len() - k,
    {
        if let Some(node) = pins[k] {
            if let Some(at) = label_of_net(labels, nodes, node) {
                proof {
                    assert(tags[at as int] == labels@[at as int]@);
                }
                names.push(ProbeName { pid: probes[k].pid, nlid: labels[at].nlid });
            }
        }
        k += 1;
    }
    NetMap { live, probes: names }
}

/// The label whose name a net shows.
fn label_of_net(labels: &Vec<NetLabel>, nodes: &Vec<Option<u64>>, node: u64) -> (r: Option<usize>)
    requires
        nodes@.len() == labels@.len(),
    ensures
        match r {
            Some(i) => i < labels@.len() && name_of_net(
                lists::views(labels@),
                nodes@,
                node,
                labels@.len() as int,
            ) == Some(i as int),
            None => name_of_net(lists::views(labels@), nodes@, node, labels@.len() as int) is None,
        },
{
    let ghost tags = lists::views(labels@);
    let mut best: Option<usize> = None;
    let mut i: usize = 0;
    while i < labels.len()
        invariant
            i <= labels@.len(),
            nodes@.len() == labels@.len(),
            tags == lists::views(labels@),
            match best {
                Some(k) => k < i && name_of_net(tags, nodes@, node, i as int) == Some(k as int),
                None => name_of_net(tags, nodes@, node, i as int) is None,
            },
        decreases labels.len() - i,
    {
        let here: bool = match nodes[i] {
            Some(n) => n == node,
            None => false,
        };
        proof {
            assert(tags[i as int] == labels@[i as int]@);
        }
        if here {
            let first: bool = match best {
                None => true,
                Some(k) => {
                    proof {
                        assert(tags[k as int] == labels@[k as int]@);
                    }
                    labels[i].y < labels[k].y || (labels[i].y == labels[k].y && labels[i].x
                        < labels[k].x)
                },
            };
            if first {
                best = Some(i);
            }
        }
        i += 1;
    }
    best
}

/// A net with two names shows one of its own, and no other label of that net stands
/// before it: everybody sees the same name.
pub proof fn law_one_name_per_net(tags: Seq<Tag>, nodes: Seq<Option<u64>>, node: u64)
    requires
        nodes.len() == tags.len(),
    ensures
        match name_of_net(tags, nodes, node, tags.len() as int) {
            Some(i) => 0 <= i < tags.len() && nodes[i] == Some(node) && forall|j: int|
                0 <= j < tags.len() && #[trigger] nodes[j] == Some(node) ==> !reads_before(
                    tags[j],
                    tags[i],
                ),
            None => forall|j: int| 0 <= j < tags.len() ==> #[trigger] nodes[j] != Some(node),
        },
{
    lemma_one_name_of(tags, nodes, node, tags.len() as int);
}

proof fn lemma_one_name_of(tags: Seq<Tag>, nodes: Seq<Option<u64>>, node: u64, n: int)
    requires
        nodes.len() == tags.len(),
        0 <= n <= tags.len(),
    ensures
        match name_of_net(tags, nodes, node, n) {
            Some(i) => 0 <= i < n && nodes[i] == Some(node) && forall|j: int|
                0 <= j < n && #[trigger] nodes[j] == Some(node) ==> !reads_before(tags[j], tags[i]),
            None => forall|j: int| 0 <= j < n ==> #[trigger] nodes[j] != Some(node),
        },
    decreases n,
{
    if n > 0 {
        lemma_one_name_of(tags, nodes, node, n - 1);
    }
}

/// The elements that somebody watches faster than the tick: those under a probe or its
/// reference, and the speakers that are heard.
pub open spec fn watched_by(probes: Seq<Probe>, n: int) -> Seq<u32>
    decreases n,
{
    if n <= 0 {
        Seq::empty()
    } else {
        let before = watched_by(probes, n - 1).push(probes[n - 1].elem);
        match probes[n - 1].r {
            Some(r) => before.push(r.0),
            None => before,
        }
    }
}

/// The elements that somebody watches faster than the tick.
pub fn watched(probes: &Vec<Probe>, taps: &Vec<u32>) -> (r: Vec<u32>)
    ensures
        r@ == watched_by(probes@, probes@.len() as int) + taps@,
{
    let mut out: Vec<u32> = Vec::new();
    let mut i: usize = 0;
    while i < probes.len()
        invariant
            i <= probes@.len(),
            out@ == watched_by(probes@, i as int),
        decreases probes.len() - i,
    {
        out.push(probes[i].elem);
        if let Some(r) = probes[i].r {
            out.push(r.0);
        }
        i += 1;
    }
    let ghost all = out@;
    let mut k: usize = 0;
    assert(all + taps@.take(0) =~= all);
    while k < taps.len()
        invariant
            k <= taps@.len(),
            out@ == all + taps@.take(k as int),
        decreases taps.len() - k,
    {
        out.push(taps[k]);
        k += 1;
        proof {
            assert(out@ =~= all + taps@.take(k as int));
        }
    }
    proof {
        assert(taps@.take(taps@.len() as int) =~= taps@);
    }
    out
}

/// A saved probe has every value of the probe, and a probe that was loaded every value of the
/// saved one.
pub proof fn law_a_saved_probe_is_the_probe(p: Probe, s: SavedProbe)
    ensures
        stored(p).pid == p.pid && stored(p).elem == p.elem && stored(p).pin == p.pin,
        stored(p).kind == p.kind && stored(p).r == p.r,
        restored(s).pid == s.pid && restored(s).elem == s.elem && restored(s).pin == s.pin,
        restored(s).kind == s.kind && restored(s).r == s.r,
{
}

/// A voltage is read at the probe's own pin and against its own reference; a current into the
/// probe's own pin, out of the frame where there is one.
pub proof fn law_a_probe_reads_its_own_pin(p: Probe, frame: bool)
    ensures
        p.kind is V ==> (read_of(p, frame) matches ProbeRead::Voltage { elem, pin, minus } && elem
            == p.elem && pin == p.pin && minus == p.r),
        p.kind is I && frame ==> (read_of(p, frame) matches ProbeRead::FrameCurrent { elem, pin }
            && elem == p.elem && pin == p.pin),
        p.kind is I && !frame ==> (read_of(p, frame) matches ProbeRead::Current { elem, pin } && elem
            == p.elem && pin == p.pin),
{
}

/// Labels are read row by row, and each row from its start.
pub proof fn law_labels_are_read_row_by_row(a: Tag, b: Tag)
    ensures
        a.y < b.y ==> reads_before(a, b) && !reads_before(b, a),
        a.y == b.y && a.x < b.x ==> reads_before(a, b) && !reads_before(b, a),
        a.y == b.y && a.x == b.x ==> !reads_before(a, b) && !reads_before(b, a),
{
}

/// Of the labels of a net that stand on one point, the oldest names the net.
pub proof fn law_the_oldest_label_names_the_net(
    tags: Seq<Tag>,
    nodes: Seq<Option<u64>>,
    node: u64,
    n: int,
    j: int,
)
    requires
        nodes.len() == tags.len(),
        0 <= j < n <= tags.len(),
        nodes[j] == Some(node),
    ensures
        name_of_net(tags, nodes, node, n) matches Some(i) && (i <= j || reads_before(tags[i], tags[j])),
    decreases n,
{
    lemma_one_name_of(tags, nodes, node, n - 1);
    if j < n - 1 {
        law_the_oldest_label_names_the_net(tags, nodes, node, n - 1, j);
    }
}

/// A label is live where there is a net under it: the live labels are those, in order.
pub proof fn law_a_label_on_a_net_is_live(tags: Seq<Tag>, nodes: Seq<Option<u64>>, n: int)
    requires
        0 < n <= tags.len(),
        nodes.len() == tags.len(),
    ensures
        nodes[n - 1] is Some ==> lists::one_more(
            live_labels(tags, nodes, n - 1),
            live_labels(tags, nodes, n),
            tags[n - 1].nlid,
        ),
        nodes[n - 1] is None ==> live_labels(tags, nodes, n) == live_labels(tags, nodes, n - 1),
        live_labels(tags, nodes, 0).len() == 0,
{
}

/// A probe shows the name of the net under it, where that net has one: its own number goes with
/// the label's. The probes are in order.
pub proof fn law_a_probe_shows_the_name_of_its_net(
    tags: Seq<Tag>,
    nodes: Seq<Option<u64>>,
    probes: Seq<Probe>,
    pins: Seq<Option<u64>>,
    n: int,
)
    requires
        0 < n <= probes.len(),
        pins.len() == probes.len(),
        nodes.len() == tags.len(),
    ensures
        ({
            let (had, now) = (
                shown_names(tags, nodes, probes, pins, n - 1),
                shown_names(tags, nodes, probes, pins, n),
            );
            ||| {
                &&& now == had
                &&& pins[n - 1] is None || forall|i: int|
                    0 <= i < nodes.len() ==> #[trigger] nodes[i] != pins[n - 1]
            }
            ||| {
                &&& now.len() == had.len() + 1
                &&& forall|k: int| 0 <= k < had.len() ==> #[trigger] now[k] == had[k]
                &&& now.last().pid == probes[n - 1].pid
                &&& exists|i: int|
                    0 <= i < tags.len() && (#[trigger] tags[i]).nlid == now.last().nlid && nodes[i]
                        == pins[n - 1] && forall|j: int|
                        0 <= j < tags.len() && #[trigger] nodes[j] == pins[n - 1] ==> !reads_before(
                            tags[j],
                            tags[i],
                        )
            }
        }),
        shown_names(tags, nodes, probes, pins, 0).len() == 0,
{
    if let Some(node) = pins[n - 1] {
        law_one_name_per_net(tags, nodes, node);
        if let Some(i) = name_of_net(tags, nodes, node, tags.len() as int) {
            assert(tags[i].nlid == shown_names(tags, nodes, probes, pins, n).last().nlid);
        }
    }
}

/// What is watched is what is under a probe or under its reference.
pub proof fn law_what_is_probed_is_watched(probes: Seq<Probe>, n: int, id: u32)
    requires
        0 <= n <= probes.len(),
    ensures
        watched_by(probes, n).contains(id) <==> exists|i: int|
            0 <= i < n && ((#[trigger] probes[i]).elem == id || (probes[i].r matches Some(r) && r.0
                == id)),
    decreases n,
{
    if n > 0 {
        law_what_is_probed_is_watched(probes, n - 1, id);
        let (had, now) = (watched_by(probes, n - 1), watched_by(probes, n));
        let p = probes[n - 1];
        if had.contains(id) {
            let k = choose|k: int| 0 <= k < had.len() && had[k] == id;
            assert(now[k] == id);
            let i = choose|i: int|
                0 <= i < n - 1 && ((#[trigger] probes[i]).elem == id || (probes[i].r matches Some(r) && r.0
                    == id));
            assert(probes[i].elem == id || probes[i].r is Some);
        }
        if p.elem == id {
            assert(now[had.len() as int] == id);
        }
        if let Some(r) = p.r {
            if r.0 == id {
                assert(now[had.len() as int + 1] == id);
            }
        }
        if now.contains(id) {
            let k = choose|k: int| 0 <= k < now.len() && now[k] == id;
            if k < had.len() {
                assert(had[k] == id);
            } else {
                assert(probes[n - 1].elem == id || probes[n - 1].r is Some);
            }
        }
    }
}

} // verus!
