//! One room of the server: its document, who it is, and whether it runs.
use vstd::prelude::*;

use std::collections::VecDeque;

use crate::chat::ChatLine;
use crate::fixture::{self, ensure_fixture};
use crate::lists::{self, copy_all};
use crate::parts::{ElementSpec, Part};
use crate::probes::{self, load_probes, save_probes, SavedProbe};
use crate::room::Room;
use crate::save::{self, start_count, MachineSpec, RoomSetup, SaveFile, SAVE_VERSION};
use crate::regions;
use crate::scopes::{Instrument, Scope, MAX_SCOPES};
use crate::sensors::Claim;

verus! {

/// Who a room is. The template says where the room came from and nothing more.
#[derive(Clone, Debug)]
pub struct RoomMeta {
    pub id: String,
    pub name: String,
    pub template: String,
    /// When the room was made, in seconds.
    pub created: u64,
    /// When somebody last came or went, in seconds.
    pub played: u64,
}

/// Who a room is, as a model.
pub struct Identity {
    pub id: Seq<char>,
    pub name: Seq<char>,
    pub template: Seq<char>,
    pub created: u64,
    pub played: u64,
}

impl View for RoomMeta {
    type V = Identity;

    open spec fn view(&self) -> Identity {
        Identity {
            id: self.id@,
            name: self.name@,
            template: self.template@,
            created: self.created,
            played: self.played,
        }
    }
}

/// Whether a room runs.
#[derive(Clone, Copy, Debug, PartialEq, Eq, Structural)]
pub enum Life {
    Live,
    Parked,
    Gone,
}

/// What a parked room keeps of its sim task.
pub struct Parked<H, D> {
    pub machine: MachineSpec<H>,
    pub damage: D,
}

/// A room of the server.
pub struct RoomHandle<H, D, W> {
    pub room: Room,
    pub meta: RoomMeta,
    pub view: W,
    /// The machine as it was last heard of.
    pub machine: MachineSpec<H>,
    /// Whether the room has a machine at all.
    pub has_machine: bool,
    pub life: Life,
    pub parked: Option<Parked<H, D>>,
    /// The room was deleted: nothing more is written of it.
    pub deleted: bool,
}

/// A copy of a copy.
pub open spec fn copied_twice<T: Clone>(a: T, b: T) -> bool {
    exists|m: T| #[trigger] cloned(a, m) && cloned(m, b)
}

/// The room's document and instruments are those of the setup.
pub open spec fn holds<H, D, W>(room: Room, s: RoomSetup<H, D, W>) -> bool {
    &&& lists::views(s.elements@) == lists::views(room.elements@)
    &&& s.probes@ == room.probes@.map_values(|p: probes::Probe| probes::stored(p))
    &&& lists::views(s.panels@) == lists::views(room.panels@)
    &&& save::bench(s.scopes) == Some(lists::views(room.scopes@))
    &&& lists::views(s.label_boxes@) == lists::views(room.label_boxes@)
    &&& lists::views(s.net_labels@) == lists::views(room.net_labels@)
    &&& lists::views(s.layers@) == lists::views(room.layers@)
    &&& s.next_pid == room.next_pid
    &&& s.next_plid == room.next_plid
    &&& s.next_sid == room.next_sid
    &&& s.next_blid == room.next_blid
    &&& s.next_nlid == room.next_nlid
    &&& s.next_lid == room.next_lid
}

/// The file holds the room, with its identity, this machine and this damage.
pub open spec fn snapshot_of<H: Default, D: Clone, W: Clone>(
    h: RoomHandle<H, D, W>,
    machine: MachineSpec<H>,
    damage: D,
    f: SaveFile<H, D, W>,
) -> bool {
    &&& f.v == SAVE_VERSION
    &&& f.kind@ == "room"@
    &&& f.id@ == h.meta.id@
    &&& f.name@ == h.meta.name@
    &&& f.blurb@.len() == 0
    &&& f.template@ == h.meta.template@
    &&& f.created == h.meta.created
    &&& f.played == h.meta.played
    &&& lists::views(f.elements@) == lists::views(h.room.elements@)
    &&& f.probes@ == h.room.probes@.map_values(|p: probes::Probe| probes::stored(p))
    &&& lists::views(f.panels@) == lists::views(h.room.panels@)
    &&& save::bench(f.scopes) == Some(lists::views(h.room.scopes@))
    &&& lists::views(f.labelboxes@) == lists::views(h.room.label_boxes@)
    &&& lists::views(f.netlabels@) == lists::views(h.room.net_labels@)
    &&& lists::views(f.layers@) == lists::views(h.room.layers@)
    &&& f.next_pid == h.room.next_pid
    &&& f.next_plid == h.room.next_plid
    &&& f.next_sid == h.room.next_sid
    &&& f.next_blid == h.room.next_blid
    &&& f.next_nlid == h.room.next_nlid
    &&& f.next_lid == h.room.next_lid
    &&& f.machine == Some(machine)
    &&& save::mirrors(machine, f.hoist, f.hoist_rect@)
    &&& copied_twice(h.view, f.view)
    &&& copied_twice(damage, f.damage)
    &&& f.ext == h.room.ext
}

/// What the disk keeps of the room, with this machine and this damage.
pub open spec fn checkpointed<H: Default, D: Clone, W: Clone>(
    h: RoomHandle<H, D, W>,
    machine: MachineSpec<H>,
    damage: D,
    f: SaveFile<H, D, W>,
) -> bool {
    exists|whole: SaveFile<H, D, W>| #[trigger]
        snapshot_of(h, machine, damage, whole) && save::written(whole, f)
}

/// A room after somebody came in, and what it kept while it was parked.
pub open spec fn entered<H, D, W>(
    a: RoomHandle<H, D, W>,
    b: RoomHandle<H, D, W>,
    now: u64,
    woken: Option<Parked<H, D>>,
) -> bool {
    &&& woken == if a.deleted {
        None
    } else {
        a.parked
    }
    &&& b == (RoomHandle {
        room: Room { population: a.room.population.wrapping_add(1), ..a.room },
        parked: if woken is Some {
            None
        } else {
            a.parked
        },
        life: if woken is Some {
            Life::Live
        } else {
            a.life
        },
        meta: if woken is Some {
            RoomMeta { played: now, ..a.meta }
        } else {
            a.meta
        },
        ..a
    })
}

/// A room after somebody left.
pub open spec fn left<H, D, W>(a: RoomHandle<H, D, W>, now: u64) -> RoomHandle<H, D, W> {
    RoomHandle {
        room: Room { population: a.room.population.wrapping_sub(1), ..a.room },
        meta: RoomMeta { played: now, ..a.meta },
        ..a
    }
}

/// Whoever comes and goes is counted in and counted out; and a room that was woken is not
/// woken again before it parks.
pub proof fn law_coming_and_going_is_counted<H, D, W>(
    a: RoomHandle<H, D, W>,
    b: RoomHandle<H, D, W>,
    c: RoomHandle<H, D, W>,
    now: u64,
    first: Option<Parked<H, D>>,
    second: Option<Parked<H, D>>,
)
    requires
        entered(a, b, now, first),
        entered(b, c, now, second),
    ensures
        left(b, now).room.population == a.room.population,
        left(left(c, now), now).room.population == a.room.population,
        first is Some ==> second is None && b.life == Life::Live && c.life == Life::Live,
        a.deleted ==> first is None && second is None && b.life == a.life,
{
}

impl<H, D, W> RoomHandle<H, D, W> {
    /// Who the room is.
    pub fn meta(&self) -> (m: RoomMeta)
        ensures
            m@ == self.meta@,
    {
        RoomMeta {
            id: self.meta.id.clone(),
            name: self.meta.name.clone(),
            template: self.meta.template.clone(),
            created: self.meta.created,
            played: self.meta.played,
        }
    }

    /// How many are in the room.
    pub fn players(&self) -> (n: u32)
        ensures
            n == self.room.population,
    {
        self.room.population
    }

    /// Whether the room runs.
    pub fn is_live(&self) -> (r: bool)
        ensures
            r == (self.life == Life::Live),
    {
        self.life == Life::Live
    }

    /// Somebody comes in. A parked room runs again: what it kept is handed out. A deleted
    /// room is not woken.
    pub fn enter(&mut self, now: u64) -> (woken: Option<Parked<H, D>>)
        ensures
            entered(*old(self), *final(self), now, woken),
    {
        self.room.population = self.room.population.wrapping_add(1);
        if self.deleted {
            return None;
        }
        match self.parked.take() {
            Some(p) => {
                self.meta.played = now;
                self.life = Life::Live;
                Some(p)
            },
            None => None,
        }
    }

    /// Somebody leaves.
    pub fn leave(&mut self, now: u64)
        ensures
            *final(self) == left(*old(self), now),
    {
        self.room.population = self.room.population.wrapping_sub(1);
        self.meta.played = now;
    }

    /// The room's sim task has ended: the room keeps what the task held.
    pub fn park(&mut self, machine: MachineSpec<H>, damage: D)
        ensures
            *final(self) == (RoomHandle {
                parked: Some(Parked { machine, damage }),
                life: Life::Parked,
                ..*old(self)
            }),
    {
        self.parked = Some(Parked { machine, damage });
        self.life = Life::Parked;
    }

    /// The room is deleted.
    pub fn evict(&mut self)
        ensures
            *final(self) == (RoomHandle { deleted: true, life: Life::Gone, ..*old(self) }),
    {
        self.deleted = true;
        self.life = Life::Gone;
    }
}

impl<H: Copy + Default, D: Clone, W: Clone> RoomHandle<H, D, W> {
    /// The room as a file, with the machine and the damage that the caller holds.
    pub fn snapshot(&self, machine: &MachineSpec<H>, damage: &D) -> (f: SaveFile<H, D, W>)
        ensures
            snapshot_of(*self, *machine, *damage, f),
    {
        let setup: RoomSetup<H, D, W> = RoomSetup {
            elements: copy_all(&self.room.elements),
            probes: save_probes(&self.room.probes),
            next_pid: self.room.next_pid,
            panels: copy_all(&self.room.panels),
            next_plid: self.room.next_plid,
            scopes: Some(copy_all(&self.room.scopes)),
            next_sid: self.room.next_sid,
            label_boxes: copy_all(&self.room.label_boxes),
            next_blid: self.room.next_blid,
            net_labels: copy_all(&self.room.net_labels),
            next_nlid: self.room.next_nlid,
            layers: copy_all(&self.room.layers),
            next_lid: self.room.next_lid,
            machine: *machine,
            view: self.view.clone(),
            damage: damage.clone(),
            ext: self.room.ext,
        };
        proof {
            assert(cloned(self.view, setup.view));
            assert(cloned(*damage, setup.damage));
        }
        let mut f: SaveFile<H, D, W> = SaveFile::from_setup(&setup).with_identity(
            "room",
            self.meta.id.as_str(),
            self.meta.name.as_str(),
        );
        f.template = self.meta.template.clone();
        f.created = self.meta.created;
        f.played = self.meta.played;
        f
    }

    /// What is to be written of the room now, which is nothing once it was deleted; the
    /// room remembers the machine.
    pub fn checkpoint(&mut self, machine: &MachineSpec<H>, damage: &D) -> (r: Option<
        SaveFile<H, D, W>,
    >)
        ensures
            r is None <==> old(self).deleted,
            old(self).deleted ==> *final(self) == *old(self),
            !old(self).deleted ==> {
                &&& *final(self) == (RoomHandle { machine: *machine, ..*old(self) })
                &&& checkpointed(*old(self), *machine, *damage, r->0)
            },
    {
        if self.deleted {
            return None;
        }
        let whole: SaveFile<H, D, W> = self.snapshot(machine, damage);
        let f: SaveFile<H, D, W> = whole.for_disk();
        proof {
            assert(snapshot_of(*self, *machine, *damage, whole) && save::written(whole, f));
        }
        self.machine = *machine;
        Some(f)
    }
}

impl<H: Copy + Default, D: Default, W: Clone> RoomHandle<H, D, W> {
    /// The room as a level, without what was played in it: not driven from outside,
    /// nothing damaged, the machine untouched where it stands. A camera that is handed in
    /// takes the place of the room's own; either goes through `sane`, which forces a camera
    /// onto what a client can use.
    pub fn as_template_setup<S: Fn(W) -> W>(&self, view: Option<W>, sane: S) -> (s: RoomSetup<
        H,
        D,
        W,
    >)
        requires
            match view {
                Some(v) => call_requires(sane, (v,)),
                None => forall|c: W| cloned(self.view, c) ==> #[trigger] call_requires(sane, (c,)),
            },
        ensures
            holds(self.room, s),
            save::untouched(self.machine, s.machine),
            !s.ext,
            call_ensures(D::default, (), s.damage),
            match view {
                Some(v) => call_ensures(sane, (v,), s.view),
                None => exists|c: W| #[trigger]
                    cloned(self.view, c) && call_ensures(sane, (c,), s.view),
            },
    {
        let chosen: W = match view {
            Some(v) => v,
            None => self.view.clone(),
        };
        let camera: W = sane(chosen);
        RoomSetup {
            elements: copy_all(&self.room.elements),
            probes: save_probes(&self.room.probes),
            next_pid: self.room.next_pid,
            panels: copy_all(&self.room.panels),
            next_plid: self.room.next_plid,
            scopes: Some(copy_all(&self.room.scopes)),
            next_sid: self.room.next_sid,
            label_boxes: copy_all(&self.room.label_boxes),
            next_blid: self.room.next_blid,
            net_labels: copy_all(&self.room.net_labels),
            next_nlid: self.room.next_nlid,
            layers: copy_all(&self.room.layers),
            next_lid: self.room.next_lid,
            machine: self.machine,
            view: camera,
            damage: D::default(),
            ext: false,
        }.fresh_for_template()
    }
}

/// The document of a new room: a room with a machine has the machine's parts in it.
pub open spec fn furnished<H>(doc: Seq<Part>, machine: MachineSpec<H>) -> Seq<Part> {
    match machine {
        MachineSpec::Hoist { rect, .. } => fixture::with_hoist(doc, rect@[0] as int, rect@[1] as int),
        MachineSpec::Absent => doc,
    }
}

/// A room that was just built from a setup: parked, empty, and with nobody driving
/// anything in it.
pub open spec fn built<H, D, W>(
    meta: RoomMeta,
    s: RoomSetup<H, D, W>,
    h: RoomHandle<H, D, W>,
) -> bool {
    &&& h.meta == meta
    &&& h.view == s.view
    &&& h.machine == s.machine
    &&& h.has_machine == (s.machine is Hoist)
    &&& h.life == Life::Parked
    &&& h.parked == Some(Parked { machine: s.machine, damage: s.damage })
    &&& !h.deleted
    &&& lists::views(h.room.elements@) == furnished(lists::views(s.elements@), s.machine)
    &&& h.room.probes@ == s.probes@.map_values(|p: SavedProbe| probes::restored(p))
    &&& h.room.panels == s.panels
    &&& h.room.scopes@ == match s.scopes {
        Some(v) => v@,
        None => Seq::<Scope>::empty(),
    }
    &&& h.room.label_boxes == s.label_boxes
    &&& h.room.net_labels == s.net_labels
    &&& h.room.layers == s.layers
    &&& h.room.claims@ == Seq::<Claim>::empty()
    &&& h.room.chat@ == Seq::<ChatLine>::empty()
    &&& h.room.next_client == 1
    &&& h.room.next_pid == save::started(s.next_pid)
    &&& h.room.next_plid == save::started(s.next_plid)
    &&& h.room.next_sid == save::started(s.next_sid)
    &&& h.room.next_blid == save::started(s.next_blid)
    &&& h.room.next_nlid == save::started(s.next_nlid)
    &&& h.room.next_lid == save::started(s.next_lid)
    &&& h.room.population == 0
    &&& !h.room.dirty
    &&& h.room.ext == s.ext
}

/// The machine's corner leaves room for its parts.
pub open spec fn machine_fits<H>(machine: MachineSpec<H>) -> bool {
    machine matches MachineSpec::Hoist { rect, .. } ==> fixture::corner_fits(
        rect@[0] as int,
        rect@[1] as int,
    )
}

/// A machine inside the world fits.
pub proof fn lemma_a_normal_machine_fits<H, D, W>(a: RoomSetup<H, D, W>, b: RoomSetup<H, D, W>)
    requires
        save::normalised(a, b),
    ensures
        machine_fits(b.machine),
{
}

/// Builds a room from a setup. It does not run yet.
pub fn build_handle<H: Copy, D, W>(meta: RoomMeta, setup: RoomSetup<H, D, W>) -> (h: RoomHandle<
    H,
    D,
    W,
>)
    requires
        machine_fits(setup.machine),
    ensures
        built(meta, setup, h),
{
    let mut elements: Vec<ElementSpec> = setup.elements;
    if let MachineSpec::Hoist { rect, .. } = setup.machine {
        let _ = ensure_fixture(&mut elements, rect);
    }
    let scopes: Vec<Scope> = match setup.scopes {
        Some(v) => v,
        None => Vec::new(),
    };
    let room: Room = Room {
        elements,
        probes: load_probes(&setup.probes),
        panels: setup.panels,
        scopes,
        label_boxes: setup.label_boxes,
        net_labels: setup.net_labels,
        layers: setup.layers,
        claims: Vec::new(),
        chat: VecDeque::new(),
        next_client: 1,
        next_pid: start_count(setup.next_pid),
        next_plid: start_count(setup.next_plid),
        next_sid: start_count(setup.next_sid),
        next_blid: start_count(setup.next_blid),
        next_nlid: start_count(setup.next_nlid),
        next_lid: start_count(setup.next_lid),
        population: 0,
        dirty: false,
        ext: setup.ext,
    };
    RoomHandle {
        room,
        meta,
        view: setup.view,
        machine: setup.machine,
        has_machine: setup.machine.is_some(),
        life: Life::Parked,
        parked: Some(Parked { machine: setup.machine, damage: setup.damage }),
        deleted: false,
    }
}

/// What a room's ops keep of it: annotation by the rules, no more scopes than the bench
/// holds, and counters that have started.
pub open spec fn in_order(room: Room) -> bool {
    &&& regions::by_the_rules(lists::views(room.panels@), room.next_plid, regions::panel_rules())
    &&& regions::by_the_rules(
        lists::views(room.label_boxes@),
        room.next_blid,
        regions::label_box_rules(),
    )
    &&& regions::by_the_rules(lists::views(room.layers@), room.next_lid, regions::layer_rules())
    &&& room.scopes@.len() <= MAX_SCOPES
    &&& forall|i: int| 0 <= i < room.scopes@.len() ==> (#[trigger] room.scopes@[i]).sid < u32::MAX
    &&& room.next_plid >= 1 && room.next_blid >= 1 && room.next_lid >= 1
}

/// A room that was saved and opened again is the room it was: its parts, its instruments,
/// its machine and its badge. Net labels come back as parts, and scopes as usable as the ops
/// leave them. What was shone on a part, who drove it, and what was said, is gone.
pub proof fn law_a_room_survives_a_restart<H: Copy + Default, D: Clone, W: Clone>(
    h: RoomHandle<H, D, W>,
    machine: MachineSpec<H>,
    damage: D,
    f: SaveFile<H, D, W>,
    s: RoomSetup<H, D, W>,
    n: RoomSetup<H, D, W>,
    meta: RoomMeta,
    back: RoomHandle<H, D, W>,
)
    requires
        in_order(h.room),
        checkpointed(h, machine, damage, f),
        save::opens(f, s),
        save::normalised(s, n),
        machine matches MachineSpec::Hoist { rect, .. } ==> fixture::sane(fixture::hoist(), rect@),
        built(meta, n, back),
    ensures
        lists::views(back.room.elements@) == furnished(
            save::migrated(
                save::unlit(lists::views(h.room.elements@)),
                lists::views(h.room.net_labels@),
            ),
            machine,
        ),
        h.room.net_labels@.len() == 0 ==> lists::views(back.room.elements@) == furnished(
            save::unlit(lists::views(h.room.elements@)),
            machine,
        ),
        back.room.net_labels@.len() == 0,
        back.room.probes@ == h.room.probes@,
        lists::views(back.room.panels@) == lists::views(h.room.panels@),
        lists::views(back.room.scopes@) == lists::views(h.room.scopes@).map_values(
            |s: Instrument| s.saned(),
        ),
        lists::views(back.room.label_boxes@) == lists::views(h.room.label_boxes@),
        lists::views(back.room.layers@) == lists::views(h.room.layers@),
        back.room.next_plid == h.room.next_plid,
        back.room.next_blid == h.room.next_blid,
        back.room.next_lid == h.room.next_lid,
        back.machine == machine,
        back.room.ext == h.room.ext,
        back.room.claims@.len() == 0,
        back.room.chat@.len() == 0,
{
    let whole = choose|whole: SaveFile<H, D, W>| #[trigger]
        snapshot_of(h, machine, damage, whole) && save::written(whole, f);
    if h.room.net_labels@.len() == 0 {
        assert(lists::views(h.room.net_labels@).len() == 0);
        assert(save::migrated(lists::views(f.elements@), lists::views(f.netlabels@)) =~= lists::views(
            f.elements@,
        ));
    }
    assert(s.machine == machine);
    let scopes = lists::views(h.room.scopes@);
    assert(save::bench(s.scopes) == Some(scopes));
    assert forall|i: int| 0 <= i < scopes.len() implies (#[trigger] scopes[i]).sid < u32::MAX by {
        assert(scopes[i] == h.room.scopes@[i]@);
    }
    assert(save::scopes_fit(s));
    save::law_what_is_by_the_rules_is_left_alone(s, n);
    lemma_no_labels_come(s, n);
    assert(back.room.probes@ =~= h.room.probes@);
}

/// A setup without net labels has none after it was made normal.
proof fn lemma_no_labels_come<H, D, W>(s: RoomSetup<H, D, W>, n: RoomSetup<H, D, W>)
    requires
        save::normalised(s, n),
        s.net_labels@.len() == 0,
    ensures
        n.net_labels@.len() == 0,
{
    assert(lists::views(n.net_labels@).len() == n.net_labels@.len());
}

/// Who a room is shows all of itself.
pub proof fn law_an_identity_shows_all_of_itself(m: RoomMeta)
    ensures
        m@.id == m.id@ && m@.name == m.name@ && m@.template == m.template@,
        m@.created == m.created && m@.played == m.played,
{
}

/// Somebody who comes in is counted. A parked room that is not deleted runs again and hands out
/// what it kept, once, and notes the time; any other room goes on as it is. Nothing else of the
/// room changes.
pub proof fn law_whoever_comes_in_wakes_the_room<H, D, W>(
    a: RoomHandle<H, D, W>,
    b: RoomHandle<H, D, W>,
    now: u64,
    woken: Option<Parked<H, D>>,
)
    requires
        entered(a, b, now, woken),
    ensures
        b.room == (Room { population: b.room.population, ..a.room }),
        a.room.population < u32::MAX ==> b.room.population == a.room.population + 1,
        b.view == a.view && b.machine == a.machine && b.has_machine == a.has_machine,
        b.deleted == a.deleted,
        b.meta.id == a.meta.id && b.meta.name == a.meta.name && b.meta.template == a.meta.template,
        b.meta.created == a.meta.created,
        a.deleted || a.parked is None ==> {
            &&& woken is None
            &&& b.parked == a.parked
            &&& b.life == a.life
            &&& b.meta.played == a.meta.played
        },
        !a.deleted && a.parked is Some ==> {
            &&& woken == a.parked
            &&& b.parked is None
            &&& b.life is Live
            &&& b.meta.played == now
        },
{
}

/// Somebody who leaves is counted out, and the room notes the time. Nothing else of it changes.
pub proof fn law_whoever_leaves_is_counted_out<H, D, W>(a: RoomHandle<H, D, W>, now: u64)
    ensures
        left(a, now).room == (Room { population: left(a, now).room.population, ..a.room }),
        a.room.population > 0 ==> left(a, now).room.population == a.room.population - 1,
        left(a, now).meta.played == now,
        left(a, now).meta.id == a.meta.id && left(a, now).meta.name == a.meta.name,
        left(a, now).meta.template == a.meta.template && left(a, now).meta.created == a.meta.created,
        left(a, now).view == a.view && left(a, now).machine == a.machine,
        left(a, now).has_machine == a.has_machine && left(a, now).life == a.life,
        left(a, now).parked == a.parked && left(a, now).deleted == a.deleted,
{
}

/// A room is built from a setup as the setup says: its own parts, with the machine's where
/// there is one; its own instruments, each list with its own counter; nobody in it, nothing
/// claimed or said; parked, with the machine and the damage that it is to run with.
pub proof fn law_a_room_is_built_as_the_setup_says<H, D, W>(
    meta: RoomMeta,
    s: RoomSetup<H, D, W>,
    h: RoomHandle<H, D, W>,
)
    requires
        built(meta, s, h),
        machine_fits(s.machine),
    ensures
        h.meta == meta && h.view == s.view && h.machine == s.machine,
        h.has_machine <==> s.machine is Hoist,
        h.life is Parked && !h.deleted,
        h.parked matches Some(p) && p.machine == s.machine && p.damage == s.damage,
        s.machine is Absent ==> save::alike(s.elements@, h.room.elements@),
        s.machine matches MachineSpec::Hoist { rect, .. } ==> fixture::hoist_stood(
            lists::views(s.elements@),
            rect@[0] as int,
            rect@[1] as int,
            lists::views(h.room.elements@),
        ),
        h.room.probes@.len() == s.probes@.len(),
        forall|i: int|
            0 <= i < s.probes@.len() ==> {
                let (p, q) = (s.probes@[i], #[trigger] h.room.probes@[i]);
                q.pid == p.pid && q.elem == p.elem && q.pin == p.pin && q.kind == p.kind && q.r == p.r
            },
        h.room.panels == s.panels && h.room.label_boxes == s.label_boxes,
        h.room.net_labels == s.net_labels && h.room.layers == s.layers,
        s.scopes matches Some(v) ==> h.room.scopes@ == v@,
        s.scopes is None ==> h.room.scopes@.len() == 0,
        h.room.claims@.len() == 0 && h.room.chat@.len() == 0,
        h.room.next_client == 1 && h.room.population == 0 && !h.room.dirty,
        h.room.ext == s.ext,
        s.next_pid > 0 ==> h.room.next_pid == s.next_pid,
        s.next_plid > 0 ==> h.room.next_plid == s.next_plid,
        s.next_sid > 0 ==> h.room.next_sid == s.next_sid,
        s.next_blid > 0 ==> h.room.next_blid == s.next_blid,
        s.next_nlid > 0 ==> h.room.next_nlid == s.next_nlid,
        s.next_lid > 0 ==> h.room.next_lid == s.next_lid,
        h.room.next_pid > 0 && h.room.next_plid > 0 && h.room.next_sid > 0,
        h.room.next_blid > 0 && h.room.next_nlid > 0 && h.room.next_lid > 0,
{
    match s.machine {
        MachineSpec::Hoist { rect, .. } => {
            fixture::law_the_hoist_is_stood_up_whole(
                lists::views(s.elements@),
                rect@[0] as int,
                rect@[1] as int,
            );
        },
        MachineSpec::Absent => {
            save::lemma_alike(s.elements@, h.room.elements@);
        },
    }
}

/// The probes of a file are the room's, one for one.
pub open spec fn probes_kept(room: Seq<probes::Probe>, file: Seq<SavedProbe>) -> bool {
    &&& file.len() == room.len()
    &&& forall|i: int|
        0 <= i < room.len() ==> {
            let (p, q) = (room[i], #[trigger] file[i]);
            q.pid == p.pid && q.elem == p.elem && q.pin == p.pin && q.kind == p.kind && q.r == p.r
        }
}

/// A snapshot holds the room: who it is, its parts, its instruments, each list with its own
/// counter, the machine and the damage that it was taken with, and whether something outside
/// has driven it.
pub proof fn law_a_snapshot_is_the_room<H: Default, D: Clone, W: Clone>(
    h: RoomHandle<H, D, W>,
    machine: MachineSpec<H>,
    damage: D,
    f: SaveFile<H, D, W>,
)
    requires
        snapshot_of(h, machine, damage, f),
    ensures
        f.v == 1 && f.kind@ == "room"@,
        f.id@ == h.meta.id@ && f.name@ == h.meta.name@ && f.template@ == h.meta.template@,
        f.created == h.meta.created && f.played == h.meta.played && f.blurb@.len() == 0,
        save::alike(h.room.elements@, f.elements@),
        save::alike(h.room.panels@, f.panels@),
        save::alike(h.room.label_boxes@, f.labelboxes@),
        save::alike(h.room.net_labels@, f.netlabels@),
        save::alike(h.room.layers@, f.layers@),
        f.scopes matches Some(v) && save::alike(h.room.scopes@, v@),
        probes_kept(h.room.probes@, f.probes@),
        f.next_pid == h.room.next_pid && f.next_plid == h.room.next_plid,
        f.next_sid == h.room.next_sid && f.next_blid == h.room.next_blid,
        f.next_nlid == h.room.next_nlid && f.next_lid == h.room.next_lid,
        f.machine == Some(machine),
        machine matches MachineSpec::Hoist { rect, state } ==> f.hoist == state && f.hoist_rect@ == rect@,
        copied_twice(h.view, f.view),
        copied_twice(damage, f.damage),
        f.ext == h.room.ext,
{
    save::lemma_alike(h.room.elements@, f.elements@);
    save::lemma_alike(h.room.panels@, f.panels@);
    save::lemma_alike(h.room.label_boxes@, f.labelboxes@);
    save::lemma_alike(h.room.net_labels@, f.netlabels@);
    save::lemma_alike(h.room.layers@, f.layers@);
    save::lemma_alike(h.room.scopes@, f.scopes->0@);
}

/// A setup that holds a room holds its parts and its instruments, each list with its own
/// counter.
pub proof fn law_a_level_is_the_room<H, D, W>(room: Room, s: RoomSetup<H, D, W>)
    requires
        holds(room, s),
    ensures
        save::alike(room.elements@, s.elements@),
        save::alike(room.panels@, s.panels@),
        save::alike(room.label_boxes@, s.label_boxes@),
        save::alike(room.net_labels@, s.net_labels@),
        save::alike(room.layers@, s.layers@),
        s.scopes matches Some(v) && save::alike(room.scopes@, v@),
        probes_kept(room.probes@, s.probes@),
        s.next_pid == room.next_pid && s.next_plid == room.next_plid && s.next_sid == room.next_sid,
        s.next_blid == room.next_blid && s.next_nlid == room.next_nlid && s.next_lid == room.next_lid,
{
    save::lemma_alike(room.elements@, s.elements@);
    save::lemma_alike(room.panels@, s.panels@);
    save::lemma_alike(room.label_boxes@, s.label_boxes@);
    save::lemma_alike(room.net_labels@, s.net_labels@);
    save::lemma_alike(room.layers@, s.layers@);
    save::lemma_alike(room.scopes@, s.scopes->0@);
}

} // verus!
