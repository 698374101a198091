//! One tick of a running room: when it parks, when it is saved, what each command does,
//! what readings do, how the solver's steps are shared out, and what is sent.
use vstd::prelude::*;

use crate::binary64::Real;
use crate::commands::Cmd;
use crate::document::{self, source_ids, InteractOp};
use crate::fixture::{LIM_BOT_ID, LIM_TOP_ID, SENSOR_ID};
use crate::gated::{self, commit_edit, commit_interact, commit_repair, plan_edit, plan_interact};
use crate::lists::{self, Copied};
use crate::parts::{ElementKind, ElementSpec, Part};
use crate::probes::NetMap;
use crate::registry::PARK_AFTER_TICKS;
use crate::room::{
    self, on_join, on_label_box, on_layer, on_layer_claim, on_leave, on_machine_move,
    on_machine_reset, on_net_label, on_panel, on_probe, on_probe_ref, on_scope, on_sensor, on_stop,
    Action, Context, Reject, Room, Sim, Work,
};
use crate::sensors::{self, age_driven, note_reading, sorted_once, Driven, Over, Reading, Shown};
use crate::slew::{InFlight, Slews};

verus! {

/// Ticks between two saves at least.
pub const SAVE_AFTER_TICKS: u32 = 150;

/// The most solver steps of one tick. A heavy circuit slows the room's clock, never the
/// loop.
pub const MAX_STEPS_PER_TICK: u32 = 8000;

/// Solver steps between two steps of the machine.
pub const MACHINE_SUBSTEPS: u32 = 32;

/// Solver steps between two samples of a probe.
pub const SAMPLE_EVERY: u32 = 16;

/// Solver steps between two samples of a speaker.
pub const AUDIO_EVERY: u32 = 4;

/// A room that starts to run, or runs again: nothing is driven, nothing travels, and the
/// clocks of parking and saving start over.
pub fn start(room: &Room, has_machine: bool, rect: [i32; 4]) -> (sim: Sim)
    ensures
        sim.has_machine == has_machine,
        sim.rect == rect,
        sim.sources@ == document::sources_of(lists::views(room.elements@)),
        sim.driven@ == Seq::<Driven>::empty(),
        sim.slews.live@ == Seq::<InFlight>::empty(),
        !sim.damage_shown,
        sim.netmap_shown is None,
        sim.ticks_since_save == 0,
        sim.empty_ticks == 0,
{
    Sim {
        has_machine,
        rect,
        sources: source_ids(&room.elements),
        driven: Vec::new(),
        slews: Slews::new(),
        damage_shown: false,
        netmap_shown: None,
        ticks_since_save: 0,
        empty_ticks: 0,
    }
}

/// What a tick has gathered before its first command.
pub fn begin_work() -> (w: Work)
    ensures
        w.pending == (0i32, 0i32),
        w.mover == 0,
        w.stop is None,
        w.readings@ == Seq::<Reading>::empty(),
        w.to_dark@ == Seq::<u32>::empty(),
        w.sensor_out@ == Seq::<Shown>::empty(),
{
    Work {
        pending: (0, 0),
        mover: 0,
        stop: None,
        readings: Vec::new(),
        to_dark: Vec::new(),
        sensor_out: Vec::new(),
    }
}

/// Counts the ticks without anybody in the room; tells whether the room is to park.
pub fn note_population(sim: &mut Sim, population: u32) -> (due: bool)
    requires
        old(sim).empty_ticks < PARK_AFTER_TICKS,
    ensures
        *final(sim) == (Sim { empty_ticks: final(sim).empty_ticks, ..*old(sim) }),
        final(sim).empty_ticks == idle(old(sim).empty_ticks as nat, population),
        due == (final(sim).empty_ticks >= PARK_AFTER_TICKS),
{
    if population == 0 {
        sim.empty_ticks += 1;
    } else {
        sim.empty_ticks = 0;
    }
    sim.empty_ticks >= PARK_AFTER_TICKS
}

/// The last look before parking, with joining held off: somebody who came in meanwhile
/// keeps the room running.
pub fn confirm_park(sim: &mut Sim, population: u32) -> (park: bool)
    ensures
        park == (population == 0),
        park ==> *final(sim) == *old(sim),
        !park ==> *final(sim) == (Sim { empty_ticks: 0, ..*old(sim) }),
{
    if population == 0 {
        true
    } else {
        sim.empty_ticks = 0;
        false
    }
}

/// The count of ticks without anybody, after a tick.
pub open spec fn idle(count: nat, population: u32) -> nat {
    if population == 0 {
        count + 1
    } else {
        0
    }
}

/// The count after a run of ticks, from a room that just started.
pub open spec fn idle_after(populations: Seq<u32>) -> nat
    decreases populations.len(),
{
    if populations.len() == 0 {
        0
    } else {
        idle(idle_after(populations.drop_last()), populations.last())
    }
}

/// A room parks once nobody was in it for so many ticks in a row, and not before.
pub proof fn law_an_empty_room_parks_in_time(populations: Seq<u32>)
    ensures
        idle_after(populations) >= PARK_AFTER_TICKS <==> {
            &&& populations.len() >= PARK_AFTER_TICKS
            &&& forall|i: int|
                populations.len() - PARK_AFTER_TICKS <= i < populations.len()
                    ==> #[trigger] populations[i] == 0
        },
{
    lemma_idle_after(populations, PARK_AFTER_TICKS as nat);
}

proof fn lemma_idle_after(pops: Seq<u32>, n: nat)
    ensures
        idle_after(pops) >= n <==> {
            &&& pops.len() >= n
            &&& forall|i: int| pops.len() - n <= i < pops.len() ==> #[trigger] pops[i] == 0
        },
    decreases pops.len(),
{
    if pops.len() > 0 && n > 0 {
        let d = pops.drop_last();
        lemma_idle_after(d, (n - 1) as nat);
        assert(pops.last() == pops[pops.len() - 1]);
        if d.len() >= n - 1 && forall|i: int| d.len() - (n - 1) <= i < d.len() ==> #[trigger] d[i] == 0 {
            if pops.last() == 0 {
                assert forall|i: int| pops.len() - n <= i < pops.len() implies #[trigger] pops[i]
                    == 0 by {
                    if i < d.len() {
                        assert(d[i] == 0);
                    }
                }
            }
        }
        if pops.len() >= n && forall|i: int| pops.len() - n <= i < pops.len() ==> #[trigger] pops[i]
            == 0 {
            assert forall|i: int| d.len() - (n - 1) <= i < d.len() implies #[trigger] d[i] == 0 by {
                assert(pops[i] == 0);
            }
        }
    }
}

/// Whether the room is to be saved now: something changed, and the last save is a while
/// ago.
pub fn save_due(room: &mut Room, sim: &mut Sim) -> (due: bool)
    requires
        old(sim).ticks_since_save < u32::MAX,
    ensures
        due == (old(sim).ticks_since_save + 1 >= SAVE_AFTER_TICKS && old(room).dirty),
        due ==> {
            &&& *final(room) == (Room { dirty: false, ..*old(room) })
            &&& *final(sim) == (Sim { ticks_since_save: 0, ..*old(sim) })
        },
        !due ==> {
            &&& *final(room) == *old(room)
            &&& *final(sim) == (Sim {
                ticks_since_save: (old(sim).ticks_since_save + 1) as u32,
                ..*old(sim)
            })
        },
{
    sim.ticks_since_save += 1;
    if sim.ticks_since_save >= SAVE_AFTER_TICKS && room.dirty {
        room.dirty = false;
        sim.ticks_since_save = 0;
        true
    } else {
        false
    }
}

/// What the caller has to find out before a command can be made.
pub enum Ask {
    Nothing,
    /// Would the solver have this document? And how far apart are the two wipers?
    Judge { candidate: Vec<ElementSpec>, journey: Option<(Real, Real)> },
    /// Would the solver have this document in place of the one there is?
    JudgeEdit { candidate: Vec<ElementSpec> },
    /// Would the solver have the document there is?
    JudgeRoom,
    /// Which layer does each part read?
    Layers,
}

/// The question answers to the command.
pub open spec fn asks(room: Room, cmd: Cmd, ask: Ask) -> bool {
    match cmd {
        Cmd::Interact { id, op, .. } => if document::reserved(id) {
            ask is Nothing
        } else {
            ask matches Ask::Judge { candidate, journey } && {
                &&& lists::views(candidate@) == document::interacted(lists::views(room.elements@), id, op)
                &&& journey == gated::journey(lists::views(room.elements@), id, op)
            }
        },
        Cmd::Edit { op, .. } => match document::edited(lists::views(room.elements@), op@) {
            None => ask is Nothing,
            Some(doc) => ask matches Ask::JudgeEdit { candidate } && lists::views(candidate@) == doc,
        },
        Cmd::Repair { .. } => ask is JudgeRoom,
        Cmd::Leave { .. } => ask is Layers,
        _ => ask is Nothing,
    }
}

/// What has to be found out before a command can be made.
pub fn plan(room: &Room, cmd: &Cmd) -> (ask: Ask)
    ensures
        asks(*room, *cmd, ask),
{
    match cmd {
        Cmd::Interact { id, op, .. } => match plan_interact(room, *id, *op) {
            None => Ask::Nothing,
            Some(p) => Ask::Judge { candidate: p.candidate, journey: p.journey },
        },
        Cmd::Edit { op, .. } => match plan_edit(room, op) {
            None => Ask::Nothing,
            Some(candidate) => Ask::JudgeEdit { candidate },
        },
        Cmd::Repair { .. } => Ask::JudgeRoom,
        Cmd::Leave { .. } => Ask::Layers,
        _ => Ask::Nothing,
    }
}

/// What was found out.
pub struct Answers {
    /// Why the solver will not have it.
    pub verdict: Option<Reject>,
    /// How far the wiper is from where it is to go.
    pub gap: Real,
    /// Which layer each part reads.
    pub over: Vec<Over>,
}

/// A room after a command, and what is to be done.
pub open spec fn cmd_step(
    a: Room,
    b: Room,
    s: Sim,
    t: Sim,
    w: Work,
    x: Work,
    cmd: Cmd,
    ans: Answers,
    acts: Seq<Action>,
) -> bool {
    let none = Seq::<Action>::empty();
    match cmd {
        Cmd::Interact { who, id, op } => {
            &&& gated::interact_step(a, b, s, t, who, id, op, ans.verdict, ans.gap, acts)
            &&& x == w
        },
        Cmd::Edit { who, op } => gated::edit_step(a, b, s, t, who, op, ans.verdict, acts) && x == w,
        Cmd::Probe { elem, pin, kind } => {
            room::probe_step(a, b, elem, pin, kind, acts) && t == s && x == w
        },
        Cmd::ProbeRef { pid, elem, pin } => {
            room::probe_ref_step(a, b, pid, elem, pin, acts) && t == s && x == w
        },
        Cmd::Panel { op } => room::panel_step(a, b, op@, acts) && t == s && x == w,
        Cmd::Scope { op } => room::scope_step(a, b, op@, acts) && t == s && x == w,
        Cmd::LabelBox { op } => room::label_box_step(a, b, op@, acts) && t == s && x == w,
        Cmd::NetLabel { op } => room::net_label_step(a, b, op@, acts) && t == s && x == w,
        Cmd::Layer { op } => room::layer_step(a, b, op@, acts) && t == s && x == w,
        Cmd::LayerClaim { who, lid, claim } => {
            room::claim_step(a, b, who, lid, claim, acts) && t == s && x == w
        },
        Cmd::Sensor { who, id, q } => {
            &&& b == a && t == s && acts == none
            &&& if document::reserved(id) {
                x == w
            } else {
                &&& x == (Work { readings: x.readings, ..w })
                &&& x.readings@ == w.readings@.push(Reading { who, id, q })
            }
        },
        Cmd::MachineReset => {
            &&& t == s && x == w
            &&& if s.has_machine {
                b == (Room { ext: false, dirty: true, ..a }) && acts == seq![Action::ResetMachine]
            } else {
                b == a && acts == none
            }
        },
        Cmd::MachineMove { who, dx, dy } => {
            &&& b == a && t == s && acts == none
            &&& x == if s.has_machine {
                Work {
                    pending: (room::saturated(w.pending.0 + dx), room::saturated(w.pending.1 + dy)),
                    mover: who,
                    ..w
                }
            } else {
                w
            }
        },
        Cmd::Repair { who, id } => {
            &&& b == a && t == s && x == w
            &&& acts == match ans.verdict {
                Some(why) => seq![Action::Refuse { who, ctx: Context::Repair, why }],
                None => seq![Action::Repair { id }],
            }
        },
        Cmd::Join => {
            &&& b == a && x == w
            &&& t == (Sim { netmap_shown: None, ..s })
            &&& acts == seq![Action::TellPresence { n: a.population }]
        },
        Cmd::Leave { who } => room::leave_step(a, b, s, t, w, x, who, ans.over@, acts),
        Cmd::Stop { checkpoint } => {
            b == a && t == s && acts == none && x == (Work { stop: Some(checkpoint), ..w })
        },
    }
}

/// Makes a command, once what it asks was found out.
pub fn perform(room: &mut Room, sim: &mut Sim, work: &mut Work, cmd: Cmd, ans: Answers) -> (acts:
    Vec<Action>)
    ensures
        cmd_step(
            *old(room),
            *final(room),
            *old(sim),
            *final(sim),
            *old(work),
            *final(work),
            cmd,
            ans,
            acts@,
        ),
{
    match cmd {
        Cmd::Interact { who, id, op } => commit_interact(
            room,
            sim,
            who,
            id,
            op,
            ans.verdict,
            ans.gap,
        ),
        Cmd::Edit { who, op } => commit_edit(room, sim, who, op, ans.verdict),
        Cmd::Probe { elem, pin, kind } => on_probe(room, elem, pin, kind),
        Cmd::ProbeRef { pid, elem, pin } => on_probe_ref(room, pid, elem, pin),
        Cmd::Panel { op } => on_panel(room, &op),
        Cmd::Scope { op } => on_scope(room, &op),
        Cmd::LabelBox { op } => on_label_box(room, &op),
        Cmd::NetLabel { op } => on_net_label(room, &op),
        Cmd::Layer { op } => on_layer(room, &op),
        Cmd::LayerClaim { who, lid, claim } => on_layer_claim(room, who, lid, claim),
        Cmd::Sensor { who, id, q } => {
            on_sensor(work, who, id, q);
            Vec::new()
        },
        Cmd::MachineReset => on_machine_reset(room, sim),
        Cmd::MachineMove { who, dx, dy } => {
            on_machine_move(sim, work, who, dx, dy);
            Vec::new()
        },
        Cmd::Repair { who, id } => commit_repair(who, id, ans.verdict),
        Cmd::Join => on_join(room, sim),
        Cmd::Leave { who } => on_leave(room, sim, work, who, &ans.over),
        Cmd::Stop { checkpoint } => {
            on_stop(work, checkpoint);
            Vec::new()
        },
    }
}

/// A refused command leaves the room, and everything beside it, as it was; only the
/// refusal goes out.
pub proof fn law_a_refused_command_changes_nothing(
    a: Room,
    b: Room,
    s: Sim,
    t: Sim,
    w: Work,
    x: Work,
    cmd: Cmd,
    ans: Answers,
    acts: Seq<Action>,
)
    requires
        cmd_step(a, b, s, t, w, x, cmd, ans, acts),
        ans.verdict is Some,
        cmd is Interact || cmd is Edit || cmd is Repair,
    ensures
        b == a,
        t == s,
        x == w,
        acts.len() <= 1,
        acts.len() == 1 ==> (acts[0] matches Action::Refuse { why, .. } && why
            == ans.verdict->0),
{
}

/// The action changes what the solver solves.
pub open spec fn rewires(act: Action) -> bool {
    act is Interact || act is Hold || act is Rebuild
}

/// What is written on the sheet and measured on it never reaches the circuit: no panel,
/// label, name, scope, probe or layer changes a part or has the solver rebuilt.
pub proof fn law_annotation_never_reaches_the_circuit(
    a: Room,
    b: Room,
    s: Sim,
    t: Sim,
    w: Work,
    x: Work,
    cmd: Cmd,
    ans: Answers,
    acts: Seq<Action>,
)
    requires
        cmd_step(a, b, s, t, w, x, cmd, ans, acts),
        cmd is Panel || cmd is LabelBox || cmd is NetLabel || cmd is Scope || cmd is Probe
            || cmd is ProbeRef || cmd is Layer || cmd is LayerClaim,
    ensures
        b.elements == a.elements,
        forall|i: int| 0 <= i < acts.len() ==> !rewires(#[trigger] acts[i]),
{
}

/// A repair worked, or a part broke: the room is to be saved.
pub fn mark_dirty(room: &mut Room)
    ensures
        *final(room) == (Room { dirty: true, ..*old(room) }),
{
    room.dirty = true;
}

/// A room after a reading was tried on the solver. One that the solver took brands the
/// room as driven from outside, and the first since the last reset is saved.
pub open spec fn reading_step(
    a: Room,
    b: Room,
    s: Sim,
    t: Sim,
    w: Work,
    x: Work,
    r: Reading,
    taken: bool,
) -> bool {
    if !taken {
        b == a && t == s && x == w
    } else {
        &&& b == (Room { ext: true, dirty: a.dirty || !a.ext, ..a })
        &&& t == (Sim { driven: t.driven, ..s })
        &&& t.driven@ == sensors::landed(s.driven@, r)
        &&& x == (Work { sensor_out: x.sensor_out, ..w })
        &&& x.sensor_out@ == if sensors::is_news(s.driven@, r) {
            w.sensor_out@.push(Shown { id: r.id, q: r.q })
        } else {
            w.sensor_out@
        }
    }
}

/// Notes a reading that was tried on the solver.
pub fn land_reading(room: &mut Room, sim: &mut Sim, work: &mut Work, r: Reading, taken: bool)
    ensures
        reading_step(
            *old(room),
            *final(room),
            *old(sim),
            *final(sim),
            *old(work),
            *final(work),
            r,
            taken,
        ),
{
    if taken {
        note_reading(&mut sim.driven, &mut work.sensor_out, r);
        if !room.ext {
            room.ext = true;
            room.dirty = true;
        }
    }
}

/// The watchdog of a tick: drivers that fell silent are dropped. Gives the parts to write
/// dark, each once, in ascending order.
pub fn go_dark(sim: &mut Sim, work: &mut Work) -> (dark: Vec<u32>)
    requires
        forall|i: int| 0 <= i < old(sim).driven@.len() ==> sensors::fresh(#[trigger] old(sim).driven@[i]),
    ensures
        *final(sim) == (Sim { driven: final(sim).driven, ..*old(sim) }),
        final(sim).driven@ == sensors::aged(old(sim).driven@).filter(|d: Driven| sensors::fresh(d)),
        forall|i: int|
            0 <= i < final(sim).driven@.len() ==> sensors::fresh(#[trigger] final(sim).driven@[i]),
        *final(work) == (Work { to_dark: final(work).to_dark, ..*old(work) }),
        final(work).to_dark@ == Seq::<u32>::empty(),
        sensors::rising(dark@),
        forall|id: u32| #[trigger]
            dark@.contains(id) == (old(work).to_dark@ + lists::keys(
                sensors::aged(old(sim).driven@).filter(|d: Driven| !sensors::fresh(d)),
            )).contains(id),
{
    age_driven(&mut sim.driven, &mut work.to_dark);
    let dark: Vec<u32> = sorted_once(&work.to_dark);
    work.to_dark = Vec::new();
    dark
}

/// Notes a part that was written dark, where the solver took the write.
pub fn note_dark(work: &mut Work, id: u32, taken: bool)
    ensures
        !taken ==> *final(work) == *old(work),
        taken ==> {
            &&& *final(work) == (Work { sensor_out: final(work).sensor_out, ..*old(work) })
            &&& final(work).sensor_out@ == old(work).sensor_out@.push(Shown { id, q: 0 })
        },
{
    if taken {
        work.sensor_out.push(Shown { id, q: 0 });
    }
}

/// What a request to stop comes to.
#[derive(Clone, Copy, Debug, PartialEq, Eq, Structural)]
pub enum Stop {
    /// The tick goes on.
    Run,
    /// The room is gone: end, and write nothing.
    Evict,
    /// Save, then park if nobody is in the room; else the tick goes on.
    Checkpoint { park: bool },
}

/// What a request to stop comes to. A request that raced a join leaves the room running.
pub fn stop_outcome(stop: Option<bool>, population: u32) -> (r: Stop)
    ensures
        r == match stop {
            None => Stop::Run,
            Some(false) => Stop::Evict,
            Some(true) => Stop::Checkpoint { park: population == 0 },
        },
{
    match stop {
        None => Stop::Run,
        Some(checkpoint) => if checkpoint {
            Stop::Checkpoint { park: population == 0 }
        } else {
            Stop::Evict
        },
    }
}

/// How a tick's solver steps are shared out.
#[derive(Clone, Copy, Debug, PartialEq, Eq, Structural)]
pub struct Cadence {
    /// Solver steps of one chunk.
    pub step: u32,
    /// Chunks between two probe samples.
    pub per_probe: u32,
    /// Chunks between two steps of the machine.
    pub per_machine: u32,
    /// Chunks of the tick.
    pub chunks: u32,
}

/// The finest cadence that anybody needs.
pub open spec fn finest(taps: bool, probes: bool) -> u32 {
    if taps {
        AUDIO_EVERY
    } else if probes {
        SAMPLE_EVERY
    } else {
        MACHINE_SUBSTEPS
    }
}

pub open spec fn at_least_one(n: int) -> int {
    if n < 1 {
        1
    } else {
        n
    }
}

/// The whole machine periods of a tick. A tick is at least one of them.
pub open spec fn periods(steps: u32) -> int {
    at_least_one(
        (if steps < MAX_STEPS_PER_TICK {
            steps as int
        } else {
            MAX_STEPS_PER_TICK as int
        }) / (MACHINE_SUBSTEPS as int),
    )
}

/// How a tick of so many solver steps is shared out between speakers, probes and the
/// machine.
pub fn cadence(taps: bool, probes: bool, steps: u32) -> (c: Cadence)
    ensures
        c.step == finest(taps, probes),
        c.per_probe == at_least_one(SAMPLE_EVERY as int / c.step as int),
        c.per_machine == at_least_one(MACHINE_SUBSTEPS as int / c.step as int),
        c.chunks == periods(steps) * c.per_machine,
{
    let step: u32 = if taps {
        AUDIO_EVERY
    } else if probes {
        SAMPLE_EVERY
    } else {
        MACHINE_SUBSTEPS
    };
    let budget: u32 = if steps < MAX_STEPS_PER_TICK {
        steps
    } else {
        MAX_STEPS_PER_TICK
    };
    let per_probe: u32 = if SAMPLE_EVERY / step < 1 {
        1
    } else {
        SAMPLE_EVERY / step
    };
    let per_machine: u32 = if MACHINE_SUBSTEPS / step < 1 {
        1
    } else {
        MACHINE_SUBSTEPS / step
    };
    let whole: u32 = if budget / MACHINE_SUBSTEPS < 1 {
        1
    } else {
        budget / MACHINE_SUBSTEPS
    };
    proof {
        assert(whole <= 250);
        assert(per_machine <= 8);
        assert(whole * per_machine <= 2000) by (nonlinear_arith)
            requires
                0 <= whole <= 250,
                0 <= per_machine <= 8,
        ;
    }
    Cadence { step, per_probe, per_machine, chunks: whole * per_machine }
}

/// The cadences nest: a tick is whole machine periods, which are whole probe periods
/// where there are probes, and never more than the budget once a period fits into it.
pub proof fn law_cadences_nest(taps: bool, probes: bool, steps: u32, c: Cadence)
    requires
        c.step == finest(taps, probes),
        c.per_probe == at_least_one(SAMPLE_EVERY as int / c.step as int),
        c.per_machine == at_least_one(MACHINE_SUBSTEPS as int / c.step as int),
        c.chunks == periods(steps) * c.per_machine,
    ensures
        c.per_machine * c.step == MACHINE_SUBSTEPS,
        taps || probes ==> c.per_probe * c.step == SAMPLE_EVERY,
        c.chunks * c.step == periods(steps) * MACHINE_SUBSTEPS,
        taps || probes ==> c.chunks == c.per_probe * (2 * periods(steps)),
        steps >= MACHINE_SUBSTEPS ==> c.chunks * c.step <= steps,
        steps >= MACHINE_SUBSTEPS ==> c.chunks * c.step <= MAX_STEPS_PER_TICK,
{
    let n = periods(steps);
    let m = c.per_machine as int;
    let k = c.step as int;
    assert(32int / 4 == 8 && 16int / 4 == 4 && 32int / 16 == 2 && 16int / 16 == 1);
    assert(32int / 32 == 1 && 16int / 32 == 0);
    assert((k == 4 && m == 8) || (k == 16 && m == 2) || (k == 32 && m == 1));
    assert(m * k == 32);
    assert((n * m) * k == n * (m * k)) by (nonlinear_arith);
    if taps || probes {
        let p = c.per_probe as int;
        assert(m == 2 * p);
        assert(n * (2 * p) == p * (2 * n)) by (nonlinear_arith);
    }
}

/// What is due after a chunk of a tick.
#[derive(Clone, Copy, Debug, PartialEq, Eq, Structural)]
pub struct Due {
    pub probes: bool,
    pub machine: bool,
    pub slews: bool,
}

/// What is due after chunk `n` of a tick. A machine whose motor is out of service stands
/// still.
pub fn due_after(
    c: Cadence,
    n: u32,
    probes: bool,
    has_machine: bool,
    motor_down: bool,
    travelling: bool,
) -> (d: Due)
    requires
        n < c.chunks,
        c.per_probe > 0,
        c.per_machine > 0,
    ensures
        d.probes == (probes && (n + 1) % (c.per_probe as int) == 0),
        d.machine == (has_machine && (n + 1) % (c.per_machine as int) == 0 && !motor_down),
        d.slews == (travelling && (n + 1) % (c.per_machine as int) == 0),
{
    Due {
        probes: probes && (n + 1) % c.per_probe == 0,
        machine: has_machine && (n + 1) % c.per_machine == 0 && !motor_down,
        slews: travelling && (n + 1) % c.per_machine == 0,
    }
}

/// The places of the speakers, of the first `n`, whose part of the circuit still runs.
pub open spec fn running(down: Seq<bool>, n: int) -> Seq<usize>
    decreases n,
{
    if n <= 0 {
        Seq::empty()
    } else if down[n - 1] {
        running(down, n - 1)
    } else {
        running(down, n - 1).push((n - 1) as usize)
    }
}

/// The places of the speakers that are heard: one whose part of the circuit stopped falls
/// silent, and only that one.
pub fn live_taps(down: &Vec<bool>) -> (r: Vec<usize>)
    ensures
        r@ == running(down@, down@.len() as int),
{
    let mut out: Vec<usize> = Vec::new();
    let mut i: usize = 0;
    while i < down.len()
        invariant
            i <= down@.len(),
            out@ == running(down@, i as int),
        decreases down.len() - i,
    {
        if !down[i] {
            out.push(i);
        }
        i += 1;
    }
    out
}

/// What the machine wrote last.
#[derive(Clone, Copy, Debug)]
pub struct Writes {
    pub wiper: Real,
    pub lim_top: bool,
    pub lim_bot: bool,
}

/// A part as the machine drives it.
pub open spec fn driven_kind(id: u32, kind: ElementKind, w: Writes) -> ElementKind {
    match kind {
        ElementKind::Potentiometer { ohms, .. } if id == SENSOR_ID => ElementKind::Potentiometer {
            ohms,
            wiper: w.wiper,
        },
        ElementKind::Switch { .. } if id == LIM_TOP_ID => ElementKind::Switch {
            closed: w.lim_top,
        },
        ElementKind::Switch { .. } if id == LIM_BOT_ID => ElementKind::Switch {
            closed: w.lim_bot,
        },
        _ => kind,
    }
}

/// A document with the machine's parts as the machine drives them.
pub open spec fn mirrored(doc: Seq<Part>, w: Writes) -> Seq<Part> {
    Seq::new(doc.len(), |i: int| Part { kind: driven_kind(doc[i].id, doc[i].kind, w), ..doc[i] })
}

/// Keeps the stored document tracking what the machine drives.
pub fn mirror_machine(elems: &mut Vec<ElementSpec>, w: Writes)
    ensures
        lists::views(final(elems)@) == mirrored(lists::views(old(elems)@), w),
{
    let ghost before = elems@;
    let mut i: usize = 0;
    while i < elems.len()
        invariant
            i <= elems@.len(),
            elems@.len() == before.len(),
            before == old(elems)@,
            forall|k: int|
                0 <= k < i ==> (#[trigger] elems@[k])@ == (Part {
                    kind: driven_kind(before[k].id, before[k].kind, w),
                    ..before[k]@
                }),
            forall|k: int| i <= k < elems@.len() ==> #[trigger] elems@[k] == before[k],
        decreases elems.len() - i,
    {
        let id: u32 = elems[i].id;
        let kind: ElementKind = match elems[i].kind {
            ElementKind::Potentiometer { ohms, wiper } => ElementKind::Potentiometer {
                ohms,
                wiper: if id == SENSOR_ID {
                    w.wiper
                } else {
                    wiper
                },
            },
            ElementKind::Switch { closed } => ElementKind::Switch {
                closed: if id == LIM_TOP_ID {
                    w.lim_top
                } else if id == LIM_BOT_ID {
                    w.lim_bot
                } else {
                    closed
                },
            },
            other => other,
        };
        let mut e: ElementSpec = elems[i].copied();
        e.kind = kind;
        elems.set(i, e);
        i += 1;
    }
    proof {
        assert(lists::views(elems@) =~= mirrored(lists::views(before), w));
    }
}

/// Whether a damage report is sent: where there is something in it, or where there was
/// something in the last.
pub open spec fn report_sent(shown: bool, empty: bool) -> bool {
    !empty || shown
}

/// Whether this tick's damage report is sent.
pub fn damage_due(sim: &mut Sim, empty: bool) -> (due: bool)
    ensures
        due == report_sent(old(sim).damage_shown, empty),
        *final(sim) == (Sim { damage_shown: !empty, ..*old(sim) }),
{
    let due: bool = !empty || sim.damage_shown;
    sim.damage_shown = !empty;
    due
}

/// The reports that are sent over some ticks with nothing in them.
pub open spec fn quiet_reports(shown: bool, n: nat) -> nat
    decreases n,
{
    if n == 0 {
        0
    } else {
        (if report_sent(shown, true) {
            1nat
        } else {
            0
        }) + quiet_reports(false, (n - 1) as nat)
    }
}

/// After the last part was repaired exactly one empty report goes out; a quiet room costs
/// nothing.
pub proof fn law_one_empty_report_follows(shown: bool, n: nat)
    ensures
        quiet_reports(shown, n) == if shown && n > 0 {
            1nat
        } else {
            0
        },
    decreases n,
{
    if n > 0 {
        law_one_empty_report_follows(false, (n - 1) as nat);
    }
}

/// The two net maps say the same.
pub open spec fn same_map(a: NetMap, b: NetMap) -> bool {
    a.live@ == b.live@ && a.probes@ == b.probes@
}

fn is_same_map(a: &NetMap, b: &NetMap) -> (r: bool)
    ensures
        r == same_map(*a, *b),
{
    if a.live.len() != b.live.len() || a.probes.len() != b.probes.len() {
        return false;
    }
    let mut i: usize = 0;
    while i < a.live.len()
        invariant
            i <= a.live@.len(),
            a.live@.len() == b.live@.len(),
            a.probes@.len() == b.probes@.len(),
            forall|k: int| 0 <= k < i ==> a.live@[k] == b.live@[k],
        decreases a.live.len() - i,
    {
        if a.live[i] != b.live[i] {
            return false;
        }
        i += 1;
    }
    assert(a.live@ =~= b.live@);
    let mut j: usize = 0;
    while j < a.probes.len()
        invariant
            j <= a.probes@.len(),
            a.live@ == b.live@,
            a.probes@.len() == b.probes@.len(),
            forall|k: int| 0 <= k < j ==> a.probes@[k] == b.probes@[k],
        decreases a.probes.len() - j,
    {
        if a.probes[j].pid != b.probes[j].pid || a.probes[j].nlid != b.probes[j].nlid {
            assert(a.probes@[j as int] != b.probes@[j as int]);
            return false;
        }
        j += 1;
    }
    assert(a.probes@ =~= b.probes@);
    true
}

/// Whether a net map is sent: where it differs from the one that was sent last.
pub open spec fn map_sent(shown: Option<NetMap>, next: NetMap) -> bool {
    match shown {
        Some(last) => !same_map(last, next),
        None => true,
    }
}

/// Whether this tick's net map is sent.
pub fn netmap_due(sim: &mut Sim, next: NetMap) -> (due: bool)
    ensures
        due == map_sent(old(sim).netmap_shown, next),
        due ==> *final(sim) == (Sim { netmap_shown: Some(next), ..*old(sim) }),
        !due ==> *final(sim) == *old(sim),
{
    let same: bool = match &sim.netmap_shown {
        Some(m) => is_same_map(m, &next),
        None => false,
    };
    if same {
        false
    } else {
        sim.netmap_shown = Some(next);
        true
    }
}

/// A net map that was sent is not sent again before it changes, and is sent again to
/// somebody who joins.
pub proof fn law_a_net_map_is_sent_once(sent: NetMap, next: NetMap)
    ensures
        map_sent(Some(sent), next) <==> !same_map(sent, next),
        same_map(sent, sent),
        map_sent(None, next),
{
}

/// A win is worth a save even if nobody edited anything.
pub fn note_win(room: &mut Room, before: bool, after: bool)
    ensures
        *final(room) == (Room { dirty: old(room).dirty || (after && !before), ..*old(room) }),
{
    if after && !before {
        room.dirty = true;
    }
}

/// A command was made: what it does to the room, to what the room keeps beside its document and
/// to what the tick gathers, and what is to be done outside.
pub open spec fn command_made(
    a: Room,
    b: Room,
    s: Sim,
    t: Sim,
    w: Work,
    x: Work,
    cmd: Cmd,
    ans: Answers,
    acts: Seq<Action>,
) -> bool {
    match cmd {
        Cmd::Interact { who, id, op } => {
            &&& gated::interact_done(a, b, s, t, who, id, op, ans.verdict, ans.gap, acts)
            &&& x == w
        },
        Cmd::Edit { who, op } => gated::edit_made(a, b, s, t, who, op, ans.verdict, acts) && x == w,
        Cmd::Probe { elem, pin, kind } => {
            room::probe_toggled(a, b, elem, pin, kind, acts) && t == s && x == w
        },
        Cmd::ProbeRef { pid, elem, pin } => {
            room::reference_set(a, b, pid, elem, pin, acts) && t == s && x == w
        },
        Cmd::Panel { op } => room::panels_changed(a, b, op@, acts) && t == s && x == w,
        Cmd::Scope { op } => room::scopes_changed(a, b, op@, acts) && t == s && x == w,
        Cmd::LabelBox { op } => room::label_boxes_changed(a, b, op@, acts) && t == s && x == w,
        Cmd::NetLabel { op } => room::net_labels_changed(a, b, op@, acts) && t == s && x == w,
        Cmd::Layer { op } => room::layers_changed(a, b, op@, acts) && t == s && x == w,
        Cmd::LayerClaim { who, lid, claim } => {
            room::layer_asked(a, b, who, lid, claim, acts) && t == s && x == w
        },
        Cmd::Sensor { who, id, q } => {
            &&& b == a && t == s && acts.len() == 0
            &&& 900 <= id <= 999 ==> x == w
            &&& !(900 <= id <= 999) ==> {
                &&& x == (Work { readings: x.readings, ..w })
                &&& x.readings@.len() == w.readings@.len() + 1
                &&& forall|j: int|
                    0 <= j < w.readings@.len() ==> #[trigger] x.readings@[j] == w.readings@[j]
                &&& x.readings@.last().who == who
                &&& x.readings@.last().id == id
                &&& x.readings@.last().q == q
            }
        },
        Cmd::MachineReset => {
            &&& t == s && x == w
            &&& !s.has_machine ==> b == a && acts.len() == 0
            &&& s.has_machine ==> {
                &&& b == (Room { ext: false, dirty: true, ..a })
                &&& acts.len() == 1 && acts[0] is ResetMachine
            }
        },
        Cmd::MachineMove { who, dx, dy } => {
            &&& b == a && t == s && acts.len() == 0
            &&& !s.has_machine ==> x == w
            &&& s.has_machine ==> {
                &&& x == (Work { pending: x.pending, mover: who, ..w })
                &&& adds_up(w.pending.0 as int, dx as int, x.pending.0 as int)
                &&& adds_up(w.pending.1 as int, dy as int, x.pending.1 as int)
            }
        },
        Cmd::Repair { who, id } => {
            &&& b == a && t == s && x == w && acts.len() == 1
            &&& ans.verdict matches Some(v) ==> (acts[0] matches Action::Refuse { who: p, ctx, why } && p
                == who && ctx is Repair && why == v)
            &&& ans.verdict is None ==> (acts[0] matches Action::Repair { id: i } && i == id)
        },
        Cmd::Join => {
            &&& b == a && x == w && acts.len() == 1
            &&& t == (Sim { netmap_shown: t.netmap_shown, ..s })
            &&& t.netmap_shown is None
            &&& acts[0] matches Action::TellPresence { n } && n == a.population
        },
        Cmd::Leave { who } => room::session_left(a, b, s, t, w, x, who, ans.over@, acts),
        Cmd::Stop { checkpoint } => {
            &&& b == a && t == s && acts.len() == 0
            &&& x == (Work { stop: x.stop, ..w })
            &&& x.stop matches Some(c) && c == checkpoint
        },
    }
}

/// The sum of two moves, where it can be had; and the end of the range where it cannot.
pub open spec fn adds_up(had: int, more: int, sum: int) -> bool {
    &&& -0x8000_0000 <= had + more <= 0x7fff_ffff ==> sum == had + more
    &&& had + more < -0x8000_0000 ==> sum == -0x8000_0000
    &&& had + more > 0x7fff_ffff ==> sum == 0x7fff_ffff
}

/// Every command does what it says: to what it names, with what it carries, and to nothing
/// else.
pub proof fn law_every_command_does_what_it_says(
    a: Room,
    b: Room,
    s: Sim,
    t: Sim,
    w: Work,
    x: Work,
    cmd: Cmd,
    ans: Answers,
    acts: Seq<Action>,
)
    requires
        cmd_step(a, b, s, t, w, x, cmd, ans, acts),
    ensures
        command_made(a, b, s, t, w, x, cmd, ans, acts),
{
    match cmd {
        Cmd::Interact { who, id, op } => {
            gated::law_a_flip_or_a_turn_is_made(a, b, s, t, who, id, op, ans.verdict, ans.gap, acts);
        },
        Cmd::Edit { who, op } => {
            gated::law_an_edit_is_made(a, b, s, t, who, op, ans.verdict, acts);
        },
        Cmd::Probe { elem, pin, kind } => {
            room::law_a_probe_is_on_its_own_pin(a, b, elem, pin, kind, acts);
        },
        Cmd::ProbeRef { pid, elem, pin } => {
            room::law_a_reference_is_the_named_point(a, b, pid, elem, pin, acts);
        },
        Cmd::Panel { op } => {
            room::law_an_op_changes_its_own_list(a, b, op@, acts);
        },
        Cmd::LabelBox { op } => {
            room::law_an_op_changes_its_own_list(a, b, op@, acts);
        },
        Cmd::Layer { op } => {
            room::law_an_op_changes_its_own_list(a, b, op@, acts);
        },
        Cmd::NetLabel { op } => {
            room::law_a_label_op_changes_labels(a, b, op@, acts);
        },
        Cmd::Scope { op } => {
            room::law_a_scope_op_changes_scopes(a, b, op@, acts);
        },
        Cmd::LayerClaim { who, lid, claim } => {
            room::law_a_layer_goes_to_who_asked_first(a, b, who, lid, claim, acts);
        },
        Cmd::Leave { who } => {
            room::law_whoever_leaves_lets_go(a, b, s, t, w, x, who, ans.over@, acts);
        },
        _ => {},
    }
}

/// What is asked before a command is made: of a flip, a turn or an edit, whether the solver
/// would have the document that it leaves, and of a wiper where it is and where it is to go; of
/// a repair, whether it would have the document there is; of a leave, which layer each part
/// reads. A fixture and an edit that is not taken ask nothing, nor does any other command.
pub open spec fn ask_fits(room: Room, cmd: Cmd, ask: Ask) -> bool {
    let doc = lists::views(room.elements@);
    match cmd {
        Cmd::Interact { id, op, .. } => if 900 <= id <= 999 {
            ask is Nothing
        } else {
            ask matches Ask::Judge { candidate, journey } && {
                &&& document::turn_made(doc, id, op, lists::views(candidate@))
                &&& op is SetSwitch ==> journey is None
                &&& op matches InteractOp::SetValue { value } ==> match journey {
                    None => forall|i: int| #[trigger]
                        document::found(doc, id, i) ==> !(doc[i].kind is Potentiometer),
                    Some((from, to)) => document::wiper_to(value, to) && exists|i: int| #[trigger]
                        document::found(doc, id, i) && (doc[i].kind matches ElementKind::Potentiometer {
                            wiper,
                            ..
                        } && wiper == from),
                }
            }
        },
        Cmd::Edit { op, .. } => if document::edit_taken(doc, op@) {
            ask matches Ask::JudgeEdit { candidate } && document::edit_done(
                doc,
                op@,
                lists::views(candidate@),
            )
        } else {
            ask is Nothing
        },
        Cmd::Repair { .. } => ask is JudgeRoom,
        Cmd::Leave { .. } => ask is Layers,
        _ => ask is Nothing,
    }
}

/// What is asked is what the command needs.
pub proof fn law_what_is_asked_is_what_is_needed(room: Room, cmd: Cmd, ask: Ask)
    requires
        asks(room, cmd, ask),
    ensures
        ask_fits(room, cmd, ask),
{
    let doc = lists::views(room.elements@);
    match cmd {
        Cmd::Interact { id, op, .. } => {
            document::law_a_turn_reaches_one_part(doc, id, op);
            document::lemma_found(doc, id);
            if let Some(i) = document::part_at(doc, id) {
                assert(document::found(doc, id, i));
            }
        },
        Cmd::Edit { op, .. } => {
            document::law_when_an_edit_is_taken(doc, op@);
            if let Some(next) = document::edited(doc, op@) {
                document::law_an_edit_changes_only_what_it_names(doc, op@, next);
            }
        },
        _ => {},
    }
}

/// A reading that the solver took is the part's, brands the room as driven from outside, and
/// has it saved where it was not branded; the room hears of it where it is news. One that the
/// solver did not take changes nothing.
pub proof fn law_a_reading_is_noted(
    a: Room,
    b: Room,
    s: Sim,
    t: Sim,
    w: Work,
    x: Work,
    r: Reading,
    taken: bool,
)
    requires
        reading_step(a, b, s, t, w, x, r, taken),
    ensures
        !taken ==> b == a && t == s && x == w,
        taken ==> {
            let news = x.sensor_out@.len() > w.sensor_out@.len();
            &&& b == (Room { ext: true, dirty: b.dirty, ..a })
            &&& a.ext ==> b.dirty == a.dirty
            &&& !a.ext ==> b.dirty
            &&& t == (Sim { driven: t.driven, ..s })
            &&& sensors::reading_on(s.driven@, r, t.driven@, news)
            &&& x == (Work { sensor_out: x.sensor_out, ..w })
            &&& !news ==> x.sensor_out@ == w.sensor_out@
            &&& news ==> {
                &&& x.sensor_out@.len() == w.sensor_out@.len() + 1
                &&& forall|j: int|
                    0 <= j < w.sensor_out@.len() ==> #[trigger] x.sensor_out@[j] == w.sensor_out@[j]
                &&& x.sensor_out@.last().id == r.id
                &&& x.sensor_out@.last().q == r.q
            }
        },
{
    sensors::law_a_reading_lands_on_its_part(s.driven@, r);
}

/// The document tracks what the machine drives: the sensor's wiper and the two limit switches,
/// where those parts are what they should be. Nothing else of any part changes.
pub proof fn law_the_document_tracks_the_machine(doc: Seq<Part>, w: Writes, i: int)
    requires
        0 <= i < doc.len(),
    ensures
        mirrored(doc, w).len() == doc.len(),
        ({
            let (p, q) = (doc[i], mirrored(doc, w)[i]);
            &&& q.id == p.id && q.pins == p.pins && q.name == p.name && q.tier == p.tier && q.rot == p.rot
            &&& match (p.kind, q.kind) {
                (ElementKind::Potentiometer { ohms, wiper }, ElementKind::Potentiometer {
                    ohms: o,
                    wiper: v,
                }) => o == ohms && v == if p.id == 901 {
                    w.wiper
                } else {
                    wiper
                },
                (ElementKind::Switch { closed }, ElementKind::Switch { closed: c }) => c == if p.id
                    == 902 {
                    w.lim_top
                } else if p.id == 903 {
                    w.lim_bot
                } else {
                    closed
                },
                (before, after) => after == before,
            }
        }),
{
}

/// How a tick is shared out: four solver steps at a time where a speaker is heard, else sixteen
/// where there is a probe, else thirty-two; a probe every sixteen, the machine every thirty-two;
/// and as many whole periods of the machine as fit, one at least and two hundred and fifty at
/// most.
pub proof fn law_a_tick_is_shared_out(taps: bool, probes: bool, steps: u32, c: Cadence)
    requires
        c.step == finest(taps, probes),
        c.per_probe == at_least_one(SAMPLE_EVERY as int / c.step as int),
        c.per_machine == at_least_one(MACHINE_SUBSTEPS as int / c.step as int),
        c.chunks == periods(steps) * c.per_machine,
    ensures
        taps ==> c.step == 4 && c.per_probe == 4 && c.per_machine == 8,
        !taps && probes ==> c.step == 16 && c.per_probe == 1 && c.per_machine == 2,
        !taps && !probes ==> c.step == 32 && c.per_machine == 1,
        ({
            let all = c.chunks * c.step;
            &&& all % 32 == 0
            &&& 32 <= all <= 8000
            &&& steps >= 8000 ==> all == 8000
            &&& 32 <= steps < 8000 ==> all <= steps < all + 32
            &&& steps < 32 ==> all == 32
        }),
{
    law_cadences_nest(taps, probes, steps, c);
}

/// The speakers that are heard are exactly those whose part of the circuit runs, in order.
pub proof fn law_a_speaker_is_heard_while_it_runs(down: Seq<bool>, n: int)
    requires
        0 <= n <= down.len(),
        n <= usize::MAX,
    ensures
        forall|i: int| 0 <= i < n ==> (#[trigger] running(down, n).contains(i as usize) <==> !down[i]),
        forall|k: int|
            0 <= k < running(down, n).len() ==> (#[trigger] running(down, n)[k]) < n,
        forall|j: int, k: int|
            0 <= j < k < running(down, n).len() ==> #[trigger] running(down, n)[j] < #[trigger] running(
                down,
                n,
            )[k],
    decreases n,
{
    if n > 0 {
        law_a_speaker_is_heard_while_it_runs(down, n - 1);
        let (had, now) = (running(down, n - 1), running(down, n));
        assert forall|i: int| 0 <= i < n implies (#[trigger] now.contains(i as usize) <==> !down[i]) by {
            if i < n - 1 {
                assert(had.contains(i as usize) <==> !down[i]);
                if had.contains(i as usize) {
                    let k = choose|k: int| 0 <= k < had.len() && had[k] == i as usize;
                    assert(now[k] == i as usize);
                }
                if now.contains(i as usize) {
                    let k = choose|k: int| 0 <= k < now.len() && now[k] == i as usize;
                    assert(had[k] == i as usize);
                }
            } else {
                if down[i] && now.contains(i as usize) {
                    let k = choose|k: int| 0 <= k < now.len() && now[k] == i as usize;
                    assert(had[k] < n - 1);
                }
                if !down[i] {
                    assert(now[had.len() as int] == i as usize);
                }
            }
        }
    }
}

/// A damage report goes out where there is something in it, and where there is nothing in it
/// but there was in the last one.
pub proof fn law_when_a_report_is_sent(shown: bool, empty: bool)
    ensures
        !empty ==> report_sent(shown, empty),
        empty && shown ==> report_sent(shown, empty),
        empty && !shown ==> !report_sent(shown, empty),
{
}

/// Two net maps say the same where they name the same live labels and the same labels of
/// probes, in order.
pub proof fn law_when_two_maps_say_the_same(a: NetMap, b: NetMap)
    ensures
        same_map(a, b) <==> {
            &&& a.live@.len() == b.live@.len()
            &&& a.probes@.len() == b.probes@.len()
            &&& forall|i: int| 0 <= i < a.live@.len() ==> #[trigger] a.live@[i] == b.live@[i]
            &&& forall|i: int|
                0 <= i < a.probes@.len() ==> (#[trigger] a.probes@[i]).pid == b.probes@[i].pid
                    && a.probes@[i].nlid == b.probes@[i].nlid
        },
{
    if a.live@.len() == b.live@.len() && a.probes@.len() == b.probes@.len() && (forall|i: int|
        0 <= i < a.live@.len() ==> #[trigger] a.live@[i] == b.live@[i]) && (forall|i: int|
        0 <= i < a.probes@.len() ==> (#[trigger] a.probes@[i]).pid == b.probes@[i].pid
            && a.probes@[i].nlid == b.probes@[i].nlid) {
        assert(a.live@ =~= b.live@);
        assert(a.probes@ =~= b.probes@);
    }
}

} // verus!
