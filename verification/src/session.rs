//! One connection to a room: what each message asks for, and when the session is over.
use vstd::prelude::*;

use crate::binary64::Real;
use crate::chat::{self, clean_chat_text, push_chat, ChatLine, CHAT_SCROLLBACK, MAX_CHAT_LEN};
use crate::commands::Cmd;
use crate::document::{DocOp, InteractOp};
use crate::fixture;
use crate::gated;
use crate::handle::Life;
use crate::lists;
use crate::netlabels::NetLabelOp;
use crate::probes::ProbeKind;
use crate::regions::{self, take_number, LabelBoxOp, LayerOp, PanelOp};
use crate::room::{Action, Reject, Room, Sim, Work};
use crate::scopes::ScopeOp;
use crate::sensors::MAX_SENSOR_BATCH;
use crate::text::{self, is_empty_text};
use crate::tick::{self, Answers};

verus! {

/// A peer that was silent for so long, in milliseconds, is gone.
pub const DEAD_AFTER_MS: u64 = 45_000;

/// What a client can say.
pub enum ClientMsg {
    Interact { id: u32, op: InteractOp },
    Edit { op: DocOp },
    Probe { elem: u32, pin: usize, kind: ProbeKind },
    ProbeRef { pid: u32, elem: u32, pin: usize },
    Panel { op: PanelOp },
    Scope { op: ScopeOp },
    Labelbox { op: LabelBoxOp },
    Netlabel { op: NetLabelOp },
    Layer { op: LayerOp },
    LayerClaim { lid: u32, claim: bool },
    /// Readings from outside: a part, and how much of full scale it reads.
    Sensor { s: Vec<(u32, u16)> },
    Cursor { x: Real, y: Real },
    MachineReset,
    MachineMove { dx: i32, dy: i32 },
    Repair { id: u32 },
    Chat { text: String },
}

/// The budgets of a connection.
#[derive(Clone, Copy, Debug, PartialEq, Eq, Structural)]
pub enum Budget {
    Sensor,
    Chat,
}

/// The budget that a message draws on, if any.
pub fn budget_of(msg: &ClientMsg) -> (r: Option<Budget>)
    ensures
        r == match msg {
            ClientMsg::Sensor { .. } => Some(Budget::Sensor),
            ClientMsg::Chat { .. } => Some(Budget::Chat),
            _ => None,
        },
{
    match msg {
        ClientMsg::Sensor { .. } => Some(Budget::Sensor),
        ClientMsg::Chat { .. } => Some(Budget::Chat),
        _ => None,
    }
}

/// What a message comes to.
pub enum Out {
    /// The sim task is to make this command.
    Command { cmd: Cmd },
    /// The room is to hear this line.
    Say { line: ChatLine },
    /// The room is to see where this session points.
    Point { who: u32, x: Real, y: Real },
}

/// The command that a message is, for one that becomes exactly one command.
pub open spec fn command_of(me: u32, msg: ClientMsg) -> Option<Cmd> {
    match msg {
        ClientMsg::Interact { id, op } => Some(Cmd::Interact { who: me, id, op }),
        ClientMsg::Edit { op } => Some(Cmd::Edit { who: me, op }),
        ClientMsg::Probe { elem, pin, kind } => Some(Cmd::Probe { elem, pin, kind }),
        ClientMsg::ProbeRef { pid, elem, pin } => Some(Cmd::ProbeRef { pid, elem, pin }),
        ClientMsg::Panel { op } => Some(Cmd::Panel { op }),
        ClientMsg::Scope { op } => Some(Cmd::Scope { op }),
        ClientMsg::Labelbox { op } => Some(Cmd::LabelBox { op }),
        ClientMsg::Netlabel { op } => Some(Cmd::NetLabel { op }),
        ClientMsg::Layer { op } => Some(Cmd::Layer { op }),
        ClientMsg::LayerClaim { lid, claim } => Some(Cmd::LayerClaim { who: me, lid, claim }),
        ClientMsg::MachineReset => Some(Cmd::MachineReset),
        ClientMsg::MachineMove { dx, dy } => Some(Cmd::MachineMove { who: me, dx, dy }),
        ClientMsg::Repair { id } => Some(Cmd::Repair { who: me, id }),
        ClientMsg::Sensor { .. } => None,
        ClientMsg::Cursor { .. } => None,
        ClientMsg::Chat { .. } => None,
    }
}

/// The commands of a batch of readings. A batch is bounded.
pub open spec fn readings_of(me: u32, s: Seq<(u32, u16)>) -> Seq<Out> {
    let few = text::capped(s, MAX_SENSOR_BATCH as nat);
    Seq::new(
        few.len(),
        |i: int| Out::Command { cmd: Cmd::Sensor { who: me, id: few[i].0, q: few[i].1 } },
    )
}

/// What a message does to a room, and what it comes to. What is over budget is dropped;
/// so is a chat line with nothing to show. Chat is said and remembered for a while, and
/// never becomes a command.
pub open spec fn heard(
    a: Room,
    b: Room,
    me: u32,
    msg: ClientMsg,
    within: bool,
    out: Seq<Out>,
) -> bool {
    match command_of(me, msg) {
        Some(cmd) => b == a && out == seq![Out::Command { cmd }],
        None => match msg {
            ClientMsg::Sensor { s } => b == a && out == if within {
                readings_of(me, s@)
            } else {
                Seq::<Out>::empty()
            },
            ClientMsg::Chat { text } => {
                let said = text::cleaned(text@, MAX_CHAT_LEN as nat);
                if !within || said.len() == 0 {
                    b == a && out == Seq::<Out>::empty()
                } else {
                    &&& out.len() == 1
                    &&& out[0] matches Out::Say { line }
                    &&& line.who == me && line.text@ == said
                    &&& b == (Room { chat: b.chat, ..a })
                    &&& b.chat@.len() > 0
                    &&& b.chat@.last().who == me && b.chat@.last().text@ == said
                    &&& b.chat@ == chat::tail(a.chat@.push(b.chat@.last()), CHAT_SCROLLBACK as nat)
                }
            },
            ClientMsg::Cursor { x, y } => b == a && out == seq![Out::Point { who: me, x, y }],
            _ => false,
        },
    }
}

fn one_command(cmd: Cmd) -> (out: Vec<Out>)
    ensures
        out@ == seq![Out::Command { cmd }],
{
    let mut out: Vec<Out> = Vec::new();
    out.push(Out::Command { cmd });
    assert(out@ =~= seq![Out::Command { cmd }]);
    out
}

/// Takes a message of a session. `within` says whether it is within the session's budget.
pub fn receive(room: &mut Room, me: u32, msg: ClientMsg, within: bool) -> (out: Vec<Out>)
    requires
        old(room).chat@.len() < usize::MAX,
    ensures
        heard(*old(room), *final(room), me, msg, within, out@),
{
    match msg {
        ClientMsg::Interact { id, op } => one_command(Cmd::Interact { who: me, id, op }),
        ClientMsg::Edit { op } => one_command(Cmd::Edit { who: me, op }),
        ClientMsg::Probe { elem, pin, kind } => one_command(Cmd::Probe { elem, pin, kind }),
        ClientMsg::ProbeRef { pid, elem, pin } => one_command(Cmd::ProbeRef { pid, elem, pin }),
        ClientMsg::Panel { op } => one_command(Cmd::Panel { op }),
        ClientMsg::Scope { op } => one_command(Cmd::Scope { op }),
        ClientMsg::Labelbox { op } => one_command(Cmd::LabelBox { op }),
        ClientMsg::Netlabel { op } => one_command(Cmd::NetLabel { op }),
        ClientMsg::Layer { op } => one_command(Cmd::Layer { op }),
        ClientMsg::LayerClaim { lid, claim } => one_command(
            Cmd::LayerClaim { who: me, lid, claim },
        ),
        ClientMsg::MachineReset => one_command(Cmd::MachineReset),
        ClientMsg::MachineMove { dx, dy } => one_command(Cmd::MachineMove { who: me, dx, dy }),
        ClientMsg::Repair { id } => one_command(Cmd::Repair { who: me, id }),
        ClientMsg::Sensor { s } => {
            let mut out: Vec<Out> = Vec::new();
            if within {
                let ghost want = readings_of(me, s@);
                let n: usize = if s.len() < MAX_SENSOR_BATCH {
                    s.len()
                } else {
                    MAX_SENSOR_BATCH
                };
                let mut i: usize = 0;
                while i < n
                    invariant
                        i <= n <= s@.len(),
                        want == readings_of(me, s@),
                        want.len() == n,
                        out@ == want.take(i as int),
                    decreases n - i,
                {
                    out.push(Out::Command { cmd: Cmd::Sensor { who: me, id: s[i].0, q: s[i].1 } });
                    i += 1;
                    proof {
                        assert(out@ =~= want.take(i as int));
                    }
                }
                assert(want.take(n as int) =~= want);
            }
            out
        },
        ClientMsg::Cursor { x, y } => {
            let mut out: Vec<Out> = Vec::new();
            out.push(Out::Point { who: me, x, y });
            assert(out@ =~= seq![Out::Point { who: me, x, y }]);
            out
        },
        ClientMsg::Chat { text } => {
            let mut out: Vec<Out> = Vec::new();
            if within {
                let said: String = clean_chat_text(text.as_str());
                if !is_empty_text(said.as_str()) {
                    let again: String = said.clone();
                    let kept: ChatLine = ChatLine { who: me, text: again };
                    push_chat(&mut room.chat, kept);
                    out.push(Out::Say { line: ChatLine { who: me, text: said } });
                    proof {
                        let all = old(room).chat@.push(kept);
                        assert(chat::tail(all, CHAT_SCROLLBACK as nat).last() == kept);
                    }
                }
            }
            out
        },
    }
}

/// What a session said never becomes a command of another session's: every command that
/// carries a name carries the session's own.
pub proof fn law_nobody_speaks_for_another(
    a: Room,
    b: Room,
    me: u32,
    msg: ClientMsg,
    within: bool,
    out: Seq<Out>,
    i: int,
)
    requires
        heard(a, b, me, msg, within, out),
        0 <= i < out.len(),
    ensures
        match out[i] {
            Out::Command { cmd } => match cmd {
                Cmd::Interact { who, .. } => who == me,
                Cmd::Edit { who, .. } => who == me,
                Cmd::LayerClaim { who, .. } => who == me,
                Cmd::Sensor { who, .. } => who == me,
                Cmd::MachineMove { who, .. } => who == me,
                Cmd::Repair { who, .. } => who == me,
                Cmd::Leave { .. } => false,
                Cmd::Join => false,
                Cmd::Stop { .. } => false,
                _ => true,
            },
            Out::Say { line } => line.who == me,
            Out::Point { who, .. } => who == me,
        },
        out.len() <= MAX_SENSOR_BATCH,
{
}

/// Chat leaves the document, its instruments and the save flag alone.
pub proof fn law_chat_is_not_room_state(
    a: Room,
    b: Room,
    me: u32,
    msg: ClientMsg,
    within: bool,
    out: Seq<Out>,
)
    requires
        heard(a, b, me, msg, within, out),
    ensures
        b == (Room { chat: b.chat, ..a }),
        !(msg is Chat) ==> b == a,
{
}

/// The number of a new session.
pub fn greet(room: &mut Room) -> (me: u32)
    ensures
        me == old(room).next_client,
        *final(room) == (Room { next_client: regions::following(me), ..*old(room) }),
{
    take_number(&mut room.next_client)
}

/// What happens to a session from outside.
pub enum Happening {
    /// The room's life changed.
    Lived { life: Life },
    /// It is time for a ping; the peer was silent for so long.
    Pulse { silent_ms: u64 },
    /// The room said something.
    Event,
    /// The session was too slow and missed something.
    Lagged,
    /// The room will say nothing more.
    EventsOver,
    /// The peer sent something that is no message.
    Noise,
    /// The peer hung up.
    HungUp,
    /// A send did not go through in time.
    SendFailed,
}

/// What a session does next.
#[derive(Clone, Copy, Debug, PartialEq, Eq, Structural)]
pub enum Next {
    Wait,
    Ping,
    Forward,
    /// Tell the peer that the room is gone, then close.
    SayGone,
    Close,
}

/// What a session does next. Missing something is fine: the next frame is a full one.
pub fn session_step(h: Happening) -> (n: Next)
    ensures
        n == match h {
            Happening::Lived { life } => if life == Life::Gone {
                Next::SayGone
            } else {
                Next::Wait
            },
            Happening::Pulse { silent_ms } => if silent_ms >= DEAD_AFTER_MS {
                Next::Close
            } else {
                Next::Ping
            },
            Happening::Event => Next::Forward,
            Happening::Lagged => Next::Wait,
            Happening::EventsOver => Next::Close,
            Happening::Noise => Next::Wait,
            Happening::HungUp => Next::Close,
            Happening::SendFailed => Next::Close,
        },
{
    match h {
        Happening::Lived { life } => if life == Life::Gone {
            Next::SayGone
        } else {
            Next::Wait
        },
        Happening::Pulse { silent_ms } => if silent_ms >= DEAD_AFTER_MS {
            Next::Close
        } else {
            Next::Ping
        },
        Happening::Event => Next::Forward,
        Happening::Lagged => Next::Wait,
        Happening::EventsOver => Next::Close,
        Happening::Noise => Next::Wait,
        Happening::HungUp => Next::Close,
        Happening::SendFailed => Next::Close,
    }
}

/// A message was heard. One that becomes a command becomes one, that carries what the message
/// carried, and the name of who sent it; a batch of readings becomes as many commands, in
/// order, sixty-four at most; a cursor is shown; a line of chat that can be read is said and
/// kept. What is over budget comes to nothing. Nothing but chat changes the room.
pub open spec fn message_heard(
    a: Room,
    b: Room,
    me: u32,
    msg: ClientMsg,
    within: bool,
    out: Seq<Out>,
) -> bool {
    match msg {
        ClientMsg::Interact { id, op } => {
            &&& b == a && out.len() == 1
            &&& out[0] matches Out::Command { cmd }
            &&& cmd matches Cmd::Interact { who, id: i, op: o }
            &&& who == me && i == id && o == op
        },
        ClientMsg::Edit { op } => {
            &&& b == a && out.len() == 1
            &&& out[0] matches Out::Command { cmd }
            &&& cmd matches Cmd::Edit { who, op: o }
            &&& who == me && o == op
        },
        ClientMsg::Probe { elem, pin, kind } => {
            &&& b == a && out.len() == 1
            &&& out[0] matches Out::Command { cmd }
            &&& cmd matches Cmd::Probe { elem: e, pin: p, kind: k }
            &&& e == elem && p == pin && k == kind
        },
        ClientMsg::ProbeRef { pid, elem, pin } => {
            &&& b == a && out.len() == 1
            &&& out[0] matches Out::Command { cmd }
            &&& cmd matches Cmd::ProbeRef { pid: i, elem: e, pin: p }
            &&& i == pid && e == elem && p == pin
        },
        ClientMsg::Panel { op } => {
            &&& b == a && out.len() == 1
            &&& out[0] matches Out::Command { cmd }
            &&& cmd matches Cmd::Panel { op: o }
            &&& o == op
        },
        ClientMsg::Scope { op } => {
            &&& b == a && out.len() == 1
            &&& out[0] matches Out::Command { cmd }
            &&& cmd matches Cmd::Scope { op: o }
            &&& o == op
        },
        ClientMsg::Labelbox { op } => {
            &&& b == a && out.len() == 1
            &&& out[0] matches Out::Command { cmd }
            &&& cmd matches Cmd::LabelBox { op: o }
            &&& o == op
        },
        ClientMsg::Netlabel { op } => {
            &&& b == a && out.len() == 1
            &&& out[0] matches Out::Command { cmd }
            &&& cmd matches Cmd::NetLabel { op: o }
            &&& o == op
        },
        ClientMsg::Layer { op } => {
            &&& b == a && out.len() == 1
            &&& out[0] matches Out::Command { cmd }
            &&& cmd matches Cmd::Layer { op: o }
            &&& o == op
        },
        ClientMsg::LayerClaim { lid, claim } => {
            &&& b == a && out.len() == 1
            &&& out[0] matches Out::Command { cmd }
            &&& cmd matches Cmd::LayerClaim { who, lid: l, claim: c }
            &&& who == me && l == lid && c == claim
        },
        ClientMsg::MachineMove { dx, dy } => {
            &&& b == a && out.len() == 1
            &&& out[0] matches Out::Command { cmd }
            &&& cmd matches Cmd::MachineMove { who, dx: p, dy: q }
            &&& who == me && p == dx && q == dy
        },
        ClientMsg::Repair { id } => {
            &&& b == a && out.len() == 1
            &&& out[0] matches Out::Command { cmd }
            &&& cmd matches Cmd::Repair { who, id: i }
            &&& who == me && i == id
        },
        ClientMsg::MachineReset => {
            &&& b == a && out.len() == 1
            &&& out[0] matches Out::Command { cmd }
            &&& cmd is MachineReset
        },
        ClientMsg::Sensor { s } => {
            &&& b == a
            &&& !within ==> out.len() == 0
            &&& within && s@.len() <= 64 ==> out.len() == s@.len()
            &&& within && s@.len() > 64 ==> out.len() == 64
            &&& forall|i: int|
                0 <= i < out.len() ==> (#[trigger] out[i] matches Out::Command { cmd } && (
                cmd matches Cmd::Sensor { who, id, q } && who == me && id == s@[i].0 && q
                    == s@[i].1))
        },
        ClientMsg::Cursor { x, y } => {
            &&& b == a && out.len() == 1
            &&& out[0] matches Out::Point { who, x: p, y: q }
            &&& who == me && p == x && q == y
        },
        ClientMsg::Chat { text } => {
            ||| b == a && out.len() == 0 && (!within || text::reads_as(text@, 240, Seq::empty()))
            ||| {
                &&& within && out.len() == 1
                &&& out[0] matches Out::Say { line }
                &&& line.who == me
                &&& line.text@.len() > 0
                &&& text::reads_as(text@, 240, line.text@)
                &&& b == (Room { chat: b.chat, ..a })
                &&& chat::line_added(a.chat@, b.chat@)
                &&& b.chat@.last().who == me
                &&& b.chat@.last().text@ == line.text@
            }
        },
    }
}

/// What a message carries is what it comes to.
pub proof fn law_a_message_carries_its_payload(
    a: Room,
    b: Room,
    me: u32,
    msg: ClientMsg,
    within: bool,
    out: Seq<Out>,
)
    requires
        heard(a, b, me, msg, within, out),
    ensures
        message_heard(a, b, me, msg, within, out),
{
    if let ClientMsg::Chat { text } = msg {
        text::law_a_clean_text_reads_as_it_was_written(text@, 240);
        let said = text::cleaned(text@, 240);
        if said.len() == 0 {
            assert(said =~= Seq::<char>::empty());
        }
        if within && said.len() > 0 {
            chat::law_a_line_goes_behind_the_others(a.chat@, b.chat@.last());
        }
    }
}

/// Dragging the machine moves the machine: with nothing else in the tick, the footprint's
/// corners go by exactly what the session asked for, east by `dx` and down by `dy`; and where
/// the solver will not have it, it is the session that asked that hears so.
pub proof fn law_a_drag_moves_the_machine(
    a: Room,
    b: Room,
    me: u32,
    dx: i32,
    dy: i32,
    within: bool,
    out: Seq<Out>,
    c: Room,
    d: Room,
    s: Sim,
    t: Sim,
    u: Sim,
    w: Work,
    x: Work,
    ans: Answers,
    made: Seq<Action>,
    verdict: Option<Reject>,
    acts: Seq<Action>,
)
    requires
        heard(a, b, me, ClientMsg::MachineMove { dx, dy }, within, out),
        s.has_machine,
        w.pending.0 == 0 && w.pending.1 == 0,
        out[0] matches Out::Command { cmd } && tick::cmd_step(b, c, s, t, w, x, cmd, ans, made),
        gated::move_step(c, d, t, u, x, verdict, acts),
    ensures
        fixture::may_move(s.rect@, dx as int, dy as int) && verdict is None ==> {
            &&& u.rect@[0] == s.rect@[0] + dx
            &&& u.rect@[1] == s.rect@[1] + dy
            &&& u.rect@[2] == s.rect@[0] + dx + 16
            &&& u.rect@[3] == s.rect@[1] + dy + 15
            &&& fixture::hoist_stood(
                lists::views(a.elements@),
                s.rect@[0] + dx,
                s.rect@[1] + dy,
                lists::views(d.elements@),
            )
        },
        fixture::may_move(s.rect@, dx as int, dy as int) && verdict is Some ==> {
            &&& d.elements == a.elements
            &&& u.rect == s.rect
            &&& acts.len() == 1
            &&& acts[0] matches Action::Refuse { who, ctx, why } && who == me && ctx is MachineMove && why
                == verdict->0
        },
        !fixture::may_move(s.rect@, dx as int, dy as int) ==> {
            &&& d.elements == a.elements
            &&& u.rect == s.rect
            &&& acts.len() == 0
        },
{
    law_a_message_carries_its_payload(a, b, me, ClientMsg::MachineMove { dx, dy }, within, out);
    if let Out::Command { cmd } = out[0] {
        tick::law_every_command_does_what_it_says(b, c, s, t, w, x, cmd, ans, made);
    }
    gated::law_the_machine_goes_where_it_is_moved(c, d, t, u, x, verdict, acts);
}

} // verus!
