//! The messages of a room that carry no measurements: each is a list of named fields,
//! sent as one JSON object.
use vstd::prelude::*;

use crate::chat::ChatLine;
use crate::probes::{NetMap, ProbeName};
use crate::room::{Context, Reject};
use crate::scopes::copy_ids;
use crate::sensors::Shown;

verus! {

/// What a field of a message holds.
#[derive(Clone, Debug)]
pub enum Datum {
    Null,
    Number(u32),
    Text(String),
    Numbers(Vec<u32>),
    Pairs(Vec<(u32, u32)>),
}

/// What a field of a message holds, as a model.
pub enum Json {
    Null,
    Number(u32),
    Text(Seq<char>),
    Numbers(Seq<u32>),
    Pairs(Seq<(u32, u32)>),
}

impl View for Datum {
    type V = Json;

    open spec fn view(&self) -> Json {
        match self {
            Datum::Null => Json::Null,
            Datum::Number(n) => Json::Number(*n),
            Datum::Text(s) => Json::Text(s@),
            Datum::Numbers(v) => Json::Numbers(v@),
            Datum::Pairs(v) => Json::Pairs(v@),
        }
    }
}

/// A field of a message.
#[derive(Clone, Debug)]
pub struct Field {
    pub key: String,
    pub datum: Datum,
}

/// The fields of a message, as a model.
pub open spec fn fields_view(fields: Seq<Field>) -> Seq<(Seq<char>, Json)> {
    Seq::new(fields.len(), |i: int| (fields[i].key@, fields[i].datum@))
}

/// The text that `serde_json` writes for an object with these fields.
pub uninterp spec fn object_text(fields: Seq<(Seq<char>, Json)>) -> Seq<char>;

/// `serde_json::Value::to_string`, for the object that `serde_json::Map` collects from
/// the fields: numbers as numbers, texts as strings, lists as arrays, and pairs as arrays
/// of two. The text depends on the fields alone; what it is, is not said here.
#[verifier::external_body]
fn write_object(fields: Vec<Field>) -> (r: String)
    ensures
        r@ == object_text(fields_view(fields@)),
{
    let map: serde_json::Map<String, serde_json::Value> = fields.into_iter().map(|f| (f.key, match f.datum {
        Datum::Null => serde_json::Value::Null,
        Datum::Number(n) => serde_json::Value::from(n),
        Datum::Text(s) => serde_json::Value::from(s),
        Datum::Numbers(v) => serde_json::Value::from(v),
        Datum::Pairs(v) => v.into_iter().map(|p| serde_json::Value::from(vec![p.0, p.1])).collect(),
    })).collect();
    serde_json::Value::Object(map).to_string()
}

fn field(key: &str, datum: Datum) -> (f: Field)
    ensures
        f.key@ == key@,
        f.datum == datum,
{
    Field { key: key.to_string(), datum }
}

/// The fields of a chat line: who said it and what, and nothing else.
pub open spec fn chat_said(line: ChatLine) -> Seq<(Seq<char>, Json)> {
    seq![
        ("t"@, Json::Text("chat"@)),
        ("who"@, Json::Number(line.who)),
        ("text"@, Json::Text(line.text@)),
    ]
}

/// The fields of a chat line.
pub fn chat_fields(line: &ChatLine) -> (r: Vec<Field>)
    ensures
        fields_view(r@) == chat_said(*line),
{
    let mut out: Vec<Field> = Vec::new();
    out.push(field("t", Datum::Text("chat".to_string())));
    out.push(field("who", Datum::Number(line.who)));
    out.push(field("text", Datum::Text(line.text.clone())));
    assert(fields_view(out@) =~= chat_said(*line));
    out
}

/// A chat line as a message.
pub fn chat_msg(line: &ChatLine) -> (r: String)
    ensures
        r@ == object_text(chat_said(*line)),
{
    write_object(chat_fields(line))
}

/// The name of what was refused.
pub open spec fn context_name(ctx: Context) -> Seq<char> {
    match ctx {
        Context::Interact => "interact"@,
        Context::Edit => "edit"@,
        Context::Repair => "repair"@,
        Context::MachineMove => "machinemove"@,
    }
}

fn name_context(ctx: Context) -> (r: String)
    ensures
        r@ == context_name(ctx),
{
    match ctx {
        Context::Interact => "interact".to_string(),
        Context::Edit => "edit".to_string(),
        Context::Repair => "repair".to_string(),
        Context::MachineMove => "machinemove".to_string(),
    }
}

/// The fields of a refusal: to whom, of what, why, and which parts are at fault.
pub open spec fn reject_said(who: u32, ctx: Context, r: Reject) -> Seq<(Seq<char>, Json)> {
    seq![
        ("t"@, Json::Text("reject"@)),
        ("who"@, Json::Number(who)),
        ("ctx"@, Json::Text(context_name(ctx))),
        ("code"@, Json::Text(r.code@)),
        (
            "id"@,
            match r.id {
                Some(id) => Json::Number(id),
                None => Json::Null,
            },
        ),
        ("ids"@, Json::Numbers(r.ids@)),
        ("hint"@, Json::Text(r.hint@)),
    ]
}

/// The fields of a refusal.
pub fn reject_fields(who: u32, ctx: Context, r: &Reject) -> (v: Vec<Field>)
    ensures
        fields_view(v@) == reject_said(who, ctx, *r),
{
    let mut out: Vec<Field> = Vec::new();
    out.push(field("t", Datum::Text("reject".to_string())));
    out.push(field("who", Datum::Number(who)));
    out.push(field("ctx", Datum::Text(name_context(ctx))));
    out.push(field("code", Datum::Text(r.code.clone())));
    out.push(
        field(
            "id",
            match r.id {
                Some(id) => Datum::Number(id),
                None => Datum::Null,
            },
        ),
    );
    out.push(field("ids", Datum::Numbers(copy_ids(&r.ids))));
    out.push(field("hint", Datum::Text(r.hint.clone())));
    assert(fields_view(out@) =~= reject_said(who, ctx, *r));
    out
}

/// A refusal as a message.
pub fn reject_msg(who: u32, ctx: Context, r: &Reject) -> (s: String)
    ensures
        s@ == object_text(reject_said(who, ctx, *r)),
{
    write_object(reject_fields(who, ctx, r))
}

/// The fields of the last message of a session whose room is not there.
pub open spec fn gone_said(id: Seq<char>, deleted: bool) -> Seq<(Seq<char>, Json)> {
    seq![
        ("t"@, Json::Text("roomgone"@)),
        ("id"@, Json::Text(id)),
        (
            "reason"@,
            Json::Text(
                if deleted {
                    "deleted"@
                } else {
                    "unknown"@
                },
            ),
        ),
    ]
}

/// The fields of the last message of a session whose room is not there.
pub fn gone_fields(id: &str, deleted: bool) -> (r: Vec<Field>)
    ensures
        fields_view(r@) == gone_said(id@, deleted),
{
    let reason: String = if deleted {
        "deleted".to_string()
    } else {
        "unknown".to_string()
    };
    let mut out: Vec<Field> = Vec::new();
    out.push(field("t", Datum::Text("roomgone".to_string())));
    out.push(field("id", Datum::Text(id.to_string())));
    out.push(field("reason", Datum::Text(reason)));
    assert(fields_view(out@) =~= gone_said(id@, deleted));
    out
}

/// The last message of a session whose room was deleted, or never was.
pub fn gone_msg(id: &str, deleted: bool) -> (r: String)
    ensures
        r@ == object_text(gone_said(id@, deleted)),
{
    write_object(gone_fields(id, deleted))
}

/// The fields of a rename.
pub open spec fn meta_said(id: Seq<char>, name: Seq<char>) -> Seq<(Seq<char>, Json)> {
    seq![("t"@, Json::Text("roommeta"@)), ("id"@, Json::Text(id)), ("name"@, Json::Text(name))]
}

/// A rename as a message.
pub fn meta_msg(id: &str, name: &str) -> (r: String)
    ensures
        r@ == object_text(meta_said(id@, name@)),
{
    let mut out: Vec<Field> = Vec::new();
    out.push(field("t", Datum::Text("roommeta".to_string())));
    out.push(field("id", Datum::Text(id.to_string())));
    out.push(field("name", Datum::Text(name.to_string())));
    assert(fields_view(out@) =~= meta_said(id@, name@));
    write_object(out)
}

/// The fields of a head count.
pub open spec fn presence_said(n: u32) -> Seq<(Seq<char>, Json)> {
    seq![("t"@, Json::Text("presence"@)), ("n"@, Json::Number(n))]
}

/// A head count as a message.
pub fn presence_msg(n: u32) -> (r: String)
    ensures
        r@ == object_text(presence_said(n)),
{
    let mut out: Vec<Field> = Vec::new();
    out.push(field("t", Datum::Text("presence".to_string())));
    out.push(field("n", Datum::Number(n)));
    assert(fields_view(out@) =~= presence_said(n));
    write_object(out)
}

/// Which label names each probe's net, as pairs of numbers.
pub open spec fn name_pairs(names: Seq<ProbeName>) -> Seq<(u32, u32)> {
    Seq::new(names.len(), |i: int| (names[i].pid, names[i].nlid))
}

/// The fields of a net map.
pub open spec fn netmap_said(m: NetMap) -> Seq<(Seq<char>, Json)> {
    seq![
        ("t"@, Json::Text("netmap"@)),
        ("live"@, Json::Numbers(m.live@)),
        ("probes"@, Json::Pairs(name_pairs(m.probes@))),
    ]
}

/// A net map as a message.
pub fn netmap_msg(m: &NetMap) -> (r: String)
    ensures
        r@ == object_text(netmap_said(*m)),
{
    let mut pairs: Vec<(u32, u32)> = Vec::new();
    let mut i: usize = 0;
    while i < m.probes.len()
        invariant
            i <= m.probes@.len(),
            pairs@ == name_pairs(m.probes@).take(i as int),
        decreases m.probes.len() - i,
    {
        pairs.push((m.probes[i].pid, m.probes[i].nlid));
        i += 1;
        proof {
            assert(pairs@ =~= name_pairs(m.probes@).take(i as int));
        }
    }
    let mut out: Vec<Field> = Vec::new();
    out.push(field("t", Datum::Text("netmap".to_string())));
    out.push(field("live", Datum::Numbers(copy_ids(&m.live))));
    out.push(field("probes", Datum::Pairs(pairs)));
    proof {
        assert(pairs@ =~= name_pairs(m.probes@));
        assert(fields_view(out@) =~= netmap_said(*m));
    }
    write_object(out)
}

/// What sensors show, as pairs of numbers.
pub open spec fn shown_pairs(s: Seq<Shown>) -> Seq<(u32, u32)> {
    Seq::new(s.len(), |i: int| (s[i].id, s[i].q as u32))
}

/// The fields of what sensors show.
pub open spec fn sensors_said(s: Seq<Shown>) -> Seq<(Seq<char>, Json)> {
    seq![("t"@, Json::Text("sensors"@)), ("s"@, Json::Pairs(shown_pairs(s)))]
}

/// What sensors show as a message; a tick on which nothing changed says nothing.
pub fn sensors_msg(s: &Vec<Shown>) -> (r: Option<String>)
    ensures
        match r {
            Some(t) => s@.len() > 0 && t@ == object_text(sensors_said(s@)),
            None => s@.len() == 0,
        },
{
    if s.len() == 0 {
        return None;
    }
    let mut pairs: Vec<(u32, u32)> = Vec::new();
    let mut i: usize = 0;
    while i < s.len()
        invariant
            i <= s@.len(),
            pairs@ == shown_pairs(s@).take(i as int),
        decreases s.len() - i,
    {
        pairs.push((s[i].id, s[i].q as u32));
        i += 1;
        proof {
            assert(pairs@ =~= shown_pairs(s@).take(i as int));
        }
    }
    let mut out: Vec<Field> = Vec::new();
    out.push(field("t", Datum::Text("sensors".to_string())));
    out.push(field("s", Datum::Pairs(pairs)));
    proof {
        assert(pairs@ =~= shown_pairs(s@));
        assert(fields_view(out@) =~= sensors_said(s@));
    }
    Some(write_object(out))
}

/// The message has a field of this name, with this value.
pub open spec fn carries(fields: Seq<(Seq<char>, Json)>, key: Seq<char>, value: Json) -> bool {
    exists|i: int| 0 <= i < fields.len() && (#[trigger] fields[i]).0 == key && fields[i].1 == value
}

/// A chat line as a message carries who said it and what, and nothing else.
pub proof fn law_a_chat_message_says_who_and_what(line: ChatLine)
    ensures
        chat_said(line).len() == 3,
        carries(chat_said(line), "t"@, Json::Text("chat"@)),
        carries(chat_said(line), "who"@, Json::Number(line.who)),
        carries(chat_said(line), "text"@, Json::Text(line.text@)),
{
    let f = chat_said(line);
    assert(f[0].0 == "t"@ && f[1].0 == "who"@ && f[2].0 == "text"@);
}

/// A refusal as a message carries to whom, of what, why, and which parts are at fault.
pub proof fn law_a_refusal_says_what_and_why(who: u32, ctx: Context, r: Reject)
    ensures
        reject_said(who, ctx, r).len() == 7,
        carries(reject_said(who, ctx, r), "t"@, Json::Text("reject"@)),
        carries(reject_said(who, ctx, r), "who"@, Json::Number(who)),
        ctx is Interact ==> carries(reject_said(who, ctx, r), "ctx"@, Json::Text("interact"@)),
        ctx is Edit ==> carries(reject_said(who, ctx, r), "ctx"@, Json::Text("edit"@)),
        ctx is Repair ==> carries(reject_said(who, ctx, r), "ctx"@, Json::Text("repair"@)),
        ctx is MachineMove ==> carries(reject_said(who, ctx, r), "ctx"@, Json::Text("machinemove"@)),
        carries(reject_said(who, ctx, r), "code"@, Json::Text(r.code@)),
        r.id matches Some(id) ==> carries(reject_said(who, ctx, r), "id"@, Json::Number(id)),
        r.id is None ==> carries(reject_said(who, ctx, r), "id"@, Json::Null),
        carries(reject_said(who, ctx, r), "ids"@, Json::Numbers(r.ids@)),
        carries(reject_said(who, ctx, r), "hint"@, Json::Text(r.hint@)),
{
    let f = reject_said(who, ctx, r);
    assert(f[0].0 == "t"@ && f[1].0 == "who"@ && f[2].0 == "ctx"@ && f[3].0 == "code"@);
    assert(f[4].0 == "id"@ && f[5].0 == "ids"@ && f[6].0 == "hint"@);
}

/// The other messages carry what they are about.
pub proof fn law_messages_say_what_they_are_about(
    id: Seq<char>,
    name: Seq<char>,
    deleted: bool,
    n: u32,
    m: NetMap,
    s: Seq<Shown>,
)
    ensures
        gone_said(id, deleted).len() == 3,
        carries(gone_said(id, deleted), "t"@, Json::Text("roomgone"@)),
        carries(gone_said(id, deleted), "id"@, Json::Text(id)),
        deleted ==> carries(gone_said(id, deleted), "reason"@, Json::Text("deleted"@)),
        !deleted ==> carries(gone_said(id, deleted), "reason"@, Json::Text("unknown"@)),
        meta_said(id, name).len() == 3,
        carries(meta_said(id, name), "t"@, Json::Text("roommeta"@)),
        carries(meta_said(id, name), "id"@, Json::Text(id)),
        carries(meta_said(id, name), "name"@, Json::Text(name)),
        presence_said(n).len() == 2,
        carries(presence_said(n), "t"@, Json::Text("presence"@)),
        carries(presence_said(n), "n"@, Json::Number(n)),
        netmap_said(m).len() == 3,
        carries(netmap_said(m), "t"@, Json::Text("netmap"@)),
        carries(netmap_said(m), "live"@, Json::Numbers(m.live@)),
        carries(netmap_said(m), "probes"@, Json::Pairs(name_pairs(m.probes@))),
        sensors_said(s).len() == 2,
        carries(sensors_said(s), "t"@, Json::Text("sensors"@)),
        carries(sensors_said(s), "s"@, Json::Pairs(shown_pairs(s))),
{
    let g = gone_said(id, deleted);
    assert(g[0].0 == "t"@ && g[1].0 == "id"@ && g[2].0 == "reason"@);
    let h = meta_said(id, name);
    assert(h[0].0 == "t"@ && h[1].0 == "id"@ && h[2].0 == "name"@);
    let p = presence_said(n);
    assert(p[0].0 == "t"@ && p[1].0 == "n"@);
    let q = netmap_said(m);
    assert(q[0].0 == "t"@ && q[1].0 == "live"@ && q[2].0 == "probes"@);
    let r = sensors_said(s);
    assert(r[0].0 == "t"@ && r[1].0 == "s"@);
}

/// Pairs are in order: a probe's number and then its label's, a part's id and then what it
/// reads.
pub proof fn law_pairs_are_in_order(names: Seq<ProbeName>, s: Seq<Shown>)
    ensures
        name_pairs(names).len() == names.len(),
        forall|i: int|
            0 <= i < names.len() ==> (#[trigger] name_pairs(names)[i]).0 == names[i].pid && name_pairs(
                names,
            )[i].1 == names[i].nlid,
        shown_pairs(s).len() == s.len(),
        forall|i: int|
            0 <= i < s.len() ==> (#[trigger] shown_pairs(s)[i]).0 == s[i].id && shown_pairs(s)[i].1
                == s[i].q,
{
}

/// A field holds what it is given, and keeps its place.
pub proof fn law_fields_hold_what_they_are_given(fields: Seq<Field>, d: Datum)
    ensures
        fields_view(fields).len() == fields.len(),
        forall|i: int|
            0 <= i < fields.len() ==> (#[trigger] fields_view(fields)[i]).0 == fields[i].key@
                && fields_view(fields)[i].1 == fields[i].datum@,
        match (d, d@) {
            (Datum::Null, Json::Null) => true,
            (Datum::Number(n), Json::Number(m)) => m == n,
            (Datum::Text(s), Json::Text(t)) => t == s@,
            (Datum::Numbers(v), Json::Numbers(w)) => w == v@,
            (Datum::Pairs(v), Json::Pairs(w)) => w == v@,
            _ => false,
        },
{
}

} // verus!
