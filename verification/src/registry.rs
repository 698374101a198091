//! The rooms of one server, in the order of their codes.
//!
//! What depends on the clock, on chance or on the disk is handed in: the time, the
//! numbers that codes are made from, and which files are there.
use vstd::prelude::*;

use crate::codes::{self, clean_room_name, code_of, CODES, CODE_LEN, MAX_ROOM_NAME};
use crate::handle::{self, build_handle, Identity, Life, Parked, RoomHandle, RoomMeta};
use crate::lists;
use crate::room::Room;
use crate::save::{self, RoomSetup, SaveFile};
use crate::text::{
    self, capitals, chars_of, is_before, is_empty_text, text_is, text_of, trim_chars,
};

verus! {

/// The most rooms of one server.
pub const MAX_ROOMS: usize = 64;

/// How many numbers are drawn for a new room's code.
pub const CODE_TRIES: usize = 64;

/// Ticks that a room stays live with nobody in it before it parks.
pub const PARK_AFTER_TICKS: u32 = 900;

/// Why a room is not made.
#[derive(Debug, PartialEq)]
pub enum CreateErr {
    BadName,
    NoTemplate,
    /// The rule that the template breaks.
    BadTemplate(&'static str),
    TooMany,
    Io,
}

/// Why there is no setup for a template.
pub enum ResolveErr {
    Missing,
    /// The rule that the template breaks.
    Bad(&'static str),
}

/// What is told to somebody who wanted a room from a template that is not to be had.
pub fn template_error(e: ResolveErr) -> (r: CreateErr)
    ensures
        r == match e {
            ResolveErr::Missing => CreateErr::NoTemplate,
            ResolveErr::Bad(why) => CreateErr::BadTemplate(why),
        },
{
    match e {
        ResolveErr::Missing => CreateErr::NoTemplate,
        ResolveErr::Bad(why) => CreateErr::BadTemplate(why),
    }
}

/// What is listed of a room.
pub struct RoomInfo {
    pub id: String,
    pub name: String,
    pub template: String,
    pub parts: usize,
    pub players: u32,
    pub live: bool,
    pub machine: bool,
    pub created: u64,
    pub played: u64,
}

/// What is listed of a room, as a model.
pub struct Listing {
    pub meta: Identity,
    pub parts: nat,
    pub players: u32,
    pub live: bool,
    pub machine: bool,
}

impl View for RoomInfo {
    type V = Listing;

    open spec fn view(&self) -> Listing {
        Listing {
            meta: Identity {
                id: self.id@,
                name: self.name@,
                template: self.template@,
                created: self.created,
                played: self.played,
            },
            parts: self.parts as nat,
            players: self.players,
            live: self.live,
            machine: self.machine,
        }
    }
}

/// The rooms of one server.
pub struct Registry<H, D, W> {
    /// In the order of their codes.
    pub rooms: Vec<RoomHandle<H, D, W>>,
    /// The room for somebody who names none.
    pub default_code: Option<String>,
}

/// The codes of the rooms.
pub open spec fn ids<H, D, W>(s: Seq<RoomHandle<H, D, W>>) -> Seq<Seq<char>> {
    Seq::new(s.len(), |i: int| s[i].meta.id@)
}

/// The rooms are in the order of their codes, and no code comes twice.
pub open spec fn in_order<H, D, W>(s: Seq<RoomHandle<H, D, W>>) -> bool {
    forall|i: int, j: int|
        0 <= i < j < s.len() ==> text::before(#[trigger] ids(s)[i], #[trigger] ids(s)[j])
}

/// The place of the room with this code.
pub open spec fn room_at<H, D, W>(s: Seq<RoomHandle<H, D, W>>, code: Seq<char>) -> Option<int> {
    ids(s).index_of_first(code)
}

/// The place, among the first `n` rooms, behind those that come before a code.
pub open spec fn slot<H, D, W>(s: Seq<RoomHandle<H, D, W>>, code: Seq<char>, n: int) -> int
    decreases n,
{
    if n <= 0 {
        0
    } else if text::before(s[n - 1].meta.id@, code) {
        n
    } else {
        slot(s, code, n - 1)
    }
}

/// The rooms with one more, which takes the place of a room with the same code.
pub open spec fn with_room<H, D, W>(s: Seq<RoomHandle<H, D, W>>, h: RoomHandle<H, D, W>) -> Seq<
    RoomHandle<H, D, W>,
> {
    let code = h.meta.id@;
    match room_at(s, code) {
        Some(i) => s.update(i, h),
        None => s.insert(slot(s, code, s.len() as int), h),
    }
}

/// The first room was played after the second; of two that were played at the same time
/// it was made later, or at the same time too.
pub open spec fn no_older(a: RoomMeta, b: RoomMeta) -> bool {
    a.played > b.played || (a.played == b.played && a.created >= b.created)
}

/// The place of the room that was played last, of the first `n`. Of rooms that tie it is
/// the last.
pub open spec fn latest<H, D, W>(s: Seq<RoomHandle<H, D, W>>, n: int) -> Option<int>
    decreases n,
{
    if n <= 0 {
        None
    } else {
        match latest(s, n - 1) {
            Some(i) => if no_older(s[n - 1].meta, s[i].meta) {
                Some(n - 1)
            } else {
                Some(i)
            },
            None => Some(n - 1),
        }
    }
}

/// The code of the room that was played last.
pub open spec fn latest_code<H, D, W>(s: Seq<RoomHandle<H, D, W>>) -> Option<Seq<char>> {
    match latest(s, s.len() as int) {
        Some(i) => Some(s[i].meta.id@),
        None => None,
    }
}

/// A code that may be absent, as a model.
pub open spec fn code_view(c: Option<String>) -> Option<Seq<char>> {
    match c {
        Some(s) => Some(s@),
        None => None,
    }
}

/// The room that was played last is there, and no room was played after it.
pub proof fn law_the_latest_room_is_the_latest<H, D, W>(s: Seq<RoomHandle<H, D, W>>, n: int)
    requires
        0 <= n <= s.len(),
    ensures
        n > 0 <==> latest(s, n) is Some,
        n > 0 ==> 0 <= latest(s, n)->0 < n,
        forall|j: int| 0 <= j < n ==> no_older(s[latest(s, n)->0].meta, (#[trigger] s[j]).meta),
    decreases n,
{
    if n > 0 {
        law_the_latest_room_is_the_latest(s, n - 1);
    }
}

/// What a new room's code is made from.
pub struct CodeTries {
    /// Numbers, to be tried in turn.
    pub numbers: Vec<u64>,
    /// The codes of the files that are on disk.
    pub files: Vec<String>,
}

/// The codes of the rooms and of the files.
pub open spec fn taken<H, D, W>(s: Seq<RoomHandle<H, D, W>>, files: Seq<String>) -> Seq<Seq<char>> {
    ids(s) + lists::views(files)
}

/// The code for when no number gave one: the first, counting up, that is neither a room's
/// nor a file's; or no room's, where the files have all the others.
pub open spec fn spare<H, D, W>(s: Seq<RoomHandle<H, D, W>>, files: Seq<String>) -> Seq<char> {
    let n = match codes::counted(taken(s, files), 0) {
        Some(n) => n,
        None => match codes::counted(ids(s), 0) {
            Some(n) => n,
            None => 0,
        },
    };
    codes::coded(n, CODE_LEN as nat)
}

/// The code of the first number, from the `i`th on, whose code is neither a room's nor a
/// file's.
pub open spec fn minted<H, D, W>(
    s: Seq<RoomHandle<H, D, W>>,
    tries: CodeTries,
    i: int,
) -> Seq<char>
    decreases tries.numbers@.len() - i,
{
    if i < 0 || i >= tries.numbers@.len() {
        spare(s, tries.files@)
    } else {
        let code = codes::coded(tries.numbers@[i] as int, CODE_LEN as nat);
        if !taken(s, tries.files@).contains(code) {
            code
        } else {
            minted(s, tries, i + 1)
        }
    }
}

impl<H, D, W> Registry<H, D, W> {
    /// A server without rooms.
    pub fn new() -> (r: Registry<H, D, W>)
        ensures
            r.rooms@.len() == 0,
            r.default_code is None,
            in_order(r.rooms@),
    {
        Registry { rooms: Vec::new(), default_code: None }
    }

    /// Whether there is no room: a server that starts so gets its first.
    pub fn is_empty(&self) -> (r: bool)
        ensures
            r == (self.rooms@.len() == 0),
    {
        self.rooms.len() == 0
    }

    /// The place of the room with this code.
    pub fn get(&self, code: &str) -> (r: Option<usize>)
        ensures
            match r {
                Some(i) => i < self.rooms@.len() && room_at(self.rooms@, code@) == Some(i as int),
                None => room_at(self.rooms@, code@) is None,
            },
    {
        let ghost all = ids(self.rooms@);
        let mut i: usize = 0;
        while i < self.rooms.len()
            invariant
                i <= self.rooms@.len(),
                all == ids(self.rooms@),
                forall|k: int| 0 <= k < i ==> #[trigger] all[k] != code@,
            decreases self.rooms.len() - i,
        {
            if text_is(self.rooms[i].meta.id.as_str(), code) {
                proof {
                    lemma_first_text(all, code@, i as int);
                }
                return Some(i);
            }
            assert(all[i as int] != code@);
            i += 1;
        }
        proof {
            all.index_of_first_ensures(code@);
        }
        None
    }

    /// The codes of all rooms, in order.
    pub fn all(&self) -> (r: Vec<String>)
        ensures
            r@.len() == self.rooms@.len(),
            forall|i: int| 0 <= i < r@.len() ==> (#[trigger] r@[i])@ == self.rooms@[i].meta.id@,
    {
        let mut out: Vec<String> = Vec::new();
        let mut i: usize = 0;
        while i < self.rooms.len()
            invariant
                i <= self.rooms@.len(),
                out@.len() == i,
                forall|k: int| 0 <= k < i ==> (#[trigger] out@[k])@ == self.rooms@[k].meta.id@,
            decreases self.rooms.len() - i,
        {
            out.push(self.rooms[i].meta.id.clone());
            i += 1;
        }
        out
    }

    fn find_latest(&self) -> (r: Option<usize>)
        ensures
            match r {
                Some(i) => latest(self.rooms@, self.rooms@.len() as int) == Some(i as int) && i
                    < self.rooms@.len(),
                None => latest(self.rooms@, self.rooms@.len() as int) is None,
            },
    {
        let mut best: Option<usize> = None;
        let mut i: usize = 0;
        while i < self.rooms.len()
            invariant
                i <= self.rooms@.len(),
                match best {
                    Some(k) => latest(self.rooms@, i as int) == Some(k as int) && k < i,
                    None => latest(self.rooms@, i as int) is None,
                },
            decreases self.rooms.len() - i,
        {
            let m: &RoomMeta = &self.rooms[i].meta;
            best = match best {
                Some(k) => {
                    let b: &RoomMeta = &self.rooms[k].meta;
                    if m.played > b.played || (m.played == b.played && m.created >= b.created) {
                        Some(i)
                    } else {
                        Some(k)
                    }
                },
                None => Some(i),
            };
            i += 1;
        }
        best
    }

    /// Makes the room that was played last the one for somebody who names none.
    pub fn refresh_default(&mut self)
        ensures
            *final(self) == (Registry { default_code: final(self).default_code, ..*old(self) }),
            code_view(final(self).default_code) == latest_code(old(self).rooms@),
            in_order(old(self).rooms@) ==> default_is_latest(*final(self)),
    {
        proof {
            if in_order(self.rooms@) {
                lemma_latest_is_found(self.rooms@);
            }
        }
        self.default_code = match self.find_latest() {
            Some(i) => Some(self.rooms[i].meta.id.clone()),
            None => None,
        };
    }
}

/// No room was played after the one at this place.
pub open spec fn played_last<H, D, W>(s: Seq<RoomHandle<H, D, W>>, i: int) -> bool {
    0 <= i < s.len() && forall|j: int|
        0 <= j < s.len() ==> (#[trigger] s[j]).meta.played <= s[i].meta.played
}

/// The default room is there, and no room was played after it.
pub open spec fn default_is_latest<H, D, W>(r: Registry<H, D, W>) -> bool {
    match code_view(r.default_code) {
        Some(c) => room_at(r.rooms@, c) is Some && played_last(r.rooms@, room_at(r.rooms@, c)->0),
        None => r.rooms@.len() == 0,
    }
}

/// The default room's code once the room at this place was played: that room's, unless
/// another was played later.
pub open spec fn followed<H, D, W>(s: Seq<RoomHandle<H, D, W>>, place: int) -> Option<Seq<char>> {
    if played_last(s, place) {
        Some(s[place].meta.id@)
    } else {
        latest_code(s)
    }
}

/// A room is found by its code.
proof fn lemma_found_by_its_code<H, D, W>(s: Seq<RoomHandle<H, D, W>>, i: int)
    requires
        in_order(s),
        0 <= i < s.len(),
    ensures
        room_at(s, s[i].meta.id@) == Some(i),
{
    let c = s[i].meta.id@;
    assert(ids(s)[i] == c);
    assert forall|k: int| 0 <= k < i implies #[trigger] ids(s)[k] != c by {
        assert(text::before(ids(s)[k], ids(s)[i]));
        text::lemma_before_is_total(c, c);
    }
    lemma_first_text(ids(s), c, i);
}

/// The room that was played last is found by its code.
proof fn lemma_latest_is_found<H, D, W>(s: Seq<RoomHandle<H, D, W>>)
    requires
        in_order(s),
    ensures
        match latest_code(s) {
            Some(c) => room_at(s, c) is Some && played_last(s, room_at(s, c)->0),
            None => s.len() == 0,
        },
{
    law_the_latest_room_is_the_latest(s, s.len() as int);
    if s.len() > 0 {
        let i = latest(s, s.len() as int)->0;
        lemma_found_by_its_code(s, i);
        assert forall|j: int| 0 <= j < s.len() implies (#[trigger] s[j]).meta.played
            <= s[i].meta.played by {
            assert(no_older(s[i].meta, s[j].meta));
        }
    }
}

/// Codes that stay keep the order.
proof fn lemma_order_is_by_codes<H, D, W>(
    s: Seq<RoomHandle<H, D, W>>,
    t: Seq<RoomHandle<H, D, W>>,
)
    requires
        in_order(s),
        t.len() == s.len(),
        forall|i: int| 0 <= i < s.len() ==> (#[trigger] t[i]).meta.id == s[i].meta.id,
    ensures
        in_order(t),
{
    assert(ids(t) =~= ids(s));
    assert forall|i: int, j: int| 0 <= i < j < t.len() implies text::before(
        #[trigger] ids(t)[i],
        #[trigger] ids(t)[j],
    ) by {
        assert(text::before(ids(s)[i], ids(s)[j]));
    }
}

/// The room that somebody who names none gets: the default room, or the one that was
/// played last where the default is gone.
pub open spec fn fallen_back<H, D, W>(r: Registry<H, D, W>) -> Option<int> {
    match code_view(r.default_code) {
        Some(c) => match room_at(r.rooms@, c) {
            Some(i) => Some(i),
            None => latest_place(r.rooms@),
        },
        None => latest_place(r.rooms@),
    }
}

/// The default room's code, once somebody who named no room came: the one that was played
/// last where the default is gone.
pub open spec fn refreshed<H, D, W>(r: Registry<H, D, W>) -> Option<Seq<char>> {
    match code_view(r.default_code) {
        Some(c) => if room_at(r.rooms@, c) is Some {
            Some(c)
        } else {
            latest_code(r.rooms@)
        },
        None => latest_code(r.rooms@),
    }
}

/// The place of the room that was played last, by its code.
pub open spec fn latest_place<H, D, W>(s: Seq<RoomHandle<H, D, W>>) -> Option<int> {
    match latest_code(s) {
        Some(c) => room_at(s, c),
        None => None,
    }
}

/// The room that a request names: no name, or one of white space only, is the default
/// room's; a code may be written small.
pub open spec fn resolved<H, D, W>(r: Registry<H, D, W>, code: Option<Seq<char>>) -> Option<int> {
    match code {
        Some(c) => if text::trimmed(c).len() > 0 {
            room_at(r.rooms@, text::trimmed(c).map_values(|c: char| text::capital(c)))
        } else {
            fallen_back(r)
        },
        None => fallen_back(r),
    }
}

impl<H, D, W> Registry<H, D, W> {
    /// The room for somebody who names none.
    pub fn default_room(&mut self) -> (r: Option<usize>)
        ensures
            match r {
                Some(i) => i < old(self).rooms@.len() && fallen_back(*old(self)) == Some(i as int),
                None => fallen_back(*old(self)) is None,
            },
            final(self).rooms == old(self).rooms,
            code_view(final(self).default_code) == refreshed(*old(self)),
            default_is_latest(*old(self)) ==> match r {
                Some(i) => played_last(old(self).rooms@, i as int),
                None => old(self).rooms@.len() == 0,
            },
    {
        proof {
            law_the_latest_room_is_the_latest(self.rooms@, self.rooms@.len() as int);
        }
        let found: Option<usize> = match &self.default_code {
            Some(c) => self.get(c.as_str()),
            None => None,
        };
        if found.is_some() {
            return found;
        }
        self.refresh_default();
        match &self.default_code {
            Some(c) => self.get(c.as_str()),
            None => None,
        }
    }

    /// The room that a request names.
    pub fn resolve(&mut self, code: Option<&str>) -> (r: Option<usize>)
        ensures
            ({
                let asked = match code {
                    Some(c) => Some(c@),
                    None => None,
                };
                match r {
                    Some(i) => i < old(self).rooms@.len() && resolved(*old(self), asked) == Some(
                        i as int,
                    ),
                    None => resolved(*old(self), asked) is None,
                }
            }),
            final(self).rooms == old(self).rooms,
            code_view(final(self).default_code) == if code matches Some(c) && text::trimmed(
                c@,
            ).len() > 0 {
                code_view(old(self).default_code)
            } else {
                refreshed(*old(self))
            },
    {
        match code {
            Some(c) => {
                let t: Vec<char> = trim_chars(&chars_of(c));
                if t.len() > 0 {
                    let asked: String = text_of(&capitals(&t));
                    self.get(asked.as_str())
                } else {
                    self.default_room()
                }
            },
            None => self.default_room(),
        }
    }
}

proof fn lemma_first_text(s: Seq<Seq<char>>, c: Seq<char>, i: int)
    requires
        0 <= i < s.len(),
        s[i] == c,
        forall|k: int| 0 <= k < i ==> #[trigger] s[k] != c,
    ensures
        s.index_of_first(c) == Some(i),
{
    s.index_of_first_ensures(c);
    assert(s.contains(c));
    let k = s.index_of_first(c)->0;
    if k < i {
        assert(s[k] != c);
    }
}

proof fn lemma_slot<H, D, W>(s: Seq<RoomHandle<H, D, W>>, code: Seq<char>, n: int)
    requires
        in_order(s),
        0 <= n <= s.len(),
    ensures
        0 <= slot(s, code, n) <= n,
        forall|i: int| 0 <= i < slot(s, code, n) ==> text::before(#[trigger] ids(s)[i], code),
        forall|i: int| slot(s, code, n) <= i < n ==> !text::before(#[trigger] ids(s)[i], code),
    decreases n,
{
    if n > 0 {
        if text::before(s[n - 1].meta.id@, code) {
            assert forall|i: int| 0 <= i < n implies text::before(#[trigger] ids(s)[i], code) by {
                if i < n - 1 {
                    assert(text::before(ids(s)[i], ids(s)[n - 1]));
                    text::lemma_before_is_transitive(ids(s)[i], ids(s)[n - 1], code);
                }
            }
        } else {
            lemma_slot(s, code, n - 1);
            assert forall|i: int| slot(s, code, n) <= i < n implies !text::before(
                #[trigger] ids(s)[i],
                code,
            ) by {
                if i == n - 1 {
                    assert(ids(s)[i] == s[n - 1].meta.id@);
                }
            }
        }
    }
}

/// A room that is added keeps the order, has its code, and leaves the rooms of other
/// codes as they were.
pub proof fn law_adding_keeps_the_order<H, D, W>(
    s: Seq<RoomHandle<H, D, W>>,
    h: RoomHandle<H, D, W>,
    code: Seq<char>,
)
    requires
        in_order(s),
    ensures
        in_order(with_room(s, h)),
        room_at(with_room(s, h), h.meta.id@) is Some,
        with_room(s, h)[room_at(with_room(s, h), h.meta.id@)->0] == h,
        code != h.meta.id@ ==> (room_at(with_room(s, h), code) is Some <==> room_at(
            s,
            code,
        ) is Some),
        code != h.meta.id@ && room_at(s, code) is Some ==> with_room(s, h)[room_at(
            with_room(s, h),
            code,
        )->0] == s[room_at(s, code)->0],
{
    let t = with_room(s, h);
    let mine = h.meta.id@;
    let a = ids(s);
    let b = ids(t);
    a.index_of_first_ensures(mine);
    a.index_of_first_ensures(code);
    b.index_of_first_ensures(mine);
    b.index_of_first_ensures(code);
    lemma_slot(s, mine, s.len() as int);
    let at = match room_at(s, mine) {
        Some(i) => i,
        None => slot(s, mine, s.len() as int),
    };
    assert(b[at] == mine && t[at] == h);
    if room_at(s, mine) is Some {
        assert(b =~= a);
        assert forall|i: int, j: int| 0 <= i < j < t.len() implies text::before(
            #[trigger] ids(t)[i],
            #[trigger] ids(t)[j],
        ) by {
            assert(text::before(ids(s)[i], ids(s)[j]));
        }
    } else {
        assert forall|i: int, j: int| 0 <= i < j < t.len() implies text::before(
            #[trigger] ids(t)[i],
            #[trigger] ids(t)[j],
        ) by {
            if j < at {
                assert(text::before(ids(s)[i], ids(s)[j]));
            } else if i > at {
                assert(text::before(ids(s)[i - 1], ids(s)[j - 1]));
            } else if j == at {
                assert(text::before(ids(s)[i], mine));
            } else if i == at {
                assert(!text::before(ids(s)[j - 1], mine));
                assert(a.contains(ids(s)[j - 1]));
                text::lemma_before_is_total(ids(s)[j - 1], mine);
            } else {
                assert(text::before(ids(s)[i], ids(s)[j - 1]));
            }
        }
    }
    assert(b.contains(mine));
    let k = room_at(t, mine)->0;
    if k != at {
        if k < at {
            assert(text::before(ids(t)[k], ids(t)[at]));
        } else {
            assert(text::before(ids(t)[at], ids(t)[k]));
        }
        text::lemma_before_is_total(mine, mine);
    }
    if code != mine {
        if room_at(s, code) is Some {
            let i = room_at(s, code)->0;
            let j = if room_at(s, mine) is None && i >= at {
                i + 1
            } else {
                i
            };
            assert(t[j] == s[i]);
            assert(b[j] == code);
            assert(b.contains(code));
            let m = room_at(t, code)->0;
            if m != j {
                if m < j {
                    assert(text::before(ids(t)[m], ids(t)[j]));
                } else {
                    assert(text::before(ids(t)[j], ids(t)[m]));
                }
                text::lemma_before_is_total(code, code);
            }
        }
        if room_at(t, code) is Some {
            let j = room_at(t, code)->0;
            assert(j != at);
            let i = if room_at(s, mine) is None && j > at {
                j - 1
            } else {
                j
            };
            assert(a[i] == code);
            assert(a.contains(code));
        }
    }
}

impl<H, D, W> Registry<H, D, W> {
    /// Puts a room in its place.
    fn put_room(&mut self, h: RoomHandle<H, D, W>)
        requires
            in_order(old(self).rooms@),
        ensures
            final(self).rooms@ == with_room(old(self).rooms@, h),
            final(self).default_code == old(self).default_code,
    {
        let found: Option<usize> = self.get(h.meta.id.as_str());
        match found {
            Some(i) => {
                self.rooms.set(i, h);
            },
            None => {
                let ghost code = h.meta.id@;
                let mut i: usize = self.rooms.len();
                while i > 0 && !is_before(self.rooms[i - 1].meta.id.as_str(), h.meta.id.as_str())
                    invariant
                        i <= self.rooms@.len(),
                        code == h.meta.id@,
                        slot(self.rooms@, code, self.rooms@.len() as int) == slot(
                            self.rooms@,
                            code,
                            i as int,
                        ),
                    decreases i,
                {
                    i -= 1;
                }
                self.rooms.insert(i, h);
            },
        }
    }

    /// Whether the code is a room's or a file's.
    fn is_taken(&self, files: &Vec<String>, code: &str) -> (r: bool)
        ensures
            r == taken(self.rooms@, files@).contains(code@),
    {
        let ghost rooms = ids(self.rooms@);
        let ghost all = taken(self.rooms@, files@);
        proof {
            rooms.index_of_first_ensures(code@);
        }
        if self.get(code).is_some() {
            proof {
                let k = room_at(self.rooms@, code@)->0;
                assert(all[k] == code@);
            }
            return true;
        }
        let mut i: usize = 0;
        while i < files.len()
            invariant
                i <= files@.len(),
                rooms == ids(self.rooms@),
                all == taken(self.rooms@, files@),
                forall|k: int| 0 <= k < i ==> (#[trigger] files@[k])@ != code@,
            decreases files.len() - i,
        {
            if text_is(files[i].as_str(), code) {
                proof {
                    assert(all[rooms.len() + i] == code@);
                }
                return true;
            }
            i += 1;
        }
        proof {
            if all.contains(code@) {
                let k = choose|k: int| 0 <= k < all.len() && all[k] == code@;
                if k < rooms.len() {
                    assert(rooms[k] == code@);
                    assert(rooms.contains(code@));
                } else {
                    assert(files@[k - rooms.len()]@ == code@);
                }
            }
        }
        false
    }

    /// The first code, counting up, that is neither a room's nor one of these files'.
    fn count_up(&self, files: &Vec<String>) -> (r: Option<String>)
        ensures
            match r {
                Some(c) => codes::counted(taken(self.rooms@, files@), 0) matches Some(n) && c@
                    == codes::coded(n, CODE_LEN as nat),
                None => codes::counted(taken(self.rooms@, files@), 0) is None,
            },
    {
        let mut n: u64 = 0;
        while n < CODES
            invariant
                n <= CODES,
                codes::counted(taken(self.rooms@, files@), 0) == codes::counted(
                    taken(self.rooms@, files@),
                    n as int,
                ),
            decreases CODES - n,
        {
            let code: String = code_of(n);
            if !self.is_taken(files, code.as_str()) {
                return Some(code);
            }
            n += 1;
        }
        None
    }

    /// A fresh code: that of the first number that gives one which is neither a room's nor
    /// a file's. Where no number does, the codes are counted up.
    pub fn mint_code(&self, tries: &CodeTries) -> (r: String)
        ensures
            r@ == minted(self.rooms@, *tries, 0),
            codes::is_code(r@),
            self.rooms@.len() < CODES ==> room_at(self.rooms@, r@) is None,
            self.rooms@.len() + tries.files@.len() < CODES ==> !lists::views(
                tries.files@,
            ).contains(r@),
    {
        let mut i: usize = 0;
        while i < tries.numbers.len()
            invariant
                i <= tries.numbers@.len(),
                minted(self.rooms@, *tries, 0) == minted(self.rooms@, *tries, i as int),
            decreases tries.numbers.len() - i,
        {
            let code: String = code_of(tries.numbers[i]);
            if !self.is_taken(&tries.files, code.as_str()) {
                proof {
                    law_a_minted_code_is_fresh(self.rooms@, *tries, i as int);
                }
                return code;
            }
            i += 1;
        }
        proof {
            law_a_minted_code_is_fresh(self.rooms@, *tries, i as int);
        }
        if let Some(code) = self.count_up(&tries.files) {
            return code;
        }
        let none: Vec<String> = Vec::new();
        assert(taken(self.rooms@, none@) =~= ids(self.rooms@));
        match self.count_up(&none) {
            Some(code) => code,
            None => code_of(0),
        }
    }
}

/// A code that was minted is a room code, and fresh: no room has it, as long as the rooms
/// do not have all codes; and no file has it, as long as the rooms and the files do not.
pub proof fn law_a_minted_code_is_fresh<H, D, W>(
    s: Seq<RoomHandle<H, D, W>>,
    tries: CodeTries,
    i: int,
)
    requires
        0 <= i <= tries.numbers@.len(),
    ensures
        codes::is_code(minted(s, tries, i)),
        s.len() < CODES ==> room_at(s, minted(s, tries, i)) is None,
        s.len() + tries.files@.len() < CODES ==> !lists::views(tries.files@).contains(
            minted(s, tries, i),
        ),
    decreases tries.numbers@.len() - i,
{
    let rooms = ids(s);
    let files = lists::views(tries.files@);
    let all = taken(s, tries.files@);
    if i < tries.numbers@.len() {
        let code = codes::coded(tries.numbers@[i] as int, CODE_LEN as nat);
        if !all.contains(code) {
            codes::law_numbers_give_codes(tries.numbers@[i]);
            lemma_not_taken(s, tries.files@, code);
        } else {
            law_a_minted_code_is_fresh(s, tries, i + 1);
        }
    } else {
        codes::law_counting_finds_a_free_code(all);
        codes::law_counting_finds_a_free_code(rooms);
        codes::law_numbers_give_codes(0);
        match codes::counted(all, 0) {
            Some(n) => {
                codes::law_numbers_give_codes(n as u64);
                lemma_not_taken(s, tries.files@, codes::coded(n, CODE_LEN as nat));
            },
            None => {
                if let Some(n) = codes::counted(rooms, 0) {
                    codes::law_numbers_give_codes(n as u64);
                    rooms.index_of_first_ensures(codes::coded(n, CODE_LEN as nat));
                }
            },
        }
    }
}

proof fn lemma_not_taken<H, D, W>(
    s: Seq<RoomHandle<H, D, W>>,
    files: Seq<String>,
    code: Seq<char>,
)
    requires
        !taken(s, files).contains(code),
    ensures
        room_at(s, code) is None,
        !lists::views(files).contains(code),
{
    let rooms = ids(s);
    let all = taken(s, files);
    rooms.index_of_first_ensures(code);
    if rooms.contains(code) {
        let k = choose|k: int| 0 <= k < rooms.len() && rooms[k] == code;
        assert(all[k] == code);
    }
    if lists::views(files).contains(code) {
        let k = choose|k: int| 0 <= k < files.len() && lists::views(files)[k] == code;
        assert(all[rooms.len() + k] == code);
    }
}

/// The room is built from this setup, forced onto what the room's ops would have allowed.
pub open spec fn opened_as<H, D, W>(
    setup: RoomSetup<H, D, W>,
    meta: RoomMeta,
    h: RoomHandle<H, D, W>,
) -> bool {
    exists|normal: RoomSetup<H, D, W>| #[trigger]
        save::normalised(setup, normal) && handle::built(meta, normal, h)
}

/// Who a new room is.
pub open spec fn newborn(code: Seq<char>, name: Seq<char>, template: Seq<char>, now: u64) -> Identity {
    Identity { id: code, name, template, created: now, played: now }
}

/// Why a room of this name is not made, if so.
pub open spec fn refused<H, D, W>(s: Seq<RoomHandle<H, D, W>>, name: Seq<char>) -> Option<CreateErr> {
    if text::cleaned(name, MAX_ROOM_NAME as nat).len() == 0 {
        Some(CreateErr::BadName)
    } else if s.len() >= MAX_ROOMS {
        Some(CreateErr::TooMany)
    } else {
        None
    }
}

/// The outcome of making a room of this name from a setup.
pub open spec fn prepared<H, D, W>(
    s: Seq<RoomHandle<H, D, W>>,
    name: Seq<char>,
    template: Seq<char>,
    setup: RoomSetup<H, D, W>,
    tries: CodeTries,
    now: u64,
    r: Result<RoomHandle<H, D, W>, CreateErr>,
) -> bool {
    match refused(s, name) {
        Some(e) => r == Err::<RoomHandle<H, D, W>, CreateErr>(e),
        None => r matches Ok(h) && handle::built(h.meta, setup, h) && h.meta@ == newborn(
            minted(s, tries, 0),
            text::cleaned(name, MAX_ROOM_NAME as nat),
            template,
            now,
        ),
    }
}

/// The outcome of making a room of this name from a template: what is wrong with the
/// template is told before what is wrong with the name. The room has the template's level,
/// without what was played in it, and forced onto what the room's ops would have allowed.
pub open spec fn created<H: Default, D: Default, W>(
    s: Seq<RoomHandle<H, D, W>>,
    name: Seq<char>,
    template: Seq<char>,
    found: Result<RoomSetup<H, D, W>, ResolveErr>,
    tries: CodeTries,
    now: u64,
    r: Result<RoomHandle<H, D, W>, CreateErr>,
) -> bool {
    match found {
        Err(ResolveErr::Missing) => r == Err::<RoomHandle<H, D, W>, CreateErr>(
            CreateErr::NoTemplate,
        ),
        Err(ResolveErr::Bad(why)) => r == Err::<RoomHandle<H, D, W>, CreateErr>(
            CreateErr::BadTemplate(why),
        ),
        Ok(setup) => exists|level: RoomSetup<H, D, W>, normal: RoomSetup<H, D, W>|
            save::freshened(setup, level) && #[trigger] save::normalised(level, normal)
                && prepared(s, name, template, normal, tries, now, r),
    }
}

/// The name of a server's first room.
pub open spec fn first_name() -> Seq<char> {
    "Main Room"@
}

impl<H: Copy, D, W> Registry<H, D, W> {
    /// Builds a new room. It is not one of the server's before it was written to disk and
    /// published.
    pub fn prepare(
        &self,
        name: &str,
        template: &str,
        setup: RoomSetup<H, D, W>,
        tries: &CodeTries,
        now: u64,
    ) -> (r: Result<RoomHandle<H, D, W>, CreateErr>)
        requires
            handle::machine_fits(setup.machine),
        ensures
            prepared(self.rooms@, name@, template@, setup, *tries, now, r),
            r matches Ok(h) ==> codes::is_code(h.meta.id@) && room_at(self.rooms@, h.meta.id@) is None,
    {
        let name: String = clean_room_name(name);
        if is_empty_text(name.as_str()) {
            return Err(CreateErr::BadName);
        }
        if self.rooms.len() >= MAX_ROOMS {
            return Err(CreateErr::TooMany);
        }
        let id: String = self.mint_code(tries);
        let meta: RoomMeta = RoomMeta {
            id,
            name,
            template: template.to_string(),
            created: now,
            played: now,
        };
        Ok(build_handle(meta, setup))
    }
}

impl<H: Copy + Default, D: Default, W> Registry<H, D, W> {
    /// Builds a new room from a template. `found` is what was found of the template.
    pub fn create(
        &self,
        name: &str,
        template: &str,
        found: Result<RoomSetup<H, D, W>, ResolveErr>,
        tries: &CodeTries,
        now: u64,
    ) -> (r: Result<RoomHandle<H, D, W>, CreateErr>)
        ensures
            created(self.rooms@, name@, template@, found, *tries, now, r),
    {
        match found {
            Ok(setup) => {
                let level: RoomSetup<H, D, W> = setup.fresh_for_template();
                let normal: RoomSetup<H, D, W> = level.normalize();
                proof {
                    assert(save::freshened(setup, level) && save::normalised(level, normal));
                    handle::lemma_a_normal_machine_fits(level, normal);
                }
                self.prepare(name, template, normal, tries, now)
            },
            Err(e) => Err(template_error(e)),
        }
    }

    /// Builds the first room of a server that has none; nothing where there is one.
    pub fn ensure_one(
        &self,
        template: &str,
        found: Result<RoomSetup<H, D, W>, ResolveErr>,
        tries: &CodeTries,
        now: u64,
    ) -> (r: Option<Result<RoomHandle<H, D, W>, CreateErr>>)
        ensures
            r is None <==> self.rooms@.len() > 0,
            r matches Some(x) ==> created(
                self.rooms@,
                first_name(),
                template@,
                found,
                *tries,
                now,
                x,
            ),
    {
        if self.rooms.len() > 0 {
            None
        } else {
            Some(self.create("Main Room", template, found, tries, now))
        }
    }
}

impl<H: Copy, D, W> Registry<H, D, W> {
    /// Builds the first room from the world of a server that had only one, where there is
    /// such a world and no room yet.
    pub fn import_legacy(
        &self,
        world: Option<RoomSetup<H, D, W>>,
        tries: &CodeTries,
        now: u64,
    ) -> (r: Option<RoomHandle<H, D, W>>)
        ensures
            r is Some <==> self.rooms@.len() == 0 && world is Some,
            r matches Some(h) ==> opened_as(world->0, h.meta, h) && h.meta@ == newborn(
                minted(self.rooms@, *tries, 0),
                first_name(),
                "demo"@,
                now,
            ),
    {
        if self.rooms.len() > 0 {
            return None;
        }
        match world {
            None => None,
            Some(setup) => {
                let normal: RoomSetup<H, D, W> = setup.normalize();
                proof {
                    lemma_first_name_stands();
                    assert(save::normalised(setup, normal));
                    handle::lemma_a_normal_machine_fits(setup, normal);
                }
                match self.prepare("Main Room", "demo", normal, tries, now) {
                    Ok(h) => Some(h),
                    Err(_) => None,
                }
            },
        }
    }

    /// Makes a new room one of the server's, and the default one, once its file is there.
    pub fn publish(&mut self, h: RoomHandle<H, D, W>, on_disk: bool) -> (r: Result<(), CreateErr>)
        requires
            in_order(old(self).rooms@),
        ensures
            r == if on_disk {
                Ok::<(), CreateErr>(())
            } else {
                Err(CreateErr::Io)
            },
            !on_disk ==> *final(self) == *old(self),
            on_disk ==> {
                &&& final(self).rooms@ == with_room(old(self).rooms@, h)
                &&& code_view(final(self).default_code) == Some(h.meta.id@)
                &&& in_order(final(self).rooms@)
                &&& (forall|j: int|
                    0 <= j < old(self).rooms@.len() ==> (#[trigger] old(self).rooms@[j]).meta.played
                        <= h.meta.played) ==> default_is_latest(*final(self))
            },
    {
        if !on_disk {
            return Err(CreateErr::Io);
        }
        proof {
            law_adding_keeps_the_order(self.rooms@, h, h.meta.id@);
        }
        let ghost had = self.rooms@;
        let code: String = h.meta.id.clone();
        self.put_room(h);
        self.default_code = Some(code);
        proof {
            let t = self.rooms@;
            let at = room_at(t, h.meta.id@)->0;
            ids(t).index_of_first_ensures(h.meta.id@);
            if forall|j: int| 0 <= j < had.len() ==> (#[trigger] had[j]).meta.played <= h.meta.played {
                lemma_slot(had, h.meta.id@, had.len() as int);
                ids(had).index_of_first_ensures(h.meta.id@);
                assert forall|j: int| 0 <= j < t.len() implies (#[trigger] t[j]).meta.played
                    <= t[at].meta.played by {
                    if t[j] != h {
                        let k = if room_at(had, h.meta.id@) is None && j > slot(
                            had,
                            h.meta.id@,
                            had.len() as int,
                        ) {
                            j - 1
                        } else {
                            j
                        };
                        assert(t[j] == had[k]);
                    }
                }
            }
        }
        Ok(())
    }
}

/// The first room's name is one that nothing is stripped from.
proof fn lemma_first_name_stands()
    ensures
        text::cleaned(first_name(), MAX_ROOM_NAME as nat) == first_name(),
        first_name().len() > 0,
{
    reveal_strlit("Main Room");
    text::lemma_printed_of_printing(first_name());
}

/// Somebody who names no room gets the room that was made last.
pub proof fn law_a_new_room_is_the_default<H, D, W>(
    a: Registry<H, D, W>,
    b: Registry<H, D, W>,
    h: RoomHandle<H, D, W>,
)
    requires
        in_order(a.rooms@),
        b.rooms@ == with_room(a.rooms@, h),
        code_view(b.default_code) == Some(h.meta.id@),
    ensures
        resolved(b, None) is Some,
        b.rooms@[resolved(b, None)->0] == h,
{
    law_adding_keeps_the_order(a.rooms@, h, h.meta.id@);
}

impl<H, D, W> Registry<H, D, W> {
    /// Gives a room another name; the room is to be saved. A name of nothing printable is
    /// refused.
    pub fn rename(&mut self, code: &str, name: &str) -> (r: Option<usize>)
        ensures
            ({
                let new = text::cleaned(name@, MAX_ROOM_NAME as nat);
                let s = old(self).rooms@;
                let t = final(self).rooms@;
                if new.len() == 0 || room_at(s, code@) is None {
                    r is None && *final(self) == *old(self)
                } else {
                    let i = room_at(s, code@)->0;
                    &&& r is Some && r->0 == i
                    &&& final(self).default_code == old(self).default_code
                    &&& default_is_latest(*old(self)) ==> default_is_latest(*final(self))
                    &&& t == s.update(i, t[i])
                    &&& t[i].meta.name@ == new
                    &&& t[i] == (RoomHandle {
                        meta: RoomMeta { name: t[i].meta.name, ..s[i].meta },
                        room: Room { dirty: true, ..s[i].room },
                        ..s[i]
                    })
                }
            }),
    {
        let name: String = clean_room_name(name);
        if is_empty_text(name.as_str()) {
            return None;
        }
        match self.get(code) {
            None => None,
            Some(i) => {
                self.rooms[i].meta.name = name;
                self.rooms[i].room.dirty = true;
                assert(ids(self.rooms@) =~= ids(old(self).rooms@));
                Some(i)
            },
        }
    }

    /// Takes a room out of the server: it is gone, and nothing more is written of it.
    pub fn delete(&mut self, code: &str) -> (r: Option<RoomHandle<H, D, W>>)
        ensures
            match room_at(old(self).rooms@, code@) {
                None => r is None && *final(self) == *old(self),
                Some(i) => {
                    &&& r == Some(
                        RoomHandle { deleted: true, life: Life::Gone, ..old(self).rooms@[i] },
                    )
                    &&& final(self).rooms@ == old(self).rooms@.remove(i)
                    &&& code_view(final(self).default_code) == latest_code(final(self).rooms@)
                    &&& in_order(old(self).rooms@) ==> default_is_latest(*final(self))
                },
            },
    {
        let ghost had = self.rooms@;
        match self.get(code) {
            None => None,
            Some(i) => {
                let mut h: RoomHandle<H, D, W> = self.rooms.remove(i);
                h.evict();
                proof {
                    if in_order(had) {
                        law_a_deleted_room_is_gone(had, i as int, code@);
                    }
                }
                self.refresh_default();
                Some(h)
            },
        }
    }
}

impl<H, D, W> Registry<H, D, W> {
    /// The room at this place was played: it is the default one, unless another was played
    /// later.
    fn follow(&mut self, place: usize)
        requires
            place < old(self).rooms@.len(),
        ensures
            *final(self) == (Registry { default_code: final(self).default_code, ..*old(self) }),
            code_view(final(self).default_code) == followed(old(self).rooms@, place as int),
            in_order(old(self).rooms@) ==> default_is_latest(*final(self)),
    {
        let ghost s = self.rooms@;
        let mine: u64 = self.rooms[place].meta.played;
        let mut i: usize = 0;
        while i < self.rooms.len()
            invariant
                i <= self.rooms@.len(),
                *self == *old(self),
                s == self.rooms@,
                place < s.len(),
                mine == s[place as int].meta.played,
                forall|j: int| 0 <= j < i ==> (#[trigger] s[j]).meta.played <= mine,
            decreases self.rooms.len() - i,
        {
            if self.rooms[i].meta.played > mine {
                assert(s[i as int].meta.played > s[place as int].meta.played);
                self.refresh_default();
                return;
            }
            i += 1;
        }
        self.default_code = Some(self.rooms[place].meta.id.clone());
        proof {
            if in_order(s) {
                lemma_found_by_its_code(s, place as int);
            }
        }
    }

    /// Somebody comes into a room: the room counts them, and runs again where it was
    /// parked; what it kept is handed out. A room that runs again was played.
    pub fn enter(&mut self, place: usize, now: u64) -> (woken: Option<Parked<H, D>>)
        requires
            place < old(self).rooms@.len(),
        ensures
            ({
                let s = old(self).rooms@;
                let t = final(self).rooms@;
                &&& t == s.update(place as int, t[place as int])
                &&& handle::entered(s[place as int], t[place as int], now, woken)
            }),
            code_view(final(self).default_code) == if woken is Some {
                followed(final(self).rooms@, place as int)
            } else {
                code_view(old(self).default_code)
            },
            in_order(old(self).rooms@) ==> in_order(final(self).rooms@),
            in_order(old(self).rooms@) && default_is_latest(*old(self)) ==> default_is_latest(
                *final(self),
            ),
    {
        let ghost s = self.rooms@;
        let woken: Option<Parked<H, D>> = self.rooms[place].enter(now);
        proof {
            if in_order(s) {
                lemma_order_is_by_codes(s, self.rooms@);
            }
            assert(ids(self.rooms@) =~= ids(s));
        }
        if woken.is_some() {
            self.follow(place);
        }
        woken
    }

    /// Somebody leaves a room, which was played until now.
    pub fn leave(&mut self, place: usize, now: u64)
        requires
            place < old(self).rooms@.len(),
        ensures
            final(self).rooms@ == old(self).rooms@.update(
                place as int,
                handle::left(old(self).rooms@[place as int], now),
            ),
            code_view(final(self).default_code) == followed(final(self).rooms@, place as int),
            in_order(old(self).rooms@) ==> in_order(final(self).rooms@) && default_is_latest(
                *final(self),
            ),
    {
        let ghost s = self.rooms@;
        self.rooms[place].leave(now);
        proof {
            if in_order(s) {
                lemma_order_is_by_codes(s, self.rooms@);
            }
        }
        self.follow(place);
    }
}

/// Whoever comes back without naming a room lands where somebody was last: the room that
/// was left is the one that they get, as long as the clock has not run backwards.
pub proof fn law_whoever_comes_back_lands_where_they_were<H, D, W>(
    a: Registry<H, D, W>,
    b: Registry<H, D, W>,
    place: int,
    now: u64,
)
    requires
        in_order(a.rooms@),
        0 <= place < a.rooms@.len(),
        forall|j: int| 0 <= j < a.rooms@.len() ==> (#[trigger] a.rooms@[j]).meta.played <= now,
        b.rooms@ == a.rooms@.update(place, handle::left(a.rooms@[place], now)),
        code_view(b.default_code) == followed(b.rooms@, place),
    ensures
        resolved(b, None) == Some(place),
{
    let t = b.rooms@;
    lemma_order_is_by_codes(a.rooms@, t);
    lemma_found_by_its_code(t, place);
    assert forall|j: int| 0 <= j < t.len() implies (#[trigger] t[j]).meta.played
        <= t[place].meta.played by {
        if j != place {
            assert(t[j] == a.rooms@[j]);
        }
    }
}

/// A deleted room is not found any more, and the others are.
pub proof fn law_a_deleted_room_is_gone<H, D, W>(s: Seq<RoomHandle<H, D, W>>, i: int, code: Seq<char>)
    requires
        in_order(s),
        0 <= i < s.len(),
    ensures
        in_order(s.remove(i)),
        room_at(s.remove(i), s[i].meta.id@) is None,
        code != s[i].meta.id@ ==> (room_at(s.remove(i), code) is Some <==> room_at(
            s,
            code,
        ) is Some),
{
    let t = s.remove(i);
    let mine = s[i].meta.id@;
    let a = ids(s);
    let b = ids(t);
    a.index_of_first_ensures(code);
    b.index_of_first_ensures(mine);
    b.index_of_first_ensures(code);
    assert forall|j: int, k: int| 0 <= j < k < t.len() implies text::before(
        #[trigger] ids(t)[j],
        #[trigger] ids(t)[k],
    ) by {
        let x = if j < i {
            j
        } else {
            j + 1
        };
        let y = if k < i {
            k
        } else {
            k + 1
        };
        assert(text::before(ids(s)[x], ids(s)[y]));
    }
    if room_at(t, mine) is Some {
        let j = room_at(t, mine)->0;
        let x = if j < i {
            j
        } else {
            j + 1
        };
        assert(ids(s)[x] == mine && ids(s)[i] == mine);
        if x < i {
            assert(text::before(ids(s)[x], ids(s)[i]));
        } else {
            assert(text::before(ids(s)[i], ids(s)[x]));
        }
        text::lemma_before_is_total(mine, mine);
    }
    if code != mine {
        if room_at(s, code) is Some {
            let x = room_at(s, code)->0;
            let j = if x < i {
                x
            } else {
                x - 1
            };
            assert(b[j] == code);
            assert(b.contains(code));
        }
        if room_at(t, code) is Some {
            let j = room_at(t, code)->0;
            let x = if j < i {
                j
            } else {
                j + 1
            };
            assert(a[x] == code);
            assert(a.contains(code));
        }
    }
}

/// What is listed of a room.
pub open spec fn listed<H, D, W>(h: RoomHandle<H, D, W>) -> Listing {
    Listing {
        meta: h.meta@,
        parts: h.room.elements@.len(),
        players: h.room.population,
        live: h.life == Life::Live,
        machine: h.has_machine,
    }
}

/// What is listed of the rooms, in the order of their codes.
pub open spec fn listings<H, D, W>(s: Seq<RoomHandle<H, D, W>>) -> Seq<Listing> {
    Seq::new(s.len(), |i: int| listed(s[i]))
}

/// The first listing comes before the second: its room was played later, or at the same
/// time and has the earlier code.
pub open spec fn ranks(a: Listing, b: Listing) -> bool {
    a.meta.played > b.meta.played || (a.meta.played == b.meta.played && text::before(a.meta.id, b.meta.id))
}

/// The listings are in their order.
pub open spec fn ranked(s: Seq<Listing>) -> bool {
    forall|i: int, j: int| 0 <= i < j < s.len() ==> !ranks(#[trigger] s[j], #[trigger] s[i])
}

fn info_of<H, D, W>(h: &RoomHandle<H, D, W>) -> (r: RoomInfo)
    ensures
        r@ == listed(*h),
{
    let m: RoomMeta = h.meta();
    RoomInfo {
        id: m.id,
        name: m.name,
        template: m.template,
        parts: h.room.elements.len(),
        players: h.players(),
        live: h.is_live(),
        machine: h.has_machine,
        created: m.created,
        played: m.played,
    }
}

fn info_ranks(a: &RoomInfo, b: &RoomInfo) -> (r: bool)
    ensures
        r == ranks(a@, b@),
{
    a.played > b.played || (a.played == b.played && is_before(a.id.as_str(), b.id.as_str()))
}

proof fn lemma_ranks_chain(a: Listing, b: Listing, c: Listing)
    requires
        ranks(a, b),
    ensures
        !ranks(b, a),
        ranks(c, a) ==> ranks(c, b),
{
    text::lemma_before_is_total(a.meta.id, b.meta.id);
    if a.meta.played == b.meta.played && a.meta.played == c.meta.played {
        if text::before(c.meta.id, a.meta.id) {
            text::lemma_before_is_transitive(c.meta.id, a.meta.id, b.meta.id);
        }
    }
}

impl<H, D, W> Registry<H, D, W> {
    /// All rooms, the one that was played last first.
    pub fn list(&self) -> (r: Vec<RoomInfo>)
        ensures
            ranked(lists::views(r@)),
            lists::views(r@).to_multiset() == listings(self.rooms@).to_multiset(),
    {
        let mut out: Vec<RoomInfo> = Vec::new();
        let mut i: usize = 0;
        proof {
            assert(lists::views(out@) =~= Seq::<Listing>::empty());
            assert(listings(self.rooms@).take(0) =~= Seq::<Listing>::empty());
        }
        while i < self.rooms.len()
            invariant
                i <= self.rooms@.len(),
                ranked(lists::views(out@)),
                lists::views(out@).to_multiset() == listings(self.rooms@).take(i as int).to_multiset(),
            decreases self.rooms.len() - i,
        {
            let x: RoomInfo = info_of(&self.rooms[i]);
            let ghost all = listings(self.rooms@);
            let ghost had = lists::views(out@);
            let mut at: usize = 0;
            while at < out.len() && !info_ranks(&x, &out[at])
                invariant
                    at <= out@.len(),
                    had == lists::views(out@),
                    forall|k: int| 0 <= k < at ==> !ranks(x@, #[trigger] had[k]),
                decreases out.len() - at,
            {
                assert(had[at as int] == out@[at as int]@);
                at += 1;
            }
            proof {
                if at < out@.len() {
                    assert(had[at as int] == out@[at as int]@);
                }
            }
            out.insert(at, x);
            proof {
                let now = lists::views(out@);
                assert(now =~= had.insert(at as int, x@));
                vstd::seq_lib::to_multiset_insert(had, at as int, x@);
                vstd::seq_lib::to_multiset_build(all.take(i as int), x@);
                assert(all.take(i + 1) =~= all.take(i as int).push(x@));
                assert forall|a: int, b: int| 0 <= a < b < now.len() implies !ranks(
                    #[trigger] now[b],
                    #[trigger] now[a],
                ) by {
                    if b < at {
                        assert(!ranks(had[b], had[a]));
                    } else if a > at {
                        assert(!ranks(had[b - 1], had[a - 1]));
                    } else if b == at {
                        assert(!ranks(x@, had[a]));
                    } else if a == at {
                        // The new one ranks before the one it was put in front of.
                        lemma_ranks_chain(x@, had[at as int], had[b - 1]);
                        if b - 1 > at {
                            assert(!ranks(had[b - 1], had[at as int]));
                        }
                    } else {
                        assert(!ranks(had[b - 1], had[a]));
                    }
                }
            }
            i += 1;
        }
        proof {
            assert(listings(self.rooms@).take(self.rooms@.len() as int) =~= listings(self.rooms@));
        }
        out
    }
}

/// A room's file that was found on disk.
pub struct Found<H, D, W> {
    pub code: String,
    pub save: SaveFile<H, D, W>,
}

/// The place in a list, from the `i`th on, in front of the first file that was played no
/// later.
pub open spec fn in_front_of<H, D, W>(s: Seq<Found<H, D, W>>, played: u64, i: int) -> int
    decreases s.len() - i,
{
    if i < 0 || i >= s.len() || s[i].save.played <= played {
        i
    } else {
        in_front_of(s, played, i + 1)
    }
}

/// The files, the one that was played last first. Files that tie stay in their order.
pub open spec fn newest_first<H, D, W>(s: Seq<Found<H, D, W>>) -> Seq<Found<H, D, W>>
    decreases s.len(),
{
    if s.len() == 0 {
        s
    } else {
        let t = newest_first(s.drop_first());
        t.insert(in_front_of(t, s[0].save.played, 0), s[0])
    }
}

/// The files that are opened: the newest, and no more than a server holds.
pub fn boot_order<H, D, W>(files: Vec<Found<H, D, W>>) -> (r: Vec<Found<H, D, W>>)
    ensures
        r@ == text::capped(newest_first(files@), MAX_ROOMS as nat),
{
    let ghost all = files@;
    let mut files: Vec<Found<H, D, W>> = files;
    let mut out: Vec<Found<H, D, W>> = Vec::new();
    proof {
        assert(all.skip(all.len() as int) =~= Seq::<Found<H, D, W>>::empty());
        assert(files@ =~= all.take(all.len() as int));
    }
    while files.len() > 0
        invariant
            files@.len() <= all.len(),
            files@ == all.take(files@.len() as int),
            out@ == newest_first(all.skip(files@.len() as int)),
        decreases files.len(),
    {
        let ghost n = files@.len();
        let x: Option<Found<H, D, W>> = files.pop();
        if let Some(x) = x {
            proof {
                assert(x == all[n - 1]);
                assert(all.skip(n - 1).drop_first() =~= all.skip(n as int));
                assert(all.skip(n - 1)[0] == x);
                assert(files@ =~= all.take(n - 1));
            }
            let mut at: usize = 0;
            while at < out.len() && out[at].save.played > x.save.played
                invariant
                    at <= out@.len(),
                    in_front_of(out@, x.save.played, 0) == in_front_of(
                        out@,
                        x.save.played,
                        at as int,
                    ),
                decreases out.len() - at,
            {
                at += 1;
            }
            out.insert(at, x);
        }
    }
    proof {
        assert(all.skip(0) =~= all);
    }
    if out.len() > MAX_ROOMS {
        out.truncate(MAX_ROOMS);
    }
    proof {
        assert(out@ =~= text::capped(newest_first(all), MAX_ROOMS as nat));
    }
    out
}

proof fn lemma_in_front_of<H, D, W>(s: Seq<Found<H, D, W>>, played: u64, i: int)
    requires
        0 <= i <= s.len(),
    ensures
        i <= in_front_of(s, played, i) <= s.len(),
        forall|k: int| i <= k < in_front_of(s, played, i) ==> (#[trigger] s[k]).save.played > played,
        in_front_of(s, played, i) < s.len() ==> s[in_front_of(s, played, i)].save.played <= played,
    decreases s.len() - i,
{
    if i < s.len() && s[i].save.played > played {
        lemma_in_front_of(s, played, i + 1);
    }
}

/// The files that are opened are those that were found, and none was played after one
/// that stands in front of it.
pub proof fn law_boot_order_is_newest_first<H, D, W>(s: Seq<Found<H, D, W>>)
    ensures
        newest_first(s).to_multiset() == s.to_multiset(),
        forall|i: int, j: int|
            0 <= i < j < newest_first(s).len() ==> (#[trigger] newest_first(s)[i]).save.played >= (
            #[trigger] newest_first(s)[j]).save.played,
    decreases s.len(),
{
    if s.len() > 0 {
        let d = s.drop_first();
        law_boot_order_is_newest_first(d);
        let t = newest_first(d);
        let at = in_front_of(t, s[0].save.played, 0);
        lemma_in_front_of(t, s[0].save.played, 0);
        vstd::seq_lib::to_multiset_insert(t, at, s[0]);
        vstd::seq_lib::to_multiset_insert(d, 0, s[0]);
        assert(d.insert(0, s[0]) =~= s);
        let r = newest_first(s);
        assert forall|i: int, j: int| 0 <= i < j < r.len() implies (#[trigger] r[i]).save.played >= (
        #[trigger] r[j]).save.played by {
            if j < at {
                assert(t[i].save.played >= t[j].save.played);
            } else if i > at {
                assert(t[i - 1].save.played >= t[j - 1].save.played);
            } else if j == at {
                assert(t[i].save.played > s[0].save.played);
            } else if i == at {
                if j - 1 > at {
                    assert(t[at].save.played >= t[j - 1].save.played);
                }
            } else {
                assert(t[i].save.played >= t[j - 1].save.played);
            }
        }
    }
}

/// Who the room of a file is. A file from before rooms had names has the code for a name
/// and "demo" for a template.
pub open spec fn identity_in<H, D, W>(code: Seq<char>, f: SaveFile<H, D, W>, now: u64) -> Identity {
    Identity {
        id: code,
        name: if f.name@.len() == 0 {
            code
        } else {
            f.name@
        },
        template: if f.template@.len() == 0 {
            "demo"@
        } else {
            f.template@
        },
        created: if f.created == 0 {
            now
        } else {
            f.created
        },
        played: f.played,
    }
}

/// Who the room of a file is.
pub fn meta_in<H, D, W>(code: &str, f: &SaveFile<H, D, W>, now: u64) -> (m: RoomMeta)
    ensures
        m@ == identity_in(code@, *f, now),
{
    RoomMeta {
        id: code.to_string(),
        name: if is_empty_text(f.name.as_str()) {
            code.to_string()
        } else {
            f.name.clone()
        },
        template: if is_empty_text(f.template.as_str()) {
            "demo".to_string()
        } else {
            f.template.clone()
        },
        created: if f.created == 0 {
            now
        } else {
            f.created
        },
        played: f.played,
    }
}

/// A room that is opened from disk.
pub struct Opened<H, D, W> {
    pub meta: RoomMeta,
    pub setup: RoomSetup<H, D, W>,
}

/// The code is one of the first `n` rooms that are opened.
pub open spec fn opened_code<H, D, W>(s: Seq<Opened<H, D, W>>, code: Seq<char>) -> bool {
    exists|j: int| 0 <= j < s.len() && (#[trigger] s[j]).meta.id@ == code
}

/// The room is the last of those with its code that are opened, and it does not run.
pub open spec fn opened_last<H, D, W>(s: Seq<Opened<H, D, W>>, h: RoomHandle<H, D, W>) -> bool {
    exists|j: int|
        0 <= j < s.len() && opened_as((#[trigger] s[j]).setup, s[j].meta, h) && forall|k: int|
            j < k < s.len() ==> (#[trigger] s[k]).meta.id@ != s[j].meta.id@
}

impl<H: Copy, D, W> Registry<H, D, W> {
    /// A server with the rooms that were found on disk, all parked.
    pub fn open(found: Vec<Opened<H, D, W>>) -> (r: Registry<H, D, W>)
        ensures
            in_order(r.rooms@),
            forall|code: Seq<char>| (#[trigger] room_at(r.rooms@, code) is Some) <==> opened_code(
                found@,
                code,
            ),
            forall|i: int| 0 <= i < r.rooms@.len() ==> opened_last(found@, #[trigger] r.rooms@[i]),
            code_view(r.default_code) == latest_code(r.rooms@),
            default_is_latest(r),
    {
        let ghost all = found@;
        let mut found: Vec<Opened<H, D, W>> = found;
        let mut reg: Registry<H, D, W> = Registry::new();
        let ghost mut n: int = 0;
        proof {
            assert(found@ =~= all.skip(0));
            assert forall|code: Seq<char>| (#[trigger] room_at(reg.rooms@, code) is Some)
                <==> opened_code(all.take(0), code) by {
                ids(reg.rooms@).index_of_first_ensures(code);
            }
        }
        while found.len() > 0
            invariant
                0 <= n <= all.len(),
                found@ == all.skip(n),
                in_order(reg.rooms@),
                forall|code: Seq<char>| (#[trigger] room_at(reg.rooms@, code) is Some)
                    <==> opened_code(all.take(n), code),
                forall|i: int|
                    0 <= i < reg.rooms@.len() ==> opened_last(all.take(n), #[trigger] reg.rooms@[i]),
            decreases found.len(),
        {
            let o: Opened<H, D, W> = found.remove(0);
            proof {
                assert(o == all[n]);
                assert(found@ =~= all.skip(n + 1));
            }
            let normal: RoomSetup<H, D, W> = o.setup.normalize();
            proof {
                handle::lemma_a_normal_machine_fits(o.setup, normal);
            }
            let h: RoomHandle<H, D, W> = build_handle(o.meta, normal);
            assert(save::normalised(o.setup, normal) && handle::built(o.meta, normal, h));
            let ghost had = reg.rooms@;
            let ghost t = all.take(n);
            let ghost u = all.take(n + 1);
            reg.put_room(h);
            proof {
                assert(u =~= t.push(o));
                lemma_opened_one_more(had, t, u, h, o);
                n = n + 1;
            }
        }
        reg.refresh_default();
        proof {
            assert(all.take(all.len() as int) =~= all);
            assert(n == all.len());
        }
        reg
    }
}

proof fn lemma_opened_one_more<H, D, W>(
    had: Seq<RoomHandle<H, D, W>>,
    t: Seq<Opened<H, D, W>>,
    u: Seq<Opened<H, D, W>>,
    h: RoomHandle<H, D, W>,
    o: Opened<H, D, W>,
)
    requires
        in_order(had),
        u == t.push(o),
        opened_as(o.setup, o.meta, h),
        forall|code: Seq<char>| (#[trigger] room_at(had, code) is Some) <==> opened_code(t, code),
        forall|i: int| 0 <= i < had.len() ==> opened_last(t, #[trigger] had[i]),
    ensures
        in_order(with_room(had, h)),
        forall|code: Seq<char>| (#[trigger] room_at(with_room(had, h), code) is Some)
            <==> opened_code(u, code),
        forall|i: int|
            0 <= i < with_room(had, h).len() ==> opened_last(u, #[trigger] with_room(had, h)[i]),
{
    let now = with_room(had, h);
    let mine = o.meta.id@;
    law_adding_keeps_the_order(had, h, mine);
    assert forall|code: Seq<char>| (#[trigger] room_at(now, code) is Some) <==> opened_code(u, code) by {
        law_adding_keeps_the_order(had, h, code);
        assert(room_at(had, code) is Some <==> opened_code(t, code));
        if opened_code(t, code) {
            let j = choose|j: int| 0 <= j < t.len() && (#[trigger] t[j]).meta.id@ == code;
            assert(u[j] == t[j]);
        }
        if code == mine {
            assert(u[t.len() as int] == o);
        }
        if opened_code(u, code) && code != mine {
            let j = choose|j: int| 0 <= j < u.len() && (#[trigger] u[j]).meta.id@ == code;
            assert(t[j] == u[j]);
        }
    }
    assert(opened_last(u, h)) by {
        assert(u[t.len() as int] == o);
    }
    let at = room_at(now, mine)->0;
    ids(now).index_of_first_ensures(mine);
    lemma_slot(had, mine, had.len() as int);
    ids(had).index_of_first_ensures(mine);
    assert forall|i: int| 0 <= i < now.len() implies opened_last(u, #[trigger] now[i]) by {
        if now[i] != h {
            let k = if room_at(had, mine) is None && i > slot(had, mine, had.len() as int) {
                i - 1
            } else {
                i
            };
            assert(now[i] == had[k]);
            assert(opened_last(t, had[k]));
            let j = choose|j: int|
                0 <= j < t.len() && opened_as((#[trigger] t[j]).setup, t[j].meta, had[k]) && forall|m: int|
                    j < m < t.len() ==> (#[trigger] t[m]).meta.id@ != t[j].meta.id@;
            assert(u[j] == t[j]);
            assert(had[k].meta.id@ == t[j].meta.id@);
            if had[k].meta.id@ == mine {
                assert(ids(had)[k] == mine);
                assert(ids(had).contains(mine));
                let f = room_at(had, mine)->0;
                if f != k {
                    if f < k {
                        assert(text::before(ids(had)[f], ids(had)[k]));
                    } else {
                        assert(text::before(ids(had)[k], ids(had)[f]));
                    }
                    text::lemma_before_is_total(mine, mine);
                }
                assert(false);
            }
            assert forall|m: int| j < m < u.len() implies (#[trigger] u[m]).meta.id@
                != u[j].meta.id@ by {
                if m < t.len() {
                    assert(u[m] == t[m]);
                }
            }
        }
    }
}

/// A room that is added takes the place of the room with its code; or, where there is none, it
/// goes in between the rooms that come before it and those that do not, and the others keep
/// their order.
pub proof fn law_a_room_goes_where_its_code_belongs<H, D, W>(
    s: Seq<RoomHandle<H, D, W>>,
    h: RoomHandle<H, D, W>,
)
    requires
        in_order(s),
    ensures
        ({
            let now = with_room(s, h);
            ||| exists|i: int|
                0 <= i < s.len() && (#[trigger] s[i]).meta.id@ == h.meta.id@ && lists::same_but_at(
                    s,
                    now,
                    i,
                ) && now[i] == h
            ||| {
                &&& forall|i: int| 0 <= i < s.len() ==> (#[trigger] s[i]).meta.id@ != h.meta.id@
                &&& exists|at: int| #[trigger]
                    lists::one_less(now, s, at) && now[at] == h && (forall|i: int|
                        0 <= i < at ==> text::before((#[trigger] s[i]).meta.id@, h.meta.id@)) && (
                    forall|i: int|
                        at <= i < s.len() ==> !text::before((#[trigger] s[i]).meta.id@, h.meta.id@))
            }
        }),
{
    let (code, now) = (h.meta.id@, with_room(s, h));
    ids(s).index_of_first_ensures(code);
    match room_at(s, code) {
        Some(i) => {
            assert(ids(s)[i] == s[i].meta.id@);
            assert(lists::same_but_at(s, now, i));
        },
        None => {
            let at = slot(s, code, s.len() as int);
            lemma_slot(s, code, s.len() as int);
            assert forall|i: int| 0 <= i < s.len() implies (#[trigger] s[i]).meta.id@ != code by {
                assert(ids(s)[i] != code);
            }
            assert(lists::one_less(now, s, at));
            assert forall|i: int| 0 <= i < at implies text::before((#[trigger] s[i]).meta.id@, code) by {
                assert(ids(s)[i] == s[i].meta.id@);
            }
            assert forall|i: int| at <= i < s.len() implies !text::before(
                (#[trigger] s[i]).meta.id@,
                code,
            ) by {
                assert(ids(s)[i] == s[i].meta.id@);
            }
        },
    }
}

/// The room that was played last: none was played after it; of those that were played at the
/// same time none was made after it; and of those that were made at the same time too it is the
/// last.
pub proof fn law_which_room_was_played_last<H, D, W>(s: Seq<RoomHandle<H, D, W>>, n: int, j: int)
    requires
        0 <= j < n <= s.len(),
    ensures
        latest(s, n) matches Some(i) && 0 <= i < n && {
            let (a, b) = (s[i].meta, s[j].meta);
            ||| b.played < a.played
            ||| b.played == a.played && b.created < a.created
            ||| b.played == a.played && b.created == a.created && j <= i
        },
    decreases n,
{
    law_the_latest_room_is_the_latest(s, n);
    if j < n - 1 {
        law_which_room_was_played_last(s, n - 1, j);
        law_which_room_was_played_last(s, n - 1, latest(s, n - 1)->0);
    } else if n > 1 {
        law_which_room_was_played_last(s, n - 1, 0);
    }
}

/// The default room's code once a room was played: that of a room that no other was played
/// after, and that room's own where it is one.
pub proof fn law_the_default_follows_the_play<H, D, W>(s: Seq<RoomHandle<H, D, W>>, place: int)
    requires
        0 <= place < s.len(),
    ensures
        (forall|j: int| 0 <= j < s.len() ==> (#[trigger] s[j]).meta.played <= s[place].meta.played)
            ==> followed(s, place) == Some(s[place].meta.id@),
        exists|i: int|
            0 <= i < s.len() && followed(s, place) == Some((#[trigger] s[i]).meta.id@) && forall|j: int|
                0 <= j < s.len() ==> (#[trigger] s[j]).meta.played <= s[i].meta.played,
{
    law_the_latest_room_is_the_latest(s, s.len() as int);
    if played_last(s, place) {
        assert(followed(s, place) == Some(s[place].meta.id@));
    } else {
        let i = latest(s, s.len() as int)->0;
        assert(followed(s, place) == Some(s[i].meta.id@));
        assert forall|j: int| 0 <= j < s.len() implies (#[trigger] s[j]).meta.played
            <= s[i].meta.played by {
            assert(no_older(s[i].meta, s[j].meta));
        }
    }
}

/// A name of which nothing can be read is refused, and so is a room too many. Nothing else is.
pub proof fn law_which_rooms_are_refused<H, D, W>(s: Seq<RoomHandle<H, D, W>>, name: Seq<char>)
    ensures
        match refused(s, name) {
            Some(CreateErr::BadName) => text::reads_as(name, 40, Seq::empty()),
            Some(CreateErr::TooMany) => s.len() >= 64 && !(text::cleaned(name, 40).len() == 0),
            Some(_) => false,
            None => s.len() < 64 && text::cleaned(name, 40).len() > 0,
        },
{
    text::law_a_clean_text_reads_as_it_was_written(name, 40);
    if text::cleaned(name, 40).len() == 0 {
        assert(text::cleaned(name, 40) =~= Seq::<char>::empty());
    }
}

/// A room that is made has a code that no room has, the name that was asked for as far as it
/// can be read, the template that it came from, and the time for both of its times; and it is
/// built from the setup.
pub proof fn law_a_new_room_is_what_was_asked_for<H, D, W>(
    s: Seq<RoomHandle<H, D, W>>,
    name: Seq<char>,
    template: Seq<char>,
    setup: RoomSetup<H, D, W>,
    tries: CodeTries,
    now: u64,
    r: Result<RoomHandle<H, D, W>, CreateErr>,
)
    requires
        prepared(s, name, template, setup, tries, now, r),
    ensures
        r matches Ok(h) ==> {
            &&& codes::is_code(h.meta.id@)
            &&& forall|i: int| 0 <= i < s.len() ==> (#[trigger] s[i]).meta.id@ != h.meta.id@
            &&& text::reads_as(name, 40, h.meta.name@)
            &&& h.meta.name@.len() > 0
            &&& h.meta.template@ == template
            &&& h.meta.created == now
            &&& h.meta.played == now
            &&& handle::built(h.meta, setup, h)
            &&& s.len() < 64
        },
        r is Err ==> r->Err_0 is BadName || r->Err_0 is TooMany,
        text::reads_as(name, 40, Seq::empty()) && text::cleaned(name, 40).len() == 0 ==> (
        r matches Err(e) && e is BadName),
        s.len() < 64 && text::cleaned(name, 40).len() > 0 ==> r is Ok,
{
    law_which_rooms_are_refused(s, name);
    text::law_a_clean_text_reads_as_it_was_written(name, 40);
    law_a_minted_code_is_fresh(s, tries, 0);
    if let Ok(h) = r {
        let code = minted(s, tries, 0);
        ids(s).index_of_first_ensures(code);
        assert forall|i: int| 0 <= i < s.len() implies (#[trigger] s[i]).meta.id@ != code by {
            assert(ids(s)[i] == s[i].meta.id@);
        }
        assert(h.meta@.id == h.meta.id@ && h.meta@.name == h.meta.name@);
    }
}

/// What is wrong with a template is told first, and as it was found.
pub proof fn law_what_is_wrong_with_a_template_is_told<H: Default, D: Default, W>(
    s: Seq<RoomHandle<H, D, W>>,
    name: Seq<char>,
    template: Seq<char>,
    found: Result<RoomSetup<H, D, W>, ResolveErr>,
    tries: CodeTries,
    now: u64,
    r: Result<RoomHandle<H, D, W>, CreateErr>,
)
    requires
        created(s, name, template, found, tries, now, r),
    ensures
        found matches Err(ResolveErr::Missing) ==> (r matches Err(e) && e is NoTemplate),
        found matches Err(ResolveErr::Bad(why)) ==> (r matches Err(CreateErr::BadTemplate(w)) && w == why),
        found is Ok ==> (r matches Err(e) ==> e is BadName || e is TooMany),
        found is Ok && r is Ok ==> {
            let h = r->Ok_0;
            &&& codes::is_code(h.meta.id@)
            &&& text::reads_as(name, 40, h.meta.name@)
            &&& h.meta.template@ == template
            &&& h.meta.created == now && h.meta.played == now
            &&& !h.room.ext
            &&& (h.has_machine <==> found->Ok_0.machine is Hoist)
        },
        found is Ok && s.len() < 64 && text::cleaned(name, 40).len() > 0 ==> r is Ok,
{
    if let Ok(setup) = found {
        let (level, normal) = choose|level: RoomSetup<H, D, W>, normal: RoomSetup<H, D, W>|
            save::freshened(setup, level) && #[trigger] save::normalised(level, normal) && prepared(
                s,
                name,
                template,
                normal,
                tries,
                now,
                r,
            );
        law_a_new_room_is_what_was_asked_for(s, name, template, normal, tries, now, r);
        save::law_a_fresh_level_is_the_level(setup, level);
        save::law_a_normal_setup_is_the_setup(level, normal);
    }
}

/// The text is written like the code: the same characters, small letters for capitals or not.
pub open spec fn spells(asked: Seq<char>, code: Seq<char>) -> bool {
    &&& asked.len() == code.len()
    &&& forall|k: int| 0 <= k < asked.len() ==> text::capital(asked[k]) == #[trigger] code[k]
}

/// A room is found by its code, written large or small, with white space around it or not; a
/// code that no room has finds none.
pub proof fn law_a_room_is_found_by_its_code<H, D, W>(r: Registry<H, D, W>, asked: Seq<char>)
    requires
        text::trimmed(asked).len() > 0,
    ensures
        match resolved(r, Some(asked)) {
            Some(i) => 0 <= i < r.rooms@.len() && spells(text::trimmed(asked), r.rooms@[i].meta.id@),
            None => forall|i: int|
                0 <= i < r.rooms@.len() ==> !spells(
                    text::trimmed(asked),
                    (#[trigger] r.rooms@[i]).meta.id@,
                ),
        },
{
    let t = text::trimmed(asked);
    let code = t.map_values(|c: char| text::capital(c));
    let s = r.rooms@;
    ids(s).index_of_first_ensures(code);
    match room_at(s, code) {
        Some(i) => {
            assert(ids(s)[i] == s[i].meta.id@);
        },
        None => {
            assert forall|i: int| 0 <= i < s.len() implies !spells(t, (#[trigger] s[i]).meta.id@) by {
                assert(ids(s)[i] == s[i].meta.id@);
                if spells(t, s[i].meta.id@) {
                    assert(s[i].meta.id@ =~= code);
                    assert(ids(s).contains(code));
                }
            }
        },
    }
}

/// Somebody who names no room, or nothing but white space, gets the default room where it is
/// there, and else a room that no other was played after; and none only where there is none.
pub proof fn law_whoever_names_no_room_gets_the_default<H, D, W>(
    r: Registry<H, D, W>,
    asked: Option<Seq<char>>,
)
    requires
        in_order(r.rooms@),
        asked matches Some(a) ==> text::trimmed(a).len() == 0,
    ensures
        match resolved(r, asked) {
            Some(i) => 0 <= i < r.rooms@.len() && {
                ||| r.default_code matches Some(c) && c@ == r.rooms@[i].meta.id@
                ||| {
                    &&& r.default_code matches Some(c) ==> forall|j: int|
                        0 <= j < r.rooms@.len() ==> (#[trigger] r.rooms@[j]).meta.id@ != c@
                    &&& forall|j: int|
                        0 <= j < r.rooms@.len() ==> (#[trigger] r.rooms@[j]).meta.played
                            <= r.rooms@[i].meta.played
                }
            },
            None => r.rooms@.len() == 0,
        },
        r.default_code matches Some(c) ==> forall|j: int|
            0 <= j < r.rooms@.len() && (#[trigger] r.rooms@[j]).meta.id@ == c@ ==> resolved(r, asked)
                == Some(j),
{
    let s = r.rooms@;
    lemma_latest_is_found(s);
    law_the_latest_room_is_the_latest(s, s.len() as int);
    if let Some(c) = r.default_code {
        ids(s).index_of_first_ensures(c@);
        match room_at(s, c@) {
            Some(i) => {
                assert(ids(s)[i] == s[i].meta.id@);
            },
            None => {
                assert forall|j: int| 0 <= j < s.len() implies (#[trigger] s[j]).meta.id@ != c@ by {
                    assert(ids(s)[j] == s[j].meta.id@);
                }
            },
        }
        assert forall|j: int| 0 <= j < s.len() && (#[trigger] s[j]).meta.id@ == c@ implies resolved(
            r,
            asked,
        ) == Some(j) by {
            lemma_found_by_its_code(s, j);
        }
    }
    if let Some(c) = latest_code(s) {
        ids(s).index_of_first_ensures(c);
    }
}

/// The default room's code stays where its room is there; else it is that of a room that no
/// other was played after.
pub proof fn law_the_default_is_refreshed_where_it_is_gone<H, D, W>(r: Registry<H, D, W>)
    ensures
        r.default_code matches Some(c) ==> (exists|j: int|
            0 <= j < r.rooms@.len() && (#[trigger] r.rooms@[j]).meta.id@ == c@) ==> refreshed(r) == Some(
            c@,
        ),
        (r.default_code matches Some(c) ==> forall|j: int|
            0 <= j < r.rooms@.len() ==> (#[trigger] r.rooms@[j]).meta.id@ != c@) ==> match refreshed(r) {
            Some(d) => exists|i: int|
                0 <= i < r.rooms@.len() && d == (#[trigger] r.rooms@[i]).meta.id@ && forall|j: int|
                    0 <= j < r.rooms@.len() ==> (#[trigger] r.rooms@[j]).meta.played
                        <= r.rooms@[i].meta.played,
            None => r.rooms@.len() == 0,
        },
{
    let s = r.rooms@;
    law_the_latest_room_is_the_latest(s, s.len() as int);
    if s.len() > 0 {
        let i = latest(s, s.len() as int)->0;
        assert(latest_code(s) == Some(s[i].meta.id@));
        assert forall|j: int| 0 <= j < s.len() implies (#[trigger] s[j]).meta.played
            <= s[i].meta.played by {
            assert(no_older(s[i].meta, s[j].meta));
        }
    }
    if let Some(c) = r.default_code {
        ids(s).index_of_first_ensures(c@);
        if exists|j: int| 0 <= j < s.len() && (#[trigger] s[j]).meta.id@ == c@ {
            let j = choose|j: int| 0 <= j < s.len() && (#[trigger] s[j]).meta.id@ == c@;
            assert(ids(s)[j] == c@);
            assert(ids(s).contains(c@));
        }
        if let Some(j) = room_at(s, c@) {
            assert(ids(s)[j] == s[j].meta.id@);
        }
    }
}

/// The code of a new room is that of the first number whose code is neither a room's nor a
/// file's.
pub proof fn law_the_first_free_number_gives_the_code<H, D, W>(
    s: Seq<RoomHandle<H, D, W>>,
    tries: CodeTries,
    i: int,
)
    requires
        0 <= i < tries.numbers@.len(),
    ensures
        ({
            let code = codes::coded(tries.numbers@[i] as int, 6);
            let free = (forall|k: int| 0 <= k < s.len() ==> (#[trigger] s[k]).meta.id@ != code) && (
            forall|k: int| 0 <= k < tries.files@.len() ==> (#[trigger] tries.files@[k])@ != code);
            &&& free ==> minted(s, tries, i) == code
            &&& !free ==> minted(s, tries, i) == minted(s, tries, i + 1)
        }),
{
    let code = codes::coded(tries.numbers@[i] as int, 6);
    let all = taken(s, tries.files@);
    if all.contains(code) {
        let k = choose|k: int| 0 <= k < all.len() && all[k] == code;
        if k < s.len() {
            assert(s[k].meta.id@ == code);
        } else {
            assert(tries.files@[k - s.len()]@ == code);
        }
    } else {
        lemma_not_taken(s, tries.files@, code);
        ids(s).index_of_first_ensures(code);
        assert forall|k: int| 0 <= k < s.len() implies (#[trigger] s[k]).meta.id@ != code by {
            assert(ids(s)[k] == s[k].meta.id@);
        }
        assert forall|k: int| 0 <= k < tries.files@.len() implies (#[trigger] tries.files@[k])@ != code by {
            assert(lists::views(tries.files@)[k] == tries.files@[k]@);
        }
    }
}

/// A listing says of a room who it is, how many parts it has, how many are in it, whether it
/// runs, and whether it has a machine.
pub proof fn law_a_listing_says_what_the_room_is<H, D, W>(h: RoomHandle<H, D, W>, i: RoomInfo)
    ensures
        listed(h).meta.id == h.meta.id@ && listed(h).meta.name == h.meta.name@,
        listed(h).meta.template == h.meta.template@,
        listed(h).meta.created == h.meta.created && listed(h).meta.played == h.meta.played,
        listed(h).parts == h.room.elements@.len(),
        listed(h).players == h.room.population,
        listed(h).live <==> h.life is Live,
        listed(h).machine <==> h.has_machine,
        i@.meta.id == i.id@ && i@.meta.name == i.name@ && i@.meta.template == i.template@,
        i@.meta.created == i.created && i@.meta.played == i.played,
        i@.parts == i.parts && i@.players == i.players && i@.live == i.live && i@.machine == i.machine,
{
}

/// A room that was played later is listed before one that was played earlier; of two that were
/// played at the same time, the one with the earlier code.
pub proof fn law_who_is_listed_first(a: Listing, b: Listing)
    ensures
        a.meta.played > b.meta.played ==> ranks(a, b) && !ranks(b, a),
        a.meta.played == b.meta.played ==> (ranks(a, b) <==> text::before(a.meta.id, b.meta.id)),
        ranks(a, b) ==> !ranks(b, a),
{
    text::lemma_before_is_total(a.meta.id, b.meta.id);
}

/// The room of a file is who the file says it is, under the code of the file's name; what an
/// old file does not say is made up for.
pub proof fn law_a_file_says_who_the_room_is<H, D, W>(code: Seq<char>, f: SaveFile<H, D, W>, now: u64)
    ensures
        identity_in(code, f, now).id == code,
        f.name@.len() > 0 ==> identity_in(code, f, now).name == f.name@,
        f.name@.len() == 0 ==> identity_in(code, f, now).name == code,
        f.template@.len() > 0 ==> identity_in(code, f, now).template == f.template@,
        f.template@.len() == 0 ==> identity_in(code, f, now).template == "demo"@,
        f.created > 0 ==> identity_in(code, f, now).created == f.created,
        f.created == 0 ==> identity_in(code, f, now).created == now,
        identity_in(code, f, now).played == f.played,
{
}

/// Who a new room is: its code, its name and its template, made and played now.
pub proof fn law_a_newborn_is_made_now(code: Seq<char>, name: Seq<char>, template: Seq<char>, now: u64)
    ensures
        newborn(code, name, template, now).id == code,
        newborn(code, name, template, now).name == name,
        newborn(code, name, template, now).template == template,
        newborn(code, name, template, now).created == now,
        newborn(code, name, template, now).played == now,
{
}

/// Says of a file that it was played then.
pub open spec fn played_at<H, D, W>(p: u64) -> spec_fn(Found<H, D, W>) -> bool {
    |f: Found<H, D, W>| f.save.played == p
}

/// Files that were played at the same time are opened in the order in which they were found.
pub proof fn law_files_that_tie_stay_in_order<H, D, W>(s: Seq<Found<H, D, W>>, p: u64)
    ensures
        newest_first(s).filter(played_at(p)) == s.filter(played_at(p)),
    decreases s.len(),
{
    let so = played_at::<H, D, W>(p);
    if s.len() > 0 {
        let d = s.drop_first();
        law_files_that_tie_stay_in_order(d, p);
        let t = newest_first(d);
        let x = s[0];
        let at = in_front_of(t, x.save.played, 0);
        lemma_in_front_of(t, x.save.played, 0);
        let (a, b) = (t.take(at), t.skip(at));
        let one = seq![x];
        assert(t =~= a + b);
        assert(newest_first(s) =~= a + (one + b));
        Seq::filter_distributes_over_add(a, b, so);
        Seq::filter_distributes_over_add(a, one + b, so);
        Seq::filter_distributes_over_add(one, b, so);
        lists::lemma_filter_front(s, so);
        reveal(Seq::filter);
        assert(one.drop_last() =~= Seq::<Found<H, D, W>>::empty());
        assert(one.drop_last().filter(so) =~= Seq::<Found<H, D, W>>::empty());
        if so(x) {
            assert(one.filter(so) =~= one);
            lemma_none_so(a, so);
            assert(newest_first(s).filter(so) =~= one + b.filter(so));
            assert(t.filter(so) =~= b.filter(so));
        } else {
            assert(one.filter(so) =~= Seq::<Found<H, D, W>>::empty());
            assert(newest_first(s).filter(so) =~= a.filter(so) + b.filter(so));
        }
    }
}

proof fn lemma_none_so<T>(s: Seq<T>, so: spec_fn(T) -> bool)
    requires
        forall|i: int| 0 <= i < s.len() ==> !so(#[trigger] s[i]),
    ensures
        s.filter(so) == Seq::<T>::empty(),
    decreases s.len(),
{
    reveal(Seq::filter);
    if s.len() > 0 {
        let d = s.drop_last();
        assert forall|i: int| 0 <= i < d.len() implies !so(#[trigger] d[i]) by {
            assert(d[i] == s[i]);
        }
        lemma_none_so(d, so);
        assert(!so(s[s.len() - 1]));
    }
    assert(s.filter(so) =~= Seq::<T>::empty());
}

/// Where no number gave a free code, the codes are counted up: the first that is neither a
/// room's nor a file's.
pub proof fn law_codes_are_counted_up<H, D, W>(s: Seq<RoomHandle<H, D, W>>, tries: CodeTries, m: int)
    requires
        tries.numbers@.len() == 0,
        s.len() + tries.files@.len() < 729_000_000,
        0 <= m,
    ensures
        exists|n: int|
            0 <= n < 729_000_000 && minted(s, tries, 0) == #[trigger] codes::coded(n, 6) && (m < n
                ==> taken(s, tries.files@).contains(codes::coded(m, 6))),
{
    let all = taken(s, tries.files@);
    codes::law_counting_finds_a_free_code(all);
    let n = codes::counted(all, 0)->0;
    if m < n {
        codes::law_counting_stops_at_the_first(all, 0, m);
    }
    assert(minted(s, tries, 0) == codes::coded(n, 6));
}

/// The rooms are listed from the one that was played last on; of two that were played at the
/// same time the one with the earlier code comes first.
pub proof fn law_the_list_goes_from_the_last_played_on(s: Seq<Listing>, i: int, j: int)
    requires
        ranked(s),
        0 <= i < j < s.len(),
    ensures
        s[j].meta.played <= s[i].meta.played,
        s[j].meta.played == s[i].meta.played ==> !text::before(s[j].meta.id, s[i].meta.id),
{
    assert(!ranks(s[j], s[i]));
}

/// Each room is listed once, as what it is.
pub proof fn law_each_room_is_listed<H, D, W>(s: Seq<RoomHandle<H, D, W>>)
    ensures
        listings(s).len() == s.len(),
        forall|i: int|
            0 <= i < s.len() ==> (#[trigger] listings(s)[i]).meta.id == s[i].meta.id@ && listings(
                s,
            )[i].meta.played == s[i].meta.played && listings(s)[i].parts == s[i].room.elements@.len()
                && listings(s)[i].players == s[i].room.population,
{
}

/// Of the rooms that are opened under one code the last one stands, parked and with nobody in
/// it, and with the parts that were opened.
pub proof fn law_the_last_of_a_code_is_opened<H, D, W>(
    s: Seq<Opened<H, D, W>>,
    h: RoomHandle<H, D, W>,
)
    requires
        opened_last(s, h),
    ensures
        exists|j: int|
            0 <= j < s.len() && (#[trigger] s[j]).meta == h.meta && (forall|k: int|
                j < k < s.len() ==> (#[trigger] s[k]).meta.id@ != h.meta.id@) && lists::views(
                h.room.elements@,
            ) == handle::furnished(lists::views(s[j].setup.elements@), h.machine),
        h.life is Parked,
        !h.deleted,
        h.room.chat@.len() == 0,
        h.room.claims@.len() == 0,
{
    let j = choose|j: int|
        0 <= j < s.len() && opened_as((#[trigger] s[j]).setup, s[j].meta, h) && forall|k: int|
            j < k < s.len() ==> (#[trigger] s[k]).meta.id@ != s[j].meta.id@;
    let normal = choose|normal: RoomSetup<H, D, W>| #[trigger]
        save::normalised(s[j].setup, normal) && handle::built(s[j].meta, normal, h);
    assert(normal.elements == s[j].setup.elements);
    assert(s[j].meta == h.meta);
}

/// One more room that is opened brings its own code and no other.
pub proof fn law_an_opened_room_brings_its_code<H, D, W>(
    s: Seq<Opened<H, D, W>>,
    o: Opened<H, D, W>,
    code: Seq<char>,
)
    ensures
        opened_code(s.push(o), code) <==> opened_code(s, code) || o.meta.id@ == code,
        s.len() == 0 ==> !opened_code(s, code),
{
    let t = s.push(o);
    if opened_code(s, code) {
        let j = choose|j: int| 0 <= j < s.len() && (#[trigger] s[j]).meta.id@ == code;
        assert(t[j].meta.id@ == code);
    }
    if o.meta.id@ == code {
        assert(t[s.len() as int].meta.id@ == code);
    }
    if opened_code(t, code) {
        let j = choose|j: int| 0 <= j < t.len() && (#[trigger] t[j]).meta.id@ == code;
        if j < s.len() {
            assert(s[j].meta.id@ == code);
        }
    }
}

/// The first room of a server has a name that needs no cleaning, of nine letters.
pub proof fn law_the_first_room_is_the_main_room()
    ensures
        first_name() == seq!['M', 'a', 'i', 'n', ' ', 'R', 'o', 'o', 'm'],
{
    reveal_strlit("Main Room");
}

} // verus!
