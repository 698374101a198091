//! Room codes and room names.
use vstd::prelude::*;

use crate::text::{self, chars_of, clean_name, text_of};

verus! {

/// The characters of a room code.
pub const CODE_LEN: usize = 6;

/// The characters that room codes are made of.
pub const CODE_BASE: u64 = 30;

/// How many room codes there are.
pub const CODES: u64 = 729_000_000;

/// The longest name of a room, in characters.
pub const MAX_ROOM_NAME: usize = 40;

/// The character of a code for a digit. No character that is read aloud or typed like
/// another: no 0 or O, no 1, I or L, and no U.
pub open spec fn code_char(d: int) -> char {
    "23456789ABCDEFGHJKMNPQRSTVWXYZ"@[d]
}

/// The character is one of a code.
pub open spec fn in_alphabet(c: char) -> bool {
    ('2' <= c && c <= '9') || ('A' <= c && c <= 'Z' && c != 'I' && c != 'L' && c != 'O' && c != 'U')
}

/// A room code.
pub open spec fn is_code(s: Seq<char>) -> bool {
    s.len() == CODE_LEN && forall|i: int| 0 <= i < s.len() ==> in_alphabet(#[trigger] s[i])
}

/// The alphabet of codes has exactly these characters, each once.
pub proof fn law_the_alphabet_is_unambiguous(c: char)
    ensures
        in_alphabet(c) <==> "23456789ABCDEFGHJKMNPQRSTVWXYZ"@.contains(c),
        "23456789ABCDEFGHJKMNPQRSTVWXYZ"@.len() == CODE_BASE,
        "23456789ABCDEFGHJKMNPQRSTVWXYZ"@.no_duplicates(),
{
    reveal_strlit("23456789ABCDEFGHJKMNPQRSTVWXYZ");
    let s = "23456789ABCDEFGHJKMNPQRSTVWXYZ"@;
    assert(s.len() == 30);
    if in_alphabet(c) {
        let n = c as u32;
        let i: int = if n <= 57 {
            n - 50
        } else if n <= 72 {
            n - 57
        } else if n <= 75 {
            n - 58
        } else if n <= 78 {
            n - 59
        } else if n <= 84 {
            n - 60
        } else {
            n - 61
        };
        assert(s[i] == c);
    }
    if s.contains(c) {
        let i = choose|i: int| 0 <= i < s.len() && s[i] == c;
        assert(in_alphabet(s[i]));
    }
}

/// Whether a character is one of a code.
pub fn is_code_char(c: char) -> (r: bool)
    ensures
        r == in_alphabet(c),
{
    ('2' <= c && c <= '9') || ('A' <= c && c <= 'Z' && c != 'I' && c != 'L' && c != 'O' && c != 'U')
}

/// Whether a text is a room code.
pub fn valid_code(s: &str) -> (r: bool)
    ensures
        r == is_code(s@),
{
    let v: Vec<char> = chars_of(s);
    if v.len() != CODE_LEN {
        return false;
    }
    let mut i: usize = 0;
    while i < v.len()
        invariant
            i <= v@.len(),
            v@ == s@,
            v@.len() == CODE_LEN,
            forall|k: int| 0 <= k < i ==> in_alphabet(#[trigger] v@[k]),
        decreases v.len() - i,
    {
        if !is_code_char(v[i]) {
            assert(!in_alphabet(v@[i as int]));
            return false;
        }
        i += 1;
    }
    true
}

/// A character that a template's id may hold.
pub open spec fn plain(c: char) -> bool {
    ('0' <= c && c <= '9') || ('A' <= c && c <= 'Z') || ('a' <= c && c <= 'z') || c == '-' || c == '_'
}

/// Whether a text can be a template's id, which is also the name of a file.
pub fn is_template_id(s: &str) -> (r: bool)
    ensures
        r == (s@.len() > 0 && forall|i: int| 0 <= i < s@.len() ==> plain(#[trigger] s@[i])),
{
    let v: Vec<char> = chars_of(s);
    let mut i: usize = 0;
    while i < v.len()
        invariant
            i <= v@.len(),
            v@ == s@,
            forall|k: int| 0 <= k < i ==> plain(#[trigger] v@[k]),
        decreases v.len() - i,
    {
        let c: char = v[i];
        if !(('0' <= c && c <= '9') || ('A' <= c && c <= 'Z') || ('a' <= c && c <= 'z') || c == '-'
            || c == '_') {
            assert(!plain(v@[i as int]));
            return false;
        }
        i += 1;
    }
    v.len() > 0
}

/// The ending of a room's file.
pub open spec fn ending() -> Seq<char> {
    ".json"@
}

/// The code of a room's file: the file's name without the ending, if that is a code.
pub open spec fn code_in(name: Seq<char>) -> Option<Seq<char>> {
    let n = name.len() - ending().len();
    if n >= 0 && name.skip(n) == ending() && is_code(name.take(n)) {
        Some(name.take(n))
    } else {
        None
    }
}

/// The code of a room's file, by the file's name.
pub fn file_code(name: &str) -> (r: Option<String>)
    ensures
        match r {
            Some(c) => code_in(name@) == Some(c@),
            None => code_in(name@) is None,
        },
{
    let v: Vec<char> = chars_of(name);
    let e: Vec<char> = chars_of(".json");
    if v.len() < e.len() {
        return None;
    }
    let n: usize = v.len() - e.len();
    let mut head: Vec<char> = Vec::new();
    let mut i: usize = 0;
    while i < n
        invariant
            i <= n <= v@.len(),
            head@ == v@.take(i as int),
        decreases n - i,
    {
        head.push(v[i]);
        i += 1;
        proof {
            assert(v@.take(i as int) =~= v@.take(i - 1).push(v@[i - 1]));
        }
    }
    let mut j: usize = 0;
    while j < e.len()
        invariant
            j <= e@.len(),
            n + e.len() == v.len(),
            v@ == name@,
            e@ == ending(),
            forall|k: int| 0 <= k < j ==> v@[n + k] == e@[k],
        decreases e.len() - j,
    {
        if v[n + j] != e[j] {
            proof {
                assert(v@.skip(n as int)[j as int] != e@[j as int]);
            }
            return None;
        }
        j += 1;
    }
    proof {
        assert(v@.skip(n as int) =~= e@);
    }
    let code: String = text_of(&head);
    if valid_code(code.as_str()) {
        Some(code)
    } else {
        None
    }
}

/// A room's name: the rule for every text that a player writes.
pub fn clean_room_name(name: &str) -> (r: String)
    ensures
        r@ == text::cleaned(name@, MAX_ROOM_NAME as nat),
{
    clean_name(name, MAX_ROOM_NAME)
}

/// The first `k` characters that a number gives for a code.
pub open spec fn coded(n: int, k: nat) -> Seq<char>
    decreases k,
{
    if k == 0 {
        Seq::empty()
    } else {
        seq![code_char(n % CODE_BASE as int)] + coded(n / CODE_BASE as int, (k - 1) as nat)
    }
}

/// The code that a number gives.
pub fn code_of(n: u64) -> (r: String)
    ensures
        r@ == coded(n as int, CODE_LEN as nat),
{
    let alphabet: &str = "23456789ABCDEFGHJKMNPQRSTVWXYZ";
    proof {
        reveal_strlit("23456789ABCDEFGHJKMNPQRSTVWXYZ");
    }
    let mut out: Vec<char> = Vec::new();
    let mut m: u64 = n;
    let mut i: usize = 0;
    assert(out@ + coded(m as int, CODE_LEN as nat) =~= coded(n as int, CODE_LEN as nat));
    while i < CODE_LEN
        invariant
            i <= CODE_LEN,
            alphabet@ == "23456789ABCDEFGHJKMNPQRSTVWXYZ"@,
            alphabet@.len() == 30,
            out@ + coded(m as int, (CODE_LEN - i) as nat) == coded(n as int, CODE_LEN as nat),
        decreases CODE_LEN - i,
    {
        let d: u64 = m % CODE_BASE;
        let c: char = alphabet.get_char(d as usize);
        let ghost before = out@;
        out.push(c);
        proof {
            let rest = coded(m as int / 30, (CODE_LEN - i - 1) as nat);
            assert(c == code_char(m as int % 30));
            assert(before + (seq![c] + rest) =~= out@ + rest);
        }
        m = m / CODE_BASE;
        i += 1;
    }
    proof {
        assert(out@ + coded(m as int, 0) =~= out@);
    }
    text_of(&out)
}

proof fn lemma_coded_is_code(n: int, k: nat)
    requires
        n >= 0,
    ensures
        coded(n, k).len() == k,
        forall|i: int| 0 <= i < k ==> in_alphabet(#[trigger] coded(n, k)[i]),
    decreases k,
{
    if k > 0 {
        lemma_coded_is_code(n / 30, (k - 1) as nat);
        reveal_strlit("23456789ABCDEFGHJKMNPQRSTVWXYZ");
        let c = code_char(n % 30);
        law_the_alphabet_is_unambiguous(c);
        assert("23456789ABCDEFGHJKMNPQRSTVWXYZ"@[n % 30] == c);
        let rest = coded(n / 30, (k - 1) as nat);
        assert forall|i: int| 0 <= i < k implies in_alphabet(#[trigger] coded(n, k)[i]) by {
            if i > 0 {
                assert(coded(n, k)[i] == rest[i - 1]);
            }
        }
    }
}

/// Every number gives a room code.
pub proof fn law_numbers_give_codes(n: u64)
    ensures
        is_code(coded(n as int, CODE_LEN as nat)),
{
    lemma_coded_is_code(n as int, CODE_LEN as nat);
}

/// How many texts of `k` characters of the alphabet there are.
spec fn spellings(k: nat) -> int
    decreases k,
{
    if k == 0 {
        1
    } else {
        CODE_BASE * spellings((k - 1) as nat)
    }
}

proof fn lemma_coded_apart(a: int, b: int, k: nat)
    requires
        0 <= a < spellings(k),
        0 <= b < spellings(k),
        coded(a, k) == coded(b, k),
    ensures
        a == b,
    decreases k,
{
    if k > 0 {
        let n = (k - 1) as nat;
        let x = coded(a, k);
        let y = coded(b, k);
        assert(x[0] == code_char(a % 30) && y[0] == code_char(b % 30));
        law_the_alphabet_is_unambiguous('A');
        assert(a % 30 == b % 30);
        assert(x.drop_first() =~= coded(a / 30, n));
        assert(y.drop_first() =~= coded(b / 30, n));
        assert(spellings(k) == 30 * spellings(n));
        lemma_coded_apart(a / 30, b / 30, n);
    }
}

/// Counting up gives another code each time, until there are no more.
pub proof fn law_numbers_give_their_own_codes(a: u64, b: u64)
    requires
        a < CODES,
        b < CODES,
        a != b,
    ensures
        coded(a as int, CODE_LEN as nat) != coded(b as int, CODE_LEN as nat),
{
    reveal_with_fuel(spellings, 7);
    assert(spellings(6) == CODES);
    if coded(a as int, 6) == coded(b as int, 6) {
        lemma_coded_apart(a as int, b as int, 6);
    }
}

/// The first number, from `n` on, whose code is none of these.
pub open spec fn counted(taken: Seq<Seq<char>>, n: int) -> Option<int>
    decreases CODES - n,
{
    if n < 0 || n >= CODES {
        None
    } else if !taken.contains(coded(n, CODE_LEN as nat)) {
        Some(n)
    } else {
        counted(taken, n + 1)
    }
}

proof fn lemma_counted(taken: Seq<Seq<char>>, n: int)
    requires
        0 <= n,
    ensures
        counted(taken, n) matches Some(m) ==> n <= m < CODES && !taken.contains(
            coded(m, CODE_LEN as nat),
        ),
        counted(taken, n) is None ==> forall|m: int|
            n <= m < CODES ==> taken.contains(#[trigger] coded(m, CODE_LEN as nat)),
    decreases CODES - n,
{
    if n < CODES && taken.contains(coded(n, CODE_LEN as nat)) {
        lemma_counted(taken, n + 1);
    }
}

/// Counting up finds a code that is none of these, as long as these are not all codes.
pub proof fn law_counting_finds_a_free_code(taken: Seq<Seq<char>>)
    ensures
        taken.len() < CODES ==> counted(taken, 0) is Some,
        counted(taken, 0) matches Some(n) ==> 0 <= n < CODES && !taken.contains(
            coded(n, CODE_LEN as nat),
        ),
{
    lemma_counted(taken, 0);
    if taken.len() < CODES && counted(taken, 0) is None {
        let places = Seq::new(
            taken.len() + 1,
            |n: int| taken.index_of(coded(n, CODE_LEN as nat)),
        );
        assert forall|n: int| 0 <= n < places.len() implies 0 <= #[trigger] places[n] < taken.len()
            && taken[places[n]] == coded(n, CODE_LEN as nat) by {
            assert(taken.contains(coded(n, CODE_LEN as nat)));
        }
        assert(places.no_duplicates()) by {
            assert forall|a: int, b: int|
                0 <= a < places.len() && 0 <= b < places.len() && a != b implies places[a]
                != places[b] by {
                law_numbers_give_their_own_codes(a as u64, b as u64);
            }
        }
        places.unique_seq_to_set();
        let all = vstd::set_lib::set_int_range(0, taken.len() as int);
        vstd::set_lib::lemma_int_range(0, taken.len() as int);
        assert(places.to_set().subset_of(all));
        vstd::set_lib::lemma_len_subset(places.to_set(), all);
    }
}

/// A room code is six characters, each a digit from 2 to 9 or a capital letter that is not
/// read like another character.
pub proof fn law_what_a_code_is(s: Seq<char>)
    ensures
        is_code(s) <==> s.len() == 6 && forall|i: int|
            0 <= i < s.len() ==> "23456789ABCDEFGHJKMNPQRSTVWXYZ"@.contains(#[trigger] s[i]),
{
    assert forall|i: int| 0 <= i < s.len() implies in_alphabet(#[trigger] s[i])
        == "23456789ABCDEFGHJKMNPQRSTVWXYZ"@.contains(s[i]) by {
        law_the_alphabet_is_unambiguous(s[i]);
    }
    if s.len() == 6 && forall|i: int|
        0 <= i < s.len() ==> "23456789ABCDEFGHJKMNPQRSTVWXYZ"@.contains(#[trigger] s[i]) {
        assert forall|i: int| 0 <= i < s.len() implies in_alphabet(#[trigger] s[i]) by {
            assert("23456789ABCDEFGHJKMNPQRSTVWXYZ"@.contains(s[i]));
        }
    }
    if is_code(s) {
        assert forall|i: int| 0 <= i < s.len() implies "23456789ABCDEFGHJKMNPQRSTVWXYZ"@.contains(
            #[trigger] s[i],
        ) by {
            assert(in_alphabet(s[i]));
        }
    }
}

/// The characters of a template's id: the digits, the letters, the hyphen and the underscore.
pub proof fn law_what_a_template_id_holds(c: char)
    ensures
        plain(c) <==> 48 <= c as u32 <= 57 || 65 <= c as u32 <= 90 || 97 <= c as u32 <= 122 || c as u32
            == 45 || c as u32 == 95,
{
}

/// A file is a room's exactly where its name is a code and the ending behind it.
pub proof fn law_a_rooms_file_is_named_by_its_code(name: Seq<char>, code: Seq<char>)
    ensures
        code_in(name) == Some(code) <==> is_code(code) && name == code + ".json"@,
{
    let n = name.len() - ".json"@.len();
    if code_in(name) == Some(code) {
        assert(name =~= name.take(n) + name.skip(n));
    }
    if is_code(code) && name == code + ".json"@ {
        assert(name.take(n) =~= code);
        assert(name.skip(n) =~= ".json"@);
    }
}

/// The code of a number spells its six digits of base thirty, the lowest first.
pub proof fn law_a_code_spells_its_number(n: int)
    requires
        0 <= n,
    ensures
        ({
            let (c, s) = (coded(n, CODE_LEN as nat), "23456789ABCDEFGHJKMNPQRSTVWXYZ"@);
            &&& c.len() == 6
            &&& c[0] == s[n % 30]
            &&& c[1] == s[(n / 30) % 30]
            &&& c[2] == s[(n / 900) % 30]
            &&& c[3] == s[(n / 27_000) % 30]
            &&& c[4] == s[(n / 810_000) % 30]
            &&& c[5] == s[(n / 24_300_000) % 30]
        }),
{
    reveal_with_fuel(coded, 7);
    let (a, b, c, d, e) = (
        coded(n / 30, 5),
        coded(n / 30 / 30, 4),
        coded(n / 30 / 30 / 30, 3),
        coded(n / 30 / 30 / 30 / 30, 2),
        coded(n / 30 / 30 / 30 / 30 / 30, 1),
    );
    assert(n / 30 / 30 == n / 900);
    assert(n / 900 / 30 == n / 27_000);
    assert(n / 27_000 / 30 == n / 810_000);
    assert(n / 810_000 / 30 == n / 24_300_000);
    let all = coded(n, 6);
    assert(all[1] == a[0]);
    assert(all[2] == a[1] && a[1] == b[0]);
    assert(all[3] == a[2] && a[2] == b[1] && b[1] == c[0]);
    assert(all[4] == a[3] && a[3] == b[2] && b[2] == c[1] && c[1] == d[0]);
    assert(all[5] == a[4] && a[4] == b[3] && b[3] == c[2] && c[2] == d[1] && d[1] == e[0]);
}

/// Counting up stops at the first number whose code is none of these.
pub proof fn law_counting_stops_at_the_first(taken: Seq<Seq<char>>, n: int, m: int)
    requires
        0 <= n <= m,
        counted(taken, n) matches Some(at) && m < at,
    ensures
        taken.contains(coded(m, CODE_LEN as nat)),
    decreases m - n,
{
    if n < m {
        law_counting_stops_at_the_first(taken, n + 1, m);
    }
}

} // verus!
