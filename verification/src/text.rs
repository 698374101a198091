//! What a player may write: one sanitiser for every name and every chat line.
use vstd::prelude::*;

use crate::lists;

verus! {

/// Appends a character to the end of a string, as `String::push` documents.
pub assume_specification[ String::push ](s: &mut String, c: char)
    ensures
        final(s)@ == old(s)@.push(c),
;

/// A control character: general category Cc.
pub open spec fn control(c: char) -> bool {
    (c as u32) < 0x20 || 0x7f <= (c as u32) <= 0x9f
}

/// A Unicode bidirectional control. Not the whole of category Cf: the joiners
/// U+200C and U+200D are part of honest text.
pub open spec fn bidi(c: char) -> bool {
    let n = c as u32;
    n == 0x61c || n == 0x200e || n == 0x200f || 0x202a <= n <= 0x202e || 0x2066 <= n <= 0x2069
}

/// White space: the Unicode property White_Space.
pub open spec fn white(c: char) -> bool {
    let n = c as u32;
    9 <= n <= 13 || n == 0x20 || n == 0x85 || n == 0xa0 || n == 0x1680 || 0x2000 <= n <= 0x200a || n
        == 0x2028 || n == 0x2029 || n == 0x202f || n == 0x205f || n == 0x3000
}

/// A character that a name keeps.
pub open spec fn printing(c: char) -> bool {
    !control(c) && !bidi(c)
}

/// The printing characters of a text, in order.
pub open spec fn printed(s: Seq<char>) -> Seq<char> {
    s.filter(|c: char| printing(c))
}

/// The first `max` items, or all where there are fewer.
pub open spec fn capped<T>(s: Seq<T>, max: nat) -> Seq<T> {
    if s.len() <= max {
        s
    } else {
        s.take(max as int)
    }
}

/// A text from its first character that is not white space on.
pub open spec fn trimmed_front(s: Seq<char>) -> Seq<char>
    decreases s.len(),
{
    if s.len() > 0 && white(s[0]) {
        trimmed_front(s.drop_first())
    } else {
        s
    }
}

/// A text up to its last character that is not white space.
pub open spec fn trimmed_back(s: Seq<char>) -> Seq<char>
    decreases s.len(),
{
    if s.len() > 0 && white(s.last()) {
        trimmed_back(s.drop_last())
    } else {
        s
    }
}

/// A text without the white space at its ends.
pub open spec fn trimmed(s: Seq<char>) -> Seq<char> {
    trimmed_back(trimmed_front(s))
}

/// The printing characters, at most `max` of them, without white space at the ends.
pub open spec fn cleaned(s: Seq<char>, max: nat) -> Seq<char> {
    trimmed(capped(printed(s), max))
}

/// Whether `c` is a control character.
pub fn is_control(c: char) -> (r: bool)
    ensures
        r == control(c),
{
    let n: u32 = c as u32;
    n < 0x20 || (0x7f <= n && n <= 0x9f)
}

/// Whether `c` is a bidirectional control.
pub fn is_bidi_control(c: char) -> (r: bool)
    ensures
        r == bidi(c),
{
    let n: u32 = c as u32;
    n == 0x61c || n == 0x200e || n == 0x200f || (0x202a <= n && n <= 0x202e) || (0x2066 <= n && n
        <= 0x2069)
}

/// Whether `c` is white space.
pub fn is_white(c: char) -> (r: bool)
    ensures
        r == white(c),
{
    let n: u32 = c as u32;
    (9 <= n && n <= 13) || n == 0x20 || n == 0x85 || n == 0xa0 || n == 0x1680 || (0x2000 <= n && n
        <= 0x200a) || n == 0x2028 || n == 0x2029 || n == 0x202f || n == 0x205f || n == 0x3000
}

/// The characters of a text.
pub fn chars_of(s: &str) -> (r: Vec<char>)
    ensures
        r@ == s@,
{
    let mut out: Vec<char> = Vec::new();
    for c in it: s.chars()
        invariant
            out@ == s@.take(it.index() as int),
            it.seq() == s@,
    {
        proof {
            assert(s@.take(it.index() + 1) =~= s@.take(it.index() as int).push(c));
        }
        out.push(c);
    }
    proof {
        assert(s@.take(s@.len() as int) =~= s@);
    }
    out
}

/// The text of some characters.
pub fn text_of(v: &Vec<char>) -> (r: String)
    ensures
        r@ == v@,
{
    let mut out: String = String::new();
    let mut i: usize = 0;
    while i < v.len()
        invariant
            i <= v.len(),
            out@ == v@.take(i as int),
        decreases v.len() - i,
    {
        out.push(v[i]);
        i += 1;
        proof {
            assert(v@.take(i as int) =~= v@.take(i - 1).push(v@[i - 1]));
        }
    }
    proof {
        assert(v@.take(v@.len() as int) =~= v@);
    }
    out
}

/// Whether a text is this one.
pub fn text_is(s: &str, t: &str) -> (r: bool)
    ensures
        r == (s@ == t@),
{
    let a: Vec<char> = chars_of(s);
    let b: Vec<char> = chars_of(t);
    if a.len() != b.len() {
        return false;
    }
    let mut i: usize = 0;
    while i < a.len()
        invariant
            i <= a@.len(),
            a@ == s@,
            b@ == t@,
            a@.len() == b@.len(),
            forall|k: int| 0 <= k < i ==> a@[k] == b@[k],
        decreases a.len() - i,
    {
        if a[i] != b[i] {
            proof {
                assert(a@[i as int] != b@[i as int]);
            }
            return false;
        }
        i += 1;
    }
    proof {
        assert(a@ =~= b@);
    }
    true
}

/// Whether a text has no characters.
pub fn is_empty_text(s: &str) -> (r: bool)
    ensures
        r == (s@.len() == 0),
{
    s.unicode_len() == 0
}

/// The text comes before the other in the order of the dictionary of characters.
pub open spec fn before(a: Seq<char>, b: Seq<char>) -> bool
    decreases a.len(),
{
    if b.len() == 0 {
        false
    } else if a.len() == 0 {
        true
    } else if a[0] != b[0] {
        a[0] < b[0]
    } else {
        before(a.drop_first(), b.drop_first())
    }
}

/// Whether a text comes before another.
pub fn is_before(a: &str, b: &str) -> (r: bool)
    ensures
        r == before(a@, b@),
{
    let x: Vec<char> = chars_of(a);
    let y: Vec<char> = chars_of(b);
    let mut i: usize = 0;
    assert(a@.skip(0) =~= a@ && b@.skip(0) =~= b@);
    while i < x.len() && i < y.len()
        invariant
            i <= x@.len(),
            i <= y@.len(),
            x@ == a@,
            y@ == b@,
            before(a@, b@) == before(a@.skip(i as int), b@.skip(i as int)),
        decreases x.len() - i,
    {
        if x[i] != y[i] {
            return x[i] < y[i];
        }
        proof {
            assert(a@.skip(i as int).drop_first() =~= a@.skip(i + 1));
            assert(b@.skip(i as int).drop_first() =~= b@.skip(i + 1));
        }
        i += 1;
    }
    i < y.len()
}

/// Of two different texts one comes before the other, and not the other way round.
pub proof fn lemma_before_is_total(a: Seq<char>, b: Seq<char>)
    ensures
        a != b ==> before(a, b) != before(b, a),
        a == b ==> !before(a, b),
    decreases a.len(),
{
    if a.len() > 0 && b.len() > 0 && a[0] == b[0] {
        lemma_before_is_total(a.drop_first(), b.drop_first());
        if a != b {
            if a.drop_first() == b.drop_first() {
                assert(a =~= seq![a[0]] + a.drop_first());
                assert(b =~= seq![b[0]] + b.drop_first());
            }
        }
    } else if a.len() == 0 && b.len() == 0 {
        assert(a =~= b);
    }
}

pub proof fn lemma_before_is_transitive(a: Seq<char>, b: Seq<char>, c: Seq<char>)
    requires
        before(a, b),
        before(b, c),
    ensures
        before(a, c),
    decreases a.len(),
{
    if a.len() > 0 && a[0] == b[0] && b[0] == c[0] {
        lemma_before_is_transitive(a.drop_first(), b.drop_first(), c.drop_first());
    }
}

/// A letter of the English alphabet as a capital; any other character as it is.
pub open spec fn capital(c: char) -> char {
    if 'a' <= c && c <= 'z' {
        (c as u32 - 32) as char
    } else {
        c
    }
}

/// A character as a capital.
pub fn to_capital(c: char) -> (r: char)
    ensures
        r == capital(c),
{
    if 'a' <= c && c <= 'z' {
        let n: u8 = c as u8;
        (n - 32) as char
    } else {
        c
    }
}

/// A text in capitals.
pub fn capitals(v: &Vec<char>) -> (r: Vec<char>)
    ensures
        r@ == v@.map_values(|c: char| capital(c)),
{
    let mut out: Vec<char> = Vec::new();
    let mut i: usize = 0;
    while i < v.len()
        invariant
            i <= v@.len(),
            out@.len() == i,
            forall|k: int| 0 <= k < i ==> #[trigger] out@[k] == capital(v@[k]),
        decreases v.len() - i,
    {
        out.push(to_capital(v[i]));
        i += 1;
    }
    proof {
        assert(out@ =~= v@.map_values(|c: char| capital(c)));
    }
    out
}

/// A text without the white space at its ends.
pub fn trim_chars(v: &Vec<char>) -> (r: Vec<char>)
    ensures
        r@ == trimmed(v@),
{
    let mut a: usize = 0;
    assert(v@.skip(0) =~= v@);
    while a < v.len() && is_white(v[a])
        invariant
            a <= v.len(),
            trimmed_front(v@) == trimmed_front(v@.skip(a as int)),
        decreases v.len() - a,
    {
        proof {
            assert(v@.skip(a as int).drop_first() =~= v@.skip(a + 1));
        }
        a += 1;
    }
    let ghost front = v@.skip(a as int);
    assert(trimmed_front(v@) == front);
    let mut b: usize = v.len();
    assert(front.take(b - a) =~= front);
    while a < b && is_white(v[b - 1])
        invariant
            a <= b <= v.len(),
            front == v@.skip(a as int),
            trimmed_back(front) == trimmed_back(front.take(b - a)),
        decreases b - a,
    {
        proof {
            assert(front.take(b - a).drop_last() =~= front.take(b - a - 1));
        }
        b -= 1;
    }
    proof {
        assert(trimmed_back(front.take(b - a)) == front.take(b - a));
    }
    let mut out: Vec<char> = Vec::new();
    let mut i: usize = a;
    while i < b
        invariant
            a <= i <= b <= v.len(),
            out@ == v@.subrange(a as int, i as int),
        decreases b - i,
    {
        out.push(v[i]);
        i += 1;
        proof {
            assert(v@.subrange(a as int, i as int) =~= v@.subrange(a as int, i - 1).push(
                v@[i - 1],
            ));
        }
    }
    proof {
        assert(out@ =~= front.take(b - a));
    }
    out
}

/// The first `max` printing characters of a name, without white space at the ends.
/// The rule for every text that a player writes and others read.
pub fn clean_name(name: &str, max: usize) -> (r: String)
    ensures
        r@ == cleaned(name@, max as nat),
{
    let all: Vec<char> = chars_of(name);
    let mut kept: Vec<char> = Vec::new();
    let mut i: usize = 0;
    proof {
        reveal(Seq::filter);
        assert(printed(all@.take(0)) =~= Seq::<char>::empty());
    }
    while i < all.len()
        invariant
            i <= all.len(),
            kept@ == capped(printed(all@.take(i as int)), max as nat),
        decreases all.len() - i,
    {
        let c: char = all[i];
        proof {
            reveal(Seq::filter);
            assert(all@.take(i + 1).drop_last() =~= all@.take(i as int));
        }
        if !is_control(c) && !is_bidi_control(c) {
            if kept.len() < max {
                kept.push(c);
            }
            proof {
                let before = printed(all@.take(i as int));
                assert(printed(all@.take(i + 1)) == before.push(c));
                assert(before.len() >= max ==> before.push(c).take(max as int) =~= before.take(
                    max as int,
                ));
            }
        }
        i += 1;
    }
    proof {
        assert(all@.take(all@.len() as int) =~= all@);
    }
    text_of(&trim_chars(&kept))
}

/// What the sanitiser promises: at most `max` characters, all of them printing,
/// with no white space at either end.
pub proof fn law_cleaned_is_bounded_and_printing(s: Seq<char>, max: nat)
    ensures
        cleaned(s, max).len() <= max,
        forall|i: int| 0 <= i < cleaned(s, max).len() ==> printing(#[trigger] cleaned(s, max)[i]),
        cleaned(s, max).len() > 0 ==> !white(cleaned(s, max)[0]) && !white(cleaned(s, max).last()),
{
    let p = printed(s);
    let c = capped(p, max);
    assert forall|i: int| 0 <= i < p.len() implies printing(#[trigger] p[i]) by {
        s.lemma_filter_pred(|c: char| printing(c), i);
    }
    lemma_trimmed_is_inside(c);
}

/// Trimming takes a stretch of the text and leaves no white space at its ends.
proof fn lemma_trimmed_is_inside(s: Seq<char>)
    ensures
        exists|a: int, b: int|
            0 <= a <= b <= s.len() && trimmed(s) == #[trigger] s.subrange(a, b),
        trimmed(s).len() <= s.len(),
        forall|i: int|
            0 <= i < trimmed(s).len() ==> s.contains(#[trigger] trimmed(s)[i]),
        trimmed(s).len() > 0 ==> !white(trimmed(s)[0]) && !white(trimmed(s).last()),
{
    lemma_trimmed_front(s);
    let f = trimmed_front(s);
    lemma_trimmed_back(f);
    let a = choose|a: int| 0 <= a <= s.len() && f == #[trigger] s.skip(a);
    let b = choose|b: int| 0 <= b <= f.len() && trimmed_back(f) == #[trigger] f.take(b);
    assert(trimmed(s) =~= s.subrange(a, a + b));
    assert forall|i: int| 0 <= i < trimmed(s).len() implies s.contains(
        #[trigger] trimmed(s)[i],
    ) by {
        assert(trimmed(s)[i] == s[a + i]);
    }
}

proof fn lemma_trimmed_front(s: Seq<char>)
    ensures
        exists|a: int| 0 <= a <= s.len() && trimmed_front(s) == #[trigger] s.skip(a),
        trimmed_front(s).len() > 0 ==> !white(trimmed_front(s)[0]),
    decreases s.len(),
{
    if s.len() > 0 && white(s[0]) {
        let d = s.drop_first();
        lemma_trimmed_front(d);
        let a = choose|a: int| 0 <= a <= d.len() && trimmed_front(d) == #[trigger] d.skip(a);
        assert(d.skip(a) =~= s.skip(a + 1));
    } else {
        assert(s.skip(0) =~= s);
    }
}

proof fn lemma_trimmed_back(s: Seq<char>)
    ensures
        exists|b: int| 0 <= b <= s.len() && trimmed_back(s) == #[trigger] s.take(b),
        trimmed_back(s).len() > 0 ==> !white(trimmed_back(s).last()),
    decreases s.len(),
{
    if s.len() > 0 && white(s.last()) {
        let d = s.drop_last();
        lemma_trimmed_back(d);
        let b = choose|b: int| 0 <= b <= d.len() && trimmed_back(d) == #[trigger] d.take(b);
        assert(d.take(b) =~= s.take(b));
    } else {
        assert(s.take(s.len() as int) =~= s);
    }
}

/// Filtering a text whose characters all print changes nothing.
pub proof fn lemma_printed_of_printing(s: Seq<char>)
    requires
        forall|i: int| 0 <= i < s.len() ==> printing(#[trigger] s[i]),
    ensures
        printed(s) == s,
    decreases s.len(),
{
    reveal(Seq::filter);
    if s.len() > 0 {
        let d = s.drop_last();
        assert forall|i: int| 0 <= i < d.len() implies printing(#[trigger] d[i]) by {
            assert(d[i] == s[i]);
        }
        lemma_printed_of_printing(d);
        assert(d.push(s.last()) =~= s);
    }
}

/// A text that cleaning leaves something of, and leaves alone: some printing characters, no
/// more than `max`, with no white space at the ends.
pub open spec fn tidy(s: Seq<char>, max: nat) -> bool {
    s.len() > 0 && cleaned(s, max) == s
}

/// Printing characters, no more than `max`, with no white space at the ends, are a tidy text.
pub proof fn lemma_tidy(s: Seq<char>, max: nat)
    requires
        0 < s.len() <= max,
        forall|i: int| 0 <= i < s.len() ==> printing(#[trigger] s[i]),
        !white(s[0]),
        !white(s.last()),
    ensures
        tidy(s, max),
{
    lemma_printed_of_printing(s);
}

/// A number in decimal: printing characters, no more than it has digits.
pub proof fn lemma_decimal_prints(n: nat, digits: nat)
    requires
        n < pow10(digits),
        digits > 0,
    ensures
        0 < decimal(n).len() <= digits,
        forall|i: int| 0 <= i < decimal(n).len() ==> printing(#[trigger] decimal(n)[i]),
        !white(decimal(n).last()),
    decreases n,
{
    if n >= 10 {
        reveal_with_fuel(pow10, 2);
        lemma_decimal_prints(n / 10, (digits - 1) as nat);
    }
}

/// Ten to this power.
pub open spec fn pow10(n: nat) -> nat
    decreases n,
{
    if n == 0 {
        1
    } else {
        10 * pow10((n - 1) as nat)
    }
}

/// A label and a number are a tidy text, where the label leaves room for the number.
pub proof fn lemma_numbered_is_tidy(label: Seq<char>, n: u32, max: nat)
    requires
        0 < label.len() <= max - 10,
        forall|i: int| 0 <= i < label.len() ==> printing(#[trigger] label[i]),
        !white(label[0]),
    ensures
        tidy(label + decimal(n as nat), max),
{
    assert(pow10(10) > u32::MAX) by {
        reveal_with_fuel(pow10, 11);
    }
    lemma_decimal_prints(n as nat, 10);
    let s = label + decimal(n as nat);
    assert(s.last() == decimal(n as nat).last());
    lemma_tidy(s, max);
}

/// A clean text is left alone: cleaning twice is cleaning once.
pub proof fn law_cleaning_twice_is_cleaning_once(s: Seq<char>, max: nat)
    ensures
        cleaned(cleaned(s, max), max) == cleaned(s, max),
{
    let c = cleaned(s, max);
    law_cleaned_is_bounded_and_printing(s, max);
    lemma_printed_of_printing(c);
}

/// The decimal digit for a number under ten.
pub open spec fn digit(d: nat) -> char {
    ('0' as u32 + d) as char
}

/// A number in decimal.
pub open spec fn decimal(n: nat) -> Seq<char>
    decreases n,
{
    if n < 10 {
        seq![digit(n)]
    } else {
        decimal(n / 10).push(digit(n % 10))
    }
}

/// The decimal digit for a number under ten.
fn digit_char(d: u32) -> (c: char)
    requires
        d < 10,
    ensures
        c == digit(d as nat),
{
    match d {
        0 => '0',
        1 => '1',
        2 => '2',
        3 => '3',
        4 => '4',
        5 => '5',
        6 => '6',
        7 => '7',
        8 => '8',
        _ => '9',
    }
}

/// Writes a number in decimal at the end of a text.
pub fn push_decimal(out: &mut String, n: u32)
    ensures
        final(out)@ == old(out)@ + decimal(n as nat),
    decreases n,
{
    if n >= 10 {
        push_decimal(out, n / 10);
    }
    out.push(digit_char(n % 10));
    proof {
        assert(out@ =~= old(out)@ + decimal(n as nat));
    }
}

/// A label and a number: the name of what a player did not name.
pub fn numbered(label: &str, n: u32) -> (r: String)
    ensures
        r@ == label@ + decimal(n as nat),
{
    let mut out: String = String::new();
    out.append(label);
    push_decimal(&mut out, n);
    proof {
        assert(out@ =~= label@ + decimal(n as nat));
    }
    out
}

/// What is left of a text that was written: a stretch of its printing characters, no more
/// than `max`, of which white space at the ends is gone and nothing else. A text of printing
/// characters, no longer than that, with no white space at its ends, is left as it was.
pub open spec fn reads_as(written: Seq<char>, max: nat, left: Seq<char>) -> bool {
    &&& left.len() <= max
    &&& forall|i: int| 0 <= i < left.len() ==> shows(#[trigger] left[i]) && written.contains(left[i])
    &&& left.len() > 0 ==> !blank(left[0]) && !blank(left[left.len() - 1])
    &&& written.len() <= max && (forall|i: int| 0 <= i < written.len() ==> shows(#[trigger] written[i]))
        && (written.len() > 0 ==> !blank(written[0]) && !blank(written[written.len() - 1]))
        ==> left == written
    &&& exists|shown: Seq<char>, a: int, b: int|
        #![trigger shown.subrange(a, b)]
        lists::sifted(written, shown, |c: char| !shows(c)) && {
            let kept = if shown.len() < max {
                shown.len() as int
            } else {
                max as int
            };
            &&& 0 <= a <= b <= kept
            &&& left == shown.subrange(a, b)
            &&& forall|i: int| 0 <= i < a ==> blank(#[trigger] shown[i])
            &&& forall|i: int| b <= i < kept ==> blank(#[trigger] shown[i])
        }
}

/// The character shows: it is none of the control characters of ASCII and Latin-1, and no
/// mark, embedding, override or isolate that turns the direction of a text.
#[verifier::opaque]
pub open spec fn shows(c: char) -> bool {
    let n = c as u32;
    &&& n >= 32
    &&& !(127 <= n <= 159)
    &&& n != 1564
    &&& n != 8206
    &&& n != 8207
    &&& !(8234 <= n <= 8238)
    &&& !(8294 <= n <= 8297)
}

/// The character is white space, as Unicode has it.
#[verifier::opaque]
pub open spec fn blank(c: char) -> bool {
    let n = c as u32;
    ||| 9 <= n <= 13
    ||| n == 32
    ||| n == 133
    ||| n == 160
    ||| n == 5760
    ||| 8192 <= n <= 8202
    ||| n == 8232
    ||| n == 8233
    ||| n == 8239
    ||| n == 8287
    ||| n == 12288
}

proof fn lemma_what_shows()
    ensures
        forall|c: char| #[trigger] shows(c) == printing(c),
        forall|c: char| #[trigger] blank(c) == white(c),
        forall|c: char| #[trigger] white(c) == blank(c),
{
    reveal(shows);
    reveal(blank);
}

/// What cleaning leaves of a text is what others are to read: its printing characters in
/// order, as many as fit, without the white space at the ends.
pub proof fn law_a_clean_text_reads_as_it_was_written(s: Seq<char>, max: nat)
    ensures
        reads_as(s, max, cleaned(s, max)),
{
    let so = |c: char| !shows(c);
    let shown = printed(s);
    let left = cleaned(s, max);
    lemma_printed_sifts(s);
    lists::lemma_sifted(s, shown, so);
    let (a, b) = lemma_cleaned_ends(s, max);
    assert forall|i: int| 0 <= i < left.len() implies shows(#[trigger] left[i]) && s.contains(
        left[i],
    ) by {
        assert(left[i] == shown[a + i]);
        assert(!so(shown[a + i]));
    }
    if s.len() <= max && (forall|i: int| 0 <= i < s.len() ==> shows(#[trigger] s[i])) && (s.len()
        > 0 ==> !blank(s[0]) && !blank(s[s.len() - 1])) {
        lemma_what_shows_whole_stays(s, max);
    }
    assert(left == shown.subrange(a, b));
}

proof fn lemma_printed_sifts(s: Seq<char>)
    ensures
        lists::sifted(s, printed(s), |c: char| !shows(c)),
{
    let p = |c: char| printing(c);
    let so = |c: char| !shows(c);
    lemma_what_shows();
    assert forall|c: char| #[trigger] p(c) == !so(c) by {
        assert(shows(c) == printing(c));
    }
    lists::lemma_filter_sifts(s, p, so);
}

/// Where in the printing characters of a text what cleaning leaves of it begins and ends.
proof fn lemma_cleaned_ends(s: Seq<char>, max: nat) -> (r: (int, int))
    ensures
        ({
            let shown = printed(s);
            let kept = if shown.len() < max {
                shown.len() as int
            } else {
                max as int
            };
            let (a, b) = r;
            let left = cleaned(s, max);
            &&& 0 <= a <= b <= kept
            &&& left == shown.subrange(a, b)
            &&& left.len() > 0 ==> !blank(left[0]) && !blank(left[left.len() - 1])
            &&& forall|i: int| 0 <= i < a ==> blank(#[trigger] shown[i])
            &&& forall|i: int| b <= i < kept ==> blank(#[trigger] shown[i])
        }),
{
    let shown = printed(s);
    let kept = capped(shown, max);
    let left = cleaned(s, max);
    lemma_trim_ends(kept);
    let (a, b) = choose|a: int, b: int|
        0 <= a <= b <= kept.len() && left == #[trigger] kept.subrange(a, b) && trims(kept, a, b);
    assert(left =~= shown.subrange(a, b));
    reveal(blank);
    assert forall|i: int| 0 <= i < a implies blank(#[trigger] shown[i]) by {
        assert(white(kept[i]));
    }
    assert forall|i: int| b <= i < kept.len() implies blank(#[trigger] shown[i]) by {
        assert(white(kept[i]));
    }
    (a, b)
}

proof fn lemma_what_shows_whole_stays(s: Seq<char>, max: nat)
    requires
        s.len() <= max,
        forall|i: int| 0 <= i < s.len() ==> shows(#[trigger] s[i]),
        s.len() > 0 ==> !blank(s[0]) && !blank(s[s.len() - 1]),
    ensures
        cleaned(s, max) == s,
{
    lemma_what_shows();
    assert forall|i: int| 0 <= i < s.len() implies printing(#[trigger] s[i]) by {
        assert(shows(s[i]));
    }
    if s.len() > 0 {
        assert(!white(s[0]) && !white(s.last()));
        lemma_tidy(s, max);
    } else {
        lemma_printed_of_printing(s);
    }
}

/// Everything before and behind the stretch is white space, and its ends are not.
spec fn trims(s: Seq<char>, a: int, b: int) -> bool {
    &&& forall|i: int| 0 <= i < a ==> white(#[trigger] s[i])
    &&& forall|i: int| b <= i < s.len() ==> white(#[trigger] s[i])
    &&& a < b ==> !white(s[a]) && !white(s[b - 1])
}

proof fn lemma_trim_front(s: Seq<char>) -> (a: int)
    ensures
        0 <= a <= s.len(),
        trimmed_front(s) == s.skip(a),
        forall|i: int| 0 <= i < a ==> white(#[trigger] s[i]),
        a < s.len() ==> !white(s[a]),
    decreases s.len(),
{
    if s.len() > 0 && white(s[0]) {
        let d = s.drop_first();
        let a = lemma_trim_front(d);
        assert(d.skip(a) =~= s.skip(a + 1));
        assert forall|i: int| 0 <= i < a + 1 implies white(#[trigger] s[i]) by {
            if i > 0 {
                assert(d[i - 1] == s[i]);
            }
        }
        a + 1
    } else {
        assert(s.skip(0) =~= s);
        0
    }
}

proof fn lemma_trim_back(s: Seq<char>) -> (b: int)
    ensures
        0 <= b <= s.len(),
        trimmed_back(s) == s.take(b),
        forall|i: int| b <= i < s.len() ==> white(#[trigger] s[i]),
        b > 0 ==> !white(s[b - 1]),
    decreases s.len(),
{
    if s.len() > 0 && white(s.last()) {
        let d = s.drop_last();
        let b = lemma_trim_back(d);
        assert(d.take(b) =~= s.take(b));
        assert forall|i: int| b <= i < s.len() implies white(#[trigger] s[i]) by {
            if i < d.len() {
                assert(d[i] == s[i]);
            }
        }
        b
    } else {
        assert(s.take(s.len() as int) =~= s);
        s.len() as int
    }
}

proof fn lemma_trim_ends(s: Seq<char>)
    ensures
        exists|a: int, b: int|
            0 <= a <= b <= s.len() && trimmed(s) == #[trigger] s.subrange(a, b) && trims(s, a, b),
{
    let a = lemma_trim_front(s);
    let f = s.skip(a);
    let b = lemma_trim_back(f);
    assert(f.take(b) =~= s.subrange(a, a + b));
    assert forall|i: int| a + b <= i < s.len() implies white(#[trigger] s[i]) by {
        assert(f[i - a] == s[i]);
    }
    if b > 0 {
        assert(f[b - 1] == s[a + b - 1]);
    }
    assert(trims(s, a, a + b));
}

/// The number that some decimal digits say.
pub open spec fn read_number(s: Seq<char>) -> int
    decreases s.len(),
{
    if s.len() == 0 {
        0
    } else {
        10 * read_number(s.drop_last()) + (s.last() as u32 - 48)
    }
}

/// A number in decimal reads back as that number: decimal digits, with no nought in front.
pub proof fn law_a_number_reads_back(n: nat)
    ensures
        read_number(decimal(n)) == n,
        forall|i: int| 0 <= i < decimal(n).len() ==> '0' <= #[trigger] decimal(n)[i] <= '9',
        decimal(n).len() > 0,
        decimal(n)[0] == '0' ==> n == 0,
    decreases n,
{
    if n < 10 {
        let s = decimal(n);
        assert(s.drop_last() =~= Seq::<char>::empty());
        assert(read_number(s.drop_last()) == 0);
        assert(s.last() as u32 == 48 + n);
    } else {
        law_a_number_reads_back(n / 10);
        let s = decimal(n);
        assert(s.drop_last() =~= decimal(n / 10));
        assert(s.last() as u32 == 48 + n % 10);
    }
}

/// The order of texts is the order of their first different characters; a text comes before
/// its own continuations, and not before itself.
pub proof fn law_texts_are_in_the_order_of_their_characters(a: Seq<char>, b: Seq<char>, k: int)
    requires
        0 <= k <= a.len(),
        k <= b.len(),
        forall|i: int| 0 <= i < k ==> #[trigger] a[i] == b[i],
    ensures
        k < a.len() && k < b.len() && a[k] != b[k] ==> before(a, b) == (a[k] < b[k]),
        k == a.len() && k < b.len() ==> before(a, b),
        k == b.len() ==> !before(a, b),
    decreases k,
{
    if k > 0 {
        assert(a[0] == b[0]);
        let (c, d) = (a.drop_first(), b.drop_first());
        assert forall|i: int| 0 <= i < k - 1 implies #[trigger] c[i] == d[i] by {
            assert(a[i + 1] == b[i + 1]);
        }
        law_texts_are_in_the_order_of_their_characters(c, d, k - 1);
    }
}

/// A small letter has its capital; every other character is its own.
pub proof fn law_small_letters_have_capitals(c: char)
    ensures
        97 <= c as u32 <= 122 ==> capital(c) as u32 == c as u32 - 32,
        !(97 <= c as u32 <= 122) ==> capital(c) == c,
{
}

/// The first items of a list: as many as asked for, or all where there are fewer, in order.
pub proof fn law_the_first_items_are_kept<T>(s: Seq<T>, max: nat)
    ensures
        s.len() <= max ==> capped(s, max).len() == s.len(),
        s.len() > max ==> capped(s, max).len() == max,
        forall|i: int| 0 <= i < capped(s, max).len() ==> #[trigger] capped(s, max)[i] == s[i],
{
}

} // verus!
