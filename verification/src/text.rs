//! Text: the few string operations the rest of the library is built from.

use vstd::prelude::*;
use vstd::utf8::{decode_utf8, is_ascii_chars, valid_utf8};

verus! {

/// `String::push`: appends one character.
pub assume_specification[ String::push ](s: &mut String, c: char)
    ensures
        final(s)@ == old(s)@.push(c),
;

/// The characters of a string.
pub fn chars_of(s: &str) -> (r: Vec<char>)
    ensures
        r@ == s@,
{
    let mut out: Vec<char> = Vec::new();
    for c in it: s.chars()
        invariant
            out@ == it.seq().take(it.index() as int),
            it.seq() == s@,
    {
        out.push(c);
    }
    assert(s@.take(s@.len() as int) =~= s@);
    out
}

/// The decimal digit for a number below ten.
pub open spec fn digit(d: int) -> char {
    ('0' as int + d) as char
}

/// A number written in decimal, without leading zeros.
pub open spec fn dec(n: nat) -> Seq<char>
    decreases n,
{
    if n < 10 {
        seq![digit(n as int)]
    } else {
        dec(n / 10).push(digit((n % 10) as int))
    }
}

/// Whether a text holds no control character below the space: no newline, and no
/// carriage return.
pub open spec fn printable(s: Seq<char>) -> bool {
    forall|i: int| 0 <= i < s.len() ==> (#[trigger] s[i]) as int >= 0x20
}

/// A number is printable.
pub proof fn numbers_are_printable(n: nat)
    ensures
        printable(dec(n)),
    decreases n,
{
    if n >= 10 {
        numbers_are_printable(n / 10);
    }
}

/// Writes a number in decimal.
pub fn decimal(n: u64) -> (r: String)
    ensures
        r@ == dec(n as nat),
    decreases n,
{
    if n < 10 {
        let mut out: String = String::new();
        let d: u8 = n as u8;
        out.push((48u8 + d) as char);
        assert(out@ =~= seq![digit(n as int)]);
        out
    } else {
        let mut out = decimal(n / 10);
        let d: u8 = (n % 10) as u8;
        out.push((48u8 + d) as char);
        out
    }
}

/// Puts a text behind another.
pub fn glue(a: &str, b: &str) -> (r: String)
    ensures
        r@ == a@ + b@,
{
    let mut out = a.to_owned();
    out.append(b);
    out
}

/// Whether two strings hold the same characters.
pub fn same(a: &str, b: &str) -> (r: bool)
    ensures
        r == (a@ == b@),
{
    a.to_owned() == b.to_owned()
}

/// Whether `p` occurs somewhere in `s`.
pub open spec fn occurs(s: Seq<char>, p: Seq<char>) -> bool {
    exists|i: int| 0 <= i <= s.len() - p.len() && #[trigger] s.subrange(i, i + p.len()) == p
}

/// Whether `p` stands in `s` at position `at`.
fn stands_at(s: &[char], p: &[char], at: usize) -> (r: bool)
    requires
        at + p@.len() <= s@.len(),
    ensures
        r == (s@.subrange(at as int, at + p@.len()) == p@),
{
    let n: usize = s.len();
    let mut i: usize = 0;
    while i < p.len()
        invariant
            i <= p@.len(),
            n == s@.len(),
            at + p@.len() <= n,
            forall|k: int| 0 <= k < i ==> s@[at + k] == p@[k],
        decreases p@.len() - i,
    {
        if s[at + i] != p[i] {
            assert(s@.subrange(at as int, at + p@.len())[i as int] != p@[i as int]);
            return false;
        }
        i += 1;
    }
    assert(s@.subrange(at as int, at + p@.len()) =~= p@);
    true
}

/// Whether `p` occurs somewhere in `s`.
pub fn contains(s: &str, p: &str) -> (r: bool)
    ensures
        r == occurs(s@, p@),
{
    let hay = chars_of(s);
    let needle = chars_of(p);
    if needle.len() > hay.len() {
        return false;
    }
    let last: usize = hay.len() - needle.len();
    let mut i: usize = 0;
    while i < last
        invariant
            hay@ == s@,
            needle@ == p@,
            last == s@.len() - p@.len(),
            i <= last,
            forall|k: int| 0 <= k < i ==> #[trigger] s@.subrange(k, k + p@.len()) != p@,
        decreases last - i,
    {
        if stands_at(hay.as_slice(), needle.as_slice(), i) {
            return true;
        }
        i += 1;
    }
    stands_at(hay.as_slice(), needle.as_slice(), last)
}

/// What is left of `s` behind the prefix `p`.
pub open spec fn behind(s: Seq<char>, p: Seq<char>) -> Option<Seq<char>> {
    if p.is_prefix_of(s) {
        Some(s.skip(p.len() as int))
    } else {
        None
    }
}

/// `s` without the prefix `p`, where it has it.
pub fn strip_prefix(s: &str, p: &str) -> (r: Option<String>)
    ensures
        match r {
            Some(t) => behind(s@, p@) == Some(t@),
            None => behind(s@, p@) is None,
        },
{
    let all = chars_of(s);
    let head = chars_of(p);
    if head.len() > all.len() || !stands_at(all.as_slice(), head.as_slice(), 0) {
        return None;
    }
    assert(s@.subrange(0, p@.len() as int) =~= s@.take(p@.len() as int));
    assert(p@.is_prefix_of(s@));
    let mut rest: String = String::new();
    let mut i: usize = head.len();
    while i < all.len()
        invariant
            all@ == s@,
            p@.len() <= i <= all@.len(),
            rest@ == s@.subrange(p@.len() as int, i as int),
        decreases all@.len() - i,
    {
        rest.push(all[i]);
        i += 1;
        assert(s@.subrange(p@.len() as int, i as int) =~= s@.subrange(p@.len() as int, i - 1).push(
            s@[i - 1],
        ));
    }
    assert(s@.subrange(p@.len() as int, i as int) =~= s@.skip(p@.len() as int));
    Some(rest)
}

/// The characters with Unicode's `White_Space` property.
pub open spec fn white(c: char) -> bool {
    ||| 0x09 <= c as u32 <= 0x0d
    ||| c as u32 == 0x20
    ||| c as u32 == 0x85
    ||| c as u32 == 0xa0
    ||| c as u32 == 0x1680
    ||| 0x2000 <= c as u32 <= 0x200a
    ||| c as u32 == 0x2028
    ||| c as u32 == 0x2029
    ||| c as u32 == 0x202f
    ||| c as u32 == 0x205f
    ||| c as u32 == 0x3000
}

/// Whether a character is white space.
pub fn is_white(c: char) -> (r: bool)
    ensures
        r == white(c),
{
    let u: u32 = c as u32;
    (0x09 <= u && u <= 0x0d) || u == 0x20 || u == 0x85 || u == 0xa0 || u == 0x1680 || (0x2000 <= u && u
        <= 0x200a) || u == 0x2028 || u == 0x2029 || u == 0x202f || u == 0x205f || u == 0x3000
}

/// `s` without the white space at its front.
pub open spec fn trimmed_front(s: Seq<char>) -> Seq<char>
    decreases s.len(),
{
    if s.len() > 0 && white(s[0]) {
        trimmed_front(s.drop_first())
    } else {
        s
    }
}

/// `s` without the white space at its back.
pub open spec fn trimmed_back(s: Seq<char>) -> Seq<char>
    decreases s.len(),
{
    if s.len() > 0 && white(s.last()) {
        trimmed_back(s.drop_last())
    } else {
        s
    }
}

/// `s` without the white space at either end.
pub open spec fn trimmed(s: Seq<char>) -> Seq<char> {
    trimmed_back(trimmed_front(s))
}

/// `s` without the white space at either end.
pub fn trim(s: &str) -> (r: String)
    ensures
        r@ == trimmed(s@),
{
    let all = chars_of(s);
    let mut from: usize = 0;
    assert(s@.skip(0) =~= s@);
    while from < all.len() && is_white(all[from])
        invariant
            all@ == s@,
            from <= all@.len(),
            trimmed_front(s@) == trimmed_front(s@.skip(from as int)),
        decreases all@.len() - from,
    {
        assert(s@.skip(from as int).drop_first() =~= s@.skip(from + 1));
        from += 1;
    }
    let ghost front = s@.skip(from as int);
    assert(trimmed_front(s@) == front);
    let mut to: usize = all.len();
    assert(front =~= s@.subrange(from as int, to as int));
    while to > from && is_white(all[to - 1])
        invariant
            all@ == s@,
            from <= to <= all@.len(),
            trimmed_back(front) == trimmed_back(s@.subrange(from as int, to as int)),
        decreases to,
    {
        assert(s@.subrange(from as int, to as int).drop_last() =~= s@.subrange(from as int, to - 1));
        to -= 1;
    }
    let mut out: String = String::new();
    let mut i: usize = from;
    while i < to
        invariant
            all@ == s@,
            from <= i <= to <= all@.len(),
            out@ == s@.subrange(from as int, i as int),
        decreases to - i,
    {
        out.push(all[i]);
        i += 1;
        assert(s@.subrange(from as int, i as int) =~= s@.subrange(from as int, i - 1).push(
            s@[i - 1],
        ));
    }
    out
}

/// How many characters of `s` stand before the first that is among `stops`;
/// all of them, where none is.
pub open spec fn run(s: Seq<char>, stops: Seq<char>) -> nat
    decreases s.len(),
{
    if s.len() == 0 || stops.contains(s[0]) {
        0
    } else {
        1 + run(s.drop_first(), stops)
    }
}

/// The part of `s` before the first character that is among `stops`.
pub open spec fn before(s: Seq<char>, stops: Seq<char>) -> Seq<char> {
    s.take(run(s, stops) as int)
}

/// Whether a character is in a list.
fn among(c: char, list: &[char]) -> (r: bool)
    ensures
        r == list@.contains(c),
{
    let mut i: usize = 0;
    while i < list.len()
        invariant
            i <= list@.len(),
            forall|k: int| 0 <= k < i ==> list@[k] != c,
        decreases list@.len() - i,
    {
        if list[i] == c {
            return true;
        }
        i += 1;
    }
    false
}

/// The part of `s` before the first character that is among `stops`.
pub fn cut(s: &str, stops: &[char]) -> (r: String)
    ensures
        r@ == before(s@, stops@),
{
    let all = chars_of(s);
    let mut out: String = String::new();
    let mut i: usize = 0;
    assert(s@.skip(0) =~= s@);
    assert(s@.take(0) =~= Seq::<char>::empty());
    while i < all.len() && !among(all[i], stops)
        invariant
            all@ == s@,
            i <= all@.len(),
            out@ == s@.take(i as int),
            run(s@, stops@) == i + run(s@.skip(i as int), stops@),
        decreases all@.len() - i,
    {
        out.push(all[i]);
        assert(s@.skip(i as int).drop_first() =~= s@.skip(i + 1));
        i += 1;
        assert(s@.take(i as int) =~= s@.take(i - 1).push(s@[i - 1]));
    }
    out
}

/// The lowercase form of a character of ASCII; any other is kept.
pub open spec fn ascii_lower(c: char) -> char {
    if 'A' <= c <= 'Z' {
        (c as int + 32) as char
    } else {
        c
    }
}

/// A text with the letters of ASCII in lowercase.
pub open spec fn ascii_lowercase(s: Seq<char>) -> Seq<char> {
    s.map_values(|c: char| ascii_lower(c))
}

/// What `str::to_lowercase` makes of a text.
pub uninterp spec fn lowercase(s: Seq<char>) -> Seq<char>;

/// `str::to_lowercase`: the Unicode lowercase form, a function of the text
/// alone. Of a text in ASCII it lowers the letters and keeps the rest.
#[verifier::external_body]
pub(crate) fn to_lowercase(s: &str) -> (r: String)
    ensures
        r@ == lowercase(s@),
        is_ascii_chars(s@) ==> r@ == ascii_lowercase(s@),
{
    s.to_lowercase()
}

/// `String::from_utf8`: the text that the bytes encode; fails exactly where
/// they are not UTF-8.
#[verifier::external_body]
pub(crate) fn utf8_text(bytes: Vec<u8>) -> (r: Option<String>)
    ensures
        match r {
            Some(s) => valid_utf8(bytes@) && s@ == decode_utf8(bytes@),
            None => !valid_utf8(bytes@),
        },
{
    String::from_utf8(bytes).ok()
}

/// What `String::from_utf8_lossy` makes of bytes.
pub uninterp spec fn lossy(bytes: Seq<u8>) -> Seq<char>;

/// `String::from_utf8_lossy`: bytes as text, with every invalid sequence
/// replaced. Bytes that are UTF-8 come out as the text they encode.
#[verifier::external_body]
pub(crate) fn lossy_text(bytes: &[u8]) -> (r: String)
    ensures
        r@ == lossy(bytes@),
        valid_utf8(bytes@) ==> r@ == decode_utf8(bytes@),
{
    String::from_utf8_lossy(bytes).to_string()
}

/// Whether a text comes before another, character by character.
pub open spec fn text_less(a: Seq<char>, b: Seq<char>) -> bool
    decreases a.len(),
{
    if b.len() == 0 {
        false
    } else if a.len() == 0 {
        true
    } else if a[0] == b[0] {
        text_less(a.drop_first(), b.drop_first())
    } else {
        a[0] < b[0]
    }
}

/// Whether a text comes before another.
pub fn less(a: &str, b: &str) -> (r: bool)
    ensures
        r == text_less(a@, b@),
{
    let x = chars_of(a);
    let y = chars_of(b);
    let mut i: usize = 0;
    assert(a@.skip(0) =~= a@);
    assert(b@.skip(0) =~= b@);
    while i < x.len() && i < y.len() && x[i] == y[i]
        invariant
            x@ == a@,
            y@ == b@,
            i <= x@.len(),
            i <= y@.len(),
            text_less(a@, b@) == text_less(a@.skip(i as int), b@.skip(i as int)),
        decreases x@.len() - i,
    {
        assert(a@.skip(i as int).drop_first() =~= a@.skip(i + 1));
        assert(b@.skip(i as int).drop_first() =~= b@.skip(i + 1));
        i += 1;
    }
    if i == y.len() {
        false
    } else if i == x.len() {
        true
    } else {
        assert(a@.skip(i as int)[0] == x@[i as int]);
        assert(b@.skip(i as int)[0] == y@[i as int]);
        x[i] < y[i]
    }
}

/// The order of texts is total: of two different ones, one comes first.
pub proof fn text_order_total(a: Seq<char>, b: Seq<char>)
    requires
        a != b,
    ensures
        text_less(a, b) || text_less(b, a),
    decreases a.len(),
{
    if a.len() > 0 && b.len() > 0 && a[0] == b[0] {
        if a.drop_first() == b.drop_first() {
            assert(a =~= seq![a[0]] + a.drop_first());
            assert(b =~= seq![b[0]] + b.drop_first());
        }
        text_order_total(a.drop_first(), b.drop_first());
    } else if a.len() == 0 && b.len() == 0 {
        assert(a =~= b);
    }
}

/// The order of texts is transitive.
pub proof fn text_order_transitive(a: Seq<char>, b: Seq<char>, c: Seq<char>)
    requires
        text_less(a, b),
        text_less(b, c),
    ensures
        text_less(a, c),
    decreases a.len(),
{
    if a.len() > 0 && a[0] == b[0] && b[0] == c[0] {
        text_order_transitive(a.drop_first(), b.drop_first(), c.drop_first());
    }
}

/// Texts one after another, with `sep` between neighbours.
pub open spec fn joined(parts: Seq<Seq<char>>, sep: Seq<char>) -> Seq<char>
    decreases parts.len(),
{
    if parts.len() == 0 {
        Seq::empty()
    } else if parts.len() == 1 {
        parts[0]
    } else {
        joined(parts.drop_last(), sep) + sep + parts.last()
    }
}

/// The texts that strings hold.
pub open spec fn texts(strings: Seq<String>) -> Seq<Seq<char>> {
    Seq::new(strings.len(), |i: int| strings[i]@)
}

/// Joins strings with `sep` between neighbours.
pub fn join(parts: &Vec<String>, sep: &str) -> (r: String)
    ensures
        r@ == joined(texts(parts@), sep@),
{
    let mut out: String = String::new();
    let mut i: usize = 0;
    let ghost all = texts(parts@);
    assert(all.take(0) =~= Seq::empty());
    while i < parts.len()
        invariant
            i <= parts@.len(),
            all == texts(parts@),
            out@ == joined(all.take(i as int), sep@),
        decreases parts@.len() - i,
    {
        assert(all.take(i + 1).drop_last() =~= all.take(i as int));
        if i == 0 {
            assert(out@ =~= Seq::<char>::empty());
            out = parts[i].clone();
        } else {
            out.append(sep);
            out.append(parts[i].as_str());
        }
        i += 1;
    }
    assert(all.take(i as int) =~= all);
    out
}

// ---- what texts are put together and taken apart for ------------------------

/// Joining one text gives it back; joining one more puts the separator and that text
/// behind what was joined before.
pub proof fn joining_puts_behind(parts: Seq<Seq<char>>, p: Seq<char>, sep: Seq<char>)
    ensures
        joined(seq![p], sep) == p,
        parts.len() > 0 ==> joined(parts.push(p), sep) == joined(parts, sep) + sep + p,
{
    assert(parts.push(p).drop_last() =~= parts);
}

/// Each of the texts that are joined stands in the result: behind the start or a
/// separator, and before the end or a separator.
pub proof fn joined_parts_stand_apart(parts: Seq<Seq<char>>, sep: Seq<char>, i: int) -> (r: (
    Seq<char>,
    Seq<char>,
))
    requires
        0 <= i < parts.len(),
    ensures
        joined(parts, sep) == r.0 + parts[i] + r.1,
        if i == 0 {
            r.0.len() == 0
        } else {
            sep.is_suffix_of(r.0)
        },
        if i == parts.len() - 1 {
            r.1.len() == 0
        } else {
            sep.is_prefix_of(r.1)
        },
    decreases parts.len(),
{
    let empty = Seq::<char>::empty();
    if parts.len() == 1 {
        assert(empty + parts[0] + empty =~= parts[0]);
        (empty, empty)
    } else {
        let front = parts.drop_last();
        let head = joined(front, sep);
        if i == parts.len() - 1 {
            let r = (head + sep, empty);
            assert(r.0.skip(head.len() as int) =~= sep);
            assert(joined(parts, sep) =~= r.0 + parts[i] + r.1);
            r
        } else {
            let (a, b) = joined_parts_stand_apart(front, sep, i);
            let r = (a, b + sep + parts.last());
            assert(front[i] == parts[i]);
            assert(joined(parts, sep) =~= a + parts[i] + r.1);
            if i < front.len() - 1 {
                assert(sep =~= r.1.take(sep.len() as int)) by {
                    assert(sep =~= b.take(sep.len() as int));
                }
            } else {
                assert(sep =~= r.1.take(sep.len() as int));
            }
            r
        }
    }
}

/// What stands before the first stop is the whole of a text that holds none, and
/// else what is in front of it.
pub proof fn a_stop_cuts(a: Seq<char>, rest: Seq<char>, stops: Seq<char>)
    requires
        forall|i: int| 0 <= i < a.len() ==> !stops.contains(#[trigger] a[i]),
        rest.len() == 0 || stops.contains(rest[0]),
    ensures
        before(a + rest, stops) == a,
    decreases a.len(),
{
    let s = a + rest;
    if a.len() > 0 {
        let less = a.drop_first();
        assert(s.drop_first() =~= less + rest);
        assert forall|i: int| 0 <= i < less.len() implies !stops.contains(#[trigger] less[i]) by {
            assert(less[i] == a[i + 1]);
        }
        a_stop_cuts(less, rest, stops);
        assert(s[0] == a[0]);
        assert(run(less + rest, stops) == less.len()) by {
            assert((less + rest).take(run(less + rest, stops) as int).len() == less.len()) by {
                run_is_within(less + rest, stops);
            }
            run_is_within(less + rest, stops);
        }
        assert(before(s, stops) =~= a);
    } else {
        assert(s =~= rest);
        assert(before(s, stops) =~= a);
    }
}

/// No more characters stand before a stop than there are.
proof fn run_is_within(s: Seq<char>, stops: Seq<char>)
    ensures
        run(s, stops) <= s.len(),
    decreases s.len(),
{
    if s.len() > 0 && !stops.contains(s[0]) {
        run_is_within(s.drop_first(), stops);
    }
}

/// What stands behind a prefix is what was put behind it.
pub proof fn a_prefix_is_taken_off(p: Seq<char>, rest: Seq<char>)
    ensures
        behind(p + rest, p) == Some(rest),
{
    assert((p + rest).skip(p.len() as int) =~= rest);
    assert(p =~= (p + rest).take(p.len() as int));
}

/// A number below ten is written as its digit; every other is written as the number
/// of its tens, with the digit that is left behind it.
pub proof fn numbers_are_written_digit_by_digit(n: nat, d: nat)
    requires
        d < 10,
    ensures
        dec(d).len() == 1,
        dec(d)[0] as int == '0' as int + d,
        n > 0 ==> dec(10 * n + d) == dec(n) + dec(d),
{
    if n > 0 {
        assert((10 * n + d) / 10 == n);
        assert((10 * n + d) % 10 == d);
        assert(dec(n).push(digit(d as int)) =~= dec(n) + dec(d));
    }
}

/// Trimming takes the white space off both ends and nothing else: what is left starts
/// and ends with what is not white space, or is empty.
pub proof fn trimming_takes_off_white_space(a: Seq<char>, s: Seq<char>, b: Seq<char>)
    requires
        forall|i: int| 0 <= i < a.len() ==> white(#[trigger] a[i]),
        forall|i: int| 0 <= i < b.len() ==> white(#[trigger] b[i]),
        s.len() > 0 ==> !white(s[0]) && !white(s[s.len() - 1]),
    ensures
        trimmed(a + s + b) == s,
{
    if s.len() > 0 {
        front_is_trimmed(a, s + b);
        assert(a + s + b =~= a + (s + b));
        back_is_trimmed(s, b);
    } else {
        let all = a + s + b;
        assert forall|i: int| 0 <= i < all.len() implies white(#[trigger] all[i]) by {
            if i < a.len() {
                assert(all[i] == a[i]);
            } else {
                assert(all[i] == b[i - a.len()]);
            }
        }
        front_is_trimmed(all, Seq::empty());
        assert(all + Seq::<char>::empty() =~= all);
        assert(s =~= Seq::empty());
    }
}

/// White space at the front is taken off.
proof fn front_is_trimmed(a: Seq<char>, s: Seq<char>)
    requires
        forall|i: int| 0 <= i < a.len() ==> white(#[trigger] a[i]),
        s.len() > 0 ==> !white(s[0]),
    ensures
        trimmed_front(a + s) == s,
    decreases a.len(),
{
    if a.len() > 0 {
        let less = a.drop_first();
        assert((a + s).drop_first() =~= less + s);
        assert(white(a[0]));
        assert forall|i: int| 0 <= i < less.len() implies white(#[trigger] less[i]) by {
            assert(less[i] == a[i + 1]);
        }
        front_is_trimmed(less, s);
    } else {
        assert(a + s =~= s);
    }
}

/// White space at the back is taken off.
proof fn back_is_trimmed(s: Seq<char>, b: Seq<char>)
    requires
        forall|i: int| 0 <= i < b.len() ==> white(#[trigger] b[i]),
        s.len() > 0 ==> !white(s[s.len() - 1]),
    ensures
        trimmed_back(s + b) == s,
    decreases b.len(),
{
    if b.len() > 0 {
        let less = b.drop_last();
        assert((s + b).drop_last() =~= s + less);
        assert(white(b[b.len() - 1]));
        assert forall|i: int| 0 <= i < less.len() implies white(#[trigger] less[i]) by {
            assert(less[i] == b[i]);
        }
        back_is_trimmed(s, less);
    } else {
        assert(s + b =~= s);
    }
}

/// Texts are ordered by the first character in which they differ, and a text comes
/// before those that go on behind it.
pub proof fn the_first_difference_decides(
    p: Seq<char>,
    x: char,
    a: Seq<char>,
    y: char,
    b: Seq<char>,
)
    requires
        x != y,
    ensures
        text_less(p + seq![x] + a, p + seq![y] + b) == (x < y),
        text_less(p, p + seq![y] + b),
        !text_less(p + seq![y] + b, p),
    decreases p.len(),
{
    if p.len() > 0 {
        let less = p.drop_first();
        the_first_difference_decides(less, x, a, y, b);
        assert((p + seq![x] + a).drop_first() =~= less + seq![x] + a);
        assert((p + seq![y] + b).drop_first() =~= less + seq![y] + b);
        assert((p + seq![x] + a)[0] == p[0]);
        assert((p + seq![y] + b)[0] == p[0]);
    } else {
        assert((p + seq![x] + a)[0] == x);
        assert((p + seq![y] + b)[0] == y);
    }
}

} // verus!
