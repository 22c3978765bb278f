//! A collector for posted chain events: what is posted is taken out of a request
//! as it arrives.

use crate::release::{lines_in, lines_of};
use crate::text::{
    a_prefix_is_taken_off, ascii_lower, ascii_lowercase, behind, chars_of, dec, lossy, lossy_text,
    strip_prefix, texts, trim, trimmed, trimming_takes_off_white_space, white,
};
use vstd::prelude::*;

verus! {

/// The first place at which bytes stand in others.
pub open spec fn place_of(hay: Seq<u8>, needle: Seq<u8>) -> Option<int>
    decreases hay.len(),
{
    if hay.len() < needle.len() {
        None
    } else if hay.take(needle.len() as int) == needle {
        Some(0)
    } else if hay.len() == 0 {
        None
    } else {
        match place_of(hay.drop_first(), needle) {
            Some(i) => Some(i + 1),
            None => None,
        }
    }
}

/// Whether bytes stand in others at a place.
fn stands_at(hay: &[u8], needle: &[u8], at: usize) -> (r: bool)
    requires
        at + needle@.len() <= hay@.len(),
    ensures
        r == (hay@.skip(at as int).take(needle@.len() as int) == needle@),
{
    let n: usize = hay.len();
    let m: usize = needle.len();
    let ghost window = hay@.skip(at as int).take(needle@.len() as int);
    let mut i: usize = 0;
    while i < m
        invariant
            i <= m,
            n == hay@.len(),
            m == needle@.len(),
            at + m <= n,
            window == hay@.skip(at as int).take(needle@.len() as int),
            forall|k: int| 0 <= k < i ==> window[k] == needle@[k],
        decreases m - i,
    {
        assert(window[i as int] == hay@[at + i]);
        if hay[at + i] != needle[i] {
            return false;
        }
        i += 1;
    }
    assert(window =~= needle@);
    true
}

/// The first place at which bytes stand in others.
pub fn find(hay: &[u8], needle: &[u8]) -> (r: Option<usize>)
    requires
        needle@.len() > 0,
    ensures
        match r {
            Some(i) => i + needle@.len() <= hay@.len() && place_of(hay@, needle@) == Some(i as int),
            None => place_of(hay@, needle@) is None,
        },
        r matches Some(i) ==> hay@.subrange(i as int, i + needle@.len()) == needle@,
        r is None ==> forall|k: int|
            0 <= k <= hay@.len() - needle@.len() ==> #[trigger] hay@.subrange(k, k + needle@.len())
                != needle@,
{
    proof {
        the_first_place_is_found(hay@, needle@);
    }
    let n: usize = hay.len();
    let m: usize = needle.len();
    let mut i: usize = 0;
    assert(hay@.skip(0) =~= hay@);
    while i < n && m <= n - i
        invariant
            n == hay@.len(),
            m == needle@.len(),
            i <= n,
            place_of(hay@, needle@) == (match place_of(hay@.skip(i as int), needle@) {
                Some(k) => Some(k + i),
                None => None,
            }),
        decreases n - i,
    {
        if stands_at(hay, needle, i) {
            return Some(i);
        }
        assert(hay@.skip(i as int).drop_first() =~= hay@.skip(i + 1));
        i += 1;
    }
    None
}

// ---- numbers ---------------------------------------------------------------

/// Whether a character is a decimal digit.
pub open spec fn is_digit(c: char) -> bool {
    '0' <= c <= '9'
}

/// What decimal digits are worth.
pub open spec fn worth(s: Seq<char>) -> nat
    decreases s.len(),
{
    if s.len() == 0 {
        0
    } else {
        10 * worth(s.drop_last()) + (s.last() as int - '0' as int) as nat
    }
}

/// A text without a plus sign at its front.
pub open spec fn without_plus(s: Seq<char>) -> Seq<char> {
    if s.len() > 0 && s[0] == '+' {
        s.drop_first()
    } else {
        s
    }
}

/// Whether a text is decimal digits only.
pub open spec fn all_digits(s: Seq<char>) -> bool {
    forall|i: int| 0 <= i < s.len() ==> is_digit(#[trigger] s[i])
}

/// The number that a text is: digits, with a plus sign before them or not, and no
/// more than `max`.
pub open spec fn number_in(s: Seq<char>, max: nat) -> Option<nat> {
    let digits = without_plus(s);
    if digits.len() > 0 && all_digits(digits) && worth(digits) <= max {
        Some(worth(digits))
    } else {
        None
    }
}

/// More digits are worth no less.
proof fn worth_grows(s: Seq<char>, n: int)
    requires
        0 <= n <= s.len(),
        all_digits(s),
    ensures
        worth(s.take(n)) <= worth(s),
    decreases s.len(),
{
    if n == s.len() {
        assert(s.take(n) =~= s);
    } else {
        let front = s.drop_last();
        assert forall|i: int| 0 <= i < front.len() implies is_digit(#[trigger] front[i]) by {
            assert(front[i] == s[i]);
        }
        worth_grows(front, n);
        assert(front.take(n) =~= s.take(n));
        assert(is_digit(s[s.len() - 1]));
    }
}

/// What a decimal digit is worth.
fn digit_value(c: char) -> (r: Option<usize>)
    ensures
        match r {
            Some(d) => is_digit(c) && d < 10 && d == c as int - '0' as int,
            None => !is_digit(c),
        },
{
    let u: u32 = c as u32;
    if 48 <= u && u <= 57 {
        Some((u - 48) as usize)
    } else {
        None
    }
}

/// The number that a text is.
pub fn parse_number(s: &str) -> (r: Option<usize>)
    ensures
        match r {
            Some(n) => number_in(s@, usize::MAX as nat) == Some(n as nat),
            None => number_in(s@, usize::MAX as nat) is None,
        },
{
    let all = chars_of(s);
    let n: usize = all.len();
    let from: usize = if n > 0 && all[0] == '+' {
        1
    } else {
        0
    };
    let ghost digits = without_plus(s@);
    assert(digits =~= s@.skip(from as int));
    if from == n {
        return None;
    }
    let mut value: usize = 0;
    let mut i: usize = from;
    assert(digits.take(0) =~= Seq::empty());
    while i < n
        invariant
            all@ == s@,
            n == all@.len(),
            from <= i <= n,
            from < n,
            digits == s@.skip(from as int),
            digits == without_plus(s@),
            forall|k: int| 0 <= k < i - from ==> is_digit(#[trigger] digits[k]),
            value == worth(digits.take(i - from)),
        decreases n - i,
    {
        let ghost at = i - from;
        assert(digits[at] == s@[i as int]);
        let d: usize = match digit_value(all[i]) {
            Some(d) => d,
            None => {
                assert(!is_digit(digits[at]));
                return None;
            },
        };
        assert(digits.take(at + 1).drop_last() =~= digits.take(at));
        assert(worth(digits.take(at + 1)) == 10 * value + d);
        let room: bool = value <= usize::MAX / 10 && d <= usize::MAX - 10 * value;
        if !room {
            proof {
                assert(worth(digits.take(at + 1)) > usize::MAX);
                if all_digits(digits) {
                    worth_grows(digits, at + 1);
                }
            }
            return None;
        }
        value = 10 * value + d;
        i += 1;
    }
    assert(digits.take(n - from) =~= digits);
    Some(value)
}

// ---- requests --------------------------------------------------------------

/// A text with the letters of ASCII in lowercase.
fn to_ascii_lowercase(s: &str) -> (r: String)
    ensures
        r@ == ascii_lowercase(s@),
{
    let all = chars_of(s);
    let mut out: String = String::new();
    let mut i: usize = 0;
    while i < all.len()
        invariant
            all@ == s@,
            i <= all@.len(),
            out@ == ascii_lowercase(s@.take(i as int)),
        decreases all@.len() - i,
    {
        out.push(lower(all[i]));
        i += 1;
        assert(ascii_lowercase(s@.take(i as int)) =~= ascii_lowercase(s@.take(i - 1)).push(
            ascii_lower(s@[i - 1]),
        ));
    }
    assert(s@.take(i as int) =~= s@);
    out
}

/// A character in lowercase, where it is a letter of ASCII.
fn lower(c: char) -> (r: char)
    ensures
        r == ascii_lower(c),
{
    let u: u32 = c as u32;
    if 65 <= u && u <= 90 {
        (u as u8 + 32) as char
    } else {
        c
    }
}

/// The length that a header line announces, where it announces one; a value that
/// is no number counts as none.
pub open spec fn length_in_line(line: Seq<char>) -> Option<nat> {
    match behind(ascii_lowercase(line), "content-length:"@) {
        Some(v) => match number_in(trimmed(v), usize::MAX as nat) {
            Some(n) => Some(n),
            None => Some(0),
        },
        None => None,
    }
}

/// The length that the first header line announces which announces one.
pub open spec fn length_in(lines: Seq<Seq<char>>) -> nat
    decreases lines.len(),
{
    if lines.len() == 0 {
        0
    } else {
        match length_in_line(lines[0]) {
            Some(n) => n,
            None => length_in(lines.drop_first()),
        }
    }
}

/// The length that a request's head announces.
pub fn content_length(head: &str) -> (r: usize)
    ensures
        r == length_in(lines_in(head@)),
{
    let lines = lines_of(head);
    let ghost all = lines_in(head@);
    let mut i: usize = 0;
    assert(all.skip(0) =~= all);
    while i < lines.len()
        invariant
            i <= lines@.len(),
            texts(lines@) == all,
            all == lines_in(head@),
            length_in(all) == length_in(all.skip(i as int)),
        decreases lines@.len() - i,
    {
        assert(all.skip(i as int)[0] == texts(lines@)[i as int]);
        assert(all.skip(i as int).drop_first() =~= all.skip(i + 1));
        match strip_prefix(to_ascii_lowercase(lines[i].as_str()).as_str(), "content-length:") {
            Some(v) => {
                return match parse_number(trim(v.as_str()).as_str()) {
                    Some(n) => n,
                    None => 0,
                };
            },
            None => {},
        }
        i += 1;
    }
    0
}

/// The bytes that end a request's head.
pub open spec fn head_mark() -> Seq<u8> {
    seq![13u8, 10u8, 13u8, 10u8]
}

/// What has arrived of a request.
pub enum Arrived {
    /// The head is not complete.
    Head,
    /// The head is complete; `whole` tells whether the body is too.
    Body { body: Vec<u8>, whole: bool },
}

/// What has arrived of a request: once the head is complete, as much of the body
/// as is there, and no more than was announced.
pub fn arrived(buf: &Vec<u8>) -> (r: Arrived)
    ensures
        match (r, place_of(buf@, head_mark())) {
            (Arrived::Head, None) => true,
            (Arrived::Body { body, whole }, Some(end)) => {
                let rest = buf@.skip(end + 4);
                let announced = length_in(lines_in(lossy(buf@.take(end))));
                &&& 0 <= end <= buf@.len() - 4
                &&& whole == (rest.len() >= announced)
                &&& body@ == (if rest.len() >= announced {
                    rest.take(announced as int)
                } else {
                    rest
                })
            },
            _ => false,
        },
        r is Head <==> forall|k: int|
            0 <= k <= buf@.len() - 4 ==> #[trigger] buf@.subrange(k, k + 4) != seq![13u8, 10u8, 13u8, 10u8],
{
    proof {
        the_first_place_is_found(buf@, head_mark());
    }
    let mark: [u8; 4] = [13u8, 10u8, 13u8, 10u8];
    assert(mark@ =~= head_mark());
    let n: usize = buf.len();
    let end: usize = match find(buf.as_slice(), mark.as_slice()) {
        Some(e) => e,
        None => {
            return Arrived::Head;
        },
    };
    let head = bytes_between(buf, 0, end);
    assert(head@ =~= buf@.take(end as int));
    let announced: usize = content_length(lossy_text(head.as_slice()).as_str());
    let start: usize = end + 4;
    let whole: bool = n - start >= announced;
    let stop: usize = if whole {
        start + announced
    } else {
        n
    };
    let body = bytes_between(buf, start, stop);
    assert(body@ =~= (if whole {
        buf@.skip(start as int).take(announced as int)
    } else {
        buf@.skip(start as int)
    }));
    Arrived::Body { body, whole }
}

/// The bytes between two places.
fn bytes_between(all: &Vec<u8>, from: usize, to: usize) -> (r: Vec<u8>)
    requires
        from <= to <= all@.len(),
    ensures
        r@ == all@.subrange(from as int, to as int),
{
    let mut out: Vec<u8> = Vec::new();
    let mut i: usize = from;
    while i < to
        invariant
            from <= i <= to <= all@.len(),
            out@ == all@.subrange(from as int, i as int),
        decreases to - i,
    {
        out.push(all[i]);
        i += 1;
        assert(all@.subrange(from as int, i as int) =~= all@.subrange(from as int, i - 1).push(
            all@[i - 1],
        ));
    }
    out
}

// ---- what is found in a request --------------------------------------------

/// The place that is found is one at which the bytes stand, and they stand nowhere
/// before it; where none is found, they stand nowhere.
pub proof fn the_first_place_is_found(hay: Seq<u8>, needle: Seq<u8>)
    requires
        needle.len() > 0,
    ensures
        match place_of(hay, needle) {
            Some(i) => {
                &&& 0 <= i <= hay.len() - needle.len()
                &&& hay.subrange(i, i + needle.len()) == needle
                &&& forall|k: int| 0 <= k < i ==> #[trigger] hay.subrange(k, k + needle.len()) != needle
            },
            None => forall|k: int|
                0 <= k <= hay.len() - needle.len() ==> #[trigger] hay.subrange(k, k + needle.len())
                    != needle,
        },
    decreases hay.len(),
{
    let n = needle.len() as int;
    if hay.len() >= n {
        assert(hay.take(n) =~= hay.subrange(0, n));
        if hay.take(n) != needle {
            let rest = hay.drop_first();
            the_first_place_is_found(rest, needle);
            assert forall|k: int| 0 < k <= hay.len() - n implies #[trigger] hay.subrange(k, k + n)
                == rest.subrange(k - 1, k - 1 + n) by {
                assert(hay.subrange(k, k + n) =~= rest.subrange(k - 1, k - 1 + n));
            }
            match place_of(rest, needle) {
                Some(j) => {
                    assert(hay.subrange(j + 1, j + 1 + n) =~= rest.subrange(j, j + n));
                    assert forall|k: int| 0 <= k < j + 1 implies #[trigger] hay.subrange(k, k + n)
                        != needle by {
                        if k > 0 {
                            assert(hay.subrange(k, k + n) == rest.subrange(k - 1, k - 1 + n));
                        }
                    }
                },
                None => {
                    assert forall|k: int| 0 <= k <= hay.len() - n implies #[trigger] hay.subrange(k, k + n)
                        != needle by {
                        if k > 0 {
                            assert(hay.subrange(k, k + n) == rest.subrange(k - 1, k - 1 + n));
                        }
                    }
                },
            }
        }
    }
}

/// Decimal digits are worth the number that they were written for.
proof fn digits_are_worth_the_number(n: nat)
    ensures
        worth(dec(n)) == n,
        all_digits(dec(n)),
        dec(n).len() > 0,
    decreases n,
{
    reveal_with_fuel(worth, 2);
    if n >= 10 {
        let front = dec(n / 10);
        digits_are_worth_the_number(n / 10);
        assert(dec(n).drop_last() =~= front);
        assert forall|i: int| 0 <= i < dec(n).len() implies is_digit(#[trigger] dec(n)[i]) by {
            if i < front.len() {
                assert(dec(n)[i] == front[i]);
            }
        }
    } else {
        assert(dec(n).drop_last() =~= Seq::empty());
    }
}

/// A number that was written in decimal is read as that number, with a plus sign before
/// it or not, as long as it is not too large.
pub proof fn written_numbers_are_read(n: nat, max: nat)
    ensures
        n <= max ==> number_in(dec(n), max) == Some(n) && number_in(seq!['+'] + dec(n), max) == Some(
            n,
        ),
        n > max ==> number_in(dec(n), max) is None && number_in(seq!['+'] + dec(n), max) is None,
{
    digits_are_worth_the_number(n);
    assert(is_digit(dec(n)[0]));
    assert((seq!['+'] + dec(n)).drop_first() =~= dec(n));
}

/// The length that a request announces is the number behind the first header of that
/// name, in whatever case the name is written and whatever white space stands around
/// the number. A line of another name announces nothing.
pub proof fn the_announced_length_is_read(
    name: Seq<char>,
    a: Seq<char>,
    n: nat,
    b: Seq<char>,
    other: Seq<char>,
    rest: Seq<Seq<char>>,
)
    requires
        ascii_lowercase(name) == "content-length:"@,
        n <= usize::MAX,
        forall|i: int| 0 <= i < a.len() ==> white(#[trigger] a[i]),
        forall|i: int| 0 <= i < b.len() ==> white(#[trigger] b[i]),
        !"content-length:"@.is_prefix_of(ascii_lowercase(other)),
    ensures
        length_in(seq![name + a + dec(n) + b] + rest) == n,
        length_in(seq![other] + rest) == length_in(rest),
        length_in(Seq::empty()) == 0,
{
    let line = name + a + dec(n) + b;
    let value = a + dec(n) + b;
    digits_are_worth_the_number(n);
    assert forall|i: int| 0 <= i < value.len() implies ascii_lower(#[trigger] value[i]) == value[i] by {
        if i < a.len() {
            assert(value[i] == a[i]);
            assert(white(a[i]));
        } else if i < a.len() + dec(n).len() {
            assert(value[i] == dec(n)[i - a.len()]);
            assert(is_digit(dec(n)[i - a.len()]));
        } else {
            assert(value[i] == b[i - a.len() - dec(n).len()]);
            assert(white(b[i - a.len() - dec(n).len()]));
        }
    }
    assert(ascii_lowercase(line) =~= "content-length:"@ + value) by {
        assert forall|i: int| 0 <= i < line.len() implies ascii_lowercase(line)[i] == (
        "content-length:"@ + value)[i] by {
            if i < name.len() {
                assert(ascii_lowercase(name)[i] == ascii_lower(name[i]));
            } else {
                assert(line[i] == value[i - name.len()]);
            }
        }
    }
    a_prefix_is_taken_off("content-length:"@, value);
    assert(is_digit(dec(n)[0]) && is_digit(dec(n)[dec(n).len() - 1]));
    trimming_takes_off_white_space(a, dec(n), b);
    written_numbers_are_read(n, usize::MAX as nat);
    assert((seq![line] + rest)[0] == line);
    assert((seq![other] + rest)[0] == other);
    assert((seq![other] + rest).drop_first() =~= rest);
}

/// Only digits make a number: any other character, but for a plus sign in front, makes
/// it none, and so does nothing at all. Zeros in front change nothing.
pub proof fn only_digits_make_a_number(s: Seq<char>, i: int, max: nat)
    requires
        0 <= i < s.len(),
    ensures
        number_in(Seq::empty(), max) is None,
        number_in(seq!['+'], max) is None,
        !('0' <= s[i] <= '9') && (i > 0 || s[i] != '+') ==> number_in(s, max) is None,
        (forall|k: int| 0 <= k < s.len() ==> '0' <= #[trigger] s[k] <= '9') ==> number_in(
            seq!['0'] + s,
            max,
        ) == number_in(s, max),
{
    assert(seq!['+'].drop_first() =~= Seq::empty());
    let digits = without_plus(s);
    if !('0' <= s[i] <= '9') && (i > 0 || s[i] != '+') {
        if s[0] == '+' {
            assert(digits[i - 1] == s[i]);
        } else {
            assert(digits[i] == s[i]);
        }
    }
    if forall|k: int| 0 <= k < s.len() ==> '0' <= #[trigger] s[k] <= '9' {
        let longer = seq!['0'] + s;
        assert('0' <= s[0] <= '9');
        assert forall|k: int| 0 <= k < longer.len() implies is_digit(#[trigger] longer[k]) by {
            if k > 0 {
                assert(longer[k] == s[k - 1]);
            }
        }
        assert(all_digits(s));
        zero_in_front(s);
    }
}

/// A zero in front is worth nothing.
proof fn zero_in_front(s: Seq<char>)
    ensures
        worth(seq!['0'] + s) == worth(s),
    decreases s.len(),
{
    let longer = seq!['0'] + s;
    if s.len() > 0 {
        zero_in_front(s.drop_last());
        assert(longer.drop_last() =~= seq!['0'] + s.drop_last());
        assert(longer.last() == s.last());
    } else {
        assert(longer.drop_last() =~= Seq::empty());
        reveal_with_fuel(worth, 2);
    }
}

/// A length that is no number counts as none, and what other lines announce is not
/// looked at.
pub proof fn a_length_that_is_no_number_is_none(name: Seq<char>, value: Seq<char>, rest: Seq<Seq<char>>)
    requires
        ascii_lowercase(name) == "content-length:"@,
        number_in(trimmed(ascii_lowercase(value)), usize::MAX as nat) is None,
    ensures
        length_in(seq![name + value] + rest) == 0,
{
    let line = name + value;
    assert(ascii_lowercase(line) =~= ascii_lowercase(name) + ascii_lowercase(value));
    a_prefix_is_taken_off("content-length:"@, ascii_lowercase(value));
    assert((seq![line] + rest)[0] == line);
}

} // verus!
