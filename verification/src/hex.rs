//! Hexadecimal: how raw bytes travel inside JSON.

use crate::text::{ascii_lower, ascii_lowercase, chars_of};
use vstd::prelude::*;
use vstd::utf8::is_ascii_chars;

verus! {

/// The lowercase hexadecimal digit for a number below sixteen.
pub open spec fn hex_digit(n: int) -> char {
    if n < 10 {
        ('0' as int + n) as char
    } else {
        ('a' as int + n - 10) as char
    }
}

/// The lowercase hexadecimal text of bytes: two digits a byte, high half first.
pub open spec fn hex_text(bytes: Seq<u8>) -> Seq<char> {
    Seq::new(
        2 * bytes.len(),
        |i: int|
            if i % 2 == 0 {
                hex_digit(bytes[i / 2] as int / 16)
            } else {
                hex_digit(bytes[i / 2] as int % 16)
            },
    )
}

/// What a hexadecimal digit of either case is worth.
pub open spec fn nibble(c: char) -> Option<int> {
    if '0' <= c <= '9' {
        Some(c as int - '0' as int)
    } else if 'a' <= c <= 'f' {
        Some(c as int - 'a' as int + 10)
    } else if 'A' <= c <= 'F' {
        Some(c as int - 'A' as int + 10)
    } else {
        None
    }
}

/// Whether a text is hexadecimal digits only, in pairs.
pub open spec fn is_hex(text: Seq<char>) -> bool {
    &&& text.len() % 2 == 0
    &&& forall|i: int| 0 <= i < text.len() ==> nibble(#[trigger] text[i]) is Some
}

/// The bytes that a hexadecimal text spells.
pub open spec fn hex_bytes(text: Seq<char>) -> Option<Seq<u8>> {
    if is_hex(text) {
        Some(
            Seq::new(
                text.len() / 2,
                |i: int| (16 * nibble(text[2 * i])->0 + nibble(text[2 * i + 1])->0) as u8,
            ),
        )
    } else {
        None
    }
}

/// Writes one digit.
fn digit_of(n: u8) -> (r: char)
    requires
        n < 16,
    ensures
        r == hex_digit(n as int),
{
    if n < 10 {
        (48u8 + n) as char
    } else {
        (87u8 + n) as char
    }
}

/// Reads one digit.
fn nibble_of(c: char) -> (r: Option<u8>)
    ensures
        match r {
            Some(n) => n < 16 && nibble(c) == Some(n as int),
            None => nibble(c) is None,
        },
{
    let u: u32 = c as u32;
    if 48 <= u && u <= 57 {
        Some((u - 48) as u8)
    } else if 97 <= u && u <= 102 {
        Some((u - 87) as u8)
    } else if 65 <= u && u <= 70 {
        Some((u - 55) as u8)
    } else {
        None
    }
}

/// The lowercase hexadecimal text of bytes.
pub fn to_hex(bytes: &[u8]) -> (r: String)
    ensures
        r@ == hex_text(bytes@),
{
    let mut s: String = String::new();
    let mut i: usize = 0;
    assert(hex_text(bytes@).take(0) =~= Seq::empty());
    while i < bytes.len()
        invariant
            i <= bytes@.len(),
            s@ == hex_text(bytes@).take(2 * i),
        decreases bytes@.len() - i,
    {
        let b: u8 = bytes[i];
        s.push(digit_of(b / 16));
        s.push(digit_of(b % 16));
        i += 1;
        assert(hex_text(bytes@).take(2 * i) =~= hex_text(bytes@).take(2 * i - 2).push(
            hex_text(bytes@)[2 * i - 2],
        ).push(hex_text(bytes@)[2 * i - 1]));
    }
    assert(hex_text(bytes@).take(2 * i) =~= hex_text(bytes@));
    s
}

/// The bytes that a hexadecimal text spells; `None` where a character is no
/// digit, or one is left over.
pub fn from_hex(s: &str) -> (r: Option<Vec<u8>>)
    ensures
        match r {
            Some(b) => hex_bytes(s@) == Some(b@),
            None => hex_bytes(s@) is None,
        },
{
    let text = chars_of(s);
    if text.len() % 2 != 0 {
        return None;
    }
    let mut out: Vec<u8> = Vec::new();
    let mut i: usize = 0;
    while i < text.len()
        invariant
            text@ == s@,
            text@.len() % 2 == 0,
            i % 2 == 0,
            i <= text@.len(),
            forall|k: int| 0 <= k < i ==> nibble(#[trigger] text@[k]) is Some,
            out@.len() == i / 2,
            forall|k: int|
                0 <= k < i / 2 ==> #[trigger] out@[k] == (16 * nibble(text@[2 * k])->0 + nibble(
                    text@[2 * k + 1],
                )->0) as u8,
        decreases text@.len() - i,
    {
        let high = nibble_of(text[i]);
        let low = nibble_of(text[i + 1]);
        match (high, low) {
            (Some(h), Some(l)) => {
                out.push(16 * h + l);
            },
            _ => {
                return None;
            },
        }
        i += 2;
    }
    assert(out@ =~= hex_bytes(s@)->0);
    Some(out)
}

/// Reading back what was written gives the bytes again.
pub proof fn hex_round_trip(bytes: Seq<u8>)
    ensures
        hex_bytes(hex_text(bytes)) == Some(bytes),
{
    let t = hex_text(bytes);
    assert forall|i: int| 0 <= i < t.len() implies nibble(#[trigger] t[i]) is Some by {}
    assert(is_hex(t));
    assert(hex_bytes(t)->0 =~= bytes) by {
        assert forall|i: int| 0 <= i < bytes.len() implies hex_bytes(t)->0[i] == bytes[i] by {
            assert(t[2 * i] == hex_digit(bytes[i] as int / 16));
            assert(t[2 * i + 1] == hex_digit(bytes[i] as int % 16));
        }
    }
}

/// Writing what was read gives the text again, in lowercase.
pub proof fn hex_canonical(text: Seq<char>)
    requires
        is_hex(text),
    ensures
        hex_text(hex_bytes(text)->0) == ascii_lowercase(text),
{
    let b = hex_bytes(text)->0;
    assert forall|i: int| 0 <= i < text.len() implies hex_text(b)[i] == ascii_lower(text[i]) by {
        let k = i / 2;
        assert(nibble(text[2 * k]) is Some);
        assert(nibble(text[2 * k + 1]) is Some);
        assert(b[k] == (16 * nibble(text[2 * k])->0 + nibble(text[2 * k + 1])->0) as u8);
        assert(text[i] == text[2 * k] || text[i] == text[2 * k + 1]);
    }
    assert(hex_text(b) =~= ascii_lowercase(text));
}

/// Hexadecimal text is ASCII, and what is written is in lowercase already.
pub proof fn hex_is_ascii(bytes: Seq<u8>)
    ensures
        is_ascii_chars(hex_text(bytes)),
        ascii_lowercase(hex_text(bytes)) == hex_text(bytes),
{
    let t = hex_text(bytes);
    assert forall|i: int| 0 <= i < t.len() implies (t[i] as u32) < 128 && ascii_lower(t[i]) == t[i] by {
    }
    assert(ascii_lowercase(t) =~= t);
}

/// A text is read as hexadecimal just where it has an even number of characters and
/// each is a digit, in either case.
pub proof fn hex_is_read_in_either_case(text: Seq<char>)
    ensures
        hex_bytes(text) is Some <==> text.len() % 2 == 0 && forall|i: int|
            0 <= i < text.len() ==> '0' <= #[trigger] text[i] <= '9' || 'a' <= text[i] <= 'f' || 'A'
                <= text[i] <= 'F',
        hex_bytes(text) is Some ==> hex_bytes(text)->0.len() == text.len() / 2,
{
    if hex_bytes(text) is Some {
        assert forall|i: int| 0 <= i < text.len() implies '0' <= #[trigger] text[i] <= '9' || 'a'
            <= text[i] <= 'f' || 'A' <= text[i] <= 'F' by {
            assert(nibble(text[i]) is Some);
        }
    } else if text.len() % 2 == 0 {
        let i = choose|i: int| 0 <= i < text.len() && nibble(#[trigger] text[i]) is None;
        assert(!('0' <= text[i] <= '9' || 'a' <= text[i] <= 'f' || 'A' <= text[i] <= 'F'));
    }
}

/// Bytes are written one after another, each as two lowercase digits: what it holds
/// of sixteens, and what is left.
pub proof fn bytes_are_written_in_turn(a: Seq<u8>, b: u8)
    ensures
        hex_text(a.push(b)) == hex_text(a) + hex_text(seq![b]),
        hex_text(Seq::empty()).len() == 0,
        hex_text(seq![b]).len() == 2,
        hex_text(seq![b])[0] as int == (if b < 160 {
            '0' as int + b / 16
        } else {
            'a' as int + b / 16 - 10
        }),
        hex_text(seq![b])[1] as int == (if b % 16 < 10 {
            '0' as int + b % 16
        } else {
            'a' as int + b % 16 - 10
        }),
{
    assert(hex_text(a.push(b)) =~= hex_text(a) + hex_text(seq![b]));
}

} // verus!
