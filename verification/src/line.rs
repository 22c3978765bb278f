//! Lines: what arrives on a connection in chunks is read line by line.

use crate::text::printable;
use vstd::prelude::*;
use vstd::utf8::{encode_scalar, encode_utf8};

verus! {

/// How much is buffered before the buffer is handed out as one line.
pub const LINE_MAX: usize = 65536;

/// How many bytes stand before the first newline; all of them, where there is
/// none.
pub open spec fn before_newline(b: Seq<u8>) -> nat
    decreases b.len(),
{
    if b.len() == 0 || b[0] == 10 {
        0
    } else {
        1 + before_newline(b.drop_first())
    }
}

/// Whether bytes hold a whole line.
pub open spec fn has_line(b: Seq<u8>) -> bool {
    before_newline(b) < b.len()
}

/// Bytes without a carriage return at the end.
pub open spec fn without_cr(b: Seq<u8>) -> Seq<u8> {
    if b.len() > 0 && b.last() == 13 {
        b.drop_last()
    } else {
        b
    }
}

/// The first line of bytes.
pub open spec fn first_line(b: Seq<u8>) -> Seq<u8> {
    without_cr(b.take(before_newline(b) as int))
}

/// What stands behind the first line.
pub open spec fn after_line(b: Seq<u8>) -> Seq<u8> {
    b.skip(before_newline(b) as int + 1)
}

/// What a chunk leads to.
pub enum Fed {
    /// No line yet, as far as it is known.
    More,
    /// This is the line.
    Line(Vec<u8>),
    /// There is no line to come.
    End,
}

/// What a chunk leads to, by its view.
pub enum FedView {
    More,
    Line(Seq<u8>),
    End,
}

impl View for Fed {
    type V = FedView;

    open spec fn view(&self) -> FedView {
        match self {
            Fed::More => FedView::More,
            Fed::Line(l) => FedView::Line(l@),
            Fed::End => FedView::End,
        }
    }
}

/// What a chunk leads to, and what is buffered then. An empty chunk is the end
/// of the stream, a missing one a failure.
pub open spec fn fed(buf: Seq<u8>, chunk: Option<Seq<u8>>) -> (Seq<u8>, FedView) {
    match chunk {
        None => (buf, FedView::End),
        Some(c) => if c.len() == 0 {
            if buf.len() == 0 {
                (buf, FedView::End)
            } else {
                (Seq::empty(), FedView::Line(without_cr(buf)))
            }
        } else if buf.len() + c.len() > LINE_MAX {
            (Seq::empty(), FedView::Line(buf + c))
        } else {
            (buf + c, FedView::More)
        },
    }
}

/// Reads lines off a connection. What arrives behind a line stays buffered for
/// the next.
pub struct LineReader {
    pub buf: Vec<u8>,
}

impl LineReader {
    /// A reader that has nothing buffered.
    pub fn new() -> (r: LineReader)
        ensures
            r.buf@ == Seq::<u8>::empty(),
    {
        LineReader { buf: Vec::new() }
    }

    /// Takes the first line out of the buffer, where it holds a whole one, without
    /// its newline and a carriage return before it.
    pub fn take_line(&mut self) -> (r: Option<Vec<u8>>)
        ensures
            match r {
                Some(l) => {
                    &&& has_line(old(self).buf@)
                    &&& l@ == first_line(old(self).buf@)
                    &&& final(self).buf@ == after_line(old(self).buf@)
                },
                None => !has_line(old(self).buf@) && final(self).buf@ == old(self).buf@,
            },
    {
        let ghost all = self.buf@;
        let n: usize = self.buf.len();
        let mut i: usize = 0;
        assert(all.skip(0) =~= all);
        while i < n && self.buf[i] != 10
            invariant
                self.buf@ == all,
                n == all.len(),
                i <= n,
                before_newline(all) == i + before_newline(all.skip(i as int)),
            decreases n - i,
        {
            assert(all.skip(i as int).drop_first() =~= all.skip(i + 1));
            i += 1;
        }
        if i == n {
            return None;
        }
        let mut line: Vec<u8> = Vec::new();
        let mut rest: Vec<u8> = Vec::new();
        let mut k: usize = 0;
        while k < i
            invariant
                self.buf@ == all,
                k <= i < all.len(),
                line@ == all.take(k as int),
            decreases i - k,
        {
            line.push(self.buf[k]);
            k += 1;
            assert(all.take(k as int) =~= all.take(k - 1).push(all[k - 1]));
        }
        if line.len() > 0 && line[line.len() - 1] == 13 {
            line.pop();
        }
        k = i + 1;
        while k < n
            invariant
                self.buf@ == all,
                n == all.len(),
                i + 1 <= k <= n,
                rest@ == all.subrange(i + 1, k as int),
            decreases n - k,
        {
            rest.push(self.buf[k]);
            k += 1;
            assert(all.subrange(i + 1, k as int) =~= all.subrange(i + 1, k - 1).push(all[k - 1]));
        }
        assert(all.subrange(i + 1, k as int) =~= all.skip(i + 1));
        self.buf = rest;
        Some(line)
    }

    /// Takes a chunk that has arrived. Too much without a line is handed out as
    /// one, and so is what is left at the end of the stream, without a carriage
    /// return behind it.
    pub fn feed(&mut self, chunk: Option<Vec<u8>>) -> (r: Fed)
        ensures
            (final(self).buf@, r@) == fed(
                old(self).buf@,
                match chunk {
                    Some(c) => Some(c@),
                    None => None,
                },
            ),
    {
        match chunk {
            None => Fed::End,
            Some(c) => {
                let mut c = c;
                if c.len() == 0 {
                    if self.buf.len() == 0 {
                        return Fed::End;
                    }
                    let mut line: Vec<u8> = Vec::new();
                    line.append(&mut self.buf);
                    assert(line@ =~= old(self).buf@);
                    if line[line.len() - 1] == 13 {
                        line.pop();
                    }
                    return Fed::Line(line);
                }
                self.buf.append(&mut c);
                if self.buf.len() > LINE_MAX {
                    let ghost full = self.buf@;
                    let mut line: Vec<u8> = Vec::new();
                    line.append(&mut self.buf);
                    assert(line@ =~= full);
                    return Fed::Line(line);
                }
                Fed::More
            },
        }
    }
}

/// Takes one byte of a line; tells whether it was the newline that ends it.
pub fn take_byte(line: &mut Vec<u8>, byte: u8) -> (r: bool)
    ensures
        r == (byte == 10),
        final(line)@ == (if byte == 10 {
            old(line)@
        } else {
            old(line)@.push(byte)
        }),
{
    if byte == 10 {
        true
    } else {
        line.push(byte);
        false
    }
}

// ---- what chunks are made of -----------------------------------------------

/// The bytes of chunks, one behind the other.
pub open spec fn stream(chunks: Seq<Seq<u8>>) -> Seq<u8>
    decreases chunks.len(),
{
    if chunks.len() == 0 {
        Seq::empty()
    } else {
        chunks[0] + stream(chunks.drop_first())
    }
}

/// A line that was read.
pub struct Read {
    pub line: Seq<u8>,
    /// What is buffered behind it.
    pub buf: Seq<u8>,
    /// The chunks that were not asked for.
    pub chunks: Seq<Seq<u8>>,
}

/// The line that is read next: as long as the buffer holds no line, a chunk is
/// taken.
pub open spec fn next_line(buf: Seq<u8>, chunks: Seq<Seq<u8>>) -> Option<Read>
    decreases chunks.len(),
{
    if has_line(buf) {
        Some(Read { line: first_line(buf), buf: after_line(buf), chunks })
    } else if chunks.len() == 0 {
        None
    } else {
        match fed(buf, Some(chunks[0])) {
            (b, FedView::More) => next_line(b, chunks.drop_first()),
            (b, FedView::Line(l)) => Some(
                Read { line: l, buf: b, chunks: chunks.drop_first() },
            ),
            (b, FedView::End) => None,
        }
    }
}

/// A line stays the first when more bytes come behind it.
proof fn line_stays_first(b: Seq<u8>, more: Seq<u8>)
    requires
        has_line(b),
    ensures
        has_line(b + more),
        first_line(b + more) == first_line(b),
        after_line(b + more) == after_line(b) + more,
    decreases b.len(),
{
    newline_place(b, more);
    let n = before_newline(b) as int;
    assert((b + more).take(n) =~= b.take(n));
    assert((b + more).skip(n + 1) =~= b.skip(n + 1) + more);
}

/// The first newline stays where it is when more bytes come behind it.
proof fn newline_place(b: Seq<u8>, more: Seq<u8>)
    requires
        has_line(b),
    ensures
        before_newline(b + more) == before_newline(b),
    decreases b.len(),
{
    if b[0] != 10 {
        assert((b + more).drop_first() =~= b.drop_first() + more);
        newline_place(b.drop_first(), more);
    }
}

/// How a stream is cut into chunks does not matter: as long as it stays within
/// the limit, the line that is read is the first of the whole stream, and what
/// comes behind it is still there for the next, buffered or to come.
pub proof fn chunks_do_not_matter(buf: Seq<u8>, chunks: Seq<Seq<u8>>)
    requires
        has_line(buf + stream(chunks)),
        buf.len() + stream(chunks).len() <= LINE_MAX,
        forall|i: int| 0 <= i < chunks.len() ==> (#[trigger] chunks[i]).len() > 0,
    ensures
        next_line(buf, chunks) is Some,
        next_line(buf, chunks)->0.line == first_line(buf + stream(chunks)),
        next_line(buf, chunks)->0.buf + stream(next_line(buf, chunks)->0.chunks) == after_line(
            buf + stream(chunks),
        ),
    decreases chunks.len(),
{
    if has_line(buf) {
        line_stays_first(buf, stream(chunks));
    } else if chunks.len() == 0 {
        assert(buf + stream(chunks) =~= buf);
    } else {
        let later = chunks.drop_first();
        assert(chunks[0].len() > 0);
        assert forall|i: int| 0 <= i < later.len() implies (#[trigger] later[i]).len() > 0 by {
            assert(later[i] == chunks[i + 1]);
        }
        assert((buf + chunks[0]) + stream(later) =~= buf + stream(chunks));
        chunks_do_not_matter(buf + chunks[0], later);
    }
}

/// Two lines that arrive together are read one after the other.
pub proof fn pipelined_lines_are_both_read(a: Seq<u8>, b: Seq<u8>)
    requires
        forall|i: int| 0 <= i < a.len() ==> #[trigger] a[i] != 10,
        forall|i: int| 0 <= i < b.len() ==> #[trigger] b[i] != 10,
        a.len() > 0 ==> a.last() != 13,
        b.len() > 0 ==> b.last() != 13,
    ensures
        ({
            let all = a + seq![10u8] + b + seq![10u8];
            &&& has_line(all)
            &&& first_line(all) == a
            &&& has_line(after_line(all))
            &&& first_line(after_line(all)) == b
            &&& after_line(after_line(all)).len() == 0
        }),
{
    let all = a + seq![10u8] + b + seq![10u8];
    let rest = b + seq![10u8];
    newline_behind(a, rest);
    assert(all =~= a + seq![10u8] + rest);
    assert(all.take(a.len() as int) =~= a);
    assert(all.skip(a.len() as int + 1) =~= rest);
    newline_behind(b, Seq::empty());
    assert(rest =~= b + seq![10u8] + Seq::<u8>::empty());
    assert(rest.take(b.len() as int) =~= b);
}

/// The bytes of a character that is no control character are none either.
proof fn scalar_bytes(c: char)
    requires
        c as int >= 0x20,
    ensures
        forall|i: int|
            0 <= i < encode_scalar(c as u32).len() ==> #[trigger] encode_scalar(c as u32)[i] >= 0x20,
{
    let c: u32 = c as u32;
    assert(0x20 <= c <= 0x7f ==> (c & 0x7f) as u8 >= 0x20) by (bit_vector);
    assert(forall|b: u8| (0x80u8 | b) >= 0x20u8) by (bit_vector);
    assert(forall|b: u8| (0xc0u8 | b) >= 0x20u8) by (bit_vector);
    assert(forall|b: u8| (0xe0u8 | b) >= 0x20u8) by (bit_vector);
    assert(forall|b: u8| (0xf0u8 | b) >= 0x20u8) by (bit_vector);
}

/// The bytes of a printable text hold no control character.
pub proof fn printable_bytes(s: Seq<char>)
    requires
        printable(s),
    ensures
        forall|i: int| 0 <= i < encode_utf8(s).len() ==> #[trigger] encode_utf8(s)[i] >= 0x20,
    decreases s.len(),
{
    if s.len() > 0 {
        let rest = s.drop_first();
        assert(printable(rest)) by {
            assert forall|i: int| 0 <= i < rest.len() implies (#[trigger] rest[i]) as int
                >= 0x20 by {
                assert(rest[i] == s[i + 1]);
            }
        }
        printable_bytes(rest);
        scalar_bytes(s[0]);
        let head = encode_scalar(s[0] as u32);
        let tail = encode_utf8(rest);
        assert(encode_utf8(s) == head + tail);
        assert forall|i: int| 0 <= i < (head + tail).len() implies #[trigger] (head + tail)[i]
            >= 0x20 by {
            if i >= head.len() {
                assert((head + tail)[i] == tail[i - head.len()]);
            } else {
                assert((head + tail)[i] == head[i]);
            }
        }
    }
}

/// A printable text that is sent with a newline behind it is read as that text, and
/// nothing is left over.
pub proof fn a_sent_line_is_read(s: Seq<char>)
    requires
        printable(s),
    ensures
        has_line(encode_utf8(s).push(10u8)),
        first_line(encode_utf8(s).push(10u8)) == encode_utf8(s),
        after_line(encode_utf8(s).push(10u8)).len() == 0,
{
    let b = encode_utf8(s);
    printable_bytes(s);
    newline_behind(b, Seq::empty());
    assert(b.push(10u8) =~= b + seq![10u8] + Seq::<u8>::empty());
    assert(b.push(10u8).take(b.len() as int) =~= b);
}

/// The first newline stands behind bytes that hold none.
proof fn newline_behind(a: Seq<u8>, rest: Seq<u8>)
    requires
        forall|i: int| 0 <= i < a.len() ==> #[trigger] a[i] != 10,
    ensures
        before_newline(a + seq![10u8] + rest) == a.len(),
    decreases a.len(),
{
    let all = a + seq![10u8] + rest;
    if a.len() > 0 {
        assert(a[0] != 10);
        assert(all[0] == a[0]);
        assert(all.drop_first() =~= a.drop_first() + seq![10u8] + rest);
        newline_behind(a.drop_first(), rest);
    }
}

/// A line ends at the first newline: it is what stands before it, without a carriage
/// return at its end, and what stands behind it is left. Without a newline there is
/// no line.
pub proof fn a_line_ends_at_the_first_newline(a: Seq<u8>, rest: Seq<u8>)
    requires
        forall|i: int| 0 <= i < a.len() ==> #[trigger] a[i] != 10,
    ensures
        !has_line(a),
        has_line(a + seq![10u8] + rest),
        after_line(a + seq![10u8] + rest) == rest,
        first_line(a + seq![10u8] + rest) == (if a.len() > 0 && a[a.len() - 1] == 13 {
            a.take(a.len() - 1)
        } else {
            a
        }),
{
    let all = a + seq![10u8] + rest;
    newline_behind(a, rest);
    assert(all.take(a.len() as int) =~= a);
    assert(all.skip(a.len() as int + 1) =~= rest);
    no_newline(a);
    if a.len() > 0 && a[a.len() - 1] == 13 {
        assert(a.drop_last() =~= a.take(a.len() - 1));
    }
}

/// Where no byte is a newline, all stand before one.
proof fn no_newline(a: Seq<u8>)
    requires
        forall|i: int| 0 <= i < a.len() ==> #[trigger] a[i] != 10,
    ensures
        before_newline(a) == a.len(),
    decreases a.len(),
{
    if a.len() > 0 {
        assert(a[0] != 10);
        no_newline(a.drop_first());
    }
}

/// Nothing that has arrived is lost: a chunk goes behind what is buffered. It stays
/// there while it is within the limit, and is handed out whole beyond it. At the end
/// of the stream what is left is handed out, without a carriage return at its end; a
/// failure keeps it.
pub proof fn nothing_that_arrived_is_lost(buf: Seq<u8>, c: Seq<u8>)
    requires
        c.len() > 0,
    ensures
        buf.len() + c.len() <= 65_536 ==> fed(buf, Some(c)) == (buf + c, FedView::More),
        buf.len() + c.len() > 65_536 ==> fed(buf, Some(c)) == (
            Seq::<u8>::empty(),
            FedView::Line(buf + c),
        ),
        buf.len() == 0 ==> fed(buf, Some(Seq::empty())).1 is End,
        buf.len() > 0 && buf[buf.len() - 1] != 13 ==> fed(buf, Some(Seq::empty())) == (
            Seq::<u8>::empty(),
            FedView::Line(buf),
        ),
        buf.len() > 0 && buf[buf.len() - 1] == 13 ==> fed(buf, Some(Seq::empty())) == (
            Seq::<u8>::empty(),
            FedView::Line(buf.take(buf.len() - 1)),
        ),
        fed(buf, None) == (buf, FedView::End),
{
    assert(buf.len() > 0 ==> buf.drop_last() =~= buf.take(buf.len() - 1));
}

} // verus!
