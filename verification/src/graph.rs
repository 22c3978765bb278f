//! The layout of an encoded value, as far as it has to be known before the value is
//! decoded: a header, and nodes that refer to one another by their places. A decoder
//! that follows lengths, counts and references as they come is safe on bytes whose
//! lengths and counts fit, and whose nesting and unfolded size stay within bounds.

use vstd::prelude::*;

verus! {

/// How many bytes an encoded value may have: as many as the decoder takes. With every
/// node counted as often as it is referred to, it may not have more either.
pub const SIZE_MAX: usize = 0x1000_0000;

/// How many nodes the decoder takes.
pub const NODES_MAX: usize = 10_000_000;

/// How deep nodes, and types within a node, may be nested. The decoder needs up to
/// 20 KiB of stack for a node and 6 KiB for a type where it is not optimised, so that
/// as many of both as this fit in two MiB beside its callers.
pub const NEST_MAX: usize = 64;

/// How many bytes a decoded value takes in a list where addresses have 32 bits, at most.
pub const VALUE_SIZE: usize = 48;

/// How many bytes a decoded type takes in a list where addresses have 32 bits, at most.
pub const TYPE_SIZE: usize = 24;

/// Whether a list can hold so many items of a size. Where addresses have 64 bits it
/// always can.
pub open spec fn room_for(n: int, size: int) -> bool {
    n <= isize::MAX as int / size
}

/// Checks that a list can hold so many items of a size.
fn has_room(n: usize, size: usize) -> (r: bool)
    requires
        size > 0,
    ensures
        r == room_for(n as int, size as int),
{
    n <= isize::MAX as usize / size
}

// Tags, of kinds of nodes and of types alike.
pub const TAG_STRING: u8 = 0x06;

pub const TAG_LIST: u8 = 0x07;

pub const TAG_VARIANT: u8 = 0x08;

pub const TAG_RECORD: u8 = 0x09;

pub const TAG_OPTION: u8 = 0x0a;

pub const TAG_TUPLE: u8 = 0x0b;

pub const TAG_FLAGS: u8 = 0x13;

pub const TAG_RESULT: u8 = 0x14;

pub const TAG_ARRAY: u8 = 0x15;

pub const TAG_MAP: u8 = 0x16;

pub const TAG_SET: u8 = 0x17;

// ---- words, texts and types ------------------------------------------------

/// The number in four bytes, the lowest first.
pub open spec fn word(b: Seq<u8>, at: int) -> int {
    b[at] + 0x100 * b[at + 1] + 0x1_0000 * b[at + 2] + 0x100_0000 * b[at + 3]
}

/// Where a text ends that starts with its length, if it ends by `end`.
pub open spec fn text_end(b: Seq<u8>, at: int, end: int) -> Option<int> {
    if at + 4 <= end && word(b, at) <= end - (at + 4) {
        Some(at + 4 + word(b, at))
    } else {
        None
    }
}

/// Where so many texts end.
pub open spec fn texts_end(b: Seq<u8>, at: int, end: int, n: nat) -> Option<int>
    decreases n,
{
    if n == 0 {
        Some(at)
    } else {
        match text_end(b, at, end) {
            Some(next) => texts_end(b, next, end, (n - 1) as nat),
            None => None,
        }
    }
}

/// Whether a tag is that of a type with nothing inside.
pub open spec fn is_plain(tag: u8) -> bool {
    1 <= tag <= TAG_STRING || TAG_TUPLE < tag <= TAG_FLAGS
}

/// Where a type ends, if it ends by `end` and nothing in it is nested deeper than
/// `depth`.
pub open spec fn type_end(b: Seq<u8>, at: int, end: int, depth: nat) -> Option<int>
    decreases depth, 0nat,
{
    if at >= end {
        None
    } else if is_plain(b[at]) {
        Some(at + 1)
    } else if b[at] == TAG_RECORD || b[at] == TAG_VARIANT {
        text_end(b, at + 1, end)
    } else if depth == 0 {
        None
    } else if b[at] == TAG_LIST || b[at] == TAG_OPTION || b[at] == TAG_SET {
        types_end(b, at + 1, end, 1, (depth - 1) as nat)
    } else if b[at] == TAG_RESULT || b[at] == TAG_MAP {
        types_end(b, at + 1, end, 2, (depth - 1) as nat)
    } else if b[at] == TAG_TUPLE && at + 5 <= end && word(b, at + 1) <= end - (at + 5)
        && room_for(word(b, at + 1), TYPE_SIZE as int) {
        types_end(b, at + 5, end, word(b, at + 1) as nat, (depth - 1) as nat)
    } else {
        None
    }
}

/// Where so many types end.
pub open spec fn types_end(b: Seq<u8>, at: int, end: int, n: nat, depth: nat) -> Option<int>
    decreases depth, n + 1,
{
    if n == 0 {
        Some(at)
    } else {
        match type_end(b, at, end, depth) {
            Some(next) => types_end(b, next, end, (n - 1) as nat, depth),
            None => None,
        }
    }
}

/// Reads a word.
fn word_at(b: &[u8], at: usize) -> (r: u32)
    requires
        at + 4 <= b@.len(),
    ensures
        r == word(b@, at as int),
{
    b[at] as u32 + 0x100 * b[at + 1] as u32 + 0x1_0000 * b[at + 2] as u32 + 0x100_0000 * b[at
        + 3] as u32
}

/// Finds the end of a text.
fn find_text_end(b: &[u8], at: usize, end: usize) -> (r: Option<usize>)
    requires
        at <= end <= b@.len(),
    ensures
        match r {
            Some(t) => text_end(b@, at as int, end as int) == Some(t as int) && at < t <= end,
            None => text_end(b@, at as int, end as int) is None,
        },
{
    if end - at < 4 {
        return None;
    }
    let n: usize = word_at(b, at) as usize;
    if n <= end - (at + 4) {
        Some(at + 4 + n)
    } else {
        None
    }
}

/// Finds the end of so many texts.
fn find_texts_end(b: &[u8], at: usize, end: usize, n: usize) -> (r: Option<usize>)
    requires
        at <= end <= b@.len(),
    ensures
        match r {
            Some(t) => texts_end(b@, at as int, end as int, n as nat) == Some(t as int) && at <= t
                <= end,
            None => texts_end(b@, at as int, end as int, n as nat) is None,
        },
{
    let mut here: usize = at;
    let mut left: usize = n;
    while left > 0
        invariant
            at <= here <= end <= b@.len(),
            left <= n,
            texts_end(b@, at as int, end as int, n as nat) == texts_end(
                b@,
                here as int,
                end as int,
                left as nat,
            ),
        decreases left,
    {
        match find_text_end(b, here, end) {
            Some(t) => {
                here = t;
            },
            None => {
                return None;
            },
        }
        left -= 1;
    }
    Some(here)
}

/// Finds the end of a type.
fn find_type_end(b: &[u8], at: usize, end: usize, depth: usize) -> (r: Option<usize>)
    requires
        at <= end <= b@.len(),
    ensures
        match r {
            Some(t) => type_end(b@, at as int, end as int, depth as nat) == Some(t as int) && at < t
                <= end,
            None => type_end(b@, at as int, end as int, depth as nat) is None,
        },
    decreases depth, 0nat,
{
    if at >= end {
        return None;
    }
    let tag: u8 = b[at];
    if (1 <= tag && tag <= TAG_STRING) || (TAG_TUPLE < tag && tag <= TAG_FLAGS) {
        Some(at + 1)
    } else if tag == TAG_RECORD || tag == TAG_VARIANT {
        find_text_end(b, at + 1, end)
    } else if depth == 0 {
        None
    } else if tag == TAG_LIST || tag == TAG_OPTION || tag == TAG_SET {
        find_types_end(b, at + 1, end, 1, depth - 1)
    } else if tag == TAG_RESULT || tag == TAG_MAP {
        find_types_end(b, at + 1, end, 2, depth - 1)
    } else if tag == TAG_TUPLE && end - at >= 5 {
        let n: usize = word_at(b, at + 1) as usize;
        if n <= end - (at + 5) && has_room(n, TYPE_SIZE) {
            find_types_end(b, at + 5, end, n, depth - 1)
        } else {
            None
        }
    } else {
        None
    }
}

/// Finds the end of so many types.
fn find_types_end(b: &[u8], at: usize, end: usize, n: usize, depth: usize) -> (r: Option<usize>)
    requires
        at <= end <= b@.len(),
    ensures
        match r {
            Some(t) => types_end(b@, at as int, end as int, n as nat, depth as nat) == Some(
                t as int,
            ) && at <= t <= end,
            None => types_end(b@, at as int, end as int, n as nat, depth as nat) is None,
        },
    decreases depth, 1nat,
{
    let mut here: usize = at;
    let mut left: usize = n;
    while left > 0
        invariant
            at <= here <= end <= b@.len(),
            left <= n,
            types_end(b@, at as int, end as int, n as nat, depth as nat) == types_end(
                b@,
                here as int,
                end as int,
                left as nat,
                depth as nat,
            ),
        decreases left,
    {
        match find_type_end(b, here, end, depth) {
            Some(t) => {
                here = t;
            },
            None => {
                return None;
            },
        }
        left -= 1;
    }
    Some(here)
}

// ---- nodes -----------------------------------------------------------------

/// A node: its kind, and where its payload starts and ends.
pub struct Frame {
    pub kind: u8,
    pub at: usize,
    pub end: usize,
}

/// The nodes, so many one behind the other from `at` to the end of the bytes.
pub open spec fn frames(b: Seq<u8>, at: int, n: nat) -> Option<Seq<Frame>>
    decreases n,
{
    if n == 0 {
        if at == b.len() {
            Some(Seq::empty())
        } else {
            None
        }
    } else if at + 8 <= b.len() && word(b, at + 4) <= b.len() - (at + 8) {
        let end = at + 8 + word(b, at + 4);
        match frames(b, end, (n - 1) as nat) {
            Some(rest) => Some(
                seq![Frame { kind: b[at], at: (at + 8) as usize, end: end as usize }] + rest,
            ),
            None => None,
        }
    } else {
        None
    }
}

/// Where the references of a node stand in its payload.
pub struct Kids {
    pub at: int,
    pub n: nat,
}

/// References behind their count, one for an item or two.
pub open spec fn counted(b: Seq<u8>, at: int, end: int, pairs: bool) -> Option<Kids> {
    let items = if pairs {
        2
    } else {
        1int
    };
    if at + 4 <= end && word(b, at) <= (end - (at + 4)) / (4 * items) && room_for(
        word(b, at),
        items * VALUE_SIZE,
    ) {
        Some(
            Kids {
                at: at + 4,
                n: (items * word(b, at)) as nat,
            },
        )
    } else {
        None
    }
}

/// A reference behind a byte that says whether there is one.
pub open spec fn optional(b: Seq<u8>, at: int, end: int) -> Option<Kids> {
    if at >= end {
        None
    } else if b[at] != 1 {
        Some(Kids { at: at + 1, n: 0 })
    } else if at + 5 <= end {
        Some(Kids { at: at + 1, n: 1 })
    } else {
        None
    }
}

/// The references of a record: behind its name, the number of its fields and their
/// names.
pub open spec fn record_kids(b: Seq<u8>, at: int, end: int) -> Option<Kids> {
    match text_end(b, at, end) {
        Some(t) => match counted(b, t, end, false) {
            Some(k) => match texts_end(b, k.at, end, k.n) {
                Some(u) => if k.n <= (end - u) / 4 {
                    Some(Kids { at: u, n: k.n })
                } else {
                    None
                },
                None => None,
            },
            None => None,
        },
        None => None,
    }
}

/// The references of a variant: behind its name, that of its case, and a tag.
pub open spec fn variant_kids(b: Seq<u8>, at: int, end: int) -> Option<Kids> {
    match texts_end(b, at, end, 2) {
        Some(t) => if t + 4 <= end {
            counted(b, t + 4, end, false)
        } else {
            None
        },
        None => None,
    }
}

/// The references of a node whose payload starts with so many types.
pub open spec fn typed_kids(b: Seq<u8>, f: Frame, types: nat) -> Option<Kids> {
    match types_end(b, f.at as int, f.end as int, types, NEST_MAX as nat) {
        Some(t) => if f.kind == TAG_OPTION {
            optional(b, t, f.end as int)
        } else if f.kind == TAG_RESULT {
            if t + 4 <= f.end {
                optional(b, t + 4, f.end as int)
            } else {
                None
            }
        } else if f.kind == TAG_ARRAY {
            if t + 4 <= f.end && word(b, t) <= f.end - (t + 4) && room_for(
                word(b, t),
                VALUE_SIZE as int,
            ) {
                Some(Kids { at: t + 4, n: 0 })
            } else {
                None
            }
        } else {
            counted(b, t, f.end as int, f.kind == TAG_MAP)
        },
        None => None,
    }
}

/// The references of a node; `None` where a length or a count does not fit, or a type
/// is nested too deep.
pub open spec fn kids(b: Seq<u8>, f: Frame) -> Option<Kids> {
    if f.kind == TAG_STRING {
        match text_end(b, f.at as int, f.end as int) {
            Some(t) => Some(Kids { at: t, n: 0 }),
            None => None,
        }
    } else if f.kind == TAG_TUPLE {
        counted(b, f.at as int, f.end as int, false)
    } else if f.kind == TAG_RECORD {
        record_kids(b, f.at as int, f.end as int)
    } else if f.kind == TAG_VARIANT {
        variant_kids(b, f.at as int, f.end as int)
    } else if f.kind == TAG_LIST || f.kind == TAG_SET || f.kind == TAG_OPTION || f.kind
        == TAG_ARRAY {
        typed_kids(b, f, 1)
    } else if f.kind == TAG_MAP || f.kind == TAG_RESULT {
        typed_kids(b, f, 2)
    } else {
        Some(Kids { at: f.at as int, n: 0 })
    }
}

/// How many bytes a node takes with all that it refers to; `None` where that cannot be
/// told, or nodes are nested deeper than `depth`.
pub open spec fn weight(b: Seq<u8>, nodes: Seq<Frame>, i: int, depth: nat) -> Option<nat>
    decreases depth, 0nat,
{
    if depth == 0 || i >= nodes.len() {
        None
    } else {
        match kids(b, nodes[i]) {
            Some(k) => match weights(b, nodes, k.at, k.n, (depth - 1) as nat) {
                Some(w) => Some((w + 8 + (nodes[i].end - nodes[i].at)) as nat),
                None => None,
            },
            None => None,
        }
    }
}

/// How many bytes the nodes take that so many references lead to.
pub open spec fn weights(
    b: Seq<u8>,
    nodes: Seq<Frame>,
    at: int,
    n: nat,
    depth: nat,
) -> Option<nat>
    decreases depth, n + 1,
{
    if n == 0 {
        Some(0)
    } else {
        match (
            weight(b, nodes, word(b, at), depth),
            weights(b, nodes, at + 4, (n - 1) as nat, depth),
        ) {
            (Some(w), Some(rest)) => Some(w + rest),
            _ => None,
        }
    }
}

/// Whether a decoder looks into a node before it knows that anything refers to it.
pub open spec fn is_leading(kind: u8) -> bool {
    kind == TAG_STRING || kind == TAG_TUPLE || kind == TAG_ARRAY
}

/// Whether bytes can be decoded within bounds: every length and every count fits the
/// bytes that are there and the memory that can be addressed, types and nodes are not
/// nested too deep, and the value does not unfold to more than its limit.
pub open spec fn bounded(b: Seq<u8>) -> bool {
    &&& 16 <= b.len() <= SIZE_MAX
    &&& word(b, 8) <= NODES_MAX
    &&& match frames(b, 16, word(b, 8) as nat) {
        Some(nodes) => {
            &&& forall|i: int|
                0 <= i < nodes.len() && is_leading((#[trigger] nodes[i]).kind) ==> kids(
                    b,
                    nodes[i],
                ) is Some
            &&& weight(b, nodes, word(b, 12), NEST_MAX as nat) matches Some(w) && w <= SIZE_MAX
        },
        None => false,
    }
}

// ---- the check -------------------------------------------------------------

/// Where the references of a node stand, and how many they are.
struct Refs {
    at: usize,
    n: usize,
}

/// What was found of the references of a node is what there is to find.
spec fn refs_found(r: Option<Refs>, k: Option<Kids>, end: usize) -> bool {
    match (r, k) {
        (Some(refs), Some(kids)) => refs.at == kids.at && refs.n == kids.n && refs.at + 4 * refs.n
            <= end,
        (None, None) => true,
        _ => false,
    }
}

/// Finds references behind their count.
fn find_counted(b: &[u8], at: usize, end: usize, pairs: bool) -> (r: Option<Refs>)
    requires
        at <= end <= b@.len(),
        b@.len() <= SIZE_MAX,
    ensures
        refs_found(r, counted(b@, at as int, end as int, pairs), end),
{
    if end - at < 4 {
        return None;
    }
    let n: usize = word_at(b, at) as usize;
    let left: usize = end - (at + 4);
    if pairs {
        if n <= left / 8 && has_room(n, 2 * VALUE_SIZE) {
            Some(Refs { at: at + 4, n: 2 * n })
        } else {
            None
        }
    } else if n <= left / 4 && has_room(n, VALUE_SIZE) {
        Some(Refs { at: at + 4, n })
    } else {
        None
    }
}

/// Finds a reference behind a byte that says whether there is one.
fn find_optional(b: &[u8], at: usize, end: usize) -> (r: Option<Refs>)
    requires
        at <= end <= b@.len(),
    ensures
        refs_found(r, optional(b@, at as int, end as int), end),
{
    if at >= end {
        None
    } else if b[at] != 1 {
        Some(Refs { at: at + 1, n: 0 })
    } else if end - at >= 5 {
        Some(Refs { at: at + 1, n: 1 })
    } else {
        None
    }
}

/// Finds the references of a record.
fn find_record_refs(b: &[u8], at: usize, end: usize) -> (r: Option<Refs>)
    requires
        at <= end <= b@.len(),
        b@.len() <= SIZE_MAX,
    ensures
        refs_found(r, record_kids(b@, at as int, end as int), end),
{
    let t: usize = match find_text_end(b, at, end) {
        Some(t) => t,
        None => {
            return None;
        },
    };
    let k = match find_counted(b, t, end, false) {
        Some(k) => k,
        None => {
            return None;
        },
    };
    match find_texts_end(b, k.at, end, k.n) {
        Some(u) => if k.n <= (end - u) / 4 {
            Some(Refs { at: u, n: k.n })
        } else {
            None
        },
        None => None,
    }
}

/// Finds the references of a variant.
fn find_variant_refs(b: &[u8], at: usize, end: usize) -> (r: Option<Refs>)
    requires
        at <= end <= b@.len(),
        b@.len() <= SIZE_MAX,
    ensures
        refs_found(r, variant_kids(b@, at as int, end as int), end),
{
    match find_texts_end(b, at, end, 2) {
        Some(t) => if end - t >= 4 {
            find_counted(b, t + 4, end, false)
        } else {
            None
        },
        None => None,
    }
}

/// Finds the references of a node whose payload starts with so many types.
fn find_typed_refs(b: &[u8], f: &Frame, types: usize) -> (r: Option<Refs>)
    requires
        f.at <= f.end <= b@.len(),
        b@.len() <= SIZE_MAX,
    ensures
        refs_found(r, typed_kids(b@, *f, types as nat), f.end),
{
    let t: usize = match find_types_end(b, f.at, f.end, types, NEST_MAX) {
        Some(t) => t,
        None => {
            return None;
        },
    };
    if f.kind == TAG_OPTION {
        find_optional(b, t, f.end)
    } else if f.kind == TAG_RESULT {
        if f.end - t >= 4 {
            find_optional(b, t + 4, f.end)
        } else {
            None
        }
    } else if f.kind == TAG_ARRAY {
        if f.end - t >= 4 && word_at(b, t) as usize <= f.end - (t + 4) && has_room(
            word_at(b, t) as usize,
            VALUE_SIZE,
        ) {
            Some(Refs { at: t + 4, n: 0 })
        } else {
            None
        }
    } else {
        find_counted(b, t, f.end, f.kind == TAG_MAP)
    }
}

/// Finds the references of a node.
fn find_refs(b: &[u8], f: &Frame) -> (r: Option<Refs>)
    requires
        f.at <= f.end <= b@.len(),
        b@.len() <= SIZE_MAX,
    ensures
        refs_found(r, kids(b@, *f), f.end),
{
    if f.kind == TAG_STRING {
        match find_text_end(b, f.at, f.end) {
            Some(t) => Some(Refs { at: t, n: 0 }),
            None => None,
        }
    } else if f.kind == TAG_TUPLE {
        find_counted(b, f.at, f.end, false)
    } else if f.kind == TAG_RECORD {
        find_record_refs(b, f.at, f.end)
    } else if f.kind == TAG_VARIANT {
        find_variant_refs(b, f.at, f.end)
    } else if f.kind == TAG_LIST || f.kind == TAG_SET || f.kind == TAG_OPTION || f.kind
        == TAG_ARRAY {
        find_typed_refs(b, f, 1)
    } else if f.kind == TAG_MAP || f.kind == TAG_RESULT {
        find_typed_refs(b, f, 2)
    } else {
        Some(Refs { at: f.at, n: 0 })
    }
}

/// Whether the payloads of nodes are within the bytes.
spec fn within(b: Seq<u8>, nodes: Seq<Frame>) -> bool {
    forall|i: int|
        0 <= i < nodes.len() ==> (#[trigger] nodes[i]).at <= nodes[i].end <= b.len()
}

/// Finds the nodes.
fn find_frames(b: &[u8]) -> (r: Option<Vec<Frame>>)
    requires
        16 <= b@.len() <= SIZE_MAX,
    ensures
        match r {
            Some(nodes) => frames(b@, 16, word(b@, 8) as nat) == Some(nodes@) && within(
                b@,
                nodes@,
            ),
            None => frames(b@, 16, word(b@, 8) as nat) is None,
        },
{
    let n: u32 = word_at(b, 8);
    let mut nodes: Vec<Frame> = Vec::new();
    let mut at: usize = 16;
    let mut left: u32 = n;
    proof {
        match frames(b@, 16, n as nat) {
            Some(rest) => {
                assert(nodes@ + rest =~= rest);
            },
            None => {},
        }
    }
    while left > 0
        invariant
            16 <= at <= b@.len() <= SIZE_MAX,
            left <= n,
            n == word(b@, 8),
            within(b@, nodes@),
            match (frames(b@, 16, n as nat), frames(b@, at as int, left as nat)) {
                (Some(all), Some(rest)) => all == nodes@ + rest,
                (None, None) => true,
                _ => false,
            },
        decreases left,
    {
        if b.len() - at < 8 {
            return None;
        }
        let size: usize = word_at(b, at + 4) as usize;
        if size > b.len() - (at + 8) {
            return None;
        }
        let end: usize = at + 8 + size;
        let f = Frame { kind: b[at], at: at + 8, end };
        proof {
            match frames(b@, end as int, (left - 1) as nat) {
                Some(rest) => {
                    assert(nodes@ + (seq![f] + rest) =~= nodes@.push(f) + rest);
                },
                None => {},
            }
        }
        nodes.push(f);
        at = end;
        left -= 1;
    }
    if at == b.len() {
        assert(nodes@ + Seq::<Frame>::empty() =~= nodes@);
        Some(nodes)
    } else {
        None
    }
}

/// Weighs a node with all that it refers to, up to a limit.
fn weigh(b: &[u8], nodes: &Vec<Frame>, i: usize, depth: usize, limit: usize) -> (r: Option<usize>)
    requires
        b@.len() <= SIZE_MAX,
        limit <= SIZE_MAX,
        within(b@, nodes@),
    ensures
        match r {
            Some(w) => weight(b@, nodes@, i as int, depth as nat) == Some(w as nat) && w <= limit,
            None => weight(b@, nodes@, i as int, depth as nat) matches Some(w) ==> w > limit,
        },
    decreases depth,
{
    if depth == 0 || i >= nodes.len() {
        return None;
    }
    let own: usize = 8 + (nodes[i].end - nodes[i].at);
    if own > limit {
        return None;
    }
    let k = match find_refs(b, &nodes[i]) {
        Some(k) => k,
        None => {
            return None;
        },
    };
    let mut spent: usize = own;
    let mut at: usize = k.at;
    let mut left: usize = k.n;
    let ghost all = weights(b@, nodes@, k.at as int, k.n as nat, (depth - 1) as nat);
    while left > 0
        invariant
            depth > 0,
            i < nodes@.len(),
            b@.len() <= SIZE_MAX,
            limit <= SIZE_MAX,
            within(b@, nodes@),
            own == 8 + (nodes@[i as int].end - nodes@[i as int].at),
            own <= spent <= limit,
            kids(b@, nodes@[i as int]) is Some,
            all == weights(
                b@,
                nodes@,
                kids(b@, nodes@[i as int])->0.at,
                kids(b@, nodes@[i as int])->0.n,
                (depth - 1) as nat,
            ),
            at + 4 * left <= b@.len(),
            match (all, weights(b@, nodes@, at as int, left as nat, (depth - 1) as nat)) {
                (Some(w), Some(rest)) => w == spent - own + rest,
                (None, None) => true,
                _ => false,
            },
        ensures
            left == 0,
        decreases left,
    {
        match weigh(b, nodes, word_at(b, at) as usize, depth - 1, limit - spent) {
            Some(w) => {
                spent += w;
            },
            None => {
                assert(all matches Some(w) ==> w + own > limit);
                return None;
            },
        }
        at += 4;
        left -= 1;
    }
    Some(spent)
}

/// Checks that bytes can be decoded within bounds.
pub fn is_bounded(b: &[u8]) -> (r: bool)
    ensures
        r == bounded(b@),
{
    if b.len() < 16 || b.len() > SIZE_MAX || word_at(b, 8) as usize > NODES_MAX {
        return false;
    }
    let nodes = match find_frames(b) {
        Some(nodes) => nodes,
        None => {
            return false;
        },
    };
    let mut i: usize = 0;
    while i < nodes.len()
        invariant
            16 <= b@.len() <= SIZE_MAX,
            i <= nodes@.len(),
            within(b@, nodes@),
            frames(b@, 16, word(b@, 8) as nat) == Some(nodes@),
            forall|j: int|
                0 <= j < i && is_leading((#[trigger] nodes@[j]).kind) ==> kids(
                    b@,
                    nodes@[j],
                ) is Some,
        decreases nodes@.len() - i,
    {
        let kind: u8 = nodes[i].kind;
        if (kind == TAG_STRING || kind == TAG_TUPLE || kind == TAG_ARRAY) && find_refs(
            b,
            &nodes[i],
        ).is_none() {
            return false;
        }
        i += 1;
    }
    weigh(b, &nodes, word_at(b, 12) as usize, NEST_MAX, SIZE_MAX).is_some()
}

// ---- what is let through ---------------------------------------------------

/// Variants that each hold the next, up to 64 of them, are within bounds whatever their
/// names, as long as the bytes are no more than a value may have. Node `i` starts at
/// `at[i]`, with a type name of `names[i]` bytes and a case name of `cases[i]` bytes.
pub proof fn nested_variants_are_within_bounds(
    b: Seq<u8>,
    at: Seq<int>,
    names: Seq<int>,
    cases: Seq<int>,
)
    requires
        1 <= names.len() <= 64,
        at.len() == names.len() + 1,
        cases.len() == names.len(),
        b.len() <= 0x1000_0000,
        at[0] == 16,
        at[names.len() as int] == b.len(),
        word(b, 8) == names.len(),
        word(b, 12) == 0,
        forall|i: int|
            0 <= i < names.len() ==> holds_next(
                b,
                at[i],
                #[trigger] names[i],
                cases[i],
                at[i + 1],
                if i + 1 < names.len() {
                    Some(i + 1)
                } else {
                    None
                },
            ),
    ensures
        bounded(b),
{
    let n = names.len();
    chain_frames(b, at, names, cases, 0);
    let nodes = chain_nodes(at, 0, n);
    chain_weight(b, at, names, cases, 0, 64);
    assert forall|i: int| 0 <= i < nodes.len() implies !is_leading((#[trigger] nodes[i]).kind) by {}
}

/// Whether a variant with names of these lengths stands between two places, holding the
/// node at a place or nothing.
pub open spec fn holds_next(
    b: Seq<u8>,
    at: int,
    name: int,
    case: int,
    end: int,
    next: Option<int>,
) -> bool {
    let count = at + 20 + name + case;
    &&& name >= 0 && case >= 0
    &&& b[at] == 8
    &&& word(b, at + 4) == end - (at + 8)
    &&& word(b, at + 8) == name
    &&& word(b, at + 12 + name) == case
    &&& match next {
        Some(i) => word(b, count) == 1 && word(b, count + 4) == i && end == count + 8,
        None => word(b, count) == 0 && end == count + 4,
    }
}

/// The nodes of a chain, from one on.
spec fn chain_nodes(at: Seq<int>, k: int, n: nat) -> Seq<Frame> {
    Seq::new(
        (n - k) as nat,
        |j: int| Frame { kind: 8, at: (at[k + j] + 8) as usize, end: at[k + j + 1] as usize },
    )
}

/// The nodes of a chain are found one behind the other.
proof fn chain_frames(b: Seq<u8>, at: Seq<int>, names: Seq<int>, cases: Seq<int>, k: int)
    requires
        0 <= k <= names.len(),
        at.len() == names.len() + 1,
        b.len() <= 0x1000_0000,
        at[names.len() as int] == b.len(),
        forall|i: int|
            0 <= i < names.len() ==> holds_next(
                b,
                at[i],
                #[trigger] names[i],
                cases[i],
                at[i + 1],
                if i + 1 < names.len() {
                    Some(i + 1)
                } else {
                    None
                },
            ),
    ensures
        frames(b, at[k], (names.len() - k) as nat) == Some(chain_nodes(at, k, names.len())),
        at[k] <= b.len(),
    decreases names.len() - k,
{
    let n = names.len();
    if k < n {
        chain_frames(b, at, names, cases, k + 1);
        assert(names[k] >= 0);
        let f = Frame { kind: 8, at: (at[k] + 8) as usize, end: at[k + 1] as usize };
        assert(seq![f] + chain_nodes(at, k + 1, n) =~= chain_nodes(at, k, n));
    } else {
        assert(chain_nodes(at, k, n) =~= Seq::empty());
    }
}

/// A chain takes the bytes from its first node to the end.
proof fn chain_weight(
    b: Seq<u8>,
    at: Seq<int>,
    names: Seq<int>,
    cases: Seq<int>,
    k: int,
    depth: nat,
)
    requires
        0 <= k < names.len(),
        names.len() - k <= depth,
        at[0] == 16,
        at.len() == names.len() + 1,
        b.len() <= 0x1000_0000,
        at[names.len() as int] == b.len(),
        forall|i: int|
            0 <= i < names.len() ==> holds_next(
                b,
                at[i],
                #[trigger] names[i],
                cases[i],
                at[i + 1],
                if i + 1 < names.len() {
                    Some(i + 1)
                } else {
                    None
                },
            ),
    ensures
        weight(b, chain_nodes(at, 0, names.len()), k, depth) == Some((b.len() - at[k]) as nat),
        at[k] >= 16,
    decreases names.len() - k,
{
    let n = names.len();
    let nodes = chain_nodes(at, 0, n);
    places_grow(b, at, names, cases, k);
    places_grow(b, at, names, cases, k + 1);
    chain_frames(b, at, names, cases, k);
    chain_frames(b, at, names, cases, k + 1);
    assert(names[k] >= 0);
    let f = nodes[k];
    assert(f == (Frame { kind: 8, at: (at[k] + 8) as usize, end: at[k + 1] as usize }));
    assert(f.at == at[k] + 8 && f.end == at[k + 1]);
    let next = if k + 1 < n {
        Some(k + 1)
    } else {
        None
    };
    one_variant(b, f, at[k], names[k], cases[k], at[k + 1], next);
    let refs = at[k] + 24 + names[k] + cases[k];
    if k + 1 < n {
        chain_weight(b, at, names, cases, k + 1, (depth - 1) as nat);
        one_reference(b, nodes, refs, (depth - 1) as nat);
    }
}

/// The references of a variant in a chain: one, or none.
proof fn one_variant(
    b: Seq<u8>,
    f: Frame,
    at: int,
    name: int,
    case: int,
    end: int,
    next: Option<int>,
)
    requires
        holds_next(b, at, name, case, end, next),
        f.kind == 8,
        f.at == at + 8,
        f.end == end,
    ensures
        kids(b, f) == Some(
            Kids {
                at: at + 24 + name + case,
                n: if next is Some {
                    1
                } else {
                    0
                },
            },
        ),
{
    let t = at + 16 + name + case;
    assert(text_end(b, at + 8, end) == Some(at + 12 + name));
    assert(text_end(b, at + 12 + name, end) == Some(t));
    assert(texts_end(b, t, end, 0) == Some(t));
    assert(texts_end(b, at + 12 + name, end, 1) == Some(t));
    assert(texts_end(b, at + 8, end, 2) == Some(t));
    assert(room_for(1, VALUE_SIZE as int) && room_for(0, VALUE_SIZE as int));
}

/// One reference weighs what it leads to.
proof fn one_reference(b: Seq<u8>, nodes: Seq<Frame>, at: int, depth: nat)
    ensures
        weights(b, nodes, at, 1, depth) == weight(b, nodes, word(b, at), depth),
{
    assert(weights(b, nodes, at + 4, 0, depth) == Some(0nat));
}

/// The places of a chain lie behind the header.
proof fn places_grow(b: Seq<u8>, at: Seq<int>, names: Seq<int>, cases: Seq<int>, k: int)
    requires
        0 <= k <= names.len(),
        at[0] == 16,
        forall|i: int|
            0 <= i < names.len() ==> holds_next(
                b,
                at[i],
                #[trigger] names[i],
                cases[i],
                at[i + 1],
                if i + 1 < names.len() {
                    Some(i + 1)
                } else {
                    None
                },
            ),
    ensures
        at[k] >= 16,
    decreases k,
{
    if k > 0 {
        places_grow(b, at, names, cases, k - 1);
        assert(names[k - 1] >= 0);
    }
}

} // verus!
