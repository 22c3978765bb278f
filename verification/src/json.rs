//! JSON: the documents that cross the control surface, and the escaping of the
//! texts that are written into them by hand.

use crate::hex::{hex_digit, nibble};
use crate::text::{chars_of, dec, numbers_are_printable, printable, same, text_less};
use serde_json::Value;
use vstd::prelude::*;
use vstd::utf8::encode_utf8;

verus! {

/// `serde_json::Number`, carried where a number is no 64-bit integer.
#[verifier::external_type_specification]
#[verifier::external_body]
pub struct ExNumber(serde_json::Number);

/// `serde_json::Value`, which only the two conversions below look into.
#[verifier::external_type_specification]
#[verifier::external_body]
pub struct ExValue(serde_json::Value);

/// A JSON document.
pub enum Json {
    Null,
    Bool(bool),
    /// An integer that is not negative.
    Uint(u64),
    /// A negative integer.
    Int(i64),
    /// Any other number.
    Float(serde_json::Number),
    Text(String),
    Array(Vec<Json>),
    /// The entries of an object, each key once.
    Object(Vec<(String, Json)>),
}

/// What a JSON document is: the same tree over mathematical values.
pub enum JsonView {
    Null,
    Bool(bool),
    Uint(u64),
    Int(i64),
    Float(serde_json::Number),
    Text(Seq<char>),
    Array(Seq<JsonView>),
    Object(Seq<(Seq<char>, JsonView)>),
}

/// The tree that a document stands for.
pub open spec fn json_view(j: Json) -> JsonView
    decreases j,
{
    match j {
        Json::Null => JsonView::Null,
        Json::Bool(b) => JsonView::Bool(b),
        Json::Uint(n) => JsonView::Uint(n),
        Json::Int(n) => JsonView::Int(n),
        Json::Float(n) => JsonView::Float(n),
        Json::Text(s) => JsonView::Text(s@),
        Json::Array(items) => JsonView::Array(
            Seq::new(
                items@.len(),
                |i: int|
                    if 0 <= i < items@.len() {
                        json_view(items@[i])
                    } else {
                        JsonView::Null
                    },
            ),
        ),
        Json::Object(entries) => JsonView::Object(
            Seq::new(
                entries@.len(),
                |i: int|
                    if 0 <= i < entries@.len() {
                        (entries@[i].0@, json_view(entries@[i].1))
                    } else {
                        (Seq::empty(), JsonView::Null)
                    },
            ),
        ),
    }
}

impl View for Json {
    type V = JsonView;

    open spec fn view(&self) -> JsonView {
        json_view(*self)
    }
}

/// The entry of a key among entries: the first with that key.
pub open spec fn entry(entries: Seq<(Seq<char>, JsonView)>, key: Seq<char>) -> Option<JsonView>
    decreases entries.len(),
{
    if entries.len() == 0 {
        None
    } else if entries[0].0 == key {
        Some(entries[0].1)
    } else {
        entry(entries.drop_first(), key)
    }
}

impl JsonView {
    /// The member of an object; nothing else has members.
    pub open spec fn get(self, key: Seq<char>) -> Option<JsonView> {
        match self {
            JsonView::Object(entries) => entry(entries, key),
            _ => None,
        }
    }

    /// The text of a text.
    pub open spec fn text(self) -> Option<Seq<char>> {
        match self {
            JsonView::Text(s) => Some(s),
            _ => None,
        }
    }

    /// The text of a member that is a text.
    pub open spec fn text_at(self, key: Seq<char>) -> Option<Seq<char>> {
        match self.get(key) {
            Some(v) => v.text(),
            None => None,
        }
    }
}

impl Json {
    /// The member of an object.
    pub fn get(&self, key: &str) -> (r: Option<&Json>)
        ensures
            match r {
                Some(j) => self@.get(key@) == Some(j@),
                None => self@.get(key@) is None,
            },
    {
        match self {
            Json::Object(entries) => {
                let mut i: usize = 0;
                let ghost all = self@->Object_0;
                assert(all.skip(0) =~= all);
                while i < entries.len()
                    invariant
                        i <= entries@.len(),
                        all == self@->Object_0,
                        *self == Json::Object(*entries),
                        entry(all, key@) == entry(all.skip(i as int), key@),
                    decreases entries@.len() - i,
                {
                    assert(all.skip(i as int)[0] == all[i as int]);
                    if same(entries[i].0.as_str(), key) {
                        return Some(&entries[i].1);
                    }
                    assert(all.skip(i as int).drop_first() =~= all.skip(i + 1));
                    i += 1;
                }
                None
            },
            _ => None,
        }
    }

    /// The member of an object, taken out of it.
    pub fn into_member(self, key: &str) -> (r: Option<Json>)
        ensures
            match r {
                Some(j) => self@.get(key@) == Some(j@),
                None => self@.get(key@) is None,
            },
    {
        let ghost view = self@;
        match self {
            Json::Object(entries) => {
                let mut entries = entries;
                let mut i: usize = 0;
                assert(view == json_view(Json::Object(entries)));
                let ghost all = view->Object_0;
                assert(all.skip(0) =~= all);
                while i < entries.len()
                    invariant
                        i <= entries@.len(),
                        view == self@,
                        view == json_view(Json::Object(entries)),
                        all == view->Object_0,
                        entry(all, key@) == entry(all.skip(i as int), key@),
                    decreases entries@.len() - i,
                {
                    assert(all.skip(i as int)[0] == all[i as int]);
                    if same(entries[i].0.as_str(), key) {
                        let (_, j) = entries.remove(i);
                        return Some(j);
                    }
                    assert(all.skip(i as int).drop_first() =~= all.skip(i + 1));
                    i += 1;
                }
                None
            },
            _ => None,
        }
    }

    /// The text of a text.
    pub fn as_text(&self) -> (r: Option<&String>)
        ensures
            match r {
                Some(s) => self@.text() == Some(s@),
                None => self@.text() is None,
            },
    {
        match self {
            Json::Text(s) => Some(s),
            _ => None,
        }
    }

    /// The text of a member that is a text.
    pub fn text_at(&self, key: &str) -> (r: Option<String>)
        ensures
            match r {
                Some(s) => self@.text_at(key@) == Some(s@),
                None => self@.text_at(key@) is None,
            },
    {
        match self.get(key) {
            Some(j) => match j.as_text() {
                Some(s) => Some(s.clone()),
                None => None,
            },
            None => None,
        }
    }
}

// ---- reading and writing documents -----------------------------------------

/// The text of a document that is written by hand, without white space. A number
/// that is no 64-bit integer is not written.
pub open spec fn doc_text(v: JsonView) -> Seq<char>
    decreases v,
{
    match v {
        JsonView::Null => "null"@,
        JsonView::Bool(b) => if b {
            "true"@
        } else {
            "false"@
        },
        JsonView::Uint(n) => dec(n as nat),
        JsonView::Int(n) => "-"@ + dec((-n) as nat),
        JsonView::Float(_) => Seq::empty(),
        JsonView::Text(s) => "\""@ + escaped(s) + "\""@,
        JsonView::Array(items) => "["@ + items_text(items) + "]"@,
        JsonView::Object(entries) => "{"@ + members_text(entries) + "}"@,
    }
}

/// The texts of documents, with commas between neighbours.
pub open spec fn items_text(items: Seq<JsonView>) -> Seq<char>
    decreases items,
{
    if items.len() == 0 {
        Seq::empty()
    } else if items.len() == 1 {
        doc_text(items[0])
    } else {
        items_text(items.drop_last()) + ","@ + doc_text(items[items.len() - 1])
    }
}

/// The texts of members, with commas between neighbours. The keys are written as
/// they are.
pub open spec fn members_text(entries: Seq<(Seq<char>, JsonView)>) -> Seq<char>
    decreases entries,
{
    if entries.len() == 0 {
        Seq::empty()
    } else if entries.len() == 1 {
        "\""@ + entries[0].0 + "\":"@ + doc_text(entries[0].1)
    } else {
        members_text(entries.drop_last()) + ",\""@ + entries[entries.len() - 1].0 + "\":"@ + doc_text(
            entries[entries.len() - 1].1,
        )
    }
}

/// Entries whose keys are distinct and need no escaping.
pub open spec fn plain_keys(entries: Seq<(Seq<char>, JsonView)>) -> bool {
    &&& forall|i: int| 0 <= i < entries.len() ==> escaped(#[trigger] entries[i].0) == entries[i].0
    &&& forall|i: int, j: int|
        0 <= i < j < entries.len() ==> #[trigger] entries[i].0 != #[trigger] entries[j].0
}

/// Whether [`doc_text`] writes a document as it is: keys are plain, numbers are
/// integers, and no more than `depth` arrays and objects are inside one another.
pub open spec fn writable(v: JsonView, depth: nat) -> bool
    decreases v,
{
    match v {
        JsonView::Int(n) => n < 0,
        JsonView::Float(_) => false,
        JsonView::Array(items) => {
            &&& depth > 0
            &&& forall|i: int|
                0 <= i < items.len() ==> writable(#[trigger] items[i], (depth - 1) as nat)
        },
        JsonView::Object(entries) => {
            &&& depth > 0
            &&& plain_keys(entries)
            &&& forall|i: int|
                0 <= i < entries.len() ==> writable((#[trigger] entries[i]).1, (depth - 1) as nat)
        },
        _ => true,
    }
}

/// Whether a document says what another says: the same, but for the order of
/// members.
pub open spec fn agrees(a: JsonView, v: JsonView) -> bool
    decreases v,
{
    match v {
        JsonView::Array(items) => {
            &&& a is Array
            &&& a->Array_0.len() == items.len()
            &&& forall|i: int| 0 <= i < items.len() ==> agrees(a->Array_0[i], #[trigger] items[i])
        },
        JsonView::Object(entries) => {
            &&& a is Object
            &&& forall|i: int|
                0 <= i < entries.len() ==> a.get((#[trigger] entries[i]).0) is Some && agrees(
                    a.get(entries[i].0)->0,
                    entries[i].1,
                )
            &&& forall|k: Seq<char>|
                (forall|i: int| 0 <= i < entries.len() ==> (#[trigger] entries[i]).0 != k) ==> (
                #[trigger] a.get(k)) is None
        },
        _ => a == v,
    }
}

/// Where bytes are a document as [`doc_text`] writes it, reading them succeeds and
/// gives a document that says the same.
pub open spec fn reads_written(bytes: Seq<u8>, r: Result<Json, String>) -> bool {
    forall|v: JsonView|
        writable(v, DEPTH_MAX as nat) && bytes == encode_utf8(#[trigger] doc_text(v)) ==> r is Ok
            && agrees(r->Ok_0@, v)
}

/// A text is written in quotes.
pub proof fn text_is_quoted(s: Seq<char>)
    ensures
        doc_text(JsonView::Text(s)) == "\""@ + escaped(s) + "\""@,
{
}

/// An object whose members are all texts.
pub open spec fn flat_doc(fields: Seq<(Seq<char>, Seq<char>)>) -> JsonView {
    JsonView::Object(fields.map_values(|f: (Seq<char>, Seq<char>)| (f.0, JsonView::Text(f.1))))
}

/// Fields whose keys are distinct and need no escaping.
pub open spec fn plain_fields(fields: Seq<(Seq<char>, Seq<char>)>) -> bool {
    &&& forall|i: int| 0 <= i < fields.len() ==> escaped(#[trigger] fields[i].0) == fields[i].0
    &&& forall|i: int, j: int|
        0 <= i < j < fields.len() ==> #[trigger] fields[i].0 != #[trigger] fields[j].0
}

/// Whether a document is the object with exactly these fields.
pub open spec fn has_fields(v: JsonView, fields: Seq<(Seq<char>, Seq<char>)>) -> bool {
    &&& v is Object
    &&& forall|i: int|
        0 <= i < fields.len() ==> v.get(#[trigger] fields[i].0) == Some(
            JsonView::Text(fields[i].1),
        )
    &&& forall|k: Seq<char>|
        (forall|i: int| 0 <= i < fields.len() ==> #[trigger] fields[i].0 != k) ==> (
        #[trigger] v.get(k)) is None
}

/// An object of texts is written as it is, and what says the same has its fields.
pub proof fn flat_docs_are_read(fields: Seq<(Seq<char>, Seq<char>)>)
    requires
        plain_fields(fields),
    ensures
        writable(flat_doc(fields), DEPTH_MAX as nat),
        forall|a: JsonView| #[trigger] agrees(a, flat_doc(fields)) ==> has_fields(a, fields),
{
    let entries = flat_doc(fields)->Object_0;
    assert forall|i: int| 0 <= i < entries.len() implies escaped(#[trigger] entries[i].0)
        == entries[i].0 by {
        assert(entries[i].0 == fields[i].0);
    }
    assert forall|i: int, j: int| 0 <= i < j < entries.len() implies #[trigger] entries[i].0
        != #[trigger] entries[j].0 by {
        assert(entries[i].0 == fields[i].0 && entries[j].0 == fields[j].0);
    }
    reveal_with_fuel(writable, 2);
    assert forall|a: JsonView| #[trigger] agrees(a, flat_doc(fields)) implies has_fields(a, fields) by {
        reveal_with_fuel(agrees, 2);
        assert forall|i: int| 0 <= i < fields.len() implies a.get(#[trigger] fields[i].0) == Some(
            JsonView::Text(fields[i].1),
        ) by {
            assert(entries[i] == (fields[i].0, JsonView::Text(fields[i].1)));
        }
        assert forall|k: Seq<char>|
            (forall|i: int| 0 <= i < fields.len() ==> #[trigger] fields[i].0 != k) implies (
        #[trigger] a.get(k)) is None by {
            assert forall|i: int| 0 <= i < entries.len() implies (#[trigger] entries[i]).0 != k by {
                assert(entries[i].0 == fields[i].0);
            }
        }
    }
}

/// Entries whose keys are in order, each once.
pub open spec fn in_key_order(entries: Seq<(Seq<char>, JsonView)>) -> bool {
    forall|i: int, j: int|
        0 <= i < j < entries.len() ==> text_less(
            (#[trigger] entries[i]).0,
            (#[trigger] entries[j]).0,
        )
}

/// Whether a document is written in one way only: keys in order, negative
/// integers negative, and no more than `depth` arrays and objects inside one
/// another.
pub open spec fn tidy(v: JsonView, depth: nat) -> bool
    decreases v,
{
    match v {
        JsonView::Int(n) => n < 0,
        JsonView::Array(items) => {
            &&& depth > 0
            &&& forall|i: int| 0 <= i < items.len() ==> tidy(#[trigger] items[i], (depth - 1) as nat)
        },
        JsonView::Object(entries) => {
            &&& depth > 0
            &&& in_key_order(entries)
            &&& forall|i: int|
                0 <= i < entries.len() ==> tidy((#[trigger] entries[i]).1, (depth - 1) as nat)
        },
        _ => true,
    }
}

/// Whether every number in a document is a 64-bit integer.
pub open spec fn float_free(v: JsonView) -> bool
    decreases v,
{
    match v {
        JsonView::Float(_) => false,
        JsonView::Array(items) => forall|i: int|
            0 <= i < items.len() ==> float_free(#[trigger] items[i]),
        JsonView::Object(entries) => forall|i: int|
            0 <= i < entries.len() ==> float_free((#[trigger] entries[i]).1),
        _ => true,
    }
}

/// How many arrays and objects inside one another are read.
pub const DEPTH_MAX: u32 = 127;

/// Whether what was read is written in one way only.
pub open spec fn reads_tidy(r: Result<Json, String>) -> bool {
    match r {
        Ok(j) => tidy(j@, DEPTH_MAX as nat),
        Err(_) => true,
    }
}

/// What `serde_json::from_slice` makes of bytes: a document, or the text of
/// its error.
pub uninterp spec fn parsed(bytes: Seq<u8>) -> Result<JsonView, Seq<char>>;

/// Whether a text is read as this document.
pub open spec fn reads_back(text: Seq<char>, v: JsonView) -> bool {
    parsed(encode_utf8(text)) == Ok::<JsonView, Seq<char>>(v)
}

/// How one character stands inside a string that `serde_json` writes.
pub open spec fn short_esc(c: char) -> Seq<char> {
    if c == '\u{8}' {
        seq!['\\', 'b']
    } else if c == '\u{c}' {
        seq!['\\', 'f']
    } else {
        esc(c)
    }
}

/// A text as `serde_json` writes it.
pub open spec fn quoted(s: Seq<char>) -> Seq<char> {
    "\""@ + s.map_values(|c: char| short_esc(c)).flatten() + "\""@
}

/// The compact text of a document without floats, as `serde_json` writes it.
pub open spec fn compact(v: JsonView) -> Seq<char>
    decreases v,
{
    match v {
        JsonView::Text(s) => quoted(s),
        JsonView::Array(items) => "["@ + compact_items(items) + "]"@,
        JsonView::Object(entries) => "{"@ + compact_members(entries) + "}"@,
        _ => doc_text(v),
    }
}

/// The compact texts of documents, with commas between neighbours.
pub open spec fn compact_items(items: Seq<JsonView>) -> Seq<char>
    decreases items,
{
    if items.len() == 0 {
        Seq::empty()
    } else if items.len() == 1 {
        compact(items[0])
    } else {
        compact_items(items.drop_last()) + ","@ + compact(items[items.len() - 1])
    }
}

/// The compact texts of members, with commas between neighbours.
pub open spec fn compact_members(entries: Seq<(Seq<char>, JsonView)>) -> Seq<char>
    decreases entries,
{
    if entries.len() == 0 {
        Seq::empty()
    } else if entries.len() == 1 {
        quoted(entries[0].0) + ":"@ + compact(entries[0].1)
    } else {
        compact_members(entries.drop_last()) + ","@ + quoted(entries[entries.len() - 1].0) + ":"@
            + compact(entries[entries.len() - 1].1)
    }
}

/// What is nested so deep at most is nested no deeper than that.
pub proof fn tidy_deeper(v: JsonView, depth: nat, more: nat)
    requires
        tidy(v, depth),
        depth <= more,
    ensures
        tidy(v, more),
    decreases v,
{
    match v {
        JsonView::Array(items) => {
            assert forall|i: int| 0 <= i < items.len() implies tidy(
                #[trigger] items[i],
                (more - 1) as nat,
            ) by {
                tidy_deeper(items[i], (depth - 1) as nat, (more - 1) as nat);
            }
        },
        JsonView::Object(entries) => {
            assert forall|i: int| 0 <= i < entries.len() implies tidy(
                (#[trigger] entries[i]).1,
                (more - 1) as nat,
            ) by {
                tidy_deeper(entries[i].1, (depth - 1) as nat, (more - 1) as nat);
            }
        },
        _ => {},
    }
}

/// What `serde_json` writes for a document: its compact text.
pub uninterp spec fn json_text(v: JsonView) -> Seq<char>;

/// A `serde_json::Value` as a document, variant by variant.
#[verifier::external_body]
fn json_of(v: Value) -> (r: Json) {
    match v {
        Value::Null => Json::Null,
        Value::Bool(b) => Json::Bool(b),
        Value::Number(n) => match (n.as_u64(), n.as_i64()) {
            (Some(u), _) => Json::Uint(u),
            (None, Some(i)) => Json::Int(i),
            (None, None) => Json::Float(n),
        },
        Value::String(s) => Json::Text(s),
        Value::Array(a) => Json::Array(a.into_iter().map(json_of).collect()),
        Value::Object(o) => Json::Object(o.into_iter().map(|(k, v)| (k, json_of(v))).collect()),
    }
}

/// A document as a `serde_json::Value`, variant by variant.
#[verifier::external_body]
fn value_of(j: &Json) -> (r: Value) {
    match j {
        Json::Null => Value::Null,
        Json::Bool(b) => Value::Bool(*b),
        Json::Uint(n) => Value::Number((*n).into()),
        Json::Int(n) => Value::Number((*n).into()),
        Json::Float(n) => Value::Number(n.clone()),
        Json::Text(s) => Value::String(s.clone()),
        Json::Array(a) => Value::Array(a.iter().map(value_of).collect()),
        Json::Object(o) => Value::Object(o.iter().map(|(k, v)| (k.clone(), value_of(v))).collect()),
    }
}

/// `serde_json::from_slice`: reads a document, or says what is wrong with the
/// bytes; a function of the bytes alone. What is read has its keys in order, and
/// no more arrays and objects inside one another than the reader's limit. A
/// document within that limit, written as [`doc_text`] writes it with keys that are
/// plain and distinct, is read as a document that says the same.
#[verifier::external_body]
pub(crate) fn parse_json(bytes: &[u8]) -> (r: Result<Json, String>)
    ensures
        match r {
            Ok(j) => parsed(bytes@) == Ok::<JsonView, Seq<char>>(j@),
            Err(e) => parsed(bytes@) == Err::<JsonView, Seq<char>>(e@),
        },
        reads_tidy(r),
        reads_written(bytes@, r),
{
    match serde_json::from_slice::<Value>(bytes) {
        Ok(v) => Ok(json_of(v)),
        Err(e) => Err(e.to_string()),
    }
}

/// `serde_json`'s `Display` of a value: the compact text of the document, on one
/// line, whatever its floats look like. It descends into the document, so a document
/// has to have an end to its nesting. Where every number is an integer and nothing is
/// nested deeper than the reader's limit, reading the text gives the document back.
#[verifier::external_body]
pub(crate) fn write_json(j: &Json) -> (r: String)
    requires
        tidy(j@, (DEPTH_MAX + 1) as nat),
    ensures
        r@ == json_text(j@),
        float_free(j@) ==> r@ == compact(j@),
        printable(r@),
        tidy(j@, DEPTH_MAX as nat) && float_free(j@) ==> reads_back(r@, j@),
{
    value_of(j).to_string()
}

// ---- escaping --------------------------------------------------------------

/// How one character stands inside a JSON string.
pub open spec fn esc(c: char) -> Seq<char> {
    if c == '"' {
        seq!['\\', '"']
    } else if c == '\\' {
        seq!['\\', '\\']
    } else if c == '\n' {
        seq!['\\', 'n']
    } else if c == '\r' {
        seq!['\\', 'r']
    } else if c == '\t' {
        seq!['\\', 't']
    } else if (c as u32) < 0x20 {
        seq!['\\', 'u', '0', '0', hex_digit(c as int / 16), hex_digit(c as int % 16)]
    } else {
        seq![c]
    }
}

/// How a text stands inside a JSON string: each character by itself.
pub open spec fn escaped(s: Seq<char>) -> Seq<char>
    decreases s.len(),
{
    if s.len() == 0 {
        Seq::empty()
    } else {
        escaped(s.drop_last()) + esc(s.last())
    }
}

/// Appends one character as it stands inside a JSON string.
fn push_escaped(out: &mut String, c: char)
    ensures
        final(out)@ == old(out)@ + esc(c),
{
    let u: u32 = c as u32;
    if c == '"' {
        out.push('\\');
        out.push('"');
    } else if c == '\\' {
        out.push('\\');
        out.push('\\');
    } else if c == '\n' {
        out.push('\\');
        out.push('n');
    } else if c == '\r' {
        out.push('\\');
        out.push('r');
    } else if c == '\t' {
        out.push('\\');
        out.push('t');
    } else if u < 0x20 {
        out.push('\\');
        out.push('u');
        out.push('0');
        out.push('0');
        out.push(if u < 16 { '0' } else { '1' });
        let low: u8 = (u % 16) as u8;
        out.push(if low < 10 { (48u8 + low) as char } else { (87u8 + low) as char });
    } else {
        out.push(c);
    }
    assert(out@ =~= old(out)@ + esc(c));
}

/// Escapes a text for the inside of a JSON string: quotes, backslashes and
/// control characters.
pub fn json_escape(s: &str) -> (r: String)
    ensures
        r@ == escaped(s@),
{
    let text = chars_of(s);
    let mut out: String = String::new();
    let mut i: usize = 0;
    while i < text.len()
        invariant
            text@ == s@,
            i <= text@.len(),
            out@ == escaped(s@.take(i as int)),
        decreases text@.len() - i,
    {
        push_escaped(&mut out, text[i]);
        i += 1;
        assert(s@.take(i as int).drop_last() =~= s@.take(i - 1));
    }
    assert(s@.take(i as int) =~= s@);
    out
}

// ---- what escaping keeps ---------------------------------------------------

/// What a short escape stands for in a JSON string.
pub open spec fn short_escape(c: char) -> Option<char> {
    if c == '"' || c == '\\' || c == '/' {
        Some(c)
    } else if c == 'b' {
        Some('\u{8}')
    } else if c == 'f' {
        Some('\u{c}')
    } else if c == 'n' {
        Some('\n')
    } else if c == 'r' {
        Some('\r')
    } else if c == 't' {
        Some('\t')
    } else {
        None
    }
}

/// What four hexadecimal digits behind `\u` stand for, where that is a
/// character by itself.
pub open spec fn long_escape(t: Seq<char>) -> Option<char>
    recommends
        t.len() >= 6,
{
    match (nibble(t[2]), nibble(t[3]), nibble(t[4]), nibble(t[5])) {
        (Some(a), Some(b), Some(c), Some(d)) => {
            let u = 4096 * a + 256 * b + 16 * c + d;
            if 0xd800 <= u <= 0xdfff {
                None
            } else {
                Some(u as char)
            }
        },
        _ => None,
    }
}

/// The text that the inside of a JSON string stands for; `None` where it is no
/// such inside: a bare quote, a bare control character, an unknown escape.
pub open spec fn unescaped(t: Seq<char>) -> Option<Seq<char>>
    decreases t.len(),
{
    if t.len() == 0 {
        Some(Seq::empty())
    } else if t[0] == '\\' {
        if t.len() >= 6 && t[1] == 'u' {
            match (long_escape(t), unescaped(t.skip(6))) {
                (Some(c), Some(rest)) => Some(seq![c] + rest),
                _ => None,
            }
        } else if t.len() >= 2 {
            match (short_escape(t[1]), unescaped(t.skip(2))) {
                (Some(c), Some(rest)) => Some(seq![c] + rest),
                _ => None,
            }
        } else {
            None
        }
    } else if t[0] == '"' || (t[0] as u32) < 0x20 {
        None
    } else {
        match unescaped(t.skip(1)) {
            Some(rest) => Some(seq![t[0]] + rest),
            None => None,
        }
    }
}

/// Escaping goes character by character, from the front too.
proof fn escaped_front(s: Seq<char>)
    requires
        s.len() > 0,
    ensures
        escaped(s) == esc(s[0]) + escaped(s.drop_first()),
    decreases s.len(),
{
    if s.len() == 1 {
        assert(s.drop_last() =~= Seq::empty());
        assert(s.drop_first() =~= Seq::empty());
        assert(escaped(s) =~= esc(s[0]) + escaped(s.drop_first()));
    } else {
        escaped_front(s.drop_last());
        assert(s.drop_last().drop_first() =~= s.drop_first().drop_last());
        assert(escaped(s) =~= esc(s[0]) + escaped(s.drop_first()));
    }
}

/// A control character is read back from its four digits.
proof fn control_escape(c: char, t: Seq<char>)
    requires
        t.len() >= 6,
        esc(c).len() == 6,
        t[2] == esc(c)[2],
        t[3] == esc(c)[3],
        t[4] == esc(c)[4],
        t[5] == esc(c)[5],
    ensures
        long_escape(t) == Some(c),
{
    assert(nibble(t[4]) == Some(c as int / 16));
    assert(nibble(t[5]) == Some(c as int % 16));
}

/// Escaping loses nothing: read as the inside of a JSON string, an escaped text
/// is that text again.
pub proof fn escape_round_trip(s: Seq<char>)
    ensures
        unescaped(escaped(s)) == Some(s),
    decreases s.len(),
{
    if s.len() > 0 {
        let t = escaped(s);
        let c = s[0];
        let rest = s.drop_first();
        escaped_front(s);
        escape_round_trip(rest);
        assert(t.skip(esc(c).len() as int) =~= escaped(rest));
        assert(t.take(esc(c).len() as int) =~= esc(c));
        assert(t[0] == esc(c)[0]);
        if esc(c).len() >= 2 {
            assert(t[1] == esc(c)[1]);
        }
        if esc(c).len() == 6 {
            assert(t[2] == esc(c)[2] && t[3] == esc(c)[3] && t[4] == esc(c)[4] && t[5] == esc(c)[5]);
            control_escape(c, t);
        }
        assert(seq![c] + rest =~= s);
    }
}

/// Different texts stay different when escaped.
pub proof fn escape_injective(a: Seq<char>, b: Seq<char>)
    requires
        escaped(a) == escaped(b),
    ensures
        a == b,
{
    escape_round_trip(a);
    escape_round_trip(b);
}

/// A text in which no character needs escaping is kept as it is.
pub proof fn escape_plain(s: Seq<char>)
    requires
        forall|i: int| 0 <= i < s.len() ==> esc(#[trigger] s[i]) == seq![s[i]],
    ensures
        escaped(s) == s,
    decreases s.len(),
{
    if s.len() > 0 {
        escape_plain(s.drop_last());
        assert(s.drop_last() + seq![s.last()] =~= s);
    }
}

/// An escaped character is printable.
proof fn esc_is_printable(c: char)
    ensures
        printable(esc(c)),
{
}

/// No control character is left in an escaped text.
pub proof fn escaped_is_printable(s: Seq<char>)
    ensures
        printable(escaped(s)),
    decreases s.len(),
{
    if s.len() > 0 {
        escaped_is_printable(s.drop_last());
        esc_is_printable(s.last());
    }
}

/// A document stands on one line.
pub proof fn documents_stand_on_one_line(v: JsonView, depth: nat)
    requires
        writable(v, depth),
    ensures
        printable(doc_text(v)),
    decreases v, 0nat,
{
    reveal_strlit("null");
    reveal_strlit("true");
    reveal_strlit("false");
    reveal_strlit("-");
    reveal_strlit("\"");
    reveal_strlit("[");
    reveal_strlit("]");
    reveal_strlit("{");
    reveal_strlit("}");
    match v {
        JsonView::Uint(n) => {
            numbers_are_printable(n as nat);
        },
        JsonView::Int(n) => {
            numbers_are_printable((-n) as nat);
        },
        JsonView::Text(s) => {
            escaped_is_printable(s);
        },
        JsonView::Array(items) => {
            items_stand_on_one_line(items, (depth - 1) as nat);
        },
        JsonView::Object(entries) => {
            members_stand_on_one_line(entries, (depth - 1) as nat);
        },
        _ => {},
    }
}

/// Items stand on one line.
proof fn items_stand_on_one_line(items: Seq<JsonView>, depth: nat)
    requires
        forall|i: int| 0 <= i < items.len() ==> writable(#[trigger] items[i], depth),
    ensures
        printable(items_text(items)),
    decreases items, items.len(),
{
    reveal_strlit(",");
    if items.len() == 1 {
        documents_stand_on_one_line(items[0], depth);
    } else if items.len() > 1 {
        items_stand_on_one_line(items.drop_last(), depth);
        documents_stand_on_one_line(items[items.len() - 1], depth);
    }
}

/// Members stand on one line.
proof fn members_stand_on_one_line(entries: Seq<(Seq<char>, JsonView)>, depth: nat)
    requires
        plain_keys(entries),
        forall|i: int| 0 <= i < entries.len() ==> writable((#[trigger] entries[i]).1, depth),
    ensures
        printable(members_text(entries)),
    decreases entries, entries.len(),
{
    reveal_strlit("\"");
    reveal_strlit("\":");
    reveal_strlit(",\"");
    if entries.len() > 0 {
        let last = entries[entries.len() - 1];
        escaped_is_printable(last.0);
        documents_stand_on_one_line(last.1, depth);
        if entries.len() > 1 {
            members_stand_on_one_line(entries.drop_last(), depth);
        }
    }
}

/// Escaping goes character by character: a quote, a backslash and each control
/// character get a backslash in front, and every other character stays as it is.
pub proof fn only_what_must_be_is_escaped(s: Seq<char>, c: char)
    ensures
        escaped(Seq::empty()).len() == 0,
        c as u32 >= 0x20 && c != '"' && c != '\\' ==> escaped(s.push(c)) == escaped(s).push(c),
        c == '"' || c == '\\' ==> escaped(s.push(c)) == escaped(s).push('\\').push(c),
        c == '\n' ==> escaped(s.push(c)) == escaped(s).push('\\').push('n'),
        c == '\r' ==> escaped(s.push(c)) == escaped(s).push('\\').push('r'),
        c == '\t' ==> escaped(s.push(c)) == escaped(s).push('\\').push('t'),
{
    assert(s.push(c).drop_last() =~= s);
    let all = escaped(s.push(c));
    if c == '"' || c == '\\' {
        assert(all =~= escaped(s).push('\\').push(c));
    } else if c == '\n' {
        assert(all =~= escaped(s).push('\\').push('n'));
    } else if c == '\r' {
        assert(all =~= escaped(s).push('\\').push('r'));
    } else if c == '\t' {
        assert(all =~= escaped(s).push('\\').push('t'));
    } else if c as u32 >= 0x20 {
        assert(all =~= escaped(s).push(c));
    }
}

/// The member of an object under a key is the first with that key, and there is none
/// just where no entry has it. Nothing but an object has members.
pub proof fn members_are_found_by_key(v: JsonView, entries: Seq<(Seq<char>, JsonView)>, key: Seq<char>)
    ensures
        !(v is Object) ==> v.get(key) is None,
        forall|i: int|
            0 <= i < entries.len() && (#[trigger] entries[i]).0 == key && (forall|k: int|
                0 <= k < i ==> (#[trigger] entries[k]).0 != key) ==> JsonView::Object(entries).get(key)
                == Some(entries[i].1),
        JsonView::Object(entries).get(key) is None <==> forall|i: int|
            0 <= i < entries.len() ==> (#[trigger] entries[i]).0 != key,
    decreases entries.len(),
{
    if entries.len() > 0 && entries[0].0 != key {
        let rest = entries.drop_first();
        members_are_found_by_key(v, rest, key);
        assert forall|i: int|
            0 <= i < entries.len() && (#[trigger] entries[i]).0 == key && (forall|k: int|
                0 <= k < i ==> (#[trigger] entries[k]).0 != key) implies JsonView::Object(entries).get(
            key,
        ) == Some(entries[i].1) by {
            assert(rest[i - 1] == entries[i]);
            assert forall|k: int| 0 <= k < i - 1 implies (#[trigger] rest[k]).0 != key by {
                assert(rest[k] == entries[k + 1]);
            }
        }
        if entry(rest, key) is None {
            assert forall|i: int| 0 <= i < entries.len() implies (#[trigger] entries[i]).0 != key by {
                if i > 0 {
                    assert(rest[i - 1] == entries[i]);
                }
            }
        } else {
            let j = choose|j: int| 0 <= j < rest.len() && (#[trigger] rest[j]).0 == key;
            assert(entries[j + 1] == rest[j]);
        }
    } else if entries.len() > 0 {
        assert(entries[0].0 == key);
    }
}

} // verus!
