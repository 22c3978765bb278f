//! Values that cross the boundary between the host and an actor: what the host
//! returns from a call, what it hands to a handler, and what a chain event
//! carries.

use crate::graph::{bounded, is_bounded};
use crate::text::{same, utf8_text};
use packr_guest::Value;
use vstd::prelude::*;
use vstd::utf8::{
    decode_utf8, encode_utf8, encode_utf8_decode_utf8, encode_utf8_valid_utf8, valid_utf8,
};

verus! {

/// `packr_guest::Value`, which only the conversion below looks into.
#[verifier::external_type_specification]
#[verifier::external_body]
pub struct ExPackrValue(packr_guest::Value);

/// A value, as far as the supervisor reads one.
pub enum Datum {
    U8(u8),
    U16(u16),
    U32(u32),
    Text(String),
    Tuple(Vec<Datum>),
    List(Vec<Datum>),
    Opt(Option<Box<Datum>>),
    Res(Result<Box<Datum>, Box<Datum>>),
    Record(Vec<(String, Datum)>),
    Variant { case_name: String, tag: usize, payload: Vec<Datum> },
    /// A value of any other type.
    Other,
}

/// What a value is: the same tree over mathematical values.
pub enum DatumView {
    U8(u8),
    U16(u16),
    U32(u32),
    Text(Seq<char>),
    Tuple(Seq<DatumView>),
    List(Seq<DatumView>),
    Opt(Option<Box<DatumView>>),
    Res(Result<Box<DatumView>, Box<DatumView>>),
    Record(Seq<(Seq<char>, DatumView)>),
    Variant { case_name: Seq<char>, tag: usize, payload: Seq<DatumView> },
    Other,
}

/// The tree that a value stands for.
pub open spec fn datum_view(v: Datum) -> DatumView
    decreases v,
{
    match v {
        Datum::U8(n) => DatumView::U8(n),
        Datum::U16(n) => DatumView::U16(n),
        Datum::U32(n) => DatumView::U32(n),
        Datum::Text(s) => DatumView::Text(s@),
        Datum::Tuple(items) => DatumView::Tuple(datum_views(items@)),
        Datum::List(items) => DatumView::List(datum_views(items@)),
        Datum::Opt(None) => DatumView::Opt(None),
        Datum::Opt(Some(b)) => DatumView::Opt(Some(Box::new(datum_view(*b)))),
        Datum::Res(Ok(b)) => DatumView::Res(Ok(Box::new(datum_view(*b)))),
        Datum::Res(Err(b)) => DatumView::Res(Err(Box::new(datum_view(*b)))),
        Datum::Record(fields) => DatumView::Record(
            Seq::new(
                fields@.len(),
                |i: int|
                    if 0 <= i < fields@.len() {
                        (fields@[i].0@, datum_view(fields@[i].1))
                    } else {
                        (Seq::empty(), DatumView::Other)
                    },
            ),
        ),
        Datum::Variant { case_name, tag, payload } => DatumView::Variant {
            case_name: case_name@,
            tag,
            payload: datum_views(payload@),
        },
        Datum::Other => DatumView::Other,
    }
}

/// The trees that values stand for.
pub open spec fn datum_views(items: Seq<Datum>) -> Seq<DatumView>
    decreases items,
{
    Seq::new(
        items.len(),
        |i: int|
            if 0 <= i < items.len() {
                datum_view(items[i])
            } else {
                DatumView::Other
            },
    )
}

impl View for Datum {
    type V = DatumView;

    open spec fn view(&self) -> DatumView {
        datum_view(*self)
    }
}

/// What `packr_guest::decode` makes of bytes, where they encode a value.
pub uninterp spec fn decoded(bytes: Seq<u8>) -> Option<DatumView>;

/// A `packr_guest::Value` as a value of this library, variant by variant.
#[verifier::external_body]
fn datum_of(v: Value) -> (r: Datum) {
    match v {
        Value::U8(n) => Datum::U8(n),
        Value::U16(n) => Datum::U16(n),
        Value::U32(n) => Datum::U32(n),
        Value::String(s) => Datum::Text(s),
        Value::Tuple(t) => Datum::Tuple(t.into_iter().map(datum_of).collect()),
        Value::List { items, .. } => Datum::List(items.into_iter().map(datum_of).collect()),
        other => wrapped_datum_of(other),
    }
}

/// A `packr_guest::Value` that is an option, a result, a record or a variant, as a
/// value of this library; any other is one that the supervisor never reads, and
/// becomes [`Datum::Other`].
#[verifier::external_body]
fn wrapped_datum_of(v: Value) -> (r: Datum) {
    match v {
        Value::Option { value, .. } => Datum::Opt(value.map(|b| Box::new(datum_of(*b)))),
        Value::Result { value: Ok(b), .. } => Datum::Res(Ok(Box::new(datum_of(*b)))),
        Value::Result { value: Err(b), .. } => Datum::Res(Err(Box::new(datum_of(*b)))),
        Value::Record { fields, .. } => Datum::Record(fields.into_iter().map(|(k, v)| (k, datum_of(v))).collect()),
        Value::Variant { case_name, tag, payload, .. } => {
            Datum::Variant { case_name, tag, payload: payload.into_iter().map(datum_of).collect() }
        },
        _ => Datum::Other,
    }
}

/// `packr_guest::decode`: the value that bytes encode; a function of the bytes
/// alone. It adds the lengths, reserves for the counts and descends into the types and
/// nodes that it finds in the bytes, with no bounds of its own that would keep it from
/// failing, so it is handed bytes within bounds alone.
#[verifier::external_body]
fn decode_datum(bytes: &[u8]) -> (r: Option<Datum>)
    requires
        bounded(bytes@),
    ensures
        match r {
            Some(v) => decoded(bytes@) == Some(v@),
            None => decoded(bytes@) is None,
        },
{
    packr_guest::decode(bytes).ok().map(datum_of)
}

// ---- searching a value -----------------------------------------------------

/// The case names of the variants in a value, from the outside in and from left
/// to right.
pub open spec fn case_names(v: DatumView) -> Seq<Seq<char>>
    decreases v,
{
    match v {
        DatumView::Variant { case_name, tag: _, payload } => seq![case_name] + all_case_names(payload),
        DatumView::Tuple(items) => all_case_names(items),
        DatumView::List(items) => all_case_names(items),
        DatumView::Record(fields) => field_case_names(fields),
        DatumView::Opt(Some(b)) => case_names(*b),
        DatumView::Res(Ok(b)) => case_names(*b),
        DatumView::Res(Err(b)) => case_names(*b),
        _ => Seq::empty(),
    }
}

/// The case names in values, one after another.
pub open spec fn all_case_names(items: Seq<DatumView>) -> Seq<Seq<char>>
    decreases items,
{
    if items.len() == 0 {
        Seq::empty()
    } else {
        case_names(items[0]) + all_case_names(items.drop_first())
    }
}

/// The case names in the values of fields, one after another.
pub open spec fn field_case_names(fields: Seq<(Seq<char>, DatumView)>) -> Seq<Seq<char>>
    decreases fields,
{
    if fields.len() == 0 {
        Seq::empty()
    } else {
        case_names(fields[0].1) + field_case_names(fields.drop_first())
    }
}

/// The first of the names that is among the wanted ones.
pub open spec fn first_wanted(names: Seq<Seq<char>>, wanted: Seq<Seq<char>>) -> Option<Seq<char>>
    decreases names.len(),
{
    if names.len() == 0 {
        None
    } else if wanted.contains(names[0]) {
        Some(names[0])
    } else {
        first_wanted(names.drop_first(), wanted)
    }
}

/// What is found in the front part comes before what is found behind it.
proof fn first_wanted_split(a: Seq<Seq<char>>, b: Seq<Seq<char>>, wanted: Seq<Seq<char>>)
    ensures
        first_wanted(a + b, wanted) == (match first_wanted(a, wanted) {
            Some(n) => Some(n),
            None => first_wanted(b, wanted),
        }),
    decreases a.len(),
{
    if a.len() == 0 {
        assert(a + b =~= b);
    } else {
        assert((a + b).drop_first() =~= a.drop_first() + b);
        first_wanted_split(a.drop_first(), b, wanted);
    }
}

/// Whether a text is in a list.
fn listed(s: &str, list: &Vec<&str>) -> (r: bool)
    ensures
        r == names(list@).contains(s@),
{
    let mut i: usize = 0;
    while i < list.len()
        invariant
            i <= list@.len(),
            forall|k: int| 0 <= k < i ==> names(list@)[k] != s@,
        decreases list@.len() - i,
    {
        if same(list[i], s) {
            assert(names(list@)[i as int] == s@);
            return true;
        }
        i += 1;
    }
    false
}

/// The texts of a list.
pub open spec fn names(list: Seq<&str>) -> Seq<Seq<char>> {
    Seq::new(list.len(), |i: int| list[i]@)
}

/// What was found, as a text.
pub open spec fn found(r: Option<String>) -> Option<Seq<char>> {
    match r {
        Some(s) => Some(s@),
        None => None,
    }
}

/// Finds the first variant in a value whose case name is wanted.
pub fn find_variant_case(v: &Datum, wanted: &Vec<&str>) -> (r: Option<String>)
    ensures
        found(r) == first_wanted(case_names(v@), names(wanted@)),
    decreases v,
{
    match v {
        Datum::Variant { case_name, tag: _, payload } => {
            proof {
                first_wanted_split(seq![case_name@], all_case_names(datum_views(payload@)), names(wanted@));
                reveal_with_fuel(first_wanted, 2);
            }
            if listed(case_name.as_str(), wanted) {
                return Some(case_name.clone());
            }
            find_in(payload, wanted)
        },
        Datum::Tuple(items) => find_in(items, wanted),
        Datum::List(items) => find_in(items, wanted),
        Datum::Record(fields) => find_in_fields(fields, wanted),
        Datum::Opt(Some(b)) => find_variant_case(b, wanted),
        Datum::Res(Ok(b)) => find_variant_case(b, wanted),
        Datum::Res(Err(b)) => find_variant_case(b, wanted),
        _ => None,
    }
}

/// Finds the first variant in values whose case name is wanted.
fn find_in(items: &Vec<Datum>, wanted: &Vec<&str>) -> (r: Option<String>)
    ensures
        found(r) == first_wanted(all_case_names(datum_views(items@)), names(wanted@)),
    decreases items,
{
    let mut i: usize = 0;
    let ghost all = datum_views(items@);
    assert(all.skip(0) =~= all);
    while i < items.len()
        invariant
            i <= items@.len(),
            all == datum_views(items@),
            first_wanted(all_case_names(all), names(wanted@)) == first_wanted(
                all_case_names(all.skip(i as int)),
                names(wanted@),
            ),
        decreases items@.len() - i,
    {
        proof {
            assert(all.skip(i as int)[0] == items@[i as int]@);
            assert(all.skip(i as int).drop_first() =~= all.skip(i + 1));
            first_wanted_split(case_names(items@[i as int]@), all_case_names(all.skip(i + 1)), names(wanted@));
        }
        match find_variant_case(&items[i], wanted) {
            Some(s) => {
                return Some(s);
            },
            None => {},
        }
        i += 1;
    }
    None
}

/// Finds the first variant in the values of fields whose case name is wanted.
fn find_in_fields(fields: &Vec<(String, Datum)>, wanted: &Vec<&str>) -> (r: Option<String>)
    ensures
        found(r) == first_wanted(
            field_case_names(datum_view(Datum::Record(*fields))->Record_0),
            names(wanted@),
        ),
    decreases fields,
{
    let mut i: usize = 0;
    let ghost all = datum_view(Datum::Record(*fields))->Record_0;
    assert(all.skip(0) =~= all);
    while i < fields.len()
        invariant
            i <= fields@.len(),
            all == datum_view(Datum::Record(*fields))->Record_0,
            first_wanted(field_case_names(all), names(wanted@)) == first_wanted(
                field_case_names(all.skip(i as int)),
                names(wanted@),
            ),
        decreases fields@.len() - i,
    {
        proof {
            assert(all.skip(i as int)[0].1 == fields@[i as int].1@);
            assert(all.skip(i as int).drop_first() =~= all.skip(i + 1));
            first_wanted_split(
                case_names(fields@[i as int].1@),
                field_case_names(all.skip(i + 1)),
                names(wanted@),
            );
        }
        match find_variant_case(&fields[i].1, wanted) {
            Some(s) => {
                return Some(s);
            },
            None => {},
        }
        i += 1;
    }
    None
}

// ---- why an actor ended ----------------------------------------------------

/// The ways in which an actor can end.
pub open spec fn causes() -> Seq<Seq<char>> {
    seq!["Completed"@, "Failed"@, "Stopped"@, "Killed"@, "PeerKilled"@]
}

/// The cause that a decoded termination names: the first variant in it whose
/// case name is one of the causes.
pub open spec fn cause_in(v: Option<DatumView>) -> Option<Seq<char>> {
    match v {
        Some(v) => first_wanted(case_names(v), causes()),
        None => None,
    }
}

/// The cause that a decoded termination names.
pub fn cause_of(v: &Option<Datum>) -> (r: Option<String>)
    ensures
        found(r) == cause_in(
            match v {
                Some(d) => Some(d@),
                None => None,
            },
        ),
{
    match v {
        Some(d) => {
            let wanted: Vec<&str> = vec!["Completed", "Failed", "Stopped", "Killed", "PeerKilled"];
            assert(names(wanted@) =~= causes());
            find_variant_case(d, &wanted)
        },
        None => None,
    }
}

/// The value that bytes encode; none where they exceed the bounds within which they
/// are decoded.
pub open spec fn read_value(bytes: Seq<u8>) -> Option<DatumView> {
    if bounded(bytes) {
        decoded(bytes)
    } else {
        None
    }
}

/// Decodes the data of a terminal event and names the cause in it; `None` where
/// the data cannot be decoded within bounds, or names no cause.
pub fn decode_cause(data: &[u8]) -> (r: Option<String>)
    ensures
        found(r) == cause_in(read_value(data@)),
{
    let v = if is_bounded(data) {
        decode_datum(data)
    } else {
        None
    };
    cause_of(&v)
}

// ---- what the host returns -------------------------------------------------

/// A result as the host returns one: a native result, or a variant tagged 0 for
/// success and 1 for failure. The payload of a variant may be missing.
pub open spec fn result_in(v: DatumView) -> Option<Result<Option<DatumView>, Option<DatumView>>> {
    match v {
        DatumView::Res(Ok(b)) => Some(Ok(Some(*b))),
        DatumView::Res(Err(b)) => Some(Err(Some(*b))),
        DatumView::Variant { case_name: _, tag, payload } => {
            let first = if payload.len() > 0 {
                Some(payload[0])
            } else {
                None
            };
            if tag == 0 {
                Some(Ok(first))
            } else if tag == 1 {
                Some(Err(first))
            } else {
                None
            }
        },
        _ => None,
    }
}

/// A payload that may be missing, by its view.
pub open spec fn payload_view(p: Option<&Datum>) -> Option<DatumView> {
    match p {
        Some(d) => Some(d@),
        None => None,
    }
}

/// Reads a result.
pub(crate) fn result_of(v: &Datum) -> (r: Option<Result<Option<&Datum>, Option<&Datum>>>)
    ensures
        match r {
            Some(Ok(p)) => result_in(v@) == Some(
                Ok::<Option<DatumView>, Option<DatumView>>(payload_view(p)),
            ),
            Some(Err(p)) => result_in(v@) == Some(
                Err::<Option<DatumView>, Option<DatumView>>(payload_view(p)),
            ),
            None => result_in(v@) is None,
        },
{
    proof {
        reveal_with_fuel(datum_view, 3);
        reveal_with_fuel(datum_views, 3);
    }
    match v {
        Datum::Res(Ok(b)) => Some(Ok(Some(&**b))),
        Datum::Res(Err(b)) => Some(Err(Some(&**b))),
        Datum::Variant { case_name: _, tag, payload } => {
            if *tag == 0 {
                Some(Ok(head(payload)))
            } else if *tag == 1 {
                Some(Err(head(payload)))
            } else {
                None
            }
        },
        _ => None,
    }
}

/// The first of values.
fn head(items: &Vec<Datum>) -> (r: Option<&Datum>)
    ensures
        payload_view(r) == (if items@.len() > 0 {
            Some(datum_views(items@)[0])
        } else {
            None
        }),
{
    if items.len() > 0 {
        Some(&items[0])
    } else {
        None
    }
}

/// An error as one word: the case name of a variant, or a bare text.
pub open spec fn error_name(v: Option<DatumView>) -> Seq<char> {
    match v {
        Some(DatumView::Variant { case_name, tag: _, payload: _ }) => case_name,
        Some(DatumView::Text(s)) => s,
        _ => "unknown"@,
    }
}

/// An error as one word.
fn error_case(v: Option<&Datum>) -> (r: String)
    ensures
        r@ == error_name(payload_view(v)),
{
    match v {
        Some(Datum::Variant { case_name, tag: _, payload: _ }) => case_name.clone(),
        Some(Datum::Text(s)) => s.clone(),
        _ => "unknown".to_owned(),
    }
}

/// An error with its detail, where the payload of the variant starts with a
/// text.
pub open spec fn error_full(v: Option<DatumView>) -> Seq<char> {
    match v {
        Some(DatumView::Variant { case_name, tag: _, payload }) => {
            if payload.len() > 0 && payload[0] is Text {
                case_name + ": "@ + payload[0]->Text_0
            } else {
                case_name
            }
        },
        _ => error_name(v),
    }
}

/// An error with its detail.
pub(crate) fn error_detail(v: Option<&Datum>) -> (r: String)
    ensures
        r@ == error_full(payload_view(v)),
{
    proof {
        reveal_with_fuel(datum_view, 3);
        reveal_with_fuel(datum_views, 3);
    }
    match v {
        Some(Datum::Variant { case_name, tag: _, payload }) => {
            let mut out = case_name.clone();
            match head(payload) {
                Some(Datum::Text(s)) => {
                    out.append(": ");
                    out.append(s.as_str());
                },
                _ => {},
            }
            out
        },
        _ => error_case(v),
    }
}

/// A result whose success carries a text.
pub open spec fn text_result(r: Result<String, String>) -> Result<Seq<char>, Seq<char>> {
    match r {
        Ok(s) => Ok(s@),
        Err(e) => Err(e@),
    }
}

/// A result whose success carries nothing.
pub open spec fn unit_result(r: Result<(), String>) -> Result<(), Seq<char>> {
    match r {
        Ok(_) => Ok(()),
        Err(e) => Err(e@),
    }
}

/// What the host's answer to a spawn says: the id of the new actor, or why
/// there is none. A bare text is an id too.
pub open spec fn spawned(v: DatumView) -> Result<Seq<char>, Seq<char>> {
    match result_in(v) {
        Some(Ok(Some(DatumView::Text(id)))) => Ok(id),
        Some(Ok(_)) => Err("spawn: unexpected ok payload"@),
        Some(Err(e)) => Err(error_name(e)),
        None => match v {
            DatumView::Text(id) => Ok(id),
            _ => Err("spawn: unexpected result"@),
        },
    }
}

/// Reads the host's answer to a spawn.
pub fn spawn_result(v: &Datum) -> (r: Result<String, String>)
    ensures
        text_result(r) == spawned(v@),
{
    match result_of(v) {
        Some(Ok(Some(Datum::Text(id)))) => Ok(id.clone()),
        Some(Ok(_)) => Err("spawn: unexpected ok payload".to_owned()),
        Some(Err(e)) => Err(error_case(e)),
        None => match v {
            Datum::Text(id) => Ok(id.clone()),
            _ => Err("spawn: unexpected result".to_owned()),
        },
    }
}

/// What the host's answer to a stop says.
pub open spec fn stopped(v: DatumView) -> Result<(), Seq<char>> {
    match result_in(v) {
        Some(Ok(_)) => Ok(()),
        Some(Err(e)) => Err(error_name(e)),
        None => Err("stop-actor: unexpected result"@),
    }
}

/// Reads the host's answer to a stop.
pub fn stop_result(v: &Datum) -> (r: Result<(), String>)
    ensures
        unit_result(r) == stopped(v@),
{
    match result_of(v) {
        Some(Ok(_)) => Ok(()),
        Some(Err(e)) => Err(error_case(e)),
        None => Err("stop-actor: unexpected result".to_owned()),
    }
}

/// What the host's answer to an append says.
pub open spec fn appended(v: DatumView) -> Result<(), Seq<char>> {
    match result_in(v) {
        Some(Ok(_)) => Ok(()),
        Some(Err(e)) => Err(error_name(e)),
        None => Err("filesystem: unexpected result"@),
    }
}

/// Reads the host's answer to an append.
pub fn append_result(v: &Datum) -> (r: Result<(), String>)
    ensures
        unit_result(r) == appended(v@),
{
    match result_of(v) {
        Some(Ok(_)) => Ok(()),
        Some(Err(e)) => Err(error_case(e)),
        None => Err("filesystem: unexpected result".to_owned()),
    }
}

/// The value of the first field with a name.
pub open spec fn field(fields: Seq<(Seq<char>, DatumView)>, name: Seq<char>) -> Option<DatumView>
    decreases fields.len(),
{
    if fields.len() == 0 {
        None
    } else if fields[0].0 == name {
        Some(fields[0].1)
    } else {
        field(fields.drop_first(), name)
    }
}

/// The status of a response: the field of that name, modulo 2 to the 16th where
/// it came as a wider number; 0 where there is none.
pub open spec fn status_in(v: Option<DatumView>) -> u16 {
    match v {
        Some(DatumView::Record(fields)) => match field(fields, "status"@) {
            Some(DatumView::U16(s)) => s,
            Some(DatumView::U32(s)) => (s as int % 0x10000) as u16,
            _ => 0,
        },
        _ => 0,
    }
}

/// The status of a response.
fn status_of(v: Option<&Datum>) -> (r: u16)
    ensures
        r == status_in(payload_view(v)),
{
    proof {
        reveal_with_fuel(datum_view, 3);
        reveal_with_fuel(datum_views, 3);
    }
    match v {
        Some(Datum::Record(fields)) => {
            let mut i: usize = 0;
            let ghost all = datum_view(Datum::Record(*fields))->Record_0;
            assert(all.skip(0) =~= all);
            while i < fields.len()
                invariant
                    i <= fields@.len(),
                    v == Some(&Datum::Record(*fields)),
                    all == datum_view(Datum::Record(*fields))->Record_0,
                    field(all, "status"@) == field(all.skip(i as int), "status"@),
                decreases fields@.len() - i,
            {
                assert(all.skip(i as int)[0] == (fields@[i as int].0@, fields@[i as int].1@));
                assert(all.skip(i as int).drop_first() =~= all.skip(i + 1));
                if same(fields[i].0.as_str(), "status") {
                    return match &fields[i].1 {
                        Datum::U16(s) => *s,
                        Datum::U32(s) => (*s % 0x10000) as u16,
                        _ => 0,
                    };
                }
                i += 1;
            }
            0
        },
        _ => 0,
    }
}

/// What the host's answer to a request says: the status of the response, or why
/// there is none.
pub open spec fn posted(v: DatumView) -> Result<u16, Seq<char>> {
    match result_in(v) {
        Some(Ok(resp)) => Ok(status_in(resp)),
        Some(Err(e)) => Err(error_name(e)),
        None => Err("http-client: unexpected result"@),
    }
}

/// Reads the host's answer to a request.
pub fn post_result(v: &Datum) -> (r: Result<u16, String>)
    ensures
        match r {
            Ok(s) => posted(v@) == Ok::<u16, Seq<char>>(s),
            Err(e) => posted(v@) == Err::<u16, Seq<char>>(e@),
        },
{
    match result_of(v) {
        Some(Ok(resp)) => Ok(status_of(resp)),
        Some(Err(e)) => Err(error_case(e)),
        None => Err("http-client: unexpected result".to_owned()),
    }
}

/// A request for the host's HTTP client.
pub struct HttpRequest {
    pub method: String,
    pub url: String,
    /// Names and values.
    pub headers: Vec<(String, String)>,
    pub body: Option<Vec<u8>>,
}

/// The request that posts a JSON body.
pub fn post_json(url: &str, body: Vec<u8>) -> (r: HttpRequest)
    ensures
        r.method@ == "POST"@,
        r.url@ == url@,
        r.headers@.len() == 1,
        r.headers@[0].0@ == "content-type"@,
        r.headers@[0].1@ == "application/json"@,
        r.body == Some(body),
{
    let mut headers: Vec<(String, String)> = Vec::new();
    headers.push(("content-type".to_owned(), "application/json".to_owned()));
    HttpRequest { method: "POST".to_owned(), url: url.to_owned(), headers, body: Some(body) }
}

// ---- what the host hands over ----------------------------------------------

/// The bytes among values, in order.
pub open spec fn bytes_in(items: Seq<DatumView>) -> Seq<u8>
    decreases items.len(),
{
    if items.len() == 0 {
        Seq::empty()
    } else {
        match items.last() {
            DatumView::U8(b) => bytes_in(items.drop_last()).push(b),
            _ => bytes_in(items.drop_last()),
        }
    }
}

/// The bytes among values, in order.
fn bytes_of(items: &Vec<Datum>) -> (r: Vec<u8>)
    ensures
        r@ == bytes_in(datum_views(items@)),
{
    let mut out: Vec<u8> = Vec::new();
    let mut i: usize = 0;
    let ghost all = datum_views(items@);
    assert(all.take(0) =~= Seq::empty());
    while i < items.len()
        invariant
            i <= items@.len(),
            all == datum_views(items@),
            out@ == bytes_in(all.take(i as int)),
        decreases items@.len() - i,
    {
        assert(all.take(i + 1).drop_last() =~= all.take(i as int));
        assert(all.take(i + 1).last() == items@[i as int]@);
        match &items[i] {
            Datum::U8(b) => {
                out.push(*b);
            },
            _ => {},
        }
        i += 1;
    }
    assert(all.take(i as int) =~= all);
    out
}

/// The text in a configuration value: a text, or the bytes of one in UTF-8, inside
/// any options and first places of tuples.
pub open spec fn config_text(v: DatumView) -> Option<Seq<char>>
    decreases v,
{
    match v {
        DatumView::Tuple(items) => if items.len() > 0 {
            config_text(items[0])
        } else {
            None
        },
        DatumView::Opt(Some(b)) => config_text(*b),
        _ => plain_config(v),
    }
}

/// The text in a configuration value that is wrapped in nothing.
pub open spec fn plain_config(v: DatumView) -> Option<Seq<char>> {
    match v {
        DatumView::Text(s) => Some(s),
        DatumView::List(items) => if valid_utf8(bytes_in(items)) {
            Some(decode_utf8(bytes_in(items)))
        } else {
            None
        },
        _ => None,
    }
}

/// The text in a configuration value that is wrapped in nothing.
pub(crate) fn plain_config_string(v: &Datum) -> (r: Option<String>)
    ensures
        found(r) == plain_config(v@),
{
    match v {
        Datum::Text(s) => Some(s.clone()),
        Datum::List(items) => utf8_text(bytes_of(items)),
        _ => None,
    }
}

/// The text in a configuration value.
pub fn config_string(v: &Datum) -> (r: Option<String>)
    ensures
        found(r) == config_text(v@),
    decreases v,
{
    proof {
        reveal_with_fuel(datum_view, 3);
        reveal_with_fuel(datum_views, 3);
    }
    match v {
        Datum::Tuple(items) => {
            if items.len() > 0 {
                assert(v@->Tuple_0[0] == items@[0]@);
                config_string(&items[0])
            } else {
                None
            }
        },
        Datum::Opt(Some(b)) => config_string(b),
        _ => plain_config_string(v),
    }
}

/// An event on the chain of a watched actor.
pub struct ActorEvent {
    /// The id of the actor.
    pub subject: String,
    pub event_type: String,
    pub data: Vec<u8>,
}

/// A text, or a question mark in its place.
pub open spec fn text_or_mark(v: DatumView) -> Seq<char> {
    match v {
        DatumView::Text(s) => s,
        _ => "?"@,
    }
}

/// A text, or a question mark in its place.
fn text_or_question(v: &Datum) -> (r: String)
    ensures
        r@ == text_or_mark(v@),
{
    match v {
        Datum::Text(s) => s.clone(),
        _ => "?".to_owned(),
    }
}

/// The data of an event: the bytes of the third item, where that is a list.
pub open spec fn event_data(items: Seq<DatumView>) -> Seq<u8> {
    if items.len() > 2 && items[2] is List {
        bytes_in(items[2]->List_0)
    } else {
        Seq::empty()
    }
}

/// Reads what an event handler is given: a tuple of subject, event type and
/// data. Anything but a tuple of two or more is no event.
pub fn actor_event(v: &Datum) -> (r: Option<ActorEvent>)
    ensures
        match r {
            Some(e) => {
                &&& v@ is Tuple
                &&& v@->Tuple_0.len() >= 2
                &&& e.subject@ == text_or_mark(v@->Tuple_0[0])
                &&& e.event_type@ == text_or_mark(v@->Tuple_0[1])
                &&& e.data@ == event_data(v@->Tuple_0)
            },
            None => !(v@ is Tuple) || v@->Tuple_0.len() < 2,
        },
{
    proof {
        reveal_with_fuel(datum_view, 3);
        reveal_with_fuel(datum_views, 3);
    }
    match v {
        Datum::Tuple(items) => {
            if items.len() < 2 {
                return None;
            }
            let subject = text_or_question(&items[0]);
            let event_type = text_or_question(&items[1]);
            let mut data: Vec<u8> = Vec::new();
            if items.len() > 2 {
                match &items[2] {
                    Datum::List(bytes) => {
                        data = bytes_of(bytes);
                    },
                    _ => {},
                }
            }
            Some(ActorEvent { subject, event_type, data })
        },
        _ => None,
    }
}

/// The connection that a handler is given: a text, or a tuple that starts with
/// one.
pub open spec fn connection_in(v: DatumView) -> Option<Seq<char>> {
    match v {
        DatumView::Text(s) => Some(s),
        DatumView::Tuple(items) => if items.len() > 0 && items[0] is Text {
            Some(items[0]->Text_0)
        } else {
            None
        },
        _ => None,
    }
}

/// Reads the connection that a handler is given.
pub fn connection_of(v: &Datum) -> (r: Option<String>)
    ensures
        found(r) == connection_in(v@),
{
    proof {
        reveal_with_fuel(datum_view, 3);
        reveal_with_fuel(datum_views, 3);
    }
    match v {
        Datum::Text(s) => Some(s.clone()),
        Datum::Tuple(items) => {
            match head(items) {
                Some(Datum::Text(s)) => Some(s.clone()),
                _ => None,
            }
        },
        _ => None,
    }
}

// ---- what values say -------------------------------------------------------

/// A variant with the name of a cause is that cause, whatever is inside it; one with
/// another name has the cause that is inside it. Among several values the first that
/// names a cause decides.
pub proof fn the_first_cause_decides(
    name: Seq<char>,
    payload: Seq<DatumView>,
    first: DatumView,
    rest: Seq<DatumView>,
    v: DatumView,
)
    requires
        v matches DatumView::Variant { case_name: n, tag: _, payload: p } && n == name && p == payload,
    ensures
        name == "Completed"@ || name == "Failed"@ || name == "Stopped"@ || name == "Killed"@ || name
            == "PeerKilled"@ ==> cause_in(Some(v)) == Some(name),
        !(name == "Completed"@ || name == "Failed"@ || name == "Stopped"@ || name == "Killed"@ || name
            == "PeerKilled"@) ==> cause_in(Some(v)) == cause_in(Some(DatumView::Tuple(payload))),
        cause_in(Some(DatumView::Tuple(seq![first] + rest))) == (if cause_in(Some(first)) is Some {
            cause_in(Some(first))
        } else {
            cause_in(Some(DatumView::Tuple(rest)))
        }),
        cause_in(Some(DatumView::Tuple(Seq::empty()))) is None,
        cause_in(Some(DatumView::List(payload))) == cause_in(Some(DatumView::Tuple(payload))),
        cause_in(None) is None,
{
    let five = causes();
    assert(five[0] == "Completed"@ && five[1] == "Failed"@ && five[2] == "Stopped"@ && five[3]
        == "Killed"@ && five[4] == "PeerKilled"@);
    first_wanted_split(seq![name], all_case_names(payload), five);
    assert(seq![name].drop_first() =~= Seq::empty());
    reveal_with_fuel(first_wanted, 2);
    assert(first_wanted(seq![name], five) == (if five.contains(name) {
        Some(name)
    } else {
        None
    }));
    if five.contains(name) {
        let i = choose|i: int| 0 <= i < five.len() && five[i] == name;
        assert(name == five[0] || name == five[1] || name == five[2] || name == five[3] || name
            == five[4]);
    }
    let all = seq![first] + rest;
    assert(all.drop_first() =~= rest);
    assert(all[0] == first);
    first_wanted_split(case_names(first), all_case_names(rest), five);
    assert(all_case_names(all) == case_names(first) + all_case_names(rest));
    assert(case_names(DatumView::Tuple(all)) == all_case_names(all));
    assert(case_names(DatumView::Tuple(rest)) == all_case_names(rest));
    assert(all_case_names(Seq::<DatumView>::empty()) =~= Seq::empty());
}

/// The bytes of a list are all that it holds, in their order; what is no byte is left
/// out.
pub proof fn all_bytes_are_taken(items: Seq<DatumView>, b: u8, other: DatumView)
    requires
        !(other is U8),
    ensures
        bytes_in(Seq::empty()).len() == 0,
        bytes_in(items.push(DatumView::U8(b))) == bytes_in(items).push(b),
        bytes_in(items.push(other)) == bytes_in(items),
{
    assert(items.push(DatumView::U8(b)).drop_last() =~= items);
    assert(items.push(other).drop_last() =~= items);
}

/// The configuration is the text that was handed over, wrapped or not: in an option, as
/// the first of a tuple, or as its bytes.
pub proof fn the_configuration_is_unwrapped(
    v: DatumView,
    rest: Seq<DatumView>,
    s: Seq<char>,
    bytes: Seq<DatumView>,
)
    ensures
        config_text(DatumView::Text(s)) == Some(s),
        config_text(DatumView::Opt(Some(Box::new(v)))) == config_text(v),
        config_text(DatumView::Tuple(seq![v] + rest)) == config_text(v),
        config_text(DatumView::Tuple(Seq::empty())) is None,
        bytes_in(bytes) == encode_utf8(s) ==> config_text(DatumView::List(bytes)) == Some(s),
        !valid_utf8(bytes_in(bytes)) ==> config_text(DatumView::List(bytes)) is None,
{
    assert((seq![v] + rest)[0] == v);
    encode_utf8_valid_utf8(s);
    encode_utf8_decode_utf8(s);
}

/// What the host answers is taken as it is meant, as a native result or as a variant
/// tagged 0 or 1: a success is one, a failure is one and gives its name, and the id of
/// a spawned actor is the text that the success carries.
pub proof fn answers_are_taken_as_meant(
    v: DatumView,
    ok: bool,
    name: Seq<char>,
    payload: DatumView,
    id: Seq<char>,
)
    requires
        ({
            ||| v == (if ok {
                DatumView::Res(Ok(Box::new(payload)))
            } else {
                DatumView::Res(Err(Box::new(payload)))
            })
            ||| v matches DatumView::Variant { case_name: _, tag, payload: p } && p == seq![payload] && tag
                == (if ok {
                0int
            } else {
                1int
            })
        }),
    ensures
        ok && payload == DatumView::Text(id) ==> spawned(v) == Ok::<Seq<char>, Seq<char>>(id),
        ok && !(payload is Text) ==> spawned(v) is Err,
        ok ==> stopped(v) is Ok && appended(v) is Ok && posted(v) is Ok,
        !ok ==> spawned(v) is Err && stopped(v) is Err && appended(v) is Err && posted(v) is Err,
        !ok && (payload == DatumView::Text(name) || (payload matches DatumView::Variant {
            case_name,
            tag: _,
            payload: _,
        } && case_name == name)) ==> spawned(v) == Err::<Seq<char>, Seq<char>>(name) && stopped(v)
            == Err::<(), Seq<char>>(name) && appended(v) == Err::<(), Seq<char>>(name) && posted(v)
            == Err::<u16, Seq<char>>(name),
        spawned(DatumView::Text(id)) == Ok::<Seq<char>, Seq<char>>(id),
{
}

/// The status of a response is the number in its field of that name.
pub proof fn the_status_is_that_of_the_response(
    fields: Seq<(Seq<char>, DatumView)>,
    i: int,
    s: u16,
)
    requires
        0 <= i < fields.len(),
        fields[i] == ("status"@, DatumView::U16(s)),
        forall|k: int| 0 <= k < i ==> (#[trigger] fields[k]).0 != "status"@,
    ensures
        posted(DatumView::Res(Ok(Box::new(DatumView::Record(fields))))) == Ok::<u16, Seq<char>>(s),
{
    field_is_found(fields, "status"@, i);
}

/// The first field with a name is found.
proof fn field_is_found(fields: Seq<(Seq<char>, DatumView)>, name: Seq<char>, i: int)
    requires
        0 <= i < fields.len(),
        fields[i].0 == name,
        forall|k: int| 0 <= k < i ==> (#[trigger] fields[k]).0 != name,
    ensures
        field(fields, name) == Some(fields[i].1),
    decreases fields.len(),
{
    if i > 0 {
        let rest = fields.drop_first();
        assert(fields[0].0 != name);
        assert(rest[i - 1] == fields[i]);
        assert forall|k: int| 0 <= k < i - 1 implies (#[trigger] rest[k]).0 != name by {
            assert(rest[k] == fields[k + 1]);
        }
        field_is_found(rest, name, i - 1);
    }
}

/// An event is about the actor that comes first, of the type that comes second, with
/// the bytes that come third. A connection is the text that is handed over, alone or
/// first in a tuple.
pub proof fn events_and_connections_are_read(
    subject: Seq<char>,
    event_type: Seq<char>,
    bytes: Seq<DatumView>,
    rest: Seq<DatumView>,
)
    ensures
        ({
            let items = seq![
                DatumView::Text(subject),
                DatumView::Text(event_type),
                DatumView::List(bytes),
            ];
            &&& text_or_mark(items[0]) == subject
            &&& text_or_mark(items[1]) == event_type
            &&& event_data(items) == bytes_in(bytes)
        }),
        connection_in(DatumView::Text(subject)) == Some(subject),
        connection_in(DatumView::Tuple(seq![DatumView::Text(subject)] + rest)) == Some(subject),
{
}

/// A cause is found inside options, results and the fields of records too; a value with
/// nothing inside names none.
pub proof fn causes_are_found_inside(
    v: DatumView,
    name: Seq<char>,
    fields: Seq<(Seq<char>, DatumView)>,
    n: u8,
    m: u16,
    k: u32,
    s: Seq<char>,
)
    ensures
        cause_in(Some(DatumView::Opt(Some(Box::new(v))))) == cause_in(Some(v)),
        cause_in(Some(DatumView::Opt(None))) is None,
        cause_in(Some(DatumView::Res(Ok(Box::new(v))))) == cause_in(Some(v)),
        cause_in(Some(DatumView::Res(Err(Box::new(v))))) == cause_in(Some(v)),
        cause_in(Some(DatumView::Record(seq![(name, v)] + fields))) == (if cause_in(Some(v)) is Some {
            cause_in(Some(v))
        } else {
            cause_in(Some(DatumView::Record(fields)))
        }),
        cause_in(Some(DatumView::Record(Seq::empty()))) is None,
        cause_in(Some(DatumView::U8(n))) is None,
        cause_in(Some(DatumView::U16(m))) is None,
        cause_in(Some(DatumView::U32(k))) is None,
        cause_in(Some(DatumView::Text(s))) is None,
        cause_in(Some(DatumView::Other)) is None,
{
    let all = seq![(name, v)] + fields;
    assert(all[0] == (name, v));
    assert(all.drop_first() =~= fields);
    first_wanted_split(case_names(v), field_case_names(fields), causes());
    assert(field_case_names(all) == case_names(v) + field_case_names(fields));
    assert(case_names(DatumView::Record(all)) == field_case_names(all));
    assert(case_names(DatumView::Record(fields)) == field_case_names(fields));
    assert(field_case_names(Seq::<(Seq<char>, DatumView)>::empty()) =~= Seq::empty());
}

/// An answer without a payload is a success or a failure by its tag alone; a failure
/// without a name is called unknown; and what is neither is a failure.
pub proof fn bare_answers_are_taken_as_meant(name: Seq<char>, tag: usize)
    ensures
        ({
            let v = DatumView::Variant { case_name: name, tag, payload: Seq::empty() };
            &&& tag == 0 ==> stopped(v) is Ok && appended(v) is Ok && posted(v) == Ok::<
                u16,
                Seq<char>,
            >(0) && spawned(v) is Err
            &&& tag == 1 ==> stopped(v) == Err::<(), Seq<char>>("unknown"@) && appended(v) == Err::<
                (),
                Seq<char>,
            >("unknown"@) && posted(v) == Err::<u16, Seq<char>>("unknown"@) && spawned(v) == Err::<
                Seq<char>,
                Seq<char>,
            >("unknown"@)
            &&& tag > 1 ==> stopped(v) is Err && appended(v) is Err && posted(v) is Err && spawned(
                v,
            ) is Err
        }),
        stopped(DatumView::Other) is Err && appended(DatumView::Other) is Err && posted(
            DatumView::Other,
        ) is Err && spawned(DatumView::Other) is Err,
{
}

} // verus!
