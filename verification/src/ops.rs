//! The requests that a client sends.

use crate::control::CommandView;
use crate::json::{
    compact, doc_text, entry, escape_plain, escaped, flat_doc, float_free, in_key_order, json_escape,
    json_text, members_text, parse_json, parsed, plain_keys, reads_back, text_is_quoted, tidy,
    tidy_deeper, writable, write_json, Json, JsonView, DEPTH_MAX,
};
use crate::text::{dec, decimal, printable, text_less};
use vstd::prelude::*;
use vstd::utf8::encode_utf8;

verus! {

// ---- flat requests ---------------------------------------------------------

/// Further members of a request.
pub open spec fn op_fields(fields: Seq<(Seq<char>, Seq<char>)>) -> Seq<char>
    decreases fields.len(),
{
    if fields.len() == 0 {
        Seq::empty()
    } else {
        op_fields(fields.drop_last()) + ",\""@ + fields.last().0 + "\":\""@ + escaped(fields.last().1)
            + "\""@
    }
}

/// A flat request: the operation, and further members that are texts.
pub open spec fn op_text(op: Seq<char>, fields: Seq<(Seq<char>, Seq<char>)>) -> Seq<char> {
    "{\"op\":\""@ + op + "\""@ + op_fields(fields) + "}"@
}

/// Fields, by their views.
pub open spec fn field_views(fields: Seq<(&str, &str)>) -> Seq<(Seq<char>, Seq<char>)> {
    Seq::new(fields.len(), |i: int| (fields[i].0@, fields[i].1@))
}

/// Writes a flat request.
pub fn json_op(op: &str, fields: &[(&str, &str)]) -> (r: String)
    ensures
        r@ == op_text(op@, field_views(fields@)),
{
    let mut out = "{\"op\":\"".to_owned();
    out.append(op);
    out.append("\"");
    let ghost head = out@;
    let ghost all = field_views(fields@);
    let mut i: usize = 0;
    assert(all.take(0) =~= Seq::empty());
    assert(head + op_fields(all.take(0)) =~= head);
    while i < fields.len()
        invariant
            i <= fields@.len(),
            all == field_views(fields@),
            out@ == head + op_fields(all.take(i as int)),
        decreases fields@.len() - i,
    {
        let (k, v) = fields[i];
        out.append(",\"");
        out.append(k);
        out.append("\":\"");
        out.append(json_escape(v).as_str());
        out.append("\"");
        i += 1;
        assert(all.take(i as int).drop_last() =~= all.take(i - 1));
        assert(out@ =~= head + op_fields(all.take(i as int)));
    }
    assert(all.take(i as int) =~= all);
    out.append("}");
    out
}

/// Members with one in front.
proof fn members_behind(first: (Seq<char>, Seq<char>), rest: Seq<(Seq<char>, Seq<char>)>)
    ensures
        members_text(flat_doc(seq![first] + rest)->Object_0) == "\""@ + first.0 + "\":\""@ + escaped(
            first.1,
        ) + "\""@ + op_fields(rest),
    decreases rest.len(),
{
    let all = seq![first] + rest;
    let entries = flat_doc(all)->Object_0;
    let front = "\""@ + first.0 + "\":\""@ + escaped(first.1) + "\""@;
    reveal_strlit(",\"");
    reveal_strlit("\":");
    reveal_strlit("\":\"");
    reveal_strlit("\"");
    if rest.len() == 0 {
        assert(entries.len() == 1 && entries[0] == (first.0, JsonView::Text(first.1)));
        text_is_quoted(first.1);
        assert(members_text(entries) =~= front + op_fields(rest));
    } else {
        let last = rest.last();
        members_behind(first, rest.drop_last());
        assert(all.drop_last() =~= seq![first] + rest.drop_last());
        assert(entries.drop_last() =~= flat_doc(all.drop_last())->Object_0);
        assert(entries[entries.len() - 1] == (last.0, JsonView::Text(last.1)));
        text_is_quoted(last.1);
        assert(members_text(entries) =~= members_text(entries.drop_last()) + ",\""@ + last.0
            + "\":\""@ + escaped(last.1) + "\""@);
        assert(members_text(entries) =~= front + op_fields(rest));
    }
}

/// A flat request is an object of texts.
pub proof fn requests_are_flat(op: Seq<char>, fields: Seq<(Seq<char>, Seq<char>)>)
    requires
        escaped(op) == op,
    ensures
        op_text(op, fields) == doc_text(flat_doc(seq![("op"@, op)] + fields)),
{
    members_behind(("op"@, op), fields);
    reveal_strlit("{\"op\":\"");
    reveal_strlit("{");
    reveal_strlit("op");
    reveal_strlit("\"");
    reveal_strlit("\":\"");
    assert(op_text(op, fields) =~= doc_text(flat_doc(seq![("op"@, op)] + fields)));
}

/// The text of a command that is sent as a flat request.
pub open spec fn request_text(c: CommandView) -> Option<Seq<char>> {
    match c {
        CommandView::List => Some(op_text("list"@, Seq::empty())),
        CommandView::Status(h) => Some(op_text("status"@, seq![("handle"@, h)])),
        CommandView::Chain(h) => Some(op_text("chain"@, seq![("handle"@, h)])),
        CommandView::Remove(h) => Some(op_text("remove"@, seq![("handle"@, h)])),
        CommandView::Restart(h) => Some(op_text("restart"@, seq![("handle"@, h)])),
        _ => None,
    }
}

// ---- adding ----------------------------------------------------------------

/// The service that an add request declares, in JSON.
pub open spec fn service_object(
    handle: Seq<char>,
    manifest: Seq<char>,
    max: Option<u32>,
    window_ms: Option<u64>,
    keep_chain: bool,
) -> Seq<char> {
    "{\"handle\":\""@ + escaped(handle) + "\",\"manifest\":\""@ + escaped(manifest) + "\""@ + (match max {
        Some(m) => ",\"max\":"@ + dec(m as nat),
        None => Seq::empty(),
    }) + (match window_ms {
        Some(w) => ",\"window_ms\":"@ + dec(w as nat),
        None => Seq::empty(),
    }) + (if keep_chain {
        ",\"keep_chain\":true"@
    } else {
        Seq::empty()
    }) + "}"@
}

/// The text of an add request.
pub open spec fn add_text(
    handle: Seq<char>,
    manifest: Seq<char>,
    max: Option<u32>,
    window_ms: Option<u64>,
    keep_chain: bool,
) -> Seq<char> {
    "{\"op\":\"add\",\"service\":"@ + service_object(handle, manifest, max, window_ms, keep_chain)
        + "}"@
}

/// The service that an add request declares.
pub open spec fn service_doc(
    handle: Seq<char>,
    manifest: Seq<char>,
    max: Option<u32>,
    window_ms: Option<u64>,
    keep_chain: bool,
) -> JsonView {
    JsonView::Object(
        seq![("handle"@, JsonView::Text(handle)), ("manifest"@, JsonView::Text(manifest))] + (
        match max {
            Some(m) => seq![("max"@, JsonView::Uint(m as u64))],
            None => Seq::empty(),
        }) + (match window_ms {
            Some(w) => seq![("window_ms"@, JsonView::Uint(w))],
            None => Seq::empty(),
        }) + (if keep_chain {
            seq![("keep_chain"@, JsonView::Bool(true))]
        } else {
            Seq::empty()
        }),
    )
}

/// The document of an add request.
pub open spec fn add_doc(service: JsonView) -> JsonView {
    JsonView::Object(seq![("op"@, JsonView::Text("add"@)), ("service"@, service)])
}

/// One more member is written behind the others.
proof fn member_behind(
    entries: Seq<(Seq<char>, JsonView)>,
    key: Seq<char>,
    v: JsonView,
    start: Seq<char>,
)
    requires
        entries.len() > 0,
        start == ",\""@ + key + "\":"@,
    ensures
        members_text(entries.push((key, v))) == members_text(entries) + (start + doc_text(v)),
{
    let all = entries.push((key, v));
    assert(all.drop_last() =~= entries);
    assert(all[all.len() - 1] == (key, v));
    assert(members_text(all) =~= members_text(entries) + (start + doc_text(v)));
}

/// The members of a service that are always there.
proof fn service_front(handle: Seq<char>, manifest: Seq<char>)
    ensures
        "{"@ + members_text(
            seq![("handle"@, JsonView::Text(handle)), ("manifest"@, JsonView::Text(manifest))],
        ) == "{\"handle\":\""@ + escaped(handle) + "\",\"manifest\":\""@ + escaped(manifest) + "\""@,
{
    reveal_strlit("handle");
    reveal_strlit("manifest");
    reveal_strlit("{");
    reveal_strlit("\"");
    reveal_strlit("\":");
    reveal_strlit(",\"");
    reveal_strlit("{\"handle\":\"");
    reveal_strlit("\",\"manifest\":\"");
    text_is_quoted(handle);
    text_is_quoted(manifest);
    let one = seq![("handle"@, JsonView::Text(handle))];
    let two = seq![("handle"@, JsonView::Text(handle)), ("manifest"@, JsonView::Text(manifest))];
    assert(two =~= one.push(("manifest"@, JsonView::Text(manifest))));
    member_behind(one, "manifest"@, JsonView::Text(manifest), ",\""@ + "manifest"@ + "\":"@);
    assert("{"@ + members_text(two) =~= "{\"handle\":\""@ + escaped(handle) + "\",\"manifest\":\""@
        + escaped(manifest) + "\""@);
}

/// A declared service is written as it is.
proof fn service_is_written(
    handle: Seq<char>,
    manifest: Seq<char>,
    max: Option<u32>,
    window_ms: Option<u64>,
    keep_chain: bool,
)
    ensures
        doc_text(service_doc(handle, manifest, max, window_ms, keep_chain)) == service_object(
            handle,
            manifest,
            max,
            window_ms,
            keep_chain,
        ),
{
    let two = seq![("handle"@, JsonView::Text(handle)), ("manifest"@, JsonView::Text(manifest))];
    service_front(handle, manifest);
    let a: Seq<char> = match max {
        Some(m) => ",\"max\":"@ + dec(m as nat),
        None => Seq::empty(),
    };
    let three = match max {
        Some(m) => two.push(("max"@, JsonView::Uint(m as u64))),
        None => two,
    };
    assert(members_text(three) == members_text(two) + a) by {
        match max {
            Some(m) => {
                assert(",\"max\":"@ =~= ",\""@ + "max"@ + "\":"@) by {
                    reveal_strlit(",\"max\":");
                    reveal_strlit(",\"");
                    reveal_strlit("max");
                    reveal_strlit("\":");
                }
                member_behind(two, "max"@, JsonView::Uint(m as u64), ",\"max\":"@);
                assert(doc_text(JsonView::Uint(m as u64)) == dec(m as nat));
            },
            None => {
                assert(members_text(two) + a =~= members_text(two));
            },
        }
    }
    let b: Seq<char> = match window_ms {
        Some(w) => ",\"window_ms\":"@ + dec(w as nat),
        None => Seq::empty(),
    };
    let four = match window_ms {
        Some(w) => three.push(("window_ms"@, JsonView::Uint(w))),
        None => three,
    };
    assert(members_text(four) == members_text(three) + b) by {
        match window_ms {
            Some(w) => {
                assert(",\"window_ms\":"@ =~= ",\""@ + "window_ms"@ + "\":"@) by {
                    reveal_strlit(",\"window_ms\":");
                    reveal_strlit(",\"");
                    reveal_strlit("window_ms");
                    reveal_strlit("\":");
                }
                member_behind(three, "window_ms"@, JsonView::Uint(w), ",\"window_ms\":"@);
                assert(doc_text(JsonView::Uint(w)) == dec(w as nat));
            },
            None => {
                assert(members_text(three) + b =~= members_text(three));
            },
        }
    }
    let c: Seq<char> = if keep_chain {
        ",\"keep_chain\":true"@
    } else {
        Seq::empty()
    };
    let five = if keep_chain {
        four.push(("keep_chain"@, JsonView::Bool(true)))
    } else {
        four
    };
    assert(members_text(five) == members_text(four) + c) by {
        if keep_chain {
            let start = ",\""@ + "keep_chain"@ + "\":"@;
            member_behind(four, "keep_chain"@, JsonView::Bool(true), start);
            assert(doc_text(JsonView::Bool(true)) == "true"@);
            assert(start + "true"@ =~= c) by {
                reveal_strlit(",\"keep_chain\":true");
                reveal_strlit(",\"");
                reveal_strlit("keep_chain");
                reveal_strlit("\":");
                reveal_strlit("true");
            }
        } else {
            assert(members_text(four) + c =~= members_text(four));
        }
    }
    let service = service_doc(handle, manifest, max, window_ms, keep_chain);
    assert(service->Object_0 =~= five);
    let m = members_text(two);
    assert("{"@ + (m + a + b + c) + "}"@ =~= ("{"@ + m) + a + b + c + "}"@);
}

/// A declared service has plain keys.
proof fn service_is_writable(
    handle: Seq<char>,
    manifest: Seq<char>,
    max: Option<u32>,
    window_ms: Option<u64>,
    keep_chain: bool,
)
    ensures
        writable(
            service_doc(handle, manifest, max, window_ms, keep_chain),
            (DEPTH_MAX - 1) as nat,
        ),
{
    reveal_strlit("handle");
    reveal_strlit("manifest");
    reveal_strlit("max");
    reveal_strlit("window_ms");
    reveal_strlit("keep_chain");
    escape_plain("handle"@);
    escape_plain("manifest"@);
    escape_plain("max"@);
    escape_plain("window_ms"@);
    escape_plain("keep_chain"@);
    reveal_with_fuel(writable, 2);
    assert("handle"@.len() == 6 && "manifest"@.len() == 8 && "max"@.len() == 3 && "window_ms"@.len()
        == 9 && "keep_chain"@.len() == 10);
    let entries = service_doc(handle, manifest, max, window_ms, keep_chain)->Object_0;
    assert(forall|i: int, j: int|
        0 <= i < j < entries.len() ==> (#[trigger] entries[i]).0.len() != (
        #[trigger] entries[j]).0.len());
    assert(plain_keys(entries));
}

/// An add request is an object with the service in it, and is written as it is.
pub proof fn add_requests_are_written(
    handle: Seq<char>,
    manifest: Seq<char>,
    max: Option<u32>,
    window_ms: Option<u64>,
    keep_chain: bool,
)
    ensures
        ({
            let doc = add_doc(service_doc(handle, manifest, max, window_ms, keep_chain));
            &&& add_text(handle, manifest, max, window_ms, keep_chain) == doc_text(doc)
            &&& writable(doc, DEPTH_MAX as nat)
        }),
{
    reveal_strlit("op");
    reveal_strlit("add");
    reveal_strlit("service");
    reveal_strlit("{");
    reveal_strlit("\"");
    reveal_strlit("\":");
    reveal_strlit(",\"");
    reveal_strlit("{\"op\":\"add\",\"service\":");
    escape_plain("op"@);
    escape_plain("add"@);
    escape_plain("service"@);
    let service = service_doc(handle, manifest, max, window_ms, keep_chain);
    service_is_written(handle, manifest, max, window_ms, keep_chain);
    service_is_writable(handle, manifest, max, window_ms, keep_chain);
    text_is_quoted("add"@);
    let first = seq![("op"@, JsonView::Text("add"@))];
    let start = ",\""@ + "service"@ + "\":"@;
    member_behind(first, "service"@, service, start);
    let doc = add_doc(service);
    assert(doc->Object_0 =~= first.push(("service"@, service)));
    let inner = doc_text(service);
    assert(members_text(first) =~= "\""@ + "op"@ + "\":"@ + ("\""@ + "add"@ + "\""@));
    assert("{"@ + members_text(first) + start =~= "{\"op\":\"add\",\"service\":"@);
    assert("{"@ + (members_text(first) + (start + inner)) + "}"@ =~= ("{"@ + members_text(first)
        + start) + inner + "}"@);
    reveal_with_fuel(writable, 2);
    assert("op"@.len() != "service"@.len());
    assert(plain_keys(doc->Object_0));
}

/// Writes an add request.
pub fn add_op(
    handle: &str,
    manifest: &str,
    max: Option<u32>,
    window_ms: Option<u64>,
    keep_chain: bool,
) -> (r: String)
    ensures
        r@ == add_text(handle@, manifest@, max, window_ms, keep_chain),
{
    let mut svc = "{\"handle\":\"".to_owned();
    svc.append(json_escape(handle).as_str());
    svc.append("\",\"manifest\":\"");
    svc.append(json_escape(manifest).as_str());
    svc.append("\"");
    let ghost one = svc@;
    match max {
        Some(m) => {
            svc.append(",\"max\":");
            svc.append(decimal(m as u64).as_str());
            assert(svc@ =~= one + (",\"max\":"@ + dec(m as nat)));
        },
        None => {
            assert(svc@ =~= one + Seq::<char>::empty());
        },
    }
    let ghost two = svc@;
    match window_ms {
        Some(w) => {
            svc.append(",\"window_ms\":");
            svc.append(decimal(w).as_str());
            assert(svc@ =~= two + (",\"window_ms\":"@ + dec(w as nat)));
        },
        None => {
            assert(svc@ =~= two + Seq::<char>::empty());
        },
    }
    let ghost three = svc@;
    if keep_chain {
        svc.append(",\"keep_chain\":true");
    } else {
        assert(svc@ =~= three + Seq::<char>::empty());
    }
    svc.append("}");
    let mut out = "{\"op\":\"add\",\"service\":".to_owned();
    out.append(svc.as_str());
    out.append("}");
    out
}

// ---- applying --------------------------------------------------------------

/// The services that a roster declares: the member of an object, or a bare array.
pub open spec fn services_in(roster: Result<JsonView, Seq<char>>) -> Result<JsonView, Seq<char>> {
    match roster {
        Err(e) => Err("roster is not valid JSON: "@ + e),
        Ok(v) => match v {
            JsonView::Object(_) => match v.get("services"@) {
                Some(s) => Ok(s),
                None => Err("roster object has no \"services\" array"@),
            },
            JsonView::Array(_) => Ok(v),
            _ => Err("roster must be a {\"services\":[…]} object or a [...] array"@),
        },
    }
}

/// The services that a roster declares.
pub fn services_of(roster: Result<Json, String>) -> (r: Result<Json, String>)
    ensures
        crate::control::doc_view(r) == services_in(crate::control::doc_view(roster)),
{
    let v = match roster {
        Ok(v) => v,
        Err(e) => {
            let mut out = "roster is not valid JSON: ".to_owned();
            out.append(e.as_str());
            return Err(out);
        },
    };
    match v {
        Json::Object(entries) => match Json::Object(entries).into_member("services") {
            Some(s) => Ok(s),
            None => Err("roster object has no \"services\" array".to_owned()),
        },
        Json::Array(items) => Ok(Json::Array(items)),
        _ => Err("roster must be a {\"services\":[…]} object or a [...] array".to_owned()),
    }
}

/// The document of an apply request.
pub open spec fn apply_doc(services: JsonView) -> JsonView {
    JsonView::Object(seq![("op"@, JsonView::Text("apply"@)), ("services"@, services)])
}

/// An apply request has its keys in order.
proof fn apply_doc_is_tidy(services: JsonView, depth: nat)
    requires
        tidy(services, depth),
    ensures
        tidy(apply_doc(services), depth + 1),
        float_free(services) ==> float_free(apply_doc(services)),
{
    reveal_strlit("op");
    reveal_strlit("services");
    let entries = apply_doc(services)->Object_0;
    reveal_with_fuel(tidy, 2);
    reveal_with_fuel(float_free, 2);
    assert(text_less("op"@, "services"@));
    assert(entries[0].0 == "op"@ && entries[1].0 == "services"@);
    assert(in_key_order(entries));
}

/// Writes an apply request around services that were read. A server reads it as a
/// request to apply those services, where every number in them is an integer and they
/// are nested no deeper than a request may be.
pub fn apply_request(services: Json) -> (r: String)
    requires
        tidy(services@, DEPTH_MAX as nat),
    ensures
        r@ == json_text(apply_doc(services@)),
        float_free(services@) ==> r@ == compact(apply_doc(services@)),
        printable(r@),
        tidy(services@, (DEPTH_MAX - 1) as nat) && float_free(services@) ==> reads_back(
            r@,
            apply_doc(services@),
        ),
{
    let mut entries: Vec<(String, Json)> = Vec::new();
    entries.push(("op".to_owned(), Json::Text("apply".to_owned())));
    entries.push(("services".to_owned(), services));
    let doc = Json::Object(entries);
    proof {
        reveal_with_fuel(crate::json::json_view, 3);
        assert(doc@->Object_0 =~= apply_doc(services@)->Object_0);
        apply_doc_is_tidy(services@, DEPTH_MAX as nat);
        if tidy(services@, (DEPTH_MAX - 1) as nat) {
            apply_doc_is_tidy(services@, (DEPTH_MAX - 1) as nat);
        }
    }
    write_json(&doc)
}

/// A member of a document is nested less deep than the document.
proof fn members_are_tidy(entries: Seq<(Seq<char>, JsonView)>, key: Seq<char>, depth: nat)
    requires
        forall|i: int| 0 <= i < entries.len() ==> tidy((#[trigger] entries[i]).1, depth),
    ensures
        entry(entries, key) matches Some(v) ==> tidy(v, depth),
    decreases entries.len(),
{
    if entries.len() > 0 {
        let rest = entries.drop_first();
        assert(tidy(entries[0].1, depth));
        assert forall|i: int| 0 <= i < rest.len() implies tidy((#[trigger] rest[i]).1, depth) by {
            assert(rest[i] == entries[i + 1]);
        }
        members_are_tidy(rest, key, depth);
    }
}

/// Writes an apply request from the text of a roster, on one line. A server reads it
/// as a request to apply the services of the roster, where every number in them is
/// an integer; a bare array has to leave room for one level of nesting.
pub fn apply_op(roster: &str) -> (r: Result<String, String>)
    ensures
        match (r, services_in(parsed(encode_utf8(roster@)))) {
            (Ok(text), Ok(services)) => {
                &&& text@ == json_text(apply_doc(services))
                &&& float_free(services) ==> text@ == compact(apply_doc(services))
                &&& printable(text@)
                &&& (parsed(encode_utf8(roster@))->Ok_0 is Object || tidy(
                    services,
                    (DEPTH_MAX - 1) as nat,
                )) && float_free(services) ==> reads_back(text@, apply_doc(services))
            },
            (Err(e), Err(why)) => e@ == why,
            _ => false,
        },
{
    let doc = parse_json(roster.as_bytes());
    proof {
        match parsed(encode_utf8(roster@)) {
            Ok(JsonView::Object(entries)) => {
                members_are_tidy(entries, "services"@, (DEPTH_MAX - 1) as nat);
                match entry(entries, "services"@) {
                    Some(services) => {
                        tidy_deeper(services, (DEPTH_MAX - 1) as nat, DEPTH_MAX as nat);
                    },
                    None => {},
                }
            },
            _ => {},
        }
    }
    match services_of(doc) {
        Ok(services) => Ok(apply_request(services)),
        Err(e) => Err(e),
    }
}

// ---- what requests say -----------------------------------------------------

/// A request names its operation and the handle that it is about, and nothing else.
pub proof fn requests_name_operation_and_handle(h: Seq<char>)
    ensures
        request_text(CommandView::List) == Some(
            doc_text(JsonView::Object(seq![("op"@, JsonView::Text("list"@))])),
        ),
        request_text(CommandView::Status(h)) == Some(
            doc_text(
                JsonView::Object(
                    seq![("op"@, JsonView::Text("status"@)), ("handle"@, JsonView::Text(h))],
                ),
            ),
        ),
        request_text(CommandView::Chain(h)) == Some(
            doc_text(
                JsonView::Object(
                    seq![("op"@, JsonView::Text("chain"@)), ("handle"@, JsonView::Text(h))],
                ),
            ),
        ),
        request_text(CommandView::Remove(h)) == Some(
            doc_text(
                JsonView::Object(
                    seq![("op"@, JsonView::Text("remove"@)), ("handle"@, JsonView::Text(h))],
                ),
            ),
        ),
        request_text(CommandView::Restart(h)) == Some(
            doc_text(
                JsonView::Object(
                    seq![("op"@, JsonView::Text("restart"@)), ("handle"@, JsonView::Text(h))],
                ),
            ),
        ),
{
    reveal_strlit("list");
    escape_plain("list"@);
    requests_are_flat("list"@, Seq::empty());
    assert(flat_doc(seq![("op"@, "list"@)] + Seq::<(Seq<char>, Seq<char>)>::empty())->Object_0 =~= seq![
        ("op"@, JsonView::Text("list"@)),
    ]);
    reveal_strlit("status");
    reveal_strlit("chain");
    reveal_strlit("remove");
    reveal_strlit("restart");
    named_request("status"@, h);
    named_request("chain"@, h);
    named_request("remove"@, h);
    named_request("restart"@, h);
}

/// A request for a handle is an object with the operation and the handle.
proof fn named_request(op: Seq<char>, h: Seq<char>)
    requires
        forall|i: int| 0 <= i < op.len() ==> 'a' <= #[trigger] op[i] <= 'z',
    ensures
        op_text(op, seq![("handle"@, h)]) == doc_text(
            JsonView::Object(seq![("op"@, JsonView::Text(op)), ("handle"@, JsonView::Text(h))]),
        ),
{
    escape_plain(op);
    requests_are_flat(op, seq![("handle"@, h)]);
    assert(flat_doc(seq![("op"@, op)] + seq![("handle"@, h)])->Object_0 =~= seq![
        ("op"@, JsonView::Text(op)),
        ("handle"@, JsonView::Text(h)),
    ]);
}

/// A flat request carries its members one for one, behind the operation.
pub proof fn members_are_carried(op: Seq<char>, fields: Seq<(Seq<char>, Seq<char>)>)
    requires
        escaped(op) == op,
    ensures
        op_text(op, fields) == doc_text(
            JsonView::Object(
                seq![("op"@, JsonView::Text(op))] + Seq::new(
                    fields.len(),
                    |i: int| (fields[i].0, JsonView::Text(fields[i].1)),
                ),
            ),
        ),
{
    requests_are_flat(op, fields);
    assert(flat_doc(seq![("op"@, op)] + fields)->Object_0 =~= seq![("op"@, JsonView::Text(op))]
        + Seq::new(fields.len(), |i: int| (fields[i].0, JsonView::Text(fields[i].1))));
}

/// An add request declares the service that was given: its handle and its manifest,
/// and the limit, the window and the chain setting where they were given, and not
/// where they were not.
pub proof fn an_add_declares_what_was_given(
    handle: Seq<char>,
    manifest: Seq<char>,
    max: Option<u32>,
    window_ms: Option<u64>,
    keep_chain: bool,
)
    ensures
        ({
            let service = service_doc(handle, manifest, max, window_ms, keep_chain);
            let doc = add_doc(service);
            &&& doc.get("op"@) == Some(JsonView::Text("add"@))
            &&& doc.get("service"@) == Some(service)
            &&& service.get("handle"@) == Some(JsonView::Text(handle))
            &&& service.get("manifest"@) == Some(JsonView::Text(manifest))
            &&& service.get("max"@) == (if max is Some {
                Some(JsonView::Uint(max->0 as u64))
            } else {
                None
            })
            &&& service.get("window_ms"@) == (if window_ms is Some {
                Some(JsonView::Uint(window_ms->0))
            } else {
                None
            })
            &&& service.get("keep_chain"@) == (if keep_chain {
                Some(JsonView::Bool(true))
            } else {
                None
            })
        }),
{
    reveal_strlit("op");
    reveal_strlit("service");
    reveal_strlit("handle");
    reveal_strlit("manifest");
    reveal_strlit("max");
    reveal_strlit("window_ms");
    reveal_strlit("keep_chain");
    assert("op"@.len() == 2 && "service"@.len() == 7);
    assert("handle"@.len() == 6 && "manifest"@.len() == 8 && "max"@.len() == 3 && "window_ms"@.len()
        == 9 && "keep_chain"@.len() == 10);
    reveal_with_fuel(entry, 6);
}

/// An apply request carries the services of the roster: the `services` of an object, or
/// a bare array as it is. Anything else is refused.
pub proof fn an_apply_carries_the_services(v: JsonView, services: JsonView)
    ensures
        apply_doc(services).get("op"@) == Some(JsonView::Text("apply"@)),
        apply_doc(services).get("services"@) == Some(services),
        v is Object && v.get("services"@) == Some(services) ==> services_in(Ok(v)) == Ok::<
            JsonView,
            Seq<char>,
        >(services),
        v is Object && v.get("services"@) is None ==> services_in(Ok(v)) is Err,
        v is Array ==> services_in(Ok(v)) == Ok::<JsonView, Seq<char>>(v),
        !(v is Object) && !(v is Array) ==> services_in(Ok(v)) is Err,
{
    reveal_strlit("op");
    reveal_strlit("services");
    assert("op"@.len() == 2 && "services"@.len() == 8);
    reveal_with_fuel(entry, 3);
}

} // verus!
