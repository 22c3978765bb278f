//! What is written as JSON by hand is JSON: each reply, and each recorded event, is
//! the text of a document that says the same, on one line.

use crate::hex::{hex_bytes, hex_round_trip, hex_text, is_hex, nibble};
use crate::json::{
    doc_text, documents_stand_on_one_line, entry, esc, escape_plain, escaped, items_text, members_text,
    plain_keys, text_is_quoted, writable, JsonView, DEPTH_MAX,
};
use crate::line::{a_sent_line_is_read, after_line, first_line, has_line};
use crate::reconcile::record_line;
use crate::reply::{
    applied_text, bool_text, chain_text, err_text, ok_text, rec_text, roster_text, service_text,
    spec_text, status_text, svc_text,
};
use crate::roster::{all_wf, ChainRecView, SvcView};
use crate::text::{dec, joined};
use vstd::prelude::*;
use vstd::utf8::encode_utf8;

verus! {

/// The document of a reply that refuses a request.
pub open spec fn err_doc(msg: Seq<char>) -> JsonView {
    JsonView::Object(seq![("ok"@, JsonView::Bool(false)), ("error"@, JsonView::Text(msg))])
}

/// The document of a reply that reports what was done.
pub open spec fn ok_doc(msg: Seq<char>) -> JsonView {
    JsonView::Object(seq![("ok"@, JsonView::Bool(true)), ("message"@, JsonView::Text(msg))])
}

/// The document of what is declared of a service.
pub open spec fn spec_doc(s: SvcView) -> JsonView {
    JsonView::Object(
        seq![
            ("manifest"@, JsonView::Text(s.manifest)),
            ("max"@, JsonView::Uint(s.max as u64)),
            ("window_ms"@, JsonView::Uint(s.window_ms)),
            ("recording"@, JsonView::Bool(s.record is Some)),
            ("keep_chain"@, JsonView::Bool(s.keep_chain)),
        ],
    )
}

/// The document of what is observed of a service.
pub open spec fn status_doc(s: SvcView) -> JsonView {
    JsonView::Object(
        seq![
            ("blocked"@, JsonView::Bool(s.blocked)),
            ("current_id"@, JsonView::Text(s.current_id)),
            ("restarts"@, JsonView::Uint(s.restarts.len() as u64)),
        ],
    )
}

/// The document of a service: what is declared, and what is observed.
pub open spec fn svc_doc(s: SvcView) -> JsonView {
    JsonView::Object(
        seq![
            ("handle"@, JsonView::Text(s.handle)),
            ("spec"@, spec_doc(s)),
            ("status"@, status_doc(s)),
        ],
    )
}

/// The document of a reply that lists the roster.
pub open spec fn roster_doc(services: Seq<SvcView>) -> JsonView {
    JsonView::Object(
        seq![
            ("ok"@, JsonView::Bool(true)),
            ("roster"@, JsonView::Array(services.map_values(|s: SvcView| svc_doc(s)))),
        ],
    )
}

/// The document of a reply that describes one service.
pub open spec fn service_reply_doc(s: SvcView) -> JsonView {
    JsonView::Object(seq![("ok"@, JsonView::Bool(true)), ("service"@, svc_doc(s))])
}

/// The document of a kept chain event.
pub open spec fn rec_doc(c: ChainRecView) -> JsonView {
    JsonView::Object(
        seq![
            ("seq"@, JsonView::Uint(c.seq)),
            ("type"@, JsonView::Text(c.event_type)),
            ("data_hex"@, JsonView::Text(c.data_hex)),
        ],
    )
}

/// The document of a reply that lists the kept chain events of a service.
pub open spec fn chain_doc(s: SvcView) -> JsonView {
    JsonView::Object(
        seq![
            ("ok"@, JsonView::Bool(true)),
            ("handle"@, JsonView::Text(s.handle)),
            ("events"@, JsonView::Array(s.chain.map_values(|c: ChainRecView| rec_doc(c)))),
        ],
    )
}

/// The document of a reply that counts what an apply has changed.
pub open spec fn applied_doc(added: u64, removed: u64) -> JsonView {
    JsonView::Object(
        seq![
            ("ok"@, JsonView::Bool(true)),
            ("added"@, JsonView::Uint(added)),
            ("removed"@, JsonView::Uint(removed)),
        ],
    )
}

/// The text of an object with these members, but for the end.
#[verifier::opaque]
spec fn front(entries: Seq<(Seq<char>, JsonView)>) -> Seq<char> {
    "{"@ + members_text(entries)
}

/// An object with its first member: `lit` leads into the value, which is `body`
/// between `o` and `c`.
proof fn begin(
    key: Seq<char>,
    v: JsonView,
    lit: Seq<char>,
    o: Seq<char>,
    body: Seq<char>,
    c: Seq<char>,
)
    requires
        lit == "{\""@ + key + "\":"@ + o,
        doc_text(v) == o + body + c,
    ensures
        front(seq![(key, v)]) == (lit + body) + c,
{
    reveal(front);
    reveal_strlit("{");
    reveal_strlit("\"");
    reveal_strlit("{\"");
    let one = seq![(key, v)];
    assert(members_text(one) == "\""@ + one[0].0 + "\":"@ + doc_text(one[0].1));
    assert("{"@ + members_text(one) =~= lit + body + c);
}

/// An object so far, with one more member: `s` is its text up to the closing `t` of
/// the last value, `lit` leads from there into the next value, which is `body`
/// between `o` and `c`.
proof fn grow(
    entries: Seq<(Seq<char>, JsonView)>,
    s: Seq<char>,
    t: Seq<char>,
    key: Seq<char>,
    v: JsonView,
    lit: Seq<char>,
    o: Seq<char>,
    body: Seq<char>,
    c: Seq<char>,
)
    requires
        entries.len() > 0,
        front(entries) == s + t,
        lit == t + ",\""@ + key + "\":"@ + o,
        doc_text(v) == o + body + c,
    ensures
        front(entries.push((key, v))) == (s + lit + body) + c,
{
    reveal(front);
    let all = entries.push((key, v));
    assert(all.drop_last() =~= entries);
    assert(all[all.len() - 1] == (key, v));
    let m = members_text(entries);
    let start = ",\""@ + key + "\":"@;
    assert(members_text(all) =~= m + start + (o + body + c));
    assert("{"@ + members_text(all) =~= ("{"@ + m) + start + (o + body + c));
    assert(s + t + start + (o + body + c) =~= s + (t + ",\""@ + key + "\":"@ + o) + body + c);
}

/// A whole object: `end` is its end, from the closing `t` of the last value on.
proof fn close(entries: Seq<(Seq<char>, JsonView)>, s: Seq<char>, t: Seq<char>, end: Seq<char>)
    requires
        front(entries) == s + t,
        end == t + "}"@,
    ensures
        doc_text(JsonView::Object(entries)) == s + end,
{
    reveal(front);
    assert((s + t) + "}"@ =~= s + (t + "}"@));
}

/// The texts of documents, with commas between neighbours.
proof fn items_are_joined(docs: Seq<JsonView>)
    ensures
        items_text(docs) == joined(docs.map_values(|d: JsonView| doc_text(d)), ","@),
    decreases docs.len(),
{
    let all = docs.map_values(|d: JsonView| doc_text(d));
    if docs.len() > 1 {
        items_are_joined(docs.drop_last());
        assert(all.drop_last() =~= docs.drop_last().map_values(|d: JsonView| doc_text(d)));
        assert(all.last() == doc_text(docs[docs.len() - 1]));
    } else if docs.len() == 1 {
        assert(all[0] == doc_text(docs[0]));
    }
}

/// The text of truth values.
proof fn truth_is_written(b: bool)
    ensures
        doc_text(JsonView::Bool(b)) == Seq::<char>::empty() + bool_text(b) + Seq::<char>::empty(),
{
    assert(doc_text(JsonView::Bool(b)) =~= Seq::<char>::empty() + bool_text(b) + Seq::<
        char,
    >::empty());
}

/// The text of a number.
proof fn number_is_written(n: u64)
    ensures
        doc_text(JsonView::Uint(n)) == Seq::<char>::empty() + dec(n as nat) + Seq::<char>::empty(),
{
    assert(doc_text(JsonView::Uint(n)) =~= Seq::<char>::empty() + dec(n as nat) + Seq::<
        char,
    >::empty());
}

/// The document of a recorded event.
pub open spec fn line_doc(
    handle: Seq<char>,
    child: Seq<char>,
    event_type: Seq<char>,
    seq: u64,
    hex: Seq<char>,
) -> JsonView {
    JsonView::Object(
        seq![
            ("handle"@, JsonView::Text(handle)),
            ("child"@, JsonView::Text(child)),
            ("type"@, JsonView::Text(event_type)),
            ("seq"@, JsonView::Uint(seq)),
            ("data_hex"@, JsonView::Text(hex)),
        ],
    )
}

/// The text of a recorded event.
spec fn line_text(
    handle: Seq<char>,
    child: Seq<char>,
    event_type: Seq<char>,
    seq: u64,
    hex: Seq<char>,
) -> Seq<char> {
    "{\"handle\":\""@ + escaped(handle) + "\",\"child\":\""@ + escaped(child) + "\",\"type\":\""@
        + escaped(event_type) + "\",\"seq\":"@ + dec(seq as nat) + ",\"data_hex\":\""@ + hex
        + "\"}"@
}

/// Hexadecimal digits need no escaping.
proof fn hex_is_plain(s: Seq<char>)
    requires
        is_hex(s),
    ensures
        escaped(s) == s,
{
    assert forall|i: int| 0 <= i < s.len() implies esc(#[trigger] s[i]) == seq![s[i]] by {
        assert(nibble(s[i]) is Some);
    }
    escape_plain(s);
}

/// What may be nested `depth` deep may be nested deeper.
proof fn deeper(v: JsonView, depth: nat)
    requires
        writable(v, depth),
    ensures
        writable(v, depth + 1),
    decreases v,
{
    match v {
        JsonView::Array(items) => {
            assert forall|i: int| 0 <= i < items.len() implies writable(
                #[trigger] items[i],
                depth,
            ) by {
                deeper(items[i], (depth - 1) as nat);
            }
        },
        JsonView::Object(entries) => {
            assert forall|i: int| 0 <= i < entries.len() implies writable(
                (#[trigger] entries[i]).1,
                depth,
            ) by {
                deeper(entries[i].1, (depth - 1) as nat);
            }
        },
        _ => {},
    }
}

/// Entries whose keys differ in length or in their first character are distinct.
proof fn keys_differ(entries: Seq<(Seq<char>, JsonView)>)
    requires
        forall|i: int|
            0 <= i < entries.len() ==> escaped(#[trigger] entries[i].0) == entries[i].0,
        forall|i: int, j: int|
            0 <= i < j < entries.len() ==> (#[trigger] entries[i]).0.len() != (
            #[trigger] entries[j]).0.len() || entries[i].0[0] != entries[j].0[0],
    ensures
        plain_keys(entries),
{
}

/// A refusal is a JSON object that says so, with its reason.
pub proof fn refusals_are_json(msg: Seq<char>)
    ensures
        err_text(msg) == doc_text(err_doc(msg)),
        writable(err_doc(msg), DEPTH_MAX as nat),
{
    let q = "\""@;
    let none = Seq::<char>::empty();
    text_is_quoted(msg);
    truth_is_written(false);
    let lit = "{\""@ + "ok"@ + "\":"@ + none;
    let s1 = lit + "false"@;
    begin("ok"@, JsonView::Bool(false), lit, none, "false"@, none);
    let m1 = seq![("ok"@, JsonView::Bool(false))];
    let next = none + ",\""@ + "error"@ + "\":"@ + q;
    grow(m1, s1, none, "error"@, JsonView::Text(msg), next, q, escaped(msg), q);
    assert(s1 + next =~= "{\"ok\":false,\"error\":\""@) by {
        reveal_strlit("{\"ok\":false,\"error\":\"");
        reveal_strlit("{\"");
        reveal_strlit("ok");
        reveal_strlit("\":");
        reveal_strlit("false");
        reveal_strlit(",\"");
        reveal_strlit("error");
        reveal_strlit("\"");
    }
    let s2 = "{\"ok\":false,\"error\":\""@ + escaped(msg);
    let m2 = m1.push(("error"@, JsonView::Text(msg)));
    assert(err_doc(msg)->Object_0 =~= m2);
    assert("\"}"@ =~= q + "}"@) by {
        reveal_strlit("\"}");
        reveal_strlit("\"");
        reveal_strlit("}");
    }
    close(m2, s2, q, "\"}"@);
    assert(writable(err_doc(msg), DEPTH_MAX as nat)) by {
        reveal_strlit("ok");
        reveal_strlit("error");
        escape_plain("ok"@);
        escape_plain("error"@);
        reveal_with_fuel(writable, 2);
        keys_differ(err_doc(msg)->Object_0);
    }
}

/// A report is a JSON object that says so, with what was done.
pub proof fn reports_are_json(msg: Seq<char>)
    ensures
        ok_text(msg) == doc_text(ok_doc(msg)),
        writable(ok_doc(msg), DEPTH_MAX as nat),
{
    let q = "\""@;
    let none = Seq::<char>::empty();
    text_is_quoted(msg);
    truth_is_written(true);
    let lit = "{\""@ + "ok"@ + "\":"@ + none;
    let s1 = lit + "true"@;
    begin("ok"@, JsonView::Bool(true), lit, none, "true"@, none);
    let m1 = seq![("ok"@, JsonView::Bool(true))];
    let next = none + ",\""@ + "message"@ + "\":"@ + q;
    grow(m1, s1, none, "message"@, JsonView::Text(msg), next, q, escaped(msg), q);
    assert(s1 + next =~= "{\"ok\":true,\"message\":\""@) by {
        reveal_strlit("{\"ok\":true,\"message\":\"");
        reveal_strlit("{\"");
        reveal_strlit("ok");
        reveal_strlit("\":");
        reveal_strlit("true");
        reveal_strlit(",\"");
        reveal_strlit("message");
        reveal_strlit("\"");
    }
    let s2 = "{\"ok\":true,\"message\":\""@ + escaped(msg);
    let m2 = m1.push(("message"@, JsonView::Text(msg)));
    assert(ok_doc(msg)->Object_0 =~= m2);
    assert("\"}"@ =~= q + "}"@) by {
        reveal_strlit("\"}");
        reveal_strlit("\"");
        reveal_strlit("}");
    }
    close(m2, s2, q, "\"}"@);
    assert(writable(ok_doc(msg), DEPTH_MAX as nat)) by {
        reveal_strlit("ok");
        reveal_strlit("message");
        escape_plain("ok"@);
        escape_plain("message"@);
        reveal_with_fuel(writable, 2);
        keys_differ(ok_doc(msg)->Object_0);
    }
}

/// How the literals of what is declared are made up.
proof fn spec_literals()
    ensures
        "{\"manifest\":\""@ == "{\""@ + "manifest"@ + "\":"@ + "\""@,
        "\",\"max\":"@ == "\""@ + ",\""@ + "max"@ + "\":"@ + Seq::<char>::empty(),
        ",\"window_ms\":"@ == Seq::<char>::empty() + ",\""@ + "window_ms"@ + "\":"@
            + Seq::<char>::empty(),
        ",\"recording\":"@ == Seq::<char>::empty() + ",\""@ + "recording"@ + "\":"@
            + Seq::<char>::empty(),
        ",\"keep_chain\":"@ == Seq::<char>::empty() + ",\""@ + "keep_chain"@ + "\":"@
            + Seq::<char>::empty(),
{
    assert("{\"manifest\":\""@ =~= "{\""@ + "manifest"@ + "\":"@ + "\""@) by {
        reveal_strlit("{\"manifest\":\"");
        reveal_strlit("{\"");
        reveal_strlit("manifest");
        reveal_strlit("\":");
        reveal_strlit("\"");
    }
    assert("\",\"max\":"@ =~= "\""@ + ",\""@ + "max"@ + "\":"@ + Seq::<char>::empty()) by {
        reveal_strlit("\",\"max\":");
        reveal_strlit("\"");
        reveal_strlit(",\"");
        reveal_strlit("max");
        reveal_strlit("\":");
    }
    assert(",\"window_ms\":"@ =~= Seq::<char>::empty() + ",\""@ + "window_ms"@ + "\":"@
        + Seq::<char>::empty()) by {
        reveal_strlit(",\"window_ms\":");
        reveal_strlit(",\"");
        reveal_strlit("window_ms");
        reveal_strlit("\":");
    }
    assert(",\"recording\":"@ =~= Seq::<char>::empty() + ",\""@ + "recording"@ + "\":"@
        + Seq::<char>::empty()) by {
        reveal_strlit(",\"recording\":");
        reveal_strlit(",\"");
        reveal_strlit("recording");
        reveal_strlit("\":");
    }
    assert(",\"keep_chain\":"@ =~= Seq::<char>::empty() + ",\""@ + "keep_chain"@ + "\":"@
        + Seq::<char>::empty()) by {
        reveal_strlit(",\"keep_chain\":");
        reveal_strlit(",\"");
        reveal_strlit("keep_chain");
        reveal_strlit("\":");
    }
}

/// The keys of what is declared are plain.
proof fn spec_is_writable(s: SvcView)
    ensures
        writable(spec_doc(s), (DEPTH_MAX - 3) as nat),
{
    reveal_strlit("manifest");
    reveal_strlit("max");
    reveal_strlit("window_ms");
    reveal_strlit("recording");
    reveal_strlit("keep_chain");
    escape_plain("manifest"@);
    escape_plain("max"@);
    escape_plain("window_ms"@);
    escape_plain("recording"@);
    escape_plain("keep_chain"@);
    reveal_with_fuel(writable, 2);
    keys_differ(spec_doc(s)->Object_0);
}

/// What is declared of a service is described by a JSON object.
pub proof fn a_spec_is_json(s: SvcView)
    ensures
        spec_text(s) == doc_text(spec_doc(s)),
        writable(spec_doc(s), (DEPTH_MAX - 3) as nat),
{
    spec_literals();
    let q = "\""@;
    let none = Seq::<char>::empty();
    text_is_quoted(s.manifest);
    number_is_written(s.max as u64);
    number_is_written(s.window_ms);
    truth_is_written(s.record is Some);
    truth_is_written(s.keep_chain);
    let s1 = "{\"manifest\":\""@ + escaped(s.manifest);
    begin("manifest"@, JsonView::Text(s.manifest), "{\"manifest\":\""@, q, escaped(s.manifest), q);
    let m1 = seq![("manifest"@, JsonView::Text(s.manifest))];
    grow(
        m1,
        s1,
        q,
        "max"@,
        JsonView::Uint(s.max as u64),
        "\",\"max\":"@,
        none,
        dec(s.max as nat),
        none,
    );
    let s2 = s1 + "\",\"max\":"@ + dec(s.max as nat);
    let m2 = m1.push(("max"@, JsonView::Uint(s.max as u64)));
    grow(
        m2,
        s2,
        none,
        "window_ms"@,
        JsonView::Uint(s.window_ms),
        ",\"window_ms\":"@,
        none,
        dec(s.window_ms as nat),
        none,
    );
    let s3 = s2 + ",\"window_ms\":"@ + dec(s.window_ms as nat);
    let m3 = m2.push(("window_ms"@, JsonView::Uint(s.window_ms)));
    grow(
        m3,
        s3,
        none,
        "recording"@,
        JsonView::Bool(s.record is Some),
        ",\"recording\":"@,
        none,
        bool_text(s.record is Some),
        none,
    );
    let s4 = s3 + ",\"recording\":"@ + bool_text(s.record is Some);
    let m4 = m3.push(("recording"@, JsonView::Bool(s.record is Some)));
    grow(
        m4,
        s4,
        none,
        "keep_chain"@,
        JsonView::Bool(s.keep_chain),
        ",\"keep_chain\":"@,
        none,
        bool_text(s.keep_chain),
        none,
    );
    let s5 = s4 + ",\"keep_chain\":"@ + bool_text(s.keep_chain);
    let m5 = m4.push(("keep_chain"@, JsonView::Bool(s.keep_chain)));
    assert(spec_doc(s)->Object_0 =~= m5);
    assert("}"@ =~= none + "}"@);
    close(m5, s5, none, "}"@);
    spec_is_writable(s);
}

/// How the literals of what is observed are made up.
proof fn status_literals()
    ensures
        "{\"blocked\":"@ == "{\""@ + "blocked"@ + "\":"@ + Seq::<char>::empty(),
        ",\"current_id\":\""@ == Seq::<char>::empty() + ",\""@ + "current_id"@ + "\":"@ + "\""@,
        "\",\"restarts\":"@ == "\""@ + ",\""@ + "restarts"@ + "\":"@ + Seq::<char>::empty(),
{
    assert("{\"blocked\":"@ =~= "{\""@ + "blocked"@ + "\":"@ + Seq::<char>::empty()) by {
        reveal_strlit("{\"blocked\":");
        reveal_strlit("{\"");
        reveal_strlit("blocked");
        reveal_strlit("\":");
    }
    assert(",\"current_id\":\""@ =~= Seq::<char>::empty() + ",\""@ + "current_id"@ + "\":"@
        + "\""@) by {
        reveal_strlit(",\"current_id\":\"");
        reveal_strlit("\"");
        reveal_strlit(",\"");
        reveal_strlit("current_id");
        reveal_strlit("\":");
    }
    assert("\",\"restarts\":"@ =~= "\""@ + ",\""@ + "restarts"@ + "\":"@
        + Seq::<char>::empty()) by {
        reveal_strlit("\",\"restarts\":");
        reveal_strlit("\"");
        reveal_strlit(",\"");
        reveal_strlit("restarts");
        reveal_strlit("\":");
    }
}

/// The keys of what is observed are plain.
proof fn status_is_writable(s: SvcView)
    ensures
        writable(status_doc(s), (DEPTH_MAX - 3) as nat),
{
    reveal_strlit("blocked");
    reveal_strlit("current_id");
    reveal_strlit("restarts");
    escape_plain("blocked"@);
    escape_plain("current_id"@);
    escape_plain("restarts"@);
    reveal_with_fuel(writable, 2);
    keys_differ(status_doc(s)->Object_0);
}

/// What is observed of a service is described by a JSON object.
pub proof fn a_status_is_json(s: SvcView)
    requires
        s.wf(),
    ensures
        status_text(s) == doc_text(status_doc(s)),
        writable(status_doc(s), (DEPTH_MAX - 3) as nat),
{
    status_literals();
    let q = "\""@;
    let none = Seq::<char>::empty();
    text_is_quoted(s.current_id);
    number_is_written(s.restarts.len() as u64);
    truth_is_written(s.blocked);
    let s1 = "{\"blocked\":"@ + bool_text(s.blocked);
    begin(
        "blocked"@,
        JsonView::Bool(s.blocked),
        "{\"blocked\":"@,
        none,
        bool_text(s.blocked),
        none,
    );
    let m1 = seq![("blocked"@, JsonView::Bool(s.blocked))];
    grow(
        m1,
        s1,
        none,
        "current_id"@,
        JsonView::Text(s.current_id),
        ",\"current_id\":\""@,
        q,
        escaped(s.current_id),
        q,
    );
    let s2 = s1 + ",\"current_id\":\""@ + escaped(s.current_id);
    let m2 = m1.push(("current_id"@, JsonView::Text(s.current_id)));
    grow(
        m2,
        s2,
        q,
        "restarts"@,
        JsonView::Uint(s.restarts.len() as u64),
        "\",\"restarts\":"@,
        none,
        dec(s.restarts.len()),
        none,
    );
    let s3 = s2 + "\",\"restarts\":"@ + dec(s.restarts.len());
    let m3 = m2.push(("restarts"@, JsonView::Uint(s.restarts.len() as u64)));
    assert(status_doc(s)->Object_0 =~= m3);
    assert("}"@ =~= none + "}"@);
    close(m3, s3, none, "}"@);
    status_is_writable(s);
}

/// How the literals of a service are made up.
proof fn service_literals()
    ensures
        "{\"handle\":\""@ == "{\""@ + "handle"@ + "\":"@ + "\""@,
        "\",\"spec\":"@ == "\""@ + ",\""@ + "spec"@ + "\":"@ + Seq::<char>::empty(),
        ",\"status\":"@ == Seq::<char>::empty() + ",\""@ + "status"@ + "\":"@
            + Seq::<char>::empty(),
{
    assert("{\"handle\":\""@ =~= "{\""@ + "handle"@ + "\":"@ + "\""@) by {
        reveal_strlit("{\"handle\":\"");
        reveal_strlit("{\"");
        reveal_strlit("handle");
        reveal_strlit("\":");
        reveal_strlit("\"");
    }
    assert("\",\"spec\":"@ =~= "\""@ + ",\""@ + "spec"@ + "\":"@ + Seq::<char>::empty()) by {
        reveal_strlit("\",\"spec\":");
        reveal_strlit("\"");
        reveal_strlit(",\"");
        reveal_strlit("spec");
        reveal_strlit("\":");
    }
    assert(",\"status\":"@ =~= Seq::<char>::empty() + ",\""@ + "status"@ + "\":"@
        + Seq::<char>::empty()) by {
        reveal_strlit(",\"status\":");
        reveal_strlit(",\"");
        reveal_strlit("status");
        reveal_strlit("\":");
    }
}

/// The keys of a service are plain.
proof fn service_is_writable(s: SvcView)
    requires
        writable(spec_doc(s), (DEPTH_MAX - 3) as nat),
        writable(status_doc(s), (DEPTH_MAX - 3) as nat),
    ensures
        writable(svc_doc(s), (DEPTH_MAX - 2) as nat),
{
    reveal_strlit("handle");
    reveal_strlit("spec");
    reveal_strlit("status");
    escape_plain("handle"@);
    escape_plain("spec"@);
    escape_plain("status"@);
    reveal_with_fuel(writable, 2);
    keys_differ(svc_doc(s)->Object_0);
}

/// A service is described by a JSON object.
pub proof fn a_service_is_json(s: SvcView)
    requires
        s.wf(),
    ensures
        svc_text(s) == doc_text(svc_doc(s)),
        writable(svc_doc(s), (DEPTH_MAX - 2) as nat),
{
    service_literals();
    let q = "\""@;
    let none = Seq::<char>::empty();
    text_is_quoted(s.handle);
    a_spec_is_json(s);
    a_status_is_json(s);
    assert(doc_text(spec_doc(s)) =~= none + spec_text(s) + none);
    assert(doc_text(status_doc(s)) =~= none + status_text(s) + none);
    let s1 = "{\"handle\":\""@ + escaped(s.handle);
    begin("handle"@, JsonView::Text(s.handle), "{\"handle\":\""@, q, escaped(s.handle), q);
    let m1 = seq![("handle"@, JsonView::Text(s.handle))];
    grow(m1, s1, q, "spec"@, spec_doc(s), "\",\"spec\":"@, none, spec_text(s), none);
    let s2 = s1 + "\",\"spec\":"@ + spec_text(s);
    let m2 = m1.push(("spec"@, spec_doc(s)));
    grow(m2, s2, none, "status"@, status_doc(s), ",\"status\":"@, none, status_text(s), none);
    let s3 = s2 + ",\"status\":"@ + status_text(s);
    let m3 = m2.push(("status"@, status_doc(s)));
    assert(svc_doc(s)->Object_0 =~= m3);
    assert("}"@ =~= none + "}"@);
    close(m3, s3, none, "}"@);
    service_is_writable(s);
}

/// A kept chain event is described by a JSON object.
pub proof fn a_kept_event_is_json(c: ChainRecView)
    requires
        is_hex(c.data_hex),
    ensures
        rec_text(c) == doc_text(rec_doc(c)),
        writable(rec_doc(c), (DEPTH_MAX - 2) as nat),
{
    let q = "\""@;
    let none = Seq::<char>::empty();
    number_is_written(c.seq);
    text_is_quoted(c.event_type);
    text_is_quoted(c.data_hex);
    hex_is_plain(c.data_hex);
    let s1 = "{\"seq\":"@ + dec(c.seq as nat);
    assert("{\"seq\":"@ =~= "{\""@ + "seq"@ + "\":"@ + none) by {
        reveal_strlit("{\"seq\":");
        reveal_strlit("{\"");
        reveal_strlit("seq");
        reveal_strlit("\":");
    }
    begin("seq"@, JsonView::Uint(c.seq), "{\"seq\":"@, none, dec(c.seq as nat), none);
    let m1 = seq![("seq"@, JsonView::Uint(c.seq))];
    assert(",\"type\":\""@ =~= none + ",\""@ + "type"@ + "\":"@ + q) by {
        reveal_strlit(",\"type\":\"");
        reveal_strlit("\"");
        reveal_strlit(",\"");
        reveal_strlit("type");
        reveal_strlit("\":");
    }
    grow(
        m1,
        s1,
        none,
        "type"@,
        JsonView::Text(c.event_type),
        ",\"type\":\""@,
        q,
        escaped(c.event_type),
        q,
    );
    let s2 = s1 + ",\"type\":\""@ + escaped(c.event_type);
    let m2 = m1.push(("type"@, JsonView::Text(c.event_type)));
    assert("\",\"data_hex\":\""@ =~= q + ",\""@ + "data_hex"@ + "\":"@ + q) by {
        reveal_strlit("\",\"data_hex\":\"");
        reveal_strlit("\"");
        reveal_strlit(",\"");
        reveal_strlit("data_hex");
        reveal_strlit("\":");
    }
    grow(
        m2,
        s2,
        q,
        "data_hex"@,
        JsonView::Text(c.data_hex),
        "\",\"data_hex\":\""@,
        q,
        c.data_hex,
        q,
    );
    let s3 = s2 + "\",\"data_hex\":\""@ + c.data_hex;
    let m3 = m2.push(("data_hex"@, JsonView::Text(c.data_hex)));
    assert(rec_doc(c)->Object_0 =~= m3);
    assert("\"}"@ =~= q + "}"@) by {
        reveal_strlit("\"}");
        reveal_strlit("\"");
        reveal_strlit("}");
    }
    close(m3, s3, q, "\"}"@);
    assert(writable(rec_doc(c), (DEPTH_MAX - 2) as nat)) by {
        reveal_strlit("seq");
        reveal_strlit("type");
        reveal_strlit("data_hex");
        escape_plain("seq"@);
        escape_plain("type"@);
        escape_plain("data_hex"@);
        reveal_with_fuel(writable, 2);
        keys_differ(rec_doc(c)->Object_0);
    }
}

/// How the literals of a recorded event are made up.
proof fn line_literals()
    ensures
        "{\"handle\":\""@ == "{\""@ + "handle"@ + "\":"@ + "\""@,
        "\",\"child\":\""@ == "\""@ + ",\""@ + "child"@ + "\":"@ + "\""@,
        "\",\"type\":\""@ == "\""@ + ",\""@ + "type"@ + "\":"@ + "\""@,
        "\",\"seq\":"@ == "\""@ + ",\""@ + "seq"@ + "\":"@ + Seq::<char>::empty(),
        ",\"data_hex\":\""@ == Seq::<char>::empty() + ",\""@ + "data_hex"@ + "\":"@ + "\""@,
        "\"}"@ == "\""@ + "}"@,
{
    assert("{\"handle\":\""@ =~= "{\""@ + "handle"@ + "\":"@ + "\""@) by {
        reveal_strlit("{\"handle\":\"");
        reveal_strlit("{\"");
        reveal_strlit("handle");
        reveal_strlit("\":");
        reveal_strlit("\"");
    }
    assert("\",\"child\":\""@ =~= "\""@ + ",\""@ + "child"@ + "\":"@ + "\""@) by {
        reveal_strlit("\",\"child\":\"");
        reveal_strlit("\"");
        reveal_strlit(",\"");
        reveal_strlit("child");
        reveal_strlit("\":");
    }
    assert("\",\"type\":\""@ =~= "\""@ + ",\""@ + "type"@ + "\":"@ + "\""@) by {
        reveal_strlit("\",\"type\":\"");
        reveal_strlit("\"");
        reveal_strlit(",\"");
        reveal_strlit("type");
        reveal_strlit("\":");
    }
    assert("\",\"seq\":"@ =~= "\""@ + ",\""@ + "seq"@ + "\":"@ + Seq::<char>::empty()) by {
        reveal_strlit("\",\"seq\":");
        reveal_strlit("\"");
        reveal_strlit(",\"");
        reveal_strlit("seq");
        reveal_strlit("\":");
    }
    assert(",\"data_hex\":\""@ =~= Seq::<char>::empty() + ",\""@ + "data_hex"@ + "\":"@
        + "\""@) by {
        reveal_strlit(",\"data_hex\":\"");
        reveal_strlit("\"");
        reveal_strlit(",\"");
        reveal_strlit("data_hex");
        reveal_strlit("\":");
    }
    assert("\"}"@ =~= "\""@ + "}"@) by {
        reveal_strlit("\"}");
        reveal_strlit("\"");
        reveal_strlit("}");
    }
}

/// The keys of a recorded event are plain.
proof fn line_is_writable(
    handle: Seq<char>,
    child: Seq<char>,
    event_type: Seq<char>,
    seq: u64,
    hex: Seq<char>,
)
    ensures
        writable(line_doc(handle, child, event_type, seq, hex), DEPTH_MAX as nat),
{
    reveal_strlit("handle");
    reveal_strlit("child");
    reveal_strlit("type");
    reveal_strlit("seq");
    reveal_strlit("data_hex");
    escape_plain("handle"@);
    escape_plain("child"@);
    escape_plain("type"@);
    escape_plain("seq"@);
    escape_plain("data_hex"@);
    reveal_with_fuel(writable, 2);
    keys_differ(line_doc(handle, child, event_type, seq, hex)->Object_0);
}

/// The text of a recorded event is that of a JSON object.
proof fn line_is_json(
    handle: Seq<char>,
    child: Seq<char>,
    event_type: Seq<char>,
    seq: u64,
    hex: Seq<char>,
)
    requires
        escaped(hex) == hex,
    ensures
        line_text(handle, child, event_type, seq, hex) == doc_text(
            line_doc(handle, child, event_type, seq, hex),
        ),
        writable(line_doc(handle, child, event_type, seq, hex), DEPTH_MAX as nat),
{
    line_literals();
    let q = "\""@;
    let none = Seq::<char>::empty();
    number_is_written(seq);
    text_is_quoted(handle);
    text_is_quoted(child);
    text_is_quoted(event_type);
    text_is_quoted(hex);
    let s1 = "{\"handle\":\""@ + escaped(handle);
    begin("handle"@, JsonView::Text(handle), "{\"handle\":\""@, q, escaped(handle), q);
    let m1 = seq![("handle"@, JsonView::Text(handle))];
    grow(m1, s1, q, "child"@, JsonView::Text(child), "\",\"child\":\""@, q, escaped(child), q);
    let s2 = s1 + "\",\"child\":\""@ + escaped(child);
    let m2 = m1.push(("child"@, JsonView::Text(child)));
    grow(
        m2,
        s2,
        q,
        "type"@,
        JsonView::Text(event_type),
        "\",\"type\":\""@,
        q,
        escaped(event_type),
        q,
    );
    let s3 = s2 + "\",\"type\":\""@ + escaped(event_type);
    let m3 = m2.push(("type"@, JsonView::Text(event_type)));
    grow(m3, s3, q, "seq"@, JsonView::Uint(seq), "\",\"seq\":"@, none, dec(seq as nat), none);
    let s4 = s3 + "\",\"seq\":"@ + dec(seq as nat);
    let m4 = m3.push(("seq"@, JsonView::Uint(seq)));
    grow(m4, s4, none, "data_hex"@, JsonView::Text(hex), ",\"data_hex\":\""@, q, hex, q);
    let s5 = s4 + ",\"data_hex\":\""@ + hex;
    let m5 = m4.push(("data_hex"@, JsonView::Text(hex)));
    assert(line_doc(handle, child, event_type, seq, hex)->Object_0 =~= m5);
    close(m5, s5, q, "\"}"@);
    line_is_writable(handle, child, event_type, seq, hex);
}

/// An event is recorded as a JSON object, which says whose it is, which one it is and
/// what it holds.
pub proof fn recordings_are_json(
    handle: Seq<char>,
    child: Seq<char>,
    event_type: Seq<char>,
    seq: u64,
    data: Seq<u8>,
)
    ensures
        record_line(handle, child, event_type, seq, data) == doc_text(
            line_doc(handle, child, event_type, seq, hex_text(data)),
        ),
        writable(line_doc(handle, child, event_type, seq, hex_text(data)), DEPTH_MAX as nat),
{
    hex_round_trip(data);
    hex_is_plain(hex_text(data));
    line_is_json(handle, child, event_type, seq, hex_text(data));
}

/// The roster is listed as a JSON object, with the services in their order.
pub proof fn a_roster_is_json(services: Seq<SvcView>)
    requires
        all_wf(services),
    ensures
        roster_text(services) == doc_text(roster_doc(services)),
        writable(roster_doc(services), DEPTH_MAX as nat),
{
    let none = Seq::<char>::empty();
    truth_is_written(true);
    let docs = services.map_values(|s: SvcView| svc_doc(s));
    let items = services.map_values(|s: SvcView| svc_text(s));
    assert forall|i: int| 0 <= i < services.len() implies doc_text(docs[i]) == #[trigger] items[i]
        && writable(docs[i], (DEPTH_MAX - 2) as nat) by {
        assert(services[i].wf());
        a_service_is_json(services[i]);
    }
    items_are_joined(docs);
    assert(docs.map_values(|d: JsonView| doc_text(d)) =~= items);
    let lit = "{\""@ + "ok"@ + "\":"@ + none;
    let s1 = lit + "true"@;
    begin("ok"@, JsonView::Bool(true), lit, none, "true"@, none);
    let m1 = seq![("ok"@, JsonView::Bool(true))];
    let next = none + ",\""@ + "roster"@ + "\":"@ + "["@;
    grow(m1, s1, none, "roster"@, JsonView::Array(docs), next, "["@, joined(items, ","@), "]"@);
    assert(s1 + next =~= "{\"ok\":true,\"roster\":["@) by {
        reveal_strlit("{\"ok\":true,\"roster\":[");
        reveal_strlit("{\"");
        reveal_strlit("ok");
        reveal_strlit("\":");
        reveal_strlit("true");
        reveal_strlit(",\"");
        reveal_strlit("roster");
        reveal_strlit("[");
    }
    let s2 = "{\"ok\":true,\"roster\":["@ + joined(items, ","@);
    let m2 = m1.push(("roster"@, JsonView::Array(docs)));
    assert(roster_doc(services)->Object_0 =~= m2);
    assert("]}"@ =~= "]"@ + "}"@) by {
        reveal_strlit("]}");
        reveal_strlit("]");
        reveal_strlit("}");
    }
    close(m2, s2, "]"@, "]}"@);
    assert(writable(roster_doc(services), DEPTH_MAX as nat)) by {
        reveal_strlit("ok");
        reveal_strlit("roster");
        escape_plain("ok"@);
        escape_plain("roster"@);
        reveal_with_fuel(writable, 2);
        keys_differ(roster_doc(services)->Object_0);
        assert forall|i: int| 0 <= i < docs.len() implies writable(
            #[trigger] docs[i],
            (DEPTH_MAX - 2) as nat,
        ) by {
            assert(doc_text(docs[i]) == items[i]);
        }
    }
}

/// The reply that describes a service is a JSON object.
pub proof fn a_service_reply_is_json(s: SvcView)
    requires
        s.wf(),
    ensures
        service_text(s) == doc_text(service_reply_doc(s)),
        writable(service_reply_doc(s), DEPTH_MAX as nat),
{
    let none = Seq::<char>::empty();
    truth_is_written(true);
    a_service_is_json(s);
    assert(doc_text(svc_doc(s)) =~= none + svc_text(s) + none);
    deeper(svc_doc(s), (DEPTH_MAX - 2) as nat);
    assert(writable(svc_doc(s), (DEPTH_MAX - 1) as nat));
    let lit = "{\""@ + "ok"@ + "\":"@ + none;
    let s1 = lit + "true"@;
    begin("ok"@, JsonView::Bool(true), lit, none, "true"@, none);
    let m1 = seq![("ok"@, JsonView::Bool(true))];
    let next = none + ",\""@ + "service"@ + "\":"@ + none;
    grow(m1, s1, none, "service"@, svc_doc(s), next, none, svc_text(s), none);
    assert(s1 + next =~= "{\"ok\":true,\"service\":"@) by {
        reveal_strlit("{\"ok\":true,\"service\":");
        reveal_strlit("{\"");
        reveal_strlit("ok");
        reveal_strlit("\":");
        reveal_strlit("true");
        reveal_strlit(",\"");
        reveal_strlit("service");
    }
    let s2 = "{\"ok\":true,\"service\":"@ + svc_text(s);
    let m2 = m1.push(("service"@, svc_doc(s)));
    assert(service_reply_doc(s)->Object_0 =~= m2);
    assert("}"@ =~= none + "}"@);
    close(m2, s2, none, "}"@);
    assert(writable(service_reply_doc(s), DEPTH_MAX as nat)) by {
        reveal_strlit("ok");
        reveal_strlit("service");
        escape_plain("ok"@);
        escape_plain("service"@);
        reveal_with_fuel(writable, 2);
        keys_differ(service_reply_doc(s)->Object_0);
    }
}

/// The kept events of a service are listed in a JSON object, in their order.
pub proof fn a_chain_is_json(s: SvcView)
    requires
        s.wf(),
    ensures
        chain_text(s) == doc_text(chain_doc(s)),
        writable(chain_doc(s), DEPTH_MAX as nat),
{
    let q = "\""@;
    let none = Seq::<char>::empty();
    truth_is_written(true);
    text_is_quoted(s.handle);
    let docs = s.chain.map_values(|c: ChainRecView| rec_doc(c));
    let items = s.chain.map_values(|c: ChainRecView| rec_text(c));
    assert forall|i: int| 0 <= i < s.chain.len() implies doc_text(docs[i]) == #[trigger] items[i]
        && writable(docs[i], (DEPTH_MAX - 2) as nat) by {
        a_kept_event_is_json(s.chain[i]);
    }
    items_are_joined(docs);
    assert(docs.map_values(|d: JsonView| doc_text(d)) =~= items);
    let lit = "{\""@ + "ok"@ + "\":"@ + none;
    let s1 = lit + "true"@;
    begin("ok"@, JsonView::Bool(true), lit, none, "true"@, none);
    let m1 = seq![("ok"@, JsonView::Bool(true))];
    let next = none + ",\""@ + "handle"@ + "\":"@ + q;
    grow(m1, s1, none, "handle"@, JsonView::Text(s.handle), next, q, escaped(s.handle), q);
    assert(s1 + next =~= "{\"ok\":true,\"handle\":\""@) by {
        reveal_strlit("{\"ok\":true,\"handle\":\"");
        reveal_strlit("{\"");
        reveal_strlit("ok");
        reveal_strlit("\":");
        reveal_strlit("true");
        reveal_strlit(",\"");
        reveal_strlit("handle");
        reveal_strlit("\"");
    }
    let s2 = "{\"ok\":true,\"handle\":\""@ + escaped(s.handle);
    let m2 = m1.push(("handle"@, JsonView::Text(s.handle)));
    assert("\",\"events\":["@ =~= q + ",\""@ + "events"@ + "\":"@ + "["@) by {
        reveal_strlit("\",\"events\":[");
        reveal_strlit("\"");
        reveal_strlit("[");
        reveal_strlit(",\"");
        reveal_strlit("events");
        reveal_strlit("\":");
    }
    grow(
        m2,
        s2,
        q,
        "events"@,
        JsonView::Array(docs),
        "\",\"events\":["@,
        "["@,
        joined(items, ","@),
        "]"@,
    );
    let s3 = s2 + "\",\"events\":["@ + joined(items, ","@);
    let m3 = m2.push(("events"@, JsonView::Array(docs)));
    assert(chain_doc(s)->Object_0 =~= m3);
    assert("]}"@ =~= "]"@ + "}"@) by {
        reveal_strlit("]}");
        reveal_strlit("]");
        reveal_strlit("}");
    }
    close(m3, s3, "]"@, "]}"@);
    assert(writable(chain_doc(s), DEPTH_MAX as nat)) by {
        reveal_strlit("ok");
        reveal_strlit("handle");
        reveal_strlit("events");
        escape_plain("ok"@);
        escape_plain("handle"@);
        escape_plain("events"@);
        reveal_with_fuel(writable, 2);
        keys_differ(chain_doc(s)->Object_0);
        assert forall|i: int| 0 <= i < docs.len() implies writable(
            #[trigger] docs[i],
            (DEPTH_MAX - 2) as nat,
        ) by {
            assert(doc_text(docs[i]) == items[i]);
        }
    }
}

/// The reply to an apply is a JSON object with the two counts.
pub proof fn counts_are_json(added: u64, removed: u64)
    ensures
        applied_text(added as nat, removed as nat) == doc_text(applied_doc(added, removed)),
        writable(applied_doc(added, removed), DEPTH_MAX as nat),
{
    let none = Seq::<char>::empty();
    truth_is_written(true);
    number_is_written(added);
    number_is_written(removed);
    let lit = "{\""@ + "ok"@ + "\":"@ + none;
    let s1 = lit + "true"@;
    begin("ok"@, JsonView::Bool(true), lit, none, "true"@, none);
    let m1 = seq![("ok"@, JsonView::Bool(true))];
    let next = none + ",\""@ + "added"@ + "\":"@ + none;
    grow(m1, s1, none, "added"@, JsonView::Uint(added), next, none, dec(added as nat), none);
    assert(s1 + next =~= "{\"ok\":true,\"added\":"@) by {
        reveal_strlit("{\"ok\":true,\"added\":");
        reveal_strlit("{\"");
        reveal_strlit("ok");
        reveal_strlit("\":");
        reveal_strlit("true");
        reveal_strlit(",\"");
        reveal_strlit("added");
    }
    let s2 = "{\"ok\":true,\"added\":"@ + dec(added as nat);
    let m2 = m1.push(("added"@, JsonView::Uint(added)));
    assert(",\"removed\":"@ =~= none + ",\""@ + "removed"@ + "\":"@ + none) by {
        reveal_strlit(",\"removed\":");
        reveal_strlit(",\"");
        reveal_strlit("removed");
        reveal_strlit("\":");
    }
    grow(
        m2,
        s2,
        none,
        "removed"@,
        JsonView::Uint(removed),
        ",\"removed\":"@,
        none,
        dec(removed as nat),
        none,
    );
    let s3 = s2 + ",\"removed\":"@ + dec(removed as nat);
    let m3 = m2.push(("removed"@, JsonView::Uint(removed)));
    assert(applied_doc(added, removed)->Object_0 =~= m3);
    assert("}"@ =~= none + "}"@);
    close(m3, s3, none, "}"@);
    assert(writable(applied_doc(added, removed), DEPTH_MAX as nat)) by {
        reveal_strlit("ok");
        reveal_strlit("added");
        reveal_strlit("removed");
        escape_plain("ok"@);
        escape_plain("added"@);
        escape_plain("removed"@);
        reveal_with_fuel(writable, 2);
        keys_differ(applied_doc(added, removed)->Object_0);
    }
}

/// A document that is sent on a line of its own is read as it was sent, and nothing
/// is left over.
pub proof fn a_sent_document_is_read(v: JsonView)
    requires
        writable(v, DEPTH_MAX as nat),
    ensures
        ({
            let sent = encode_utf8(doc_text(v)).push(10u8);
            &&& has_line(sent)
            &&& first_line(sent) == encode_utf8(doc_text(v))
            &&& after_line(sent).len() == 0
        }),
{
    documents_stand_on_one_line(v, DEPTH_MAX as nat);
    a_sent_line_is_read(doc_text(v));
}

// ---- what the documents say ------------------------------------------------

/// A service is told of by its own handle, with all that is declared and observed of
/// it, each under its name.
pub proof fn a_service_is_told_of(s: SvcView)
    ensures
        ({
            let d = svc_doc(s);
            let declared = d.get("spec"@)->0;
            let observed = d.get("status"@)->0;
            &&& d.get("handle"@) == Some(JsonView::Text(s.handle))
            &&& d.get("spec"@) is Some
            &&& d.get("status"@) is Some
            &&& declared.get("manifest"@) == Some(JsonView::Text(s.manifest))
            &&& declared.get("max"@) == Some(JsonView::Uint(s.max as u64))
            &&& declared.get("window_ms"@) == Some(JsonView::Uint(s.window_ms))
            &&& declared.get("recording"@) == Some(JsonView::Bool(s.record is Some))
            &&& declared.get("keep_chain"@) == Some(JsonView::Bool(s.keep_chain))
            &&& observed.get("blocked"@) == Some(JsonView::Bool(s.blocked))
            &&& observed.get("current_id"@) == Some(JsonView::Text(s.current_id))
            &&& observed.get("restarts"@) == Some(JsonView::Uint(s.restarts.len() as u64))
        }),
{
    reveal_strlit("handle");
    reveal_strlit("spec");
    reveal_strlit("status");
    reveal_strlit("manifest");
    reveal_strlit("max");
    reveal_strlit("window_ms");
    reveal_strlit("recording");
    reveal_strlit("keep_chain");
    reveal_strlit("blocked");
    reveal_strlit("current_id");
    reveal_strlit("restarts");
    assert("handle"@[0] == 'h' && "spec"@[0] == 's' && "status"@[0] == 's');
    assert("spec"@.len() != "status"@.len());
    assert("manifest"@.len() == 8 && "max"@.len() == 3 && "window_ms"@.len() == 9);
    assert("recording"@[0] == 'r' && "window_ms"@[0] == 'w' && "keep_chain"@.len() == 10);
    assert("recording"@.len() == 9);
    assert("blocked"@[0] == 'b' && "current_id"@[0] == 'c' && "restarts"@[0] == 'r');
    reveal_with_fuel(entry, 6);
}

/// A refusal says that it is one, and why; a report says that all is well, and what
/// was done; the reply to an apply says how many services were added and removed.
pub proof fn replies_say_what_was_done(msg: Seq<char>, added: u64, removed: u64)
    ensures
        err_doc(msg).get("ok"@) == Some(JsonView::Bool(false)),
        err_doc(msg).get("error"@) == Some(JsonView::Text(msg)),
        ok_doc(msg).get("ok"@) == Some(JsonView::Bool(true)),
        ok_doc(msg).get("message"@) == Some(JsonView::Text(msg)),
        applied_doc(added, removed).get("ok"@) == Some(JsonView::Bool(true)),
        applied_doc(added, removed).get("added"@) == Some(JsonView::Uint(added)),
        applied_doc(added, removed).get("removed"@) == Some(JsonView::Uint(removed)),
{
    reveal_strlit("ok");
    reveal_strlit("error");
    reveal_strlit("message");
    reveal_strlit("added");
    reveal_strlit("removed");
    assert("ok"@.len() == 2 && "error"@.len() == 5 && "message"@.len() == 7 && "added"@.len() == 5
        && "removed"@.len() == 7);
    reveal_with_fuel(entry, 4);
}

/// The reply to a status tells of that one service; the reply to a list tells of all
/// services, one for one in their order.
pub proof fn replies_tell_of_services(s: SvcView, services: Seq<SvcView>)
    ensures
        service_reply_doc(s).get("ok"@) == Some(JsonView::Bool(true)),
        service_reply_doc(s).get("service"@) == Some(svc_doc(s)),
        ({
            let roster = roster_doc(services).get("roster"@);
            &&& roster_doc(services).get("ok"@) == Some(JsonView::Bool(true))
            &&& roster is Some && roster->0 is Array
            &&& roster->0->Array_0.len() == services.len()
            &&& forall|i: int|
                0 <= i < services.len() ==> #[trigger] roster->0->Array_0[i] == svc_doc(services[i])
        }),
{
    reveal_strlit("ok");
    reveal_strlit("service");
    reveal_strlit("roster");
    assert("ok"@.len() == 2 && "service"@.len() == 7 && "roster"@.len() == 6);
    reveal_with_fuel(entry, 3);
}

/// The reply to a chain request names the service and lists every event that it
/// keeps, one for one in their order, each with its number, its type and its data.
pub proof fn chains_are_told_in_full(s: SvcView)
    ensures
        ({
            let d = chain_doc(s);
            let events = d.get("events"@);
            &&& d.get("ok"@) == Some(JsonView::Bool(true))
            &&& d.get("handle"@) == Some(JsonView::Text(s.handle))
            &&& events is Some && events->0 is Array
            &&& events->0->Array_0.len() == s.chain.len()
            &&& forall|i: int|
                0 <= i < s.chain.len() ==> {
                    let e = #[trigger] events->0->Array_0[i];
                    &&& e.get("seq"@) == Some(JsonView::Uint(s.chain[i].seq))
                    &&& e.get("type"@) == Some(JsonView::Text(s.chain[i].event_type))
                    &&& e.get("data_hex"@) == Some(JsonView::Text(s.chain[i].data_hex))
                }
        }),
{
    reveal_strlit("ok");
    reveal_strlit("handle");
    reveal_strlit("events");
    reveal_strlit("seq");
    reveal_strlit("type");
    reveal_strlit("data_hex");
    assert("ok"@.len() == 2 && "handle"@[0] == 'h' && "events"@[0] == 'e');
    assert("seq"@.len() == 3 && "type"@.len() == 4 && "data_hex"@.len() == 8);
    assert("handle"@.len() == 6 && "events"@.len() == 6);
    reveal_with_fuel(entry, 4);
    let events = s.chain.map_values(|c: ChainRecView| rec_doc(c));
    assert(chain_doc(s).get("events"@) == Some(JsonView::Array(events)));
    assert forall|i: int| 0 <= i < s.chain.len() implies {
        let e = #[trigger] events[i];
        &&& e.get("seq"@) == Some(JsonView::Uint(s.chain[i].seq))
        &&& e.get("type"@) == Some(JsonView::Text(s.chain[i].event_type))
        &&& e.get("data_hex"@) == Some(JsonView::Text(s.chain[i].data_hex))
    } by {
        assert(events[i] == rec_doc(s.chain[i]));
    }
}

/// A recording says whose event it is: the handle of the service, the actor, the type
/// and the number; and its data can be had back from it.
pub proof fn recordings_say_whose_they_are(
    handle: Seq<char>,
    child: Seq<char>,
    event_type: Seq<char>,
    seq: u64,
    data: Seq<u8>,
)
    ensures
        ({
            let d = line_doc(handle, child, event_type, seq, hex_text(data));
            let hex = d.get("data_hex"@);
            &&& d.get("handle"@) == Some(JsonView::Text(handle))
            &&& d.get("child"@) == Some(JsonView::Text(child))
            &&& d.get("type"@) == Some(JsonView::Text(event_type))
            &&& d.get("seq"@) == Some(JsonView::Uint(seq))
            &&& hex is Some && hex->0 is Text
            &&& hex_bytes(hex->0->Text_0) == Some(data)
        }),
{
    reveal_strlit("handle");
    reveal_strlit("child");
    reveal_strlit("type");
    reveal_strlit("seq");
    reveal_strlit("data_hex");
    assert("handle"@.len() == 6 && "child"@.len() == 5 && "type"@.len() == 4 && "seq"@.len() == 3
        && "data_hex"@.len() == 8);
    reveal_with_fuel(entry, 6);
    hex_round_trip(data);
}

} // verus!
