//! The replies of the control surface: JSON, one object a line.

use crate::json::{escaped, json_escape};
use crate::roster::{ChainRec, ChainRecView, SupervisorState, Svc, SvcView};
use crate::text::{dec, decimal, join, joined, texts};
use vstd::prelude::*;

verus! {

/// The reply that refuses a request.
pub open spec fn err_text(msg: Seq<char>) -> Seq<char> {
    "{\"ok\":false,\"error\":\""@ + escaped(msg) + "\"}"@
}

/// The reply that reports what was done.
pub open spec fn ok_text(msg: Seq<char>) -> Seq<char> {
    "{\"ok\":true,\"message\":\""@ + escaped(msg) + "\"}"@
}

/// A truth value in JSON.
pub open spec fn bool_text(b: bool) -> Seq<char> {
    if b {
        "true"@
    } else {
        "false"@
    }
}

/// What is declared of a service, in JSON.
pub open spec fn spec_text(s: SvcView) -> Seq<char> {
    "{\"manifest\":\""@ + escaped(s.manifest) + "\",\"max\":"@ + dec(s.max as nat)
        + ",\"window_ms\":"@ + dec(s.window_ms as nat) + ",\"recording\":"@ + bool_text(
        s.record is Some,
    ) + ",\"keep_chain\":"@ + bool_text(s.keep_chain) + "}"@
}

/// What is observed of a service, in JSON.
pub open spec fn status_text(s: SvcView) -> Seq<char> {
    "{\"blocked\":"@ + bool_text(s.blocked) + ",\"current_id\":\""@ + escaped(s.current_id)
        + "\",\"restarts\":"@ + dec(s.restarts.len()) + "}"@
}

/// A service in JSON: its handle, what is declared of it, and what is observed.
pub open spec fn svc_text(s: SvcView) -> Seq<char> {
    "{\"handle\":\""@ + escaped(s.handle) + "\",\"spec\":"@ + spec_text(s) + ",\"status\":"@
        + status_text(s) + "}"@
}

/// The reply that lists the roster.
pub open spec fn roster_text(services: Seq<SvcView>) -> Seq<char> {
    "{\"ok\":true,\"roster\":["@ + joined(services.map_values(|s: SvcView| svc_text(s)), ","@) + "]}"@
}

/// The reply that describes one service.
pub open spec fn service_text(s: SvcView) -> Seq<char> {
    "{\"ok\":true,\"service\":"@ + svc_text(s) + "}"@
}

/// A kept chain event in JSON.
pub open spec fn rec_text(c: ChainRecView) -> Seq<char> {
    "{\"seq\":"@ + dec(c.seq as nat) + ",\"type\":\""@ + escaped(c.event_type) + "\",\"data_hex\":\""@
        + c.data_hex + "\"}"@
}

/// The reply that lists the kept chain events of a service.
pub open spec fn chain_text(s: SvcView) -> Seq<char> {
    "{\"ok\":true,\"handle\":\""@ + escaped(s.handle) + "\",\"events\":["@ + joined(
        s.chain.map_values(|c: ChainRecView| rec_text(c)),
        ","@,
    ) + "]}"@
}

/// The reply that counts what an apply has changed.
pub open spec fn applied_text(added: nat, removed: nat) -> Seq<char> {
    "{\"ok\":true,\"added\":"@ + dec(added) + ",\"removed\":"@ + dec(removed) + "}"@
}

/// Refuses a request.
pub fn err_reply(msg: &str) -> (r: String)
    ensures
        r@ == err_text(msg@),
{
    let mut out = "{\"ok\":false,\"error\":\"".to_owned();
    out.append(json_escape(msg).as_str());
    out.append("\"}");
    out
}

/// Reports what was done.
pub fn ok_msg(msg: &str) -> (r: String)
    ensures
        r@ == ok_text(msg@),
{
    let mut out = "{\"ok\":true,\"message\":\"".to_owned();
    out.append(json_escape(msg).as_str());
    out.append("\"}");
    out
}

/// A truth value in JSON.
fn bool_word(b: bool) -> (r: String)
    ensures
        r@ == bool_text(b),
{
    if b {
        "true".to_owned()
    } else {
        "false".to_owned()
    }
}

/// What is declared of a service, in JSON.
fn spec_json(s: &Svc) -> (r: String)
    ensures
        r@ == spec_text(s@),
{
    let mut out = "{\"manifest\":\"".to_owned();
    out.append(json_escape(s.manifest.as_str()).as_str());
    out.append("\",\"max\":");
    out.append(decimal(s.max as u64).as_str());
    out.append(",\"window_ms\":");
    out.append(decimal(s.window_ms).as_str());
    out.append(",\"recording\":");
    out.append(bool_word(s.record.is_some()).as_str());
    out.append(",\"keep_chain\":");
    out.append(bool_word(s.keep_chain).as_str());
    out.append("}");
    out
}

/// What is observed of a service, in JSON.
fn status_json(s: &Svc) -> (r: String)
    ensures
        r@ == status_text(s@),
{
    let mut out = "{\"blocked\":".to_owned();
    out.append(bool_word(s.blocked).as_str());
    out.append(",\"current_id\":\"");
    out.append(json_escape(s.current_id.as_str()).as_str());
    out.append("\",\"restarts\":");
    out.append(decimal(s.restarts.len() as u64).as_str());
    out.append("}");
    out
}

/// A service in JSON: its handle, what is declared of it, and what is observed.
pub fn svc_json(s: &Svc) -> (r: String)
    ensures
        r@ == svc_text(s@),
{
    let mut out = "{\"handle\":\"".to_owned();
    out.append(json_escape(s.handle.as_str()).as_str());
    out.append("\",\"spec\":");
    out.append(spec_json(s).as_str());
    out.append(",\"status\":");
    out.append(status_json(s).as_str());
    out.append("}");
    out
}

/// Lists the roster.
pub fn roster_reply(st: &SupervisorState) -> (r: String)
    ensures
        r@ == roster_text(st@.services),
{
    let mut items: Vec<String> = Vec::new();
    let mut i: usize = 0;
    while i < st.services.len()
        invariant
            i <= st.services@.len(),
            items@.len() == i,
            forall|k: int| 0 <= k < i ==> #[trigger] items@[k]@ == svc_text(st.services@[k]@),
        decreases st.services@.len() - i,
    {
        items.push(svc_json(&st.services[i]));
        i += 1;
    }
    assert(texts(items@) =~= st@.services.map_values(|s: SvcView| svc_text(s)));
    let mut out = "{\"ok\":true,\"roster\":[".to_owned();
    out.append(join(&items, ",").as_str());
    out.append("]}");
    out
}

/// Describes one service.
pub fn service_reply(s: &Svc) -> (r: String)
    ensures
        r@ == service_text(s@),
{
    let mut out = "{\"ok\":true,\"service\":".to_owned();
    out.append(svc_json(s).as_str());
    out.append("}");
    out
}

/// A kept chain event in JSON.
fn rec_json(c: &ChainRec) -> (r: String)
    ensures
        r@ == rec_text(c@),
{
    let mut out = "{\"seq\":".to_owned();
    out.append(decimal(c.seq).as_str());
    out.append(",\"type\":\"");
    out.append(json_escape(c.event_type.as_str()).as_str());
    out.append("\",\"data_hex\":\"");
    out.append(c.data_hex.as_str());
    out.append("\"}");
    out
}

/// Lists the kept chain events of a service.
pub fn chain_reply(s: &Svc) -> (r: String)
    ensures
        r@ == chain_text(s@),
{
    let mut items: Vec<String> = Vec::new();
    let mut i: usize = 0;
    while i < s.chain_buf.len()
        invariant
            i <= s.chain_buf@.len(),
            items@.len() == i,
            forall|k: int| 0 <= k < i ==> #[trigger] items@[k]@ == rec_text(s.chain_buf@[k]@),
        decreases s.chain_buf@.len() - i,
    {
        items.push(rec_json(&s.chain_buf[i]));
        i += 1;
    }
    assert(texts(items@) =~= s@.chain.map_values(|c: ChainRecView| rec_text(c)));
    let mut out = "{\"ok\":true,\"handle\":\"".to_owned();
    out.append(json_escape(s.handle.as_str()).as_str());
    out.append("\",\"events\":[");
    out.append(join(&items, ",").as_str());
    out.append("]}");
    out
}

/// Counts what an apply has changed.
pub fn applied_reply(added: usize, removed: usize) -> (r: String)
    ensures
        r@ == applied_text(added as nat, removed as nat),
{
    let mut out = "{\"ok\":true,\"added\":".to_owned();
    out.append(decimal(added as u64).as_str());
    out.append(",\"removed\":");
    out.append(decimal(removed as u64).as_str());
    out.append("}");
    out
}

} // verus!
