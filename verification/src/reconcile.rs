//! What an event on the chain of a watched actor leads to: it may be recorded,
//! and a crash may be answered with a restart.

use crate::datum::{
    cause_in, decode_cause, found, post_json, read_value, ActorEvent, HttpRequest,
};
use crate::hex::{hex_bytes, hex_round_trip, hex_text, is_hex, to_hex};
use crate::json::{escaped, json_escape};
use crate::roster::{
    by_chain, by_id, find_chain, find_id, position, position_first, rec_views, svc_views,
    ChainRec, ChainRecView, Sink, SinkView, SpawnOrder, StateView, SupervisorState, Svc, SvcView,
    CHAIN_BUF_MAX,
};
use crate::text::{dec, decimal, same};
use vstd::prelude::*;
use vstd::utf8::encode_utf8;

verus! {

// ---- recording -------------------------------------------------------------

/// The latest of chain events, as many as there is room for.
pub open spec fn latest(chain: Seq<ChainRecView>) -> Seq<ChainRecView> {
    if chain.len() > CHAIN_BUF_MAX {
        chain.drop_first()
    } else {
        chain
    }
}

impl SvcView {
    /// The service once it has counted and kept one more event.
    pub open spec fn recorded(self, event_type: Seq<char>, data_hex: Seq<char>) -> SvcView {
        SvcView {
            rec_seq: (self.rec_seq + 1) as u64,
            chain: latest(
                self.chain.push(ChainRecView { seq: self.rec_seq, event_type, data_hex }),
            ),
            ..self
        }
    }
}

/// The services once an event is recorded: the first that runs as the subject
/// and is watched on the full chain keeps it.
pub open spec fn after_record(
    services: Seq<SvcView>,
    subject: Seq<char>,
    event_type: Seq<char>,
    data: Seq<u8>,
) -> Seq<SvcView> {
    match position(services, by_chain(subject)) {
        Some(i) => services.update(i, services[i].recorded(event_type, hex_text(data))),
        None => services,
    }
}

/// The line that is written for an event: a JSON object.
pub open spec fn record_line(
    handle: Seq<char>,
    child: Seq<char>,
    event_type: Seq<char>,
    seq: u64,
    data: Seq<u8>,
) -> Seq<char> {
    "{\"handle\":\""@ + escaped(handle) + "\",\"child\":\""@ + escaped(child) + "\",\"type\":\""@
        + escaped(event_type) + "\",\"seq\":"@ + dec(seq as nat) + ",\"data_hex\":\""@ + hex_text(data)
        + "\"}"@
}

/// An event that is to be written to a sink.
pub struct Recording {
    pub sink: Sink,
    pub handle: String,
    pub seq: u64,
    pub line: String,
}

/// How a recording is written.
pub enum SinkWrite {
    Post(HttpRequest),
    Append { path: String, content: Vec<u8> },
}

impl Recording {
    /// How the recording is written: posted as it is, or appended as a line of
    /// its own.
    pub fn write(&self) -> (r: SinkWrite)
        ensures
            match r {
                SinkWrite::Post(req) => {
                    &&& self.sink@ == SinkView::Http(req.url@)
                    &&& req.method@ == "POST"@
                    &&& req.headers@.len() == 1
                    &&& req.headers@[0].0@ == "content-type"@
                    &&& req.headers@[0].1@ == "application/json"@
                    &&& req.body is Some
                    &&& req.body->0@ == encode_utf8(self.line@)
                },
                SinkWrite::Append { path, content } => {
                    &&& self.sink@ == SinkView::File(path@)
                    &&& content@ == encode_utf8(self.line@).push(10u8)
                },
            },
    {
        let mut bytes = self.line.as_str().as_bytes_vec();
        match &self.sink {
            Sink::Http(url) => SinkWrite::Post(post_json(url.as_str(), bytes)),
            Sink::File(path) => {
                bytes.push(10u8);
                SinkWrite::Append { path: path.clone(), content: bytes }
            },
        }
    }
}

/// Keeps one more event.
fn keep(s: &mut Svc, event_type: &str, data_hex: String)
    requires
        old(s)@.wf(),
        old(s)@.rec_seq < u64::MAX,
        is_hex(data_hex@),
    ensures
        final(s)@ == old(s)@.recorded(event_type@, data_hex@),
        final(s)@.wf(),
{
    let ghost before = s@;
    let rec = ChainRec { seq: s.rec_seq, event_type: event_type.to_owned(), data_hex };
    s.rec_seq = s.rec_seq + 1;
    s.chain_buf.push(rec);
    assert(rec_views(s.chain_buf@) =~= before.chain.push(rec@));
    if s.chain_buf.len() > CHAIN_BUF_MAX {
        let ghost full = s.chain_buf@;
        s.chain_buf.remove(0);
        assert(rec_views(s.chain_buf@) =~= rec_views(full).drop_first());
    }
    assert(s@ =~= before.recorded(event_type@, data_hex@));
}

/// Records an event: the service it belongs to keeps it, and where that service
/// has a sink, it is to be written there.
pub fn record(st: &mut SupervisorState, e: &ActorEvent) -> (r: Option<Recording>)
    requires
        old(st)@.wf(),
        match position(old(st)@.services, by_chain(e.subject@)) {
            Some(i) => old(st)@.services[i].rec_seq < u64::MAX,
            None => true,
        },
    ensures
        final(st)@.wf(),
        final(st)@ == (StateView {
            services: after_record(old(st)@.services, e.subject@, e.event_type@, e.data@),
            ..old(st)@
        }),
        match (r, position(old(st)@.services, by_chain(e.subject@))) {
            (Some(w), Some(i)) => {
                let s = old(st)@.services[i];
                &&& s.record == Some(w.sink@)
                &&& w.handle@ == s.handle
                &&& w.seq == s.rec_seq
                &&& w.line@ == record_line(s.handle, e.subject@, e.event_type@, s.rec_seq, e.data@)
            },
            (None, Some(i)) => old(st)@.services[i].record is None,
            (Some(w), None) => false,
            (None, None) => true,
        },
        forall|i: int|
            0 <= i < old(st)@.services.len() && (#[trigger] old(st)@.services[i]).current_id
                == e.subject@ && (old(st)@.services[i].record is Some || old(st)@.services[i].keep_chain)
                && (forall|k: int|
                0 <= k < i ==> (#[trigger] old(st)@.services[k]).current_id != e.subject@ || (old(
                    st,
                )@.services[k].record is None && !old(st)@.services[k].keep_chain)) ==> {
                let s = old(st)@.services[i];
                let end = final(st)@.services[i];
                &&& r is Some <==> s.record is Some
                &&& r matches Some(w) ==> Some(w.sink@) == s.record && w.handle@ == s.handle && w.seq
                    == s.rec_seq
                &&& end.rec_seq == s.rec_seq + 1
                &&& end.chain.len() > 0
                &&& end.chain.last().seq == s.rec_seq
                &&& end.chain.last().event_type == e.event_type@
                &&& hex_bytes(end.chain.last().data_hex) == Some(e.data@)
            },
{
    proof {
        position_first(st@.services, by_chain(e.subject@));
        assert forall|k: int|
            0 <= k < st@.services.len() && (#[trigger] st@.services[k]).current_id == e.subject@ && (
            st@.services[k].record is Some || st@.services[k].keep_chain) implies by_chain(e.subject@)(
            st@.services[k],
        ) by {}
    }
    let i: usize = match find_chain(&st.services, e.subject.as_str()) {
        Some(i) => i,
        None => {
            return None;
        },
    };
    let ghost before = st@.services;
    proof {
        assert(before[i as int].wf());
        hex_round_trip(e.data@);
    }
    let data_hex = to_hex(e.data.as_slice());
    let seq: u64 = st.services[i].rec_seq;
    let out = match &st.services[i].record {
        Some(sink) => {
            let handle = st.services[i].handle.clone();
            let mut line = "{\"handle\":\"".to_owned();
            line.append(json_escape(handle.as_str()).as_str());
            line.append("\",\"child\":\"");
            line.append(json_escape(e.subject.as_str()).as_str());
            line.append("\",\"type\":\"");
            line.append(json_escape(e.event_type.as_str()).as_str());
            line.append("\",\"seq\":");
            line.append(decimal(seq).as_str());
            line.append(",\"data_hex\":\"");
            line.append(data_hex.as_str());
            line.append("\"}");
            Some(Recording { sink: sink.copy(), handle, seq, line })
        },
        None => None,
    };
    keep(&mut st.services[i], e.event_type.as_str(), data_hex);
    assert(svc_views(st.services@) =~= before.update(
        i as int,
        before[i as int].recorded(e.event_type@, hex_text(e.data@)),
    ));
    out
}

// ---- endings ---------------------------------------------------------------

/// What an event says of the actor's end.
pub enum Ending {
    /// The actor goes on.
    Running,
    /// It ended as it was meant to, or was made to: it is left down.
    Intended(String),
    /// It failed. `known` tells whether the event said so; a cause that cannot
    /// be read counts as a failure.
    Crashed { known: bool },
}

/// Whether an end is a crash: a failure, or an end whose cause is not known.
pub open spec fn is_crash(cause: Option<Seq<char>>) -> bool {
    cause is None || cause == Some("Failed"@)
}

/// Judges an end by its cause.
pub fn judge(cause: Option<String>) -> (r: Ending)
    ensures
        match r {
            Ending::Running => false,
            Ending::Intended(c) => found(cause) == Some(c@) && !is_crash(found(cause)),
            Ending::Crashed { known } => is_crash(found(cause)) && known == cause is Some,
        },
        r is Crashed <==> cause is None || found(cause) == Some("Failed"@),
{
    match cause {
        None => Ending::Crashed { known: false },
        Some(c) => if same(c.as_str(), "Failed") {
            Ending::Crashed { known: true }
        } else {
            Ending::Intended(c)
        },
    }
}

/// What an event says of the actor's end. Only a termination ends an actor.
pub fn ending(e: &ActorEvent) -> (r: Ending)
    ensures
        match r {
            Ending::Running => e.event_type@ != "terminated"@,
            Ending::Intended(c) => e.event_type@ == "terminated"@ && cause_in(read_value(e.data@))
                == Some(c@) && !is_crash(Some(c@)),
            Ending::Crashed { known } => e.event_type@ == "terminated"@ && is_crash(
                cause_in(read_value(e.data@)),
            ) && known == cause_in(read_value(e.data@)) is Some,
        },
        r is Crashed <==> e.event_type@ == "terminated"@ && (cause_in(read_value(e.data@)) is None
            || cause_in(read_value(e.data@)) == Some("Failed"@)),
{
    if !same(e.event_type.as_str(), "terminated") {
        return Ending::Running;
    }
    judge(decode_cause(e.data.as_slice()))
}

// ---- crashes ---------------------------------------------------------------

/// The restarts that the window reaches back to.
pub open spec fn recent(restarts: Seq<u64>, now: u64, window: u64) -> Seq<u64> {
    restarts.filter(|t: u64| now - t <= window)
}

impl SvcView {
    /// Whether a crash is answered with a restart: the service is not blocked,
    /// and the window has room for one more.
    pub open spec fn respawns(self, now: u64) -> bool {
        !self.blocked && recent(self.restarts, now, self.window_ms).len() < self.max
    }

    /// The service once a crash is judged: older restarts are forgotten, and it
    /// is blocked where the window has no room.
    pub open spec fn crashed(self, now: u64) -> SvcView {
        SvcView {
            restarts: recent(self.restarts, now, self.window_ms),
            blocked: !self.respawns(now),
            ..self
        }
    }

    /// The service once it was spawned again, or could not be.
    pub open spec fn respawned(self, now: u64, answer: Result<Seq<char>, Seq<char>>) -> SvcView {
        match answer {
            Ok(id) => SvcView { current_id: id, restarts: self.restarts.push(now), ..self },
            Err(_) => self,
        }
    }
}

/// What a crash leads to.
pub enum Verdict {
    /// No service runs as that id.
    Unknown,
    /// The service was blocked before.
    AlreadyBlocked,
    /// The service is blocked from now on.
    Tripped,
    /// The service at this place is to be spawned again.
    Respawn { at: usize, order: SpawnOrder },
}

/// Forgets the restarts that the window does not reach back to.
fn trim_window(s: &mut Svc, now: u64)
    ensures
        final(s)@ == (SvcView {
            restarts: recent(old(s)@.restarts, now, old(s)@.window_ms),
            ..old(s)@
        }),
        final(s)@.restarts.len() <= old(s)@.restarts.len(),
{
    let ghost all = s.restarts@;
    let ghost before = s@;
    let window: u64 = s.window_ms;
    let ghost p = |t: u64| now - t <= window;
    let mut kept: Vec<u64> = Vec::new();
    let mut i: usize = 0;
    proof {
        reveal(Seq::filter);
        assert(all.take(0) =~= Seq::empty());
    }
    while i < s.restarts.len()
        invariant
            i <= all.len(),
            s.restarts@ == all,
            p == (|t: u64| now - t <= window),
            kept@ == all.take(i as int).filter(p),
            kept@.len() <= i,
        decreases all.len() - i,
    {
        let t: u64 = s.restarts[i];
        proof {
            reveal(Seq::filter);
            assert(all.take(i + 1).drop_last() =~= all.take(i as int));
        }
        if now.saturating_sub(t) <= window {
            kept.push(t);
        }
        i += 1;
    }
    assert(all.take(i as int) =~= all);
    s.restarts = kept;
    assert(s@ =~= (SvcView { restarts: recent(before.restarts, now, before.window_ms), ..before }));
}

/// The services once the crash of an actor is judged.
pub open spec fn after_crash(services: Seq<SvcView>, subject: Seq<char>, now: u64) -> Seq<SvcView> {
    match position(services, by_id(subject)) {
        Some(i) => services.update(i, services[i].crashed(now)),
        None => services,
    }
}

/// Judges the crash of an actor.
pub fn on_crash(st: &mut SupervisorState, subject: &str, now: u64) -> (r: Verdict)
    requires
        old(st)@.wf(),
    ensures
        final(st)@.wf(),
        final(st)@ == (StateView {
            services: after_crash(old(st)@.services, subject@, now),
            ..old(st)@
        }),
        match (r, position(old(st)@.services, by_id(subject@))) {
            (Verdict::Unknown, None) => true,
            (Verdict::AlreadyBlocked, Some(i)) => old(st)@.services[i].blocked,
            (Verdict::Tripped, Some(i)) => !old(st)@.services[i].blocked
                && !old(st)@.services[i].respawns(now),
            (Verdict::Respawn { at, order }, Some(i)) => {
                &&& at == i
                &&& at < old(st)@.services.len()
                &&& old(st)@.services[i].respawns(now)
                &&& order@ == old(st)@.services[i].order()
            },
            _ => false,
        },
        r is Unknown <==> forall|k: int|
            0 <= k < old(st)@.services.len() ==> (#[trigger] old(st)@.services[k]).current_id
                != subject@,
        forall|i: int|
            0 <= i < old(st)@.services.len() && (#[trigger] old(st)@.services[i]).current_id == subject@
                && (forall|k: int| 0 <= k < i ==> (#[trigger] old(st)@.services[k]).current_id != subject@)
                ==> {
                let s = old(st)@.services[i];
                let end = final(st)@.services[i];
                let counted = s.restarts.filter(|t: u64| now - t <= s.window_ms).len();
                &&& r is AlreadyBlocked <==> s.blocked
                &&& r is Tripped <==> !s.blocked && counted >= s.max
                &&& r is Respawn <==> !s.blocked && counted < s.max
                &&& r matches Verdict::Respawn { at, order } ==> at == i && order.handle@ == s.handle
                    && order.manifest@ == s.manifest && order.full_chain == (s.record is Some
                    || s.keep_chain)
                &&& end.blocked <==> s.blocked || counted >= s.max
                &&& end.current_id == s.current_id
            },
{
    proof {
        position_first(st@.services, by_id(subject@));
    }
    let at: usize = match find_id(&st.services, subject) {
        Some(i) => i,
        None => {
            return Verdict::Unknown;
        },
    };
    let ghost before = st@.services;
    proof {
        assert(before[at as int].wf());
        assert(by_id(subject@)(before[at as int]));
    }
    trim_window(&mut st.services[at], now);
    let blocked: bool = st.services[at].blocked;
    let room: bool = st.services[at].restarts.len() < st.services[at].max as usize;
    if !blocked && !room {
        st.services[at].blocked = true;
    }
    let ghost s = st.services@[at as int]@;
    assert(s =~= before[at as int].crashed(now));
    assert(svc_views(st.services@) =~= before.update(at as int, s));
    if blocked {
        Verdict::AlreadyBlocked
    } else if !room {
        Verdict::Tripped
    } else {
        Verdict::Respawn { at, order: st.services[at].order() }
    }
}

/// Notes what became of a respawn.
pub fn on_respawn(st: &mut SupervisorState, at: usize, now: u64, answer: Result<String, String>)
    requires
        old(st)@.wf(),
        at < old(st)@.services.len(),
        old(st)@.services[at as int].restarts.len() < old(st)@.services[at as int].max,
    ensures
        final(st)@.wf(),
        final(st)@ == (StateView {
            services: old(st)@.services.update(
                at as int,
                old(st)@.services[at as int].respawned(now, crate::datum::text_result(answer)),
            ),
            ..old(st)@
        }),
        ({
            let s = old(st)@.services[at as int];
            let end = final(st)@.services[at as int];
            match answer {
                Ok(id) => end.current_id == id@ && end.restarts == s.restarts.push(now),
                Err(_) => end.current_id == s.current_id && end.restarts == s.restarts,
            }
        }),
        final(st)@.services[at as int].blocked == old(st)@.services[at as int].blocked,
{
    let ghost before = st@.services;
    assert(before[at as int].wf());
    match answer {
        Ok(id) => {
            st.services[at].current_id = id;
            st.services[at].restarts.push(now);
        },
        Err(_) => {},
    }
    assert(st.services@[at as int]@ =~= before[at as int].respawned(
        now,
        crate::datum::text_result(answer),
    ));
    assert(svc_views(st.services@) =~= before.update(at as int, st.services@[at as int]@));
}

// ---- what handling an event keeps ------------------------------------------

impl SvcView {
    /// The service once a crash is judged and the respawn, where there is one,
    /// was answered.
    pub open spec fn after(self, now: u64, answer: Result<Seq<char>, Seq<char>>) -> SvcView {
        if self.respawns(now) {
            self.crashed(now).respawned(now, answer)
        } else {
            self.crashed(now)
        }
    }
}

/// The services once an event is handled: recorded, and answered where it is a
/// crash.
pub open spec fn after_event(
    services: Seq<SvcView>,
    subject: Seq<char>,
    event_type: Seq<char>,
    data: Seq<u8>,
    cause: Option<Seq<char>>,
    now: u64,
    answer: Result<Seq<char>, Seq<char>>,
) -> Seq<SvcView> {
    let kept = after_record(services, subject, event_type, data);
    match position(kept, by_id(subject)) {
        Some(i) => if event_type == "terminated"@ && is_crash(cause) {
            kept.update(i, kept[i].after(now, answer))
        } else {
            kept
        },
        None => kept,
    }
}

/// Handling an event is recording it, judging the crash, and noting the answer
/// where a respawn was ordered.
pub proof fn event_steps(
    services: Seq<SvcView>,
    subject: Seq<char>,
    event_type: Seq<char>,
    data: Seq<u8>,
    cause: Option<Seq<char>>,
    now: u64,
    answer: Result<Seq<char>, Seq<char>>,
)
    requires
        event_type == "terminated"@,
        is_crash(cause),
    ensures
        ({
            let kept = after_record(services, subject, event_type, data);
            let judged = after_crash(kept, subject, now);
            let end = after_event(services, subject, event_type, data, cause, now, answer);
            match position(kept, by_id(subject)) {
                Some(i) => if kept[i].respawns(now) {
                    end == judged.update(i, judged[i].respawned(now, answer))
                } else {
                    end == judged
                },
                None => end == judged,
            }
        }),
{
    let kept = after_record(services, subject, event_type, data);
    position_first(kept, by_id(subject));
    match position(kept, by_id(subject)) {
        Some(i) => {
            let judged = after_crash(kept, subject, now);
            assert(kept.update(i, kept[i].after(now, answer)) =~= judged.update(
                i,
                judged[i].respawned(now, answer),
            ) || !kept[i].respawns(now));
        },
        None => {},
    }
}

/// Only a crash brings anything down or up: where an actor goes on, or ends as
/// it was meant to, every service keeps its id, its restarts and its standing,
/// and no more than the record of its chain grows.
pub proof fn only_a_crash_respawns(
    services: Seq<SvcView>,
    subject: Seq<char>,
    event_type: Seq<char>,
    data: Seq<u8>,
    cause: Option<Seq<char>>,
    now: u64,
    answer: Result<Seq<char>, Seq<char>>,
    i: int,
)
    requires
        0 <= i < services.len(),
        event_type != "terminated"@ || !is_crash(cause),
    ensures
        ({
            let end = after_event(services, subject, event_type, data, cause, now, answer);
            &&& end.len() == services.len()
            &&& end[i] == (SvcView { rec_seq: end[i].rec_seq, chain: end[i].chain, ..services[i] })
        }),
{
    position_first(services, by_chain(subject));
}

/// The crash of an actor that no service runs as changes nothing but records.
pub proof fn unknown_ids_are_ignored(
    services: Seq<SvcView>,
    subject: Seq<char>,
    event_type: Seq<char>,
    data: Seq<u8>,
    cause: Option<Seq<char>>,
    now: u64,
    answer: Result<Seq<char>, Seq<char>>,
)
    requires
        position(services, by_id(subject)) is None,
    ensures
        after_event(services, subject, event_type, data, cause, now, answer) == services,
{
    position_first(services, by_id(subject));
    position_first(services, by_chain(subject));
    match position(services, by_chain(subject)) {
        Some(i) => {
            assert(by_id(subject)(services[i]));
        },
        None => {},
    }
}

/// No event changes what is declared: the same services in the same order, each
/// with its handle, manifest, limits, sink and chain setting.
pub proof fn events_keep_the_roster(
    services: Seq<SvcView>,
    subject: Seq<char>,
    event_type: Seq<char>,
    data: Seq<u8>,
    cause: Option<Seq<char>>,
    now: u64,
    answer: Result<Seq<char>, Seq<char>>,
    i: int,
)
    requires
        0 <= i < services.len(),
    ensures
        ({
            let end = after_event(services, subject, event_type, data, cause, now, answer);
            &&& end.len() == services.len()
            &&& end[i].handle == services[i].handle
            &&& end[i].manifest == services[i].manifest
            &&& end[i].max == services[i].max
            &&& end[i].window_ms == services[i].window_ms
            &&& end[i].record == services[i].record
            &&& end[i].keep_chain == services[i].keep_chain
        }),
{
    position_first(services, by_chain(subject));
    position_first(after_record(services, subject, event_type, data), by_id(subject));
}

/// A blocked service stays blocked and down, whatever events come.
pub proof fn blocked_stays_down(
    services: Seq<SvcView>,
    subject: Seq<char>,
    event_type: Seq<char>,
    data: Seq<u8>,
    cause: Option<Seq<char>>,
    now: u64,
    answer: Result<Seq<char>, Seq<char>>,
    i: int,
)
    requires
        0 <= i < services.len(),
        services[i].blocked,
    ensures
        ({
            let end = after_event(services, subject, event_type, data, cause, now, answer);
            end[i].blocked && end[i].current_id == services[i].current_id
        }),
{
    position_first(services, by_chain(subject));
    position_first(after_record(services, subject, event_type, data), by_id(subject));
}

/// A crash is answered with a restart as long as the window has room: the service
/// runs as the new id, and the restart counts.
pub proof fn a_crash_is_answered(
    services: Seq<SvcView>,
    subject: Seq<char>,
    data: Seq<u8>,
    cause: Option<Seq<char>>,
    now: u64,
    id: Seq<char>,
)
    requires
        is_crash(cause),
        position(services, by_id(subject)) is Some,
        services[position(services, by_id(subject))->0].respawns(now),
    ensures
        ({
            let i = position(services, by_id(subject))->0;
            let end = after_event(services, subject, "terminated"@, data, cause, now, Ok(id));
            &&& 0 <= i < services.len()
            &&& end[i].current_id == id
            &&& end[i].restarts == recent(services[i].restarts, now, services[i].window_ms).push(now)
            &&& !end[i].blocked
        }),
{
    recorded_in_place(services, subject, "terminated"@, data);
    position_first(services, by_id(subject));
}

/// A crash that the window has no room for blocks the service, which stays down.
pub proof fn a_crash_loop_trips(
    services: Seq<SvcView>,
    subject: Seq<char>,
    data: Seq<u8>,
    cause: Option<Seq<char>>,
    now: u64,
    answer: Result<Seq<char>, Seq<char>>,
)
    requires
        is_crash(cause),
        position(services, by_id(subject)) is Some,
        !services[position(services, by_id(subject))->0].respawns(now),
    ensures
        ({
            let i = position(services, by_id(subject))->0;
            let end = after_event(services, subject, "terminated"@, data, cause, now, answer);
            &&& 0 <= i < services.len()
            &&& end[i].blocked
            &&& end[i].current_id == services[i].current_id
        }),
{
    recorded_in_place(services, subject, "terminated"@, data);
    position_first(services, by_id(subject));
}

/// Recording moves nothing: each service is found where it was, with its ids, its
/// restarts and its standing.
proof fn recorded_in_place(
    services: Seq<SvcView>,
    subject: Seq<char>,
    event_type: Seq<char>,
    data: Seq<u8>,
)
    ensures
        ({
            let kept = after_record(services, subject, event_type, data);
            &&& kept.len() == services.len()
            &&& position(kept, by_id(subject)) == position(services, by_id(subject))
            &&& forall|k: int|
                0 <= k < services.len() ==> (#[trigger] kept[k]) == (SvcView {
                    rec_seq: kept[k].rec_seq,
                    chain: kept[k].chain,
                    ..services[k]
                })
        }),
{
    position_first(services, by_chain(subject));
    position_first(services, by_id(subject));
    let kept = after_record(services, subject, event_type, data);
    position_first(kept, by_id(subject));
    match position(services, by_id(subject)) {
        Some(i) => {
            assert(kept[i].current_id == subject);
            match position(kept, by_id(subject)) {
                Some(j) => {
                    assert(kept[j].current_id == subject);
                    assert(services[j].current_id == subject);
                    assert(i == j);
                },
                None => {
                    assert(by_id(subject)(kept[i]));
                },
            }
        },
        None => {
            match position(kept, by_id(subject)) {
                Some(j) => {
                    assert(by_id(subject)(services[j]));
                },
                None => {},
            }
        },
    }
}

// ---- the chain that is kept ------------------------------------------------

/// A service once it has kept these events, one after another: each a type and
/// its data in hexadecimal.
pub open spec fn recorded_all(s: SvcView, events: Seq<(Seq<char>, Seq<char>)>) -> SvcView
    decreases events.len(),
{
    if events.len() == 0 {
        s
    } else {
        recorded_all(s, events.drop_last()).recorded(events.last().0, events.last().1)
    }
}

/// What is kept of a chain are its latest events, as many as there is room for, in
/// their order, each under its number.
pub proof fn the_latest_events_are_kept(s: SvcView, events: Seq<(Seq<char>, Seq<char>)>)
    requires
        s.rec_seq == 0,
        s.chain.len() == 0,
        events.len() <= u64::MAX,
    ensures
        ({
            let end = recorded_all(s, events);
            let n = if events.len() < CHAIN_BUF_MAX {
                events.len() as int
            } else {
                CHAIN_BUF_MAX as int
            };
            &&& end.rec_seq == events.len()
            &&& end.chain.len() == n
            &&& forall|i: int|
                0 <= i < n ==> (#[trigger] end.chain[i]) == (ChainRecView {
                    seq: (events.len() - n + i) as u64,
                    event_type: events[events.len() - n + i].0,
                    data_hex: events[events.len() - n + i].1,
                })
        }),
    decreases events.len(),
{
    if events.len() > 0 {
        let front = events.drop_last();
        the_latest_events_are_kept(s, front);
        let mid = recorded_all(s, front);
        let end = recorded_all(s, events);
        let rec = ChainRecView {
            seq: mid.rec_seq,
            event_type: events.last().0,
            data_hex: events.last().1,
        };
        let pushed = mid.chain.push(rec);
        let n = if events.len() < CHAIN_BUF_MAX {
            events.len() as int
        } else {
            CHAIN_BUF_MAX as int
        };
        assert forall|i: int| 0 <= i < n implies (#[trigger] end.chain[i]) == (ChainRecView {
            seq: (events.len() - n + i) as u64,
            event_type: events[events.len() - n + i].0,
            data_hex: events[events.len() - n + i].1,
        }) by {
            let at = events.len() - n + i;
            if at < front.len() {
                assert(front[at] == events[at]);
                let k = if pushed.len() > CHAIN_BUF_MAX {
                    i + 1
                } else {
                    i
                };
                assert(end.chain[i] == pushed[k]);
                assert(pushed[k] == mid.chain[k]);
            } else {
                assert(end.chain[i] == rec);
            }
        }
    }
}

/// A record goes on across incarnations: neither a crash with its restart nor a
/// manual restart touches what is kept, how it is numbered, or where it goes.
pub proof fn recording_goes_on(
    s: SvcView,
    now: u64,
    answer: Result<Seq<char>, Seq<char>>,
    id: Seq<char>,
)
    ensures
        s.after(now, answer).chain == s.chain,
        s.after(now, answer).rec_seq == s.rec_seq,
        s.after(now, answer).record == s.record,
        s.after(now, answer).full_chain() == s.full_chain(),
        s.restarted(id).chain == s.chain,
        s.restarted(id).rec_seq == s.rec_seq,
        s.restarted(id).record == s.record,
        s.restarted(id).full_chain() == s.full_chain(),
{
}

// ---- the rate of restarts --------------------------------------------------

/// A service once crash after crash was handled: each at its time, the respawn
/// answered as given.
pub open spec fn after_crashes(
    s: SvcView,
    run: Seq<(u64, Result<Seq<char>, Seq<char>>)>,
) -> SvcView
    decreases run.len(),
{
    if run.len() == 0 {
        s
    } else {
        after_crashes(s, run.drop_last()).after(run.last().0, run.last().1)
    }
}

/// When the service was restarted in the course of those crashes.
pub open spec fn restart_times(
    s: SvcView,
    run: Seq<(u64, Result<Seq<char>, Seq<char>>)>,
) -> Seq<u64>
    decreases run.len(),
{
    if run.len() == 0 {
        Seq::empty()
    } else {
        let before = restart_times(s, run.drop_last());
        if after_crashes(s, run.drop_last()).respawns(run.last().0) && run.last().1 is Ok {
            before.push(run.last().0)
        } else {
            before
        }
    }
}

/// Times that do not run backwards.
pub open spec fn in_order(run: Seq<(u64, Result<Seq<char>, Seq<char>>)>) -> bool {
    forall|i: int, j: int| 0 <= i <= j < run.len() ==> (#[trigger] run[i]).0 <= (#[trigger] run[j]).0
}

/// Of times in order, those that a window reaches back to are the last ones.
proof fn recent_is_a_tail(times: Seq<u64>, now: u64, window: u64) -> (k: int)
    requires
        forall|i: int, j: int| 0 <= i <= j < times.len() ==> times[i] <= times[j],
    ensures
        0 <= k <= times.len(),
        recent(times, now, window) == times.skip(k),
        forall|i: int| 0 <= i < k ==> now - #[trigger] times[i] > window,
    decreases times.len(),
{
    reveal(Seq::filter);
    let p = |t: u64| now - t <= window;
    if times.len() == 0 {
        assert(times.skip(0) =~= times.filter(p));
        0
    } else {
        let k = recent_is_a_tail(times.drop_last(), now, window);
        if p(times.last()) {
            assert(times.filter(p) =~= times.skip(k)) by {
                assert(times.filter(p) == times.drop_last().filter(p).push(times.last()));
            }
            assert forall|i: int| 0 <= i < k implies now - #[trigger] times[i] > window by {
                assert(times[i] == times.drop_last()[i]);
            }
            k
        } else {
            assert forall|i: int| 0 <= i < times.len() implies now - #[trigger] times[i] > window by {
                assert(times[i] <= times[times.len() - 1]);
            }
            assert forall|i: int| 0 <= i < times.drop_last().len() implies !p(#[trigger] times.drop_last()[i]) by {
                assert(times.drop_last()[i] == times[i]);
            }
            if k < times.drop_last().len() {
                let kept = times.drop_last().filter(p);
                times.drop_last().lemma_filter_pred(p, 0);
                assert(kept[0] == times[k]);
            }
            assert(times.filter(p) =~= times.skip(times.len() as int));
            times.len() as int
        }
    }
}

/// What holds of restarts and window along a run of crashes: the service keeps
/// the tail of the restart times, and what it has forgotten is out of reach.
proof fn window_invariant(s: SvcView, run: Seq<(u64, Result<Seq<char>, Seq<char>>)>) -> (k: int)
    requires
        s.restarts.len() == 0,
        in_order(run),
    ensures
        ({
            let log = restart_times(s, run);
            let end = after_crashes(s, run);
            &&& end.max == s.max
            &&& end.window_ms == s.window_ms
            &&& 0 <= k <= log.len()
            &&& end.restarts == log.skip(k)
            &&& forall|i: int|
                0 <= i < k ==> run.len() > 0 && run.last().0 - #[trigger] log[i] > s.window_ms
            &&& forall|i: int| 0 <= i < log.len() ==> run.len() > 0 && #[trigger] log[i] <= run.last().0
            &&& forall|i: int, j: int| 0 <= i <= j < log.len() ==> log[i] <= log[j]
            &&& forall|i: int|
                0 <= i && i + s.max < log.len() ==> log[i + s.max] - #[trigger] log[i] > s.window_ms
        }),
    decreases run.len(),
{
    let log = restart_times(s, run);
    if run.len() == 0 {
        assert(s.restarts =~= log.skip(0));
        return 0;
    }
    let front = run.drop_last();
    let old_log = restart_times(s, front);
    let mid = after_crashes(s, front);
    let now = run.last().0;
    assert(in_order(front)) by {
        assert forall|i: int, j: int| 0 <= i <= j < front.len() implies (#[trigger] front[i]).0 <= (
        #[trigger] front[j]).0 by {
            assert(run[i].0 <= run[j].0);
        }
    }
    let k0 = window_invariant(s, front);
    if front.len() > 0 {
        assert(front.last() == run[run.len() - 2]);
        assert(run[run.len() - 2].0 <= run[run.len() - 1].0);
    }
    let tail = mid.restarts;
    assert forall|i: int, j: int| 0 <= i <= j < tail.len() implies tail[i] <= tail[j] by {
        assert(tail[i] == old_log[k0 + i]);
        assert(tail[j] == old_log[k0 + j]);
    }
    let d = recent_is_a_tail(tail, now, s.window_ms);
    let k = k0 + d;
    assert(tail.skip(d) =~= old_log.skip(k));
    assert forall|i: int| 0 <= i < k implies now - #[trigger] old_log[i] > s.window_ms by {
        if i >= k0 {
            assert(tail[i - k0] == old_log[i]);
        }
    }
    let end = after_crashes(s, run);
    if mid.respawns(now) && run.last().1 is Ok {
        assert(log == old_log.push(now));
        assert(end.restarts =~= log.skip(k));
        assert forall|i: int| 0 <= i && i + s.max < log.len() implies log[i + s.max] - #[trigger] log[i]
            > s.window_ms by {
            if i + s.max == old_log.len() {
                assert(i < k);
                assert(log[i] == old_log[i]);
            } else {
                assert(log[i] == old_log[i]);
                assert(log[i + s.max] == old_log[i + s.max]);
            }
        }
        assert forall|i: int| 0 <= i < k implies run.last().0 - #[trigger] log[i] > s.window_ms by {
            assert(log[i] == old_log[i]);
        }
        assert forall|i: int| 0 <= i < log.len() implies #[trigger] log[i] <= run.last().0 by {
            if i < old_log.len() {
                assert(log[i] == old_log[i]);
            }
        }
    } else {
        assert(log == old_log);
        assert(end.restarts =~= log.skip(k));
    }
    k
}

/// However often a service crashes, no more than `max` restarts fall into one
/// window: of any `max` + 1 restarts in a row, the first and the last are more
/// than a window apart. The service starts with none, as it does when it comes
/// up and after a manual restart, and the clock does not run backwards.
pub proof fn restarts_are_limited(
    s: SvcView,
    run: Seq<(u64, Result<Seq<char>, Seq<char>>)>,
    i: int,
)
    requires
        s.restarts.len() == 0,
        in_order(run),
        0 <= i,
        i + s.max < restart_times(s, run).len(),
    ensures
        restart_times(s, run)[i + s.max] - restart_times(s, run)[i] > s.window_ms,
{
    let k = window_invariant(s, run);
}

// ---- what an event leads to ------------------------------------------------

/// What a crash is answered with is a matter of counting: the restarts of the
/// service that the window still reaches back to are held against its limit. Below
/// the limit the service is spawned again and not blocked, whatever the limit is;
/// at the limit it is blocked and stays down; and a blocked one stays as it is. A
/// restart that is made counts from then on, one that fails does not. No other
/// service is touched.
pub proof fn crashes_are_held_against_the_limit(
    services: Seq<SvcView>,
    subject: Seq<char>,
    data: Seq<u8>,
    cause: Option<Seq<char>>,
    now: u64,
    answer: Result<Seq<char>, Seq<char>>,
    i: int,
)
    requires
        0 <= i < services.len(),
        services[i].current_id == subject,
        forall|k: int| 0 <= k < i ==> (#[trigger] services[k]).current_id != subject,
        cause is None || cause == Some("Failed"@),
    ensures
        ({
            let s = services[i];
            let all = after_event(services, subject, "terminated"@, data, cause, now, answer);
            let end = all[i];
            let counted = s.restarts.filter(|t: u64| now - t <= s.window_ms);
            &&& all.len() == services.len()
            &&& s.blocked ==> end.blocked && end.current_id == s.current_id
            &&& !s.blocked && counted.len() < s.max ==> !end.blocked && match answer {
                Ok(id) => end.current_id == id && end.restarts == counted.push(now),
                Err(_) => end.current_id == s.current_id && end.restarts == counted,
            }
            &&& !s.blocked && counted.len() >= s.max ==> end.blocked && end.current_id
                == s.current_id && end.restarts == counted
            &&& forall|k: int|
                0 <= k < services.len() && k != i ==> (#[trigger] all[k]).current_id
                    == services[k].current_id && all[k].restarts == services[k].restarts
                    && all[k].blocked == services[k].blocked
        }),
{
    recorded_in_place(services, subject, "terminated"@, data);
    position_first(services, by_id(subject));
    assert(by_id(subject)(services[i]));
    match position(services, by_id(subject)) {
        Some(j) => {
            assert(services[j].current_id == subject);
            assert(i == j);
        },
        None => {},
    }
}

/// A service that ended otherwise than by a crash, or did not end, is left alone:
/// it keeps its id, its restarts and its standing. So does every service whose id
/// is not the one that the event is about.
pub proof fn other_events_restart_nothing(
    services: Seq<SvcView>,
    subject: Seq<char>,
    event_type: Seq<char>,
    data: Seq<u8>,
    cause: Option<Seq<char>>,
    now: u64,
    answer: Result<Seq<char>, Seq<char>>,
    k: int,
)
    requires
        0 <= k < services.len(),
        event_type != "terminated"@ || (cause is Some && cause != Some("Failed"@))
            || services[k].current_id != subject,
    ensures
        ({
            let end = after_event(services, subject, event_type, data, cause, now, answer);
            &&& end.len() == services.len()
            &&& end[k].current_id == services[k].current_id
            &&& end[k].restarts == services[k].restarts
            &&& end[k].blocked == services[k].blocked
        }),
{
    recorded_in_place(services, subject, event_type, data);
    position_first(services, by_id(subject));
}

/// As many crashes as the limit allows are all answered: a service that starts
/// afresh and crashes no more than `max` times is never blocked, whenever the
/// crashes come, and runs as the id of the last restart that was made.
pub proof fn the_limit_can_be_used_up(s: SvcView, run: Seq<(u64, Result<Seq<char>, Seq<char>>)>)
    requires
        s.restarts.len() == 0,
        !s.blocked,
        run.len() <= s.max,
    ensures
        !after_crashes(s, run).blocked,
        after_crashes(s, run).restarts.len() <= run.len(),
        run.len() > 0 && run.last().1 is Ok ==> after_crashes(s, run).current_id
            == run.last().1->Ok_0,
        run.len() > 0 && run.last().1 is Err ==> after_crashes(s, run).current_id
            == after_crashes(s, run.drop_last()).current_id,
        after_crashes(s, run).max == s.max,
        after_crashes(s, run).window_ms == s.window_ms,
    decreases run.len(),
{
    if run.len() > 0 {
        let front = run.drop_last();
        the_limit_can_be_used_up(s, front);
        let mid = after_crashes(s, front);
        let now = run.last().0;
        mid.restarts.lemma_filter_len(|t: u64| now - t <= mid.window_ms);
    }
}

/// Whatever its type, an event of a service that is watched on the full chain is
/// kept: it becomes the last entry of the service's chain, under the number that
/// is next, with its type and its data, and the number goes up by one. What was
/// kept before stays in front of it, but for the oldest where there is no room for
/// more.
pub proof fn every_event_is_kept(
    services: Seq<SvcView>,
    subject: Seq<char>,
    event_type: Seq<char>,
    data: Seq<u8>,
    cause: Option<Seq<char>>,
    now: u64,
    answer: Result<Seq<char>, Seq<char>>,
    i: int,
)
    requires
        0 <= i < services.len(),
        services[i].current_id == subject,
        services[i].record is Some || services[i].keep_chain,
        forall|k: int|
            0 <= k < i ==> (#[trigger] services[k]).current_id != subject || (services[k].record is None
                && !services[k].keep_chain),
        services[i].rec_seq < u64::MAX,
        services[i].chain.len() <= 200,
    ensures
        ({
            let s = services[i];
            let kept = after_record(services, subject, event_type, data)[i];
            let end = after_event(services, subject, event_type, data, cause, now, answer)[i];
            &&& kept.rec_seq == s.rec_seq + 1
            &&& kept.chain.len() > 0
            &&& kept.chain.last().seq == s.rec_seq
            &&& kept.chain.last().event_type == event_type
            &&& hex_bytes(kept.chain.last().data_hex) == Some(data)
            &&& kept.chain.last().data_hex == hex_text(data)
            &&& kept.chain.drop_last() == (if s.chain.len() < 200 {
                s.chain
            } else {
                s.chain.drop_first()
            })
            &&& end.rec_seq == kept.rec_seq
            &&& end.chain == kept.chain
        }),
{
    recorded_in_place(services, subject, event_type, data);
    position_first(services, by_id(subject));
    position_first(services, by_chain(subject));
    assert(by_chain(subject)(services[i]));
    match position(services, by_chain(subject)) {
        Some(j) => {
            assert(services[j].current_id == subject && services[j].full_chain());
            assert(i == j);
        },
        None => {},
    }
    hex_round_trip(data);
    let s = services[i];
    let rec = ChainRecView { seq: s.rec_seq, event_type, data_hex: hex_text(data) };
    let kept = after_record(services, subject, event_type, data)[i];
    let pushed = s.chain.push(rec);
    assert(pushed.drop_last() =~= s.chain);
    if s.chain.len() == 200 {
        assert(kept.chain.drop_last() =~= s.chain.drop_first());
    }
}

/// An event is kept by the service that it is about, and by no other: one with
/// another id, or one that is not watched on the full chain, keeps the chain that
/// it has, and its number.
pub proof fn no_other_keeps_an_event(
    services: Seq<SvcView>,
    subject: Seq<char>,
    event_type: Seq<char>,
    data: Seq<u8>,
    cause: Option<Seq<char>>,
    now: u64,
    answer: Result<Seq<char>, Seq<char>>,
    k: int,
)
    requires
        0 <= k < services.len(),
        services[k].current_id != subject || (services[k].record is None && !services[k].keep_chain),
    ensures
        after_record(services, subject, event_type, data)[k] == services[k],
        ({
            let end = after_event(services, subject, event_type, data, cause, now, answer);
            end[k].chain == services[k].chain && end[k].rec_seq == services[k].rec_seq
        }),
{
    recorded_in_place(services, subject, event_type, data);
    position_first(services, by_id(subject));
    position_first(services, by_chain(subject));
}

} // verus!
