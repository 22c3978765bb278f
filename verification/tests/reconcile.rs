use packr_guest::{encode, Value};
use supervisor::boot::initial_state;
use supervisor::control::{resume, start, Command, Next};
use supervisor::datum::ActorEvent;
use supervisor::reconcile::{
    ending, judge, on_crash, on_respawn, record, Ending, SinkWrite, Verdict,
};
use supervisor::reply::chain_reply;
use supervisor::roster::{
    RecordCfg, ServiceCfg, SupervisorState, CHAIN_BUF_MAX, DEFAULT_MAX, DEFAULT_WINDOW_MS,
};

fn cfg(handle: &str) -> ServiceCfg {
    ServiceCfg {
        handle: handle.to_string(),
        manifest: format!("{handle}.toml"),
        max: Some(2),
        window_ms: Some(100),
        record: None,
        keep_chain: None,
    }
}

fn state(services: Vec<(ServiceCfg, &str)>) -> SupervisorState {
    initial_state(services.into_iter().map(|(c, id)| c.up(id.to_string())).collect(), None)
}

fn event(subject: &str, event_type: &str, data: Vec<u8>) -> ActorEvent {
    ActorEvent { subject: subject.to_string(), event_type: event_type.to_string(), data }
}

fn cause(name: &str) -> Vec<u8> {
    let mut v = Value::sym("");
    if let Value::Variant { case_name, payload, .. } = &mut v {
        *case_name = name.to_string();
        payload.clear();
    }
    encode(&v).unwrap()
}

/// Handles a crash at a time; tells whether a respawn was ordered.
fn crash(st: &mut SupervisorState, id: &str, now: u64, new_id: Result<String, String>) -> bool {
    match on_crash(st, id, now) {
        Verdict::Respawn { at, order } => {
            assert_eq!(order.handle, st.services[at].handle);
            on_respawn(st, at, now, new_id);
            true
        }
        _ => false,
    }
}

#[test]
fn defaults_are_filled_in() {
    let mut c = cfg("a");
    c.max = None;
    c.window_ms = None;
    let s = c.up("1".to_string());
    assert_eq!((s.max, s.window_ms), (DEFAULT_MAX, DEFAULT_WINDOW_MS));
    assert_eq!((DEFAULT_MAX, DEFAULT_WINDOW_MS), (5, 60_000));
    assert!(!s.full_chain());
    assert!(!s.blocked);
    assert_eq!(s.restarts.len(), 0);
}

#[test]
fn recording_or_keeping_means_the_full_chain() {
    let mut c = cfg("a");
    c.keep_chain = Some(true);
    assert!(c.order().full_chain);
    let mut c = cfg("a");
    c.keep_chain = Some(false);
    c.record = Some(RecordCfg::File { path: "f".to_string() });
    assert!(c.order().full_chain);
    assert!(c.up("1".to_string()).full_chain());
    assert!(!cfg("a").order().full_chain);
}

#[test]
fn only_terminations_end_an_actor() {
    assert!(matches!(ending(&event("1", "wasm", cause("Failed"))), Ending::Running));
    assert!(matches!(ending(&event("1", "terminated", cause("Failed"))), Ending::Crashed { known: true }));
    assert!(matches!(ending(&event("1", "terminated", vec![])), Ending::Crashed { known: false }));
    for name in ["Completed", "Stopped", "Killed", "PeerKilled"] {
        match ending(&event("1", "terminated", cause(name))) {
            Ending::Intended(c) => assert_eq!(c, name),
            _ => panic!("{name} is intended"),
        }
    }
}

#[test]
fn causes_are_judged() {
    assert!(matches!(judge(None), Ending::Crashed { known: false }));
    assert!(matches!(judge(Some("Failed".to_string())), Ending::Crashed { known: true }));
    assert!(matches!(judge(Some("Killed".to_string())), Ending::Intended(_)));
}

#[test]
fn a_crash_is_respawned_and_repeated_crashes_trip() {
    let mut st = state(vec![(cfg("a"), "1")]);
    assert!(crash(&mut st, "1", 1000, Ok("2".to_string())));
    assert_eq!(st.services[0].current_id, "2");
    assert!(crash(&mut st, "2", 1050, Ok("3".to_string())));
    assert_eq!(st.services[0].restarts, vec![1000, 1050]);
    assert!(matches!(on_crash(&mut st, "3", 1100), Verdict::Tripped));
    assert!(st.services[0].blocked);
    assert_eq!(st.services[0].current_id, "3");
    assert!(matches!(on_crash(&mut st, "3", 9000), Verdict::AlreadyBlocked));
}

#[test]
fn restarts_outside_the_window_are_forgotten() {
    let mut st = state(vec![(cfg("a"), "1")]);
    assert!(crash(&mut st, "1", 1000, Ok("2".to_string())));
    assert!(crash(&mut st, "2", 1010, Ok("3".to_string())));
    // 1000 is out of reach, 1010 just within.
    assert!(crash(&mut st, "3", 1110, Ok("4".to_string())));
    assert_eq!(st.services[0].restarts, vec![1010, 1110]);
    assert!(matches!(on_crash(&mut st, "4", 1110), Verdict::Tripped));
}

#[test]
fn a_clock_that_runs_backwards_forgets_nothing() {
    let mut st = state(vec![(cfg("a"), "1")]);
    assert!(crash(&mut st, "1", 1000, Ok("2".to_string())));
    assert!(crash(&mut st, "2", 10, Ok("3".to_string())));
    assert_eq!(st.services[0].restarts, vec![1000, 10]);
}

#[test]
fn a_failed_respawn_changes_nothing() {
    let mut st = state(vec![(cfg("a"), "1")]);
    assert!(crash(&mut st, "1", 1000, Err("no".to_string())));
    assert_eq!(st.services[0].current_id, "1");
    assert_eq!(st.services[0].restarts.len(), 0);
    assert!(!st.services[0].blocked);
}

#[test]
fn no_restarts_allowed_means_none() {
    let mut c = cfg("a");
    c.max = Some(0);
    let mut st = state(vec![(c, "1")]);
    assert!(matches!(on_crash(&mut st, "1", 5), Verdict::Tripped));
}

#[test]
fn unknown_ids_change_nothing() {
    let mut st = state(vec![(cfg("a"), "1")]);
    assert!(matches!(on_crash(&mut st, "2", 5), Verdict::Unknown));
    assert!(record(&mut st, &event("2", "wasm", vec![])).is_none());
    assert_eq!(st.services[0].current_id, "1");
}

#[test]
fn a_manual_restart_rearms_a_blocked_service() {
    let mut st = state(vec![(cfg("a"), "1")]);
    crash(&mut st, "1", 1000, Ok("2".to_string()));
    crash(&mut st, "2", 1001, Ok("3".to_string()));
    assert!(matches!(on_crash(&mut st, "3", 1002), Verdict::Tripped));
    let plan = start(&mut st, Command::Restart("a".to_string()));
    assert_eq!(plan.stops, vec!["3".to_string()]);
    match plan.next {
        Next::Spawn { job, .. } => {
            resume(&mut st, job, Ok("4".to_string()));
        }
        _ => panic!("a restart spawns"),
    }
    assert!(!st.services[0].blocked);
    assert!(crash(&mut st, "4", 1003, Ok("5".to_string())));
}

#[test]
fn events_are_recorded_to_a_url() {
    let mut c = cfg("a \"b\"");
    c.record = Some(RecordCfg::Http { url: "http://sink/x".to_string() });
    let mut st = state(vec![(c, "1")]);
    let r = record(&mut st, &event("1", "wasm", vec![0xca, 0xfe])).unwrap();
    assert_eq!(
        r.line,
        "{\"handle\":\"a \\\"b\\\"\",\"child\":\"1\",\"type\":\"wasm\",\"seq\":0,\"data_hex\":\"cafe\"}"
    );
    match r.write() {
        SinkWrite::Post(req) => {
            assert_eq!(req.url, "http://sink/x");
            assert_eq!(req.body, Some(r.line.clone().into_bytes()));
        }
        _ => panic!("a URL is posted to"),
    }
    assert_eq!(record(&mut st, &event("1", "wasm", vec![])).unwrap().seq, 1);
}

#[test]
fn events_are_recorded_to_a_file_as_lines() {
    let mut c = cfg("a");
    c.record = Some(RecordCfg::File { path: "a.jsonl".to_string() });
    let mut st = state(vec![(c, "1")]);
    let r = record(&mut st, &event("1", "terminated", vec![])).unwrap();
    match r.write() {
        SinkWrite::Append { path, content } => {
            assert_eq!(path, "a.jsonl");
            assert_eq!(content, format!("{}\n", r.line).into_bytes());
        }
        _ => panic!("a file is appended to"),
    }
}

#[test]
fn plain_services_record_nothing() {
    let mut st = state(vec![(cfg("a"), "1")]);
    assert!(record(&mut st, &event("1", "terminated", vec![])).is_none());
    assert_eq!(st.services[0].rec_seq, 0);
    assert_eq!(st.services[0].chain_buf.len(), 0);
}

#[test]
fn the_latest_events_stay_in_memory() {
    let mut c = cfg("a");
    c.keep_chain = Some(true);
    let mut st = state(vec![(c, "1")]);
    for i in 0..(CHAIN_BUF_MAX + 3) {
        assert!(record(&mut st, &event("1", &format!("e{i}"), vec![])).is_none());
    }
    let s = &st.services[0];
    assert_eq!(s.rec_seq, 203);
    assert_eq!(s.chain_buf.len(), 200);
    assert_eq!((s.chain_buf[0].seq, s.chain_buf[0].event_type.as_str()), (3, "e3"));
    assert_eq!((s.chain_buf[199].seq, s.chain_buf[199].event_type.as_str()), (202, "e202"));
}

#[test]
fn the_chain_is_kept_across_restarts() {
    let mut c = cfg("a");
    c.keep_chain = Some(true);
    let mut st = state(vec![(c, "1")]);
    record(&mut st, &event("1", "wasm", vec![1]));
    assert!(crash(&mut st, "1", 5, Ok("2".to_string())));
    record(&mut st, &event("2", "wasm", vec![2]));
    assert_eq!(
        chain_reply(&st.services[0]),
        "{\"ok\":true,\"handle\":\"a\",\"events\":[{\"seq\":0,\"type\":\"wasm\",\"data_hex\":\"01\"},{\"seq\":1,\"type\":\"wasm\",\"data_hex\":\"02\"}]}"
    );
}
