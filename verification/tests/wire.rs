use serde_json::Value;
use supervisor::boot::initial_state;
use supervisor::client::request_bytes;
use supervisor::datum::ActorEvent;
use supervisor::line::{Fed, LineReader};
use supervisor::ops::{add_op, apply_op, json_op};
use supervisor::reconcile::record;
use supervisor::reply::{
    applied_reply, chain_reply, err_reply, ok_msg, roster_reply, service_reply,
};
use supervisor::roster::{RecordCfg, ServiceCfg, SupervisorState};

fn state(handles: &[&str]) -> SupervisorState {
    let mut up = Vec::new();
    for h in handles {
        let cfg = ServiceCfg {
            handle: h.to_string(),
            manifest: "a \"quoted\"\npath".to_string(),
            max: Some(3),
            window_ms: None,
            record: Some(RecordCfg::File { path: "log".to_string() }),
            keep_chain: Some(true),
        };
        up.push(cfg.up(format!("id of {h}")));
    }
    initial_state(up, None)
}

fn doc(text: &str) -> Value {
    assert!(!text.contains('\n'));
    serde_json::from_str(text).unwrap()
}

#[test]
fn refusals_and_reports_are_documents() {
    let d = doc(&err_reply("no \"such\"\n\thandle \u{1} \\"));
    assert_eq!(d["ok"], Value::Bool(false));
    assert_eq!(d["error"], Value::from("no \"such\"\n\thandle \u{1} \\"));
    let d = doc(&ok_msg("added x"));
    assert_eq!(d["ok"], Value::Bool(true));
    assert_eq!(d["message"], Value::from("added x"));
}

#[test]
fn rosters_are_documents() {
    let d = doc(&roster_reply(&state(&[])));
    assert_eq!(d["roster"], Value::Array(vec![]));
    let st = state(&["a", "b\n"]);
    let d = doc(&roster_reply(&st));
    assert_eq!(d["ok"], Value::Bool(true));
    assert_eq!(d["roster"].as_array().unwrap().len(), 2);
    let b = &d["roster"][1];
    assert_eq!(b["handle"], Value::from("b\n"));
    assert_eq!(b["spec"]["manifest"], Value::from("a \"quoted\"\npath"));
    assert_eq!(b["spec"]["max"], Value::from(3));
    assert_eq!(b["spec"]["window_ms"], Value::from(60_000));
    assert_eq!(b["spec"]["recording"], Value::Bool(true));
    assert_eq!(b["spec"]["keep_chain"], Value::Bool(true));
    assert_eq!(b["status"]["blocked"], Value::Bool(false));
    assert_eq!(b["status"]["current_id"], Value::from("id of b\n"));
    assert_eq!(b["status"]["restarts"], Value::from(0));
    assert_eq!(b.as_object().unwrap().len(), 3);
    let one = doc(&service_reply(&st.services[1]));
    assert_eq!(&one["service"], b);
}

#[test]
fn events_are_documents() {
    let mut st = state(&["a"]);
    for data in [vec![0u8, 255], vec![]] {
        let e = ActorEvent {
            subject: "id of a".to_string(),
            event_type: "say \"hi\"".to_string(),
            data,
        };
        record(&mut st, &e).unwrap();
    }
    let e = ActorEvent {
        subject: "id of a".to_string(),
        event_type: "t".to_string(),
        data: vec![10, 34],
    };
    let line = doc(&record(&mut st, &e).unwrap().line);
    assert_eq!(line["handle"], Value::from("a"));
    assert_eq!(line["child"], Value::from("id of a"));
    assert_eq!(line["type"], Value::from("t"));
    assert_eq!(line["seq"], Value::from(2));
    assert_eq!(line["data_hex"], Value::from("0a22"));
    let d = doc(&chain_reply(&st.services[0]));
    assert_eq!(d["handle"], Value::from("a"));
    let events = d["events"].as_array().unwrap();
    assert_eq!(events.len(), 3);
    assert_eq!(events[0]["seq"], Value::from(0));
    assert_eq!(events[0]["type"], Value::from("say \"hi\""));
    assert_eq!(events[0]["data_hex"], Value::from("00ff"));
    assert_eq!(events[1]["data_hex"], Value::from(""));
}

#[test]
fn counts_are_documents() {
    let d = doc(&applied_reply(2, 17));
    assert_eq!(d["ok"], Value::Bool(true));
    assert_eq!(d["added"], Value::from(2));
    assert_eq!(d["removed"], Value::from(17));
}

#[test]
fn requests_are_read_as_they_were_sent() {
    let requests = [
        json_op("status", &[("handle", "two\nlines\r")]),
        add_op("a\r\nb", "m", Some(1), None, true),
        apply_op("[{\"handle\": \"x\\ny\",\n \"manifest\": \"m\"}]").unwrap(),
    ];
    for r in requests {
        let mut reader = LineReader::new();
        assert!(matches!(reader.feed(Some(request_bytes(&r))), Fed::More));
        assert_eq!(reader.take_line(), Some(r.into_bytes()));
        assert_eq!(reader.take_line(), None);
    }
}
