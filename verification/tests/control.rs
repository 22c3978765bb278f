use supervisor::boot::initial_state;
use supervisor::control::{
    add_intake, apply_intake, intake, intake_of, resume, start, Command, Intake, Next,
};
use supervisor::json::Json;
use supervisor::ops::{add_op, apply_op, json_op};
use supervisor::roster::{ServiceCfg, SupervisorState};

fn cfg(handle: &str) -> ServiceCfg {
    ServiceCfg {
        handle: handle.to_string(),
        manifest: format!("{handle}.toml"),
        max: None,
        window_ms: None,
        record: None,
        keep_chain: None,
    }
}

fn state(handles: &[&str]) -> SupervisorState {
    let up = handles.iter().map(|h| cfg(h).up(format!("id-{h}"))).collect();
    initial_state(up, None)
}

fn handles(st: &SupervisorState) -> Vec<String> {
    st.services.iter().map(|s| s.handle.clone()).collect()
}

/// Carries a command out, answering its spawns one after another; gives what was
/// stopped and the reply.
fn run(st: &mut SupervisorState, c: Command, answers: &[Result<&str, &str>]) -> (Vec<String>, String) {
    let plan = start(st, c);
    let mut next = plan.next;
    let mut at = 0;
    loop {
        match next {
            Next::Reply(r) => {
                assert_eq!(at, answers.len());
                return (plan.stops, r);
            }
            Next::Spawn { order, job } => {
                assert_eq!(order.manifest, format!("{}.toml", order.handle));
                let answer = match answers[at] {
                    Ok(id) => Ok(id.to_string()),
                    Err(e) => Err(e.to_string()),
                };
                next = resume(st, job, answer);
                at += 1;
            }
        }
    }
}

fn refusal(line: &[u8]) -> String {
    match intake(line) {
        Intake::Refuse(r) => r,
        _ => panic!("not refused"),
    }
}

#[test]
fn requests_are_read() {
    assert!(matches!(intake(b"{\"op\":\"list\"}"), Intake::Run(Command::List)));
    for (op, expect) in [("status", 0), ("chain", 1), ("remove", 2), ("restart", 3)] {
        let line = json_op(op, &[("handle", "a\"b\\\n")]);
        let (which, h) = match intake(line.as_bytes()) {
            Intake::Run(Command::Status(h)) => (0, h),
            Intake::Run(Command::Chain(h)) => (1, h),
            Intake::Run(Command::Remove(h)) => (2, h),
            Intake::Run(Command::Restart(h)) => (3, h),
            _ => panic!("{op} is read"),
        };
        assert_eq!((which, h.as_str()), (expect, "a\"b\\\n"));
    }
}

#[test]
fn requests_without_a_handle_are_refused() {
    for op in ["status", "chain", "remove", "restart"] {
        let line = format!("{{\"op\":\"{op}\",\"handle\":7}}");
        assert_eq!(
            refusal(line.as_bytes()),
            format!("{{\"ok\":false,\"error\":\"{op}: handle required\"}}")
        );
    }
}

#[test]
fn unknown_operations_are_refused() {
    assert_eq!(refusal(b"{\"op\":\"dance\"}"), "{\"ok\":false,\"error\":\"unknown op 'dance'\"}");
    assert_eq!(refusal(b"{}"), "{\"ok\":false,\"error\":\"unknown op ''\"}");
    assert_eq!(refusal(b"[1]"), "{\"ok\":false,\"error\":\"unknown op ''\"}");
    assert_eq!(refusal(b"{\"op\":1}"), "{\"ok\":false,\"error\":\"unknown op ''\"}");
}

#[test]
fn what_is_no_json_is_refused() {
    assert_eq!(
        refusal(b""),
        "{\"ok\":false,\"error\":\"bad JSON: EOF while parsing a value at line 1 column 0\"}"
    );
    match intake_of(Err("why \"so\"".to_string())) {
        Intake::Refuse(r) => assert_eq!(r, "{\"ok\":false,\"error\":\"bad JSON: why \\\"so\\\"\"}"),
        _ => panic!("refused"),
    }
}

#[test]
fn add_requests_carry_a_service() {
    let line = add_op("w", "./w.toml", Some(3), Some(1000), true);
    assert_eq!(
        line,
        "{\"op\":\"add\",\"service\":{\"handle\":\"w\",\"manifest\":\"./w.toml\",\"max\":3,\"window_ms\":1000,\"keep_chain\":true}}"
    );
    match intake(line.as_bytes()) {
        Intake::Service(j) => {
            assert_eq!(j.text_at("handle"), Some("w".to_string()));
            assert!(matches!(j.get("max"), Some(Json::Uint(3))));
            assert!(matches!(j.get("keep_chain"), Some(Json::Bool(true))));
            assert!(j.get("record").is_none());
        }
        _ => panic!("a service"),
    }
    assert!(matches!(intake(b"{\"op\":\"add\"}"), Intake::Service(Json::Null)));
}

#[test]
fn apply_requests_carry_services() {
    let line = apply_op("{\"services\":[{\"handle\":\"a\",\"max\":-1}],\"other\":1}").unwrap();
    assert_eq!(line, "{\"op\":\"apply\",\"services\":[{\"handle\":\"a\",\"max\":-1}]}");
    match intake(line.as_bytes()) {
        Intake::Services(Json::Array(items)) => {
            assert_eq!(items.len(), 1);
            assert!(matches!(items[0].get("max"), Some(Json::Int(-1))));
        }
        _ => panic!("services"),
    }
    assert!(matches!(intake(b"{\"op\":\"apply\"}"), Intake::Services(Json::Null)));
}

#[test]
fn declarations_that_cannot_be_read_are_refused() {
    match add_intake(Err("missing field `handle`".to_string())) {
        Intake::Refuse(r) => {
            assert_eq!(r, "{\"ok\":false,\"error\":\"bad service: missing field `handle`\"}")
        }
        _ => panic!("refused"),
    }
    match apply_intake(Err("x".to_string())) {
        Intake::Refuse(r) => assert_eq!(r, "{\"ok\":false,\"error\":\"bad services: x\"}"),
        _ => panic!("refused"),
    }
    assert!(matches!(add_intake(Ok(cfg("a"))), Intake::Run(Command::Add(_))));
    assert!(matches!(apply_intake(Ok(vec![])), Intake::Run(Command::Apply(_))));
}

#[test]
fn listing_and_status() {
    let mut st = state(&["a", "b"]);
    let a = "{\"handle\":\"a\",\"spec\":{\"manifest\":\"a.toml\",\"max\":5,\"window_ms\":60000,\"recording\":false,\"keep_chain\":false},\"status\":{\"blocked\":false,\"current_id\":\"id-a\",\"restarts\":0}}";
    let b = a.replace("\"a", "\"b").replace("id-a", "id-b");
    let (stops, reply) = run(&mut st, Command::List, &[]);
    assert_eq!(stops.len(), 0);
    assert_eq!(reply, format!("{{\"ok\":true,\"roster\":[{a},{b}]}}"));
    let (_, reply) = run(&mut st, Command::Status("a".to_string()), &[]);
    assert_eq!(reply, format!("{{\"ok\":true,\"service\":{a}}}"));
    let (_, reply) = run(&mut st, Command::Chain("b".to_string()), &[]);
    assert_eq!(reply, "{\"ok\":true,\"handle\":\"b\",\"events\":[]}");
    assert_eq!(run(&mut state(&[]), Command::List, &[]).1, "{\"ok\":true,\"roster\":[]}");
    assert_eq!(handles(&st), vec!["a", "b"]);
}

#[test]
fn requests_for_unknown_handles_are_refused() {
    let unknown = "{\"ok\":false,\"error\":\"unknown handle 'z'\"}";
    let mut st = state(&["a"]);
    for c in [
        Command::Status("z".to_string()),
        Command::Chain("z".to_string()),
        Command::Remove("z".to_string()),
        Command::Restart("z".to_string()),
    ] {
        let (stops, reply) = run(&mut st, c, &[]);
        assert_eq!((stops.len(), reply.as_str()), (0, unknown));
    }
    assert_eq!(handles(&st), vec!["a"]);
}

#[test]
fn adding() {
    let mut st = state(&["a"]);
    let (stops, reply) = run(&mut st, Command::Add(cfg("b")), &[Ok("7")]);
    assert_eq!(stops.len(), 0);
    assert_eq!(reply, "{\"ok\":true,\"message\":\"added b\"}");
    assert_eq!(handles(&st), vec!["a", "b"]);
    assert_eq!(st.services[1].current_id, "7");
    let (_, reply) = run(&mut st, Command::Add(cfg("b")), &[]);
    assert_eq!(reply, "{\"ok\":false,\"error\":\"handle 'b' already exists\"}");
    let (_, reply) = run(&mut st, Command::Add(cfg("c")), &[Err("wasm-fetch")]);
    assert_eq!(reply, "{\"ok\":false,\"error\":\"spawn failed: wasm-fetch\"}");
    assert_eq!(handles(&st), vec!["a", "b"]);
}

#[test]
fn removing_and_returning() {
    let mut st = state(&["a", "b", "c"]);
    let (stops, reply) = run(&mut st, Command::Remove("b".to_string()), &[]);
    assert_eq!(stops, vec!["id-b".to_string()]);
    assert_eq!(reply, "{\"ok\":true,\"message\":\"removed b\"}");
    assert_eq!(handles(&st), vec!["a", "c"]);
    run(&mut st, Command::Add(cfg("b")), &[Ok("8")]);
    assert_eq!(handles(&st), vec!["a", "c", "b"]);
}

#[test]
fn restarting() {
    let mut st = state(&["a", "b"]);
    st.services[1].blocked = true;
    st.services[1].restarts = vec![1, 2];
    let (stops, reply) = run(&mut st, Command::Restart("b".to_string()), &[Ok("9")]);
    assert_eq!(stops, vec!["id-b".to_string()]);
    assert_eq!(reply, "{\"ok\":true,\"message\":\"restarted b\"}");
    assert_eq!(st.services[1].current_id, "9");
    assert!(!st.services[1].blocked);
    assert_eq!(st.services[1].restarts.len(), 0);
    assert_eq!(st.services[0].current_id, "id-a");
    let (_, reply) = run(&mut st, Command::Restart("b".to_string()), &[Err("timeout")]);
    assert_eq!(reply, "{\"ok\":false,\"error\":\"restart spawn failed: timeout\"}");
    assert_eq!(st.services[1].current_id, "9");
}

#[test]
fn applying_stops_the_rest_and_spawns_the_missing() {
    let mut st = state(&["a", "b", "c"]);
    let wanted = vec![cfg("d"), cfg("b"), cfg("e"), cfg("d")];
    let (stops, reply) = run(&mut st, Command::Apply(wanted), &[Ok("1"), Ok("2")]);
    assert_eq!(stops, vec!["id-a".to_string(), "id-c".to_string()]);
    assert_eq!(reply, "{\"ok\":true,\"added\":2,\"removed\":2}");
    assert_eq!(handles(&st), vec!["b", "d", "e"]);
    assert_eq!(st.services[0].current_id, "id-b");
}

#[test]
fn applying_again_does_nothing() {
    let mut st = state(&["a"]);
    run(&mut st, Command::Apply(vec![cfg("b"), cfg("c")]), &[Ok("1"), Ok("2")]);
    let (stops, reply) = run(&mut st, Command::Apply(vec![cfg("b"), cfg("c")]), &[]);
    assert_eq!((stops.len(), reply.as_str()), (0, "{\"ok\":true,\"added\":0,\"removed\":0}"));
    assert_eq!(handles(&st), vec!["b", "c"]);
}

#[test]
fn applying_goes_on_after_a_failed_spawn() {
    let mut st = state(&[]);
    let (_, reply) =
        run(&mut st, Command::Apply(vec![cfg("a"), cfg("a"), cfg("b")]), &[Err("no"), Ok("1"), Err("no")]);
    assert_eq!(reply, "{\"ok\":true,\"added\":1,\"removed\":0}");
    assert_eq!(handles(&st), vec!["a"]);
}

#[test]
fn applying_nothing_empties_the_roster() {
    let mut st = state(&["a", "b"]);
    let (stops, reply) = run(&mut st, Command::Apply(vec![]), &[]);
    assert_eq!(stops.len(), 2);
    assert_eq!(reply, "{\"ok\":true,\"added\":0,\"removed\":2}");
    assert_eq!(st.services.len(), 0);
}

#[test]
fn handles_stay_unique() {
    let mut st = state(&["a"]);
    run(&mut st, Command::Add(cfg("b")), &[Ok("1")]);
    run(&mut st, Command::Add(cfg("b")), &[]);
    run(&mut st, Command::Apply(vec![cfg("a"), cfg("b"), cfg("b"), cfg("c"), cfg("c")]), &[Ok("2")]);
    assert_eq!(handles(&st), vec!["a", "b", "c"]);
}

#[test]
fn rosters_to_apply() {
    assert_eq!(apply_op("[]").unwrap(), "{\"op\":\"apply\",\"services\":[]}");
    assert_eq!(
        apply_op("{\"x\":1}").unwrap_err(),
        "roster object has no \"services\" array"
    );
    assert_eq!(
        apply_op("7").unwrap_err(),
        "roster must be a {\"services\":[…]} object or a [...] array"
    );
    assert_eq!(
        apply_op("{").unwrap_err(),
        "roster is not valid JSON: EOF while parsing an object at line 1 column 1"
    );
}

#[test]
fn flat_requests() {
    assert_eq!(json_op("list", &[]), "{\"op\":\"list\"}");
    assert_eq!(json_op("x", &[("a", "1\t"), ("b", "")]), "{\"op\":\"x\",\"a\":\"1\\t\",\"b\":\"\"}");
}

#[test]
fn add_requests_leave_out_what_is_not_given() {
    assert_eq!(
        add_op("h\"", "m", None, None, false),
        "{\"op\":\"add\",\"service\":{\"handle\":\"h\\\"\",\"manifest\":\"m\"}}"
    );
}

#[test]
fn apply_requests_are_compact() {
    let roster = "{\"services\": [{\"k\\\"\\u0008\": \"\\b\\f\\u0001\\n\\r\\t\\\\\\/é\"}, -5, 7, true, null, {}]}";
    assert_eq!(
        apply_op(roster).unwrap(),
        "{\"op\":\"apply\",\"services\":[{\"k\\\"\\b\":\"\\b\\f\\u0001\\n\\r\\t\\\\/é\"},-5,7,true,null,{}]}"
    );
}
