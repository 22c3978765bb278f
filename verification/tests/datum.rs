use packr_guest::{encode, Value, ValueType};
use supervisor::datum::{
    actor_event, append_result, cause_of, config_string, connection_of, decode_cause,
    find_variant_case, post_json, post_result, spawn_result, stop_result, Datum,
};

const VARIANT: u8 = 8;
const RECORD: u8 = 9;

fn text(s: &str) -> Datum {
    Datum::Text(s.to_string())
}

fn variant(case_name: &str, tag: usize, payload: Vec<Datum>) -> Datum {
    Datum::Variant { case_name: case_name.to_string(), tag, payload }
}

fn ok(d: Datum) -> Datum {
    Datum::Res(Ok(Box::new(d)))
}

fn err(d: Datum) -> Datum {
    Datum::Res(Err(Box::new(d)))
}

fn host_variant(name: &str, number: usize, inside: Vec<Value>) -> Value {
    let mut v = Value::sym("");
    if let Value::Variant { case_name, tag, payload, .. } = &mut v {
        *case_name = name.to_string();
        *tag = number;
        *payload = inside;
    }
    v
}

/// The encoding of a record with one field, a variant without a payload.
fn record_bytes(field: &str, case_name: &str) -> Vec<u8> {
    let text = |s: &str| {
        let mut b = (s.len() as u32).to_le_bytes().to_vec();
        b.extend_from_slice(s.as_bytes());
        b
    };
    let mut variant = text("t");
    variant.extend(text(case_name));
    variant.extend([0u8; 8]);
    let mut record = text("r");
    record.extend(1u32.to_le_bytes());
    record.extend(text(field));
    record.extend(0u32.to_le_bytes());
    let mut out = encode(&host_variant(case_name, 0, vec![])).unwrap()[..8].to_vec();
    out.extend(2u32.to_le_bytes());
    out.extend(1u32.to_le_bytes());
    for (kind, payload) in [(VARIANT, variant), (RECORD, record)] {
        out.extend([kind, 0, 0, 0]);
        out.extend((payload.len() as u32).to_le_bytes());
        out.extend(payload);
    }
    out
}

fn termination(cause: Value) -> Vec<u8> {
    encode(&host_variant("Lifecycle", 0, vec![host_variant("Terminated", 3, vec![cause])])).unwrap()
}

#[test]
fn causes_are_decoded() {
    let failed = host_variant("Failed", 1, vec![Value::String("boom".to_string())]);
    assert_eq!(decode_cause(&termination(failed)), Some("Failed".to_string()));
    assert_eq!(decode_cause(&termination(host_variant("Stopped", 2, vec![]))), Some("Stopped".to_string()));
}

#[test]
fn causes_inside_other_values_are_found() {
    let inner = host_variant("PeerKilled", 4, vec![Value::String("p".to_string())]);
    let wrapped = Value::Tuple(vec![
        Value::U8(1),
        Value::Option { inner_type: ValueType::Variant("t".to_string()), value: Some(Box::new(inner)) },
    ]);
    assert_eq!(decode_cause(&encode(&wrapped).unwrap()), Some("PeerKilled".to_string()));
    let result = Value::Result {
        ok_type: ValueType::String,
        err_type: ValueType::Variant("t".to_string()),
        value: Err(Box::new(host_variant("Killed", 3, vec![]))),
    };
    assert_eq!(decode_cause(&encode(&result).unwrap()), Some("Killed".to_string()));
    assert_eq!(decode_cause(&record_bytes("cause", "Completed")), Some("Completed".to_string()));
}

#[test]
fn what_cannot_be_decoded_has_no_cause() {
    assert_eq!(decode_cause(&[]), None);
    assert_eq!(decode_cause(b"not a value"), None);
    assert_eq!(decode_cause(&termination(host_variant("Exploded", 9, vec![]))), None);
    assert_eq!(decode_cause(&encode(&Value::String("Failed".to_string())).unwrap()), None);
    assert_eq!(cause_of(&None), None);
}

#[test]
fn the_outermost_wanted_case_is_found_first() {
    let v = Datum::List(vec![
        variant("x", 0, vec![variant("b", 0, vec![])]),
        variant("a", 0, vec![variant("b", 0, vec![])]),
    ]);
    assert_eq!(find_variant_case(&v, &vec!["a", "b"]), Some("b".to_string()));
    let v = variant("a", 0, vec![variant("b", 0, vec![])]);
    assert_eq!(find_variant_case(&v, &vec!["b", "a"]), Some("a".to_string()));
    assert_eq!(find_variant_case(&Datum::Opt(None), &vec!["a"]), None);
    assert_eq!(find_variant_case(&Datum::Other, &vec!["a"]), None);
}

#[test]
fn spawn_answers() {
    assert_eq!(spawn_result(&ok(text("id-1"))), Ok("id-1".to_string()));
    assert_eq!(spawn_result(&variant("ok", 0, vec![text("id-2")])), Ok("id-2".to_string()));
    assert_eq!(spawn_result(&text("id-3")), Ok("id-3".to_string()));
    let odd = Err("spawn: unexpected ok payload".to_string());
    assert_eq!(spawn_result(&ok(Datum::U8(1))), odd);
    assert_eq!(spawn_result(&variant("ok", 0, vec![])), odd);
    let refused = variant("permission-denied", 0, vec![text("why")]);
    assert_eq!(spawn_result(&err(refused)), Err("permission-denied".to_string()));
    assert_eq!(spawn_result(&variant("err", 1, vec![text("plain")])), Err("plain".to_string()));
    assert_eq!(spawn_result(&variant("err", 1, vec![])), Err("unknown".to_string()));
    assert_eq!(spawn_result(&err(Datum::U8(1))), Err("unknown".to_string()));
    assert_eq!(spawn_result(&Datum::Other), Err("spawn: unexpected result".to_string()));
    assert_eq!(spawn_result(&variant("x", 2, vec![])), Err("spawn: unexpected result".to_string()));
}

#[test]
fn stop_answers() {
    assert_eq!(stop_result(&ok(Datum::Tuple(vec![]))), Ok(()));
    assert_eq!(stop_result(&variant("ok", 0, vec![])), Ok(()));
    assert_eq!(stop_result(&err(variant("actor-not-found", 2, vec![]))), Err("actor-not-found".to_string()));
    assert_eq!(stop_result(&variant("err", 1, vec![])), Err("unknown".to_string()));
    assert_eq!(stop_result(&text("?")), Err("stop-actor: unexpected result".to_string()));
}

#[test]
fn append_answers() {
    assert_eq!(append_result(&ok(Datum::Tuple(vec![]))), Ok(()));
    let denied = variant("permission-denied", 1, vec![text("outside the sandbox")]);
    assert_eq!(append_result(&err(denied)), Err("permission-denied".to_string()));
    assert_eq!(append_result(&err(variant("io-error", 6, vec![Datum::U8(1)]))), Err("io-error".to_string()));
    assert_eq!(append_result(&variant("err", 1, vec![text("plain")])), Err("plain".to_string()));
    assert_eq!(append_result(&Datum::Other), Err("filesystem: unexpected result".to_string()));
}

#[test]
fn post_answers() {
    let status = |v: Datum| Datum::Record(vec![("headers".to_string(), Datum::Other), ("status".to_string(), v)]);
    assert_eq!(post_result(&ok(status(Datum::U16(204)))), Ok(204));
    assert_eq!(post_result(&ok(status(Datum::U32(65_536 + 200)))), Ok(200));
    assert_eq!(post_result(&ok(status(text("200")))), Ok(0));
    assert_eq!(post_result(&ok(Datum::Record(vec![]))), Ok(0));
    assert_eq!(post_result(&variant("ok", 0, vec![])), Ok(0));
    assert_eq!(post_result(&err(text("refused"))), Err("refused".to_string()));
    assert_eq!(post_result(&Datum::Other), Err("http-client: unexpected result".to_string()));
}

#[test]
fn posts_are_json() {
    let req = post_json("http://x/y", vec![1, 2]);
    assert_eq!(req.method, "POST");
    assert_eq!(req.url, "http://x/y");
    assert_eq!(req.headers, vec![("content-type".to_string(), "application/json".to_string())]);
    assert_eq!(req.body, Some(vec![1, 2]));
}

#[test]
fn configuration_texts() {
    let bytes = Datum::List(vec![Datum::U8(b'h'), Datum::Other, Datum::U8(b'i')]);
    assert_eq!(config_string(&bytes), Some("hi".to_string()));
    assert_eq!(config_string(&text("{}")), Some("{}".to_string()));
    let wrapped = Datum::Tuple(vec![Datum::Opt(Some(Box::new(Datum::Tuple(vec![text("x")])))), Datum::Other]);
    assert_eq!(config_string(&wrapped), Some("x".to_string()));
    assert_eq!(
        config_string(&Datum::Tuple(vec![Datum::Tuple(vec![text("x")])])),
        Some("x".to_string())
    );
    assert_eq!(config_string(&Datum::Tuple(vec![Datum::Tuple(vec![]), text("x")])), None);
    assert_eq!(config_string(&Datum::Tuple(vec![])), None);
    assert_eq!(config_string(&Datum::Opt(None)), None);
    assert_eq!(config_string(&Datum::List(vec![Datum::U8(0xff)])), None);
}

#[test]
fn events_are_tuples() {
    let e = actor_event(&Datum::Tuple(vec![
        text("id"),
        text("terminated"),
        Datum::List(vec![Datum::U8(1), Datum::U16(9), Datum::U8(2)]),
    ]))
    .unwrap();
    assert_eq!((e.subject.as_str(), e.event_type.as_str(), e.data), ("id", "terminated", vec![1, 2]));
    let e = actor_event(&Datum::Tuple(vec![Datum::U8(1), Datum::Other])).unwrap();
    assert_eq!((e.subject.as_str(), e.event_type.as_str(), e.data), ("?", "?", vec![]));
    assert!(actor_event(&Datum::Tuple(vec![text("id")])).is_none());
    assert!(actor_event(&text("id")).is_none());
}

#[test]
fn connections_are_named() {
    assert_eq!(connection_of(&text("c")), Some("c".to_string()));
    assert_eq!(connection_of(&Datum::Tuple(vec![text("c"), Datum::Other])), Some("c".to_string()));
    assert_eq!(connection_of(&Datum::Tuple(vec![Datum::Other])), None);
    assert_eq!(connection_of(&Datum::Tuple(vec![])), None);
    assert_eq!(connection_of(&Datum::Other), None);
}
