use supervisor::render::{
    cause_str, chain_mode, compact_line, ends_run, lifecycle_str, log_filter, pretty_line,
    short_iface, sid, truncate, val_str, wasm_source, Arg, Cause, ChainMode, Lifecycle, LogLevel,
    Payload, WasmEvent, WasmSource,
};

const ID: &str = "0123456789";

fn host(interface: &str, function: &str, input: Arg) -> Option<Payload> {
    Some(Payload::Host { interface: interface.to_string(), function: function.to_string(), input })
}

fn both(p: Option<Payload>, event_type: &str) -> (String, String) {
    (pretty_line(&p, event_type, ID), compact_line(&p, event_type, ID))
}

#[test]
fn modes() {
    assert!(matches!(chain_mode(None, false), Some(ChainMode::Pretty)));
    assert!(chain_mode(None, true).is_none());
    assert!(matches!(chain_mode(Some(ChainMode::Compact), true), Some(ChainMode::Compact)));
}

#[test]
fn levels() {
    let names: Vec<&str> =
        [LogLevel::Error, LogLevel::Warn, LogLevel::Info, LogLevel::Debug, LogLevel::Trace]
            .into_iter()
            .map(|l| l.as_str())
            .collect();
    assert_eq!(names, vec!["error", "warn", "info", "debug", "trace"]);
    assert_eq!(log_filter(Some("x=debug".to_string()), Some(LogLevel::Warn)), "x=debug");
    assert_eq!(log_filter(None, Some(LogLevel::Warn)), "warn");
    assert_eq!(log_filter(None, None), "off");
}

#[test]
fn wasm_sources() {
    assert!(matches!(wasm_source(false, false, true, "p"), WasmSource::Embedded));
    assert!(matches!(wasm_source(false, false, false, "p"), WasmSource::Missing));
    assert!(matches!(wasm_source(true, false, true, "/p"), WasmSource::At(p) if p == "/p"));
    assert!(matches!(wasm_source(false, true, true, "http://p"), WasmSource::At(_)));
    assert!(matches!(wasm_source(true, true, true, "a/p"), WasmSource::Below(p) if p == "a/p"));
}

#[test]
fn runs_end_with_the_root() {
    assert!(ends_run("r", "r", "terminated"));
    assert!(!ends_run("x", "r", "terminated"));
    assert!(!ends_run("r", "r", "wasm"));
}

#[test]
fn ids_are_shortened() {
    assert_eq!(sid(ID), "01234567");
    assert_eq!(sid("0123"), "0123");
    assert_eq!(sid(""), "");
    assert_eq!(sid("éééééé"), "éééé");
}

#[test]
fn texts_are_cut() {
    assert_eq!(truncate("abcd", 4), "abcd");
    assert_eq!(truncate("abcde", 4), "abcd…");
    assert_eq!(truncate("ééé", 2), "éé…");
    assert_eq!(truncate("a", 0), "…");
}

#[test]
fn interfaces_are_shortened() {
    assert_eq!(short_iface("theater:simple/tcp"), "tcp");
    assert_eq!(short_iface("other/tcp"), "other/tcp");
}

#[test]
fn arguments_are_shown() {
    let text = || Arg::Text("x".to_string());
    let tuple = |items| Arg::Tuple { items, shown: "(shown)".to_string() };
    assert_eq!(val_str(&tuple(vec![Arg::Opt(Some(Box::new(tuple(vec![text()]))))])), "x");
    assert_eq!(val_str(&tuple(vec![])), "(shown)");
    assert_eq!(val_str(&tuple(vec![text(), text()])), "(shown)");
    assert_eq!(val_str(&Arg::Opt(None)), "");
    assert_eq!(val_str(&Arg::Shown("(1, 2)".to_string())), "(1, 2)");
}

#[test]
fn lifecycle_lines() {
    assert_eq!(lifecycle_str(&Lifecycle::Spawned), "● spawned");
    assert_eq!(lifecycle_str(&Lifecycle::Paused), "⏸ paused");
    assert_eq!(lifecycle_str(&Lifecycle::Resumed), "▶ resumed");
    let l = Some(Payload::Lifecycle(Lifecycle::Terminated { cause: Cause::Stopped }));
    let line = "[01234567] ✖ terminated (Stopped)".to_string();
    assert_eq!(both(l, "terminated"), (line.clone(), line));
}

#[test]
fn causes() {
    assert_eq!(cause_str(&Cause::Completed), "Completed");
    assert_eq!(cause_str(&Cause::Killed), "Killed");
    let error = "e".repeat(81);
    assert_eq!(cause_str(&Cause::Failed { error }), format!("Failed: {}…", "e".repeat(80)));
    assert_eq!(cause_str(&Cause::PeerKilled { peer: ID.to_string() }), "PeerKilled by 01234567");
}

#[test]
fn host_calls() {
    let log = host("theater:simple/self", "log", Arg::Text("hello".to_string()));
    assert_eq!(both(log, "e"), ("[01234567] » hello".to_string(), "[01234567] self/log".to_string()));
    let call = host("theater:simple/timer", "now", Arg::Opt(None));
    assert_eq!(both(call, "e").0, "[01234567] → timer/now");
    let long = host("x/self", "spawn", Arg::Text("a".repeat(61)));
    assert_eq!(both(long, "e").0, format!("[01234567] → x/self/spawn({}…)", "a".repeat(60)));
}

#[test]
fn wasm_events() {
    let f = || "f".to_string();
    let call = Some(Payload::Wasm(WasmEvent::Call { function: f() }));
    assert_eq!(both(call, "e"), ("[01234567] ⚙ call f".to_string(), "[01234567] wasm:call f".to_string()));
    let ret = Some(Payload::Wasm(WasmEvent::Return { function: f() }));
    assert_eq!(both(ret, "e"), ("[01234567] ⚙ result f".to_string(), "[01234567] wasm:result f".to_string()));
    let fault = Some(Payload::Wasm(WasmEvent::Fault { function: f(), message: "m".repeat(81) }));
    let pretty = format!("[01234567] ✖ wasm error in f: {}…", "m".repeat(80));
    assert_eq!(both(fault, "e"), (pretty, "[01234567] wasm:error f".to_string()));
    let other = Some(Payload::Wasm(WasmEvent::Other));
    assert_eq!(both(other, "e"), ("[01234567] ⚙ e".to_string(), "[01234567] e".to_string()));
}

#[test]
fn other_events() {
    assert_eq!(
        both(Some(Payload::ReplaySummary), "e"),
        ("[01234567] ↻ replay-summary".to_string(), "[01234567] replay-summary".to_string())
    );
    assert_eq!(both(None, "e"), ("[01234567] e".to_string(), "[01234567] e".to_string()));
}
