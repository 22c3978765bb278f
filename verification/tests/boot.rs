use supervisor::boot::{bad_config, config_source, initial_state, listen_address, Boot, ControlCfg};
use supervisor::datum::Datum;
use supervisor::roster::ServiceCfg;

fn cfg(handle: &str) -> ServiceCfg {
    ServiceCfg {
        handle: handle.to_string(),
        manifest: "m".to_string(),
        max: None,
        window_ms: None,
        record: None,
        keep_chain: Some(true),
    }
}

fn begin(handles: &[&str]) -> Boot {
    match Boot::new(handles.iter().map(|h| cfg(h)).collect()) {
        Ok(b) => b,
        Err(e) => panic!("{e}"),
    }
}

#[test]
fn a_handle_is_declared_once() {
    let all = |handles: &[&str]| Boot::new(handles.iter().map(|h| cfg(h)).collect());
    assert_eq!(all(&["a", "a"]).err().unwrap(), "supervisor: duplicate handle a");
    assert_eq!(all(&["a", "b", "c", "b", "a"]).err().unwrap(), "supervisor: duplicate handle b");
    assert!(all(&["a", "A", ""]).is_ok());
    assert!(all(&[]).is_ok());
}

#[test]
fn configurations_are_texts() {
    assert_eq!(config_source(&Datum::Text("{}".to_string())), Ok("{}".to_string()));
    let none = Err("supervisor: init config must be a JSON roster string".to_string());
    assert_eq!(config_source(&Datum::Text(String::new())), none);
    assert_eq!(config_source(&Datum::Other), none);
    assert_eq!(bad_config("why"), "supervisor: bad roster JSON: why");
}

#[test]
fn services_come_up_in_order() {
    let mut boot = begin(&["a", "c", "b"]);
    let mut n = 0;
    while let Some(order) = boot.next() {
        assert!(order.full_chain);
        n += 1;
        boot = match boot.answered(Ok(format!("{n}"))) {
            Ok(b) => b,
            Err(e) => panic!("{e}"),
        };
    }
    let got: Vec<(String, String)> =
        boot.up.iter().map(|s| (s.handle.clone(), s.current_id.clone())).collect();
    let want = [("a", "1"), ("c", "2"), ("b", "3")];
    assert_eq!(got.len(), 3);
    for (g, w) in got.iter().zip(want) {
        assert_eq!((g.0.as_str(), g.1.as_str()), w);
    }
}

#[test]
fn the_first_failure_is_fatal() {
    let boot = begin(&["a", "b"]);
    let boot = match boot.answered(Ok("1".to_string())) {
        Ok(b) => b,
        Err(e) => panic!("{e}"),
    };
    match boot.answered(Err("timeout".to_string())) {
        Ok(_) => panic!("fatal"),
        Err(e) => assert_eq!(e, "supervisor: spawn b failed: timeout"),
    }
}

#[test]
fn control_surfaces_listen() {
    assert_eq!(listen_address(&None), None);
    let c = ControlCfg { port: 9000, bind: None, authorized_keys: None };
    assert_eq!(listen_address(&Some(c)), Some("127.0.0.1:9000".to_string()));
    let c = ControlCfg { port: 0, bind: Some("0.0.0.0".to_string()), authorized_keys: None };
    assert_eq!(listen_address(&Some(c)), Some("0.0.0.0:0".to_string()));
}

#[test]
fn the_initial_state() {
    let keys = Some(vec!["k".to_string()]);
    let c = ControlCfg { port: 1, bind: None, authorized_keys: keys };
    let st = initial_state(vec![cfg("a").up("1".to_string())], Some(c));
    assert_eq!(st.authorized_keys, vec!["k".to_string()]);
    assert_eq!((st.services.len(), st.nonce_counter), (1, 0));
    let c = ControlCfg { port: 1, bind: None, authorized_keys: None };
    assert_eq!(initial_state(vec![], Some(c)).authorized_keys.len(), 0);
    assert_eq!(initial_state(vec![], None).authorized_keys.len(), 0);
}
