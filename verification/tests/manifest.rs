use supervisor::json::Json;
use supervisor::manifest::{
    control_json, finish, generate_manifest, manifest_source, needs_of, tls_pair, url_host,
    GenManifest, ManifestSource, Place,
};

fn place(given: &str) -> Place {
    Place { given: given.to_string(), found: Ok(format!("/abs/{given}")) }
}

fn nowhere(given: &str) -> Place {
    Place { given: given.to_string(), found: Err("os error".to_string()) }
}

fn gen(roster: &str) -> GenManifest {
    GenManifest {
        roster: roster.to_string(),
        wasm: None,
        record_dir: None,
        control_port: None,
        control_bind: None,
        authorized_keys: vec![],
        tls: None,
    }
}

const HANDLERS: &str = "[[handler]]\ntype = \"self\"\n\n[[handler]]\ntype = \"runtime\"\n\n[[handler]]\ntype = \"lifecycle\"\n\n[[handler]]\ntype = \"timer\"\n\n";
const RUNTIME: &str = "[permission_policy.runtime]\ntype = \"restrict\"\nconfig = { inspect = true, mutate = true }\n\n";

#[test]
fn a_bare_roster_needs_little() {
    let got = generate_manifest(&gen("{ \"services\" : [ ] }"));
    let want = format!(
        "name = \"supervisor\"\nversion = \"0.0.1\"\npackage = \"supervisor.wasm\"\ninitial_state = '{{\"services\":[]}}'\n\n{RUNTIME}{HANDLERS}"
    );
    assert_eq!(got, Ok(want));
}

#[test]
fn recording_needs_hosts_and_a_directory() {
    let roster = "{\"services\":[{\"record\":{\"kind\":\"http\",\"url\":\"http://a:1/x\"}},{\"record\":{\"kind\":\"http\",\"url\":\"https://b/y\"}},{\"record\":{\"kind\":\"http\",\"url\":\"http://a/z\"}},{\"record\":{\"kind\":\"file\",\"path\":\"f\"}},{}]}";
    let mut g = gen(roster);
    assert_eq!(
        generate_manifest(&g),
        Err("a service records to a file — pass --record-dir <sandbox root>".to_string())
    );
    g.record_dir = Some(nowhere("rec"));
    assert_eq!(
        generate_manifest(&g),
        Err("--record-dir rec does not exist (create it first): os error".to_string())
    );
    g.record_dir = Some(place("rec"));
    let m = generate_manifest(&g).unwrap();
    let files = "[permission_policy.file_system]\ntype = \"restrict\"\nconfig = { read = true, write = true, execute = false }\n\n";
    assert!(m.ends_with(&format!(
        "{RUNTIME}{files}{HANDLERS}[[handler]]\ntype = \"http-client\"\nallowed_hosts = [\"a\", \"b\"]\n\n[[handler]]\ntype = \"filesystem\"\npath = \"/abs/rec\"\n\n"
    )));
}

#[test]
fn the_control_surface_is_injected() {
    let mut g = gen("{\"services\":[],\"a\":1,\"control\":{\"port\":1}}");
    g.control_port = Some(9000);
    let m = generate_manifest(&g).unwrap();
    assert!(m.contains("initial_state = '{\"a\":1,\"control\":{\"port\":9000},\"services\":[]}'\n"));
    assert!(m.ends_with("[[handler]]\ntype = \"tcp\"\n\n"));
    g.control_bind = Some("0.0.0.0".to_string());
    g.authorized_keys = vec!["k1".to_string(), "k2".to_string()];
    g.tls = Some((place("cert"), place("key")));
    let m = generate_manifest(&g).unwrap();
    assert!(m.contains(
        "\"control\":{\"authorized_keys\":[\"k1\",\"k2\"],\"bind\":\"0.0.0.0\",\"port\":9000}"
    ));
    assert!(m.ends_with(
        "type = \"tcp\"\nserver_tls = { enabled = true, cert = \"/abs/cert\", key = \"/abs/key\" }\n\n"
    ));
}

#[test]
fn the_initial_state_is_read_back() {
    let mut g = gen("{\"services\":[{\"handle\":\"é\\n\",\"max\":18446744073709551615,\"n\":-3}]}");
    g.control_port = Some(1);
    let m = generate_manifest(&g).unwrap();
    let state = m.split('\'').nth(1).unwrap();
    let v: serde_json::Value = serde_json::from_str(state).unwrap();
    assert_eq!(v["services"][0]["handle"], "é\n");
    assert_eq!(v["services"][0]["max"], u64::MAX);
    assert_eq!(v["services"][0]["n"], -3);
    assert_eq!(v["control"]["port"], 1);
}

#[test]
fn a_roster_that_is_no_object_gets_no_control() {
    let mut g = gen("[1]");
    g.control_port = Some(1);
    assert!(generate_manifest(&g).unwrap().contains("initial_state = '[1]'\n"));
}

#[test]
fn keys_need_the_surface_and_tls() {
    let mut g = gen("not json");
    g.authorized_keys = vec!["k".to_string()];
    assert_eq!(
        generate_manifest(&g),
        Err("--authorized-key needs the control surface — pass --control-port".to_string())
    );
    g.control_port = Some(1);
    assert_eq!(
        generate_manifest(&g),
        Err("--authorized-key requires TLS — pass --tls-cert and --tls-key".to_string())
    );
    g.tls = Some((place("c"), place("k")));
    assert!(generate_manifest(&g).unwrap_err().starts_with("roster is not valid JSON: expected ident"));
}

#[test]
fn paths_have_to_lead_somewhere() {
    let mut g = gen("{}");
    g.control_port = Some(1);
    g.tls = Some((nowhere("c"), nowhere("k")));
    assert_eq!(generate_manifest(&g), Err("--tls-cert c not found: os error".to_string()));
    g.tls = Some((place("c"), nowhere("k")));
    assert_eq!(generate_manifest(&g), Err("--tls-key k not found: os error".to_string()));
    g.wasm = Some(nowhere("w"));
    assert_eq!(generate_manifest(&g), Err("supervisor wasm not found at w: os error".to_string()));
    g.wasm = Some(place("w"));
    g.tls = Some((place("c"), place("k")));
    assert!(generate_manifest(&g).unwrap().contains("package = \"/abs/w\"\n"));
}

#[test]
fn certificates_do_not_matter_without_the_surface() {
    let mut g = gen("{}");
    g.tls = Some((nowhere("c"), nowhere("k")));
    assert!(generate_manifest(&g).is_ok());
}

#[test]
fn single_quotes_are_refused() {
    assert_eq!(
        generate_manifest(&gen("{\"a\":\"it's\"}")),
        Err("roster contains a single quote in a value; not supported yet".to_string())
    );
}

#[test]
fn hosts_in_urls() {
    assert_eq!(url_host("http://a.b:80/x"), Some("a.b".to_string()));
    assert_eq!(url_host("https://a?q"), Some("a".to_string()));
    assert_eq!(url_host("http://a#f"), Some("a".to_string()));
    assert_eq!(url_host("http://a"), Some("a".to_string()));
    assert_eq!(url_host("http:///x"), None);
    assert_eq!(url_host("ftp://a"), None);
    assert_eq!(url_host("HTTP://a"), None);
}

#[test]
fn what_is_not_well_formed_needs_nothing() {
    let record = |kind: &str, url: Json| {
        Json::Object(vec![(
            "record".to_string(),
            Json::Object(vec![
                ("kind".to_string(), Json::Text(kind.to_string())),
                ("url".to_string(), url),
            ]),
        )])
    };
    let items = vec![
        record("http", Json::Null),
        record("http", Json::Text("nowhere".to_string())),
        record("other", Json::Text("http://h".to_string())),
        Json::Null,
    ];
    let doc = Json::Object(vec![("services".to_string(), Json::Array(items))]);
    let needs = needs_of(&doc);
    assert_eq!(needs.hosts.len(), 0);
    assert!(!needs.file);
    assert_eq!(needs_of(&Json::Null).hosts.len(), 0);
}

#[test]
fn manifests_around_a_given_state() {
    let g = gen("");
    assert!(finish(&g, &Json::Null, "S").unwrap().contains("initial_state = 'S'\n"));
    assert!(finish(&g, &Json::Null, "S'").is_err());
}

#[test]
fn control_declarations() {
    match control_json(7, &None, &vec![]) {
        Json::Object(entries) => {
            assert_eq!(entries.len(), 1);
            assert!(matches!(entries[0].1, Json::Uint(7)));
        }
        _ => panic!("an object"),
    }
}

#[test]
fn a_given_manifest_goes_before_a_roster() {
    let m = || Some("m.toml".to_string());
    let r = || Some("r.json".to_string());
    assert!(matches!(manifest_source(m(), r()), Ok(ManifestSource::Written(p)) if p == "m.toml"));
    assert!(matches!(manifest_source(m(), None), Ok(ManifestSource::Written(p)) if p == "m.toml"));
    assert!(matches!(manifest_source(None, r()), Ok(ManifestSource::Generated(p)) if p == "r.json"));
    assert_eq!(
        manifest_source(None, None).err().unwrap(),
        "give a roster file, or --manifest <path>"
    );
}

#[test]
fn a_certificate_goes_with_a_key() {
    let (c, k) = tls_pair(Some(place("c")), Some(place("k"))).unwrap();
    assert_eq!((c.given.as_str(), k.given.as_str()), ("c", "k"));
    assert!(tls_pair(Some(place("c")), None).is_none());
    assert!(tls_pair(None, Some(place("k"))).is_none());
}

#[test]
fn keys_in_a_roster_need_tls_too() {
    let roster = "{\"services\":[],\"control\":{\"port\":9000,\"authorized_keys\":[\"k\"]}}";
    let refusal = "the roster declares control.authorized_keys — pass them as --authorized-key, with --control-port, --tls-cert and --tls-key";
    let mut g = gen(roster);
    assert_eq!(generate_manifest(&g), Err(refusal.to_string()));
    g.tls = Some((place("c"), place("k")));
    assert_eq!(generate_manifest(&g), Err(refusal.to_string()));
    g.control_port = Some(9000);
    let m = generate_manifest(&g).unwrap();
    assert!(m.contains("server_tls = { enabled = true, cert = \"/abs/c\", key = \"/abs/k\" }\n"));
    let open = "{\"services\":[],\"control\":{\"port\":9000,\"authorized_keys\":[]}}";
    assert!(generate_manifest(&gen(open)).is_ok());
}
