use supervisor::auth::{auth_answer, challenge};
use supervisor::client::{
    answer_bytes, choose_profile, home_relative, parse_identity, parse_pin, pin_of, reply_end,
    reply_text, request_bytes, resolve_target, PinnedServerCert, Profile, ProfileEntry, DEFAULT_PORT,
};

const PEM: &str = "junk\n-----BEGIN CERTIFICATE-----\nAQID\n-----END CERTIFICATE-----\n-----BEGIN CERTIFICATE-----\nBAUG\n-----END CERTIFICATE-----\n";

fn profile(identity: Result<&str, &str>, cert: Result<&str, &str>) -> Profile {
    Profile {
        host: "h".to_string(),
        port: 7,
        identity: identity.map(String::from).map_err(String::from),
        server_cert: cert.map(|c| c.as_bytes().to_vec()).map_err(String::from),
        cert_path: "c.pem".to_string(),
    }
}

fn refused(p: Profile) -> String {
    match resolve_target(Some(p), None, 1) {
        Ok(_) => panic!("resolved"),
        Err(e) => e,
    }
}

#[test]
fn without_a_profile_the_target_is_plain() {
    let t = resolve_target(None, None, 9000).ok().unwrap();
    assert_eq!((t.host.as_str(), t.port), ("127.0.0.1", 9000));
    assert!(t.auth.is_none());
    let t = resolve_target(None, Some("box"), 5).ok().unwrap();
    assert_eq!((t.host.as_str(), t.port), ("box", 5));
    assert_eq!(DEFAULT_PORT, 9000);
}

#[test]
fn a_profile_takes_precedence() {
    let id = format!("  {}\n", "0a".repeat(32));
    let t = resolve_target(Some(profile(Ok(&id), Ok(PEM))), Some("other"), 1).ok().unwrap();
    assert_eq!((t.host.as_str(), t.port), ("h", 7));
    let auth = t.auth.unwrap();
    assert_eq!(auth.seed, [10u8; 32]);
    assert_eq!(auth.server_cert, vec![1, 2, 3]);
}

#[test]
fn the_first_fault_of_a_profile_is_named() {
    let id = "0a".repeat(32);
    assert_eq!(refused(profile(Err("no key"), Err("no cert"))), "no key");
    assert_eq!(refused(profile(Ok("xy"), Err("no cert"))), "identity key is not valid hex");
    assert_eq!(
        refused(profile(Ok("abcd"), Err("no cert"))),
        "identity key must be 32 bytes (64 hex chars)"
    );
    assert_eq!(refused(profile(Ok(&id), Err("no cert"))), "no cert");
    assert_eq!(refused(profile(Ok(&id), Ok("nothing"))), "no certificate in c.pem");
}

#[test]
fn identities_may_have_space_around_them() {
    assert_eq!(parse_identity(&format!("\t{}\u{a0}", "FF".repeat(32))), Ok([255u8; 32]));
    assert!(parse_identity("").is_err());
}

#[test]
fn the_first_certificate_is_pinned() {
    assert_eq!(parse_pin(PEM.as_bytes(), "p"), Ok(vec![1, 2, 3]));
    assert_eq!(parse_pin(b"", "p"), Err("no certificate in p".to_string()));
    let broken = b"-----BEGIN CERTIFICATE-----\n!!\n-----END CERTIFICATE-----\n";
    assert!(parse_pin(broken, "p").unwrap_err().starts_with("parsing server cert PEM: "));
    assert_eq!(pin_of(Some(Err("x".to_string())), "p"), Err("parsing server cert PEM: x".to_string()));
}

#[test]
fn profiles_are_chosen_by_name() {
    let entry = |host: &str| ProfileEntry {
        host: host.to_string(),
        port: 1,
        identity: String::new(),
        server_cert: String::new(),
    };
    let list = vec![("a".to_string(), entry("x")), ("b".to_string(), entry("y"))];
    assert_eq!(choose_profile(&list, "b", "cfg").ok().unwrap().host, "y");
    match choose_profile(&list, "c", "cfg") {
        Ok(_) => panic!("found"),
        Err(e) => assert_eq!(e, "no profile [c] in cfg"),
    }
}

#[test]
fn paths_below_home() {
    assert_eq!(home_relative("~/a/b"), Some("a/b".to_string()));
    assert_eq!(home_relative("~a"), None);
    assert_eq!(home_relative("/~/a"), None);
}

#[test]
fn requests_are_lines() {
    assert_eq!(request_bytes("{}"), b"{}\n".to_vec());
}

#[test]
fn a_challenge_is_answered_with_the_request_behind() {
    let seed = [3u8; 32];
    let nonce = [9u8; 32];
    let line = challenge(&nonce);
    let want = format!("{}{{\"op\":\"list\"}}\n", auth_answer(&seed, &nonce).line());
    let got = answer_bytes(&seed, line.trim_end().as_bytes(), "{\"op\":\"list\"}");
    assert_eq!(got, Ok(want.into_bytes()));
    assert_eq!(answer_bytes(&seed, b"hello", "x"), Err("bad auth challenge from server".to_string()));
}

#[test]
fn replies_are_trimmed_text() {
    assert_eq!(reply_text(b" {\"ok\":true}\r\n"), "{\"ok\":true}");
    assert_eq!(reply_text(b"a\xffb\n"), "a\u{fffd}b");
}

#[test]
fn a_late_failure_is_no_failure() {
    let cut = Some("cut off".to_string());
    assert_eq!(reply_end(&b"yes\n".to_vec(), cut.clone()), Ok("yes".to_string()));
    assert_eq!(reply_end(&vec![], cut), Err("reading reply: cut off".to_string()));
    assert_eq!(reply_end(&vec![], None), Ok(String::new()));
}

#[test]
fn only_the_pinned_certificate_is_accepted() {
    let pin = PinnedServerCert::new(vec![1, 2, 3]);
    let no = Err("server certificate does not match the pinned certificate".to_string());
    assert_eq!(pin.verify(&[1, 2, 3]), Ok(()));
    assert_eq!(pin.verify(&[1, 2, 4]), no);
    assert_eq!(pin.verify(&[1, 2]), no);
    assert_eq!(pin.verify(&[1, 2, 3, 4]), no);
    assert_eq!(PinnedServerCert::new(vec![]).verify(&[]), Ok(()));
}
