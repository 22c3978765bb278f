use supervisor::auth::{
    array32, auth_answer, challenge, generate_identity, identity_of, judge_auth, make_nonce,
    nonce_of, parse_nonce, verify_auth, AuthMsg,
};
use supervisor::hex::{from_hex, to_hex};

const SEED: &str = "9d61b19deffd5a60ba844af492ec2cc44449c5697b326919703bac031cae7f60";
const PUBLIC: &str = "d75a980182b10ab7d54bfed3c964073a0ee172f3daa62325af021a68f707511a";
const SIG_OF_NOTHING: &str = "e5564300c360ac729086e2cc806e828a84877f1eb8e5d974d873e065224901555fb8821590a33bacc61e39701cf9b46bd25bf5f0595bbe24655141438e7a100b";

fn seed() -> [u8; 32] {
    array32(&from_hex(SEED).unwrap()).unwrap()
}

fn keys(k: &str) -> Vec<String> {
    vec!["00".to_string(), k.to_string()]
}

fn why(r: Result<String, String>) -> String {
    match r {
        Ok(_) => panic!("accepted"),
        Err(e) => e,
    }
}

#[test]
fn nonces_are_digests() {
    let n = make_nonce(1, 2, "conn");
    assert_eq!(to_hex(&n), "83433dee219f3650e196f9177b05502ef2a4e872447719fb613435ad47b49c3d");
}

#[test]
fn nonces_differ() {
    let n = make_nonce(1, 2, "conn");
    assert_ne!(n, make_nonce(2, 2, "conn"));
    assert_ne!(n, make_nonce(1, 3, "conn"));
    assert_ne!(n, make_nonce(1, 2, "conm"));
}

#[test]
fn challenges_are_read_back() {
    let n = make_nonce(1, 2, "conn");
    let line = challenge(&n);
    assert_eq!(
        line,
        "{\"nonce\":\"83433dee219f3650e196f9177b05502ef2a4e872447719fb613435ad47b49c3d\"}\n"
    );
    assert_eq!(parse_nonce(line.trim_end().as_bytes()), Some(n));
}

#[test]
fn what_is_no_challenge() {
    assert_eq!(parse_nonce(b"{}"), None);
    assert_eq!(parse_nonce(b"{\"nonce\":1}"), None);
    assert_eq!(parse_nonce(b"{\"nonce\":\"abcd\"}"), None);
    assert_eq!(parse_nonce(b"{\"nonce\":\"xy\"}"), None);
    assert_eq!(parse_nonce(b"nonce"), None);
    assert_eq!(nonce_of(None), None);
    assert_eq!(nonce_of(Some("00".repeat(32))), Some([0u8; 32]));
}

#[test]
fn identities_are_ed25519_keys() {
    assert_eq!(identity_of(&seed()), (SEED.to_string(), PUBLIC.to_string()));
}

#[test]
fn fresh_identities_are_whole() {
    let (s, p) = generate_identity();
    let made = array32(&from_hex(&s).unwrap()).unwrap();
    assert_eq!(identity_of(&made), (s.clone(), p));
    assert_ne!(generate_identity().0, s);
}

#[test]
fn answers_are_signatures() {
    let a = auth_answer(&seed(), &[]);
    assert_eq!(a.pubkey, PUBLIC);
    assert_eq!(a.sig, SIG_OF_NOTHING);
    assert_eq!(a.line(), format!("{{\"pubkey\":\"{PUBLIC}\",\"sig\":\"{SIG_OF_NOTHING}\"}}\n"));
}

#[test]
fn authorized_answers_are_accepted() {
    let nonce = make_nonce(3, 4, "c");
    let a = auth_answer(&seed(), &nonce);
    assert_eq!(verify_auth(&keys(PUBLIC), &a.pubkey, &nonce, &a.sig), Ok(PUBLIC.to_string()));
}

#[test]
fn the_case_of_a_key_does_not_matter() {
    let a = auth_answer(&seed(), &[1]);
    let upper = PUBLIC.to_uppercase();
    assert_eq!(verify_auth(&keys(&upper), &a.pubkey, &[1], &a.sig), Ok(PUBLIC.to_string()));
    assert_eq!(verify_auth(&keys(PUBLIC), &upper, &[1], &a.sig.to_uppercase()), Ok(PUBLIC.to_string()));
}

#[test]
fn every_way_to_be_turned_away() {
    let a = auth_answer(&seed(), &[1]);
    let long = format!("{PUBLIC}00");
    assert_eq!(why(verify_auth(&vec![], &a.pubkey, &[1], &a.sig)), "unauthorized key");
    assert_eq!(why(verify_auth(&keys("11"), &a.pubkey, &[1], &a.sig)), "unauthorized key");
    assert_eq!(why(verify_auth(&keys("zz"), "zz", &[1], &a.sig)), "bad pubkey hex");
    assert_eq!(why(verify_auth(&keys(&long), &long, &[1], &a.sig)), "pubkey must be 32 bytes");
    // No point of the curve has this encoding.
    let no_point = format!("02{}", "00".repeat(31));
    assert_eq!(why(verify_auth(&keys(&no_point), &no_point, &[1], &a.sig)), "invalid pubkey");
    assert_eq!(why(verify_auth(&keys(PUBLIC), PUBLIC, &[1], "zz")), "bad sig hex");
    assert_eq!(why(verify_auth(&keys(PUBLIC), PUBLIC, &[1], "00")), "sig must be 64 bytes");
    assert_eq!(why(verify_auth(&keys(PUBLIC), PUBLIC, &[2], &a.sig)), "signature mismatch");
    assert_eq!(why(verify_auth(&keys(PUBLIC), PUBLIC, &[1], SIG_OF_NOTHING)), "signature mismatch");
}

#[test]
fn verdicts_name_the_first_fault() {
    let key = Some(vec![0u8; 32]);
    let sig = Some(vec![0u8; 64]);
    let who = || "w".to_string();
    assert_eq!(judge_auth(true, &key, true, &sig, true, who()), Ok("w".to_string()));
    assert_eq!(why(judge_auth(false, &None, false, &None, false, who())), "unauthorized key");
    assert_eq!(why(judge_auth(true, &None, true, &sig, true, who())), "bad pubkey hex");
    assert_eq!(why(judge_auth(true, &Some(vec![]), true, &sig, true, who())), "pubkey must be 32 bytes");
    assert_eq!(why(judge_auth(true, &key, false, &None, true, who())), "invalid pubkey");
    assert_eq!(why(judge_auth(true, &key, true, &None, true, who())), "bad sig hex");
    assert_eq!(why(judge_auth(true, &key, true, &Some(vec![]), true, who())), "sig must be 64 bytes");
    assert_eq!(why(judge_auth(true, &key, true, &sig, false, who())), "signature mismatch");
}

#[test]
fn answers_are_lines() {
    let m = AuthMsg { pubkey: "p".to_string(), sig: "s".to_string() };
    assert_eq!(m.line(), "{\"pubkey\":\"p\",\"sig\":\"s\"}\n");
}
