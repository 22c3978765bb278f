use supervisor::auth::{array32, auth_answer, identity_of, parse_nonce, AuthMsg};
use supervisor::boot::{initial_state, ControlCfg};
use supervisor::roster::SupervisorState;
use supervisor::session::{step, Action, Event, Session};

const SEED: [u8; 32] = [7u8; 32];

fn state(keys: Vec<String>) -> SupervisorState {
    let c = ControlCfg { port: 1, bind: None, authorized_keys: Some(keys) };
    initial_state(vec![], Some(c))
}

fn authorized() -> SupervisorState {
    state(vec![identity_of(&SEED).1])
}

/// A connection up to its challenge, and the challenge.
fn challenged(st: &mut SupervisorState, answer: Result<(), String>) -> (Session, Vec<u8>) {
    let (s, a) = step(st, "c", Session::Activating, Event::Activated { ok: true });
    assert!(matches!(a, Action::Secure));
    match step(st, "c", s, Event::Secured { answer, now: 5 }) {
        (s, Action::Send(line)) => {
            let (s, a) = step(st, "c", s, Event::Sent { ok: true });
            assert!(matches!(a, Action::Receive));
            (s, line)
        }
        _ => panic!("a challenge is sent"),
    }
}

fn closing(a: Action) -> String {
    match a {
        Action::SendAndClose(b) => String::from_utf8(b).unwrap(),
        _ => panic!("closes with a line"),
    }
}

#[test]
fn without_keys_a_request_is_served_at_once() {
    let mut st = state(vec![]);
    let (s, a) = step(&mut st, "c", Session::Activating, Event::Activated { ok: true });
    assert!(matches!(a, Action::Receive));
    let (s, a) = step(&mut st, "c", s, Event::Received { line: Some(b"op".to_vec()) });
    assert!(matches!(a, Action::Serve(l) if l == b"op"));
    let (s, a) = step(&mut st, "c", s, Event::Served { reply: "re".to_string() });
    assert_eq!(closing(a), "re\n");
    assert!(matches!(s, Session::Over));
}

#[test]
fn a_missing_request_is_an_empty_one() {
    let mut st = state(vec![]);
    let (s, _) = step(&mut st, "c", Session::Activating, Event::Activated { ok: true });
    let (_, a) = step(&mut st, "c", s, Event::Received { line: None });
    assert!(matches!(a, Action::Serve(l) if l.is_empty()));
}

#[test]
fn what_cannot_be_activated_is_left_alone() {
    let mut st = authorized();
    let (s, a) = step(&mut st, "c", Session::Activating, Event::Activated { ok: false });
    assert!(matches!(a, Action::Leave));
    assert!(matches!(s, Session::Over));
}

#[test]
fn with_keys_the_channel_has_to_be_encrypted() {
    let mut st = authorized();
    let (s, _) = step(&mut st, "c", Session::Activating, Event::Activated { ok: true });
    let answer = Err("no certificate".to_string());
    let (s, a) = step(&mut st, "c", s, Event::Secured { answer, now: 5 });
    assert!(matches!(a, Action::Close));
    assert!(matches!(s, Session::Over));
    assert_eq!(st.nonce_counter, 0);
    challenged(&mut st, Err("connection is already TLS".to_string()));
    challenged(&mut st, Ok(()));
    assert_eq!(st.nonce_counter, 2);
}

#[test]
fn an_authorized_client_is_served() {
    let mut st = authorized();
    let (s, line) = challenged(&mut st, Ok(()));
    let nonce = parse_nonce(&line[..line.len() - 1]).unwrap();
    let (s, a) = step(&mut st, "c", s, Event::Received { line: Some(b"answer".to_vec()) });
    assert!(matches!(a, Action::ReadAnswer(l) if l == b"answer"));
    let msg = Some(auth_answer(&SEED, &nonce));
    let (s, a) = step(&mut st, "c", s, Event::Read { msg });
    assert!(matches!(a, Action::Receive));
    let (_, a) = step(&mut st, "c", s, Event::Received { line: Some(b"op".to_vec()) });
    assert!(matches!(a, Action::Serve(l) if l == b"op"));
}

#[test]
fn an_answer_to_another_challenge_is_refused() {
    let mut st = authorized();
    let (_, line) = challenged(&mut st, Ok(()));
    let old = parse_nonce(&line[..line.len() - 1]).unwrap();
    let (s, _) = challenged(&mut st, Ok(()));
    let (s, _) = step(&mut st, "c", s, Event::Received { line: Some(vec![]) });
    let (s, a) = step(&mut st, "c", s, Event::Read { msg: Some(auth_answer(&SEED, &old)) });
    assert_eq!(closing(a), "{\"ok\":false,\"error\":\"auth failed: signature mismatch\"}\n");
    assert!(matches!(s, Session::Over));
}

#[test]
fn strangers_are_refused() {
    let mut st = authorized();
    let (s, line) = challenged(&mut st, Ok(()));
    let nonce = parse_nonce(&line[..line.len() - 1]).unwrap();
    let (s, _) = step(&mut st, "c", s, Event::Received { line: Some(vec![]) });
    let msg = Some(auth_answer(&[8u8; 32], &nonce));
    let (_, a) = step(&mut st, "c", s, Event::Read { msg });
    assert_eq!(closing(a), "{\"ok\":false,\"error\":\"auth failed: unauthorized key\"}\n");
}

#[test]
fn answers_that_cannot_be_read_are_refused() {
    let mut st = authorized();
    let (s, _) = challenged(&mut st, Ok(()));
    let (s, _) = step(&mut st, "c", s, Event::Received { line: Some(b"?".to_vec()) });
    let (_, a) = step(&mut st, "c", s, Event::Read { msg: None });
    assert_eq!(closing(a), "{\"ok\":false,\"error\":\"auth failed: malformed auth message\"}\n");
}

#[test]
fn a_client_that_leaves_is_let_go() {
    let mut st = authorized();
    let (s, _) = challenged(&mut st, Ok(()));
    let (s, a) = step(&mut st, "c", s, Event::Received { line: None });
    assert!(matches!(a, Action::Close));
    assert!(matches!(s, Session::Over));
    let (s, _) = step(&mut st, "c", Session::Activating, Event::Activated { ok: true });
    let (s, _) = step(&mut st, "c", s, Event::Secured { answer: Ok(()), now: 1 });
    let (_, a) = step(&mut st, "c", s, Event::Sent { ok: false });
    assert!(matches!(a, Action::Close));
}

#[test]
fn nothing_is_skipped() {
    let mut st = authorized();
    let served = Event::Served { reply: String::new() };
    assert!(matches!(step(&mut st, "c", Session::Securing, served), (Session::Over, Action::Close)));
    let msg = Some(AuthMsg { pubkey: String::new(), sig: String::new() });
    assert!(matches!(step(&mut st, "c", Session::Over, Event::Read { msg }), (Session::Over, Action::Close)));
}

#[test]
fn the_challenge_counter_wraps() {
    let mut st = authorized();
    st.nonce_counter = u64::MAX;
    challenged(&mut st, Ok(()));
    assert_eq!(st.nonce_counter, 0);
}

#[test]
fn thirty_two_bytes() {
    assert!(array32(&[0; 31]).is_none());
    assert!(array32(&[0; 33]).is_none());
    assert_eq!(array32(&[9; 32]), Some([9; 32]));
}
