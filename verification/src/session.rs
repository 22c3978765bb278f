//! One connection to the control surface, from its start to its end. Where keys
//! are authorized, it has to be encrypted, and the client has to answer a
//! challenge, before any request is carried out.

use crate::auth::{
    auth_verdict, challenge, make_nonce, nonce_source, nonce_sources_differ, nonce_text, sha256_of,
    signature_valid, valid_key, verify_auth, who_is_admitted, AuthMsg,
};
use crate::hex::{hex_bytes, hex_text};
use crate::reply::{err_reply, err_text};
use crate::roster::{StateView, SupervisorState};
use crate::text::{contains, lowercase, occurs};
use vstd::prelude::*;
use vstd::utf8::encode_utf8;

verus! {

/// How far a connection is.
pub enum Session {
    /// The host was asked to activate it.
    Activating,
    /// The host was asked to encrypt it.
    Securing,
    /// The challenge is on its way.
    Challenging { nonce: [u8; 32] },
    /// The client's answer is awaited.
    AwaitingAnswer { nonce: [u8; 32] },
    /// The client's answer is being read.
    ReadingAnswer { nonce: [u8; 32] },
    /// The request is awaited.
    AwaitingRequest,
    /// The request is being carried out.
    Serving,
    /// The connection is at its end.
    Over,
}

/// How far a connection is, by its view.
pub enum SessionView {
    Activating,
    Securing,
    Challenging { nonce: Seq<u8> },
    AwaitingAnswer { nonce: Seq<u8> },
    ReadingAnswer { nonce: Seq<u8> },
    AwaitingRequest,
    Serving,
    Over,
}

impl View for Session {
    type V = SessionView;

    open spec fn view(&self) -> SessionView {
        match self {
            Session::Activating => SessionView::Activating,
            Session::Securing => SessionView::Securing,
            Session::Challenging { nonce } => SessionView::Challenging { nonce: nonce@ },
            Session::AwaitingAnswer { nonce } => SessionView::AwaitingAnswer { nonce: nonce@ },
            Session::ReadingAnswer { nonce } => SessionView::ReadingAnswer { nonce: nonce@ },
            Session::AwaitingRequest => SessionView::AwaitingRequest,
            Session::Serving => SessionView::Serving,
            Session::Over => SessionView::Over,
        }
    }
}

/// What has happened.
pub enum Event {
    /// The host has activated the connection, or has not.
    Activated { ok: bool },
    /// The host has answered the wish to encrypt, at this time.
    Secured { answer: Result<(), String>, now: u64 },
    /// What was to be sent was sent, or was not.
    Sent { ok: bool },
    /// A line has arrived; `None` where none will.
    Received { line: Option<Vec<u8>> },
    /// The client's answer was read; `None` where it is none.
    Read { msg: Option<AuthMsg> },
    /// The request was carried out, and is answered so.
    Served { reply: String },
}

/// What has happened, by its view.
pub enum EventView {
    Activated { ok: bool },
    Secured { answer: Result<(), Seq<char>>, now: u64 },
    Sent { ok: bool },
    Received { line: Option<Seq<u8>> },
    /// The key and the signature, in hexadecimal.
    Read { msg: Option<(Seq<char>, Seq<char>)> },
    Served { reply: Seq<char> },
}

impl View for Event {
    type V = EventView;

    open spec fn view(&self) -> EventView {
        match self {
            Event::Activated { ok } => EventView::Activated { ok: *ok },
            Event::Secured { answer, now } => EventView::Secured {
                answer: crate::datum::unit_result(*answer),
                now: *now,
            },
            Event::Sent { ok } => EventView::Sent { ok: *ok },
            Event::Received { line } => EventView::Received {
                line: match line {
                    Some(l) => Some(l@),
                    None => None,
                },
            },
            Event::Read { msg } => EventView::Read {
                msg: match msg {
                    Some(m) => Some((m.pubkey@, m.sig@)),
                    None => None,
                },
            },
            Event::Served { reply } => EventView::Served { reply: reply@ },
        }
    }
}

/// What is to be done.
pub enum Action {
    /// Leave the connection alone.
    Leave,
    /// Encrypt it.
    Secure,
    /// Send this.
    Send(Vec<u8>),
    /// Wait for a line.
    Receive,
    /// Read this as the client's answer.
    ReadAnswer(Vec<u8>),
    /// Carry out the request in this line.
    Serve(Vec<u8>),
    /// Send this, and close the connection.
    SendAndClose(Vec<u8>),
    /// Close the connection.
    Close,
}

/// What is to be done, by its view.
pub enum ActionView {
    Leave,
    Secure,
    Send(Seq<u8>),
    Receive,
    ReadAnswer(Seq<u8>),
    Serve(Seq<u8>),
    SendAndClose(Seq<u8>),
    Close,
}

impl View for Action {
    type V = ActionView;

    open spec fn view(&self) -> ActionView {
        match self {
            Action::Leave => ActionView::Leave,
            Action::Secure => ActionView::Secure,
            Action::Send(b) => ActionView::Send(b@),
            Action::Receive => ActionView::Receive,
            Action::ReadAnswer(b) => ActionView::ReadAnswer(b@),
            Action::Serve(b) => ActionView::Serve(b@),
            Action::SendAndClose(b) => ActionView::SendAndClose(b@),
            Action::Close => ActionView::Close,
        }
    }
}

/// Whether the host's answer means that the connection is encrypted: it was
/// encrypted now, or it was before.
pub open spec fn encrypted(answer: Result<(), Seq<char>>) -> bool {
    match answer {
        Ok(_) => true,
        Err(e) => occurs(e, "already TLS"@),
    }
}

/// The nonce of a connection.
pub open spec fn nonce_for(conn: Seq<char>, counter: u64, now: u64) -> Seq<u8> {
    sha256_of(nonce_source(now, counter, conn))
}

/// The line that challenges a client.
pub open spec fn challenge_line(nonce: Seq<u8>) -> Seq<u8> {
    encode_utf8(nonce_text(nonce) + "\n"@)
}

/// The line that turns a client away.
pub open spec fn reject_line(why: Seq<char>) -> Seq<u8> {
    encode_utf8(err_text("auth failed: "@ + why) + "\n"@)
}

/// The line that answers a request.
pub open spec fn reply_line(reply: Seq<char>) -> Seq<u8> {
    encode_utf8(reply) + seq![10u8]
}

/// How far a connection is next, and what is to be done. What it does not wait
/// for ends it.
pub open spec fn stepped(
    keys: Seq<Seq<char>>,
    counter: u64,
    conn: Seq<char>,
    s: SessionView,
    e: EventView,
) -> (SessionView, ActionView) {
    match (s, e) {
        (SessionView::Activating, EventView::Activated { ok }) => if !ok {
            (SessionView::Over, ActionView::Leave)
        } else if keys.len() > 0 {
            (SessionView::Securing, ActionView::Secure)
        } else {
            (SessionView::AwaitingRequest, ActionView::Receive)
        },
        (SessionView::Securing, EventView::Secured { answer, now }) => if encrypted(answer) {
            let nonce = nonce_for(conn, counter, now);
            (SessionView::Challenging { nonce }, ActionView::Send(challenge_line(nonce)))
        } else {
            (SessionView::Over, ActionView::Close)
        },
        (SessionView::Challenging { nonce }, EventView::Sent { ok }) => if ok {
            (SessionView::AwaitingAnswer { nonce }, ActionView::Receive)
        } else {
            (SessionView::Over, ActionView::Close)
        },
        (SessionView::AwaitingAnswer { nonce }, EventView::Received { line }) => match line {
            Some(l) => (SessionView::ReadingAnswer { nonce }, ActionView::ReadAnswer(l)),
            None => (SessionView::Over, ActionView::Close),
        },
        (SessionView::ReadingAnswer { nonce }, EventView::Read { msg }) => match msg {
            Some(m) => match auth_verdict(keys, m.0, nonce, m.1) {
                Ok(_) => (SessionView::AwaitingRequest, ActionView::Receive),
                Err(why) => (SessionView::Over, ActionView::SendAndClose(reject_line(why))),
            },
            None => (
                SessionView::Over,
                ActionView::SendAndClose(reject_line("malformed auth message"@)),
            ),
        },
        (SessionView::AwaitingRequest, EventView::Received { line }) => match line {
            Some(l) => (SessionView::Serving, ActionView::Serve(l)),
            None => (SessionView::Serving, ActionView::Serve(Seq::empty())),
        },
        (SessionView::Serving, EventView::Served { reply }) => (
            SessionView::Over,
            ActionView::SendAndClose(reply_line(reply)),
        ),
        _ => (SessionView::Over, ActionView::Close),
    }
}

/// How many challenges were issued once an event is handled.
pub open spec fn counted(counter: u64, s: SessionView, e: EventView) -> u64 {
    match (s, e) {
        (SessionView::Securing, EventView::Secured { answer, now: _ }) => if encrypted(answer) {
            if counter == u64::MAX {
                0
            } else {
                (counter + 1) as u64
            }
        } else {
            counter
        },
        _ => counter,
    }
}

/// Whether the host's answer means that the connection is encrypted.
fn is_encrypted(answer: &Result<(), String>) -> (r: bool)
    ensures
        r == encrypted(crate::datum::unit_result(*answer)),
{
    match answer {
        Ok(_) => true,
        Err(e) => contains(e.as_str(), "already TLS"),
    }
}

/// The line that turns a client away.
fn reject(why: &str) -> (r: Vec<u8>)
    ensures
        r@ == reject_line(why@),
{
    let mut msg = "auth failed: ".to_owned();
    msg.append(why);
    let mut out = err_reply(msg.as_str());
    out.append("\n");
    out.as_str().as_bytes_vec()
}

/// Takes a connection one step further.
pub fn step(st: &mut SupervisorState, conn: &str, s: Session, e: Event) -> (r: (Session, Action))
    ensures
        (r.0@, r.1@) == stepped(
            old(st)@.authorized_keys,
            old(st)@.nonce_counter,
            conn@,
            s@,
            e@,
        ),
        final(st)@ == (StateView {
            nonce_counter: counted(old(st)@.nonce_counter, s@, e@),
            ..old(st)@
        }),
{
    match (s, e) {
        (Session::Activating, Event::Activated { ok }) => if !ok {
            (Session::Over, Action::Leave)
        } else if st.authorized_keys.len() > 0 {
            (Session::Securing, Action::Secure)
        } else {
            (Session::AwaitingRequest, Action::Receive)
        },
        (Session::Securing, Event::Secured { answer, now }) => if is_encrypted(&answer) {
            let counter: u64 = st.nonce_counter;
            st.nonce_counter = counter.wrapping_add(1);
            let nonce = make_nonce(now, counter, conn);
            let line = challenge(&nonce).as_str().as_bytes_vec();
            (Session::Challenging { nonce }, Action::Send(line))
        } else {
            (Session::Over, Action::Close)
        },
        (Session::Challenging { nonce }, Event::Sent { ok }) => if ok {
            (Session::AwaitingAnswer { nonce }, Action::Receive)
        } else {
            (Session::Over, Action::Close)
        },
        (Session::AwaitingAnswer { nonce }, Event::Received { line }) => match line {
            Some(l) => (Session::ReadingAnswer { nonce }, Action::ReadAnswer(l)),
            None => (Session::Over, Action::Close),
        },
        (Session::ReadingAnswer { nonce }, Event::Read { msg }) => match msg {
            Some(m) => match verify_auth(
                &st.authorized_keys,
                m.pubkey.as_str(),
                nonce.as_slice(),
                m.sig.as_str(),
            ) {
                Ok(_) => (Session::AwaitingRequest, Action::Receive),
                Err(why) => (Session::Over, Action::SendAndClose(reject(why.as_str()))),
            },
            None => (Session::Over, Action::SendAndClose(reject("malformed auth message"))),
        },
        (Session::AwaitingRequest, Event::Received { line }) => match line {
            Some(l) => (Session::Serving, Action::Serve(l)),
            None => {
                let empty: Vec<u8> = Vec::new();
                assert(empty@ =~= Seq::<u8>::empty());
                (Session::Serving, Action::Serve(empty))
            },
        },
        (Session::Serving, Event::Served { reply }) => {
            let mut line = reply.as_str().as_bytes_vec();
            line.push(10u8);
            assert(line@ =~= reply_line(reply@));
            (Session::Over, Action::SendAndClose(line))
        },
        _ => (Session::Over, Action::Close),
    }
}

// ---- what a connection cannot do -------------------------------------------

/// How far a connection is after these events, and what was to be done last.
pub open spec fn played(
    keys: Seq<Seq<char>>,
    counter: u64,
    conn: Seq<char>,
    events: Seq<EventView>,
) -> (SessionView, ActionView)
    decreases events.len(),
{
    if events.len() == 0 {
        (SessionView::Activating, ActionView::Leave)
    } else {
        stepped(
            keys,
            counter,
            conn,
            played(keys, counter, conn, events.drop_last()).0,
            events.last(),
        )
    }
}

/// Whether some event says that the connection is encrypted, at a time that makes
/// this its nonce.
pub open spec fn secured_with(
    conn: Seq<char>,
    counter: u64,
    events: Seq<EventView>,
    nonce: Seq<u8>,
) -> bool {
    exists|i: int|
        0 <= i < events.len() && ((#[trigger] events[i]) matches EventView::Secured { answer, now }
            && encrypted(answer) && nonce == nonce_for(conn, counter, now))
}

/// Whether some event is an answer to this nonce that the keys admit.
pub open spec fn admitted(keys: Seq<Seq<char>>, events: Seq<EventView>, nonce: Seq<u8>) -> bool {
    exists|i: int|
        0 <= i < events.len() && ((#[trigger] events[i]) matches EventView::Read { msg: Some(m) }
            && auth_verdict(keys, m.0, nonce, m.1) is Ok)
}

/// What is established of a connection that is so far.
proof fn established(
    keys: Seq<Seq<char>>,
    counter: u64,
    conn: Seq<char>,
    events: Seq<EventView>,
)
    requires
        keys.len() > 0,
    ensures
        match played(keys, counter, conn, events).0 {
            SessionView::Challenging { nonce } => secured_with(conn, counter, events, nonce),
            SessionView::AwaitingAnswer { nonce } => secured_with(conn, counter, events, nonce),
            SessionView::ReadingAnswer { nonce } => secured_with(conn, counter, events, nonce),
            SessionView::AwaitingRequest | SessionView::Serving => exists|nonce: Seq<u8>|
                #[trigger] secured_with(conn, counter, events, nonce) && admitted(keys, events, nonce),
            _ => true,
        },
    decreases events.len(),
{
    if events.len() > 0 {
        let front = events.drop_last();
        established(keys, counter, conn, front);
        let before = played(keys, counter, conn, front).0;
        assert forall|nonce: Seq<u8>| #[trigger] secured_with(conn, counter, front, nonce) implies secured_with(
            conn,
            counter,
            events,
            nonce,
        ) by {
            let i = choose|i: int|
                0 <= i < front.len() && ((#[trigger] front[i]) matches EventView::Secured {
                    answer,
                    now,
                } && encrypted(answer) && nonce == nonce_for(conn, counter, now));
            assert(events[i] == front[i]);
        }
        assert forall|nonce: Seq<u8>| #[trigger] admitted(keys, front, nonce) implies admitted(
            keys,
            events,
            nonce,
        ) by {
            let i = choose|i: int|
                0 <= i < front.len() && ((#[trigger] front[i]) matches EventView::Read { msg: Some(m) } && auth_verdict(keys, m.0, nonce, m.1) is Ok);
            assert(events[i] == front[i]);
        }
        let last = events[events.len() - 1];
        match (before, last) {
            (SessionView::Securing, EventView::Secured { answer, now }) => {
                if encrypted(answer) {
                    assert(secured_with(conn, counter, events, nonce_for(conn, counter, now)));
                }
            },
            (SessionView::ReadingAnswer { nonce }, EventView::Read { msg: Some(m) }) => {
                if auth_verdict(keys, m.0, nonce, m.1) is Ok {
                    assert(admitted(keys, events, nonce));
                    assert(secured_with(conn, counter, events, nonce));
                }
            },
            (SessionView::AwaitingRequest, EventView::Received { line }) => {
                let nonce = choose|nonce: Seq<u8>|
                    #[trigger] secured_with(conn, counter, front, nonce) && admitted(
                        keys,
                        front,
                        nonce,
                    );
                assert(secured_with(conn, counter, events, nonce) && admitted(keys, events, nonce));
            },
            _ => {},
        }
    }
}

/// Where keys are authorized, no request is carried out before the connection is
/// known to be encrypted and the client has answered this connection's own
/// challenge with an authorized key.
pub proof fn no_request_before_auth(
    keys: Seq<Seq<char>>,
    counter: u64,
    conn: Seq<char>,
    events: Seq<EventView>,
)
    requires
        keys.len() > 0,
        played(keys, counter, conn, events).1 is Serve,
    ensures
        exists|nonce: Seq<u8>|
            #[trigger] secured_with(conn, counter, events, nonce) && admitted(keys, events, nonce),
{
    established(keys, counter, conn, events);
    if events.len() > 0 {
        let front = events.drop_last();
        assert(played(keys, counter, conn, front).0 is AwaitingRequest);
    }
}

/// Where keys are authorized, nothing is sent or read on a connection that is not
/// known to be encrypted.
pub proof fn nothing_in_the_clear(
    keys: Seq<Seq<char>>,
    counter: u64,
    conn: Seq<char>,
    events: Seq<EventView>,
)
    requires
        keys.len() > 0,
        ({
            let a = played(keys, counter, conn, events).1;
            a is Send || a is SendAndClose || a is Receive || a is ReadAnswer || a is Serve
        }),
    ensures
        exists|nonce: Seq<u8>| #[trigger] secured_with(conn, counter, events, nonce),
{
    established(keys, counter, conn, events);
    if events.len() > 0 {
        let front = events.drop_last();
        established(keys, counter, conn, front);
        let before = played(keys, counter, conn, front).0;
        assert forall|nonce: Seq<u8>| #[trigger] secured_with(conn, counter, front, nonce) implies secured_with(
            conn,
            counter,
            events,
            nonce,
        ) by {
            let i = choose|i: int|
                0 <= i < front.len() && ((#[trigger] front[i]) matches EventView::Secured {
                    answer,
                    now,
                } && encrypted(answer) && nonce == nonce_for(conn, counter, now));
            assert(events[i] == front[i]);
        }
    }
}

/// A client that is turned away is told why, and its connection is closed: an
/// answer that cannot be read, or one that the keys do not admit.
pub proof fn refusals_are_answered(
    keys: Seq<Seq<char>>,
    counter: u64,
    conn: Seq<char>,
    nonce: Seq<u8>,
    pubkey: Seq<char>,
    sig: Seq<char>,
)
    ensures
        stepped(
            keys,
            counter,
            conn,
            SessionView::ReadingAnswer { nonce },
            EventView::Read { msg: None },
        ) == (
            SessionView::Over,
            ActionView::SendAndClose(reject_line("malformed auth message"@)),
        ),
        auth_verdict(keys, pubkey, nonce, sig) is Err ==> stepped(
            keys,
            counter,
            conn,
            SessionView::ReadingAnswer { nonce },
            EventView::Read { msg: Some((pubkey, sig)) },
        ) == (
            SessionView::Over,
            ActionView::SendAndClose(reject_line(auth_verdict(keys, pubkey, nonce, sig)->Err_0)),
        ),
{
}

/// Once over, a connection stays over.
pub proof fn over_is_over(
    keys: Seq<Seq<char>>,
    counter: u64,
    conn: Seq<char>,
    e: EventView,
)
    ensures
        stepped(keys, counter, conn, SessionView::Over, e) == (SessionView::Over, ActionView::Close),
{
}

// ---- what a connection is for ----------------------------------------------

/// Where no key is authorized, a request is carried out as it came and its reply is
/// sent back, on a line of its own, before the connection is closed.
pub proof fn an_open_request_is_answered(
    counter: u64,
    conn: Seq<char>,
    line: Seq<u8>,
    reply: Seq<char>,
)
    ensures
        ({
            let keys = Seq::<Seq<char>>::empty();
            let e1 = seq![EventView::Activated { ok: true }];
            let e2 = e1.push(EventView::Received { line: Some(line) });
            let e3 = e2.push(EventView::Served { reply });
            &&& played(keys, counter, conn, e1).1 is Receive
            &&& played(keys, counter, conn, e2).1 == ActionView::Serve(line)
            &&& played(keys, counter, conn, e3) == (
                SessionView::Over,
                ActionView::SendAndClose(encode_utf8(reply) + seq![10u8]),
            )
        }),
{
    let e1 = seq![EventView::Activated { ok: true }];
    let e2 = e1.push(EventView::Received { line: Some(line) });
    let e3 = e2.push(EventView::Served { reply });
    assert(e1.drop_last() =~= Seq::<EventView>::empty());
    assert(e2.drop_last() =~= e1);
    assert(e3.drop_last() =~= e2);
    reveal_with_fuel(played, 5);
}

/// Where keys are authorized, a connection is encrypted, then challenged with a nonce
/// of its own, and the answer is read. A client with an authorized key and its
/// signature of that nonce is let in: its request is carried out as it came, and its
/// reply is sent back on a line of its own before the connection is closed.
pub proof fn an_authorized_request_is_answered(
    keys: Seq<Seq<char>>,
    counter: u64,
    conn: Seq<char>,
    now: u64,
    answer: Seq<u8>,
    pubkey: Seq<char>,
    sig: Seq<char>,
    line: Seq<u8>,
    reply: Seq<char>,
    i: int,
)
    requires
        0 <= i < keys.len(),
        lowercase(keys[i]) == lowercase(pubkey),
        hex_bytes(pubkey) is Some && hex_bytes(pubkey)->0.len() == 32,
        valid_key(hex_bytes(pubkey)->0),
        hex_bytes(sig) is Some && hex_bytes(sig)->0.len() == 64,
        signature_valid(
            hex_bytes(pubkey)->0,
            sha256_of(nonce_source(now, counter, conn)),
            hex_bytes(sig)->0,
        ),
    ensures
        ({
            let nonce = sha256_of(nonce_source(now, counter, conn));
            let e1 = seq![EventView::Activated { ok: true }];
            let e2 = e1.push(EventView::Secured { answer: Ok(()), now });
            let e3 = e2.push(EventView::Sent { ok: true });
            let e4 = e3.push(EventView::Received { line: Some(answer) });
            let e5 = e4.push(EventView::Read { msg: Some((pubkey, sig)) });
            let e6 = e5.push(EventView::Received { line: Some(line) });
            let e7 = e6.push(EventView::Served { reply });
            &&& played(keys, counter, conn, e1).1 is Secure
            &&& played(keys, counter, conn, e2).1 == ActionView::Send(
                encode_utf8("{\"nonce\":\""@ + hex_text(nonce) + "\"}\n"@),
            )
            &&& played(keys, counter, conn, e3).1 is Receive
            &&& played(keys, counter, conn, e4).1 == ActionView::ReadAnswer(answer)
            &&& played(keys, counter, conn, e5).1 is Receive
            &&& played(keys, counter, conn, e6).1 == ActionView::Serve(line)
            &&& played(keys, counter, conn, e7) == (
                SessionView::Over,
                ActionView::SendAndClose(encode_utf8(reply) + seq![10u8]),
            )
        }),
{
    let nonce = sha256_of(nonce_source(now, counter, conn));
    let e1 = seq![EventView::Activated { ok: true }];
    let e2 = e1.push(EventView::Secured { answer: Ok(()), now });
    let e3 = e2.push(EventView::Sent { ok: true });
    let e4 = e3.push(EventView::Received { line: Some(answer) });
    let e5 = e4.push(EventView::Read { msg: Some((pubkey, sig)) });
    let e6 = e5.push(EventView::Received { line: Some(line) });
    let e7 = e6.push(EventView::Served { reply });
    assert(e1.drop_last() =~= Seq::<EventView>::empty());
    assert(e2.drop_last() =~= e1);
    assert(e3.drop_last() =~= e2);
    assert(e4.drop_last() =~= e3);
    assert(e5.drop_last() =~= e4);
    assert(e6.drop_last() =~= e5);
    assert(e7.drop_last() =~= e6);
    who_is_admitted(keys, pubkey, nonce, sig);
    reveal_strlit("\"}");
    reveal_strlit("\n");
    reveal_strlit("\"}\n");
    assert(nonce_text(nonce) + "\n"@ =~= "{\"nonce\":\""@ + hex_text(nonce) + "\"}\n"@);
    reveal_with_fuel(played, 2);
    assert(played(keys, counter, conn, e1).0 is Securing);
    assert(played(keys, counter, conn, e2).0 == (SessionView::Challenging { nonce }));
    assert(played(keys, counter, conn, e3).0 == (SessionView::AwaitingAnswer { nonce }));
    assert(played(keys, counter, conn, e4).0 == (SessionView::ReadingAnswer { nonce }));
    assert(played(keys, counter, conn, e5).0 is AwaitingRequest);
    assert(played(keys, counter, conn, e6).0 is Serving);
}

/// A connection that cannot be taken over is left alone. One that cannot be encrypted
/// is closed, and nothing is sent on it; an answer of the host that it is encrypted
/// already will do.
pub proof fn only_an_encrypted_connection_is_challenged(
    keys: Seq<Seq<char>>,
    counter: u64,
    conn: Seq<char>,
    why: Seq<char>,
    now: u64,
)
    ensures
        stepped(
            keys,
            counter,
            conn,
            SessionView::Activating,
            EventView::Activated { ok: false },
        ) == (SessionView::Over, ActionView::Leave),
        !(exists|i: int|
            0 <= i <= why.len() - "already TLS"@.len() && #[trigger] why.subrange(
                i,
                i + "already TLS"@.len(),
            ) == "already TLS"@) ==> stepped(
            keys,
            counter,
            conn,
            SessionView::Securing,
            EventView::Secured { answer: Err(why), now },
        ) == (SessionView::Over, ActionView::Close),
        (exists|i: int|
            0 <= i <= why.len() - "already TLS"@.len() && #[trigger] why.subrange(
                i,
                i + "already TLS"@.len(),
            ) == "already TLS"@) ==> stepped(
            keys,
            counter,
            conn,
            SessionView::Securing,
            EventView::Secured { answer: Err(why), now },
        ) == stepped(
            keys,
            counter,
            conn,
            SessionView::Securing,
            EventView::Secured { answer: Ok(()), now },
        ),
{
}

/// Each challenge is counted, and nothing else is: the next one is made from another
/// count, and so from another source.
pub proof fn each_challenge_is_counted(
    counter: u64,
    s: SessionView,
    e: EventView,
    now: u64,
    later: u64,
    conn: Seq<char>,
    other: Seq<char>,
    why: Seq<char>,
)
    ensures
        ({
            let next = counted(counter, SessionView::Securing, EventView::Secured { answer: Ok(()), now });
            &&& counter < u64::MAX ==> next == counter + 1
            &&& counter == u64::MAX ==> next == 0
            &&& nonce_source(now, counter, conn) != nonce_source(later, next, other)
        }),
        !(s is Securing && e is Secured) ==> counted(counter, s, e) == counter,
        !(exists|i: int|
            0 <= i <= why.len() - "already TLS"@.len() && #[trigger] why.subrange(
                i,
                i + "already TLS"@.len(),
            ) == "already TLS"@) ==> counted(
            counter,
            SessionView::Securing,
            EventView::Secured { answer: Err(why), now },
        ) == counter,
{
    let next = counted(counter, SessionView::Securing, EventView::Secured { answer: Ok(()), now });
    assert(counter != next);
    nonce_sources_differ(now, counter, conn, later, next, other);
}

/// A client that is turned away is sent a refusal with the reason, on a line of its
/// own, and its connection is closed without a request being carried out.
pub proof fn a_refused_client_is_told_why(
    keys: Seq<Seq<char>>,
    counter: u64,
    conn: Seq<char>,
    nonce: Seq<u8>,
    pubkey: Seq<char>,
    sig: Seq<char>,
)
    ensures
        stepped(
            keys,
            counter,
            conn,
            SessionView::ReadingAnswer { nonce },
            EventView::Read { msg: None },
        ) == (
            SessionView::Over,
            ActionView::SendAndClose(
                encode_utf8(err_text("auth failed: malformed auth message"@) + "\n"@),
            ),
        ),
        auth_verdict(keys, pubkey, nonce, sig) matches Err(why) ==> stepped(
            keys,
            counter,
            conn,
            SessionView::ReadingAnswer { nonce },
            EventView::Read { msg: Some((pubkey, sig)) },
        ) == (
            SessionView::Over,
            ActionView::SendAndClose(encode_utf8(err_text("auth failed: "@ + why) + "\n"@)),
        ),
{
    reveal_strlit("auth failed: malformed auth message");
    reveal_strlit("auth failed: ");
    reveal_strlit("malformed auth message");
    assert("auth failed: "@ + "malformed auth message"@ =~= "auth failed: malformed auth message"@);
}

/// A connection on which nothing can be sent or read is closed before the client is
/// let in. One that is let in and sends no line is served as if the line were empty.
/// A step that is not the one awaited ends the connection.
pub proof fn a_lost_connection_is_ended(
    keys: Seq<Seq<char>>,
    counter: u64,
    conn: Seq<char>,
    nonce: Seq<u8>,
    e: EventView,
)
    ensures
        stepped(
            keys,
            counter,
            conn,
            SessionView::Challenging { nonce },
            EventView::Sent { ok: false },
        ) == (SessionView::Over, ActionView::Close),
        stepped(
            keys,
            counter,
            conn,
            SessionView::AwaitingAnswer { nonce },
            EventView::Received { line: None },
        ) == (SessionView::Over, ActionView::Close),
        stepped(
            keys,
            counter,
            conn,
            SessionView::AwaitingRequest,
            EventView::Received { line: None },
        ).1 == ActionView::Serve(Seq::empty()),
        !(e is Activated) ==> stepped(keys, counter, conn, SessionView::Activating, e) == (
            SessionView::Over,
            ActionView::Close,
        ),
        !(e is Secured) ==> stepped(keys, counter, conn, SessionView::Securing, e) == (
            SessionView::Over,
            ActionView::Close,
        ),
        !(e is Sent) ==> stepped(keys, counter, conn, SessionView::Challenging { nonce }, e) == (
            SessionView::Over,
            ActionView::Close,
        ),
        !(e is Received) ==> stepped(keys, counter, conn, SessionView::AwaitingAnswer { nonce }, e)
            == (SessionView::Over, ActionView::Close),
        !(e is Read) ==> stepped(keys, counter, conn, SessionView::ReadingAnswer { nonce }, e) == (
            SessionView::Over,
            ActionView::Close,
        ),
        !(e is Received) ==> stepped(keys, counter, conn, SessionView::AwaitingRequest, e) == (
            SessionView::Over,
            ActionView::Close,
        ),
        !(e is Served) ==> stepped(keys, counter, conn, SessionView::Serving, e) == (
            SessionView::Over,
            ActionView::Close,
        ),
{
}

} // verus!
