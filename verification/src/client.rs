//! The control client: where to connect, as whom, and what is said.

use crate::auth::{
    array32, auth_answer, auth_text, auth_verdict, nonce_in, nonce_text, parse_nonce, public_of,
    signature_of, text_in_line,
};
use crate::hex::{from_hex, hex_bytes, hex_is_read_in_either_case, hex_round_trip, hex_text};
use crate::text::{
    behind, lossy, lossy_text, same, strip_prefix, trim, trimmed, trimming_takes_off_white_space, white,
};
use vstd::prelude::*;
use vstd::utf8::{decode_utf8, encode_utf8, valid_utf8};

verus! {

/// The port of a control surface, where none is given.
pub const DEFAULT_PORT: u16 = 9000;

/// A resolved connection target: where, and (if authenticated) with what
/// identity and pin.
pub struct Target {
    pub host: String,
    pub port: u16,
    pub auth: Option<Auth>,
}

/// What an authenticated connection needs.
pub struct Auth {
    /// The ed25519 private key seed.
    pub seed: [u8; 32],
    /// The pinned server certificate, DER.
    pub server_cert: Vec<u8>,
}

// ---- profiles --------------------------------------------------------------

/// How to reach one supervisor.
pub struct ProfileEntry {
    pub host: String,
    pub port: u16,
    /// The file that holds the identity.
    pub identity: String,
    /// The file that holds the pinned certificate.
    pub server_cert: String,
}

/// What stands behind `~/` in a path, which is relative to the home directory.
pub fn home_relative(p: &str) -> (r: Option<String>)
    ensures
        match r {
            Some(rest) => behind(p@, "~/"@) == Some(rest@),
            None => behind(p@, "~/"@) is None,
        },
{
    strip_prefix(p, "~/")
}

/// The place of the first profile with a name.
pub open spec fn profile_at(profiles: Seq<(String, ProfileEntry)>, name: Seq<char>) -> Option<int>
    decreases profiles.len(),
{
    if profiles.len() == 0 {
        None
    } else if profiles[0].0@ == name {
        Some(0)
    } else {
        match profile_at(profiles.drop_first(), name) {
            Some(i) => Some(i + 1),
            None => None,
        }
    }
}

/// The place found is a place, and the profile there has the name.
proof fn profile_at_place(profiles: Seq<(String, ProfileEntry)>, name: Seq<char>)
    ensures
        profile_at(profiles, name) matches Some(i) ==> 0 <= i < profiles.len() && profiles[i].0@ == name,
    decreases profiles.len(),
{
    if profiles.len() > 0 {
        profile_at_place(profiles.drop_first(), name);
    }
}

/// Picks a profile from the configuration that was read from `path`, or says why
/// there is none.
pub fn choose_profile<'a>(
    profiles: &'a Vec<(String, ProfileEntry)>,
    name: &str,
    path: &str,
) -> (r: Result<&'a ProfileEntry, String>)
    ensures
        match (r, profile_at(profiles@, name@)) {
            (Ok(e), Some(i)) => 0 <= i < profiles@.len() && *e == profiles@[i].1,
            (Err(e), None) => e@ == "no profile ["@ + name@ + "] in "@ + path@,
            _ => false,
        },
        r matches Ok(e) ==> exists|i: int|
            0 <= i < profiles@.len() && (#[trigger] profiles@[i]).0@ == name@ && profiles@[i].1 == *e,
        r is Err ==> forall|i: int| 0 <= i < profiles@.len() ==> (#[trigger] profiles@[i]).0@ != name@,
{
    let mut i: usize = 0;
    proof {
        the_named_profile_is_chosen(profiles@, name@);
        assert(profiles@.skip(0) =~= profiles@);
    }
    while i < profiles.len()
        invariant
            i <= profiles@.len(),
            profile_at(profiles@, name@) == (match profile_at(profiles@.skip(i as int), name@) {
                Some(k) => Some(k + i),
                None => None,
            }),
        decreases profiles@.len() - i,
    {
        assert(profiles@.skip(i as int)[0] == profiles@[i as int]);
        assert(profiles@.skip(i as int).drop_first() =~= profiles@.skip(i + 1));
        if same(profiles[i].0.as_str(), name) {
            return Ok(&profiles[i].1);
        }
        i += 1;
    }
    let mut out = "no profile [".to_owned();
    out.append(name);
    out.append("] in ");
    out.append(path);
    Err(out)
}

/// The seed that the text of an identity file holds: 64 hexadecimal digits, white
/// space around them aside.
pub open spec fn identity_in(text: Seq<char>) -> Result<Seq<u8>, Seq<char>> {
    match hex_bytes(trimmed(text)) {
        None => Err("identity key is not valid hex"@),
        Some(b) => if b.len() == 32 {
            Ok(b)
        } else {
            Err("identity key must be 32 bytes (64 hex chars)"@)
        },
    }
}

/// Reads the seed from the text of an identity file.
pub fn parse_identity(text: &str) -> (r: Result<[u8; 32], String>)
    ensures
        match r {
            Ok(seed) => identity_in(text@) == Ok::<Seq<u8>, Seq<char>>(seed@),
            Err(e) => identity_in(text@) == Err::<Seq<u8>, Seq<char>>(e@),
        },
{
    match from_hex(trim(text).as_str()) {
        None => Err("identity key is not valid hex".to_owned()),
        Some(b) => match array32(b.as_slice()) {
            Some(seed) => Ok(seed),
            None => Err("identity key must be 32 bytes (64 hex chars)".to_owned()),
        },
    }
}

/// The first certificate among PEM sections: none, its DER bytes, or why it cannot
/// be read.
pub uninterp spec fn first_cert(pem: Seq<u8>) -> Option<Result<Seq<u8>, Seq<char>>>;

/// A certificate that was looked for, by its view.
pub open spec fn cert_view(
    c: Option<Result<Vec<u8>, String>>,
) -> Option<Result<Seq<u8>, Seq<char>>> {
    match c {
        None => None,
        Some(Ok(der)) => Some(Ok(der@)),
        Some(Err(e)) => Some(Err(e@)),
    }
}

/// The first item of `rustls_pemfile::certs`: the first certificate in the PEM
/// bytes, as DER, or the text of the error that comes before one. A function of
/// the bytes alone.
#[verifier::external_body]
fn first_certificate(pem: &[u8]) -> (r: Option<Result<Vec<u8>, String>>)
    ensures
        cert_view(r) == first_cert(pem@),
{
    let mut rd = pem;
    let first = rustls_pemfile::certs(&mut rd).next();
    match first {
        None => None,
        Some(Ok(c)) => Some(Ok(c.as_ref().to_vec())),
        Some(Err(e)) => Some(Err(e.to_string())),
    }
}

/// The pinned certificate, from what was found in the file at `path`.
pub open spec fn pin_in(
    found: Option<Result<Seq<u8>, Seq<char>>>,
    path: Seq<char>,
) -> Result<Seq<u8>, Seq<char>> {
    match found {
        None => Err("no certificate in "@ + path),
        Some(Ok(der)) => Ok(der),
        Some(Err(e)) => Err("parsing server cert PEM: "@ + e),
    }
}

/// Bytes that were read, or why not, by their view.
pub open spec fn bytes_result(r: Result<Vec<u8>, String>) -> Result<Seq<u8>, Seq<char>> {
    match r {
        Ok(b) => Ok(b@),
        Err(e) => Err(e@),
    }
}

/// The pinned certificate, from what was found in the file at `path`.
pub fn pin_of(found: Option<Result<Vec<u8>, String>>, path: &str) -> (r: Result<Vec<u8>, String>)
    ensures
        bytes_result(r) == pin_in(cert_view(found), path@),
{
    match found {
        None => {
            let mut out = "no certificate in ".to_owned();
            out.append(path);
            Err(out)
        },
        Some(Ok(der)) => Ok(der),
        Some(Err(e)) => {
            let mut out = "parsing server cert PEM: ".to_owned();
            out.append(e.as_str());
            Err(out)
        },
    }
}

/// Reads the pinned certificate from PEM bytes.
pub fn parse_pin(pem: &[u8], path: &str) -> (r: Result<Vec<u8>, String>)
    ensures
        bytes_result(r) == pin_in(first_cert(pem@), path@),
{
    pin_of(first_certificate(pem), path)
}

/// A profile, with what its files hold or why they could not be read.
pub struct Profile {
    pub host: String,
    pub port: u16,
    /// The text of the identity file.
    pub identity: Result<String, String>,
    /// The bytes of the certificate file.
    pub server_cert: Result<Vec<u8>, String>,
    /// Where the certificate file is.
    pub cert_path: String,
}

/// The seed and the pin of a profile, or the first thing that is wrong with it:
/// the identity comes before the certificate.
pub open spec fn credentials(p: Profile) -> Result<(Seq<u8>, Seq<u8>), Seq<char>> {
    match p.identity {
        Err(e) => Err(e@),
        Ok(text) => match identity_in(text@) {
            Err(e) => Err(e),
            Ok(seed) => match p.server_cert {
                Err(e) => Err(e@),
                Ok(pem) => match pin_in(first_cert(pem@), p.cert_path@) {
                    Err(e) => Err(e),
                    Ok(der) => Ok((seed, der)),
                },
            },
        },
    }
}

/// Resolves a connection target. A profile takes precedence and connects with its
/// identity and pin; without one the connection is to the given host, by default
/// this machine, and not authenticated.
pub fn resolve_target(profile: Option<Profile>, host: Option<&str>, port: u16) -> (r: Result<
    Target,
    String,
>)
    ensures
        match profile {
            Some(p) => match (r, credentials(p)) {
                (Ok(t), Ok(c)) => {
                    &&& t.host@ == p.host@
                    &&& t.port == p.port
                    &&& t.auth is Some
                    &&& t.auth->0.seed@ == c.0
                    &&& t.auth->0.server_cert@ == c.1
                },
                (Err(e), Err(why)) => e@ == why,
                _ => false,
            },
            None => {
                &&& r is Ok
                &&& r->Ok_0.host@ == (match host {
                    Some(h) => h@,
                    None => "127.0.0.1"@,
                })
                &&& r->Ok_0.port == port
                &&& r->Ok_0.auth is None
            },
        },
{
    match profile {
        Some(p) => {
            let text = match p.identity {
                Ok(text) => text,
                Err(e) => {
                    return Err(e);
                },
            };
            let seed = match parse_identity(text.as_str()) {
                Ok(seed) => seed,
                Err(e) => {
                    return Err(e);
                },
            };
            let pem = match p.server_cert {
                Ok(pem) => pem,
                Err(e) => {
                    return Err(e);
                },
            };
            let server_cert = match parse_pin(pem.as_slice(), p.cert_path.as_str()) {
                Ok(der) => der,
                Err(e) => {
                    return Err(e);
                },
            };
            Ok(Target { host: p.host, port: p.port, auth: Some(Auth { seed, server_cert }) })
        },
        None => {
            let host = match host {
                Some(h) => h.to_owned(),
                None => "127.0.0.1".to_owned(),
            };
            Ok(Target { host, port, auth: None })
        },
    }
}

// ---- the conversation ------------------------------------------------------

/// What is sent for a request: the request, on a line of its own.
pub fn request_bytes(op: &str) -> (r: Vec<u8>)
    ensures
        r@ == encode_utf8(op@).push(10u8),
{
    let mut out = op.as_bytes_vec();
    out.push(10u8);
    out
}

/// What is sent once a challenge has arrived: the answer to it, and the request
/// behind it without waiting. A server that has authorized the key accepts the
/// answer to a challenge it has made.
pub fn answer_bytes(seed: &[u8; 32], challenge: &[u8], op: &str) -> (r: Result<Vec<u8>, String>)
    ensures
        match (r, nonce_in(text_in_line(challenge@, "nonce"@))) {
            (Ok(b), Some(nonce)) => b@ == encode_utf8(
                auth_text(hex_text(public_of(seed@)), hex_text(signature_of(seed@, nonce))) + "\n"@,
            ) + encode_utf8(op@).push(10u8),
            (Err(e), None) => e@ == "bad auth challenge from server"@,
            _ => false,
        },
        forall|nonce: Seq<u8>, keys: Seq<Seq<char>>|
            nonce.len() == 32 && challenge@ == encode_utf8(#[trigger] nonce_text(nonce)) && (
            #[trigger] keys.contains(hex_text(public_of(seed@)))) ==> {
                &&& r is Ok
                &&& nonce_in(text_in_line(challenge@, "nonce"@)) == Some(nonce)
                &&& auth_verdict(
                    keys,
                    hex_text(public_of(seed@)),
                    nonce,
                    hex_text(signature_of(seed@, nonce)),
                ) is Ok
            },
{
    match parse_nonce(challenge) {
        None => Err("bad auth challenge from server".to_owned()),
        Some(nonce) => {
            let answer = auth_answer(seed, nonce.as_slice());
            let mut out = answer.line().as_str().as_bytes_vec();
            let mut request = request_bytes(op);
            out.append(&mut request);
            Ok(out)
        },
    }
}

/// What a reply says: the bytes as text, white space around them aside.
pub fn reply_text(bytes: &[u8]) -> (r: String)
    ensures
        r@ == trimmed(lossy(bytes@)),
        valid_utf8(bytes@) ==> r@ == trimmed(decode_utf8(bytes@)),
{
    trim(lossy_text(bytes).as_str())
}

/// The end of an authenticated reply. A failure to read on is one only where
/// nothing was read before it.
pub fn reply_end(bytes: &Vec<u8>, failure: Option<String>) -> (r: Result<String, String>)
    ensures
        match r {
            Ok(text) => (failure is None || bytes@.len() > 0) && text@ == trimmed(lossy(bytes@)),
            Err(e) => failure is Some && bytes@.len() == 0 && e@ == "reading reply: "@ + failure->0@,
        },
{
    match failure {
        Some(f) => {
            if bytes.len() == 0 {
                let mut out = "reading reply: ".to_owned();
                out.append(f.as_str());
                return Err(out);
            }
        },
        None => {},
    }
    Ok(reply_text(bytes.as_slice()))
}

// ---- the pin ---------------------------------------------------------------

/// Knows a server by its certificate, and by nothing else.
pub struct PinnedServerCert {
    pub pinned: Vec<u8>,
}

impl PinnedServerCert {
    /// Pins a certificate.
    pub fn new(pinned: Vec<u8>) -> (r: Self)
        ensures
            r.pinned == pinned,
    {
        PinnedServerCert { pinned }
    }

    /// Checks the certificate that a server shows: it has to be the pinned one,
    /// byte for byte.
    pub fn verify(&self, shown: &[u8]) -> (r: Result<(), String>)
        ensures
            match r {
                Ok(_) => shown@ == self.pinned@,
                Err(e) => shown@ != self.pinned@ && e@
                    == "server certificate does not match the pinned certificate"@,
            },
    {
        let n: usize = shown.len();
        let mut matches: bool = n == self.pinned.len();
        let mut i: usize = 0;
        while matches && i < n
            invariant
                i <= n,
                n == shown@.len(),
                matches ==> n == self.pinned@.len(),
                matches ==> forall|k: int| 0 <= k < i ==> shown@[k] == self.pinned@[k],
                !matches ==> shown@ != self.pinned@,
            decreases n - i,
        {
            if shown[i] != self.pinned[i] {
                matches = false;
            }
            i += 1;
        }
        if matches {
            assert(shown@ =~= self.pinned@);
            Ok(())
        } else {
            Err("server certificate does not match the pinned certificate".to_owned())
        }
    }
}

// ---- what a target is made of ----------------------------------------------

/// The profile that is chosen is the first with the name that was asked for; there is
/// none just where no profile has that name.
pub proof fn the_named_profile_is_chosen(profiles: Seq<(String, ProfileEntry)>, name: Seq<char>)
    ensures
        match profile_at(profiles, name) {
            Some(i) => {
                &&& 0 <= i < profiles.len()
                &&& profiles[i].0@ == name
                &&& forall|k: int| 0 <= k < i ==> (#[trigger] profiles[k]).0@ != name
            },
            None => forall|k: int| 0 <= k < profiles.len() ==> (#[trigger] profiles[k]).0@ != name,
        },
    decreases profiles.len(),
{
    profile_at_place(profiles, name);
    if profiles.len() > 0 && profiles[0].0@ != name {
        let rest = profiles.drop_first();
        the_named_profile_is_chosen(rest, name);
        assert forall|k: int| 0 < k < profiles.len() implies #[trigger] profiles[k] == rest[k - 1] by {}
        match profile_at(rest, name) {
            Some(j) => {
                assert forall|k: int| 0 <= k < j + 1 implies (#[trigger] profiles[k]).0@ != name by {
                    if k > 0 {
                        assert(profiles[k] == rest[k - 1]);
                    }
                }
            },
            None => {
                assert forall|k: int| 0 <= k < profiles.len() implies (#[trigger] profiles[k]).0@
                    != name by {
                    if k > 0 {
                        assert(profiles[k] == rest[k - 1]);
                    }
                }
            },
        }
    }
}

/// An identity file holds the seed that was written to it in hexadecimal, whatever
/// white space stands around it, and no seed of another length. Text that is not
/// hexadecimal is none.
pub proof fn a_written_identity_is_read(
    seed: Seq<u8>,
    a: Seq<char>,
    b: Seq<char>,
    other: Seq<char>,
)
    requires
        forall|i: int| 0 <= i < a.len() ==> white(#[trigger] a[i]),
        forall|i: int| 0 <= i < b.len() ==> white(#[trigger] b[i]),
    ensures
        seed.len() == 32 ==> identity_in(a + hex_text(seed) + b) == Ok::<Seq<u8>, Seq<char>>(seed),
        seed.len() != 32 ==> identity_in(a + hex_text(seed) + b) == Err::<Seq<u8>, Seq<char>>(
            "identity key must be 32 bytes (64 hex chars)"@,
        ),
        hex_bytes(trimmed(other)) is None ==> identity_in(other) == Err::<Seq<u8>, Seq<char>>(
            "identity key is not valid hex"@,
        ),
{
    let t = hex_text(seed);
    hex_round_trip(seed);
    if t.len() > 0 {
        hex_is_read_in_either_case(t);
        assert('0' <= t[0] <= '9' || 'a' <= t[0] <= 'f' || 'A' <= t[0] <= 'F');
        assert('0' <= t[t.len() - 1] <= '9' || 'a' <= t[t.len() - 1] <= 'f' || 'A' <= t[t.len() - 1]
            <= 'F');
    }
    trimming_takes_off_white_space(a, t, b);
}

/// The credentials of a profile are the seed in its identity file and the first
/// certificate in its certificate file; where either cannot be had, there are none.
pub proof fn credentials_come_from_the_files(p: Profile)
    ensures
        credentials(p) matches Ok(c) ==> {
            &&& p.identity is Ok && identity_in(p.identity->Ok_0@) == Ok::<Seq<u8>, Seq<char>>(c.0)
            &&& p.server_cert is Ok && first_cert(p.server_cert->Ok_0@) == Some(
                Ok::<Seq<u8>, Seq<char>>(c.1),
            )
        },
        p.identity is Ok && p.server_cert is Ok ==> {
            let seed = identity_in(p.identity->Ok_0@);
            let cert = first_cert(p.server_cert->Ok_0@);
            &&& seed is Ok && cert is Some && cert->0 is Ok ==> credentials(p) == Ok::<
                (Seq<u8>, Seq<u8>),
                Seq<char>,
            >((seed->Ok_0, cert->0->Ok_0))
            &&& seed is Ok && cert is None ==> credentials(p) == Err::<(Seq<u8>, Seq<u8>), Seq<char>>(
                "no certificate in "@ + p.cert_path@,
            )
        },
{
}

} // verus!
