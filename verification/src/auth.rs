//! Who may drive the control surface: a challenge is signed with an ed25519 key,
//! and the key has to be an authorized one.

use crate::hex::{from_hex, hex_bytes, hex_round_trip, hex_text, to_hex};
use crate::json::{
    doc_text, escape_plain, escaped, flat_doc, flat_docs_are_read, members_text, parse_json,
    plain_fields, JsonView,
};
use crate::text::{ascii_lowercase, lowercase, texts, to_lowercase};
use vstd::bytes::{
    lemma_auto_spec_u64_to_from_le_bytes, spec_u64_to_le_bytes, u64_to_le_bytes,
};
use vstd::prelude::*;
use vstd::utf8::{encode_utf8, encode_utf8_decode_utf8, is_ascii_chars};

verus! {

// ---- the outside functions -------------------------------------------------

/// What SHA-256 makes of bytes.
pub uninterp spec fn sha256_of(bytes: Seq<u8>) -> Seq<u8>;

/// `sha2::Sha256::digest`: the SHA-256 digest, 32 bytes that depend on the given
/// bytes alone.
#[verifier::external_body]
pub(crate) fn sha256(bytes: &[u8]) -> (r: [u8; 32])
    ensures
        r@ == sha256_of(bytes@),
{
    <sha2::Sha256 as sha2::Digest>::digest(bytes).into()
}

/// Whether 32 bytes are an ed25519 public key.
pub uninterp spec fn valid_key(key: Seq<u8>) -> bool;

/// `ed25519_dalek::VerifyingKey::from_bytes`: whether the bytes are a public key,
/// that is, a point of the curve.
#[verifier::external_body]
fn is_key(key: &[u8; 32]) -> (r: bool)
    ensures
        r == valid_key(key@),
{
    ed25519_dalek::VerifyingKey::from_bytes(key).is_ok()
}

/// Whether a signature of a message is by a key.
pub uninterp spec fn signature_valid(key: Seq<u8>, message: Seq<u8>, sig: Seq<u8>) -> bool;

/// `ed25519_dalek::VerifyingKey::verify`: whether the signature of the message is
/// by the key; never, where the bytes are no key.
#[verifier::external_body]
fn verifies(key: &[u8; 32], message: &[u8], sig: &[u8; 64]) -> (r: bool)
    ensures
        r == signature_valid(key@, message@, sig@),
        r ==> valid_key(key@),
{
    match ed25519_dalek::VerifyingKey::from_bytes(key) {
        Ok(k) => ed25519_dalek::Verifier::verify(&k, message, &ed25519_dalek::Signature::from_bytes(sig)).is_ok(),
        Err(_) => false,
    }
}

/// The ed25519 public key that belongs to a seed.
pub uninterp spec fn public_of(seed: Seq<u8>) -> Seq<u8>;

/// `ed25519_dalek::SigningKey::verifying_key`: the public key that belongs to the
/// seed, which is a point of the curve.
#[verifier::external_body]
fn public_key(seed: &[u8; 32]) -> (r: [u8; 32])
    ensures
        r@ == public_of(seed@),
        valid_key(r@),
{
    ed25519_dalek::SigningKey::from_bytes(seed).verifying_key().to_bytes()
}

/// The ed25519 signature of a message with the key that belongs to a seed.
pub uninterp spec fn signature_of(seed: Seq<u8>, message: Seq<u8>) -> Seq<u8>;

/// `ed25519_dalek::SigningKey::sign`: the signature of the message, which depends
/// on seed and message alone, and which the public key verifies.
#[verifier::external_body]
fn sign(seed: &[u8; 32], message: &[u8]) -> (r: [u8; 64])
    ensures
        r@ == signature_of(seed@, message@),
        signature_valid(public_of(seed@), message@, r@),
{
    ed25519_dalek::Signer::sign(&ed25519_dalek::SigningKey::from_bytes(seed), message).to_bytes()
}

/// `ed25519_dalek::SigningKey::generate` with the system's source of randomness:
/// a fresh seed. Nothing is known of it. The call does not return where the
/// system has no randomness to give.
#[verifier::external_body]
fn random_seed() -> (r: [u8; 32]) {
    ed25519_dalek::SigningKey::generate(&mut rand::rngs::OsRng).to_bytes()
}

// ---- fixed lengths ---------------------------------------------------------

/// Bytes as an array of 32, where they are as many.
pub fn array32(bytes: &[u8]) -> (r: Option<[u8; 32]>)
    ensures
        match r {
            Some(a) => bytes@.len() == 32 && a@ == bytes@,
            None => bytes@.len() != 32,
        },
{
    if bytes.len() != 32 {
        return None;
    }
    let mut out: [u8; 32] = [0u8; 32];
    let mut i: usize = 0;
    while i < 32
        invariant
            i <= 32,
            bytes@.len() == 32,
            forall|k: int| 0 <= k < i ==> out@[k] == bytes@[k],
        decreases 32 - i,
    {
        out[i] = bytes[i];
        i += 1;
    }
    assert(out@ =~= bytes@);
    Some(out)
}

/// Bytes as an array of 64, where they are as many.
fn array64(bytes: &[u8]) -> (r: Option<[u8; 64]>)
    ensures
        match r {
            Some(a) => bytes@.len() == 64 && a@ == bytes@,
            None => bytes@.len() != 64,
        },
{
    if bytes.len() != 64 {
        return None;
    }
    let mut out: [u8; 64] = [0u8; 64];
    let mut i: usize = 0;
    while i < 64
        invariant
            i <= 64,
            bytes@.len() == 64,
            forall|k: int| 0 <= k < i ==> out@[k] == bytes@[k],
        decreases 64 - i,
    {
        out[i] = bytes[i];
        i += 1;
    }
    assert(out@ =~= bytes@);
    Some(out)
}

// ---- the challenge ---------------------------------------------------------

/// What a nonce is made from: the time, the number of the challenge, and the
/// connection.
pub open spec fn nonce_source(now: u64, counter: u64, conn: Seq<char>) -> Seq<u8> {
    spec_u64_to_le_bytes(now) + spec_u64_to_le_bytes(counter) + encode_utf8(conn)
}

/// The nonce for a connection. It is fresh, not secret: the server alone chooses
/// it, and each connection gets its own.
pub fn make_nonce(now: u64, counter: u64, conn: &str) -> (r: [u8; 32])
    ensures
        r@ == sha256_of(nonce_source(now, counter, conn@)),
{
    let mut source = u64_to_le_bytes(now);
    let mut count = u64_to_le_bytes(counter);
    let mut name = conn.as_bytes_vec();
    source.append(&mut count);
    source.append(&mut name);
    sha256(source.as_slice())
}

/// No two challenges come from one source: with the time or the count they
/// differ.
pub proof fn nonce_sources_differ(
    now: u64,
    counter: u64,
    conn: Seq<char>,
    other_now: u64,
    other_counter: u64,
    other_conn: Seq<char>,
)
    requires
        now != other_now || counter != other_counter,
    ensures
        nonce_source(now, counter, conn) != nonce_source(other_now, other_counter, other_conn),
{
    lemma_auto_spec_u64_to_from_le_bytes();
    let a = nonce_source(now, counter, conn);
    let b = nonce_source(other_now, other_counter, other_conn);
    assert(a.subrange(0, 8) =~= spec_u64_to_le_bytes(now));
    assert(a.subrange(8, 16) =~= spec_u64_to_le_bytes(counter));
    assert(b.subrange(0, 8) =~= spec_u64_to_le_bytes(other_now));
    assert(b.subrange(8, 16) =~= spec_u64_to_le_bytes(other_counter));
}

/// The object that carries a nonce.
pub open spec fn nonce_text(nonce: Seq<u8>) -> Seq<char> {
    "{\"nonce\":\""@ + hex_text(nonce) + "\"}"@
}

/// The line that challenges a client.
pub fn challenge(nonce: &[u8; 32]) -> (r: String)
    ensures
        r@ == nonce_text(nonce@) + "\n"@,
{
    let mut out = "{\"nonce\":\"".to_owned();
    out.append(to_hex(nonce.as_slice()).as_str());
    out.append("\"}");
    out.append("\n");
    out
}

/// Hexadecimal text needs no escaping.
proof fn hex_is_plain(bytes: Seq<u8>)
    ensures
        escaped(hex_text(bytes)) == hex_text(bytes),
{
    let t = hex_text(bytes);
    assert forall|i: int| 0 <= i < t.len() implies crate::json::esc(#[trigger] t[i]) == seq![t[i]] by {
        assert(0 <= bytes[i / 2] as int / 16 < 16);
        assert(0 <= bytes[i / 2] as int % 16 < 16);
    }
    escape_plain(t);
}

/// A text of small letters needs no escaping.
proof fn letters_are_plain(t: Seq<char>)
    requires
        forall|i: int| 0 <= i < t.len() ==> 'a' <= #[trigger] t[i] <= 'z',
    ensures
        escaped(t) == t,
{
    escape_plain(t);
}

/// The object that carries a nonce is an object with that one text.
proof fn nonce_text_is_flat(nonce: Seq<u8>)
    ensures
        nonce_text(nonce) == doc_text(flat_doc(seq![("nonce"@, hex_text(nonce))])),
        plain_fields(seq![("nonce"@, hex_text(nonce))]),
{
    let fields = seq![("nonce"@, hex_text(nonce))];
    let entries = flat_doc(fields)->Object_0;
    hex_is_plain(nonce);
    reveal_strlit("nonce");
    reveal_strlit("{\"nonce\":\"");
    reveal_strlit("\"}");
    reveal_strlit("{");
    reveal_strlit("}");
    reveal_strlit("\"");
    reveal_strlit("\":");
    letters_are_plain("nonce"@);
    assert(fields[0].0 == "nonce"@);
    assert(entries.len() == 1 && entries[0] == ("nonce"@, JsonView::Text(hex_text(nonce))));
    reveal_with_fuel(doc_text, 3);
    reveal_with_fuel(members_text, 3);
    assert(nonce_text(nonce) =~= doc_text(flat_doc(fields)));
}

/// The nonce in a document: 32 bytes in hexadecimal.
pub open spec fn nonce_in(hex: Option<Seq<char>>) -> Option<Seq<u8>> {
    match hex {
        Some(h) => match hex_bytes(h) {
            Some(b) => if b.len() == 32 {
                Some(b)
            } else {
                None
            },
            None => None,
        },
        None => None,
    }
}

/// Reads the nonce from the text that a challenge carries.
pub fn nonce_of(hex: Option<String>) -> (r: Option<[u8; 32]>)
    ensures
        match r {
            Some(n) => nonce_in(crate::datum::found(hex)) == Some(n@),
            None => nonce_in(crate::datum::found(hex)) is None,
        },
{
    match hex {
        Some(h) => match from_hex(h.as_str()) {
            Some(b) => array32(b.as_slice()),
            None => None,
        },
        None => None,
    }
}

/// The text that the document in a line carries under a key.
pub open spec fn text_in_line(line: Seq<u8>, key: Seq<char>) -> Option<Seq<char>> {
    match crate::json::parsed(line) {
        Ok(v) => v.text_at(key),
        Err(_) => None,
    }
}

/// Reads the nonce from a challenge. What a server sends as its challenge is read
/// as the nonce that it has made.
pub fn parse_nonce(line: &[u8]) -> (r: Option<[u8; 32]>)
    ensures
        match r {
            Some(n) => nonce_in(text_in_line(line@, "nonce"@)) == Some(n@),
            None => nonce_in(text_in_line(line@, "nonce"@)) is None,
        },
        forall|nonce: Seq<u8>|
            nonce.len() == 32 && line@ == encode_utf8(#[trigger] nonce_text(nonce)) ==> r is Some
                && r->0@ == nonce,
{
    let doc = parse_json(line);
    proof {
        assert forall|nonce: Seq<u8>|
            nonce.len() == 32 && line@ == encode_utf8(#[trigger] nonce_text(nonce)) implies nonce_in(
            text_in_line(line@, "nonce"@),
        ) == Some(nonce) by {
            let fields = seq![("nonce"@, hex_text(nonce))];
            nonce_text_is_flat(nonce);
            flat_docs_are_read(fields);
            assert(line@ == encode_utf8(doc_text(flat_doc(fields))));
            assert(doc is Ok);
            assert(doc->Ok_0@.get(fields[0].0) == Some(
                JsonView::Text(hex_text(nonce)),
            ));
            hex_round_trip(nonce);
        }
    }
    match doc {
        Ok(j) => nonce_of(j.text_at("nonce")),
        Err(_) => None,
    }
}

// ---- the answer ------------------------------------------------------------

/// What a client answers to a challenge.
pub struct AuthMsg {
    /// The public key, in hexadecimal.
    pub pubkey: String,
    /// The signature of the nonce, in hexadecimal.
    pub sig: String,
}

/// Whether a key is on a list, whatever the case of its digits.
pub open spec fn authorized(keys: Seq<Seq<char>>, pubkey: Seq<char>) -> bool {
    exists|i: int| 0 <= i < keys.len() && lowercase(#[trigger] keys[i]) == lowercase(pubkey)
}

/// The verdict on an answer, from what is known of key and signature: the first
/// that is wrong is named.
pub open spec fn verdict(
    listed: bool,
    key: Option<Seq<u8>>,
    key_ok: bool,
    sig: Option<Seq<u8>>,
    sig_ok: bool,
    who: Seq<char>,
) -> Result<Seq<char>, Seq<char>> {
    if !listed {
        Err("unauthorized key"@)
    } else if key is None {
        Err("bad pubkey hex"@)
    } else if key->0.len() != 32 {
        Err("pubkey must be 32 bytes"@)
    } else if !key_ok {
        Err("invalid pubkey"@)
    } else if sig is None {
        Err("bad sig hex"@)
    } else if sig->0.len() != 64 {
        Err("sig must be 64 bytes"@)
    } else if !sig_ok {
        Err("signature mismatch"@)
    } else {
        Ok(who)
    }
}

/// Bytes that may be missing, by their view.
pub open spec fn bytes_view(b: Option<Vec<u8>>) -> Option<Seq<u8>> {
    match b {
        Some(v) => Some(v@),
        None => None,
    }
}

/// The verdict on an answer, from what is known of key and signature.
pub fn judge_auth(
    listed: bool,
    key: &Option<Vec<u8>>,
    key_ok: bool,
    sig: &Option<Vec<u8>>,
    sig_ok: bool,
    who: String,
) -> (r: Result<String, String>)
    ensures
        crate::datum::text_result(r) == verdict(
            listed,
            bytes_view(*key),
            key_ok,
            bytes_view(*sig),
            sig_ok,
            who@,
        ),
{
    if !listed {
        return Err("unauthorized key".to_owned());
    }
    match key {
        None => {
            return Err("bad pubkey hex".to_owned());
        },
        Some(k) => {
            if k.len() != 32 {
                return Err("pubkey must be 32 bytes".to_owned());
            }
        },
    }
    if !key_ok {
        return Err("invalid pubkey".to_owned());
    }
    match sig {
        None => {
            return Err("bad sig hex".to_owned());
        },
        Some(s) => {
            if s.len() != 64 {
                return Err("sig must be 64 bytes".to_owned());
            }
        },
    }
    if !sig_ok {
        return Err("signature mismatch".to_owned());
    }
    Ok(who)
}

/// The verdict on an answer to a challenge.
pub open spec fn auth_verdict(
    keys: Seq<Seq<char>>,
    pubkey: Seq<char>,
    nonce: Seq<u8>,
    sig: Seq<char>,
) -> Result<Seq<char>, Seq<char>> {
    verdict(
        authorized(keys, pubkey),
        hex_bytes(pubkey),
        valid_key(hex_bytes(pubkey)->0),
        hex_bytes(sig),
        signature_valid(hex_bytes(pubkey)->0, nonce, hex_bytes(sig)->0),
        lowercase(pubkey),
    )
}

/// Whether a key in ASCII is on a list in ASCII, whatever the case of its letters.
pub open spec fn ascii_authorized(keys: Seq<Seq<char>>, pubkey: Seq<char>) -> bool {
    exists|i: int|
        0 <= i < keys.len() && ascii_lowercase(#[trigger] keys[i]) == ascii_lowercase(pubkey)
}

/// Whether every key on a list is in ASCII.
pub open spec fn all_ascii(keys: Seq<Seq<char>>) -> bool {
    forall|i: int| 0 <= i < keys.len() ==> is_ascii_chars(#[trigger] keys[i])
}

/// Verifies an answer: the key has to be an authorized one, and the signature of
/// the nonce has to be by it. Gives the key, or why not.
pub fn verify_auth(keys: &Vec<String>, pubkey: &str, nonce: &[u8], sig: &str) -> (r: Result<
    String,
    String,
>)
    ensures
        crate::datum::text_result(r) == auth_verdict(texts(keys@), pubkey@, nonce@, sig@),
        is_ascii_chars(pubkey@) && all_ascii(texts(keys@)) ==> authorized(texts(keys@), pubkey@)
            == ascii_authorized(texts(keys@), pubkey@),
        is_ascii_chars(pubkey@) && r is Ok ==> r->Ok_0@ == ascii_lowercase(pubkey@),
{
    let who = to_lowercase(pubkey);
    let mut listed: bool = false;
    let mut i: usize = 0;
    while i < keys.len()
        invariant
            i <= keys@.len(),
            who@ == lowercase(pubkey@),
            !listed ==> forall|k: int| 0 <= k < i ==> lowercase(#[trigger] texts(keys@)[k]) != who@,
            listed ==> authorized(texts(keys@), pubkey@),
            forall|k: int|
                0 <= k < i && is_ascii_chars(#[trigger] texts(keys@)[k]) ==> lowercase(
                    texts(keys@)[k],
                ) == ascii_lowercase(texts(keys@)[k]),
        decreases keys@.len() - i,
    {
        let key = to_lowercase(keys[i].as_str());
        if key == who {
            assert(lowercase(texts(keys@)[i as int]) == lowercase(pubkey@));
            listed = true;
        }
        i += 1;
    }
    let key = from_hex(pubkey);
    let signature = from_hex(sig);
    let mut key_ok: bool = false;
    let mut sig_ok: bool = false;
    match &key {
        Some(k) => match array32(k.as_slice()) {
            Some(k) => {
                key_ok = is_key(&k);
                match &signature {
                    Some(s) => match array64(s.as_slice()) {
                        Some(s) => {
                            sig_ok = verifies(&k, nonce, &s);
                        },
                        None => {},
                    },
                    None => {},
                }
            },
            None => {},
        },
        None => {},
    }
    judge_auth(listed, &key, key_ok, &signature, sig_ok, who)
}

/// Answers a challenge with the key that belongs to a seed. A server that has
/// authorized the key accepts the answer.
pub fn auth_answer(seed: &[u8; 32], nonce: &[u8]) -> (r: AuthMsg)
    ensures
        r.pubkey@ == hex_text(public_of(seed@)),
        r.sig@ == hex_text(signature_of(seed@, nonce@)),
        forall|keys: Seq<Seq<char>>|
            keys.contains(r.pubkey@) ==> #[trigger] auth_verdict(keys, r.pubkey@, nonce@, r.sig@) == Ok::<
                Seq<char>,
                Seq<char>,
            >(lowercase(r.pubkey@)),
{
    let key = public_key(seed);
    let sig = sign(seed, nonce);
    let out = AuthMsg { pubkey: to_hex(key.as_slice()), sig: to_hex(sig.as_slice()) };
    proof {
        hex_round_trip(key@);
        hex_round_trip(sig@);
        assert forall|keys: Seq<Seq<char>>| keys.contains(out.pubkey@) implies #[trigger] auth_verdict(
            keys,
            out.pubkey@,
            nonce@,
            out.sig@,
        ) == Ok::<Seq<char>, Seq<char>>(lowercase(out.pubkey@)) by {
            let i = choose|i: int| 0 <= i < keys.len() && keys[i] == out.pubkey@;
            assert(lowercase(keys[i]) == lowercase(out.pubkey@));
        }
    }
    out
}

/// The object that carries an answer.
pub open spec fn auth_text(pubkey: Seq<char>, sig: Seq<char>) -> Seq<char> {
    "{\"pubkey\":\""@ + pubkey + "\",\"sig\":\""@ + sig + "\"}"@
}

impl AuthMsg {
    /// The line that carries the answer.
    pub fn line(&self) -> (r: String)
        ensures
            r@ == auth_text(self.pubkey@, self.sig@) + "\n"@,
    {
        let mut out = "{\"pubkey\":\"".to_owned();
        out.append(self.pubkey.as_str());
        out.append("\",\"sig\":\"");
        out.append(self.sig.as_str());
        out.append("\"}");
        out.append("\n");
        out
    }
}

/// Nothing but a listed key with its own signature of this very nonce passes.
pub proof fn only_the_authorized_pass(
    keys: Seq<Seq<char>>,
    pubkey: Seq<char>,
    nonce: Seq<u8>,
    sig: Seq<char>,
)
    requires
        auth_verdict(keys, pubkey, nonce, sig) is Ok,
    ensures
        exists|i: int| 0 <= i < keys.len() && lowercase(#[trigger] keys[i]) == lowercase(pubkey),
        hex_bytes(pubkey) is Some && valid_key(hex_bytes(pubkey)->0),
        hex_bytes(sig) is Some && signature_valid(hex_bytes(pubkey)->0, nonce, hex_bytes(sig)->0),
        auth_verdict(keys, pubkey, nonce, sig)->Ok_0 == lowercase(pubkey),
{
}

/// With no key authorized, none passes.
pub proof fn no_keys_no_entry(pubkey: Seq<char>, nonce: Seq<u8>, sig: Seq<char>)
    ensures
        auth_verdict(Seq::empty(), pubkey, nonce, sig) == Err::<Seq<char>, Seq<char>>(
            "unauthorized key"@,
        ),
{
}

// ---- identities ------------------------------------------------------------

/// The identity that belongs to a seed: seed and public key, in hexadecimal.
pub fn identity_of(seed: &[u8; 32]) -> (r: (String, String))
    ensures
        r.0@ == hex_text(seed@),
        r.1@ == hex_text(public_of(seed@)),
{
    (to_hex(seed.as_slice()), to_hex(public_key(seed).as_slice()))
}

/// A fresh identity: a seed and its public key, in hexadecimal.
pub fn generate_identity() -> (r: (String, String))
    ensures
        exists|seed: [u8; 32]|
            r.0@ == hex_text(#[trigger] seed@) && r.1@ == hex_text(public_of(seed@)),
{
    let seed = random_seed();
    identity_of(&seed)
}

// ---- who gets in -----------------------------------------------------------

/// An answer passes just where its key is on the list, whatever the case of its
/// digits, spells 32 bytes that are a key, and its signature spells 64 bytes that are
/// that key's signature of the nonce.
pub proof fn who_is_admitted(
    keys: Seq<Seq<char>>,
    pubkey: Seq<char>,
    nonce: Seq<u8>,
    sig: Seq<char>,
)
    ensures
        auth_verdict(keys, pubkey, nonce, sig) is Ok <==> {
            let key = hex_bytes(pubkey);
            let signature = hex_bytes(sig);
            &&& exists|i: int| 0 <= i < keys.len() && lowercase(#[trigger] keys[i]) == lowercase(pubkey)
            &&& key is Some && key->0.len() == 32 && valid_key(key->0)
            &&& signature is Some && signature->0.len() == 64 && signature_valid(
                key->0,
                nonce,
                signature->0,
            )
        },
        auth_verdict(keys, pubkey, nonce, sig) matches Ok(who) ==> who == lowercase(pubkey),
{
}

/// Who is turned away is told the first thing that is wrong: first the list is looked
/// at, then the key, then the signature.
pub proof fn why_a_client_is_refused(
    keys: Seq<Seq<char>>,
    pubkey: Seq<char>,
    nonce: Seq<u8>,
    sig: Seq<char>,
)
    ensures
        ({
            let v = auth_verdict(keys, pubkey, nonce, sig);
            let listed = exists|i: int|
                0 <= i < keys.len() && lowercase(#[trigger] keys[i]) == lowercase(pubkey);
            let key = hex_bytes(pubkey);
            let signature = hex_bytes(sig);
            &&& !listed ==> v == Err::<Seq<char>, Seq<char>>("unauthorized key"@)
            &&& listed && key is None ==> v == Err::<Seq<char>, Seq<char>>("bad pubkey hex"@)
            &&& listed && key is Some && key->0.len() != 32 ==> v == Err::<Seq<char>, Seq<char>>(
                "pubkey must be 32 bytes"@,
            )
            &&& listed && key is Some && key->0.len() == 32 ==> {
                &&& !valid_key(key->0) ==> v == Err::<Seq<char>, Seq<char>>("invalid pubkey"@)
                &&& valid_key(key->0) ==> {
                    &&& signature is None ==> v == Err::<Seq<char>, Seq<char>>("bad sig hex"@)
                    &&& signature is Some && signature->0.len() != 64 ==> v == Err::<
                        Seq<char>,
                        Seq<char>,
                    >("sig must be 64 bytes"@)
                    &&& signature is Some && signature->0.len() == 64 && !signature_valid(
                        key->0,
                        nonce,
                        signature->0,
                    ) ==> v == Err::<Seq<char>, Seq<char>>("signature mismatch"@)
                }
            }
        }),
{
}

/// Two connections never get their nonce from one source, even at one time and under
/// one count.
pub proof fn connections_have_their_own_source(
    now: u64,
    counter: u64,
    conn: Seq<char>,
    other: Seq<char>,
)
    requires
        conn != other,
    ensures
        nonce_source(now, counter, conn) != nonce_source(now, counter, other),
{
    lemma_auto_spec_u64_to_from_le_bytes();
    let a = nonce_source(now, counter, conn);
    let b = nonce_source(now, counter, other);
    encode_utf8_decode_utf8(conn);
    encode_utf8_decode_utf8(other);
    assert(a.skip(16) =~= encode_utf8(conn));
    assert(b.skip(16) =~= encode_utf8(other));
}

/// A challenge is a JSON object that carries the nonce, and an answer one that carries
/// the key and the signature; the bytes of each can be had back.
pub proof fn challenge_and_answer_are_json(nonce: Seq<u8>, key: Seq<u8>, sig: Seq<u8>)
    ensures
        nonce_text(nonce) == doc_text(
            JsonView::Object(seq![("nonce"@, JsonView::Text(hex_text(nonce)))]),
        ),
        auth_text(hex_text(key), hex_text(sig)) == doc_text(
            JsonView::Object(
                seq![
                    ("pubkey"@, JsonView::Text(hex_text(key))),
                    ("sig"@, JsonView::Text(hex_text(sig))),
                ],
            ),
        ),
        nonce.len() == 32 ==> nonce_in(Some(hex_text(nonce))) == Some(nonce),
        nonce.len() != 32 ==> nonce_in(Some(hex_text(nonce))) is None,
        nonce_in(None) is None,
{
    nonce_text_is_flat(nonce);
    assert(flat_doc(seq![("nonce"@, hex_text(nonce))])->Object_0 =~= seq![
        ("nonce"@, JsonView::Text(hex_text(nonce))),
    ]);
    hex_round_trip(nonce);
    answer_is_flat(key, sig);
}

/// The object that carries an answer is an object with the two texts.
#[verifier::spinoff_prover]
#[verifier::rlimit(30)]
proof fn answer_is_flat(key: Seq<u8>, sig: Seq<u8>)
    ensures
        auth_text(hex_text(key), hex_text(sig)) == doc_text(
            JsonView::Object(
                seq![
                    ("pubkey"@, JsonView::Text(hex_text(key))),
                    ("sig"@, JsonView::Text(hex_text(sig))),
                ],
            ),
        ),
{
    hex_is_plain(key);
    hex_is_plain(sig);
    let k = JsonView::Text(hex_text(key));
    let v = JsonView::Text(hex_text(sig));
    let one = seq![("pubkey"@, k)];
    let two = seq![("pubkey"@, k), ("sig"@, v)];
    let q = "\""@;
    assert(two.drop_last() =~= one);
    assert(two[1] == ("sig"@, v));
    assert(one[0] == ("pubkey"@, k));
    let first = "\""@ + "pubkey"@ + "\":"@ + (q + hex_text(key) + q);
    assert(doc_text(k) == q + hex_text(key) + q);
    assert(doc_text(v) == q + hex_text(sig) + q);
    reveal_with_fuel(members_text, 2);
    assert(members_text(one) == first);
    assert(members_text(two) == first + ",\""@ + "sig"@ + "\":"@ + (q + hex_text(sig) + q));
    assert("{"@ + q + "pubkey"@ + "\":"@ + q =~= "{\"pubkey\":\""@) by {
        reveal_strlit("{");
        reveal_strlit("\"");
        reveal_strlit("pubkey");
        reveal_strlit("\":");
        reveal_strlit("{\"pubkey\":\"");
    }
    assert(q + ",\""@ + "sig"@ + "\":"@ + q =~= "\",\"sig\":\""@) by {
        reveal_strlit("\"");
        reveal_strlit(",\"");
        reveal_strlit("sig");
        reveal_strlit("\":");
        reveal_strlit("\",\"sig\":\"");
    }
    assert(q + "}"@ =~= "\"}"@) by {
        reveal_strlit("\"");
        reveal_strlit("}");
        reveal_strlit("\"}");
    }
    let whole = "{"@ + members_text(two) + "}"@;
    assert(whole =~= ("{"@ + q + "pubkey"@ + "\":"@ + q) + hex_text(key) + (q + ",\""@ + "sig"@
        + "\":"@ + q) + hex_text(sig) + (q + "}"@));
}

} // verus!
