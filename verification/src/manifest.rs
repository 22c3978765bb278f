//! The supervisor's own manifest, generated around a roster: the roster becomes
//! the initial state, and only the handlers and permissions that it needs are
//! granted.

use crate::json::{
    compact, entry, float_free, in_key_order, json_text, json_view, parse_json, parsed, reads_back, tidy,
    tidy_deeper, write_json, Json, JsonView, DEPTH_MAX,
};
use crate::text::{
    a_prefix_is_taken_off, a_stop_cuts, before, behind, contains, cut, join, joined, joined_parts_stand_apart,
    joining_puts_behind, less, occurs, same, strip_prefix, text_less,
    text_order_total, text_order_transitive, texts,
};
use vstd::prelude::*;
use vstd::utf8::encode_utf8;

verus! {

/// A path that was given, and where it leads or why it leads nowhere.
pub struct Place {
    pub given: String,
    pub found: Result<String, String>,
}

/// What a manifest is generated from.
pub struct GenManifest {
    /// The text of the roster.
    pub roster: String,
    /// The supervisor's wasm, where it is not the built-in one.
    pub wasm: Option<Place>,
    /// The directory that services may record to.
    pub record_dir: Option<Place>,
    /// The control surface's port, where it is to be opened.
    pub control_port: Option<u16>,
    /// The interface that the control surface binds.
    pub control_bind: Option<String>,
    /// The keys that may drive the control surface.
    pub authorized_keys: Vec<String>,
    /// The server's certificate and key.
    pub tls: Option<(Place, Place)>,
}

// ---- where a manifest comes from -------------------------------------------

/// Where the manifest to run comes from.
pub enum ManifestSource {
    /// It is this file.
    Written(String),
    /// It is generated around the roster in this file.
    Generated(String),
}

/// Where the manifest to run comes from: a manifest that is given goes before a
/// roster.
pub fn manifest_source(manifest: Option<String>, roster: Option<String>) -> (r: Result<
    ManifestSource,
    String,
>)
    ensures
        match r {
            Ok(ManifestSource::Written(path)) => manifest == Some(path),
            Ok(ManifestSource::Generated(path)) => manifest is None && roster == Some(path),
            Err(e) => {
                &&& manifest is None
                &&& roster is None
                &&& e@ == "give a roster file, or --manifest <path>"@
            },
        },
{
    match (manifest, roster) {
        (Some(path), _) => Ok(ManifestSource::Written(path)),
        (None, Some(path)) => Ok(ManifestSource::Generated(path)),
        (None, None) => Err("give a roster file, or --manifest <path>".to_owned()),
    }
}

/// What the server shows and holds: a certificate without a key is none, nor is a key
/// without a certificate.
pub fn tls_pair(cert: Option<Place>, key: Option<Place>) -> (r: Option<(Place, Place)>)
    ensures
        r == (match (cert, key) {
            (Some(c), Some(k)) => Some((c, k)),
            _ => None,
        }),
{
    match (cert, key) {
        (Some(c), Some(k)) => Some((c, k)),
        _ => None,
    }
}

// ---- hosts -----------------------------------------------------------------

/// The host in a URL: what stands between the scheme and the first slash,
/// question mark, hash or colon.
pub open spec fn host_in(url: Seq<char>) -> Option<Seq<char>> {
    let rest = match behind(url, "http://"@) {
        Some(r) => Some(r),
        None => behind(url, "https://"@),
    };
    match rest {
        Some(r) => {
            let host = before(before(r, seq!['/', '?', '#']), seq![':']);
            if host.len() > 0 {
                Some(host)
            } else {
                None
            }
        },
        None => None,
    }
}

/// The host in a URL.
pub fn url_host(url: &str) -> (r: Option<String>)
    ensures
        crate::datum::found(r) == host_in(url@),
{
    let rest = match strip_prefix(url, "http://") {
        Some(r) => r,
        None => match strip_prefix(url, "https://") {
            Some(r) => r,
            None => {
                return None;
            },
        },
    };
    let stops: [char; 3] = ['/', '?', '#'];
    let colon: [char; 1] = [':'];
    assert(stops@ =~= seq!['/', '?', '#']);
    assert(colon@ =~= seq![':']);
    let authority = cut(rest.as_str(), stops.as_slice());
    let host = cut(authority.as_str(), colon.as_slice());
    if host.as_str().unicode_len() > 0 {
        Some(host)
    } else {
        None
    }
}

/// The kind of sink that a declared service records to.
pub open spec fn record_kind(svc: JsonView) -> Option<Seq<char>> {
    match svc.get("record"@) {
        Some(rec) => rec.text_at("kind"@),
        None => None,
    }
}

/// The host that a declared service records to.
pub open spec fn record_host(svc: JsonView) -> Option<Seq<char>> {
    match svc.get("record"@) {
        Some(rec) => if rec.text_at("kind"@) == Some("http"@) {
            match rec.text_at("url"@) {
                Some(url) => host_in(url),
                None => None,
            }
        } else {
            None
        },
        None => None,
    }
}

/// The hosts that declared services record to, each once, in the order in which
/// they come first.
pub open spec fn hosts(services: Seq<JsonView>) -> Seq<Seq<char>>
    decreases services.len(),
{
    if services.len() == 0 {
        Seq::empty()
    } else {
        let front = hosts(services.drop_last());
        match record_host(services.last()) {
            Some(h) => if front.contains(h) {
                front
            } else {
                front.push(h)
            },
            None => front,
        }
    }
}

/// Whether a declared service records to a file.
pub open spec fn needs_file(services: Seq<JsonView>) -> bool {
    exists|i: int| 0 <= i < services.len() && record_kind(#[trigger] services[i]) == Some("file"@)
}

/// The services that a document declares.
pub open spec fn declared(v: JsonView) -> Seq<JsonView> {
    match v.get("services"@) {
        Some(JsonView::Array(items)) => items,
        _ => Seq::empty(),
    }
}

/// What declared services need.
pub struct Needs {
    /// The hosts that are recorded to.
    pub hosts: Vec<String>,
    /// Whether a file is recorded to.
    pub file: bool,
}

/// The host that a declared service records to.
fn record_host_of(svc: &Json) -> (r: Option<String>)
    ensures
        crate::datum::found(r) == record_host(svc@),
{
    match svc.get("record") {
        Some(rec) => match rec.text_at("kind") {
            Some(k) => if same(k.as_str(), "http") {
                match rec.text_at("url") {
                    Some(url) => url_host(url.as_str()),
                    None => None,
                }
            } else {
                None
            },
            None => None,
        },
        None => None,
    }
}

/// Whether a declared service records to a file.
fn records_to_file(svc: &Json) -> (r: bool)
    ensures
        r == (record_kind(svc@) == Some("file"@)),
{
    match svc.get("record") {
        Some(rec) => match rec.text_at("kind") {
            Some(k) => same(k.as_str(), "file"),
            None => false,
        },
        None => false,
    }
}

/// Whether a text is in a list.
fn listed(list: &Vec<String>, s: &str) -> (r: bool)
    ensures
        r == texts(list@).contains(s@),
{
    let mut i: usize = 0;
    while i < list.len()
        invariant
            i <= list@.len(),
            forall|k: int| 0 <= k < i ==> #[trigger] texts(list@)[k] != s@,
        decreases list@.len() - i,
    {
        assert(texts(list@)[i as int] == list@[i as int]@);
        if same(list[i].as_str(), s) {
            return true;
        }
        i += 1;
    }
    false
}

/// What the services that a document declares need.
pub fn needs_of(doc: &Json) -> (r: Needs)
    ensures
        texts(r.hosts@) == hosts(declared(doc@)),
        r.file == needs_file(declared(doc@)),
{
    let mut found: Vec<String> = Vec::new();
    let mut file: bool = false;
    assert(texts(found@) =~= Seq::empty());
    match doc.get("services") {
        Some(Json::Array(items)) => {
            let ghost all = declared(doc@);
            proof {
                reveal_with_fuel(json_view, 3);
                assert(all.len() == items@.len());
                assert(all.take(0) =~= Seq::empty());
            }
            let mut i: usize = 0;
            while i < items.len()
                invariant
                    i <= items@.len(),
                    all.len() == items@.len(),
                    forall|k: int| 0 <= k < items@.len() ==> #[trigger] all[k] == items@[k]@,
                    texts(found@) == hosts(all.take(i as int)),
                    file == exists|k: int|
                        0 <= k < i && record_kind(#[trigger] all[k]) == Some("file"@),
                decreases items@.len() - i,
            {
                assert(all.take(i + 1).drop_last() =~= all.take(i as int));
                assert(all.take(i + 1).last() == items@[i as int]@);
                assert(all[i as int] == items@[i as int]@);
                match record_host_of(&items[i]) {
                    Some(h) => {
                        if !listed(&found, h.as_str()) {
                            let ghost before = texts(found@);
                            found.push(h);
                            assert(texts(found@) =~= before.push(h@));
                        }
                    },
                    None => {},
                }
                if records_to_file(&items[i]) {
                    file = true;
                }
                i += 1;
            }
            assert(all.take(i as int) =~= all);
            Needs { hosts: found, file }
        },
        _ => Needs { hosts: found, file },
    }
}

// ---- the control surface ---------------------------------------------------

/// Entries with one set: in its place by the order of keys, instead of one with
/// the same key.
pub open spec fn put(
    entries: Seq<(Seq<char>, JsonView)>,
    key: Seq<char>,
    value: JsonView,
) -> Seq<(Seq<char>, JsonView)>
    decreases entries.len(),
{
    if entries.len() == 0 {
        seq![(key, value)]
    } else if text_less(entries[0].0, key) {
        seq![entries[0]] + put(entries.drop_first(), key, value)
    } else if entries[0].0 == key {
        seq![(key, value)] + entries.drop_first()
    } else {
        seq![(key, value)] + entries
    }
}

/// The declaration of a control surface.
pub open spec fn control_object(
    port: u16,
    bind: Option<Seq<char>>,
    keys: Seq<Seq<char>>,
) -> JsonView {
    JsonView::Object(
        (if keys.len() > 0 {
            seq![
                (
                    "authorized_keys"@,
                    JsonView::Array(keys.map_values(|k: Seq<char>| JsonView::Text(k))),
                ),
            ]
        } else {
            Seq::empty()
        }) + (match bind {
            Some(b) => seq![("bind"@, JsonView::Text(b))],
            None => Seq::empty(),
        }) + seq![("port"@, JsonView::Uint(port as u64))],
    )
}

/// A text that may be missing, by its view.
pub open spec fn text_view(s: Option<String>) -> Option<Seq<char>> {
    match s {
        Some(s) => Some(s@),
        None => None,
    }
}

/// A roster with the control surface that is to be opened. Only an object can
/// declare one.
pub open spec fn with_control(v: JsonView, g: GenManifest) -> JsonView {
    match (g.control_port, v) {
        (Some(port), JsonView::Object(entries)) => JsonView::Object(
            put(
                entries,
                "control"@,
                control_object(port, text_view(g.control_bind), texts(g.authorized_keys@)),
            ),
        ),
        _ => v,
    }
}

/// Setting an entry before which some come: they stay in front.
proof fn put_behind(
    entries: Seq<(Seq<char>, JsonView)>,
    key: Seq<char>,
    value: JsonView,
    n: int,
)
    requires
        0 <= n <= entries.len(),
        forall|i: int| 0 <= i < n ==> text_less((#[trigger] entries[i]).0, key),
    ensures
        put(entries, key, value) == entries.take(n) + put(entries.skip(n), key, value),
    decreases n,
{
    if n == 0 {
        assert(entries.skip(0) =~= entries);
        assert(entries.take(0) + put(entries, key, value) =~= put(entries, key, value));
    } else {
        let rest = entries.drop_first();
        assert(text_less(entries[0].0, key));
        assert forall|i: int| 0 <= i < n - 1 implies text_less((#[trigger] rest[i]).0, key) by {
            assert(rest[i] == entries[i + 1]);
        }
        put_behind(rest, key, value, n - 1);
        assert(rest.skip(n - 1) =~= entries.skip(n));
        assert(seq![entries[0]] + rest.take(n - 1) =~= entries.take(n));
        assert(put(entries, key, value) =~= entries.take(n) + put(entries.skip(n), key, value));
    }
}

/// Sets an entry.
fn set_entry(entries: &mut Vec<(String, Json)>, key: &str, value: Json)
    ensures
        json_view(Json::Object(*final(entries))) == JsonView::Object(
            put(json_view(Json::Object(*old(entries)))->Object_0, key@, value@),
        ),
{
    let ghost all = json_view(Json::Object(*entries))->Object_0;
    let ghost given = entries@;
    let mut n: usize = 0;
    while n < entries.len() && less(entries[n].0.as_str(), key)
        invariant
            n <= entries@.len(),
            entries@ == given,
            all == json_view(Json::Object(*entries))->Object_0,
            forall|i: int| 0 <= i < n ==> text_less((#[trigger] all[i]).0, key@),
        decreases entries@.len() - n,
    {
        assert(all[n as int].0 == entries@[n as int].0@);
        n += 1;
    }
    proof {
        put_behind(all, key@, value@, n as int);
        if n < all.len() {
            assert(all.skip(n as int)[0] == all[n as int]);
            assert(all[n as int].0 == entries@[n as int].0@);
        }
    }
    let replaces: bool = n < entries.len() && same(entries[n].0.as_str(), key);
    if replaces {
        entries.remove(n);
    }
    entries.insert(n, (key.to_owned(), value));
    proof {
        let now = json_view(Json::Object(*entries))->Object_0;
        if replaces {
            assert(now =~= all.take(n as int) + (seq![(key@, value@)] + all.skip(n as int).drop_first()));
        } else if n < all.len() {
            assert(now =~= all.take(n as int) + (seq![(key@, value@)] + all.skip(n as int)));
        } else {
            assert(all.skip(n as int) =~= Seq::empty());
            assert(now =~= all.take(n as int) + seq![(key@, value@)]);
        }
    }
}

/// A copy of texts, each as a document.
fn text_items(list: &Vec<String>) -> (r: Vec<Json>)
    ensures
        json_view(Json::Array(r)) == JsonView::Array(
            texts(list@).map_values(|k: Seq<char>| JsonView::Text(k)),
        ),
{
    let mut out: Vec<Json> = Vec::new();
    let mut i: usize = 0;
    while i < list.len()
        invariant
            i <= list@.len(),
            out@.len() == i,
            forall|k: int| 0 <= k < i ==> #[trigger] out@[k]@ == JsonView::Text(list@[k]@),
        decreases list@.len() - i,
    {
        out.push(Json::Text(list[i].clone()));
        i += 1;
    }
    proof {
        let items = json_view(Json::Array(out))->Array_0;
        assert forall|k: int| 0 <= k < items.len() implies items[k] == JsonView::Text(
            #[trigger] texts(list@)[k],
        ) by {
            assert(out@[k]@ == JsonView::Text(list@[k]@));
        }
        assert(items =~= texts(list@).map_values(|k: Seq<char>| JsonView::Text(k)));
    }
    out
}

/// The declaration of a control surface.
pub fn control_json(port: u16, bind: &Option<String>, keys: &Vec<String>) -> (r: Json)
    ensures
        r@ == control_object(port, text_view(*bind), texts(keys@)),
{
    let mut entries: Vec<(String, Json)> = Vec::new();
    let ghost mut want: Seq<(Seq<char>, JsonView)> = Seq::empty();
    assert(json_view(Json::Object(entries))->Object_0 =~= want);
    if keys.len() > 0 {
        let items = Json::Array(text_items(keys));
        entries.push(("authorized_keys".to_owned(), items));
        proof {
            want = seq![("authorized_keys"@, items@)];
            assert(json_view(Json::Object(entries))->Object_0 =~= want);
        }
    }
    match bind {
        Some(b) => {
            let ghost front = json_view(Json::Object(entries))->Object_0;
            entries.push(("bind".to_owned(), Json::Text(b.clone())));
            proof {
                want = want + seq![("bind"@, JsonView::Text(b@))];
                reveal_with_fuel(json_view, 3);
                assert(json_view(Json::Object(entries))->Object_0 =~= want);
            }
        },
        None => {
            assert(want + Seq::<(Seq<char>, JsonView)>::empty() =~= want);
        },
    }
    entries.push(("port".to_owned(), Json::Uint(port as u64)));
    let out = Json::Object(entries);
    proof {
        reveal_with_fuel(json_view, 3);
        assert(out@->Object_0 =~= want + seq![("port"@, JsonView::Uint(port as u64))]);
        assert(out@->Object_0 =~= control_object(port, text_view(*bind), texts(keys@))->Object_0);
    }
    out
}

/// A roster with the control surface that is to be opened.
pub fn add_control(doc: Json, g: &GenManifest) -> (r: Json)
    ensures
        r@ == with_control(doc@, *g),
{
    match (g.control_port, doc) {
        (Some(port), Json::Object(entries)) => {
            let mut entries = entries;
            let control = control_json(port, &g.control_bind, &g.authorized_keys);
            set_entry(&mut entries, "control", control);
            Json::Object(entries)
        },
        (_, doc) => doc,
    }
}

// ---- the text --------------------------------------------------------------

/// A handler that takes no settings.
pub open spec fn bare_handler(name: Seq<char>) -> Seq<char> {
    "[[handler]]\ntype = \""@ + name + "\"\n\n"@
}

/// The front of a manifest: what is run, and with which initial state.
pub open spec fn front_text(package: Seq<char>, state: Seq<char>) -> Seq<char> {
    "name = \"supervisor\"\nversion = \"0.0.1\"\npackage = \""@ + package
        + "\"\ninitial_state = '"@ + state + "'\n\n"@
        + "[permission_policy.runtime]\ntype = \"restrict\"\nconfig = { inspect = true, mutate = true }\n\n"@
}

/// The permission that recording to a file needs.
pub open spec fn file_policy(file: bool) -> Seq<char> {
    if file {
        "[permission_policy.file_system]\ntype = \"restrict\"\nconfig = { read = true, write = true, execute = false }\n\n"@
    } else {
        Seq::empty()
    }
}

/// The handlers that every supervisor needs.
pub open spec fn core_handlers() -> Seq<char> {
    bare_handler("self"@) + bare_handler("runtime"@) + bare_handler("lifecycle"@) + bare_handler(
        "timer"@,
    )
}

/// The handler that the control surface needs: with the certificate and the key
/// of the server, where it is encrypted.
pub open spec fn tcp_handler(tls: Option<(Seq<char>, Seq<char>)>) -> Seq<char> {
    "[[handler]]\ntype = \"tcp\"\n"@ + (match tls {
        Some((cert, key)) => "server_tls = { enabled = true, cert = \""@ + cert + "\", key = \""@ + key
            + "\" }\n"@,
        None => Seq::empty(),
    }) + "\n"@
}

/// A text in double quotes.
pub open spec fn quoted(s: Seq<char>) -> Seq<char> {
    "\""@ + s + "\""@
}

/// The handler that recording to hosts needs, which reaches those hosts alone.
pub open spec fn http_handler(hosts: Seq<Seq<char>>) -> Seq<char> {
    if hosts.len() == 0 {
        Seq::empty()
    } else {
        "[[handler]]\ntype = \"http-client\"\nallowed_hosts = ["@ + joined(
            hosts.map_values(|h: Seq<char>| quoted(h)),
            ", "@,
        ) + "]\n\n"@
    }
}

/// The handler that recording to a file needs, which reaches one directory alone.
pub open spec fn file_handler(dir: Seq<char>) -> Seq<char> {
    "[[handler]]\ntype = \"filesystem\"\npath = \""@ + dir + "\"\n\n"@
}

/// Where a path leads, or that it leads nowhere.
pub open spec fn place_in(p: Place, front: Seq<char>, back: Seq<char>) -> Result<Seq<char>, Seq<char>> {
    match p.found {
        Ok(path) => Ok(path@),
        Err(e) => Err(front + p.given@ + back + ": "@ + e@),
    }
}

/// Where a path leads, or that it leads nowhere.
fn place_of(p: &Place, front: &str, back: &str) -> (r: Result<String, String>)
    ensures
        crate::datum::text_result(r) == place_in(*p, front@, back@),
{
    match &p.found {
        Ok(path) => Ok(path.clone()),
        Err(e) => {
            let mut out = front.to_owned();
            out.append(p.given.as_str());
            out.append(back);
            out.append(": ");
            out.append(e.as_str());
            Err(out)
        },
    }
}

/// What is run: the given wasm, or the built-in one under a name that is not
/// looked up.
pub open spec fn package_in(wasm: Option<Place>) -> Result<Seq<char>, Seq<char>> {
    match wasm {
        Some(p) => place_in(p, "supervisor wasm not found at "@, ""@),
        None => Ok("supervisor.wasm"@),
    }
}

/// The control surface's handler, where the surface is opened.
pub open spec fn tcp_in(g: GenManifest) -> Result<Seq<char>, Seq<char>> {
    match (g.control_port, g.tls) {
        (None, _) => Ok(Seq::empty()),
        (Some(_), None) => Ok(tcp_handler(None)),
        (Some(_), Some((cert, key))) => match place_in(cert, "--tls-cert "@, " not found"@) {
            Err(e) => Err(e),
            Ok(c) => match place_in(key, "--tls-key "@, " not found"@) {
                Err(e) => Err(e),
                Ok(k) => Ok(tcp_handler(Some((c, k)))),
            },
        },
    }
}

/// The handler for recording to a file, where that is needed.
pub open spec fn file_in(file: bool, record_dir: Option<Place>) -> Result<Seq<char>, Seq<char>> {
    if !file {
        Ok(Seq::empty())
    } else {
        match record_dir {
            None => Err("a service records to a file — pass --record-dir <sandbox root>"@),
            Some(p) => match place_in(p, "--record-dir "@, " does not exist (create it first)"@) {
                Err(e) => Err(e),
                Ok(dir) => Ok(file_handler(dir)),
            },
        }
    }
}

/// The manifest around a roster whose text is `state`, or the first thing that
/// stands in its way.
pub open spec fn finished(g: GenManifest, doc: JsonView, state: Seq<char>) -> Result<
    Seq<char>,
    Seq<char>,
> {
    let services = declared(doc);
    match package_in(g.wasm) {
        Err(e) => Err(e),
        Ok(package) => if occurs(state, "'"@) {
            Err("roster contains a single quote in a value; not supported yet"@)
        } else {
            match tcp_in(g) {
                Err(e) => Err(e),
                Ok(tcp) => match file_in(needs_file(services), g.record_dir) {
                    Err(e) => Err(e),
                    Ok(file) => Ok(
                        front_text(package, state) + file_policy(needs_file(services))
                            + core_handlers() + tcp + http_handler(hosts(services)) + file,
                    ),
                },
            }
        },
    }
}

/// The handler that recording to hosts needs.
fn http_section(hosts: &Vec<String>) -> (r: String)
    ensures
        r@ == http_handler(texts(hosts@)),
{
    if hosts.len() == 0 {
        let empty = String::new();
        assert(empty@ =~= Seq::<char>::empty());
        return empty;
    }
    let mut items: Vec<String> = Vec::new();
    let mut i: usize = 0;
    while i < hosts.len()
        invariant
            i <= hosts@.len(),
            items@.len() == i,
            forall|k: int| 0 <= k < i ==> #[trigger] items@[k]@ == quoted(hosts@[k]@),
        decreases hosts@.len() - i,
    {
        let mut item = "\"".to_owned();
        item.append(hosts[i].as_str());
        item.append("\"");
        items.push(item);
        i += 1;
    }
    assert(texts(items@) =~= texts(hosts@).map_values(|h: Seq<char>| quoted(h)));
    let mut out = "[[handler]]\ntype = \"http-client\"\nallowed_hosts = [".to_owned();
    out.append(join(&items, ", ").as_str());
    out.append("]\n\n");
    out
}

/// The control surface's handler, where the surface is opened.
fn tcp_section(g: &GenManifest) -> (r: Result<String, String>)
    ensures
        crate::datum::text_result(r) == tcp_in(*g),
{
    if g.control_port.is_none() {
        let empty = String::new();
        assert(empty@ =~= Seq::<char>::empty());
        return Ok(empty);
    }
    let mut out = "[[handler]]\ntype = \"tcp\"\n".to_owned();
    let ghost head = out@;
    match &g.tls {
        Some((cert, key)) => {
            let c = match place_of(cert, "--tls-cert ", " not found") {
                Ok(c) => c,
                Err(e) => {
                    return Err(e);
                },
            };
            let k = match place_of(key, "--tls-key ", " not found") {
                Ok(k) => k,
                Err(e) => {
                    return Err(e);
                },
            };
            let mut line = "server_tls = { enabled = true, cert = \"".to_owned();
            line.append(c.as_str());
            line.append("\", key = \"");
            line.append(k.as_str());
            line.append("\" }\n");
            out.append(line.as_str());
        },
        None => {
            assert(out@ =~= head + Seq::<char>::empty());
        },
    }
    out.append("\n");
    Ok(out)
}

/// The handler for recording to a file, where that is needed.
fn file_section(file: bool, record_dir: &Option<Place>) -> (r: Result<String, String>)
    ensures
        crate::datum::text_result(r) == file_in(file, *record_dir),
{
    if !file {
        let empty = String::new();
        assert(empty@ =~= Seq::<char>::empty());
        return Ok(empty);
    }
    match record_dir {
        None => Err("a service records to a file — pass --record-dir <sandbox root>".to_owned()),
        Some(p) => match place_of(p, "--record-dir ", " does not exist (create it first)") {
            Err(e) => Err(e),
            Ok(dir) => {
                let mut out = "[[handler]]\ntype = \"filesystem\"\npath = \"".to_owned();
                out.append(dir.as_str());
                out.append("\"\n\n");
                Ok(out)
            },
        },
    }
}

/// A handler that takes no settings.
fn bare_section(name: &str) -> (r: String)
    ensures
        r@ == bare_handler(name@),
{
    let mut out = "[[handler]]\ntype = \"".to_owned();
    out.append(name);
    out.append("\"\n\n");
    out
}

/// The front of a manifest.
fn front_section(package: &str, state: &str) -> (r: String)
    ensures
        r@ == front_text(package@, state@),
{
    let mut out = "name = \"supervisor\"\nversion = \"0.0.1\"\npackage = \"".to_owned();
    out.append(package);
    out.append("\"\ninitial_state = '");
    out.append(state);
    out.append("'\n\n");
    out.append(
        "[permission_policy.runtime]\ntype = \"restrict\"\nconfig = { inspect = true, mutate = true }\n\n",
    );
    out
}

/// The manifest around a roster whose text is `state`, or the first thing that
/// stands in its way.
pub fn finish(g: &GenManifest, doc: &Json, state: &str) -> (r: Result<String, String>)
    ensures
        crate::datum::text_result(r) == finished(*g, doc@, state@),
{
    let needs = needs_of(doc);
    let package = match &g.wasm {
        Some(p) => match place_of(p, "supervisor wasm not found at ", "") {
            Ok(p) => p,
            Err(e) => {
                return Err(e);
            },
        },
        None => "supervisor.wasm".to_owned(),
    };
    if contains(state, "'") {
        return Err("roster contains a single quote in a value; not supported yet".to_owned());
    }
    let tcp = match tcp_section(g) {
        Ok(t) => t,
        Err(e) => {
            return Err(e);
        },
    };
    let file = match file_section(needs.file, &g.record_dir) {
        Ok(f) => f,
        Err(e) => {
            return Err(e);
        },
    };
    let mut out = front_section(package.as_str(), state);
    let ghost front = out@;
    if needs.file {
        out.append(
            "[permission_policy.file_system]\ntype = \"restrict\"\nconfig = { read = true, write = true, execute = false }\n\n",
        );
    } else {
        assert(out@ =~= front + Seq::<char>::empty());
    }
    let mut core = bare_section("self");
    core.append(bare_section("runtime").as_str());
    core.append(bare_section("lifecycle").as_str());
    core.append(bare_section("timer").as_str());
    out.append(core.as_str());
    out.append(tcp.as_str());
    out.append(http_section(&needs.hosts).as_str());
    out.append(file.as_str());
    Ok(out)
}

/// The keys that a roster authorizes to drive the control surface.
pub open spec fn keys_declared(doc: JsonView) -> Seq<JsonView> {
    match doc.get("control"@) {
        Some(control) => match control.get("authorized_keys"@) {
            Some(JsonView::Array(keys)) => keys,
            _ => Seq::empty(),
        },
        None => Seq::empty(),
    }
}

/// Whether a roster authorizes any keys.
fn declares_keys(doc: &Json) -> (r: bool)
    ensures
        r == (keys_declared(doc@).len() > 0),
{
    match doc.get("control") {
        Some(control) => match control.get("authorized_keys") {
            Some(Json::Array(keys)) => keys.len() > 0,
            _ => false,
        },
        None => false,
    }
}

/// The manifest around a roster that was read, or could not be. Keys are authorized
/// only together with TLS, wherever they are declared.
pub open spec fn generated(g: GenManifest, doc: Result<JsonView, Seq<char>>) -> Result<
    Seq<char>,
    Seq<char>,
> {
    if g.authorized_keys@.len() > 0 && g.control_port is None {
        Err("--authorized-key needs the control surface — pass --control-port"@)
    } else if g.authorized_keys@.len() > 0 && g.tls is None {
        Err("--authorized-key requires TLS — pass --tls-cert and --tls-key"@)
    } else {
        match doc {
            Err(e) => Err("roster is not valid JSON: "@ + e),
            Ok(v) => {
                let doc = with_control(v, g);
                if keys_declared(doc).len() > 0 && !(g.control_port is Some && g.tls is Some) {
                    Err(
                        "the roster declares control.authorized_keys — pass them as --authorized-key, with --control-port, --tls-cert and --tls-key"@,
                    )
                } else {
                    finished(g, doc, json_text(doc))
                }
            },
        }
    }
}

/// Why authorized keys cannot be served, where they cannot: they need the control
/// surface, and a certificate.
fn refuse_keys(g: &GenManifest) -> (r: Option<String>)
    ensures
        match r {
            Some(e) => g.authorized_keys@.len() > 0 && (if g.control_port is None {
                e@ == "--authorized-key needs the control surface — pass --control-port"@
            } else {
                g.tls is None && e@
                    == "--authorized-key requires TLS — pass --tls-cert and --tls-key"@
            }),
            None => g.authorized_keys@.len() > 0 ==> g.control_port is Some && g.tls is Some,
        },
{
    if g.authorized_keys.len() > 0 && g.control_port.is_none() {
        return Some("--authorized-key needs the control surface — pass --control-port".to_owned());
    }
    if g.authorized_keys.len() > 0 && g.tls.is_none() {
        return Some("--authorized-key requires TLS — pass --tls-cert and --tls-key".to_owned());
    }
    None
}

/// Generates a manifest around a roster: with the control surface that is to be
/// opened in its initial state, and with the handlers and permissions that it
/// needs. Where every number in the roster is an integer, the supervisor reads its
/// initial state as the roster with that control surface.
pub fn generate_manifest(g: &GenManifest) -> (r: Result<String, String>)
    ensures
        crate::datum::text_result(r) == generated(*g, parsed(encode_utf8(g.roster@))),
        r is Ok ==> {
            let doc = with_control(parsed(encode_utf8(g.roster@))->Ok_0, *g);
            float_free(parsed(encode_utf8(g.roster@))->Ok_0) ==> json_text(doc) == compact(doc)
                && reads_back(json_text(doc), doc)
        },
{
    match refuse_keys(g) {
        Some(e) => {
            return Err(e);
        },
        None => {},
    }
    match parse_json(g.roster.as_str().as_bytes()) {
        Err(e) => {
            let mut out = "roster is not valid JSON: ".to_owned();
            out.append(e.as_str());
            Err(out)
        },
        Ok(v) => {
            proof {
                control_keeps_tidy(v@, *g);
                tidy_deeper(with_control(v@, *g), DEPTH_MAX as nat, (DEPTH_MAX + 1) as nat);
            }
            let doc = add_control(v, g);
            if declares_keys(&doc) && !(g.control_port.is_some() && g.tls.is_some()) {
                return Err(
                    "the roster declares control.authorized_keys — pass them as --authorized-key, with --control-port, --tls-cert and --tls-key".to_owned(),
                );
            }
            let state = write_json(&doc);
            finish(g, &doc, state.as_str())
        },
    }
}

// ---- what a manifest grants ------------------------------------------------

/// Where keys are authorized, in the initial state or by a flag, a manifest that is
/// generated opens the control surface with the server's certificate and key: never
/// without encryption.
pub proof fn authorized_keys_imply_tls(g: GenManifest, doc: Result<JsonView, Seq<char>>)
    requires
        generated(g, doc) is Ok,
        keys_declared(with_control(doc->Ok_0, g)).len() > 0 || g.authorized_keys@.len() > 0,
    ensures
        g.control_port is Some,
        g.tls is Some,
        exists|cert: Seq<char>, key: Seq<char>|
            tcp_in(g) == Ok::<Seq<char>, Seq<char>>(#[trigger] tcp_handler(Some((cert, key)))),
{
    let (cert, key) = g.tls->0;
    let c = place_in(cert, "--tls-cert "@, " not found"@)->Ok_0;
    let k = place_in(key, "--tls-key "@, " not found"@)->Ok_0;
    assert(tcp_in(g) == Ok::<Seq<char>, Seq<char>>(tcp_handler(Some((c, k)))));
}

/// A manifest grants what is needed and no more: beside what every supervisor has,
/// files are granted just where a service records to one, hosts just where services
/// record to some, and the network is listened on just where the control surface is
/// opened.
pub proof fn only_what_is_needed(g: GenManifest, doc: JsonView, state: Seq<char>)
    requires
        finished(g, doc, state) is Ok,
    ensures
        ({
            let services = declared(doc);
            let policy = file_policy(needs_file(services));
            let tcp = tcp_in(g)->Ok_0;
            let http = http_handler(hosts(services));
            let file = file_in(needs_file(services), g.record_dir)->Ok_0;
            &&& finished(g, doc, state)->Ok_0 == front_text(package_in(g.wasm)->Ok_0, state)
                + policy + core_handlers() + tcp + http + file
            &&& policy.len() > 0 <==> needs_file(services)
            &&& file.len() > 0 <==> needs_file(services)
            &&& http.len() > 0 <==> hosts(services).len() > 0
            &&& tcp.len() > 0 <==> g.control_port is Some
        }),
{
    reveal_strlit(
        "[permission_policy.file_system]\ntype = \"restrict\"\nconfig = { read = true, write = true, execute = false }\n\n",
    );
    reveal_strlit("[[handler]]\ntype = \"tcp\"\n");
    reveal_strlit("[[handler]]\ntype = \"http-client\"\nallowed_hosts = [");
    reveal_strlit("\"\n\n");
}

/// Each host is listed once.
pub proof fn hosts_are_listed_once(services: Seq<JsonView>)
    ensures
        hosts(services).no_duplicates(),
    decreases services.len(),
{
    if services.len() > 0 {
        hosts_are_listed_once(services.drop_last());
    }
}

/// Every host that a service records to is listed, and no other.
pub proof fn hosts_are_those_recorded_to(services: Seq<JsonView>, h: Seq<char>)
    ensures
        hosts(services).contains(h) <==> exists|i: int|
            0 <= i < services.len() && record_host(#[trigger] services[i]) == Some(h),
    decreases services.len(),
{
    if services.len() > 0 {
        let front = services.drop_last();
        hosts_are_those_recorded_to(front, h);
        let all = hosts(services);
        let some = exists|i: int|
            0 <= i < services.len() && record_host(#[trigger] services[i]) == Some(h);
        if hosts(front).contains(h) {
            let i = choose|i: int|
                0 <= i < front.len() && record_host(#[trigger] front[i]) == Some(h);
            assert(services[i] == front[i]);
            let k = choose|k: int| 0 <= k < hosts(front).len() && hosts(front)[k] == h;
            assert(all[k] == h);
        } else if record_host(services.last()) == Some(h) {
            assert(services[services.len() - 1] == services.last());
            assert(all[all.len() - 1] == h);
        } else {
            assert forall|i: int| 0 <= i < services.len() implies record_host(
                #[trigger] services[i],
            ) != Some(h) by {
                if i < front.len() {
                    assert(front[i] == services[i]);
                }
            }
            if all.contains(h) {
                let k = choose|k: int| 0 <= k < all.len() && all[k] == h;
                if k < hosts(front).len() {
                    assert(hosts(front)[k] == h);
                }
            }
        }
    } else {
        assert(!hosts(services).contains(h));
    }
}

/// Opening the control surface puts its declaration into the initial state and
/// keeps every other member of the roster.
pub proof fn control_is_injected(
    entries: Seq<(Seq<char>, JsonView)>,
    value: JsonView,
    key: Seq<char>,
    other: Seq<char>,
)
    requires
        in_key_order(entries),
        other != key,
    ensures
        entry(put(entries, key, value), key) == Some(value),
        entry(put(entries, key, value), other) == entry(entries, other),
    decreases entries.len(),
{
    let after = put(entries, key, value);
    if entries.len() == 0 {
        reveal_with_fuel(entry, 2);
        assert(after[0].0 == key);
    } else {
        let rest = entries.drop_first();
        assert forall|i: int, j: int| 0 <= i < j < rest.len() implies text_less(
            (#[trigger] rest[i]).0,
            (#[trigger] rest[j]).0,
        ) by {
            assert(rest[i] == entries[i + 1] && rest[j] == entries[j + 1]);
        }
        if text_less(entries[0].0, key) {
            less_is_strict(entries[0].0, key);
            control_is_injected(rest, value, key, other);
            assert(after.drop_first() =~= put(rest, key, value));
            assert(after[0] == entries[0]);
        } else if entries[0].0 == key {
            assert(after.drop_first() =~= rest);
            assert(after[0] == (key, value));
        } else {
            assert(after.drop_first() =~= entries);
            assert(after[0] == (key, value));
        }
    }
}

/// A text does not come before itself.
proof fn less_is_strict(a: Seq<char>, b: Seq<char>)
    requires
        text_less(a, b),
    ensures
        a != b,
    decreases a.len(),
{
    if a.len() > 0 && a[0] == b[0] {
        less_is_strict(a.drop_first(), b.drop_first());
    }
}

/// Opening the control surface keeps the keys of a roster in order.
pub proof fn control_keeps_key_order(
    entries: Seq<(Seq<char>, JsonView)>,
    key: Seq<char>,
    value: JsonView,
)
    requires
        in_key_order(entries),
    ensures
        in_key_order(put(entries, key, value)),
        forall|i: int|
            0 <= i < put(entries, key, value).len() ==> (#[trigger] put(entries, key, value)[i]) == (
                key,
                value,
            ) || entries.contains(put(entries, key, value)[i]),
    decreases entries.len(),
{
    let after = put(entries, key, value);
    if entries.len() > 0 {
        let first = entries[0];
        let rest = entries.drop_first();
        assert forall|i: int, j: int| 0 <= i < j < rest.len() implies text_less(
            (#[trigger] rest[i]).0,
            (#[trigger] rest[j]).0,
        ) by {
            assert(rest[i] == entries[i + 1] && rest[j] == entries[j + 1]);
        }
        if text_less(first.0, key) {
            control_keeps_key_order(rest, key, value);
            let tail = put(rest, key, value);
            assert forall|i: int| 0 <= i < after.len() implies (#[trigger] after[i]) == (key, value)
                || entries.contains(after[i]) by {
                if i > 0 {
                    assert(after[i] == tail[i - 1]);
                    if tail[i - 1] != (key, value) {
                        let k = choose|k: int| 0 <= k < rest.len() && rest[k] == tail[i - 1];
                        assert(entries[k + 1] == after[i]);
                    }
                } else {
                    assert(entries[0] == after[0]);
                }
            }
            assert forall|i: int, j: int| 0 <= i < j < after.len() implies text_less(
                (#[trigger] after[i]).0,
                (#[trigger] after[j]).0,
            ) by {
                assert(after[j] == tail[j - 1]);
                if i > 0 {
                    assert(after[i] == tail[i - 1]);
                } else if tail[j - 1] != (key, value) {
                    let k = choose|k: int| 0 <= k < rest.len() && rest[k] == tail[j - 1];
                    assert(entries[k + 1] == tail[j - 1]);
                }
            }
        } else {
            if first.0 != key {
                text_order_total(first.0, key);
            }
            let tail = if first.0 == key {
                rest
            } else {
                entries
            };
            assert(after =~= seq![(key, value)] + tail);
            assert forall|i: int| 0 <= i < after.len() implies (#[trigger] after[i]) == (key, value)
                || entries.contains(after[i]) by {
                if i > 0 {
                    assert(after[i] == tail[i - 1]);
                    if first.0 == key {
                        assert(after[i] == entries[i]);
                    } else {
                        assert(after[i] == entries[i - 1]);
                    }
                }
            }
            assert forall|i: int, j: int| 0 <= i < j < after.len() implies text_less(
                (#[trigger] after[i]).0,
                (#[trigger] after[j]).0,
            ) by {
                assert(after[j] == tail[j - 1]);
                if i > 0 {
                    assert(after[i] == tail[i - 1]);
                } else if first.0 == key {
                    assert(tail[j - 1] == entries[j]);
                    assert(text_less(entries[0].0, entries[j].0));
                } else if j > 1 {
                    assert(text_less(entries[0].0, entries[j - 1].0));
                    text_order_transitive(key, first.0, entries[j - 1].0);
                }
            }
        }
    }
}

/// The declaration of a control surface has its keys in order and little depth.
proof fn control_object_is_tidy(port: u16, bind: Option<Seq<char>>, keys: Seq<Seq<char>>)
    ensures
        tidy(control_object(port, bind, keys), (DEPTH_MAX - 1) as nat),
        float_free(control_object(port, bind, keys)),
{
    reveal_strlit("authorized_keys");
    reveal_strlit("bind");
    reveal_strlit("port");
    reveal_with_fuel(tidy, 3);
    reveal_with_fuel(float_free, 3);
    let a = "authorized_keys"@;
    let b = "bind"@;
    let p = "port"@;
    assert(a[0] < b[0] && b[0] < p[0]);
    assert(text_less(a, b) && text_less(a, p) && text_less(b, p));
    let entries = control_object(port, bind, keys)->Object_0;
    assert(in_key_order(entries));
    assert forall|i: int| 0 <= i < entries.len() implies tidy(
        (#[trigger] entries[i]).1,
        (DEPTH_MAX - 2) as nat,
    ) && float_free(entries[i].1) by {
        if entries[i].0 == a {
            let items = keys.map_values(|k: Seq<char>| JsonView::Text(k));
            assert(entries[i].1 == JsonView::Array(items));
        }
    }
}

/// Opening the control surface keeps a roster such that what is written of it is
/// read back.
pub proof fn control_keeps_tidy(v: JsonView, g: GenManifest)
    requires
        tidy(v, DEPTH_MAX as nat),
    ensures
        tidy(with_control(v, g), DEPTH_MAX as nat),
        float_free(v) ==> float_free(with_control(v, g)),
{
    match (g.control_port, v) {
        (Some(port), JsonView::Object(entries)) => {
            let control = control_object(port, text_view(g.control_bind), texts(g.authorized_keys@));
            control_object_is_tidy(port, text_view(g.control_bind), texts(g.authorized_keys@));
            control_keeps_key_order(entries, "control"@, control);
            let after = put(entries, "control"@, control);
            assert forall|i: int| 0 <= i < after.len() implies tidy(
                (#[trigger] after[i]).1,
                (DEPTH_MAX - 1) as nat,
            ) by {
                if after[i] != ("control"@, control) {
                    let k = choose|k: int| 0 <= k < entries.len() && entries[k] == after[i];
                    assert(tidy(entries[k].1, (DEPTH_MAX - 1) as nat));
                }
            }
            if float_free(v) {
                assert forall|i: int| 0 <= i < after.len() implies float_free(
                    (#[trigger] after[i]).1,
                ) by {
                    if after[i] != ("control"@, control) {
                        let k = choose|k: int| 0 <= k < entries.len() && entries[k] == after[i];
                        assert(float_free(entries[k].1));
                    }
                }
            }
        },
        _ => {},
    }
}

// ---- what a manifest says --------------------------------------------------

/// The list of allowed hosts grows host by host: one host is its only item, and
/// one more host is one more item, in quotes, behind the others.
pub proof fn host_lists_grow(hosts: Seq<Seq<char>>, h: Seq<char>)
    ensures
        http_handler(Seq::empty()).len() == 0,
        http_handler(seq![h]) == "[[handler]]\ntype = \"http-client\"\nallowed_hosts = [\""@ + h
            + "\"]\n\n"@,
        hosts.len() > 0 ==> http_handler(hosts.push(h)) == http_handler(hosts).take(
            http_handler(hosts).len() - 3,
        ) + ", \""@ + h + "\"]\n\n"@,
{
    reveal_strlit("[[handler]]\ntype = \"http-client\"\nallowed_hosts = [\"");
    reveal_strlit("[[handler]]\ntype = \"http-client\"\nallowed_hosts = [");
    reveal_strlit("\"]\n\n");
    reveal_strlit("]\n\n");
    reveal_strlit("\"");
    reveal_strlit(", ");
    reveal_strlit(", \"");
    let q = |h: Seq<char>| quoted(h);
    let head = "[[handler]]\ntype = \"http-client\"\nallowed_hosts = ["@;
    let items = hosts.map_values(q);
    joining_puts_behind(items, quoted(h), ", "@);
    assert(seq![h].map_values(q) =~= seq![quoted(h)]);
    assert(hosts.push(h).map_values(q) =~= items.push(quoted(h)));
    assert(http_handler(seq![h]) =~= "[[handler]]\ntype = \"http-client\"\nallowed_hosts = [\""@ + h
        + "\"]\n\n"@);
    if hosts.len() > 0 {
        let all = http_handler(hosts);
        assert(all.take(all.len() - 3) =~= head + joined(items, ", "@));
        assert(http_handler(hosts.push(h)) =~= all.take(all.len() - 3) + ", \""@ + h + "\"]\n\n"@);
    }
}

/// Each host is an item of the list, in quotes: it stands behind the opening bracket
/// or a comma, and before the closing bracket or a comma.
pub proof fn every_host_is_an_item(hosts: Seq<Seq<char>>, i: int) -> (r: (Seq<char>, Seq<char>))
    requires
        0 <= i < hosts.len(),
    ensures
        http_handler(hosts) == "[[handler]]\ntype = \"http-client\"\nallowed_hosts = ["@ + r.0 + (
        "\""@ + hosts[i] + "\""@) + r.1 + "]\n\n"@,
        r.0.len() == 0 || ", "@.is_suffix_of(r.0),
        r.1.len() == 0 || ", "@.is_prefix_of(r.1),
{
    let q = |h: Seq<char>| quoted(h);
    let items = hosts.map_values(q);
    let r = joined_parts_stand_apart(items, ", "@, i);
    assert(items[i] == quoted(hosts[i]));
    assert(http_handler(hosts) =~= "[[handler]]\ntype = \"http-client\"\nallowed_hosts = ["@ + r.0 + (
    "\""@ + hosts[i] + "\""@) + r.1 + "]\n\n"@);
    r
}

/// The host of a URL is what follows the scheme, up to a path, a query, a fragment or
/// a port.
pub proof fn a_host_follows_the_scheme(scheme: Seq<char>, h: Seq<char>, rest: Seq<char>)
    requires
        scheme == "http://"@ || scheme == "https://"@,
        h.len() > 0,
        forall|i: int|
            0 <= i < h.len() ==> (#[trigger] h[i]) != '/' && h[i] != '?' && h[i] != '#' && h[i] != ':',
        rest.len() == 0 || rest[0] == '/' || rest[0] == '?' || rest[0] == '#' || rest[0] == ':',
    ensures
        host_in(scheme + h + rest) == Some(h),
{
    let url = scheme + h + rest;
    let stops = seq!['/', '?', '#'];
    let colon = seq![':'];
    reveal_strlit("http://");
    reveal_strlit("https://");
    assert(url =~= scheme + (h + rest));
    a_prefix_is_taken_off(scheme, h + rest);
    if scheme == "https://"@ {
        assert(url[4] == 's');
        assert(!"http://"@.is_prefix_of(url)) by {
            assert("http://"@[4] == ':');
        }
    }
    assert(stops[0] == '/' && stops[1] == '?' && stops[2] == '#');
    assert forall|c: char| #[trigger] stops.contains(c) implies c == '/' || c == '?' || c == '#' by {}
    assert(colon[0] == ':');
    assert(colon.contains(':'));
    let r = h + rest;
    let authority = before(r, stops);
    if rest.len() > 0 && rest[0] != ':' {
        assert(stops.contains(rest[0])) by {
            assert(rest[0] == stops[0] || rest[0] == stops[1] || rest[0] == stops[2]);
        }
        a_stop_cuts(h, rest, stops);
        a_stop_cuts(h, Seq::empty(), colon);
        assert(h + Seq::<char>::empty() =~= h);
    } else if rest.len() == 0 {
        a_stop_cuts(h, rest, stops);
        a_stop_cuts(h, rest, colon);
        assert(h + rest =~= h);
    } else {
        let port = before(rest, stops);
        cut_within(h, rest, stops);
        assert(authority == h + port);
        assert(port.len() > 0 && port[0] == ':');
        a_stop_cuts(h, port, colon);
    }
}

/// A cut behind text that holds no stop is a cut in what follows.
proof fn cut_within(a: Seq<char>, rest: Seq<char>, stops: Seq<char>)
    requires
        forall|i: int| 0 <= i < a.len() ==> !stops.contains(#[trigger] a[i]),
        rest.len() > 0 && !stops.contains(rest[0]),
    ensures
        before(a + rest, stops) == a + before(rest, stops),
        before(rest, stops).len() > 0 && before(rest, stops)[0] == rest[0],
{
    let k = rest_run(rest, stops);
    let head = rest.take(k);
    let tail = rest.skip(k);
    assert(rest =~= head + tail);
    a_stop_cuts(head, tail, stops);
    let front = a + head;
    assert(a + rest =~= front + tail);
    assert forall|i: int| 0 <= i < front.len() implies !stops.contains(#[trigger] front[i]) by {
        if i >= a.len() {
            assert(front[i] == head[i - a.len()]);
        } else {
            assert(front[i] == a[i]);
        }
    }
    a_stop_cuts(front, tail, stops);
}

/// Where the first stop stands, or the end of the text.
proof fn rest_run(s: Seq<char>, stops: Seq<char>) -> (k: int)
    ensures
        0 <= k <= s.len(),
        forall|i: int| 0 <= i < k ==> !stops.contains(#[trigger] s.take(k)[i]),
        k < s.len() ==> stops.contains(s.skip(k)[0]),
        s.len() > 0 && !stops.contains(s[0]) ==> k > 0,
    decreases s.len(),
{
    if s.len() == 0 || stops.contains(s[0]) {
        0
    } else {
        let less = s.drop_first();
        let k = rest_run(less, stops) + 1;
        assert forall|i: int| 0 <= i < k implies !stops.contains(#[trigger] s.take(k)[i]) by {
            if i > 0 {
                assert(s.take(k)[i] == less.take(k - 1)[i - 1]);
            }
        }
        if k < s.len() {
            assert(s.skip(k)[0] == less.skip(k - 1)[0]);
        }
        k
    }
}

/// In a generated manifest the host of every URL that a service records to is an item
/// of the list of allowed hosts.
pub proof fn recorded_hosts_are_allowed(
    g: GenManifest,
    doc: JsonView,
    state: Seq<char>,
    items: Seq<JsonView>,
    i: int,
    rec: JsonView,
    scheme: Seq<char>,
    h: Seq<char>,
    rest: Seq<char>,
)
    requires
        finished(g, doc, state) is Ok,
        doc.get("services"@) == Some(JsonView::Array(items)),
        0 <= i < items.len(),
        items[i].get("record"@) == Some(rec),
        rec.get("kind"@) == Some(JsonView::Text("http"@)),
        rec.get("url"@) == Some(JsonView::Text(scheme + h + rest)),
        scheme == "http://"@ || scheme == "https://"@,
        h.len() > 0,
        forall|k: int|
            0 <= k < h.len() ==> (#[trigger] h[k]) != '/' && h[k] != '?' && h[k] != '#' && h[k] != ':',
        rest.len() == 0 || rest[0] == '/' || rest[0] == '?' || rest[0] == '#' || rest[0] == ':',
    ensures
        exists|a: Seq<char>, front: Seq<char>, back: Seq<char>, b: Seq<char>|
            {
                &&& finished(g, doc, state)->Ok_0 == #[trigger] (a
                    + "[[handler]]\ntype = \"http-client\"\nallowed_hosts = ["@ + front + ("\""@ + h
                    + "\""@) + back + "]\n\n"@ + b)
                &&& front.len() == 0 || ", "@.is_suffix_of(front)
                &&& back.len() == 0 || ", "@.is_prefix_of(back)
            },
{
    a_host_follows_the_scheme(scheme, h, rest);
    let services = declared(doc);
    assert(services == items);
    assert(record_host(services[i]) == Some(h));
    hosts_are_those_recorded_to(services, h);
    let list = hosts(services);
    let k = choose|k: int| 0 <= k < list.len() && list[k] == h;
    let (front, back) = every_host_is_an_item(list, k);
    let a = front_text(package_in(g.wasm)->Ok_0, state) + file_policy(needs_file(services))
        + core_handlers() + tcp_in(g)->Ok_0;
    let b = file_in(needs_file(services), g.record_dir)->Ok_0;
    let all = finished(g, doc, state)->Ok_0;
    assert(all == a + http_handler(list) + b);
    assert(all =~= a + "[[handler]]\ntype = \"http-client\"\nallowed_hosts = ["@ + front + ("\""@ + h
        + "\""@) + back + "]\n\n"@ + b);
}

/// No host is allowed but where a service records to a URL with that host.
pub proof fn allowed_hosts_are_recorded_to(services: Seq<JsonView>, h: Seq<char>)
    requires
        hosts(services).contains(h),
    ensures
        exists|i: int|
            0 <= i < services.len() && {
                let record = (#[trigger] services[i]).get("record"@);
                let url = record->0.get("url"@);
                &&& record is Some
                &&& record->0.get("kind"@) == Some(JsonView::Text("http"@))
                &&& url is Some && url->0 is Text
                &&& ("http://"@ + h).is_prefix_of(url->0->Text_0) || ("https://"@ + h).is_prefix_of(
                    url->0->Text_0,
                )
            },
{
    hosts_are_those_recorded_to(services, h);
    let i = choose|i: int| 0 <= i < services.len() && record_host(#[trigger] services[i]) == Some(h);
    let rec = services[i].get("record"@)->0;
    let url = rec.get("url"@)->0->Text_0;
    assert(rec.get("kind"@) == Some(JsonView::Text("http"@)));
    assert(rec.get("url"@) == Some(JsonView::Text(url)));
    let scheme = if behind(url, "http://"@) is Some {
        "http://"@
    } else {
        "https://"@
    };
    let r = behind(url, scheme)->0;
    let cut_at = before(r, seq!['/', '?', '#']);
    assert(h == before(cut_at, seq![':']));
    assert(h.is_prefix_of(r)) by {
        before_is_a_prefix(r, seq!['/', '?', '#']);
        before_is_a_prefix(cut_at, seq![':']);
    }
    assert(url =~= scheme + r);
    assert((scheme + h) =~= url.take((scheme + h).len() as int));
}

/// What stands before a stop is a front part of the text.
proof fn before_is_a_prefix(s: Seq<char>, stops: Seq<char>)
    ensures
        before(s, stops).is_prefix_of(s),
{
    let k = rest_run(s, stops);
    assert(s =~= s.take(k) + s.skip(k));
    a_stop_cuts(s.take(k), s.skip(k), stops);
}

/// A service that records to a file makes the manifest grant files and the directory
/// that was given; without such a service neither is granted.
pub proof fn files_are_granted_where_recorded_to(
    g: GenManifest,
    doc: JsonView,
    state: Seq<char>,
    items: Seq<JsonView>,
)
    requires
        finished(g, doc, state) is Ok,
        doc.get("services"@) == Some(JsonView::Array(items)),
    ensures
        ({
            let to_file = exists|i: int|
                0 <= i < items.len() && ((#[trigger] items[i]).get("record"@) matches Some(rec)
                    && rec.get("kind"@) == Some(JsonView::Text("file"@)));
            let text = finished(g, doc, state)->Ok_0;
            &&& to_file ==> g.record_dir is Some && g.record_dir->0.found is Ok && (
            "[[handler]]\ntype = \"filesystem\"\npath = \""@ + g.record_dir->0.found->Ok_0@
                + "\"\n\n"@).is_suffix_of(text)
            &&& to_file ==> file_policy(needs_file(declared(doc)))
                == "[permission_policy.file_system]\ntype = \"restrict\"\nconfig = { read = true, write = true, execute = false }\n\n"@
            &&& !to_file ==> file_policy(needs_file(declared(doc))).len() == 0 && file_in(
                needs_file(declared(doc)),
                g.record_dir,
            ) == Ok::<Seq<char>, Seq<char>>(Seq::empty())
        }),
{
    let services = declared(doc);
    assert(services == items);
    let to_file = exists|i: int|
        0 <= i < items.len() && ((#[trigger] items[i]).get("record"@) matches Some(rec) && rec.get(
            "kind"@,
        ) == Some(JsonView::Text("file"@)));
    if to_file {
        let i = choose|i: int|
            0 <= i < items.len() && ((#[trigger] items[i]).get("record"@) matches Some(rec)
                && rec.get("kind"@) == Some(JsonView::Text("file"@)));
        assert(record_kind(services[i]) == Some("file"@));
        assert(needs_file(services));
        let text = finished(g, doc, state)->Ok_0;
        let end = file_in(true, g.record_dir)->Ok_0;
        assert(end =~= text.skip(text.len() - end.len()));
    } else {
        assert forall|i: int| 0 <= i < services.len() implies record_kind(#[trigger] services[i])
            != Some("file"@) by {
            assert(items[i] == services[i]);
        }
    }
}

/// The control surface is served just where a port is given: with the certificate and
/// the key that were found, where both are given, and else in the clear.
pub proof fn the_control_surface_is_served(g: GenManifest)
    ensures
        g.control_port is None ==> tcp_in(g) == Ok::<Seq<char>, Seq<char>>(Seq::empty()),
        g.control_port is Some && g.tls is None ==> tcp_in(g) == Ok::<Seq<char>, Seq<char>>(
            "[[handler]]\ntype = \"tcp\"\n\n"@,
        ),
        g.control_port is Some ==> (g.tls matches Some((cert, key)) ==> {
            &&& cert.found matches Ok(c) ==> (key.found matches Ok(k) ==> tcp_in(g) == Ok::<
                Seq<char>,
                Seq<char>,
            >(
                "[[handler]]\ntype = \"tcp\"\nserver_tls = { enabled = true, cert = \""@ + c@
                    + "\", key = \""@ + k@ + "\" }\n\n"@,
            ))
            &&& cert.found is Err || key.found is Err ==> tcp_in(g) is Err
        }),
{
    reveal_strlit("[[handler]]\ntype = \"tcp\"\n");
    reveal_strlit("[[handler]]\ntype = \"tcp\"\n\n");
    reveal_strlit("\n");
    reveal_strlit("server_tls = { enabled = true, cert = \"");
    reveal_strlit("[[handler]]\ntype = \"tcp\"\nserver_tls = { enabled = true, cert = \"");
    reveal_strlit("\" }\n");
    reveal_strlit("\" }\n\n");
    let head = "[[handler]]\ntype = \"tcp\"\n"@;
    assert(head + Seq::<char>::empty() + "\n"@ =~= "[[handler]]\ntype = \"tcp\"\n\n"@);
    assert(head + "server_tls = { enabled = true, cert = \""@
        =~= "[[handler]]\ntype = \"tcp\"\nserver_tls = { enabled = true, cert = \""@);
    assert("\" }\n"@ + "\n"@ =~= "\" }\n\n"@);
    match g.tls {
        Some((cert, key)) => {
            match (cert.found, key.found) {
                (Ok(c), Ok(k)) => {
                    assert(tcp_handler(Some((c@, k@)))
                        =~= "[[handler]]\ntype = \"tcp\"\nserver_tls = { enabled = true, cert = \""@
                        + c@ + "\", key = \""@ + k@ + "\" }\n\n"@);
                },
                _ => {},
            }
        },
        None => {},
    }
}

/// A manifest carries the roster as its initial state, and runs the wasm that was
/// given or the built-in one. A roster that cannot be carried in single quotes is
/// refused.
pub proof fn the_roster_is_the_initial_state(g: GenManifest, doc: JsonView, state: Seq<char>)
    ensures
        state.contains('\'') ==> finished(g, doc, state) is Err,
        finished(g, doc, state) is Ok ==> {
            let package = if g.wasm is Some {
                g.wasm->0.found->Ok_0@
            } else {
                "supervisor.wasm"@
            };
            &&& g.wasm is Some ==> g.wasm->0.found is Ok
            &&& ("name = \"supervisor\"\nversion = \"0.0.1\"\npackage = \""@ + package
                + "\"\ninitial_state = '"@ + state + "'\n\n"@).is_prefix_of(
                finished(g, doc, state)->Ok_0,
            )
        },
{
    reveal_strlit("'");
    if state.contains('\'') {
        let i = choose|i: int| 0 <= i < state.len() && state[i] == '\'';
        assert(state.subrange(i, i + 1) =~= "'"@);
        assert(occurs(state, "'"@));
    }
    if finished(g, doc, state) is Ok {
        let package = package_in(g.wasm)->Ok_0;
        let head = "name = \"supervisor\"\nversion = \"0.0.1\"\npackage = \""@ + package
            + "\"\ninitial_state = '"@ + state + "'\n\n"@;
        let all = finished(g, doc, state)->Ok_0;
        assert(head =~= all.take(head.len() as int));
    }
}

/// Where the control surface is opened, the roster declares it: with the port, the
/// interface and the keys that were given, and none that was not. Every other member
/// of the roster stays; without a port the whole roster does, and so does one that is
/// an array.
pub proof fn the_control_surface_is_declared(
    entries: Seq<(Seq<char>, JsonView)>,
    g: GenManifest,
    other: Seq<char>,
    items: Seq<JsonView>,
)
    requires
        in_key_order(entries),
        other != "control"@,
    ensures
        ({
            let v = JsonView::Object(entries);
            let after = with_control(v, g);
            &&& g.control_port is None ==> after == v
            &&& with_control(JsonView::Array(items), g) == JsonView::Array(items)
            &&& after.get(other) == v.get(other)
            &&& g.control_port matches Some(port) ==> {
                let control = after.get("control"@)->0;
                let keys = control.get("authorized_keys"@);
                &&& after.get("control"@) is Some
                &&& control.get("port"@) == Some(JsonView::Uint(port as u64))
                &&& g.control_bind is None ==> control.get("bind"@) is None
                &&& g.control_bind matches Some(b) ==> control.get("bind"@) == Some(
                    JsonView::Text(b@),
                )
                &&& g.authorized_keys@.len() == 0 ==> keys is None
                &&& g.authorized_keys@.len() > 0 ==> {
                    &&& keys is Some && keys->0 is Array
                    &&& keys->0->Array_0.len() == g.authorized_keys@.len()
                    &&& forall|k: int|
                        0 <= k < g.authorized_keys@.len() ==> #[trigger] keys->0->Array_0[k]
                            == JsonView::Text(g.authorized_keys@[k]@)
                }
            }
        }),
{
    reveal_strlit("authorized_keys");
    reveal_strlit("bind");
    reveal_strlit("port");
    assert("authorized_keys"@.len() != "bind"@.len() && "authorized_keys"@.len() != "port"@.len());
    assert("bind"@[0] != "port"@[0]);
    match g.control_port {
        Some(port) => {
            let object = control_object(port, text_view(g.control_bind), texts(g.authorized_keys@));
            control_is_injected(entries, object, "control"@, other);
            reveal_with_fuel(entry, 5);
        },
        None => {},
    }
}

/// Keys are never authorized in the clear. A roster that declares some, or a manifest
/// that is to have some, is refused unless the control surface is opened with a
/// certificate and a key; where a manifest is generated for keys, it shows both.
pub proof fn keys_need_encryption(g: GenManifest, v: JsonView)
    ensures
        g.authorized_keys@.len() > 0 && (g.control_port is None || g.tls is None) ==> generated(
            g,
            Ok(v),
        ) is Err,
        g.control_port is None && v.get("control"@) is Some && (v.get("control"@)->0.get(
            "authorized_keys"@,
        ) matches Some(JsonView::Array(keys)) && keys.len() > 0) ==> generated(g, Ok(v)) is Err,
        g.authorized_keys@.len() > 0 && generated(g, Ok(v)) is Ok ==> {
            let (cert, key) = g.tls->0;
            &&& cert.found is Ok && key.found is Ok
            &&& exists|a: Seq<char>, b: Seq<char>|
                generated(g, Ok(v))->Ok_0 == #[trigger] (a
                    + "[[handler]]\ntype = \"tcp\"\nserver_tls = { enabled = true, cert = \""@
                    + cert.found->Ok_0@ + "\", key = \""@ + key.found->Ok_0@ + "\" }\n\n"@ + b)
        },
{
    if g.authorized_keys@.len() > 0 && generated(g, Ok(v)) is Ok {
        let (cert, key) = g.tls->0;
        the_control_surface_is_served(g);
        let doc = with_control(v, g);
        let services = declared(doc);
        let a = front_text(package_in(g.wasm)->Ok_0, json_text(doc)) + file_policy(
            needs_file(services),
        ) + core_handlers();
        let b = http_handler(hosts(services)) + file_in(
            needs_file(services),
            g.record_dir,
        )->Ok_0;
        let all = generated(g, Ok(v))->Ok_0;
        assert(all =~= a + tcp_in(g)->Ok_0 + b);
        assert(all =~= a
            + "[[handler]]\ntype = \"tcp\"\nserver_tls = { enabled = true, cert = \""@
            + cert.found->Ok_0@ + "\", key = \""@ + key.found->Ok_0@ + "\" }\n\n"@ + b);
    }
}

/// A URL of another scheme, or without a host, has no host.
pub proof fn other_urls_have_no_host(url: Seq<char>, scheme: Seq<char>, rest: Seq<char>)
    requires
        scheme == "http://"@ || scheme == "https://"@,
        rest.len() == 0 || rest[0] == '/' || rest[0] == '?' || rest[0] == '#' || rest[0] == ':',
    ensures
        !"http://"@.is_prefix_of(url) && !"https://"@.is_prefix_of(url) ==> host_in(url) is None,
        host_in(scheme + rest) is None,
{
    a_prefix_is_taken_off(scheme, rest);
    reveal_strlit("http://");
    reveal_strlit("https://");
    if scheme == "https://"@ {
        assert((scheme + rest)[4] == 's');
        assert("http://"@[4] == ':');
    }
    let stops = seq!['/', '?', '#'];
    let colon = seq![':'];
    assert(stops[0] == '/' && stops[1] == '?' && stops[2] == '#' && colon[0] == ':');
    let none = Seq::<char>::empty();
    assert(none + rest =~= rest);
    if rest.len() > 0 && rest[0] == ':' {
        let port = before(rest, stops);
        if stops.contains(':') {
            assert(false);
        }
        cut_within(none, rest, stops);
        assert(none + port =~= port);
        a_stop_cuts(none, port, colon);
    } else {
        if rest.len() > 0 {
            assert(stops.contains(rest[0]));
        }
        a_stop_cuts(none, rest, stops);
        assert(none + none =~= none);
        a_stop_cuts(none, none, colon);
    }
}

/// Where something that was given leads nowhere, no manifest is generated, and the
/// reason names it: first the wasm, then the certificate, the key, and the directory
/// that is recorded to.
pub proof fn what_leads_nowhere_is_named(g: GenManifest, doc: JsonView, state: Seq<char>, e: Seq<char>)
    ensures
        g.wasm matches Some(p) ==> (p.found matches Err(why) ==> finished(g, doc, state) == Err::<
            Seq<char>,
            Seq<char>,
        >("supervisor wasm not found at "@ + p.given@ + ""@ + ": "@ + why@)),
        g.control_port is Some ==> (g.tls matches Some((cert, key)) ==> {
            &&& cert.found matches Err(why) ==> tcp_in(g) == Err::<Seq<char>, Seq<char>>(
                "--tls-cert "@ + cert.given@ + " not found"@ + ": "@ + why@,
            )
            &&& cert.found is Ok ==> (key.found matches Err(why) ==> tcp_in(g) == Err::<
                Seq<char>,
                Seq<char>,
            >("--tls-key "@ + key.given@ + " not found"@ + ": "@ + why@))
        }),
        file_in(true, None) == Err::<Seq<char>, Seq<char>>(
            "a service records to a file — pass --record-dir <sandbox root>"@,
        ),
        g.record_dir matches Some(p) ==> (p.found matches Err(why) ==> file_in(true, g.record_dir)
            == Err::<Seq<char>, Seq<char>>(
            "--record-dir "@ + p.given@ + " does not exist (create it first)"@ + ": "@ + why@,
        )),
        finished(g, doc, state) is Ok ==> tcp_in(g) is Ok,
        g.authorized_keys@.len() == 0 ==> generated(g, Err(e)) == Err::<Seq<char>, Seq<char>>(
            "roster is not valid JSON: "@ + e,
        ),
{
}

/// Every manifest lets the supervisor inspect and change the runtime, and has the
/// handlers that every supervisor needs.
pub proof fn every_supervisor_has_its_handlers(package: Seq<char>, state: Seq<char>)
    ensures
        "[permission_policy.runtime]\ntype = \"restrict\"\nconfig = { inspect = true, mutate = true }\n\n"@.is_suffix_of(
            front_text(package, state),
        ),
        core_handlers()
            == "[[handler]]\ntype = \"self\"\n\n[[handler]]\ntype = \"runtime\"\n\n[[handler]]\ntype = \"lifecycle\"\n\n[[handler]]\ntype = \"timer\"\n\n"@,
{
    let all = front_text(package, state);
    let policy =
        "[permission_policy.runtime]\ntype = \"restrict\"\nconfig = { inspect = true, mutate = true }\n\n"@;
    assert(policy =~= all.skip(all.len() - policy.len()));
    reveal_strlit("[[handler]]\ntype = \"");
    reveal_strlit("\"\n\n");
    reveal_strlit("self");
    reveal_strlit("runtime");
    reveal_strlit("lifecycle");
    reveal_strlit("timer");
    reveal_strlit(
        "[[handler]]\ntype = \"self\"\n\n[[handler]]\ntype = \"runtime\"\n\n[[handler]]\ntype = \"lifecycle\"\n\n[[handler]]\ntype = \"timer\"\n\n",
    );
    assert(core_handlers()
        =~= "[[handler]]\ntype = \"self\"\n\n[[handler]]\ntype = \"runtime\"\n\n[[handler]]\ntype = \"lifecycle\"\n\n[[handler]]\ntype = \"timer\"\n\n"@);
}

} // verus!
