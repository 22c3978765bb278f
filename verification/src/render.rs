//! What is printed while a supervisor runs: its chain, event by event, and the
//! host's own logs.

use crate::text::{a_prefix_is_taken_off, behind, chars_of, contains, glue, occurs, same, strip_prefix};
use vstd::prelude::*;
use vstd::utf8::{
    decode_utf8, encode_utf8, encode_utf8_decode_utf8, encode_utf8_valid_utf8, is_ascii_chars,
    is_ascii_chars_encode_utf8, is_char_boundary, length_of_first_scalar, pop_first_scalar,
};

verus! {

// ---- what to print ---------------------------------------------------------

/// How the chain is printed.
#[derive(Clone, Copy, PartialEq, Eq, Structural)]
pub enum ChainMode {
    /// One terse line an event.
    Compact,
    /// Decoded, with messages and arguments.
    Pretty,
}

/// How much of the host's logs is printed.
#[derive(Clone, Copy, PartialEq, Eq, Structural)]
pub enum LogLevel {
    Error,
    Warn,
    Info,
    Debug,
    Trace,
}

impl LogLevel {
    /// The name of a level.
    pub open spec fn name(self) -> Seq<char> {
        match self {
            LogLevel::Error => "error"@,
            LogLevel::Warn => "warn"@,
            LogLevel::Info => "info"@,
            LogLevel::Debug => "debug"@,
            LogLevel::Trace => "trace"@,
        }
    }

    /// The name of a level.
    pub fn as_str(self) -> (r: &'static str)
        ensures
            r@ == self.name(),
    {
        match self {
            LogLevel::Error => "error",
            LogLevel::Warn => "warn",
            LogLevel::Info => "info",
            LogLevel::Debug => "debug",
            LogLevel::Trace => "trace",
        }
    }
}

/// How the chain is printed: as asked for; where neither chain nor logs are asked
/// for, in full.
pub fn chain_mode(chain: Option<ChainMode>, logs: bool) -> (r: Option<ChainMode>)
    ensures
        r == (match chain {
            Some(m) => Some(m),
            None => if logs {
                None
            } else {
                Some(ChainMode::Pretty)
            },
        }),
{
    match chain {
        Some(m) => Some(m),
        None => if logs {
            None
        } else {
            Some(ChainMode::Pretty)
        },
    }
}

/// The filter for the host's logs: that of the environment, the level that is
/// asked for, or none at all.
pub fn log_filter(env: Option<String>, level: Option<LogLevel>) -> (r: String)
    ensures
        r@ == (match (env, level) {
            (Some(f), _) => f@,
            (None, Some(l)) => l.name(),
            (None, None) => "off"@,
        }),
{
    match env {
        Some(f) => f,
        None => match level {
            Some(l) => l.as_str().to_owned(),
            None => "off".to_owned(),
        },
    }
}

// ---- where the wasm comes from ---------------------------------------------

/// Where the supervisor's wasm comes from.
pub enum WasmSource {
    /// It is built in.
    Embedded,
    /// It should be built in, and is not.
    Missing,
    /// It is at this place.
    At(String),
    /// It is at this place below the manifest's directory.
    Below(String),
}

/// Where the supervisor's wasm comes from: without a manifest and a wasm of their
/// own it is the built-in one; else the manifest's package, which is a path below
/// the manifest unless it is absolute or a URL.
pub fn wasm_source(manifest: bool, wasm: bool, embedded: bool, package: &str) -> (r: WasmSource)
    ensures
        match r {
            WasmSource::Embedded => !manifest && !wasm && embedded,
            WasmSource::Missing => !manifest && !wasm && !embedded,
            WasmSource::At(p) => (manifest || wasm) && p@ == package@ && ("/"@.is_prefix_of(package@)
                || occurs(package@, "://"@)),
            WasmSource::Below(p) => (manifest || wasm) && p@ == package@ && !("/"@.is_prefix_of(
                package@,
            ) || occurs(package@, "://"@)),
        },
{
    if !manifest && !wasm {
        if embedded {
            WasmSource::Embedded
        } else {
            WasmSource::Missing
        }
    } else if strip_prefix(package, "/").is_some() || contains(package, "://") {
        WasmSource::At(package.to_owned())
    } else {
        WasmSource::Below(package.to_owned())
    }
}

/// Whether an event ends the run: the root itself has terminated.
pub fn ends_run(actor: &str, root: &str, event_type: &str) -> (r: bool)
    ensures
        r == (actor@ == root@ && event_type@ == "terminated"@),
{
    same(actor, root) && same(event_type, "terminated")
}

// ---- events ----------------------------------------------------------------

/// Why an actor ended.
pub enum Cause {
    Completed,
    Failed { error: String },
    Stopped,
    Killed,
    PeerKilled { peer: String },
}

/// What happened to an actor.
pub enum Lifecycle {
    Spawned,
    Paused,
    Resumed,
    Terminated { cause: Cause },
}

/// What happened in an actor's code.
pub enum WasmEvent {
    Call { function: String },
    Return { function: String },
    Fault { function: String, message: String },
    Other,
}

/// What a host function was called with.
pub enum Arg {
    Text(String),
    /// A tuple, and how it is displayed.
    Tuple { items: Vec<Arg>, shown: String },
    Opt(Option<Box<Arg>>),
    /// Any other value, as it is displayed.
    Shown(String),
}

/// An event on the chain, decoded.
pub enum Payload {
    Lifecycle(Lifecycle),
    Host { interface: String, function: String, input: Arg },
    Wasm(WasmEvent),
    ReplaySummary,
}

/// The readable text of an argument: a tuple of one and an option are read as what
/// they hold.
pub open spec fn arg_text(a: Arg) -> Seq<char>
    decreases a,
{
    match a {
        Arg::Text(s) => s@,
        Arg::Tuple { items, shown } => if items@.len() == 1 {
            arg_text(items@[0])
        } else {
            shown@
        },
        Arg::Opt(Some(b)) => arg_text(*b),
        Arg::Opt(None) => Seq::empty(),
        Arg::Shown(s) => s@,
    }
}

/// The readable text of an argument.
pub fn val_str(a: &Arg) -> (r: String)
    ensures
        r@ == arg_text(*a),
    decreases a,
{
    match a {
        Arg::Text(s) => s.clone(),
        Arg::Tuple { items, shown } => {
            if items.len() == 1 {
                val_str(&items[0])
            } else {
                shown.clone()
            }
        },
        Arg::Opt(Some(b)) => val_str(b),
        Arg::Opt(None) => {
            let empty = String::new();
            assert(empty@ =~= Seq::<char>::empty());
            empty
        },
        Arg::Shown(s) => s.clone(),
    }
}

/// A text cut to so many characters, with a mark where something was cut off.
pub open spec fn truncated(s: Seq<char>, n: nat) -> Seq<char> {
    if s.len() > n {
        s.take(n as int) + "…"@
    } else {
        s
    }
}

/// Cuts a text to so many characters.
pub fn truncate(s: &str, n: usize) -> (r: String)
    ensures
        r@ == truncated(s@, n as nat),
{
    let all = chars_of(s);
    if all.len() <= n {
        return s.to_owned();
    }
    let mut out: String = String::new();
    let mut i: usize = 0;
    assert(s@.take(0) =~= Seq::empty());
    while i < n
        invariant
            all@ == s@,
            i <= n < all@.len(),
            out@ == s@.take(i as int),
        decreases n - i,
    {
        out.push(all[i]);
        i += 1;
        assert(s@.take(i as int) =~= s@.take(i - 1).push(s@[i - 1]));
    }
    out.append("…");
    out
}

/// An interface without the part that all have in common.
pub open spec fn short_name(i: Seq<char>) -> Seq<char> {
    match behind(i, "theater:simple/"@) {
        Some(rest) => rest,
        None => i,
    }
}

/// An interface without the part that all have in common.
pub fn short_iface(i: &str) -> (r: String)
    ensures
        r@ == short_name(i@),
{
    match strip_prefix(i, "theater:simple/") {
        Some(rest) => rest,
        None => i.to_owned(),
    }
}

/// How many bytes of an id are shown.
pub open spec fn shown_bytes(s: Seq<char>) -> int {
    if encode_utf8(s).len() < 8 {
        encode_utf8(s).len() as int
    } else {
        8
    }
}

/// Whether the front of an id can be cut off: not in the middle of a character.
pub open spec fn cuttable(s: Seq<char>) -> bool {
    is_char_boundary(encode_utf8(s), shown_bytes(s))
}

/// The front of an id.
pub open spec fn front(s: Seq<char>) -> Seq<char> {
    decode_utf8(encode_utf8(s).subrange(0, shown_bytes(s)))
}

/// The front of an id.
pub fn sid(id: &str) -> (r: String)
    requires
        cuttable(id@),
    ensures
        r@ == front(id@),
{
    let bytes = id.as_bytes();
    let n: usize = if bytes.len() < 8 {
        bytes.len()
    } else {
        8
    };
    let (head, _) = id.split_at(n);
    proof {
        encode_utf8_decode_utf8(head@);
    }
    head.to_owned()
}

/// Whether a text ends with another.
pub open spec fn has_end(s: Seq<char>, end: Seq<char>) -> bool {
    s.len() >= end.len() && s.skip(s.len() - end.len()) == end
}

/// Whether a text ends with another.
fn ends_with(s: &str, end: &str) -> (r: bool)
    ensures
        r == has_end(s@, end@),
{
    let all = chars_of(s);
    let tail = chars_of(end);
    if tail.len() > all.len() {
        return false;
    }
    let from: usize = all.len() - tail.len();
    let ghost back = s@.skip(s@.len() - end@.len());
    let mut i: usize = 0;
    while i < tail.len()
        invariant
            all@ == s@,
            tail@ == end@,
            from == s@.len() - end@.len(),
            i <= tail@.len(),
            back == s@.skip(s@.len() - end@.len()),
            forall|k: int| 0 <= k < i ==> back[k] == end@[k],
        decreases tail@.len() - i,
    {
        assert(from + i < all.len());
        assert(back[i as int] == s@[from + i]);
        if all[from + i] != tail[i] {
            return false;
        }
        i += 1;
    }
    assert(back =~= end@);
    true
}

/// Whether everything in a payload can be shown.
pub open spec fn showable(p: Option<Payload>) -> bool {
    match p {
        Some(
            Payload::Lifecycle(Lifecycle::Terminated { cause: Cause::PeerKilled { peer } }),
        ) => cuttable(peer@),
        _ => true,
    }
}

/// The text of a cause.
pub open spec fn cause_text(c: Cause) -> Seq<char> {
    match c {
        Cause::Completed => "Completed"@,
        Cause::Failed { error } => "Failed: "@ + truncated(error@, 80),
        Cause::Stopped => "Stopped"@,
        Cause::Killed => "Killed"@,
        Cause::PeerKilled { peer } => "PeerKilled by "@ + front(peer@),
    }
}

/// The text of a cause.
pub fn cause_str(c: &Cause) -> (r: String)
    requires
        c matches Cause::PeerKilled { peer } ==> cuttable(peer@),
    ensures
        r@ == cause_text(*c),
{
    match c {
        Cause::Completed => "Completed".to_owned(),
        Cause::Failed { error } => {
            let mut out = "Failed: ".to_owned();
            out.append(truncate(error.as_str(), 80).as_str());
            out
        },
        Cause::Stopped => "Stopped".to_owned(),
        Cause::Killed => "Killed".to_owned(),
        Cause::PeerKilled { peer } => {
            let mut out = "PeerKilled by ".to_owned();
            out.append(sid(peer.as_str()).as_str());
            out
        },
    }
}

/// The text of what happened to an actor.
pub open spec fn lifecycle_text(l: Lifecycle) -> Seq<char> {
    match l {
        Lifecycle::Spawned => "● spawned"@,
        Lifecycle::Paused => "⏸ paused"@,
        Lifecycle::Resumed => "▶ resumed"@,
        Lifecycle::Terminated { cause } => "✖ terminated ("@ + cause_text(cause) + ")"@,
    }
}

/// The text of what happened to an actor.
pub fn lifecycle_str(l: &Lifecycle) -> (r: String)
    requires
        l matches Lifecycle::Terminated { cause: Cause::PeerKilled { peer } } ==> cuttable(peer@),
    ensures
        r@ == lifecycle_text(*l),
{
    match l {
        Lifecycle::Spawned => "● spawned".to_owned(),
        Lifecycle::Paused => "⏸ paused".to_owned(),
        Lifecycle::Resumed => "▶ resumed".to_owned(),
        Lifecycle::Terminated { cause } => {
            let mut out = "✖ terminated (".to_owned();
            out.append(cause_str(cause).as_str());
            out.append(")");
            out
        },
    }
}

/// The text of a call to the host, in full: what an actor logs stands by itself,
/// any other call with its argument.
pub open spec fn call_text(interface: Seq<char>, function: Seq<char>, input: Seq<char>) -> Seq<char> {
    if has_end(interface, "/self"@) && function == "log"@ {
        "» "@ + input
    } else {
        let arg = truncated(input, 60);
        if arg.len() == 0 {
            "→ "@ + short_name(interface) + "/"@ + function
        } else {
            "→ "@ + short_name(interface) + "/"@ + function + "("@ + arg + ")"@
        }
    }
}

/// The text of a call to the host, in full.
fn call_str(interface: &str, function: &str, input: &Arg) -> (r: String)
    ensures
        r@ == call_text(interface@, function@, arg_text(*input)),
{
    let value = val_str(input);
    if ends_with(interface, "/self") && same(function, "log") {
        let mut out = "» ".to_owned();
        out.append(value.as_str());
        return out;
    }
    let arg = truncate(value.as_str(), 60);
    let mut out = "→ ".to_owned();
    out.append(short_iface(interface).as_str());
    out.append("/");
    out.append(function);
    if arg.as_str().unicode_len() > 0 {
        out.append("(");
        out.append(arg.as_str());
        out.append(")");
    }
    out
}

/// The body of a line, in full.
pub open spec fn pretty_body(p: Option<Payload>, event_type: Seq<char>) -> Seq<char> {
    match p {
        Some(Payload::Lifecycle(l)) => lifecycle_text(l),
        Some(Payload::Host { interface, function, input }) => call_text(
            interface@,
            function@,
            arg_text(input),
        ),
        Some(Payload::Wasm(w)) => match w {
            WasmEvent::Call { function } => "⚙ call "@ + function@,
            WasmEvent::Return { function } => "⚙ result "@ + function@,
            WasmEvent::Fault { function, message } => "✖ wasm error in "@ + function@ + ": "@
                + truncated(message@, 80),
            WasmEvent::Other => "⚙ "@ + event_type,
        },
        Some(Payload::ReplaySummary) => "↻ replay-summary"@,
        None => event_type,
    }
}

/// A line: the front of the actor's id, and a body.
pub open spec fn line_text(actor: Seq<char>, body: Seq<char>) -> Seq<char> {
    "["@ + front(actor) + "] "@ + body
}

/// A line.
fn line_of(actor: &str, body: &str) -> (r: String)
    requires
        cuttable(actor@),
    ensures
        r@ == line_text(actor@, body@),
{
    let mut out = "[".to_owned();
    out.append(sid(actor).as_str());
    out.append("] ");
    out.append(body);
    out
}

/// The line of an event, in full.
pub fn pretty_line(p: &Option<Payload>, event_type: &str, actor: &str) -> (r: String)
    requires
        cuttable(actor@),
        showable(*p),
    ensures
        r@ == line_text(actor@, pretty_body(*p, event_type@)),
{
    let body = match p {
        Some(Payload::Lifecycle(l)) => lifecycle_str(l),
        Some(Payload::Host { interface, function, input }) => call_str(
            interface.as_str(),
            function.as_str(),
            input,
        ),
        Some(Payload::Wasm(w)) => match w {
            WasmEvent::Call { function } => glue("⚙ call ", function.as_str()),
            WasmEvent::Return { function } => glue("⚙ result ", function.as_str()),
            WasmEvent::Fault { function, message } => {
                let mut out = "✖ wasm error in ".to_owned();
                out.append(function.as_str());
                out.append(": ");
                out.append(truncate(message.as_str(), 80).as_str());
                out
            },
            WasmEvent::Other => glue("⚙ ", event_type),
        },
        Some(Payload::ReplaySummary) => "↻ replay-summary".to_owned(),
        None => event_type.to_owned(),
    };
    line_of(actor, body.as_str())
}

/// The body of a line, terse: the type of the event alone.
pub open spec fn compact_body(p: Option<Payload>, event_type: Seq<char>) -> Seq<char> {
    match p {
        Some(Payload::Lifecycle(l)) => lifecycle_text(l),
        Some(Payload::Host { interface, function, input: _ }) => short_name(interface@) + "/"@
            + function@,
        Some(Payload::Wasm(w)) => match w {
            WasmEvent::Call { function } => "wasm:call "@ + function@,
            WasmEvent::Return { function } => "wasm:result "@ + function@,
            WasmEvent::Fault { function, message: _ } => "wasm:error "@ + function@,
            WasmEvent::Other => event_type,
        },
        Some(Payload::ReplaySummary) => "replay-summary"@,
        None => event_type,
    }
}

/// The line of an event, terse.
pub fn compact_line(p: &Option<Payload>, event_type: &str, actor: &str) -> (r: String)
    requires
        cuttable(actor@),
        showable(*p),
    ensures
        r@ == line_text(actor@, compact_body(*p, event_type@)),
{
    let body = match p {
        Some(Payload::Lifecycle(l)) => lifecycle_str(l),
        Some(Payload::Host { interface, function, input: _ }) => {
            let mut out = short_iface(interface.as_str());
            out.append("/");
            out.append(function.as_str());
            out
        },
        Some(Payload::Wasm(w)) => match w {
            WasmEvent::Call { function } => glue("wasm:call ", function.as_str()),
            WasmEvent::Return { function } => glue("wasm:result ", function.as_str()),
            WasmEvent::Fault { function, message: _ } => glue("wasm:error ", function.as_str()),
            WasmEvent::Other => event_type.to_owned(),
        },
        Some(Payload::ReplaySummary) => "replay-summary".to_owned(),
        None => event_type.to_owned(),
    };
    line_of(actor, body.as_str())
}

/// Ids in ASCII can always be shown: by their first eight characters.
pub proof fn ascii_ids_are_shown(s: Seq<char>)
    requires
        is_ascii_chars(s),
    ensures
        cuttable(s),
        front(s) == s.take(if s.len() < 8 {
            s.len() as int
        } else {
            8
        }),
{
    is_ascii_chars_encode_utf8(s);
    let n = shown_bytes(s);
    let head = s.take(n);
    let bytes = encode_utf8(s);
    assert(is_ascii_chars(head));
    is_ascii_chars_encode_utf8(head);
    assert forall|i: int| 0 <= i < n implies encode_utf8(head)[i] == bytes[i] by {
        assert(head[i] == s[i]);
        assert(s[i] as u8 == bytes[i]);
        assert(head[i] as u8 == encode_utf8(head)[i]);
    }
    assert(encode_utf8(head) =~= bytes.subrange(0, n));
    encode_utf8_decode_utf8(head);
    ascii_boundary(s, n);
}

/// Every place in ASCII is between characters.
proof fn ascii_boundary(s: Seq<char>, n: int)
    requires
        is_ascii_chars(s),
        0 <= n <= s.len(),
    ensures
        is_char_boundary(encode_utf8(s), n),
    decreases n,
{
    is_ascii_chars_encode_utf8(s);
    encode_utf8_valid_utf8(s);
    if n > 0 {
        let rest = s.drop_first();
        assert(is_ascii_chars(rest)) by {
            assert forall|i: int| 0 <= i < rest.len() implies (rest[i] as u32) < 128 by {
                assert(rest[i] == s[i + 1]);
            }
        }
        is_ascii_chars_encode_utf8(rest);
        let bytes = encode_utf8(s);
        assert(s[0] as u8 == bytes[0]);
        assert(bytes[0] < 128);
        assert(encode_utf8(rest) =~= bytes.skip(1)) by {
            assert forall|i: int| 0 <= i < rest.len() implies encode_utf8(rest)[i] == bytes[i + 1] by {
                assert(rest[i] == s[i + 1]);
                assert(rest[i] as u8 == encode_utf8(rest)[i]);
                assert(s[i + 1] as u8 == bytes[i + 1]);
            }
        }
        ascii_boundary(rest, n - 1);
        assert(length_of_first_scalar(bytes) == 1);
        assert(pop_first_scalar(bytes) =~= encode_utf8(rest));
    }
}

/// What was cut is no longer than asked for, but for the mark.
pub proof fn truncated_fits(s: Seq<char>, n: nat)
    ensures
        truncated(s, n).len() <= n + 1,
        s.len() <= n ==> truncated(s, n) == s,
        s.take(if s.len() <= n {
            s.len() as int
        } else {
            n as int
        }).is_prefix_of(truncated(s, n)),
{
    reveal_strlit("…");
    if s.len() > n {
        assert(truncated(s, n).take(n as int) =~= s.take(n as int));
    } else {
        assert(s.take(s.len() as int) =~= s);
    }
}

// ---- what a line shows -----------------------------------------------------

/// What an actor logs is shown in full, however long it is. Any other call is shown by
/// its interface, without the part that all have in common, its function and the front
/// of its argument, where it has one.
pub proof fn calls_are_shown(
    front_part: Seq<char>,
    interface: Seq<char>,
    function: Seq<char>,
    input: Seq<char>,
)
    requires
        function != "log"@,
    ensures
        call_text(front_part + "/self"@, "log"@, input) == "» "@ + input,
        input.len() == 0 ==> call_text("theater:simple/"@ + interface, function, input) == "→ "@
            + interface + "/"@ + function,
        0 < input.len() <= 60 ==> call_text("theater:simple/"@ + interface, function, input) == "→ "@
            + interface + "/"@ + function + "("@ + input + ")"@,
        input.len() > 60 ==> call_text("theater:simple/"@ + interface, function, input) == "→ "@
            + interface + "/"@ + function + "("@ + (input.take(60) + "…"@) + ")"@,
{
    let whole = front_part + "/self"@;
    assert(whole.skip(whole.len() - "/self"@.len()) =~= "/self"@);
    a_prefix_is_taken_off("theater:simple/"@, interface);
    reveal_strlit("…");
}

/// Of a failure the error is shown, in full where it is no longer than 80 characters;
/// of another end its name; and of a peer's the front of the peer's id.
pub proof fn ends_are_shown(error: String, peer: String, cause: Cause)
    ensures
        cause_text(Cause::Completed) == "Completed"@,
        cause_text(Cause::Stopped) == "Stopped"@,
        cause_text(Cause::Killed) == "Killed"@,
        error@.len() <= 80 ==> cause_text(Cause::Failed { error }) == "Failed: "@ + error@,
        error@.len() > 80 ==> cause_text(Cause::Failed { error }) == "Failed: "@ + (error@.take(80)
            + "…"@),
        is_ascii_chars(peer@) && peer@.len() >= 8 ==> cause_text(Cause::PeerKilled { peer })
            == "PeerKilled by "@ + peer@.take(8),
        lifecycle_text(Lifecycle::Spawned) == "● spawned"@,
        lifecycle_text(Lifecycle::Paused) == "⏸ paused"@,
        lifecycle_text(Lifecycle::Resumed) == "▶ resumed"@,
        lifecycle_text(Lifecycle::Terminated { cause }) == "✖ terminated ("@ + cause_text(cause)
            + ")"@,
{
    if is_ascii_chars(peer@) {
        ascii_ids_are_shown(peer@);
    }
}

/// A line starts with the front of the actor's id in brackets. In full it shows what
/// happened; tersely it shows no argument and no message. An event that could not be
/// decoded is shown by its type.
pub proof fn lines_show_what_happened(
    actor: Seq<char>,
    event_type: Seq<char>,
    l: Lifecycle,
    interface: String,
    function: String,
    input: Arg,
    message: String,
)
    requires
        is_ascii_chars(actor),
        actor.len() >= 8,
    ensures
        line_text(actor, event_type) == "["@ + actor.take(8) + "] "@ + event_type,
        pretty_body(None, event_type) == event_type,
        compact_body(None, event_type) == event_type,
        pretty_body(Some(Payload::Lifecycle(l)), event_type) == lifecycle_text(l),
        compact_body(Some(Payload::Lifecycle(l)), event_type) == lifecycle_text(l),
        pretty_body(Some(Payload::Host { interface, function, input }), event_type) == call_text(
            interface@,
            function@,
            arg_text(input),
        ),
        compact_body(Some(Payload::Host { interface, function, input }), event_type) == short_name(
            interface@,
        ) + "/"@ + function@,
        pretty_body(Some(Payload::Wasm(WasmEvent::Call { function })), event_type) == "⚙ call "@
            + function@,
        pretty_body(Some(Payload::Wasm(WasmEvent::Return { function })), event_type) == "⚙ result "@
            + function@,
        message@.len() <= 80 ==> pretty_body(
            Some(Payload::Wasm(WasmEvent::Fault { function, message })),
            event_type,
        ) == "✖ wasm error in "@ + function@ + ": "@ + message@,
        compact_body(Some(Payload::Wasm(WasmEvent::Call { function })), event_type) == "wasm:call "@
            + function@,
        compact_body(Some(Payload::Wasm(WasmEvent::Return { function })), event_type)
            == "wasm:result "@ + function@,
        compact_body(Some(Payload::Wasm(WasmEvent::Fault { function, message })), event_type)
            == "wasm:error "@ + function@,
{
    ascii_ids_are_shown(actor);
}

/// An argument is shown as what it holds: a text as it is, and a tuple of one and an
/// option as what is inside.
pub proof fn arguments_are_unwrapped(s: String, items: Vec<Arg>, shown: String, inner: Arg)
    ensures
        arg_text(Arg::Text(s)) == s@,
        arg_text(Arg::Shown(s)) == s@,
        items@.len() == 1 ==> arg_text(Arg::Tuple { items, shown }) == arg_text(items@[0]),
        items@.len() != 1 ==> arg_text(Arg::Tuple { items, shown }) == shown@,
        arg_text(Arg::Opt(Some(Box::new(inner)))) == arg_text(inner),
        arg_text(Arg::Opt(None)).len() == 0,
{
}

/// Each level of the logs has a name of its own, by which the host knows it.
pub proof fn levels_are_known_by_name(a: LogLevel, b: LogLevel)
    ensures
        LogLevel::Error.name() == "error"@,
        LogLevel::Warn.name() == "warn"@,
        LogLevel::Info.name() == "info"@,
        LogLevel::Debug.name() == "debug"@,
        LogLevel::Trace.name() == "trace"@,
        a.name() == b.name() ==> a == b,
{
    reveal_strlit("error");
    reveal_strlit("warn");
    reveal_strlit("info");
    reveal_strlit("debug");
    reveal_strlit("trace");
    assert("error"@[0] == 'e' && "warn"@[0] == 'w' && "info"@[0] == 'i' && "debug"@[0] == 'd'
        && "trace"@[0] == 't');
}

} // verus!
