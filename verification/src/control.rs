//! The control surface: a request is read, checked, and carried out on the
//! roster. Stopping and spawning actors is the host's work; what is to be
//! stopped and spawned, and what the answers lead to, is decided here.

use crate::datum::text_result;
use crate::json::{
    agrees, doc_text, entry, escape_plain, flat_doc, flat_docs_are_read, has_fields, parse_json, parsed,
    plain_fields, Json, JsonView,
};
use crate::ops::{
    add_doc, add_requests_are_written, add_text, apply_doc, request_text, requests_are_flat,
    service_doc,
};
use crate::reply::{
    applied_reply, applied_text, chain_reply, chain_text, err_reply, err_text, ok_msg, ok_text,
    roster_reply, roster_text, service_reply, service_text,
};
use crate::roster::{
    all_wf, by_handle, cfg_views, distinct, find_handle, has_handle, position, position_first,
    svc_views, CfgView, OrderView, ServiceCfg, SpawnOrder, StateView, SupervisorState, Svc, SvcView,
};
use crate::text::{glue, same, texts};
use vstd::prelude::*;
use vstd::utf8::encode_utf8;

verus! {

// ---- requests --------------------------------------------------------------

/// A request that is complete.
pub enum Command {
    /// Describe every service.
    List,
    /// Describe one.
    Status(String),
    /// List the kept chain events of one.
    Chain(String),
    /// Declare one more and bring it up.
    Add(ServiceCfg),
    /// Take one down and forget it.
    Remove(String),
    /// Make the roster hold these and no others.
    Apply(Vec<ServiceCfg>),
    /// Replace the actor that runs as one.
    Restart(String),
}

/// A command, by its view.
pub enum CommandView {
    List,
    Status(Seq<char>),
    Chain(Seq<char>),
    Add(CfgView),
    Remove(Seq<char>),
    Apply(Seq<CfgView>),
    Restart(Seq<char>),
}

impl View for Command {
    type V = CommandView;

    open spec fn view(&self) -> CommandView {
        match self {
            Command::List => CommandView::List,
            Command::Status(h) => CommandView::Status(h@),
            Command::Chain(h) => CommandView::Chain(h@),
            Command::Add(c) => CommandView::Add(c@),
            Command::Remove(h) => CommandView::Remove(h@),
            Command::Apply(cs) => CommandView::Apply(cfg_views(cs@)),
            Command::Restart(h) => CommandView::Restart(h@),
        }
    }
}

/// What a line of input is.
pub enum Intake {
    /// No request that can be carried out; the reply says why.
    Refuse(String),
    /// A request that is complete.
    Run(Command),
    /// A request to add the service that this document declares.
    Service(Json),
    /// A request to apply the services that this document declares.
    Services(Json),
}

/// An intake, by its view.
pub enum IntakeView {
    Refuse(Seq<char>),
    Run(CommandView),
    Service(JsonView),
    Services(JsonView),
}

impl View for Intake {
    type V = IntakeView;

    open spec fn view(&self) -> IntakeView {
        match self {
            Intake::Refuse(r) => IntakeView::Refuse(r@),
            Intake::Run(c) => IntakeView::Run(c@),
            Intake::Service(j) => IntakeView::Service(j@),
            Intake::Services(j) => IntakeView::Services(j@),
        }
    }
}

/// The name of the operation that a document asks for; empty where it names
/// none.
pub open spec fn op_in(v: JsonView) -> Seq<char> {
    match v.text_at("op"@) {
        Some(op) => op,
        None => Seq::empty(),
    }
}

/// A member of a document, or null in its place.
pub open spec fn member_or_null(v: JsonView, key: Seq<char>) -> JsonView {
    match v.get(key) {
        Some(j) => j,
        None => JsonView::Null,
    }
}

/// What a document that was read, or could not be, asks for.
pub open spec fn intake_in(doc: Result<JsonView, Seq<char>>) -> IntakeView {
    match doc {
        Err(e) => IntakeView::Refuse(err_text("bad JSON: "@ + e)),
        Ok(v) => {
            let op = op_in(v);
            let handle = v.text_at("handle"@);
            if op == "list"@ {
                IntakeView::Run(CommandView::List)
            } else if op == "status"@ {
                match handle {
                    Some(h) => IntakeView::Run(CommandView::Status(h)),
                    None => IntakeView::Refuse(err_text("status: handle required"@)),
                }
            } else if op == "chain"@ {
                match handle {
                    Some(h) => IntakeView::Run(CommandView::Chain(h)),
                    None => IntakeView::Refuse(err_text("chain: handle required"@)),
                }
            } else if op == "add"@ {
                IntakeView::Service(member_or_null(v, "service"@))
            } else if op == "remove"@ {
                match handle {
                    Some(h) => IntakeView::Run(CommandView::Remove(h)),
                    None => IntakeView::Refuse(err_text("remove: handle required"@)),
                }
            } else if op == "apply"@ {
                IntakeView::Services(member_or_null(v, "services"@))
            } else if op == "restart"@ {
                match handle {
                    Some(h) => IntakeView::Run(CommandView::Restart(h)),
                    None => IntakeView::Refuse(err_text("restart: handle required"@)),
                }
            } else {
                IntakeView::Refuse(err_text("unknown op '"@ + op + "'"@))
            }
        },
    }
}

/// A document that was read, or the reason why not, by its view.
pub open spec fn doc_view(doc: Result<Json, String>) -> Result<JsonView, Seq<char>> {
    match doc {
        Ok(j) => Ok(j@),
        Err(e) => Err(e@),
    }
}

/// A member of a document, or null in its place.
fn take_member(j: Json, key: &str) -> (r: Json)
    ensures
        r@ == member_or_null(j@, key@),
{
    match j.into_member(key) {
        Some(m) => m,
        None => Json::Null,
    }
}

/// Puts a text between two others.
fn glue3(a: &str, b: &str, c: &str) -> (r: String)
    ensures
        r@ == a@ + b@ + c@,
{
    let mut out = a.to_owned();
    out.append(b);
    out.append(c);
    out
}

/// What a document that was read, or could not be, asks for.
pub fn intake_of(doc: Result<Json, String>) -> (r: Intake)
    ensures
        r@ == intake_in(doc_view(doc)),
{
    let v = match doc {
        Ok(v) => v,
        Err(e) => {
            return Intake::Refuse(err_reply(glue("bad JSON: ", e.as_str()).as_str()));
        },
    };
    let op = match v.text_at("op") {
        Some(op) => op,
        None => {
            let empty = String::new();
            assert(empty@ =~= Seq::<char>::empty());
            empty
        },
    };
    let handle = v.text_at("handle");
    let name = op.as_str();
    if same(name, "list") {
        Intake::Run(Command::List)
    } else if same(name, "status") {
        match handle {
            Some(h) => Intake::Run(Command::Status(h)),
            None => Intake::Refuse(err_reply("status: handle required")),
        }
    } else if same(name, "chain") {
        match handle {
            Some(h) => Intake::Run(Command::Chain(h)),
            None => Intake::Refuse(err_reply("chain: handle required")),
        }
    } else if same(name, "add") {
        Intake::Service(take_member(v, "service"))
    } else if same(name, "remove") {
        match handle {
            Some(h) => Intake::Run(Command::Remove(h)),
            None => Intake::Refuse(err_reply("remove: handle required")),
        }
    } else if same(name, "apply") {
        Intake::Services(take_member(v, "services"))
    } else if same(name, "restart") {
        match handle {
            Some(h) => Intake::Run(Command::Restart(h)),
            None => Intake::Refuse(err_reply("restart: handle required")),
        }
    } else {
        Intake::Refuse(err_reply(glue3("unknown op '", name, "'").as_str()))
    }
}

/// Where a document is the flat request for a command, that command is what it
/// asks for.
proof fn flat_requests_are_read(v: JsonView, c: CommandView)
    requires
        request_text(c) is Some,
        has_fields(v, request_fields(c)),
    ensures
        intake_in(Ok(v)) == IntakeView::Run(c),
{
    reveal_strlit("op");
    reveal_strlit("handle");
    reveal_strlit("list");
    reveal_strlit("status");
    reveal_strlit("chain");
    reveal_strlit("add");
    reveal_strlit("remove");
    reveal_strlit("apply");
    reveal_strlit("restart");
    let fields = request_fields(c);
    assert(fields[0].0 == "op"@);
    assert(v.get("op"@) == Some(JsonView::Text(fields[0].1)));
    assert("list"@ != "status"@) by {
        assert("list"@.len() != "status"@.len());
    }
    assert("list"@[0] != "chain"@[0]);
    assert("status"@[0] != "remove"@[0] && "status"@[0] != "restart"@[0] && "status"@[0] != "chain"@[0]);
    assert("chain"@[0] != "remove"@[0] && "chain"@[0] != "restart"@[0]);
    assert("remove"@.len() != "restart"@.len());
    assert("add"@[0] != "remove"@[0] && "add"@[0] != "restart"@[0]);
    assert("apply"@[0] != "restart"@[0]);
    assert("list"@[0] != "remove"@[0]);
    if fields.len() == 2 {
        assert(fields[1].0 == "handle"@);
        assert(v.get("handle"@) == Some(JsonView::Text(fields[1].1)));
    }
}

/// The members of the flat request for a command.
pub open spec fn request_fields(c: CommandView) -> Seq<(Seq<char>, Seq<char>)> {
    match c {
        CommandView::List => seq![("op"@, "list"@)],
        CommandView::Status(h) => seq![("op"@, "status"@), ("handle"@, h)],
        CommandView::Chain(h) => seq![("op"@, "chain"@), ("handle"@, h)],
        CommandView::Remove(h) => seq![("op"@, "remove"@), ("handle"@, h)],
        CommandView::Restart(h) => seq![("op"@, "restart"@), ("handle"@, h)],
        _ => Seq::empty(),
    }
}

/// The flat request for a command is a flat object of its members.
proof fn request_is_flat(c: CommandView)
    requires
        request_text(c) is Some,
    ensures
        request_text(c) == Some(doc_text(flat_doc(request_fields(c)))),
        plain_fields(request_fields(c)),
{
    reveal_strlit("op");
    reveal_strlit("handle");
    reveal_strlit("list");
    reveal_strlit("status");
    reveal_strlit("chain");
    reveal_strlit("remove");
    reveal_strlit("restart");
    escape_plain("op"@);
    escape_plain("handle"@);
    let op = request_fields(c)[0].1;
    assert(forall|i: int| 0 <= i < op.len() ==> 'a' <= #[trigger] op[i] <= 'z');
    escape_plain(op);
    let rest = request_fields(c).drop_first();
    assert("op"@.len() != "handle"@.len());
    requests_are_flat(op, rest);
    assert(seq![("op"@, op)] + rest =~= request_fields(c));
    match c {
        CommandView::List => {
            assert(rest =~= Seq::empty());
        },
        CommandView::Status(h) => {
            assert(rest =~= seq![("handle"@, h)]);
        },
        CommandView::Chain(h) => {
            assert(rest =~= seq![("handle"@, h)]);
        },
        CommandView::Remove(h) => {
            assert(rest =~= seq![("handle"@, h)]);
        },
        CommandView::Restart(h) => {
            assert(rest =~= seq![("handle"@, h)]);
        },
        _ => {},
    }
}

/// Where a document says what an add request says, the service in it is what is to
/// be added.
proof fn add_requests_are_read(v: JsonView, service: JsonView)
    requires
        agrees(v, add_doc(service)),
    ensures
        intake_in(Ok(v)) is Service,
        agrees(intake_in(Ok(v))->Service_0, service),
{
    reveal_strlit("op");
    reveal_strlit("service");
    reveal_strlit("list");
    reveal_strlit("status");
    reveal_strlit("chain");
    reveal_strlit("add");
    let entries = add_doc(service)->Object_0;
    assert(entries[0] == ("op"@, JsonView::Text("add"@)));
    assert(entries[1] == ("service"@, service));
    assert(agrees(v.get("op"@)->0, JsonView::Text("add"@)));
    assert("add"@.len() == 3 && "list"@.len() == 4 && "status"@.len() == 6 && "chain"@.len() == 5);
}

/// What a line of input asks for. The flat request that a client writes for a
/// command is read as that command, and the request to add a service as a request to
/// add one that says the same.
pub fn intake(line: &[u8]) -> (r: Intake)
    ensures
        r@ == intake_in(parsed(line@)),
        forall|c: CommandView|
            (#[trigger] request_text(c)) is Some && line@ == encode_utf8(request_text(c)->0) ==> r@
                == IntakeView::Run(c),
        forall|
            handle: Seq<char>,
            manifest: Seq<char>,
            max: Option<u32>,
            window_ms: Option<u64>,
            keep_chain: bool,
        |
            line@ == encode_utf8(
                #[trigger] add_text(handle, manifest, max, window_ms, keep_chain),
            ) ==> r@ is Service && agrees(
                r@->Service_0,
                service_doc(handle, manifest, max, window_ms, keep_chain),
            ),
{
    let doc = parse_json(line);
    proof {
        assert forall|c: CommandView|
            (#[trigger] request_text(c)) is Some && line@ == encode_utf8(
                request_text(c)->0,
            ) implies intake_in(parsed(line@)) == IntakeView::Run(c) by {
            request_is_flat(c);
            flat_docs_are_read(request_fields(c));
            assert(line@ == encode_utf8(doc_text(flat_doc(request_fields(c)))));
            flat_requests_are_read(doc->Ok_0@, c);
        }
        assert forall|
            handle: Seq<char>,
            manifest: Seq<char>,
            max: Option<u32>,
            window_ms: Option<u64>,
            keep_chain: bool,
        |
            line@ == encode_utf8(
                #[trigger] add_text(handle, manifest, max, window_ms, keep_chain),
            ) implies intake_in(parsed(line@)) is Service && agrees(
            intake_in(parsed(line@))->Service_0,
            service_doc(handle, manifest, max, window_ms, keep_chain),
        ) by {
            let service = service_doc(handle, manifest, max, window_ms, keep_chain);
            add_requests_are_written(handle, manifest, max, window_ms, keep_chain);
            assert(line@ == encode_utf8(doc_text(add_doc(service))));
            add_requests_are_read(doc->Ok_0@, service);
        }
    }
    intake_of(doc)
}

/// A request to apply services is read as one.
pub proof fn apply_requests_are_read(services: JsonView)
    ensures
        intake_in(Ok(apply_doc(services))) == IntakeView::Services(services),
{
    reveal_strlit("op");
    reveal_strlit("services");
    reveal_strlit("list");
    reveal_strlit("status");
    reveal_strlit("chain");
    reveal_strlit("add");
    reveal_strlit("remove");
    reveal_strlit("apply");
    let entries = apply_doc(services)->Object_0;
    reveal_with_fuel(entry, 3);
    assert("op"@.len() != "services"@.len());
    assert(entries[0].0 == "op"@);
    assert(entries.drop_first()[0] == entries[1]);
    assert("apply"@[0] != "list"@[0] && "apply"@[0] != "status"@[0] && "apply"@[0] != "chain"@[0]
        && "apply"@[0] != "remove"@[0]);
    assert("apply"@.len() != "add"@.len());
}

/// Completes a request to add: with the service that its document declares, or
/// with the reason why it declares none.
pub fn add_intake(decoded: Result<ServiceCfg, String>) -> (r: Intake)
    ensures
        r@ == (match decoded {
            Ok(c) => IntakeView::Run(CommandView::Add(c@)),
            Err(e) => IntakeView::Refuse(err_text("bad service: "@ + e@)),
        }),
{
    match decoded {
        Ok(c) => Intake::Run(Command::Add(c)),
        Err(e) => Intake::Refuse(err_reply(glue("bad service: ", e.as_str()).as_str())),
    }
}

/// Completes a request to apply: with the services that its document declares,
/// or with the reason why it declares none.
pub fn apply_intake(decoded: Result<Vec<ServiceCfg>, String>) -> (r: Intake)
    ensures
        r@ == (match decoded {
            Ok(c) => IntakeView::Run(CommandView::Apply(cfg_views(c@))),
            Err(e) => IntakeView::Refuse(err_text("bad services: "@ + e@)),
        }),
{
    match decoded {
        Ok(c) => Intake::Run(Command::Apply(c)),
        Err(e) => Intake::Refuse(err_reply(glue("bad services: ", e.as_str()).as_str())),
    }
}

// ---- carrying a request out ------------------------------------------------

/// A spawn that was ordered, and what its answer is needed for.
pub enum Job {
    /// The declared service is added.
    Add(ServiceCfg),
    /// The service at this place is restarted.
    Restart { at: usize },
    /// The first of these is added, and the rest is still to be looked at.
    Apply { rest: Vec<ServiceCfg>, added: usize, removed: usize },
}

/// A job, by its view.
pub enum JobView {
    Add(CfgView),
    Restart { at: int },
    Apply { rest: Seq<CfgView>, added: nat, removed: nat },
}

impl View for Job {
    type V = JobView;

    open spec fn view(&self) -> JobView {
        match self {
            Job::Add(c) => JobView::Add(c@),
            Job::Restart { at } => JobView::Restart { at: *at as int },
            Job::Apply { rest, added, removed } => JobView::Apply {
                rest: cfg_views(rest@),
                added: *added as nat,
                removed: *removed as nat,
            },
        }
    }
}

/// What comes next.
pub enum Next {
    /// The request is done, and answered so.
    Reply(String),
    /// The order is to be carried out, and its answer handed back with the job.
    Spawn { order: SpawnOrder, job: Job },
}

/// What comes next, by its view.
pub enum NextView {
    Reply(Seq<char>),
    Spawn { order: OrderView, job: JobView },
}

impl View for Next {
    type V = NextView;

    open spec fn view(&self) -> NextView {
        match self {
            Next::Reply(r) => NextView::Reply(r@),
            Next::Spawn { order, job } => NextView::Spawn { order: order@, job: job@ },
        }
    }
}

/// How a request is carried out: these actors are stopped, in this order and
/// whatever the answers, and then comes what comes next.
pub struct Plan {
    pub stops: Vec<String>,
    pub next: Next,
}

/// What a request or an answer makes of the roster, with what is to be done.
pub struct Outcome {
    pub services: Seq<SvcView>,
    pub stops: Seq<Seq<char>>,
    pub next: NextView,
}

/// The outcome that answers and changes nothing.
pub open spec fn answered(services: Seq<SvcView>, reply: Seq<char>) -> Outcome {
    Outcome { services, stops: Seq::empty(), next: NextView::Reply(reply) }
}

/// The reply to a request for a handle that is not in the roster.
pub open spec fn unknown_text(h: Seq<char>) -> Seq<char> {
    err_text("unknown handle '"@ + h + "'"@)
}

/// Whether a service is among the declared ones.
pub open spec fn wanted(cfgs: Seq<CfgView>) -> spec_fn(SvcView) -> bool {
    |s: SvcView| exists|j: int| 0 <= j < cfgs.len() && (#[trigger] cfgs[j]).handle == s.handle
}

/// Whether a service is not among the declared ones.
pub open spec fn unwanted(cfgs: Seq<CfgView>) -> spec_fn(SvcView) -> bool {
    |s: SvcView| !wanted(cfgs)(s)
}

/// The ids that services run as.
pub open spec fn ids(services: Seq<SvcView>) -> Seq<Seq<char>> {
    services.map_values(|s: SvcView| s.current_id)
}

/// The declared services from the first on whose handle is not in use.
pub open spec fn missing(services: Seq<SvcView>, cfgs: Seq<CfgView>) -> Seq<CfgView>
    decreases cfgs.len(),
{
    if cfgs.len() > 0 && has_handle(services, cfgs[0].handle) {
        missing(services, cfgs.drop_first())
    } else {
        cfgs
    }
}

/// What comes next while an apply looks at the declared services: the first
/// that is missing is spawned; with none left the changes are counted.
pub open spec fn apply_next(
    services: Seq<SvcView>,
    cfgs: Seq<CfgView>,
    added: nat,
    removed: nat,
) -> NextView {
    let rest = missing(services, cfgs);
    if rest.len() == 0 {
        NextView::Reply(applied_text(added, removed))
    } else {
        NextView::Spawn { order: rest[0].order(), job: JobView::Apply { rest, added, removed } }
    }
}

/// What a request makes of the roster.
pub open spec fn started(services: Seq<SvcView>, c: CommandView) -> Outcome {
    match c {
        CommandView::List => answered(services, roster_text(services)),
        CommandView::Status(h) => match position(services, by_handle(h)) {
            Some(i) => answered(services, service_text(services[i])),
            None => answered(services, unknown_text(h)),
        },
        CommandView::Chain(h) => match position(services, by_handle(h)) {
            Some(i) => answered(services, chain_text(services[i])),
            None => answered(services, unknown_text(h)),
        },
        CommandView::Add(cfg) => if has_handle(services, cfg.handle) {
            answered(services, err_text("handle '"@ + cfg.handle + "' already exists"@))
        } else {
            Outcome {
                services,
                stops: Seq::empty(),
                next: NextView::Spawn { order: cfg.order(), job: JobView::Add(cfg) },
            }
        },
        CommandView::Remove(h) => match position(services, by_handle(h)) {
            Some(i) => Outcome {
                services: services.remove(i),
                stops: seq![services[i].current_id],
                next: NextView::Reply(ok_text("removed "@ + h)),
            },
            None => answered(services, unknown_text(h)),
        },
        CommandView::Apply(cfgs) => {
            let kept = services.filter(wanted(cfgs));
            Outcome {
                services: kept,
                stops: ids(services.filter(unwanted(cfgs))),
                next: apply_next(kept, cfgs, 0, (services.len() - kept.len()) as nat),
            }
        },
        CommandView::Restart(h) => match position(services, by_handle(h)) {
            Some(i) => Outcome {
                services,
                stops: seq![services[i].current_id],
                next: NextView::Spawn {
                    order: services[i].order(),
                    job: JobView::Restart { at: i },
                },
            },
            None => answered(services, unknown_text(h)),
        },
    }
}

impl SvcView {
    /// The service once it was restarted by hand: the window starts afresh, and
    /// a block is lifted.
    pub open spec fn restarted(self, id: Seq<char>) -> SvcView {
        SvcView { current_id: id, restarts: Seq::empty(), blocked: false, ..self }
    }
}

/// The services once a spawn that an apply ordered was answered.
pub open spec fn joined_by(
    services: Seq<SvcView>,
    cfg: CfgView,
    answer: Result<Seq<char>, Seq<char>>,
) -> Seq<SvcView> {
    match answer {
        Ok(id) => services.push(cfg.up(id)),
        Err(_) => services,
    }
}

/// What the answer to a spawn makes of the roster.
pub open spec fn resumed(
    services: Seq<SvcView>,
    job: JobView,
    answer: Result<Seq<char>, Seq<char>>,
) -> Outcome {
    match job {
        JobView::Add(cfg) => match answer {
            Ok(id) => answered(services.push(cfg.up(id)), ok_text("added "@ + cfg.handle)),
            Err(e) => answered(services, err_text("spawn failed: "@ + e)),
        },
        JobView::Restart { at } => match answer {
            Ok(id) => answered(
                services.update(at, services[at].restarted(id)),
                ok_text("restarted "@ + services[at].handle),
            ),
            Err(e) => answered(services, err_text("restart spawn failed: "@ + e)),
        },
        JobView::Apply { rest, added, removed } => {
            let after = joined_by(services, rest[0], answer);
            Outcome {
                services: after,
                stops: Seq::empty(),
                next: apply_next(
                    after,
                    rest.drop_first(),
                    if answer is Ok {
                        added + 1
                    } else {
                        added
                    },
                    removed,
                ),
            }
        },
    }
}

/// Whether a job belongs to this roster: what it adds is not there yet, what it
/// restarts is.
pub open spec fn fits(services: Seq<SvcView>, job: JobView) -> bool {
    match job {
        JobView::Add(cfg) => !has_handle(services, cfg.handle),
        JobView::Restart { at } => 0 <= at < services.len(),
        JobView::Apply { rest, added, removed } => {
            &&& rest.len() > 0
            &&& !has_handle(services, rest[0].handle)
            &&& added + rest.len() <= usize::MAX
        },
    }
}

/// Whether what comes next belongs to this roster.
pub open spec fn next_fits(services: Seq<SvcView>, next: NextView) -> bool {
    match next {
        NextView::Reply(_) => true,
        NextView::Spawn { order: _, job } => fits(services, job),
    }
}

/// What is missing starts with something missing, and is part of what was
/// declared.
proof fn missing_first(services: Seq<SvcView>, cfgs: Seq<CfgView>)
    ensures
        missing(services, cfgs).len() <= cfgs.len(),
        missing(services, cfgs).len() > 0 ==> !has_handle(
            services,
            missing(services, cfgs)[0].handle,
        ),
    decreases cfgs.len(),
{
    if cfgs.len() > 0 && has_handle(services, cfgs[0].handle) {
        missing_first(services, cfgs.drop_first());
    }
}

/// Looks for the next service that an apply has to add.
fn advance(services: &Vec<Svc>, cfgs: Vec<ServiceCfg>, added: usize, removed: usize) -> (r: Next)
    requires
        added + cfgs@.len() <= usize::MAX,
    ensures
        r@ == apply_next(svc_views(services@), cfg_views(cfgs@), added as nat, removed as nat),
        next_fits(svc_views(services@), r@),
{
    let ghost all = svc_views(services@);
    let ghost start = cfg_views(cfgs@);
    let mut rest = cfgs;
    while rest.len() > 0 && find_handle(services, rest[0].handle.as_str()).is_some()
        invariant
            all == svc_views(services@),
            missing(all, start) == missing(all, cfg_views(rest@)),
            added + rest@.len() <= usize::MAX,
        decreases rest@.len(),
    {
        proof {
            position_first(all, by_handle(rest@[0].handle@));
            let i = position(all, by_handle(rest@[0].handle@))->0;
            assert(all[i].handle == rest@[0].handle@);
            assert(cfg_views(rest@)[0] == rest@[0]@);
        }
        let ghost full = rest@;
        rest.remove(0);
        assert(cfg_views(rest@) =~= cfg_views(full).drop_first());
    }
    proof {
        if rest@.len() > 0 {
            assert(cfg_views(rest@)[0] == rest@[0]@);
        }
    }
    if rest.len() == 0 {
        Next::Reply(applied_reply(added, removed))
    } else {
        let order = rest[0].order();
        Next::Spawn { order, job: Job::Apply { rest, added, removed } }
    }
}

/// Whether a handle is declared.
fn declared(cfgs: &Vec<ServiceCfg>, s: &Svc) -> (r: bool)
    ensures
        r == wanted(cfg_views(cfgs@))(s@),
{
    let ghost all = cfg_views(cfgs@);
    let mut i: usize = 0;
    while i < cfgs.len()
        invariant
            i <= cfgs@.len(),
            all == cfg_views(cfgs@),
            forall|k: int| 0 <= k < i ==> (#[trigger] all[k]).handle != s.handle@,
        decreases cfgs@.len() - i,
    {
        assert(all[i as int] == cfgs@[i as int]@);
        if same(cfgs[i].handle.as_str(), s.handle.as_str()) {
            return true;
        }
        i += 1;
    }
    false
}

/// Takes the services out of the roster that are not declared, and says what
/// they ran as.
fn prune(services: &mut Vec<Svc>, cfgs: &Vec<ServiceCfg>) -> (r: Vec<String>)
    ensures
        svc_views(final(services)@) == svc_views(old(services)@).filter(wanted(cfg_views(cfgs@))),
        texts(r@) == ids(svc_views(old(services)@).filter(unwanted(cfg_views(cfgs@)))),
        final(services)@.len() <= old(services)@.len(),
{
    let ghost all = svc_views(services@);
    let ghost yes = wanted(cfg_views(cfgs@));
    let ghost no = unwanted(cfg_views(cfgs@));
    let mut stops: Vec<String> = Vec::new();
    let mut i: usize = 0;
    let ghost mut p: int = 0;
    proof {
        reveal(Seq::filter);
        assert(all.take(0) =~= Seq::empty());
        assert(all.take(0).filter(yes) + all.skip(0) =~= all);
        assert(texts(stops@) =~= ids(all.take(0).filter(no)));
    }
    while i < services.len()
        invariant
            0 <= p <= all.len(),
            yes == wanted(cfg_views(cfgs@)),
            no == unwanted(cfg_views(cfgs@)),
            svc_views(services@) == all.take(p).filter(yes) + all.skip(p),
            i == all.take(p).filter(yes).len(),
            services@.len() <= all.len(),
            texts(stops@) == ids(all.take(p).filter(no)),
        decreases all.len() - p,
    {
        proof {
            reveal(Seq::filter);
            assert(svc_views(services@)[i as int] == all.skip(p)[0]);
            assert(all.take(p + 1).drop_last() =~= all.take(p));
            assert(all.take(p + 1).last() == services@[i as int]@);
        }
        if declared(cfgs, &services[i]) {
            i += 1;
            assert(svc_views(services@) =~= all.take(p + 1).filter(yes) + all.skip(p + 1));
            assert(all.take(p + 1).filter(no) == all.take(p).filter(no));
        } else {
            let ghost full = svc_views(services@);
            let ghost before = texts(stops@);
            let id = services[i].current_id.clone();
            stops.push(id);
            assert(texts(stops@) =~= before.push(id@));
            assert(ids(all.take(p).filter(no).push(all[p])) =~= ids(all.take(p).filter(no)).push(
                all[p].current_id,
            ));
            services.remove(i);
            assert(svc_views(services@) =~= full.remove(i as int));
            assert(svc_views(services@) =~= all.take(p + 1).filter(yes) + all.skip(p + 1));
            assert(texts(stops@) =~= ids(all.take(p + 1).filter(no)));
        }
        proof {
            p = p + 1;
        }
    }
    proof {
        assert(all.skip(p).len() == 0);
        assert(p == all.len());
        assert(all.take(p) =~= all);
        assert(svc_views(services@) =~= all.filter(yes));
    }
    stops
}

/// Refuses a request for a handle that is not in the roster.
fn unknown_reply(h: &str) -> (r: String)
    ensures
        r@ == unknown_text(h@),
{
    err_reply(glue3("unknown handle '", h, "'").as_str())
}

/// The plan that answers and stops nothing.
fn answer(reply: String) -> (r: Plan)
    ensures
        r.stops@.len() == 0,
        r.next@ == NextView::Reply(reply@),
{
    Plan { stops: Vec::new(), next: Next::Reply(reply) }
}

/// Carries a request out, as far as that goes without a spawn.
pub fn start(st: &mut SupervisorState, c: Command) -> (r: Plan)
    requires
        old(st)@.wf(),
    ensures
        final(st)@.wf(),
        final(st)@ == (StateView { services: started(old(st)@.services, c@).services, ..old(st)@ }),
        texts(r.stops@) == started(old(st)@.services, c@).stops,
        r.next@ == started(old(st)@.services, c@).next,
        next_fits(final(st)@.services, r.next@),
{
    let ghost before = st@.services;
    match c {
        Command::List => answer(roster_reply(st)),
        Command::Status(h) => {
            match find_handle(&st.services, h.as_str()) {
                Some(i) => answer(service_reply(&st.services[i])),
                None => answer(unknown_reply(h.as_str())),
            }
        },
        Command::Chain(h) => {
            match find_handle(&st.services, h.as_str()) {
                Some(i) => answer(chain_reply(&st.services[i])),
                None => answer(unknown_reply(h.as_str())),
            }
        },
        Command::Add(cfg) => {
            proof {
                position_first(before, by_handle(cfg.handle@));
            }
            if find_handle(&st.services, cfg.handle.as_str()).is_some() {
                return answer(
                    err_reply(
                        glue3("handle '", cfg.handle.as_str(), "' already exists").as_str(),
                    ),
                );
            }
            let order = cfg.order();
            let plan = Plan { stops: Vec::new(), next: Next::Spawn { order, job: Job::Add(cfg) } };
            assert(texts(plan.stops@) =~= Seq::empty());
            plan
        },
        Command::Remove(h) => {
            match find_handle(&st.services, h.as_str()) {
                Some(i) => {
                    let id = st.services[i].current_id.clone();
                    st.services.remove(i);
                    assert(svc_views(st.services@) =~= before.remove(i as int));
                    assert(all_wf(before.remove(i as int))) by {
                        assert forall|k: int| 0 <= k < before.len() - 1 implies (
                        #[trigger] before.remove(i as int)[k]).wf() by {
                            assert(before[k].wf());
                            assert(before[k + 1].wf());
                        }
                    }
                    let mut stops: Vec<String> = Vec::new();
                    stops.push(id);
                    assert(texts(stops@) =~= seq![before[i as int].current_id]);
                    Plan { stops, next: Next::Reply(ok_msg(glue("removed ", h.as_str()).as_str())) }
                },
                None => answer(unknown_reply(h.as_str())),
            }
        },
        Command::Apply(cfgs) => {
            let n: usize = st.services.len();
            let stops = prune(&mut st.services, &cfgs);
            proof {
                let w = wanted(cfg_views(cfgs@));
                assert forall|k: int| 0 <= k < before.filter(w).len() implies (
                #[trigger] before.filter(w)[k]).wf() by {
                    before.lemma_filter_contains_rev(w, before.filter(w)[k]);
                }
            }
            let removed: usize = n - st.services.len();
            assert(cfgs@.len() == cfgs.len());
            let next = advance(&st.services, cfgs, 0, removed);
            Plan { stops, next }
        },
        Command::Restart(h) => {
            match find_handle(&st.services, h.as_str()) {
                Some(at) => {
                    let mut stops: Vec<String> = Vec::new();
                    stops.push(st.services[at].current_id.clone());
                    assert(texts(stops@) =~= seq![before[at as int].current_id]);
                    let order = st.services[at].order();
                    Plan { stops, next: Next::Spawn { order, job: Job::Restart { at } } }
                },
                None => answer(unknown_reply(h.as_str())),
            }
        },
    }
}

/// Goes on with a request once its spawn was answered.
pub fn resume(st: &mut SupervisorState, job: Job, answer: Result<String, String>) -> (r: Next)
    requires
        old(st)@.wf(),
        fits(old(st)@.services, job@),
    ensures
        final(st)@.wf(),
        final(st)@ == (StateView {
            services: resumed(old(st)@.services, job@, text_result(answer)).services,
            ..old(st)@
        }),
        r@ == resumed(old(st)@.services, job@, text_result(answer)).next,
        next_fits(final(st)@.services, r@),
{
    let ghost before = st@.services;
    match job {
        Job::Add(cfg) => match answer {
            Ok(id) => {
                let reply = ok_msg(glue("added ", cfg.handle.as_str()).as_str());
                let svc = cfg.up(id);
                st.services.push(svc);
                assert(svc_views(st.services@) =~= before.push(svc@));
                Next::Reply(reply)
            },
            Err(e) => Next::Reply(err_reply(glue("spawn failed: ", e.as_str()).as_str())),
        },
        Job::Restart { at } => match answer {
            Ok(id) => {
                let reply = ok_msg(glue("restarted ", st.services[at].handle.as_str()).as_str());
                assert(before[at as int].wf());
                st.services[at].current_id = id;
                st.services[at].restarts = Vec::new();
                st.services[at].blocked = false;
                assert(st.services@[at as int]@ =~= before[at as int].restarted(id@));
                assert(svc_views(st.services@) =~= before.update(
                    at as int,
                    before[at as int].restarted(id@),
                ));
                Next::Reply(reply)
            },
            Err(e) => Next::Reply(err_reply(glue("restart spawn failed: ", e.as_str()).as_str())),
        },
        Job::Apply { rest, added, removed } => {
            let ghost full = rest@;
            let mut rest = rest;
            let mut added: usize = added;
            let cfg = rest.remove(0);
            assert(cfg_views(rest@) =~= cfg_views(full).drop_first());
            match answer {
                Ok(id) => {
                    let svc = cfg.up(id);
                    st.services.push(svc);
                    assert(svc_views(st.services@) =~= before.push(svc@));
                    added += 1;
                },
                Err(_) => {},
            }
            advance(&st.services, rest, added, removed)
        },
    }
}

// ---- what requests keep ----------------------------------------------------

/// The roster and the reply at the end of a request whose spawns are answered so,
/// one after another.
pub open spec fn run(
    services: Seq<SvcView>,
    next: NextView,
    answers: Seq<Result<Seq<char>, Seq<char>>>,
) -> (Seq<SvcView>, Option<Seq<char>>)
    decreases answers.len(),
{
    match next {
        NextView::Reply(r) => (services, Some(r)),
        NextView::Spawn { order: _, job } => if answers.len() == 0 {
            (services, None)
        } else {
            let o = resumed(services, job, answers[0]);
            run(o.services, o.next, answers.drop_first())
        },
    }
}

/// The roster and the reply at the end of a request.
pub open spec fn carried_out(
    services: Seq<SvcView>,
    c: CommandView,
    answers: Seq<Result<Seq<char>, Seq<char>>>,
) -> (Seq<SvcView>, Option<Seq<char>>) {
    run(started(services, c).services, started(services, c).next, answers)
}

/// Requests that only look leave the roster as it is, with nothing to stop or
/// spawn.
pub proof fn looking_changes_nothing(services: Seq<SvcView>, c: CommandView)
    requires
        c is List || c is Status || c is Chain,
    ensures
        started(services, c).services == services,
        started(services, c).stops.len() == 0,
        started(services, c).next is Reply,
{
}

/// A request for a handle that is not in the roster is refused and changes
/// nothing.
pub proof fn unknown_handles_are_refused(services: Seq<SvcView>, c: CommandView, h: Seq<char>)
    requires
        c == CommandView::Status(h) || c == CommandView::Chain(h) || c == CommandView::Remove(h) || c
            == CommandView::Restart(h),
        !has_handle(services, h),
    ensures
        started(services, c) == answered(services, unknown_text(h)),
{
    position_first(services, by_handle(h));
}

/// Adding a handle that is in use is refused and changes nothing.
pub proof fn known_handles_are_not_added(services: Seq<SvcView>, cfg: CfgView)
    requires
        has_handle(services, cfg.handle),
    ensures
        started(services, CommandView::Add(cfg)).services == services,
        started(services, CommandView::Add(cfg)).stops.len() == 0,
        started(services, CommandView::Add(cfg)).next is Reply,
{
}

/// A spawn that fails leaves the roster as it is.
pub proof fn failed_spawns_change_nothing(services: Seq<SvcView>, job: JobView, why: Seq<char>)
    ensures
        resumed(services, job, Err(why)).services == services,
{
}

/// Adding puts the declared service at the end of the roster, and nothing else
/// changes.
pub proof fn adding_adds(services: Seq<SvcView>, cfg: CfgView, id: Seq<char>)
    requires
        !has_handle(services, cfg.handle),
    ensures
        carried_out(services, CommandView::Add(cfg), seq![Ok(id)]).0 == services.push(cfg.up(id)),
{
    reveal_with_fuel(run, 3);
}

/// Removing takes out the service with the handle, whose actor is stopped, and
/// keeps the others in their order. Where handles are distinct, the handle is
/// gone.
pub proof fn removing_removes(services: Seq<SvcView>, h: Seq<char>)
    requires
        has_handle(services, h),
    ensures
        ({
            let o = started(services, CommandView::Remove(h));
            exists|i: int|
                0 <= i < services.len() && (#[trigger] services[i]).handle == h && o.services
                    == services.remove(i) && o.stops == seq![services[i].current_id]
        }),
        distinct(services) ==> !has_handle(
            started(services, CommandView::Remove(h)).services,
            h,
        ),
{
    position_first(services, by_handle(h));
    let i = position(services, by_handle(h))->0;
    assert(services[i].handle == h);
    if distinct(services) {
        let left = services.remove(i);
        assert forall|k: int| 0 <= k < left.len() implies (#[trigger] left[k]).handle != h by {
            if k < i {
                assert(left[k] == services[k]);
            } else {
                assert(left[k] == services[k + 1]);
            }
        }
    }
}

/// A service that was removed can be added again.
pub proof fn removed_can_return(services: Seq<SvcView>, cfg: CfgView)
    requires
        distinct(services),
        has_handle(services, cfg.handle),
    ensures
        started(started(services, CommandView::Remove(cfg.handle)).services, CommandView::Add(cfg)).next
            is Spawn,
{
    removing_removes(services, cfg.handle);
}

/// A manual restart stops the actor that runs, keeps all that is declared, starts
/// the window afresh and lifts a block; no other service changes.
pub proof fn restarting_restarts(services: Seq<SvcView>, h: Seq<char>, id: Seq<char>, k: int)
    requires
        has_handle(services, h),
        0 <= k < services.len(),
    ensures
        ({
            let o = started(services, CommandView::Restart(h));
            let end = carried_out(services, CommandView::Restart(h), seq![Ok(id)]).0;
            let i = position(services, by_handle(h))->0;
            &&& 0 <= i < services.len()
            &&& services[i].handle == h
            &&& o.stops == seq![services[i].current_id]
            &&& end.len() == services.len()
            &&& k != i ==> end[k] == services[k]
            &&& k == i ==> end[k] == services[k].restarted(id)
        }),
{
    position_first(services, by_handle(h));
    reveal_with_fuel(run, 3);
}

/// After a manual restart the next crash is answered with a restart again, as
/// long as any is allowed.
pub proof fn restarting_rearms(s: SvcView, id: Seq<char>, now: u64)
    requires
        s.max > 0,
    ensures
        s.restarted(id).respawns(now),
{
    reveal(Seq::filter);
}

/// Whether a service is one of the declared ones, brought up with one of the ids
/// that spawns were answered with.
spec fn came_up(
    cfgs: Seq<CfgView>,
    answers: Seq<Result<Seq<char>, Seq<char>>>,
    s: SvcView,
) -> bool {
    exists|j: int, a: int|
        0 <= j < cfgs.len() && 0 <= a < answers.len() && (#[trigger] answers[a]) is Ok && s == (
        #[trigger] cfgs[j]).up(answers[a]->Ok_0)
}

/// What is known at the end of an apply that still has declared services to look
/// at.
proof fn apply_run(
    services: Seq<SvcView>,
    cfgs: Seq<CfgView>,
    added: nat,
    removed: nat,
    answers: Seq<Result<Seq<char>, Seq<char>>>,
)
    requires
        answers.len() >= cfgs.len(),
    ensures
        ({
            let (end, reply) = run(services, apply_next(services, cfgs, added, removed), answers);
            &&& end.len() >= services.len()
            &&& end.take(services.len() as int) == services
            &&& forall|k: int|
                services.len() <= k < end.len() ==> wanted(cfgs)(#[trigger] end[k])
            &&& forall|k: int|
                services.len() <= k < end.len() ==> came_up(cfgs, answers, #[trigger] end[k])
            &&& reply == Some(
                applied_text((added + end.len() - services.len()) as nat, removed),
            )
            &&& distinct(services) ==> distinct(end)
            &&& (forall|k: int| 0 <= k < answers.len() ==> (#[trigger] answers[k]) is Ok) ==> forall|j: int|
                0 <= j < cfgs.len() ==> has_handle(end, (#[trigger] cfgs[j]).handle)
        }),
    decreases cfgs.len(),
{
    let next = apply_next(services, cfgs, added, removed);
    let (end, reply) = run(services, next, answers);
    if cfgs.len() == 0 {
        assert(end.take(services.len() as int) =~= services);
    } else if has_handle(services, cfgs[0].handle) {
        let less = cfgs.drop_first();
        assert(next == apply_next(services, less, added, removed));
        apply_run(services, less, added, removed, answers);
        assert forall|k: int| services.len() <= k < end.len() implies wanted(cfgs)(#[trigger] end[k]) by {
            assert(wanted(less)(end[k]));
            let j = choose|j: int| 0 <= j < less.len() && (#[trigger] less[j]).handle == end[k].handle;
            assert(cfgs[j + 1] == less[j]);
        }
        assert forall|k: int| services.len() <= k < end.len() implies came_up(
            cfgs,
            answers,
            #[trigger] end[k],
        ) by {
            assert(came_up(less, answers, end[k]));
            let (j, a) = choose|j: int, a: int|
                0 <= j < less.len() && 0 <= a < answers.len() && (#[trigger] answers[a]) is Ok
                    && end[k] == (#[trigger] less[j]).up(answers[a]->Ok_0);
            assert(cfgs[j + 1] == less[j]);
            assert(answers[a] is Ok && end[k] == cfgs[j + 1].up(answers[a]->Ok_0));
        }
        assert forall|j: int|
            0 <= j < cfgs.len() && (forall|k: int|
                0 <= k < answers.len() ==> (#[trigger] answers[k]) is Ok) implies has_handle(
            end,
            (#[trigger] cfgs[j]).handle,
        ) by {
            if j == 0 {
                let i = choose|i: int|
                    0 <= i < services.len() && (#[trigger] services[i]).handle == cfgs[0].handle;
                assert(end[i] == end.take(services.len() as int)[i]);
            } else {
                assert(cfgs[j] == less[j - 1]);
            }
        }
    } else {
        let less = cfgs.drop_first();
        let answer = answers[0];
        let later = answers.drop_first();
        let mid = joined_by(services, cfgs[0], answer);
        let count: nat = if answer is Ok {
            added + 1
        } else {
            added
        };
        apply_run(mid, less, count, removed, later);
        assert((end, reply) == run(mid, apply_next(mid, less, count, removed), later));
        assert(end.take(services.len() as int) =~= end.take(mid.len() as int).take(
            services.len() as int,
        ));
        assert(mid.take(services.len() as int) =~= services);
        assert forall|k: int| services.len() <= k < end.len() implies wanted(cfgs)(#[trigger] end[k]) by {
            if k >= mid.len() {
                assert(wanted(less)(end[k]));
                let j = choose|j: int|
                    0 <= j < less.len() && (#[trigger] less[j]).handle == end[k].handle;
                assert(cfgs[j + 1] == less[j]);
            } else {
                assert(end[k] == end.take(mid.len() as int)[k]);
                assert(cfgs[0].handle == end[k].handle);
            }
        }
        assert forall|k: int| services.len() <= k < end.len() implies came_up(
            cfgs,
            answers,
            #[trigger] end[k],
        ) by {
            if k >= mid.len() {
                assert(came_up(less, later, end[k]));
                let (j, a) = choose|j: int, a: int|
                    0 <= j < less.len() && 0 <= a < later.len() && (#[trigger] later[a]) is Ok
                        && end[k] == (#[trigger] less[j]).up(later[a]->Ok_0);
                assert(cfgs[j + 1] == less[j]);
                assert(answers[a + 1] == later[a]);
                assert(answers[a + 1] is Ok && end[k] == cfgs[j + 1].up(answers[a + 1]->Ok_0));
            } else {
                assert(end[k] == end.take(mid.len() as int)[k]);
                assert(answers[0] is Ok && end[k] == cfgs[0].up(answers[0]->Ok_0));
            }
        }
        if distinct(services) {
            assert forall|i: int, j: int| 0 <= i < j < mid.len() implies (#[trigger] mid[i]).handle != (
            #[trigger] mid[j]).handle by {
                if j == services.len() {
                    assert(mid[i] == services[i]);
                }
            }
        }
        assert forall|j: int|
            0 <= j < cfgs.len() && (forall|k: int|
                0 <= k < answers.len() ==> (#[trigger] answers[k]) is Ok) implies has_handle(
            end,
            (#[trigger] cfgs[j]).handle,
        ) by {
            assert forall|k: int| 0 <= k < later.len() implies (#[trigger] later[k]) is Ok by {
                assert(later[k] == answers[k + 1]);
            }
            if j == 0 {
                let at = services.len() as int;
                assert(answers[0] is Ok);
                assert(end[at] == end.take(mid.len() as int)[at]);
                assert(end[at].handle == cfgs[0].handle);
            } else {
                assert(cfgs[j] == less[j - 1]);
            }
        }
    }
}

/// An apply keeps the services that are declared as they are and in their order,
/// stops the others, and puts what was missing behind them. At its end every
/// service is a declared one; where every spawn succeeds, every declared one is
/// there. The reply counts the services added and removed.
pub proof fn applying_reaches_the_roster(
    services: Seq<SvcView>,
    cfgs: Seq<CfgView>,
    answers: Seq<Result<Seq<char>, Seq<char>>>,
)
    requires
        answers.len() >= cfgs.len(),
    ensures
        ({
            let kept = services.filter(wanted(cfgs));
            let (end, reply) = carried_out(services, CommandView::Apply(cfgs), answers);
            &&& started(services, CommandView::Apply(cfgs)).stops == ids(
                services.filter(unwanted(cfgs)),
            )
            &&& kept.len() <= services.len()
            &&& end.len() >= kept.len()
            &&& end.take(kept.len() as int) == kept
            &&& forall|k: int| 0 <= k < end.len() ==> wanted(cfgs)(#[trigger] end[k])
            &&& (forall|k: int| 0 <= k < answers.len() ==> (#[trigger] answers[k]) is Ok) ==> forall|j: int|
                0 <= j < cfgs.len() ==> has_handle(end, (#[trigger] cfgs[j]).handle)
            &&& reply == Some(
                applied_text(
                    (end.len() - kept.len()) as nat,
                    (services.len() - kept.len()) as nat,
                ),
            )
        }),
{
    let kept = services.filter(wanted(cfgs));
    services.lemma_filter_len(wanted(cfgs));
    apply_run(kept, cfgs, 0, (services.len() - kept.len()) as nat, answers);
    let (end, reply) = carried_out(services, CommandView::Apply(cfgs), answers);
    assert forall|k: int| 0 <= k < end.len() implies wanted(cfgs)(#[trigger] end[k]) by {
        if k < kept.len() {
            assert(end[k] == end.take(kept.len() as int)[k]);
            services.lemma_filter_pred(wanted(cfgs), k);
        }
    }
}

/// Where all is wanted, nothing is filtered out.
proof fn filter_all(services: Seq<SvcView>, p: spec_fn(SvcView) -> bool)
    requires
        forall|k: int| 0 <= k < services.len() ==> p(#[trigger] services[k]),
    ensures
        services.filter(p) == services,
        services.filter(|s: SvcView| !p(s)).len() == 0,
    decreases services.len(),
{
    reveal(Seq::filter);
    if services.len() > 0 {
        let front = services.drop_last();
        assert forall|k: int| 0 <= k < front.len() implies p(#[trigger] front[k]) by {
            assert(front[k] == services[k]);
        }
        filter_all(front, p);
        assert(p(services[services.len() - 1]));
        assert(front.push(services.last()) =~= services);
    }
}

/// Where every declared service is there, nothing is missing.
proof fn nothing_missing(services: Seq<SvcView>, cfgs: Seq<CfgView>)
    requires
        forall|j: int| 0 <= j < cfgs.len() ==> has_handle(services, (#[trigger] cfgs[j]).handle),
    ensures
        missing(services, cfgs).len() == 0,
    decreases cfgs.len(),
{
    if cfgs.len() > 0 {
        assert(has_handle(services, cfgs[0].handle));
        let less = cfgs.drop_first();
        assert forall|j: int| 0 <= j < less.len() implies has_handle(
            services,
            (#[trigger] less[j]).handle,
        ) by {
            assert(less[j] == cfgs[j + 1]);
        }
        nothing_missing(services, less);
    }
}

/// Applying the same roster once more, after every spawn has succeeded, stops
/// nothing, spawns nothing and changes nothing.
pub proof fn applying_again_changes_nothing(
    services: Seq<SvcView>,
    cfgs: Seq<CfgView>,
    answers: Seq<Result<Seq<char>, Seq<char>>>,
)
    requires
        answers.len() >= cfgs.len(),
        forall|k: int| 0 <= k < answers.len() ==> (#[trigger] answers[k]) is Ok,
    ensures
        ({
            let end = carried_out(services, CommandView::Apply(cfgs), answers).0;
            started(end, CommandView::Apply(cfgs)) == answered(end, applied_text(0, 0))
        }),
{
    let end = carried_out(services, CommandView::Apply(cfgs), answers).0;
    applying_reaches_the_roster(services, cfgs, answers);
    filter_all(end, wanted(cfgs));
    assert(unwanted(cfgs) =~= (|s: SvcView| !wanted(cfgs)(s)));
    nothing_missing(end, cfgs);
    assert(ids(end.filter(unwanted(cfgs))) =~= Seq::empty());
}

/// No request makes two services share a handle: what was distinct stays so.
pub proof fn handles_stay_distinct(
    services: Seq<SvcView>,
    c: CommandView,
    answers: Seq<Result<Seq<char>, Seq<char>>>,
)
    requires
        distinct(services),
        c matches CommandView::Apply(cfgs) ==> answers.len() >= cfgs.len(),
    ensures
        distinct(carried_out(services, c, answers).0),
{
    reveal_with_fuel(run, 3);
    match c {
        CommandView::Apply(cfgs) => {
            let kept = services.filter(wanted(cfgs));
            filter_distinct(services, wanted(cfgs));
            apply_run(kept, cfgs, 0, (services.len() - kept.len()) as nat, answers);
        },
        CommandView::Remove(h) => {
            position_first(services, by_handle(h));
            match position(services, by_handle(h)) {
                Some(i) => {
                    let left = services.remove(i);
                    assert forall|a: int, b: int| 0 <= a < b < left.len() implies (
                    #[trigger] left[a]).handle != (#[trigger] left[b]).handle by {
                        let x = if a < i {
                            a
                        } else {
                            a + 1
                        };
                        let y = if b < i {
                            b
                        } else {
                            b + 1
                        };
                        assert(left[a] == services[x] && left[b] == services[y]);
                    }
                },
                None => {},
            }
        },
        CommandView::Restart(h) => {
            position_first(services, by_handle(h));
            let end = carried_out(services, c, answers).0;
            assert forall|a: int, b: int| 0 <= a < b < end.len() implies (#[trigger] end[a]).handle != (
            #[trigger] end[b]).handle by {
                assert(end[a].handle == services[a].handle);
                assert(end[b].handle == services[b].handle);
            }
        },
        CommandView::Add(cfg) => {
            let end = carried_out(services, c, answers).0;
            assert forall|a: int, b: int| 0 <= a < b < end.len() implies (#[trigger] end[a]).handle != (
            #[trigger] end[b]).handle by {
                assert(end[a] == services[a]);
                if b < services.len() {
                    assert(end[b] == services[b]);
                }
            }
        },
        _ => {},
    }
}

/// Filtering keeps handles distinct.
proof fn filter_distinct(services: Seq<SvcView>, p: spec_fn(SvcView) -> bool)
    requires
        distinct(services),
    ensures
        distinct(services.filter(p)),
    decreases services.len(),
{
    reveal(Seq::filter);
    if services.len() > 0 {
        let front = services.drop_last();
        assert forall|a: int, b: int| 0 <= a < b < front.len() implies (#[trigger] front[a]).handle != (
        #[trigger] front[b]).handle by {
            assert(front[a] == services[a] && front[b] == services[b]);
        }
        filter_distinct(front, p);
        let kept = front.filter(p);
        if p(services.last()) {
            assert forall|a: int, b: int| 0 <= a < b < kept.len() + 1 implies (#[trigger] kept.push(
                services.last(),
            )[a]).handle != (#[trigger] kept.push(services.last())[b]).handle by {
                if b == kept.len() {
                    front.lemma_filter_contains_rev(p, kept[a]);
                    let k = choose|k: int| 0 <= k < front.len() && front[k] == kept[a];
                    assert(services[k] == kept[a]);
                    assert(services[k].handle != services[services.len() - 1].handle);
                }
            }
        }
    }
}

// ---- what requests are for -------------------------------------------------

/// Each request is told from the others by the name of its operation, and asks for
/// the handle or the declaration that the document carries.
pub proof fn requests_are_told_apart(v: JsonView, h: Seq<char>, j: JsonView)
    ensures
        v.get("op"@) == Some(JsonView::Text("list"@)) ==> intake_in(Ok(v)) == IntakeView::Run(
            CommandView::List,
        ),
        v.get("handle"@) == Some(JsonView::Text(h)) ==> {
            &&& v.get("op"@) == Some(JsonView::Text("status"@)) ==> intake_in(Ok(v))
                == IntakeView::Run(CommandView::Status(h))
            &&& v.get("op"@) == Some(JsonView::Text("chain"@)) ==> intake_in(Ok(v))
                == IntakeView::Run(CommandView::Chain(h))
            &&& v.get("op"@) == Some(JsonView::Text("remove"@)) ==> intake_in(Ok(v))
                == IntakeView::Run(CommandView::Remove(h))
            &&& v.get("op"@) == Some(JsonView::Text("restart"@)) ==> intake_in(Ok(v))
                == IntakeView::Run(CommandView::Restart(h))
        },
        v.get("op"@) == Some(JsonView::Text("add"@)) && v.get("service"@) == Some(j) ==> intake_in(
            Ok(v),
        ) == IntakeView::Service(j),
        v.get("op"@) == Some(JsonView::Text("apply"@)) && v.get("services"@) == Some(j)
            ==> intake_in(Ok(v)) == IntakeView::Services(j),
        !(v.get("handle"@) is Some && v.get("handle"@)->0 is Text) && (v.get("op"@) == Some(
            JsonView::Text("status"@),
        ) || v.get("op"@) == Some(JsonView::Text("chain"@)) || v.get("op"@) == Some(
            JsonView::Text("remove"@),
        ) || v.get("op"@) == Some(JsonView::Text("restart"@))) ==> intake_in(Ok(v)) == IntakeView::Refuse(
            err_text(v.get("op"@)->0->Text_0 + ": handle required"@),
        ),
        v.get("op"@) == Some(JsonView::Text("add"@)) && v.get("service"@) is None ==> intake_in(Ok(v))
            == IntakeView::Service(JsonView::Null),
        v.get("op"@) == Some(JsonView::Text("apply"@)) && v.get("services"@) is None ==> intake_in(
            Ok(v),
        ) == IntakeView::Services(JsonView::Null),
        intake_in(Err(h)) == IntakeView::Refuse(err_text("bad JSON: "@ + h)),
        !(v.get("op"@) is Some && v.get("op"@)->0 is Text) ==> intake_in(Ok(v)) is Refuse,
        v.get("op"@) == Some(JsonView::Text(h)) && h != "list"@ && h != "status"@ && h != "chain"@
            && h != "add"@ && h != "remove"@ && h != "apply"@ && h != "restart"@ ==> intake_in(Ok(v))
            == IntakeView::Refuse(err_text("unknown op '"@ + h + "'"@)),
{
    reveal_strlit("list");
    reveal_strlit("status");
    reveal_strlit("chain");
    reveal_strlit("add");
    reveal_strlit("remove");
    reveal_strlit("apply");
    reveal_strlit("restart");
    reveal_strlit(": handle required");
    reveal_strlit("status: handle required");
    reveal_strlit("chain: handle required");
    reveal_strlit("remove: handle required");
    reveal_strlit("restart: handle required");
    assert("status"@ + ": handle required"@ =~= "status: handle required"@);
    assert("chain"@ + ": handle required"@ =~= "chain: handle required"@);
    assert("remove"@ + ": handle required"@ =~= "remove: handle required"@);
    assert("restart"@ + ": handle required"@ =~= "restart: handle required"@);
    assert("list"@[0] == 'l' && "status"@[0] == 's' && "chain"@[0] == 'c' && "add"@[0] == 'a'
        && "remove"@[0] == 'r' && "apply"@[0] == 'a' && "restart"@[0] == 'r');
    assert("add"@.len() != "apply"@.len() && "remove"@.len() != "restart"@.len());
    assert("list"@.len() > 0 && "status"@.len() > 0 && "chain"@.len() > 0 && "add"@.len() > 0
        && "remove"@.len() > 0 && "apply"@.len() > 0 && "restart"@.len() > 0);
}

/// What is shown for a handle is the service of that handle, and none else: a
/// status describes it, a chain lists what it keeps. A list shows all services.
pub proof fn the_service_asked_for_is_shown(services: Seq<SvcView>, h: Seq<char>, i: int)
    requires
        0 <= i < services.len(),
        services[i].handle == h,
        forall|k: int| 0 <= k < i ==> (#[trigger] services[k]).handle != h,
    ensures
        started(services, CommandView::Status(h)).next == NextView::Reply(service_text(services[i])),
        started(services, CommandView::Chain(h)).next == NextView::Reply(chain_text(services[i])),
        started(services, CommandView::List).next == NextView::Reply(roster_text(services)),
{
    position_first(services, by_handle(h));
    assert(by_handle(h)(services[i]));
    match position(services, by_handle(h)) {
        Some(j) => {
            assert(services[j].handle == h);
            assert(i == j);
        },
        None => {},
    }
}

/// A request for a handle that no service has is refused with a reply that names
/// the handle, and nothing is changed, stopped or spawned.
pub proof fn no_service_no_answer(services: Seq<SvcView>, h: Seq<char>, c: CommandView)
    requires
        forall|k: int| 0 <= k < services.len() ==> (#[trigger] services[k]).handle != h,
        c == CommandView::Status(h) || c == CommandView::Chain(h) || c == CommandView::Remove(h) || c
            == CommandView::Restart(h),
    ensures
        started(services, c).services == services,
        started(services, c).stops.len() == 0,
        started(services, c).next == NextView::Reply(err_text("unknown handle '"@ + h + "'"@)),
{
    position_first(services, by_handle(h));
}

/// Adding a service orders the spawn of its manifest. Where it is answered with an
/// id, the service stands at the end of the roster, with all that was declared for
/// it, and the reply names it; where the spawn fails, the reply says so. No service
/// that was there changes, and a handle that is in use is refused.
pub proof fn an_add_brings_the_service_up(
    services: Seq<SvcView>,
    cfg: CfgView,
    answer: Result<Seq<char>, Seq<char>>,
)
    ensures
        ({
            let o = started(services, CommandView::Add(cfg));
            let (end, reply) = carried_out(services, CommandView::Add(cfg), seq![answer]);
            let taken = exists|i: int|
                0 <= i < services.len() && (#[trigger] services[i]).handle == cfg.handle;
            &&& o.stops.len() == 0
            &&& taken ==> end == services && o.next is Reply && reply == Some(
                err_text("handle '"@ + cfg.handle + "' already exists"@),
            )
            &&& !taken ==> {
                &&& o.next matches NextView::Spawn { order, job: _ } && order.handle == cfg.handle
                    && order.manifest == cfg.manifest && order.full_chain == (cfg.record is Some
                    || cfg.keep_chain == Some(true))
                &&& answer matches Err(e) ==> end == services && reply == Some(
                    err_text("spawn failed: "@ + e),
                )
                &&& answer matches Ok(id) ==> reply == Some(ok_text("added "@ + cfg.handle)) && end
                    == services.push(
                    (SvcView {
                        handle: cfg.handle,
                        manifest: cfg.manifest,
                        max: if cfg.max is Some {
                            cfg.max->0
                        } else {
                            5
                        },
                        window_ms: if cfg.window_ms is Some {
                            cfg.window_ms->0
                        } else {
                            60_000
                        },
                        current_id: id,
                        restarts: Seq::empty(),
                        blocked: false,
                        record: cfg.record,
                        rec_seq: 0,
                        keep_chain: cfg.keep_chain == Some(true),
                        chain: Seq::empty(),
                    }),
                )
            }
        }),
{
    reveal_with_fuel(run, 3);
}

/// Removing stops the actor of the service with the handle and takes that service
/// out; the others stay as they are, in their order. The reply names the handle.
pub proof fn a_remove_takes_one_out(services: Seq<SvcView>, h: Seq<char>, i: int)
    requires
        0 <= i < services.len(),
        services[i].handle == h,
        forall|k: int| 0 <= k < i ==> (#[trigger] services[k]).handle != h,
    ensures
        ({
            let o = started(services, CommandView::Remove(h));
            &&& o.stops == seq![services[i].current_id]
            &&& o.services.len() == services.len() - 1
            &&& forall|k: int| 0 <= k < i ==> (#[trigger] o.services[k]) == services[k]
            &&& forall|k: int| i <= k < o.services.len() ==> (#[trigger] o.services[k]) == services[k + 1]
            &&& o.next == NextView::Reply(ok_text("removed "@ + h))
        }),
{
    position_first(services, by_handle(h));
    assert(by_handle(h)(services[i]));
    match position(services, by_handle(h)) {
        Some(j) => {
            assert(services[j].handle == h);
            assert(i == j);
        },
        None => {},
    }
}

/// A manual restart stops the actor of the service with the handle and orders the
/// spawn of the service's own manifest. Where it is answered with an id, the
/// service runs as that id, with no restart counted and not blocked, and is else as
/// it was; where the spawn fails, it stays as it was. The reply says which. No
/// other service changes.
pub proof fn a_restart_restarts_one(
    services: Seq<SvcView>,
    h: Seq<char>,
    i: int,
    answer: Result<Seq<char>, Seq<char>>,
)
    requires
        0 <= i < services.len(),
        services[i].handle == h,
        forall|k: int| 0 <= k < i ==> (#[trigger] services[k]).handle != h,
    ensures
        ({
            let s = services[i];
            let o = started(services, CommandView::Restart(h));
            let (end, reply) = carried_out(services, CommandView::Restart(h), seq![answer]);
            &&& o.stops == seq![s.current_id]
            &&& o.next matches NextView::Spawn { order, job: _ } && order.handle == h
                && order.manifest == s.manifest && order.full_chain == (s.record is Some
                || s.keep_chain)
            &&& end.len() == services.len()
            &&& forall|k: int| 0 <= k < end.len() && k != i ==> (#[trigger] end[k]) == services[k]
            &&& answer matches Ok(id) ==> reply == Some(ok_text("restarted "@ + h)) && end[i] == (SvcView {
                current_id: id,
                restarts: Seq::empty(),
                blocked: false,
                ..s
            })
            &&& answer matches Err(e) ==> reply == Some(err_text("restart spawn failed: "@ + e))
                && end[i] == s
        }),
{
    position_first(services, by_handle(h));
    assert(by_handle(h)(services[i]));
    match position(services, by_handle(h)) {
        Some(j) => {
            assert(services[j].handle == h);
            assert(i == j);
        },
        None => {},
    }
    reveal_with_fuel(run, 3);
}

/// While an apply goes on, what is spawned next is the first declared service whose
/// handle is not in the roster, by its own manifest. It ends where there is none.
pub proof fn the_first_missing_is_spawned(
    services: Seq<SvcView>,
    cfgs: Seq<CfgView>,
    added: nat,
    removed: nat,
)
    ensures
        match apply_next(services, cfgs, added, removed) {
            NextView::Reply(_) => forall|j: int|
                0 <= j < cfgs.len() ==> exists|i: int|
                    0 <= i < services.len() && (#[trigger] services[i]).handle == (
                    #[trigger] cfgs[j]).handle,
            NextView::Spawn { order, job } => exists|j: int|
                {
                    &&& 0 <= j < cfgs.len()
                    &&& forall|i: int|
                        0 <= i < services.len() ==> (#[trigger] services[i]).handle != cfgs[j].handle
                    &&& forall|k: int|
                        0 <= k < j ==> exists|i: int|
                            0 <= i < services.len() && (#[trigger] services[i]).handle == (
                            #[trigger] cfgs[k]).handle
                    &&& order.handle == (#[trigger] cfgs[j]).handle
                    &&& order.manifest == cfgs[j].manifest
                    &&& order.full_chain == (cfgs[j].record is Some || cfgs[j].keep_chain == Some(true))
                    &&& job == (JobView::Apply { rest: cfgs.skip(j), added, removed })
                },
        },
    decreases cfgs.len(),
{
    let here = apply_next(services, cfgs, added, removed);
    if cfgs.len() > 0 {
        if has_handle(services, cfgs[0].handle) {
            let less = cfgs.drop_first();
            let i0 = choose|i: int|
                0 <= i < services.len() && (#[trigger] services[i]).handle == cfgs[0].handle;
            the_first_missing_is_spawned(services, less, added, removed);
            assert(here == apply_next(services, less, added, removed));
            match here {
                NextView::Reply(_) => {
                    assert forall|j: int| 0 <= j < cfgs.len() implies exists|i: int|
                        0 <= i < services.len() && (#[trigger] services[i]).handle == (
                        #[trigger] cfgs[j]).handle by {
                        if j == 0 {
                            assert(services[i0].handle == cfgs[j].handle);
                        } else {
                            assert(less[j - 1] == cfgs[j]);
                        }
                    }
                },
                NextView::Spawn { order, job } => {
                    let j = choose|j: int|
                        {
                            &&& 0 <= j < less.len()
                            &&& forall|i: int|
                                0 <= i < services.len() ==> (#[trigger] services[i]).handle
                                    != less[j].handle
                            &&& forall|k: int|
                                0 <= k < j ==> exists|i: int|
                                    0 <= i < services.len() && (#[trigger] services[i]).handle == (
                                    #[trigger] less[k]).handle
                            &&& order.handle == (#[trigger] less[j]).handle
                            &&& order.manifest == less[j].manifest
                            &&& order.full_chain == (less[j].record is Some || less[j].keep_chain
                                == Some(true))
                            &&& job == (JobView::Apply { rest: less.skip(j), added, removed })
                        };
                    assert(less[j] == cfgs[j + 1]);
                    assert(less.skip(j) =~= cfgs.skip(j + 1));
                    assert forall|k: int| 0 <= k < j + 1 implies exists|i: int|
                        0 <= i < services.len() && (#[trigger] services[i]).handle == (
                        #[trigger] cfgs[k]).handle by {
                        if k == 0 {
                            assert(services[i0].handle == cfgs[k].handle);
                        } else {
                            assert(less[k - 1] == cfgs[k]);
                        }
                    }
                    assert(order.handle == cfgs[j + 1].handle);
                },
            }
        } else {
            assert(missing(services, cfgs) == cfgs);
            assert(cfgs.skip(0) =~= cfgs);
            assert(here->order.handle == cfgs[0].handle);
        }
    }
}

/// What an apply makes of the roster. A service that was there is kept just where
/// its handle is declared, as it was; the actors of the others are stopped, each
/// once, in their order. Every service that was added is a declared one brought up:
/// with the manifest, the limit, the window, the sink and the chain setting that
/// are declared, running as an id that a spawn was answered with, with no restart
/// counted, nothing recorded and not blocked.
pub proof fn an_apply_brings_up_what_is_declared(
    services: Seq<SvcView>,
    cfgs: Seq<CfgView>,
    answers: Seq<Result<Seq<char>, Seq<char>>>,
)
    requires
        answers.len() >= cfgs.len(),
    ensures
        ({
            let o = started(services, CommandView::Apply(cfgs));
            let (end, reply) = carried_out(services, CommandView::Apply(cfgs), answers);
            let kept = services.filter(
                |s: SvcView| exists|j: int| 0 <= j < cfgs.len() && (#[trigger] cfgs[j]).handle == s.handle,
            );
            let gone = services.filter(
                |s: SvcView| forall|j: int| 0 <= j < cfgs.len() ==> (#[trigger] cfgs[j]).handle != s.handle,
            );
            &&& o.services == kept
            &&& o.stops.len() == gone.len()
            &&& forall|k: int| 0 <= k < gone.len() ==> (#[trigger] o.stops[k]) == gone[k].current_id
            &&& end.len() >= kept.len()
            &&& forall|k: int| 0 <= k < kept.len() ==> (#[trigger] end[k]) == kept[k]
            &&& forall|k: int|
                kept.len() <= k < end.len() ==> {
                    let s = #[trigger] end[k];
                    exists|j: int, a: int|
                        {
                            let c = #[trigger] cfgs[j];
                            &&& 0 <= j < cfgs.len()
                            &&& 0 <= a < answers.len()
                            &&& s.handle == c.handle
                            &&& s.manifest == c.manifest
                            &&& s.max == (if c.max is Some {
                                c.max->0
                            } else {
                                5
                            })
                            &&& s.window_ms == (if c.window_ms is Some {
                                c.window_ms->0
                            } else {
                                60_000
                            })
                            &&& s.record == c.record
                            &&& s.keep_chain == (c.keep_chain == Some(true))
                            &&& (#[trigger] answers[a]) == Ok::<Seq<char>, Seq<char>>(s.current_id)
                            &&& s.restarts.len() == 0
                            &&& !s.blocked
                            &&& s.rec_seq == 0
                            &&& s.chain.len() == 0
                        }
                }
            &&& reply == Some(
                applied_text((end.len() - kept.len()) as nat, (services.len() - kept.len()) as nat),
            )
        }),
{
    let is_in = |s: SvcView|
        exists|j: int| 0 <= j < cfgs.len() && (#[trigger] cfgs[j]).handle == s.handle;
    let is_out = |s: SvcView|
        forall|j: int| 0 <= j < cfgs.len() ==> (#[trigger] cfgs[j]).handle != s.handle;
    assert(wanted(cfgs) =~= is_in);
    assert(unwanted(cfgs) =~= is_out);
    let kept = services.filter(is_in);
    let gone = services.filter(is_out);
    let o = started(services, CommandView::Apply(cfgs));
    assert(o.stops =~= ids(gone));
    assert forall|k: int| 0 <= k < gone.len() implies (#[trigger] o.stops[k]) == gone[k].current_id by {}
    services.lemma_filter_len(is_in);
    apply_run(kept, cfgs, 0, (services.len() - kept.len()) as nat, answers);
    let (end, reply) = carried_out(services, CommandView::Apply(cfgs), answers);
    assert forall|k: int| 0 <= k < kept.len() implies (#[trigger] end[k]) == kept[k] by {
        assert(end.take(kept.len() as int)[k] == end[k]);
    }
    assert forall|k: int| kept.len() <= k < end.len() implies {
        let s = #[trigger] end[k];
        exists|j: int, a: int|
            {
                let c = #[trigger] cfgs[j];
                &&& 0 <= j < cfgs.len()
                &&& 0 <= a < answers.len()
                &&& s.handle == c.handle
                &&& s.manifest == c.manifest
                &&& s.max == (if c.max is Some {
                    c.max->0
                } else {
                    5
                })
                &&& s.window_ms == (if c.window_ms is Some {
                    c.window_ms->0
                } else {
                    60_000
                })
                &&& s.record == c.record
                &&& s.keep_chain == (c.keep_chain == Some(true))
                &&& (#[trigger] answers[a]) == Ok::<Seq<char>, Seq<char>>(s.current_id)
                &&& s.restarts.len() == 0
                &&& !s.blocked
                &&& s.rec_seq == 0
                &&& s.chain.len() == 0
            }
    } by {
        assert(came_up(cfgs, answers, end[k]));
        let (j, a) = choose|j: int, a: int|
            0 <= j < cfgs.len() && 0 <= a < answers.len() && (#[trigger] answers[a]) is Ok && end[k] == (
            #[trigger] cfgs[j]).up(answers[a]->Ok_0);
        assert(cfgs[j].handle == end[k].handle);
        assert(answers[a] == Ok::<Seq<char>, Seq<char>>(end[k].current_id));
    }
}

/// The answer to a spawn that an apply has ordered is the answer for the service that
/// stands first among those still to be looked at: with an id that service joins the
/// roster, as declared; without one it is passed over. The apply goes on with the
/// others, and counts what was added.
pub proof fn an_answer_is_for_the_service_that_was_spawned(
    services: Seq<SvcView>,
    rest: Seq<CfgView>,
    added: nat,
    removed: nat,
    answer: Result<Seq<char>, Seq<char>>,
)
    requires
        rest.len() > 0,
    ensures
        ({
            let o = resumed(services, JobView::Apply { rest, added, removed }, answer);
            let c = rest[0];
            &&& o.stops.len() == 0
            &&& answer is Err ==> o.services == services && o.next == apply_next(
                services,
                rest.skip(1),
                added,
                removed,
            )
            &&& answer matches Ok(id) ==> {
                let s = o.services.last();
                &&& o.services.len() == services.len() + 1
                &&& o.services.drop_last() == services
                &&& s.handle == c.handle
                &&& s.manifest == c.manifest
                &&& s.max == (if c.max is Some {
                    c.max->0
                } else {
                    5
                })
                &&& s.window_ms == (if c.window_ms is Some {
                    c.window_ms->0
                } else {
                    60_000
                })
                &&& s.record == c.record
                &&& s.keep_chain == (c.keep_chain == Some(true))
                &&& s.current_id == id
                &&& s.restarts.len() == 0 && !s.blocked && s.rec_seq == 0 && s.chain.len() == 0
                &&& o.next == apply_next(o.services, rest.skip(1), added + 1, removed)
            }
        }),
{
    assert(rest.drop_first() =~= rest.skip(1));
    let o = resumed(services, JobView::Apply { rest, added, removed }, answer);
    if answer is Ok {
        assert(o.services.drop_last() =~= services);
    }
}

} // verus!
