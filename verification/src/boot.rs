//! Coming up: the declared services are spawned one after another, and the
//! control surface is opened where one is declared.

use crate::datum::{config_string, config_text, text_result, Datum};
use crate::roster::{
    all_wf, cfg_views, distinct, repeated, repeated_or_unique, svc_views, unique, CfgView,
    ServiceCfg, SpawnOrder, SupervisorState, Svc, SvcView,
};
use crate::text::{dec, decimal, same, texts};
use vstd::prelude::*;

verus! {

/// The control surface, as declared.
pub struct ControlCfg {
    pub port: u16,
    /// The interface to bind.
    pub bind: Option<String>,
    /// The keys that may drive the surface.
    pub authorized_keys: Option<Vec<String>>,
}

/// All that is declared.
pub struct Config {
    pub services: Vec<ServiceCfg>,
    pub control: Option<ControlCfg>,
}

/// The text of the configuration, or why there is none.
pub fn config_source(v: &Datum) -> (r: Result<String, String>)
    ensures
        match r {
            Ok(s) => s@.len() > 0 && config_text(v@) == Some(s@),
            Err(e) => {
                &&& e@ == "supervisor: init config must be a JSON roster string"@
                &&& config_text(v@) is Some ==> config_text(v@)->0.len() == 0
            },
        },
{
    match config_string(v) {
        Some(s) => if s.as_str().unicode_len() > 0 {
            Ok(s)
        } else {
            Err("supervisor: init config must be a JSON roster string".to_owned())
        },
        None => Err("supervisor: init config must be a JSON roster string".to_owned()),
    }
}

/// Why the supervisor does not come up, where its configuration could not be
/// read.
pub fn bad_config(why: &str) -> (r: String)
    ensures
        r@ == "supervisor: bad roster JSON: "@ + why@,
{
    let mut out = "supervisor: bad roster JSON: ".to_owned();
    out.append(why);
    out
}

/// A roster that is coming up.
pub struct Boot {
    /// The services that are up.
    pub up: Vec<Svc>,
    /// The declared services that are not up yet.
    pub rest: Vec<ServiceCfg>,
}

/// A roster that is coming up, by its view.
#[verifier::ext_equal]
pub struct BootView {
    pub up: Seq<SvcView>,
    pub rest: Seq<CfgView>,
}

impl View for Boot {
    type V = BootView;

    open spec fn view(&self) -> BootView {
        BootView { up: svc_views(self.up@), rest: cfg_views(self.rest@) }
    }
}

impl BootView {
    /// What always holds of a boot: no handle stands for two services, up or not.
    pub open spec fn wf(self) -> bool {
        &&& all_wf(self.up)
        &&& distinct(self.up)
        &&& unique(self.rest)
        &&& forall|i: int, j: int|
            0 <= i < self.up.len() && 0 <= j < self.rest.len() ==> (#[trigger] self.up[i]).handle
                != (#[trigger] self.rest[j]).handle
    }
}

/// A roster at the end of a boot whose spawns are answered so; the first that
/// fails is fatal.
pub open spec fn booted(
    b: BootView,
    answers: Seq<Result<Seq<char>, Seq<char>>>,
) -> Result<BootView, Seq<char>>
    decreases answers.len(),
{
    if answers.len() == 0 || b.rest.len() == 0 {
        Ok(b)
    } else {
        match step(b, answers[0]) {
            Ok(next) => booted(next, answers.drop_first()),
            Err(e) => Err(e),
        }
    }
}

/// What the answer to a spawn makes of a boot.
pub open spec fn step(b: BootView, answer: Result<Seq<char>, Seq<char>>) -> Result<BootView, Seq<char>> {
    match answer {
        Ok(id) => Ok(BootView { up: b.up.push(b.rest[0].up(id)), rest: b.rest.drop_first() }),
        Err(e) => Err("supervisor: spawn "@ + b.rest[0].handle + " failed: "@ + e),
    }
}

/// The first handle that is declared a second time.
fn repeated_handle(services: &Vec<ServiceCfg>) -> (r: Option<String>)
    ensures
        match r {
            Some(h) => repeated(cfg_views(services@)) == Some(h@),
            None => repeated(cfg_views(services@)) is None,
        },
{
    let ghost all = cfg_views(services@);
    let mut i: usize = 0;
    assert(all.take(0) =~= Seq::empty());
    while i < services.len()
        invariant
            i <= services@.len(),
            all == cfg_views(services@),
            repeated(all.take(i as int)) is None,
        decreases services@.len() - i,
    {
        let ghost front = all.take(i + 1);
        assert(front.drop_last() =~= all.take(i as int));
        let mut k: usize = 0;
        while k < i
            invariant
                k <= i < services@.len(),
                all == cfg_views(services@),
                front == all.take(i + 1),
                front.drop_last() == all.take(i as int),
                repeated(all.take(i as int)) is None,
                forall|j: int| 0 <= j < k ==> (#[trigger] front[j]).handle != all[i as int].handle,
            decreases i - k,
        {
            if same(services[k].handle.as_str(), services[i].handle.as_str()) {
                proof {
                    assert(front[k as int].handle == front.last().handle);
                    repeated_stays(all, i + 1);
                }
                return Some(services[i].handle.clone());
            }
            k += 1;
        }
        i += 1;
    }
    assert(all.take(i as int) =~= all);
    None
}

/// A handle that is declared a second time early on is the first of all.
proof fn repeated_stays(all: Seq<CfgView>, n: int)
    requires
        0 <= n <= all.len(),
        repeated(all.take(n)) is Some,
    ensures
        repeated(all) == repeated(all.take(n)),
    decreases all.len(),
{
    if n == all.len() {
        assert(all.take(n) =~= all);
    } else {
        assert(all.drop_last().take(n) =~= all.take(n));
        repeated_stays(all.drop_last(), n);
    }
}

impl Boot {
    /// A roster of which nothing is up yet. A handle stands for one service: a
    /// roster that declares one twice does not come up.
    pub fn new(services: Vec<ServiceCfg>) -> (r: Result<Boot, String>)
        ensures
            match r {
                Ok(b) => {
                    &&& repeated(cfg_views(services@)) is None
                    &&& b@ == (BootView { up: Seq::empty(), rest: cfg_views(services@) })
                    &&& b@.wf()
                },
                Err(e) => {
                    &&& repeated(cfg_views(services@)) is Some
                    &&& e@ == "supervisor: duplicate handle "@ + repeated(
                        cfg_views(services@),
                    )->0
                },
            },
    {
        match repeated_handle(&services) {
            Some(h) => {
                let mut out = "supervisor: duplicate handle ".to_owned();
                out.append(h.as_str());
                Err(out)
            },
            None => {
                let up: Vec<Svc> = Vec::new();
                let b = Boot { up, rest: services };
                proof {
                    repeated_or_unique(cfg_views(services@));
                }
                assert(b@ =~= (BootView { up: Seq::empty(), rest: cfg_views(services@) }));
                Ok(b)
            },
        }
    }

    /// What is to be spawned next; `None` when all is up.
    pub fn next(&self) -> (r: Option<SpawnOrder>)
        ensures
            match r {
                Some(o) => self@.rest.len() > 0 && o@ == self@.rest[0].order(),
                None => self@.rest.len() == 0,
            },
            r matches Some(o) ==> o.handle@ == self@.rest[0].handle && o.manifest@
                == self@.rest[0].manifest && o.full_chain == (self@.rest[0].record is Some
                || self@.rest[0].keep_chain == Some(true)),
    {
        if self.rest.len() == 0 {
            None
        } else {
            Some(self.rest[0].order())
        }
    }

    /// Goes on once the spawn was answered.
    pub fn answered(self, answer: Result<String, String>) -> (r: Result<Boot, String>)
        requires
            self@.rest.len() > 0,
            self@.wf(),
        ensures
            match r {
                Ok(b) => step(self@, text_result(answer)) == Ok::<BootView, Seq<char>>(b@)
                    && b@.wf(),
                Err(e) => step(self@, text_result(answer)) == Err::<BootView, Seq<char>>(e@),
            },
    {
        let mut up = self.up;
        let mut rest = self.rest;
        let cfg = rest.remove(0);
        match answer {
            Ok(id) => {
                let svc = cfg.up(id);
                up.push(svc);
                let b = Boot { up, rest };
                assert(b@ =~= step(self@, text_result(answer))->Ok_0);
                proof {
                    step_keeps_handles_distinct(self@, svc@.current_id);
                }
                Ok(b)
            },
            Err(e) => {
                let mut out = "supervisor: spawn ".to_owned();
                out.append(cfg.handle.as_str());
                out.append(" failed: ");
                out.append(e.as_str());
                Err(out)
            },
        }
    }
}

/// The keys that a declared control surface admits.
pub open spec fn keys_in(control: Option<ControlCfg>) -> Seq<Seq<char>> {
    match control {
        Some(c) => match c.authorized_keys {
            Some(keys) => texts(keys@),
            None => Seq::empty(),
        },
        None => Seq::empty(),
    }
}

/// The address that a declared control surface listens on.
pub open spec fn address(c: ControlCfg) -> Seq<char> {
    (match c.bind {
        Some(b) => b@,
        None => "127.0.0.1"@,
    }) + ":"@ + dec(c.port as nat)
}

/// The address to listen on, where a control surface is declared.
pub fn listen_address(control: &Option<ControlCfg>) -> (r: Option<String>)
    ensures
        match (r, control) {
            (Some(a), Some(c)) => a@ == address(*c),
            (None, None) => true,
            _ => false,
        },
        control matches Some(c) ==> r is Some && match c.bind {
            Some(b) => r->0@ == b@ + ":"@ + dec(c.port as nat),
            None => r->0@ == "127.0.0.1"@ + ":"@ + dec(c.port as nat),
        },
{
    match control {
        Some(c) => {
            let mut out = match &c.bind {
                Some(b) => b.clone(),
                None => "127.0.0.1".to_owned(),
            };
            out.append(":");
            out.append(decimal(c.port as u64).as_str());
            Some(out)
        },
        None => None,
    }
}

/// The state in which the supervisor starts to work.
pub fn initial_state(up: Vec<Svc>, control: Option<ControlCfg>) -> (r: SupervisorState)
    requires
        all_wf(svc_views(up@)),
        distinct(svc_views(up@)),
    ensures
        r@.wf(),
        distinct(r@.services),
        r@.services == svc_views(up@),
        r@.authorized_keys == keys_in(control),
        r@.nonce_counter == 0,
        control is Some && control->0.authorized_keys is Some ==> r.authorized_keys@
            == control->0.authorized_keys->0@,
        control is None || control->0.authorized_keys is None ==> r.authorized_keys@.len() == 0,
{
    let none: Vec<String> = Vec::new();
    assert(texts(none@) =~= Seq::empty());
    let authorized_keys = match control {
        Some(c) => match c.authorized_keys {
            Some(keys) => keys,
            None => none,
        },
        None => none,
    };
    SupervisorState { services: up, authorized_keys, nonce_counter: 0 }
}

/// A boot brings up the declared services one for one and in their order, each as
/// declared, as long as every spawn succeeds.
pub proof fn boot_brings_all_up(b: BootView, answers: Seq<Result<Seq<char>, Seq<char>>>)
    requires
        answers.len() == b.rest.len(),
        forall|i: int| 0 <= i < answers.len() ==> (#[trigger] answers[i]) is Ok,
    ensures
        booted(b, answers) is Ok,
        booted(b, answers)->Ok_0.rest.len() == 0,
        booted(b, answers)->Ok_0.up == b.up + Seq::new(
            b.rest.len(),
            |i: int| b.rest[i].up(answers[i]->Ok_0),
        ),
    decreases answers.len(),
{
    if answers.len() == 0 {
        assert(b.up =~= b.up + Seq::new(b.rest.len(), |i: int| b.rest[i].up(answers[i]->Ok_0)));
    } else {
        assert(answers[0] is Ok);
        let next = step(b, answers[0])->Ok_0;
        let later = answers.drop_first();
        assert forall|i: int| 0 <= i < later.len() implies (#[trigger] later[i]) is Ok by {
            assert(later[i] == answers[i + 1]);
        }
        boot_brings_all_up(next, later);
        assert(next.up + Seq::new(next.rest.len(), |i: int| next.rest[i].up(later[i]->Ok_0)) =~= b.up
            + Seq::new(b.rest.len(), |i: int| b.rest[i].up(answers[i]->Ok_0)));
    }
}

/// The first spawn that fails ends the boot, and the reason names its service.
pub proof fn boot_fails_on_the_first_failure(
    b: BootView,
    answers: Seq<Result<Seq<char>, Seq<char>>>,
    k: int,
)
    requires
        0 <= k < answers.len() <= b.rest.len(),
        forall|i: int| 0 <= i < k ==> (#[trigger] answers[i]) is Ok,
        answers[k] is Err,
    ensures
        booted(b, answers) == Err::<BootView, Seq<char>>(
            "supervisor: spawn "@ + b.rest[k].handle + " failed: "@ + answers[k]->Err_0,
        ),
    decreases answers.len(),
{
    if k > 0 {
        assert(answers[0] is Ok);
        let later = answers.drop_first();
        assert forall|i: int| 0 <= i < k - 1 implies (#[trigger] later[i]) is Ok by {
            assert(later[i] == answers[i + 1]);
        }
        let next = step(b, answers[0])->Ok_0;
        boot_fails_on_the_first_failure(next, later, k - 1);
        assert(next.rest[k - 1] == b.rest[k]);
    }
}

/// A boot never makes two services share a handle: at its end the handles of the
/// services that are up are distinct.
pub proof fn boot_keeps_handles_distinct(b: BootView, answers: Seq<Result<Seq<char>, Seq<char>>>)
    requires
        b.wf(),
    ensures
        booted(b, answers) matches Ok(end) ==> end.wf(),
    decreases answers.len(),
{
    if answers.len() > 0 && b.rest.len() > 0 && answers[0] is Ok {
        let next = step(b, answers[0])->Ok_0;
        step_keeps_handles_distinct(b, answers[0]->Ok_0);
        boot_keeps_handles_distinct(next, answers.drop_first());
    }
}

/// A service that comes up keeps its handle to itself.
proof fn step_keeps_handles_distinct(b: BootView, id: Seq<char>)
    requires
        b.wf(),
        b.rest.len() > 0,
    ensures
        step(b, Ok(id))->Ok_0.wf(),
{
    let next = step(b, Ok(id))->Ok_0;
    let n = b.up.len() as int;
    assert forall|i: int| 0 <= i < next.up.len() implies (#[trigger] next.up[i]).wf() by {
        if i < n {
            assert(next.up[i] == b.up[i]);
        }
    }
    assert forall|i: int, j: int| 0 <= i < j < next.up.len() implies (
    #[trigger] next.up[i]).handle != (#[trigger] next.up[j]).handle by {
        if j < n {
            assert(b.up[i].handle != b.up[j].handle);
        } else {
            assert(b.up[i].handle != b.rest[0].handle);
        }
    }
    assert forall|i: int, j: int| 0 <= i < j < next.rest.len() implies (
    #[trigger] next.rest[i]).handle != (#[trigger] next.rest[j]).handle by {
        assert(b.rest[i + 1].handle != b.rest[j + 1].handle);
    }
    assert forall|i: int, j: int| 0 <= i < next.up.len() && 0 <= j < next.rest.len() implies (
    #[trigger] next.up[i]).handle != (#[trigger] next.rest[j]).handle by {
        if i < n {
            assert(b.up[i].handle != b.rest[j + 1].handle);
        } else {
            assert(b.rest[0].handle != b.rest[j + 1].handle);
        }
    }
}

/// What comes up is what was declared: the services that were up stay as they are, and
/// each declared one runs as the id that its own spawn was answered with, in the order
/// of the declaration, with the manifest, the limit, the window, the sink and the
/// chain setting that are declared, with no restart counted, nothing recorded and not
/// blocked.
pub proof fn what_comes_up_is_what_was_declared(
    b: BootView,
    answers: Seq<Result<Seq<char>, Seq<char>>>,
    i: int,
)
    requires
        answers.len() == b.rest.len(),
        forall|k: int| 0 <= k < answers.len() ==> (#[trigger] answers[k]) is Ok,
        0 <= i < b.rest.len(),
    ensures
        booted(b, answers) matches Ok(end) && {
            let s = end.up[b.up.len() + i];
            let c = b.rest[i];
            &&& end.up.len() == b.up.len() + b.rest.len()
            &&& forall|k: int| 0 <= k < b.up.len() ==> #[trigger] end.up[k] == b.up[k]
            &&& s.handle == c.handle
            &&& s.manifest == c.manifest
            &&& s.max == (if c.max is Some {
                c.max->0
            } else {
                5
            })
            &&& s.window_ms == (if c.window_ms is Some {
                c.window_ms->0
            } else {
                60_000
            })
            &&& s.record == c.record
            &&& s.keep_chain == (c.keep_chain == Some(true))
            &&& s.current_id == answers[i]->Ok_0
            &&& s.restarts.len() == 0
            &&& !s.blocked
            &&& s.rec_seq == 0
            &&& s.chain.len() == 0
        },
{
    boot_brings_all_up(b, answers);
}

/// A roster comes up just where no two declared services share a handle; else the boot
/// names one that they share.
pub proof fn shared_handles_are_named(cfgs: Seq<CfgView>)
    ensures
        repeated(cfgs) is None <==> forall|i: int, j: int|
            0 <= i < j < cfgs.len() ==> (#[trigger] cfgs[i]).handle != (#[trigger] cfgs[j]).handle,
        repeated(cfgs) matches Some(h) ==> exists|i: int, j: int|
            0 <= i < j < cfgs.len() && (#[trigger] cfgs[i]).handle == h && (#[trigger] cfgs[j]).handle
                == h,
    decreases cfgs.len(),
{
    repeated_or_unique(cfgs);
    if cfgs.len() > 0 {
        let front = cfgs.drop_last();
        shared_handles_are_named(front);
        if repeated(front) is Some {
            let h = repeated(front)->0;
            let (i, j) = choose|i: int, j: int|
                0 <= i < j < front.len() && (#[trigger] front[i]).handle == h && (
                #[trigger] front[j]).handle == h;
            assert(cfgs[i] == front[i] && cfgs[j] == front[j]);
        } else if repeated(cfgs) is Some {
            let i = choose|i: int|
                0 <= i < cfgs.len() - 1 && (#[trigger] cfgs[i]).handle == cfgs.last().handle;
            assert(cfgs[i].handle == cfgs[cfgs.len() - 1].handle);
        }
    }
}

/// The control surface listens on the declared port, at the declared interface or else
/// on this machine alone, and admits the declared keys and no other.
pub proof fn the_surface_is_opened_as_declared(c: ControlCfg)
    ensures
        c.bind matches Some(b) ==> address(c) == b@ + ":"@ + dec(c.port as nat),
        c.bind is None ==> address(c) == "127.0.0.1:"@ + dec(c.port as nat),
        c.authorized_keys matches Some(keys) ==> keys_in(Some(c)).len() == keys@.len() && forall|i: int|
            0 <= i < keys@.len() ==> #[trigger] keys_in(Some(c))[i] == keys@[i]@,
        c.authorized_keys is None ==> keys_in(Some(c)).len() == 0,
        keys_in(None).len() == 0,
{
    reveal_strlit("127.0.0.1");
    reveal_strlit(":");
    reveal_strlit("127.0.0.1:");
    assert("127.0.0.1"@ + ":"@ =~= "127.0.0.1:"@);
    assert(c.bind is None ==> address(c) =~= "127.0.0.1:"@ + dec(c.port as nat));
}

} // verus!
