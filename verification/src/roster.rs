//! The roster: what is declared, and what is known of each declared service.

use crate::hex::is_hex;
use crate::text::{same, texts};
use vstd::prelude::*;

verus! {

/// How many restarts a window allows, where a service does not say.
pub const DEFAULT_MAX: u32 = 5;

/// How long a window is, in milliseconds, where a service does not say.
pub const DEFAULT_WINDOW_MS: u64 = 60_000;

/// How many chain events are kept in memory for one service.
pub const CHAIN_BUF_MAX: usize = 200;

// ---- what is declared ------------------------------------------------------

/// Where a service's chain events are to go, as declared.
pub enum RecordCfg {
    Http { url: String },
    File { path: String },
}

/// Where a recording service's chain events go.
pub enum Sink {
    /// Each event is posted to this URL.
    Http(String),
    /// Each event is appended to this file.
    File(String),
}

/// A sink, by its view.
pub enum SinkView {
    Http(Seq<char>),
    File(Seq<char>),
}

impl View for Sink {
    type V = SinkView;

    open spec fn view(&self) -> SinkView {
        match self {
            Sink::Http(url) => SinkView::Http(url@),
            Sink::File(path) => SinkView::File(path@),
        }
    }
}

impl View for RecordCfg {
    type V = SinkView;

    open spec fn view(&self) -> SinkView {
        match self {
            RecordCfg::Http { url } => SinkView::Http(url@),
            RecordCfg::File { path } => SinkView::File(path@),
        }
    }
}

impl RecordCfg {
    /// The sink that is declared.
    pub fn into_sink(self) -> (r: Sink)
        ensures
            r@ == self@,
    {
        match self {
            RecordCfg::Http { url } => Sink::Http(url),
            RecordCfg::File { path } => Sink::File(path),
        }
    }
}

impl Sink {
    /// A copy.
    pub fn copy(&self) -> (r: Sink)
        ensures
            r@ == self@,
    {
        match self {
            Sink::Http(url) => Sink::Http(url.clone()),
            Sink::File(path) => Sink::File(path.clone()),
        }
    }
}

/// A declared service.
pub struct ServiceCfg {
    pub handle: String,
    pub manifest: String,
    /// At most this many restarts in a window.
    pub max: Option<u32>,
    /// The length of the window.
    pub window_ms: Option<u64>,
    /// Record every chain event.
    pub record: Option<RecordCfg>,
    /// Keep the latest chain events in memory.
    pub keep_chain: Option<bool>,
}

/// A declared service, by its view.
pub struct CfgView {
    pub handle: Seq<char>,
    pub manifest: Seq<char>,
    pub max: Option<u32>,
    pub window_ms: Option<u64>,
    pub record: Option<SinkView>,
    pub keep_chain: Option<bool>,
}

impl View for ServiceCfg {
    type V = CfgView;

    open spec fn view(&self) -> CfgView {
        CfgView {
            handle: self.handle@,
            manifest: self.manifest@,
            max: self.max,
            window_ms: self.window_ms,
            record: match self.record {
                Some(r) => Some(r@),
                None => None,
            },
            keep_chain: self.keep_chain,
        }
    }
}

/// Declared services, by their views.
pub open spec fn cfg_views(cfgs: Seq<ServiceCfg>) -> Seq<CfgView> {
    cfgs.map_values(|c: ServiceCfg| c@)
}

/// No two declared services with one handle.
pub open spec fn unique(cfgs: Seq<CfgView>) -> bool {
    forall|i: int, j: int|
        0 <= i < j < cfgs.len() ==> (#[trigger] cfgs[i]).handle != (#[trigger] cfgs[j]).handle
}

/// The first handle that is declared a second time.
pub open spec fn repeated(cfgs: Seq<CfgView>) -> Option<Seq<char>>
    decreases cfgs.len(),
{
    if cfgs.len() == 0 {
        None
    } else {
        match repeated(cfgs.drop_last()) {
            Some(h) => Some(h),
            None => if exists|i: int|
                0 <= i < cfgs.len() - 1 && (#[trigger] cfgs[i]).handle == cfgs.last().handle {
                Some(cfgs.last().handle)
            } else {
                None
            },
        }
    }
}

/// No handle is declared a second time just where all are distinct.
pub proof fn repeated_or_unique(cfgs: Seq<CfgView>)
    ensures
        repeated(cfgs) is None <==> unique(cfgs),
    decreases cfgs.len(),
{
    if cfgs.len() > 0 {
        let front = cfgs.drop_last();
        repeated_or_unique(front);
        assert forall|i: int| 0 <= i < front.len() implies #[trigger] cfgs[i] == front[i] by {}
        if !unique(front) {
            let (i, j) = choose|i: int, j: int|
                0 <= i < j < front.len() && (#[trigger] front[i]).handle == (
                #[trigger] front[j]).handle;
            assert(cfgs[i].handle == cfgs[j].handle);
        }
    }
}

// ---- what is known ---------------------------------------------------------

/// A chain event that is kept in memory.
pub struct ChainRec {
    pub seq: u64,
    pub event_type: String,
    pub data_hex: String,
}

/// A chain event, by its view.
pub struct ChainRecView {
    pub seq: u64,
    pub event_type: Seq<char>,
    pub data_hex: Seq<char>,
}

impl View for ChainRec {
    type V = ChainRecView;

    open spec fn view(&self) -> ChainRecView {
        ChainRecView { seq: self.seq, event_type: self.event_type@, data_hex: self.data_hex@ }
    }
}

/// Chain events, by their views.
pub open spec fn rec_views(recs: Seq<ChainRec>) -> Seq<ChainRecView> {
    recs.map_values(|c: ChainRec| c@)
}

/// A service of the roster: how it was declared, and how it is.
pub struct Svc {
    pub handle: String,
    pub manifest: String,
    pub max: u32,
    pub window_ms: u64,
    /// The id of the actor that runs now.
    pub current_id: String,
    /// When it was restarted, as far as the latest crash looked back.
    pub restarts: Vec<u64>,
    /// Crashed too often: not restarted any more.
    pub blocked: bool,
    pub record: Option<Sink>,
    /// The number of the next chain event.
    pub rec_seq: u64,
    pub keep_chain: bool,
    /// The latest chain events, oldest first.
    pub chain_buf: Vec<ChainRec>,
}

/// A service, by its view.
#[verifier::ext_equal]
pub struct SvcView {
    pub handle: Seq<char>,
    pub manifest: Seq<char>,
    pub max: u32,
    pub window_ms: u64,
    pub current_id: Seq<char>,
    pub restarts: Seq<u64>,
    pub blocked: bool,
    pub record: Option<SinkView>,
    pub rec_seq: u64,
    pub keep_chain: bool,
    pub chain: Seq<ChainRecView>,
}

impl View for Svc {
    type V = SvcView;

    open spec fn view(&self) -> SvcView {
        SvcView {
            handle: self.handle@,
            manifest: self.manifest@,
            max: self.max,
            window_ms: self.window_ms,
            current_id: self.current_id@,
            restarts: self.restarts@,
            blocked: self.blocked,
            record: match self.record {
                Some(s) => Some(s@),
                None => None,
            },
            rec_seq: self.rec_seq,
            keep_chain: self.keep_chain,
            chain: rec_views(self.chain_buf@),
        }
    }
}

impl SvcView {
    /// Whether every event on the chain is wanted, and not the last alone.
    pub open spec fn full_chain(self) -> bool {
        self.record is Some || self.keep_chain
    }

    /// What always holds of a service: the window counts no more restarts than
    /// it allows, and what is kept of the chain are the latest events, as many as
    /// there is room for, numbered without a gap, with their data in hexadecimal.
    pub open spec fn wf(self) -> bool {
        &&& self.restarts.len() <= self.max
        &&& self.chain.len() == (if self.rec_seq < CHAIN_BUF_MAX {
            self.rec_seq as int
        } else {
            CHAIN_BUF_MAX as int
        })
        &&& forall|i: int|
            0 <= i < self.chain.len() ==> {
                &&& (#[trigger] self.chain[i]).seq == self.rec_seq - self.chain.len() + i
                &&& is_hex(self.chain[i].data_hex)
            }
    }
}

/// Services, by their views.
pub open spec fn svc_views(services: Seq<Svc>) -> Seq<SvcView> {
    services.map_values(|s: Svc| s@)
}

/// What always holds of services.
pub open spec fn all_wf(services: Seq<SvcView>) -> bool {
    forall|i: int| 0 <= i < services.len() ==> (#[trigger] services[i]).wf()
}

/// No two services with one handle.
pub open spec fn distinct(services: Seq<SvcView>) -> bool {
    forall|i: int, j: int|
        0 <= i < j < services.len() ==> (#[trigger] services[i]).handle != (
        #[trigger] services[j]).handle
}

/// Everything the supervisor remembers.
pub struct SupervisorState {
    pub services: Vec<Svc>,
    /// The keys that may drive the control surface, in hexadecimal. With any,
    /// the surface wants encryption and a signature; with none it wants neither.
    pub authorized_keys: Vec<String>,
    /// Counts the challenges.
    pub nonce_counter: u64,
}

/// The state, by its view.
#[verifier::ext_equal]
pub struct StateView {
    pub services: Seq<SvcView>,
    pub authorized_keys: Seq<Seq<char>>,
    pub nonce_counter: u64,
}

impl View for SupervisorState {
    type V = StateView;

    open spec fn view(&self) -> StateView {
        StateView {
            services: svc_views(self.services@),
            authorized_keys: texts(self.authorized_keys@),
            nonce_counter: self.nonce_counter,
        }
    }
}

impl StateView {
    /// What always holds of the state.
    pub open spec fn wf(self) -> bool {
        all_wf(self.services)
    }
}

// ---- a service comes up ----------------------------------------------------

/// What is to be spawned, and how it is to be watched.
pub struct SpawnOrder {
    pub handle: String,
    pub manifest: String,
    /// Watch every event on the chain, and not the last alone.
    pub full_chain: bool,
}

/// A spawn order, by its view.
pub struct OrderView {
    pub handle: Seq<char>,
    pub manifest: Seq<char>,
    pub full_chain: bool,
}

impl View for SpawnOrder {
    type V = OrderView;

    open spec fn view(&self) -> OrderView {
        OrderView {
            handle: self.handle@,
            manifest: self.manifest@,
            full_chain: self.full_chain,
        }
    }
}

impl CfgView {
    /// The spawn that brings the service up.
    pub open spec fn order(self) -> OrderView {
        OrderView {
            handle: self.handle,
            manifest: self.manifest,
            full_chain: self.record is Some || self.keep_chain == Some(true),
        }
    }

    /// The service once it runs as `id`: as declared, with the defaults filled
    /// in and nothing that happened yet.
    pub open spec fn up(self, id: Seq<char>) -> SvcView {
        SvcView {
            handle: self.handle,
            manifest: self.manifest,
            max: match self.max {
                Some(n) => n,
                None => DEFAULT_MAX,
            },
            window_ms: match self.window_ms {
                Some(n) => n,
                None => DEFAULT_WINDOW_MS,
            },
            current_id: id,
            restarts: Seq::empty(),
            blocked: false,
            record: self.record,
            rec_seq: 0,
            keep_chain: self.keep_chain == Some(true),
            chain: Seq::empty(),
        }
    }
}

impl SvcView {
    /// The spawn that brings the service up again.
    pub open spec fn order(self) -> OrderView {
        OrderView {
            handle: self.handle,
            manifest: self.manifest,
            full_chain: self.full_chain(),
        }
    }
}

impl ServiceCfg {
    /// The spawn that brings the service up.
    pub fn order(&self) -> (r: SpawnOrder)
        ensures
            r@ == self@.order(),
    {
        let keep: bool = match self.keep_chain {
            Some(k) => k,
            None => false,
        };
        SpawnOrder {
            handle: self.handle.clone(),
            manifest: self.manifest.clone(),
            full_chain: self.record.is_some() || keep,
        }
    }

    /// The service once it runs.
    pub fn up(self, id: String) -> (r: Svc)
        ensures
            r@ == self@.up(id@),
            r@.wf(),
    {
        let record = match self.record {
            Some(r) => Some(r.into_sink()),
            None => None,
        };
        let chain_buf: Vec<ChainRec> = Vec::new();
        let svc = Svc {
            handle: self.handle,
            manifest: self.manifest,
            max: match self.max {
                Some(n) => n,
                None => DEFAULT_MAX,
            },
            window_ms: match self.window_ms {
                Some(n) => n,
                None => DEFAULT_WINDOW_MS,
            },
            current_id: id,
            restarts: Vec::new(),
            blocked: false,
            record,
            rec_seq: 0,
            keep_chain: match self.keep_chain {
                Some(k) => k,
                None => false,
            },
            chain_buf,
        };
        assert(svc@ =~= self@.up(id@));
        svc
    }
}

impl Svc {
    /// Whether every event on the chain is wanted, and not the last alone.
    pub fn full_chain(&self) -> (r: bool)
        ensures
            r == self@.full_chain(),
    {
        self.record.is_some() || self.keep_chain
    }

    /// The spawn that brings the service up again.
    pub fn order(&self) -> (r: SpawnOrder)
        ensures
            r@ == self@.order(),
    {
        SpawnOrder {
            handle: self.handle.clone(),
            manifest: self.manifest.clone(),
            full_chain: self.full_chain(),
        }
    }
}

// ---- finding a service -----------------------------------------------------

/// The place of the first service that a property holds of.
pub open spec fn position(services: Seq<SvcView>, p: spec_fn(SvcView) -> bool) -> Option<int>
    decreases services.len(),
{
    if services.len() == 0 {
        None
    } else if p(services[0]) {
        Some(0)
    } else {
        match position(services.drop_first(), p) {
            Some(i) => Some(i + 1),
            None => None,
        }
    }
}

/// The property of having a handle.
pub open spec fn by_handle(h: Seq<char>) -> spec_fn(SvcView) -> bool {
    |s: SvcView| s.handle == h
}

/// The property of running as an id.
pub open spec fn by_id(id: Seq<char>) -> spec_fn(SvcView) -> bool {
    |s: SvcView| s.current_id == id
}

/// The property of running as an id and being watched on the full chain.
pub open spec fn by_chain(id: Seq<char>) -> spec_fn(SvcView) -> bool {
    |s: SvcView| s.current_id == id && s.full_chain()
}

/// Whether a handle is in use.
pub open spec fn has_handle(services: Seq<SvcView>, h: Seq<char>) -> bool {
    exists|i: int| 0 <= i < services.len() && (#[trigger] services[i]).handle == h
}

/// The place found is a place, the property holds there, and nowhere before.
pub proof fn position_first(services: Seq<SvcView>, p: spec_fn(SvcView) -> bool)
    ensures
        match position(services, p) {
            Some(i) => 0 <= i < services.len() && p(services[i]) && forall|k: int|
                0 <= k < i ==> !p(#[trigger] services[k]),
            None => forall|k: int| 0 <= k < services.len() ==> !p(#[trigger] services[k]),
        },
    decreases services.len(),
{
    if services.len() > 0 && !p(services[0]) {
        let rest = services.drop_first();
        position_first(rest, p);
        assert forall|k: int| 0 < k < services.len() implies #[trigger] services[k] == rest[k - 1] by {}
        match position(rest, p) {
            Some(j) => {
                assert forall|k: int| 0 <= k < j + 1 implies !p(#[trigger] services[k]) by {
                    if k > 0 {
                        assert(services[k] == rest[k - 1]);
                    }
                }
            },
            None => {
                assert forall|k: int| 0 <= k < services.len() implies !p(#[trigger] services[k]) by {
                    if k > 0 {
                        assert(services[k] == rest[k - 1]);
                    }
                }
            },
        }
    }
}

/// The first place where a property holds is the place found.
proof fn position_at(services: Seq<SvcView>, p: spec_fn(SvcView) -> bool, i: int)
    requires
        0 <= i < services.len(),
        p(services[i]),
        forall|k: int| 0 <= k < i ==> !p(#[trigger] services[k]),
    ensures
        position(services, p) == Some(i),
{
    position_first(services, p);
}

/// Where a handle is.
pub fn find_handle(services: &Vec<Svc>, h: &str) -> (r: Option<usize>)
    ensures
        match r {
            Some(i) => i < services@.len() && position(svc_views(services@), by_handle(h@)) == Some(
                i as int,
            ),
            None => position(svc_views(services@), by_handle(h@)) is None && !has_handle(
                svc_views(services@),
                h@,
            ),
        },
{
    let ghost all = svc_views(services@);
    let mut i: usize = 0;
    while i < services.len()
        invariant
            i <= services@.len(),
            all == svc_views(services@),
            forall|k: int| 0 <= k < i ==> (#[trigger] all[k]).handle != h@,
        decreases services@.len() - i,
    {
        assert(all[i as int] == services@[i as int]@);
        if same(services[i].handle.as_str(), h) {
            proof {
                position_at(all, by_handle(h@), i as int);
            }
            return Some(i);
        }
        i += 1;
    }
    proof {
        position_first(all, by_handle(h@));
    }
    None
}

/// Where an id runs.
pub fn find_id(services: &Vec<Svc>, id: &str) -> (r: Option<usize>)
    ensures
        match r {
            Some(i) => i < services@.len() && position(svc_views(services@), by_id(id@)) == Some(
                i as int,
            ),
            None => position(svc_views(services@), by_id(id@)) is None,
        },
{
    let ghost all = svc_views(services@);
    let mut i: usize = 0;
    while i < services.len()
        invariant
            i <= services@.len(),
            all == svc_views(services@),
            forall|k: int| 0 <= k < i ==> (#[trigger] all[k]).current_id != id@,
        decreases services@.len() - i,
    {
        assert(all[i as int] == services@[i as int]@);
        if same(services[i].current_id.as_str(), id) {
            proof {
                position_at(all, by_id(id@), i as int);
            }
            return Some(i);
        }
        i += 1;
    }
    proof {
        position_first(all, by_id(id@));
    }
    None
}

/// Where an id runs that is watched on the full chain.
pub fn find_chain(services: &Vec<Svc>, id: &str) -> (r: Option<usize>)
    ensures
        match r {
            Some(i) => i < services@.len() && position(svc_views(services@), by_chain(id@)) == Some(
                i as int,
            ),
            None => position(svc_views(services@), by_chain(id@)) is None,
        },
{
    let ghost all = svc_views(services@);
    let mut i: usize = 0;
    while i < services.len()
        invariant
            i <= services@.len(),
            all == svc_views(services@),
            forall|k: int|
                0 <= k < i ==> (#[trigger] all[k]).current_id != id@ || !all[k].full_chain(),
        decreases services@.len() - i,
    {
        assert(all[i as int] == services@[i as int]@);
        if same(services[i].current_id.as_str(), id) && services[i].full_chain() {
            proof {
                position_at(all, by_chain(id@), i as int);
            }
            return Some(i);
        }
        i += 1;
    }
    proof {
        position_first(all, by_chain(id@));
    }
    None
}

} // verus!
