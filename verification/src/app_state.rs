use vstd::prelude::*;

verus! {

/// The scan phases, in their strict forward order.
#[derive(Debug, Clone, Copy, PartialEq, Eq, Structural)]
pub enum AppPhase {
    Disconnected,
    Connecting,
    Identifying,
    Discovering,
    ScanningDtc,
    Ready,
    Error,
}

/// Which transport backs a session.
#[derive(Debug, Clone, Copy, PartialEq, Eq, Structural)]
pub enum TransportMode {
    Simulation,
    J2534,
}

/// The outcome recorded for a module after probing or scanning it.
#[derive(Debug, Clone, Copy, PartialEq, Eq, Structural)]
pub enum ModuleStatus {
    Responding,
    NoResponse,
    Error,
}

/// A discovered module: canonical textual id, display name, bus, category,
/// the request/response arbitration ids, probe status, and the number of
/// trouble codes last read from it.
#[derive(Debug, Clone)]
pub struct ModuleInfo {
    pub id: String,
    pub name: String,
    pub bus: String,
    pub category: String,
    pub tx_id: u32,
    pub rx_id: u32,
    pub status: ModuleStatus,
    pub dtc_count: usize,
}

/// One decoded diagnostic trouble code.
#[derive(Debug, Clone)]
pub struct DtcInfo {
    pub code: String,
    pub description: String,
    pub status: String,
}

/// One bus of the topology graph: its name and the ids of the modules on it,
/// in the order they were discovered.
#[derive(Debug, Clone)]
pub struct BusInfo {
    pub name: String,
    pub modules: Vec<String>,
}

/// The topology graph: buses sorted ascending by name.
#[derive(Debug, Clone)]
pub struct TopologyGraph {
    pub buses: Vec<BusInfo>,
}

/// A progress tick: stage name, percent in 0..=100, and a short message.
#[derive(Debug, Clone)]
pub struct ProgressInfo {
    pub stage: String,
    pub percent: u8,
    pub message: String,
}

/// A fatal error surfaced to the user: a human summary and a details string.
#[derive(Debug, Clone)]
pub struct ErrorInfo {
    pub summary: String,
    pub details: String,
}

/// What is persisted about a finished session: its id, the finish time as
/// milliseconds since the Unix epoch, the VIN if one was read, and the
/// module and aggregate trouble-code counts.
#[derive(Debug, Clone)]
pub struct SessionSummary {
    pub session_id: String,
    pub timestamp_ms: i64,
    pub vin: Option<String>,
    pub module_count: usize,
    pub dtc_count: usize,
}

/// What probing for the native pass-through driver reports: whether a
/// driver was found, a human message, and the library path when one was.
#[derive(Debug, Clone)]
pub struct AdapterStatus {
    pub available: bool,
    pub message: String,
    pub dll_path: Option<String>,
}

/// Spec-level image of a `DtcInfo`.
#[verifier::ext_equal]
pub ghost struct DtcModel {
    pub code: Seq<char>,
    pub description: Seq<char>,
    pub status: Seq<char>,
}

/// Spec-level image of a `ModuleInfo`.
#[verifier::ext_equal]
pub ghost struct ModuleModel {
    pub id: Seq<char>,
    pub name: Seq<char>,
    pub bus: Seq<char>,
    pub category: Seq<char>,
    pub tx_id: u32,
    pub rx_id: u32,
    pub status: ModuleStatus,
    pub dtc_count: usize,
}

/// Spec-level image of a `BusInfo`.
#[verifier::ext_equal]
pub ghost struct BusModel {
    pub name: Seq<char>,
    pub modules: Seq<Seq<char>>,
}

/// Spec-level image of a `ProgressInfo`.
#[verifier::ext_equal]
pub ghost struct ProgressModel {
    pub stage: Seq<char>,
    pub percent: u8,
    pub message: Seq<char>,
}

/// Spec-level image of an `ErrorInfo`.
#[verifier::ext_equal]
pub ghost struct ErrorModel {
    pub summary: Seq<char>,
    pub details: Seq<char>,
}

/// Spec-level image of a `SessionSummary`.
#[verifier::ext_equal]
pub ghost struct SummaryModel {
    pub session_id: Seq<char>,
    pub timestamp_ms: i64,
    pub vin: Option<Seq<char>>,
    pub module_count: usize,
    pub dtc_count: usize,
}

pub open spec fn dtc_model(d: DtcInfo) -> DtcModel {
    DtcModel { code: d.code@, description: d.description@, status: d.status@ }
}

pub open spec fn dtcs_model(s: Seq<DtcInfo>) -> Seq<DtcModel> {
    s.map_values(|d: DtcInfo| dtc_model(d))
}

pub open spec fn module_model(m: ModuleInfo) -> ModuleModel {
    ModuleModel {
        id: m.id@,
        name: m.name@,
        bus: m.bus@,
        category: m.category@,
        tx_id: m.tx_id,
        rx_id: m.rx_id,
        status: m.status,
        dtc_count: m.dtc_count,
    }
}

pub open spec fn modules_model(s: Seq<ModuleInfo>) -> Seq<ModuleModel> {
    s.map_values(|m: ModuleInfo| module_model(m))
}

pub open spec fn bus_model(b: BusInfo) -> BusModel {
    BusModel { name: b.name@, modules: b.modules@.map_values(|s: String| s@) }
}

pub open spec fn buses_model(s: Seq<BusInfo>) -> Seq<BusModel> {
    s.map_values(|b: BusInfo| bus_model(b))
}

pub open spec fn progress_model(p: ProgressInfo) -> ProgressModel {
    ProgressModel { stage: p.stage@, percent: p.percent, message: p.message@ }
}

pub open spec fn opt_progress_model(p: Option<ProgressInfo>) -> Option<ProgressModel> {
    match p {
        Some(x) => Some(progress_model(x)),
        None => None,
    }
}

pub open spec fn error_model(e: ErrorInfo) -> ErrorModel {
    ErrorModel { summary: e.summary@, details: e.details@ }
}

pub open spec fn opt_error_model(e: Option<ErrorInfo>) -> Option<ErrorModel> {
    match e {
        Some(x) => Some(error_model(x)),
        None => None,
    }
}

pub open spec fn summary_model(s: SessionSummary) -> SummaryModel {
    SummaryModel {
        session_id: s.session_id@,
        timestamp_ms: s.timestamp_ms,
        vin: opt_str_model(s.vin),
        module_count: s.module_count,
        dtc_count: s.dtc_count,
    }
}

pub open spec fn opt_summary_model(s: Option<SessionSummary>) -> Option<SummaryModel> {
    match s {
        Some(x) => Some(summary_model(x)),
        None => None,
    }
}

pub open spec fn opt_str_model(s: Option<String>) -> Option<Seq<char>> {
    match s {
        Some(x) => Some(x@),
        None => None,
    }
}

/// Copies one trouble-code record.
pub fn clone_dtc(d: &DtcInfo) -> (r: DtcInfo)
    ensures
        dtc_model(r) == dtc_model(*d),
{
    DtcInfo { code: d.code.clone(), description: d.description.clone(), status: d.status.clone() }
}

/// Copies a list of trouble-code records.
pub fn clone_dtcs(v: &Vec<DtcInfo>) -> (r: Vec<DtcInfo>)
    ensures
        dtcs_model(r@) == dtcs_model(v@),
{
    let mut out: Vec<DtcInfo> = Vec::new();
    let mut i: usize = 0;
    while i < v.len()
        invariant
            i <= v@.len(),
            out@.len() == i,
            forall|j: int| 0 <= j < i ==> dtc_model(out@[j]) == dtc_model(v@[j]),
        decreases v@.len() - i,
    {
        out.push(clone_dtc(&v[i]));
        i = i + 1;
    }
    proof {
        assert(dtcs_model(out@) =~~= dtcs_model(v@));
    }
    out
}

/// Copies one module record.
pub fn clone_module(m: &ModuleInfo) -> (r: ModuleInfo)
    ensures
        module_model(r) == module_model(*m),
{
    ModuleInfo {
        id: m.id.clone(),
        name: m.name.clone(),
        bus: m.bus.clone(),
        category: m.category.clone(),
        tx_id: m.tx_id,
        rx_id: m.rx_id,
        status: m.status,
        dtc_count: m.dtc_count,
    }
}

/// Copies a module list.
pub fn clone_modules(v: &Vec<ModuleInfo>) -> (r: Vec<ModuleInfo>)
    ensures
        modules_model(r@) == modules_model(v@),
{
    let mut out: Vec<ModuleInfo> = Vec::new();
    let mut i: usize = 0;
    while i < v.len()
        invariant
            i <= v@.len(),
            out@.len() == i,
            forall|j: int| 0 <= j < i ==> module_model(out@[j]) == module_model(v@[j]),
        decreases v@.len() - i,
    {
        out.push(clone_module(&v[i]));
        i = i + 1;
    }
    proof {
        assert(modules_model(out@) =~~= modules_model(v@));
    }
    out
}

/// One keyed entry of a `DtcMap`.
pub struct DtcMapEntry {
    pub key: String,
    pub dtcs: Vec<DtcInfo>,
}

/// The mapping from module id to its trouble-code list, kept as an
/// association list with pairwise-distinct keys in insertion order.
pub struct DtcMap {
    entries: Vec<DtcMapEntry>,
}

/// Looks a key up in the spec image of a `DtcMap`: the list of the first
/// entry whose key matches, or `None`.
pub open spec fn dtc_map_get(m: Seq<(Seq<char>, Seq<DtcModel>)>, k: Seq<char>) -> Option<
    Seq<DtcModel>,
>
    decreases m.len(),
{
    if m.len() == 0 {
        None
    } else if m[0].0 == k {
        Some(m[0].1)
    } else {
        dtc_map_get(m.drop_first(), k)
    }
}

/// The keys of a `DtcMap` image are pairwise distinct.
pub open spec fn dtc_map_wf(m: Seq<(Seq<char>, Seq<DtcModel>)>) -> bool {
    forall|i: int, j: int| #![trigger m[i], m[j]] 0 <= i < j < m.len() ==> m[i].0 != m[j].0
}

/// The total number of codes held across all entries.
pub open spec fn dtc_total(m: Seq<(Seq<char>, Seq<DtcModel>)>) -> nat
    decreases m.len(),
{
    if m.len() == 0 {
        0
    } else {
        m[0].1.len() + dtc_total(m.drop_first())
    }
}

/// A key that matches no entry looks up to `None`.
pub proof fn lemma_dtc_map_get_missing(m: Seq<(Seq<char>, Seq<DtcModel>)>, k: Seq<char>)
    requires
        forall|j: int| 0 <= j < m.len() ==> (#[trigger] m[j]).0 != k,
    ensures
        dtc_map_get(m, k) == None::<Seq<DtcModel>>,
    decreases m.len(),
{
    if m.len() > 0 {
        assert(m[0].0 != k);
        lemma_dtc_map_get_missing(m.drop_first(), k);
    }
}

/// A key whose first match sits at index `i` looks up to that entry's list.
pub proof fn lemma_dtc_map_get_found(m: Seq<(Seq<char>, Seq<DtcModel>)>, k: Seq<char>, i: int)
    requires
        0 <= i < m.len(),
        m[i].0 == k,
        forall|j: int| 0 <= j < i ==> (#[trigger] m[j]).0 != k,
    ensures
        dtc_map_get(m, k) == Some(m[i].1),
    decreases i,
{
    if i > 0 {
        lemma_dtc_map_get_found(m.drop_first(), k, i - 1);
    }
}

/// Appending an entry changes only the lookup of its own key, and only when
/// that key was absent.
pub proof fn lemma_dtc_map_get_push(
    m: Seq<(Seq<char>, Seq<DtcModel>)>,
    e: (Seq<char>, Seq<DtcModel>),
    k: Seq<char>,
)
    ensures
        dtc_map_get(m.push(e), k) == (match dtc_map_get(m, k) {
            Some(v) => Some(v),
            None => if e.0 == k {
                Some(e.1)
            } else {
                None
            },
        }),
    decreases m.len(),
{
    if m.len() == 0 {
        assert(m.push(e).drop_first() =~= Seq::<(Seq<char>, Seq<DtcModel>)>::empty());
    } else {
        assert(m.push(e).drop_first() =~= m.drop_first().push(e));
        lemma_dtc_map_get_push(m.drop_first(), e, k);
    }
}

/// Replacing the entry at index `i` while keeping its key changes only that
/// key's lookup.
pub proof fn lemma_dtc_map_get_update(
    m: Seq<(Seq<char>, Seq<DtcModel>)>,
    i: int,
    val: Seq<DtcModel>,
    k: Seq<char>,
)
    requires
        0 <= i < m.len(),
    ensures
        k == m[i].0 && (forall|j: int| 0 <= j < i ==> (#[trigger] m[j]).0 != m[i].0)
            ==> dtc_map_get(m.update(i, (m[i].0, val)), k) == Some(val),
        k != m[i].0 ==> dtc_map_get(m.update(i, (m[i].0, val)), k) == dtc_map_get(m, k),
    decreases m.len(),
{
    let m2 = m.update(i, (m[i].0, val));
    if i == 0 {
        if k != m[0].0 {
            assert(m2.drop_first() =~= m.drop_first());
        }
    } else {
        assert(m2.drop_first() =~= m.drop_first().update(i - 1, (m[i].0, val)));
        assert(m.drop_first()[i - 1] == m[i]);
        lemma_dtc_map_get_update(m.drop_first(), i - 1, val, k);
    }
}

/// Emptying every list preserves which keys are present and maps every
/// present key to the empty list.
pub proof fn lemma_dtc_map_get_cleared(
    m: Seq<(Seq<char>, Seq<DtcModel>)>,
    m2: Seq<(Seq<char>, Seq<DtcModel>)>,
    k: Seq<char>,
)
    requires
        m2.len() == m.len(),
        forall|i: int| 0 <= i < m.len() ==> (#[trigger] m2[i]).0 == m[i].0,
        forall|i: int| 0 <= i < m.len() ==> (#[trigger] m2[i]).1 == Seq::<DtcModel>::empty(),
    ensures
        dtc_map_get(m2, k) == (match dtc_map_get(m, k) {
            Some(_) => Some(Seq::<DtcModel>::empty()),
            None => None,
        }),
    decreases m.len(),
{
    if m.len() > 0 {
        assert(m2[0].0 == m[0].0);
        lemma_dtc_map_get_cleared(m.drop_first(), m2.drop_first(), k);
    }
}

/// The total over a prefix grows by the length of the next list.
pub proof fn lemma_dtc_total_take_succ(m: Seq<(Seq<char>, Seq<DtcModel>)>, i: int)
    requires
        0 <= i < m.len(),
    ensures
        dtc_total(m.take(i + 1)) == dtc_total(m.take(i)) + m[i].1.len(),
    decreases i,
{
    if i == 0 {
        assert(m.take(1) =~= seq![m[0]]);
        assert(m.take(1).drop_first() =~= Seq::<(Seq<char>, Seq<DtcModel>)>::empty());
        assert(m.take(0) =~= Seq::<(Seq<char>, Seq<DtcModel>)>::empty());
    } else {
        assert(m.take(i + 1).drop_first() =~= m.drop_first().take(i));
        assert(m.take(i).drop_first() =~= m.drop_first().take(i - 1));
        assert(m.take(i + 1)[0] == m[0]);
        assert(m.take(i)[0] == m[0]);
        assert(m.drop_first()[i - 1] == m[i]);
        lemma_dtc_total_take_succ(m.drop_first(), i - 1);
    }
}

impl DtcMap {
    /// The spec image: the key and code list of each entry, in order.
    pub closed spec fn view(&self) -> Seq<(Seq<char>, Seq<DtcModel>)> {
        self.entries@.map_values(|e: DtcMapEntry| (e.key@, dtcs_model(e.dtcs@)))
    }

    /// Keys are pairwise distinct.
    pub open spec fn wf(&self) -> bool {
        dtc_map_wf(self@)
    }

    pub fn new() -> (r: DtcMap)
        ensures
            r@ == Seq::<(Seq<char>, Seq<DtcModel>)>::empty(),
            r.wf(),
    {
        let r = DtcMap { entries: Vec::new() };
        proof {
            assert(r@ =~= Seq::<(Seq<char>, Seq<DtcModel>)>::empty());
        }
        r
    }

    /// The index of the entry holding `key`, if one does.
    fn find_key(&self, key: &String) -> (r: Option<usize>)
        ensures
            match r {
                Some(i) => i < self@.len() && self@[i as int].0 == key@ && (forall|j: int|
                    0 <= j < i ==> (#[trigger] self@[j]).0 != key@),
                None => forall|j: int| 0 <= j < self@.len() ==> (#[trigger] self@[j]).0 != key@,
            },
    {
        let mut i: usize = 0;
        while i < self.entries.len()
            invariant
                i <= self.entries@.len(),
                self@.len() == self.entries@.len(),
                forall|j: int| 0 <= j < i ==> (#[trigger] self@[j]).0 != key@,
            decreases self.entries@.len() - i,
        {
            if self.entries[i].key == *key {
                return Some(i);
            }
            i = i + 1;
        }
        None
    }

    /// The list recorded for `key`, if any.
    pub fn get(&self, key: &String) -> (r: Option<&Vec<DtcInfo>>)
        ensures
            match r {
                Some(v) => dtc_map_get(self@, key@) == Some(dtcs_model(v@)),
                None => dtc_map_get(self@, key@) == None::<Seq<DtcModel>>,
            },
    {
        match self.find_key(key) {
            Some(i) => {
                proof {
                    lemma_dtc_map_get_found(self@, key@, i as int);
                }
                Some(&self.entries[i].dtcs)
            },
            None => {
                proof {
                    lemma_dtc_map_get_missing(self@, key@);
                }
                None
            },
        }
    }

    /// Records `dtcs` under `key`, replacing any earlier list for that key.
    pub fn insert(&mut self, key: String, dtcs: Vec<DtcInfo>)
        requires
            old(self).wf(),
        ensures
            final(self).wf(),
            dtc_map_get(final(self)@, key@) == Some(dtcs_model(dtcs@)),
            forall|k: Seq<char>| k != key@ ==> #[trigger] dtc_map_get(final(self)@, k)
                == dtc_map_get(old(self)@, k),
            final(self)@.len() == old(self)@.len() + (if dtc_map_get(old(self)@, key@)
                is Some {
                0int
            } else {
                1int
            }),
    {
        let ghost m0 = self@;
        match self.find_key(&key) {
            Some(i) => {
                proof {
                    lemma_dtc_map_get_found(m0, key@, i as int);
                }
                self.entries.remove(i);
                self.entries.insert(i, DtcMapEntry { key, dtcs });
                proof {
                    let ghost kv = m0[i as int].0;
                    assert(self@ =~~= m0.update(i as int, (kv, dtcs_model(dtcs@))));
                    assert forall|k: Seq<char>| k != kv implies #[trigger] dtc_map_get(
                        self@,
                        k,
                    ) == dtc_map_get(m0, k) by {
                        lemma_dtc_map_get_update(m0, i as int, dtcs_model(dtcs@), k);
                    }
                    lemma_dtc_map_get_update(m0, i as int, dtcs_model(dtcs@), kv);
                }
            },
            None => {
                proof {
                    lemma_dtc_map_get_missing(m0, key@);
                }
                let ghost e = (key@, dtcs_model(dtcs@));
                self.entries.push(DtcMapEntry { key, dtcs });
                proof {
                    assert(self@ =~~= m0.push(e));
                    assert forall|k: Seq<char>| true implies #[trigger] dtc_map_get(self@, k)
                        == (match dtc_map_get(m0, k) {
                        Some(v) => Some(v),
                        None => if e.0 == k {
                            Some(e.1)
                        } else {
                            None
                        },
                    }) by {
                        lemma_dtc_map_get_push(m0, e, k);
                    }
                }
            },
        }
    }

    /// Empties every list while keeping every key.
    pub fn clear_all(&mut self)
        requires
            old(self).wf(),
        ensures
            final(self).wf(),
            final(self)@.len() == old(self)@.len(),
            forall|i: int| 0 <= i < old(self)@.len() ==> (#[trigger] final(self)@[i]).0
                == old(self)@[i].0,
            forall|i: int| 0 <= i < old(self)@.len() ==> (#[trigger] final(self)@[i]).1
                == Seq::<DtcModel>::empty(),
            forall|k: Seq<char>| #[trigger] dtc_map_get(final(self)@, k) == (
            match dtc_map_get(old(self)@, k) {
                Some(_) => Some(Seq::<DtcModel>::empty()),
                None => None,
            }),
    {
        let ghost m0 = self@;
        let mut i: usize = 0;
        while i < self.entries.len()
            invariant
                i <= self.entries@.len(),
                self.entries@.len() == m0.len(),
                self@.len() == m0.len(),
                forall|j: int| 0 <= j < m0.len() ==> (#[trigger] self@[j]).0 == m0[j].0,
                forall|j: int| 0 <= j < i ==> (#[trigger] self@[j]).1 == Seq::<DtcModel>::empty(),
                forall|j: int| i <= j < m0.len() ==> (#[trigger] self@[j]).1 == m0[j].1,
            decreases self.entries@.len() - i,
        {
            let ghost prev = self@;
            let e = self.entries.remove(i);
            self.entries.insert(i, DtcMapEntry { key: e.key, dtcs: Vec::new() });
            proof {
                assert(dtcs_model(Seq::<DtcInfo>::empty()) =~= Seq::<DtcModel>::empty());
                assert(self@ =~~= prev.update(i as int, (prev[i as int].0,
                    Seq::<DtcModel>::empty())));
            }
            i = i + 1;
        }
        proof {
            assert forall|k: Seq<char>| true implies #[trigger] dtc_map_get(self@, k) == (
            match dtc_map_get(m0, k) {
                Some(_) => Some(Seq::<DtcModel>::empty()),
                None => None,
            }) by {
                lemma_dtc_map_get_cleared(m0, self@, k);
            }
        }
    }

    /// How many entries the map holds.
    pub fn entry_count(&self) -> (r: usize)
        ensures
            r == self@.len(),
    {
        self.entries.len()
    }

    /// The key of the entry at `i`.
    pub fn key_at(&self, i: usize) -> (r: &String)
        requires
            i < self@.len(),
        ensures
            r@ == self@[i as int].0,
    {
        &self.entries[i].key
    }

    /// The list of the entry at `i`.
    pub fn dtcs_at(&self, i: usize) -> (r: &Vec<DtcInfo>)
        requires
            i < self@.len(),
        ensures
            dtcs_model(r@) == self@[i as int].1,
    {
        &self.entries[i].dtcs
    }

    /// The total number of codes across all entries, saturating at the
    /// largest `usize`.
    pub fn total_dtcs(&self) -> (r: usize)
        ensures
            r as nat == (if dtc_total(self@) <= usize::MAX as nat {
                dtc_total(self@)
            } else {
                usize::MAX as nat
            }),
    {
        let mut acc: usize = 0;
        let mut i: usize = 0;
        proof {
            assert(self@.take(0) =~= Seq::<(Seq<char>, Seq<DtcModel>)>::empty());
        }
        while i < self.entries.len()
            invariant
                i <= self.entries@.len(),
                self@.len() == self.entries@.len(),
                acc as nat == (if dtc_total(self@.take(i as int)) <= usize::MAX as nat {
                    dtc_total(self@.take(i as int))
                } else {
                    usize::MAX as nat
                }),
            decreases self.entries@.len() - i,
        {
            let n = self.entries[i].dtcs.len();
            proof {
                lemma_dtc_total_take_succ(self@, i as int);
                assert(self@[i as int].1.len() == n);
            }
            if n > usize::MAX - acc {
                acc = usize::MAX;
            } else {
                acc = acc + n;
            }
            i = i + 1;
        }
        proof {
            assert(self@.take(self@.len() as int) =~= self@);
        }
        acc
    }

    /// Deep-copies the map.
    pub fn duplicate(&self) -> (r: DtcMap)
        ensures
            r@ == self@,
    {
        let mut out: Vec<DtcMapEntry> = Vec::new();
        let mut i: usize = 0;
        while i < self.entries.len()
            invariant
                i <= self.entries@.len(),
                self@.len() == self.entries@.len(),
                out@.len() == i,
                forall|j: int| 0 <= j < i ==> (#[trigger] out@[j]).key@ == self@[j].0
                    && dtcs_model(out@[j].dtcs@) == self@[j].1,
            decreases self.entries@.len() - i,
        {
            let e = &self.entries[i];
            out.push(DtcMapEntry { key: e.key.clone(), dtcs: clone_dtcs(&e.dtcs) });
            i = i + 1;
        }
        let r = DtcMap { entries: out };
        proof {
            assert(r@ =~~= self@);
        }
        r
    }
}

/// Spec-level image shared by `AppState` and `AppSnapshot`.
#[verifier::ext_equal]
pub ghost struct StateModel {
    pub phase: AppPhase,
    pub transport: TransportMode,
    pub adapter_connected: bool,
    pub vin: Option<Seq<char>>,
    pub modules: Seq<ModuleModel>,
    pub dtcs: Seq<(Seq<char>, Seq<DtcModel>)>,
    pub topology: Seq<BusModel>,
    pub progress: Option<ProgressModel>,
    pub last_error: Option<ErrorModel>,
    pub session_id: Option<Seq<char>>,
    pub logs_path: Option<Seq<char>>,
    pub last_session: Option<SummaryModel>,
}

/// The mutable application state the scan orchestrator drives.
pub struct AppState {
    pub phase: AppPhase,
    pub transport: TransportMode,
    pub adapter_connected: bool,
    pub vin: Option<String>,
    pub modules: Vec<ModuleInfo>,
    pub dtcs: DtcMap,
    pub topology: TopologyGraph,
    pub progress: Option<ProgressInfo>,
    pub last_error: Option<ErrorInfo>,
    pub session_id: Option<String>,
    pub logs_path: Option<String>,
    pub last_session: Option<SessionSummary>,
}

/// The fully-owned, cloneable value observers receive; the canonical
/// externally-observable state.
pub struct AppSnapshot {
    pub phase: AppPhase,
    pub transport: TransportMode,
    pub adapter_connected: bool,
    pub vin: Option<String>,
    pub modules: Vec<ModuleInfo>,
    pub dtcs: DtcMap,
    pub topology: TopologyGraph,
    pub progress: Option<ProgressInfo>,
    pub last_error: Option<ErrorInfo>,
    pub session_id: Option<String>,
    pub logs_path: Option<String>,
    pub last_session: Option<SessionSummary>,
}

pub open spec fn state_model(s: AppState) -> StateModel {
    StateModel {
        phase: s.phase,
        transport: s.transport,
        adapter_connected: s.adapter_connected,
        vin: opt_str_model(s.vin),
        modules: modules_model(s.modules@),
        dtcs: s.dtcs@,
        topology: buses_model(s.topology.buses@),
        progress: opt_progress_model(s.progress),
        last_error: opt_error_model(s.last_error),
        session_id: opt_str_model(s.session_id),
        logs_path: opt_str_model(s.logs_path),
        last_session: opt_summary_model(s.last_session),
    }
}

pub open spec fn snapshot_model(s: AppSnapshot) -> StateModel {
    StateModel {
        phase: s.phase,
        transport: s.transport,
        adapter_connected: s.adapter_connected,
        vin: opt_str_model(s.vin),
        modules: modules_model(s.modules@),
        dtcs: s.dtcs@,
        topology: buses_model(s.topology.buses@),
        progress: opt_progress_model(s.progress),
        last_error: opt_error_model(s.last_error),
        session_id: opt_str_model(s.session_id),
        logs_path: opt_str_model(s.logs_path),
        last_session: opt_summary_model(s.last_session),
    }
}

/// Every module's recorded `dtc_count` agrees with the length of the list
/// the mapping holds for it, an absent entry counting as zero.
pub open spec fn state_counts_ok(s: AppState) -> bool {
    forall|i: int| 0 <= i < s.modules@.len() ==> (#[trigger] s.modules@[i]).dtc_count as nat == (
    match dtc_map_get(s.dtcs@, s.modules@[i].id@) {
        Some(l) => l.len(),
        None => 0,
    })
}

/// The same consistency, read off a snapshot.
pub open spec fn snap_counts_ok(s: AppSnapshot) -> bool {
    forall|i: int| 0 <= i < s.modules@.len() ==> (#[trigger] s.modules@[i]).dtc_count as nat == (
    match dtc_map_get(s.dtcs@, s.modules@[i].id@) {
        Some(l) => l.len(),
        None => 0,
    })
}

impl Default for AppState {
    /// The idle state before any session: disconnected, simulation mode,
    /// everything else empty.
    fn default() -> (r: AppState)
        ensures
            r.phase == AppPhase::Disconnected,
            r.transport == TransportMode::Simulation,
            !r.adapter_connected,
            r.vin is None,
            r.modules@.len() == 0,
            r.dtcs@.len() == 0,
            r.dtcs.wf(),
            r.topology.buses@.len() == 0,
            r.progress is None,
            r.last_error is None,
            r.session_id is None,
            r.logs_path is None,
            r.last_session is None,
            state_counts_ok(r),
    {
        AppState {
            phase: AppPhase::Disconnected,
            transport: TransportMode::Simulation,
            adapter_connected: false,
            vin: None,
            modules: Vec::new(),
            dtcs: DtcMap::new(),
            topology: TopologyGraph { buses: Vec::new() },
            progress: None,
            last_error: None,
            session_id: None,
            logs_path: None,
            last_session: None,
        }
    }
}

/// Copies an optional string.
pub fn clone_opt_string(s: &Option<String>) -> (r: Option<String>)
    ensures
        opt_str_model(r) == opt_str_model(*s),
{
    match s {
        Some(x) => Some(x.clone()),
        None => None,
    }
}

/// Copies a progress tick.
pub fn clone_progress(p: &Option<ProgressInfo>) -> (r: Option<ProgressInfo>)
    ensures
        opt_progress_model(r) == opt_progress_model(*p),
{
    match p {
        Some(x) => Some(
            ProgressInfo {
                stage: x.stage.clone(),
                percent: x.percent,
                message: x.message.clone(),
            },
        ),
        None => None,
    }
}

/// Copies an error record.
pub fn clone_error(e: &Option<ErrorInfo>) -> (r: Option<ErrorInfo>)
    ensures
        opt_error_model(r) == opt_error_model(*e),
{
    match e {
        Some(x) => Some(ErrorInfo { summary: x.summary.clone(), details: x.details.clone() }),
        None => None,
    }
}

/// Copies a session summary.
pub fn clone_summary(s: &SessionSummary) -> (r: SessionSummary)
    ensures
        summary_model(r) == summary_model(*s),
{
    SessionSummary {
        session_id: s.session_id.clone(),
        timestamp_ms: s.timestamp_ms,
        vin: clone_opt_string(&s.vin),
        module_count: s.module_count,
        dtc_count: s.dtc_count,
    }
}

/// Copies an optional session summary.
pub fn clone_opt_summary(s: &Option<SessionSummary>) -> (r: Option<SessionSummary>)
    ensures
        opt_summary_model(r) == opt_summary_model(*s),
{
    match s {
        Some(x) => Some(clone_summary(x)),
        None => None,
    }
}

/// Copies one bus of a topology graph.
pub fn clone_bus(b: &BusInfo) -> (r: BusInfo)
    ensures
        bus_model(r) == bus_model(*b),
{
    let mut ids: Vec<String> = Vec::new();
    let mut i: usize = 0;
    while i < b.modules.len()
        invariant
            i <= b.modules@.len(),
            ids@.len() == i,
            forall|j: int| 0 <= j < i ==> (#[trigger] ids@[j])@ == b.modules@[j]@,
        decreases b.modules@.len() - i,
    {
        ids.push(b.modules[i].clone());
        i = i + 1;
    }
    let r = BusInfo { name: b.name.clone(), modules: ids };
    proof {
        assert(bus_model(r) =~~= bus_model(*b));
    }
    r
}

/// Copies a topology graph.
pub fn clone_topology(t: &TopologyGraph) -> (r: TopologyGraph)
    ensures
        buses_model(r.buses@) == buses_model(t.buses@),
{
    let mut buses: Vec<BusInfo> = Vec::new();
    let mut i: usize = 0;
    while i < t.buses.len()
        invariant
            i <= t.buses@.len(),
            buses@.len() == i,
            forall|j: int| 0 <= j < i ==> bus_model(#[trigger] buses@[j]) == bus_model(
                t.buses@[j],
            ),
        decreases t.buses@.len() - i,
    {
        buses.push(clone_bus(&t.buses[i]));
        i = i + 1;
    }
    let r = TopologyGraph { buses };
    proof {
        assert(buses_model(r.buses@) =~~= buses_model(t.buses@));
    }
    r
}

impl AppState {
    /// Derives the externally-observable snapshot of this state.
    pub fn snapshot(&self) -> (r: AppSnapshot)
        ensures
            snapshot_model(r) == state_model(*self),
    {
        let r = AppSnapshot {
            phase: self.phase,
            transport: self.transport,
            adapter_connected: self.adapter_connected,
            vin: clone_opt_string(&self.vin),
            modules: clone_modules(&self.modules),
            dtcs: self.dtcs.duplicate(),
            topology: clone_topology(&self.topology),
            progress: clone_progress(&self.progress),
            last_error: clone_error(&self.last_error),
            session_id: clone_opt_string(&self.session_id),
            logs_path: clone_opt_string(&self.logs_path),
            last_session: clone_opt_summary(&self.last_session),
        };
        proof {
            assert(snapshot_model(r) =~~= state_model(*self));
        }
        r
    }
}

} // verus!
