use vstd::prelude::*;
use vstd::arithmetic::div_mod::{
    lemma_div_is_ordered, lemma_div_multiples_vanish, lemma_div_pos_is_pos,
};
use vstd::arithmetic::mul::{lemma_mul_inequality, lemma_mul_is_commutative};
use crate::app_state::{
    dtc_map_get, dtc_total, dtcs_model, modules_model, opt_error_model, opt_progress_model,
    opt_str_model, snap_counts_ok,
    snapshot_model, state_counts_ok, state_model, AppPhase, AppSnapshot, AppState, DtcInfo,
    DtcMap, DtcModel, ErrorInfo, ModuleInfo, ModuleStatus, ProgressInfo, ProgressModel,
    SessionSummary, TopologyGraph, TransportMode, clone_dtcs, clone_modules,
};
use crate::clock::now_millis;
use crate::discovery::{decode_vin, discover_modules, ModuleCandidate};
use crate::logger::{LogEvent, LogKind, LogPayload};
use crate::simulation::SimulationSession;
use crate::topology::build_topology;
use crate::transport::Transport;
use crate::uds::UdsClient;

verus! {

/// What a scan run hands outward: every snapshot in the order it was
/// derived, and every log event in the order it was produced.
pub struct ScanEmit {
    pub snapshots: Vec<AppSnapshot>,
    pub events: Vec<LogEvent>,
}

impl ScanEmit {
    pub fn new() -> (r: ScanEmit)
        ensures
            r.snapshots@ == Seq::<AppSnapshot>::empty(),
            r.events@ == Seq::<LogEvent>::empty(),
    {
        let r = ScanEmit { snapshots: Vec::new(), events: Vec::new() };
        proof {
            assert(r.snapshots@ =~= Seq::<AppSnapshot>::empty());
            assert(r.events@ =~= Seq::<LogEvent>::empty());
        }
        r
    }
}

/// One step forward in the strict phase order.
pub open spec fn forward_step(a: AppPhase, b: AppPhase) -> bool {
    (a == AppPhase::Disconnected && b == AppPhase::Connecting) || (a == AppPhase::Connecting && b
        == AppPhase::Identifying) || (a == AppPhase::Identifying && b == AppPhase::Discovering) || (
    a == AppPhase::Discovering && b == AppPhase::ScanningDtc) || (a == AppPhase::ScanningDtc && b
        == AppPhase::Ready)
}

/// The phase transition grammar: stay, step forward without skipping, fail
/// from any non-terminal phase, or restart from a terminal phase.
pub open spec fn phase_step_ok(a: AppPhase, b: AppPhase) -> bool {
    a == b || forward_step(a, b) || (b == AppPhase::Error && a != AppPhase::Ready && a
        != AppPhase::Error) || ((a == AppPhase::Ready || a == AppPhase::Error) && b
        == AppPhase::Connecting)
}

/// Progress percent stays within 0..=100.
pub open spec fn snap_prog_bound(s: AppSnapshot) -> bool {
    match s.progress {
        Some(p) => p.percent <= 100,
        None => true,
    }
}

/// The same bound, read off a state.
pub open spec fn state_prog_bound(s: AppState) -> bool {
    match s.progress {
        Some(p) => p.percent <= 100,
        None => true,
    }
}

/// Progress percent never decreases between consecutive ticks of the same
/// stage.
pub open spec fn prog_pair_ok(a: Option<ProgressModel>, b: Option<ProgressModel>) -> bool {
    match (a, b) {
        (Some(x), Some(y)) => x.stage == y.stage ==> x.percent <= y.percent,
        _ => true,
    }
}

/// The phase a trace position follows from.
pub open spec fn prev_phase(snaps: Seq<AppSnapshot>, ep: AppPhase, i: int) -> AppPhase {
    if i == 0 {
        ep
    } else {
        snaps[i - 1].phase
    }
}

/// The progress a trace position follows from.
pub open spec fn prev_prog(snaps: Seq<AppSnapshot>, eg: Option<ProgressModel>, i: int) -> Option<
    ProgressModel,
> {
    if i == 0 {
        eg
    } else {
        opt_progress_model(snaps[i - 1].progress)
    }
}

/// A well-formed snapshot trace departing from the given phase and
/// progress: every snapshot keeps the code counts consistent, every phase
/// transition follows the grammar, and progress within a stage never moves
/// backward.
pub open spec fn trace_ok(snaps: Seq<AppSnapshot>, ep: AppPhase, eg: Option<ProgressModel>) -> bool {
    (forall|i: int| 0 <= i < snaps.len() ==> snap_counts_ok(#[trigger] snaps[i])) && (forall|i: int|
        0 <= i < snaps.len() ==> snap_prog_bound(#[trigger] snaps[i])) && (forall|i: int|
        0 <= i < snaps.len() ==> phase_step_ok(
            prev_phase(snaps, ep, i),
            (#[trigger] snaps[i]).phase,
        )) && (forall|i: int|
        0 <= i < snaps.len() ==> prog_pair_ok(
            prev_prog(snaps, eg, i),
            opt_progress_model((#[trigger] snaps[i]).progress),
        ))
}

/// Appending one admissible snapshot keeps a trace well-formed.
pub proof fn lemma_trace_snoc(
    snaps: Seq<AppSnapshot>,
    s: AppSnapshot,
    ep: AppPhase,
    eg: Option<ProgressModel>,
)
    requires
        trace_ok(snaps, ep, eg),
        snap_counts_ok(s),
        snap_prog_bound(s),
        phase_step_ok(prev_phase(snaps.push(s), ep, snaps.len() as int), s.phase),
        prog_pair_ok(
            prev_prog(snaps.push(s), eg, snaps.len() as int),
            opt_progress_model(s.progress),
        ),
    ensures
        trace_ok(snaps.push(s), ep, eg),
{
    let p = snaps.push(s);
    assert forall|i: int| 0 <= i < p.len() implies snap_counts_ok(#[trigger] p[i])
        && snap_prog_bound(p[i]) && phase_step_ok(prev_phase(p, ep, i), p[i].phase)
        && prog_pair_ok(prev_prog(p, eg, i), opt_progress_model(p[i].progress)) by {
        if i < snaps.len() {
            assert(p[i] == snaps[i]);
            if i > 0 {
                assert(p[i - 1] == snaps[i - 1]);
            }
        } else {
            assert(p[i] == s);
        }
    }
}

/// Concatenating a well-formed trace with one that departs from its last
/// snapshot yields a well-formed trace.
#[verifier::rlimit(100)]
pub proof fn lemma_trace_concat(
    a: Seq<AppSnapshot>,
    b: Seq<AppSnapshot>,
    ep: AppPhase,
    eg: Option<ProgressModel>,
)
    requires
        trace_ok(a, ep, eg),
        a.len() > 0,
        trace_ok(b, a.last().phase, opt_progress_model(a.last().progress)),
    ensures
        trace_ok(a + b, ep, eg),
{
    let p = a + b;
    assert forall|i: int| 0 <= i < p.len() implies snap_counts_ok(#[trigger] p[i])
        && snap_prog_bound(p[i]) && phase_step_ok(prev_phase(p, ep, i), p[i].phase)
        && prog_pair_ok(prev_prog(p, eg, i), opt_progress_model(p[i].progress)) by {
        if i < a.len() {
            assert(p[i] == a[i]);
            if i > 0 {
                assert(p[i - 1] == a[i - 1]);
            }
        } else {
            assert(p[i] == b[i - a.len()]);
            if i - a.len() > 0 {
                assert(p[i - 1] == b[i - a.len() - 1]);
            } else {
                assert(p[i - 1] == a[a.len() - 1]);
            }
            assert(snap_counts_ok(b[i - a.len()]));
            assert(snap_prog_bound(b[i - a.len()]));
            assert(phase_step_ok(
                prev_phase(b, a.last().phase, i - a.len()),
                b[i - a.len()].phase,
            ));
            assert(prog_pair_ok(
                prev_prog(b, opt_progress_model(a.last().progress), i - a.len()),
                opt_progress_model(b[i - a.len()].progress),
            ));
        }
    }
}

/// A model-equal snapshot carries the same phase, progress and count
/// consistency as the state it was derived from.
proof fn lemma_snapshot_bridge(st: AppState, snap: AppSnapshot)
    requires
        snapshot_model(snap) == state_model(st),
    ensures
        snap.phase == st.phase,
        opt_progress_model(snap.progress) == opt_progress_model(st.progress),
        state_counts_ok(st) ==> snap_counts_ok(snap),
        state_prog_bound(st) ==> snap_prog_bound(snap),
{
    assert(modules_model(snap.modules@) == modules_model(st.modules@));
    assert(snap.dtcs@ == st.dtcs@);
    assert(snap.modules@.len() == st.modules@.len()) by {
        assert(modules_model(snap.modules@).len() == modules_model(st.modules@).len());
    }
    if state_counts_ok(st) {
        assert forall|i: int| 0 <= i < snap.modules@.len() implies (
        #[trigger] snap.modules@[i]).dtc_count as nat == (match dtc_map_get(
            snap.dtcs@,
            snap.modules@[i].id@,
        ) {
            Some(l) => l.len(),
            None => 0,
        }) by {
            assert(modules_model(snap.modules@)[i] == modules_model(st.modules@)[i]);
            assert(snap.modules@[i].dtc_count == st.modules@[i].dtc_count);
            assert(snap.modules@[i].id@ == st.modules@[i].id@);
            assert(st.modules@[i].dtc_count as nat == (match dtc_map_get(
                st.dtcs@,
                st.modules@[i].id@,
            ) {
                Some(l) => l.len(),
                None => 0,
            }));
        }
    }
}

/// Where a run's emission started: the snapshots and events already present
/// and the phase and progress the run departs from.
pub ghost struct EmissionCtx {
    pub base_s: Seq<AppSnapshot>,
    pub base_e: Seq<LogEvent>,
    pub ep: AppPhase,
    pub eg: Option<ProgressModel>,
}

/// The running guarantee of a scan's emission: everything that was present
/// before is untouched, the snapshots appended so far form a well-formed
/// trace from the departure point, and `lp`/`lg` name the phase and
/// progress of the latest snapshot (or the departure point while none was
/// appended yet).
#[verifier::opaque]
pub open spec fn scan_emission(
    s: Seq<AppSnapshot>,
    e: Seq<LogEvent>,
    c: EmissionCtx,
    lp: AppPhase,
    lg: Option<ProgressModel>,
) -> bool {
    &&& s.len() >= c.base_s.len()
    &&& s.take(c.base_s.len() as int) == c.base_s
    &&& e.len() >= c.base_e.len()
    &&& e.take(c.base_e.len() as int) == c.base_e
    &&& trace_ok(s.skip(c.base_s.len() as int), c.ep, c.eg)
    &&& if s.len() == c.base_s.len() {
        lp == c.ep && lg == c.eg
    } else {
        s.last().phase == lp && opt_progress_model(s.last().progress) == lg
    }
}

/// An emission that has not yet appended anything is well-formed.
proof fn lemma_emission_init(
    s: Seq<AppSnapshot>,
    e: Seq<LogEvent>,
    p: AppPhase,
    g: Option<ProgressModel>,
)
    ensures
        scan_emission(s, e, EmissionCtx { base_s: s, base_e: e, ep: p, eg: g }, p, g),
{
    reveal(scan_emission);
    assert(s.take(s.len() as int) =~= s);
    assert(e.take(e.len() as int) =~= e);
    assert(s.skip(s.len() as int) =~= Seq::<AppSnapshot>::empty());
}

/// Chaining two emissions: one that continues exactly where another left
/// off extends it.
#[verifier::rlimit(100)]
proof fn lemma_emission_trans(
    s1: Seq<AppSnapshot>,
    e1: Seq<LogEvent>,
    s2: Seq<AppSnapshot>,
    e2: Seq<LogEvent>,
    c: EmissionCtx,
    lp: AppPhase,
    lg: Option<ProgressModel>,
    lp2: AppPhase,
    lg2: Option<ProgressModel>,
)
    requires
        scan_emission(s1, e1, c, lp, lg),
        scan_emission(
            s2,
            e2,
            EmissionCtx { base_s: s1, base_e: e1, ep: lp, eg: lg },
            lp2,
            lg2,
        ),
    ensures
        scan_emission(s2, e2, c, lp2, lg2),
{
    reveal(scan_emission);
    let b = c.base_s.len() as int;
    let be = c.base_e.len() as int;
    let m = s1.len() as int;
    let me = e1.len() as int;
    assert(s2.take(b) =~= c.base_s) by {
        assert forall|i: int| 0 <= i < b implies s2[i] == c.base_s[i] by {
            assert(s2.take(m)[i] == s2[i]);
            assert(s1.take(b)[i] == s1[i]);
        }
    }
    assert(e2.take(be) =~= c.base_e) by {
        assert forall|i: int| 0 <= i < be implies e2[i] == c.base_e[i] by {
            assert(e2.take(me)[i] == e2[i]);
            assert(e1.take(be)[i] == e1[i]);
        }
    }
    let sufa = s1.skip(b);
    let sufb = s2.skip(m);
    assert(s2.skip(b) =~= sufa + sufb) by {
        assert forall|i: int| 0 <= i < s2.len() - b implies s2.skip(b)[i] == (sufa + sufb)[i] by {
            if i < m - b {
                assert(s2.take(m)[b + i] == s2[b + i]);
                assert((sufa + sufb)[i] == s1[b + i]);
            }
        }
    }
    if m == b {
        assert(sufa.len() == 0);
        assert(s2.skip(b) =~= sufb);
    } else {
        if s2.len() == m {
            assert(s2 =~= s1);
            assert(sufb =~= Seq::<AppSnapshot>::empty());
            assert(s2.skip(b) =~= sufa);
        } else {
            assert(sufa.last() == s1.last());
            lemma_trace_concat(sufa, sufb, c.ep, c.eg);
        }
    }
    if s2.len() == b {
        assert(m == b && s2.len() == m);
    }
}

/// What a well-formed emission guarantees outward: the base is preserved
/// and the appended snapshots form a well-formed trace.
proof fn lemma_emission_unpack(
    s: Seq<AppSnapshot>,
    e: Seq<LogEvent>,
    c: EmissionCtx,
    lp: AppPhase,
    lg: Option<ProgressModel>,
)
    requires
        scan_emission(s, e, c, lp, lg),
    ensures
        s.len() >= c.base_s.len(),
        s.take(c.base_s.len() as int) == c.base_s,
        e.len() >= c.base_e.len(),
        e.take(c.base_e.len() as int) == c.base_e,
        trace_ok(s.skip(c.base_s.len() as int), c.ep, c.eg),
{
    reveal(scan_emission);
}

/// Derives the current snapshot and appends it to the emission; the step
/// from the latest snapshot must follow the grammar and keep progress
/// monotonic within its stage.
fn record_snapshot(
    state: &AppState,
    out: &mut ScanEmit,
    Ghost(c): Ghost<EmissionCtx>,
    Ghost(prev): Ghost<(AppPhase, Option<ProgressModel>)>,
)
    requires
        scan_emission(old(out).snapshots@, old(out).events@, c, prev.0, prev.1),
        state_counts_ok(*state),
        state_prog_bound(*state),
        phase_step_ok(prev.0, state.phase),
        prog_pair_ok(prev.1, opt_progress_model(state.progress)),
    ensures
        final(out).snapshots@.len() == old(out).snapshots@.len() + 1,
        final(out).events@ == old(out).events@,
        scan_emission(
            final(out).snapshots@,
            final(out).events@,
            c,
            state.phase,
            opt_progress_model(state.progress),
        ),
{
    let snap = state.snapshot();
    out.snapshots.push(snap);
    proof {
        reveal(scan_emission);
        lemma_snapshot_bridge(*state, out.snapshots@.last());
        let b = c.base_s.len() as int;
        assert(out.snapshots@.take(b) =~= old(out).snapshots@.take(b));
        let suf0 = old(out).snapshots@.skip(b);
        if suf0.len() > 0 {
            assert(suf0.last() == old(out).snapshots@.last());
        }
        assert(out.snapshots@.skip(b) =~= suf0.push(out.snapshots@.last()));
        lemma_trace_snoc(suf0, out.snapshots@.last(), c.ep, c.eg);
    }
}

/// As `record_snapshot`, additionally handing back that the appended
/// snapshot models the state exactly (used where a caller pins the
/// snapshot's content).
fn record_snapshot_full(
    state: &AppState,
    out: &mut ScanEmit,
    Ghost(c): Ghost<EmissionCtx>,
    Ghost(prev): Ghost<(AppPhase, Option<ProgressModel>)>,
)
    requires
        scan_emission(old(out).snapshots@, old(out).events@, c, prev.0, prev.1),
        state_counts_ok(*state),
        state_prog_bound(*state),
        phase_step_ok(prev.0, state.phase),
        prog_pair_ok(prev.1, opt_progress_model(state.progress)),
    ensures
        final(out).snapshots@.len() == old(out).snapshots@.len() + 1,
        final(out).events@ == old(out).events@,
        snapshot_model(final(out).snapshots@.last()) == state_model(*state),
        scan_emission(
            final(out).snapshots@,
            final(out).events@,
            c,
            state.phase,
            opt_progress_model(state.progress),
        ),
{
    let snap = state.snapshot();
    out.snapshots.push(snap);
    proof {
        reveal(scan_emission);
        lemma_snapshot_bridge(*state, out.snapshots@.last());
        let b = c.base_s.len() as int;
        assert(out.snapshots@.take(b) =~= old(out).snapshots@.take(b));
        let suf0 = old(out).snapshots@.skip(b);
        if suf0.len() > 0 {
            assert(suf0.last() == old(out).snapshots@.last());
        }
        assert(out.snapshots@.skip(b) =~= suf0.push(out.snapshots@.last()));
        lemma_trace_snoc(suf0, out.snapshots@.last(), c.ep, c.eg);
    }
}

/// Appends one event, stamped with the current time, leaving the snapshot
/// trace as it is.
fn record_event(
    out: &mut ScanEmit,
    level: &str,
    kind: LogKind,
    message: &str,
    payload: LogPayload,
    Ghost(c): Ghost<EmissionCtx>,
    Ghost(cur): Ghost<(AppPhase, Option<ProgressModel>)>,
)
    requires
        scan_emission(old(out).snapshots@, old(out).events@, c, cur.0, cur.1),
    ensures
        final(out).snapshots@ == old(out).snapshots@,
        final(out).events@.len() == old(out).events@.len() + 1,
        final(out).events@.last().level@ == level@,
        final(out).events@.last().kind == kind,
        final(out).events@.last().message@ == message@,
        scan_emission(final(out).snapshots@, final(out).events@, c, cur.0, cur.1),
{
    let event = LogEvent {
        timestamp_ms: now_millis(),
        level: level.to_owned(),
        kind,
        message: message.to_owned(),
        payload,
    };
    out.events.push(event);
    proof {
        reveal(scan_emission);
        assert(out.events@.take(c.base_e.len() as int) =~= old(out).events@.take(
            c.base_e.len() as int,
        ));
    }
}

/// Rewrites each module's recorded code count from the mapping: a module
/// with an entry takes that entry's length, a module without one is left
/// alone. Every other field is untouched.
#[verifier::loop_isolation(false)]
fn refresh_dtc_counts(modules: &mut Vec<ModuleInfo>, dtcs: &DtcMap)
    ensures
        final(modules)@.len() == old(modules)@.len(),
        forall|i: int| 0 <= i < old(modules)@.len() ==> {
            let pre = old(modules)@[i];
            let post = (#[trigger] final(modules)@[i]);
            post.id@ == pre.id@ && post.name@ == pre.name@ && post.bus@ == pre.bus@
                && post.category@ == pre.category@ && post.tx_id == pre.tx_id && post.rx_id
                == pre.rx_id && post.status == pre.status && post.dtc_count as nat == (
            match dtc_map_get(dtcs@, pre.id@) {
                Some(l) => l.len(),
                None => pre.dtc_count as nat,
            })
        },
{
    let mut i: usize = 0;
    while i < modules.len()
        invariant
            i <= modules@.len(),
            modules@.len() == old(modules)@.len(),
            forall|j: int| i <= j < modules@.len() ==> modules@[j] == old(modules)@[j],
            forall|j: int| 0 <= j < i ==> {
                let pre = old(modules)@[j];
                let post = (#[trigger] modules@[j]);
                post.id@ == pre.id@ && post.name@ == pre.name@ && post.bus@ == pre.bus@
                    && post.category@ == pre.category@ && post.tx_id == pre.tx_id && post.rx_id
                    == pre.rx_id && post.status == pre.status && post.dtc_count as nat == (
                match dtc_map_get(dtcs@, pre.id@) {
                    Some(l) => l.len(),
                    None => pre.dtc_count as nat,
                })
            },
        decreases modules@.len() - i,
    {
        let found = dtcs.get(&modules[i].id);
        match found {
            Some(list) => {
                let n = list.len();
                proof {
                    assert(dtc_map_get(dtcs@, modules@[i as int].id@) == Some(dtcs_model(list@)));
                    assert(dtcs_model(list@).len() == list@.len());
                }
                let mut entry = modules.remove(i);
                entry.dtc_count = n;
                modules.insert(i, entry);
            },
            None => {},
        }
        i = i + 1;
    }
}

/// Progress percent bounds for a count `k` of `n` work items at the given
/// scale: the contribution lies between zero and the scale and grows with
/// `k`.
proof fn lemma_pct(k: int, n: int, scale: int)
    requires
        1 <= k <= n,
        0 < scale,
    ensures
        0 <= k * scale / n <= scale,
        (k - 1) * scale / n <= k * scale / n,
{
    lemma_mul_inequality(k, n, scale);
    lemma_mul_is_commutative(n, scale);
    lemma_mul_is_commutative(k, scale);
    lemma_mul_is_commutative(k - 1, scale);
    lemma_div_is_ordered(k * scale, n * scale, n);
    lemma_div_multiples_vanish(scale, n);
    lemma_mul_inequality(k - 1, k, scale);
    lemma_div_is_ordered((k - 1) * scale, k * scale, n);
    assert(k * scale >= 0) by (nonlinear_arith)
        requires
            k >= 1,
            scale > 0,
    ;
    lemma_div_pos_is_pos(k * scale, n);
}

/// A recorded module carries a scripted module's identity: its id, name,
/// bus, category and id pair, with a responding status.
pub open spec fn sim_module_fields(m: ModuleInfo, sm: crate::simulation::SimulationModule) -> bool {
    m.id@ == sm.id@ && m.name@ == sm.name@ && m.bus@ == sm.bus@ && m.category@ == sm.category@
        && m.tx_id == sm.tx_id && m.rx_id == sm.rx_id && m.status == ModuleStatus::Responding
}

/// What a finished scripted scan leaves in the state: the script's VIN,
/// its modules field for field, each module's code list recorded under its
/// id, and a sorted topology that covers and groups exactly the modules.
pub open spec fn sim_scan_outcome(st: AppState, session: SimulationSession) -> bool {
    st.modules@.len() == session.modules@.len() && (forall|i: int|
        0 <= i < session.modules@.len() ==> sim_module_fields(
            #[trigger] st.modules@[i],
            session.modules@[i],
        )) && (forall|i: int|
        0 <= i < session.modules@.len() ==> sim_dtcs_recorded(st.dtcs@, session.modules@, i))
        && st.dtcs@.len() <= session.modules@.len() && opt_str_model(st.vin) == Some(session.vin@)
        && crate::topology::buses_sorted(st.topology.buses@) && crate::topology::buses_cover(
        st.topology.buses@,
        st.modules@,
    ) && crate::topology::buses_grouped(st.topology.buses@, st.modules@)
}

/// The stored session summary mirrors the state it was taken from: the
/// given session id, the state's VIN, its module count and its total code
/// count (the timestamp is the clock's).
pub open spec fn summary_reflects(st: AppState, sid: Seq<char>) -> bool {
    match st.last_session {
        Some(su) => su.session_id@ == sid && opt_str_model(su.vin) == opt_str_model(st.vin)
            && su.module_count == st.modules@.len() && su.dtc_count as nat == (if dtc_total(
            st.dtcs@,
        ) <= usize::MAX as nat {
            dtc_total(st.dtcs@)
        } else {
            usize::MAX as nat
        }),
        None => false,
    }
}

/// The code map holds, for the scripted module at `i`, the code list of
/// some scripted module with the same id (its own when ids are unique).
pub open spec fn sim_dtcs_recorded(
    dtcs: Seq<(Seq<char>, Seq<DtcModel>)>,
    sms: Seq<crate::simulation::SimulationModule>,
    i: int,
) -> bool {
    exists|j: int| #![trigger sms[j]]
        0 <= j < sms.len() && sms[j].id@ == sms[i].id@ && dtc_map_get(dtcs, sms[i].id@) == Some(
            dtcs_model(sms[j].dtcs@),
        )
}

/// Builds a progress tick.
fn make_progress(stage: &str, percent: u8, message: String) -> (r: ProgressInfo)
    ensures
        r.stage@ == stage@,
        r.percent == percent,
        r.message@ == message@,
{
    ProgressInfo { stage: stage.to_owned(), percent, message: message }
}

/// The whole scan session: records the session identity, resets the state
/// into the connecting phase, and drives either the scripted or the real
/// scan to its end. On success the state rests in the ready phase with a
/// session summary; every failure leaves it in the error phase with the
/// error recorded. The emitted snapshot trace follows the phase grammar,
/// keeps progress monotonic within a stage, and keeps every module's code
/// count consistent with the code map.
pub fn run_scan<T: Transport>(
    state: &mut AppState,
    mode: TransportMode,
    session_id: String,
    logs_path: Option<String>,
    sim: Option<SimulationSession>,
    sim_path: &String,
    transport: Option<T>,
    extra_candidates: &Vec<ModuleCandidate>,
    out: &mut ScanEmit,
) -> (r: Result<Option<T>, String>)
    requires
        old(state).dtcs.wf(),
        old(state).phase == AppPhase::Disconnected || old(state).phase == AppPhase::Ready || old(
            state,
        ).phase == AppPhase::Error,
        old(state).progress is None,
        mode == TransportMode::J2534 ==> transport is Some,
    ensures
        final(out).snapshots@.len() > old(out).snapshots@.len(),
        final(out).snapshots@.take(old(out).snapshots@.len() as int) == old(out).snapshots@,
        final(out).events@.take(old(out).events@.len() as int) == old(out).events@,
        trace_ok(
            final(out).snapshots@.skip(old(out).snapshots@.len() as int),
            old(state).phase,
            opt_progress_model(old(state).progress),
        ),
        final(state).dtcs.wf(),
        state_counts_ok(*final(state)),
        opt_str_model(final(state).session_id) == Some(session_id@),
        opt_str_model(final(state).logs_path) == opt_str_model(logs_path),
        final(state).transport == mode,
        ({
            let first = final(out).snapshots@[old(out).snapshots@.len() as int];
            first.phase == AppPhase::Connecting && opt_progress_model(first.progress) == Some(
                ProgressModel {
                    stage: "connecting"@,
                    percent: 5,
                    message: "Starting session"@,
                },
            ) && opt_str_model(first.session_id) == Some(session_id@) && opt_str_model(
                first.logs_path,
            ) == opt_str_model(logs_path) && first.vin is None && first.modules@.len() == 0
                && first.dtcs@.len() == 0 && first.topology.buses@.len() == 0 && first.last_error
                is None && first.transport == mode && first.adapter_connected == (mode
                == TransportMode::Simulation)
        }),
        ({
            let ev = final(out).events@[old(out).events@.len() as int];
            ev.level@ == "info"@ && ev.kind == LogKind::System && ev.message@
                == "Session started"@
        }),
        r is Ok ==> final(state).phase == AppPhase::Ready && final(state).progress is None
            && final(state).last_error is None && final(state).adapter_connected,
        r is Ok ==> summary_reflects(*final(state), session_id@),
        r is Ok ==> crate::topology::buses_sorted(final(state).topology.buses@)
            && crate::topology::buses_cover(final(state).topology.buses@, final(state).modules@)
            && crate::topology::buses_grouped(
            final(state).topology.buses@,
            final(state).modules@,
        ),
        mode == TransportMode::Simulation && r is Ok ==> (match sim {
            Some(session) => sim_scan_outcome(*final(state), session),
            None => false,
        }),
        mode == TransportMode::Simulation ==> (r matches Err(e) ==> e@
            == "Simulation file not found: "@ + sim_path@
            + ". Provide a valid path or keep /samples in the repo."@
            && final(state).modules@.len() == 0 && final(state).dtcs@.len() == 0
            && final(state).topology.buses@.len() == 0 && final(state).vin is None),
        r matches Err(e) ==> final(state).phase == AppPhase::Error && final(state).progress
            is None && (match opt_error_model(final(state).last_error) {
            Some(em) => em.details == e@,
            None => false,
        }),
        (mode == TransportMode::J2534 && r is Err && (match opt_error_model(
            final(state).last_error,
        ) {
            Some(em) => em.summary == "Adapter connection failed"@,
            None => false,
        })) ==> !final(state).adapter_connected,
{
    let ghost c = EmissionCtx {
        base_s: out.snapshots@,
        base_e: out.events@,
        ep: state.phase,
        eg: opt_progress_model(state.progress),
    };
    proof {
        lemma_emission_init(out.snapshots@, out.events@, state.phase, opt_progress_model(
            state.progress,
        ));
    }
    let ghost prevp = state.phase;
    let ghost prevg = opt_progress_model(state.progress);
    state.phase = AppPhase::Connecting;
    let is_sim = match mode {
        TransportMode::Simulation => true,
        TransportMode::J2534 => false,
    };
    state.transport = mode;
    state.adapter_connected = is_sim;
    state.vin = None;
    state.modules = Vec::new();
    state.dtcs = DtcMap::new();
    state.topology = TopologyGraph { buses: Vec::new() };
    state.progress = Some(make_progress("connecting", 5, "Starting session".to_owned()));
    state.last_error = None;
    state.session_id = Some(session_id.clone());
    state.logs_path = logs_path;
    record_snapshot_full(state, out, Ghost(c), Ghost((prevp, prevg)));
    let ghost first_snap = out.snapshots@.last();
    proof {
        lemma_snapshot_bridge(*state, first_snap);
        assert(modules_model(first_snap.modules@).len() == modules_model(
            state.modules@,
        ).len());
        assert(crate::app_state::buses_model(first_snap.topology.buses@).len()
            == crate::app_state::buses_model(state.topology.buses@).len());
    }
    record_event(
        out,
        "info",
        LogKind::System,
        "Session started",
        LogPayload::SessionStarted {
            session_id,
            mode: if is_sim {
                "Simulation".to_owned()
            } else {
                "J2534".to_owned()
            },
        },
        Ghost(c),
        Ghost((state.phase, opt_progress_model(state.progress))),
    );
    let ghost mid_s = out.snapshots@;
    let ghost mid_e = out.events@;
    let ghost midp = state.phase;
    let ghost midg = opt_progress_model(state.progress);
    let result: Result<Option<T>, String> = if is_sim {
        match run_simulation(state, sim, sim_path, out) {
            Ok(()) => Ok(None),
            Err(e) => Err(e),
        }
    } else {
        let t = match transport {
            Some(t) => t,
            None => {
                proof {
                    assert(false);
                }
                vstd::pervasive::unreached()
            },
        };
        match run_real_scan(state, t, extra_candidates, out) {
            Ok(t2) => Ok(Some(t2)),
            Err(e) => Err(e),
        }
    };
    proof {
        lemma_emission_trans(
            mid_s,
            mid_e,
            out.snapshots@,
            out.events@,
            c,
            midp,
            midg,
            state.phase,
            opt_progress_model(state.progress),
        );
        lemma_emission_unpack(
            out.snapshots@,
            out.events@,
            EmissionCtx { base_s: mid_s, base_e: mid_e, ep: midp, eg: midg },
            state.phase,
            opt_progress_model(state.progress),
        );
        lemma_emission_unpack(
            out.snapshots@,
            out.events@,
            c,
            state.phase,
            opt_progress_model(state.progress),
        );
    }
    result
}

/// The scripted scan: takes the vehicle, modules and codes from the
/// session script, pacing through the identifying, discovering and
/// scanning phases, and finishes with a session summary. Fails exactly
/// when no script was resolved, leaving the error phase behind.
#[verifier::loop_isolation(false)]
pub fn run_simulation(
    state: &mut AppState,
    sim: Option<SimulationSession>,
    sim_path: &String,
    out: &mut ScanEmit,
) -> (r: Result<(), String>)
    requires
        old(state).dtcs.wf(),
        old(state).dtcs@.len() == 0,
        old(state).modules@.len() == 0,
        old(state).topology.buses@.len() == 0,
        old(state).phase == AppPhase::Connecting,
        state_counts_ok(*old(state)),
        match opt_progress_model(old(state).progress) {
            Some(g) => g.percent <= 15,
            None => true,
        },
    ensures
        scan_emission(
            final(out).snapshots@,
            final(out).events@,
            EmissionCtx {
                base_s: old(out).snapshots@,
                base_e: old(out).events@,
                ep: old(state).phase,
                eg: opt_progress_model(old(state).progress),
            },
            final(state).phase,
            opt_progress_model(final(state).progress),
        ),
        final(out).snapshots@.take(old(out).snapshots@.len() as int) == old(out).snapshots@,
        final(out).events@.take(old(out).events@.len() as int) == old(out).events@,
        trace_ok(
            final(out).snapshots@.skip(old(out).snapshots@.len() as int),
            old(state).phase,
            opt_progress_model(old(state).progress),
        ),
        final(state).dtcs.wf(),
        state_counts_ok(*final(state)),
        r is Err <==> sim is None,
        r is Ok ==> final(state).phase == AppPhase::Ready && final(state).progress is None
            && final(state).adapter_connected && final(state).last_error == old(state).last_error,
        r is Ok ==> (match sim {
            Some(session) => sim_scan_outcome(*final(state), session),
            None => false,
        }),
        r is Ok ==> summary_reflects(
            *final(state),
            match old(state).session_id {
                Some(x) => x@,
                None => Seq::<char>::empty(),
            },
        ),
        final(state).session_id == old(state).session_id,
        final(state).logs_path == old(state).logs_path,
        final(state).transport == old(state).transport,
        r is Err ==> final(state).phase == AppPhase::Error && final(state).progress is None,
        r is Err ==> final(state).vin == old(state).vin && final(state).modules == old(
            state,
        ).modules && final(state).dtcs == old(state).dtcs && final(state).topology == old(
            state,
        ).topology,
        r matches Err(e) ==> e@ == "Simulation file not found: "@ + sim_path@
            + ". Provide a valid path or keep /samples in the repo."@ && (match opt_error_model(
            final(state).last_error,
        ) {
            Some(em) => em.summary == "Scan failed"@ && em.details == e@,
            None => false,
        }),
{
    let ghost c = EmissionCtx {
        base_s: out.snapshots@,
        base_e: out.events@,
        ep: state.phase,
        eg: opt_progress_model(state.progress),
    };
    proof {
        lemma_emission_init(out.snapshots@, out.events@, state.phase, opt_progress_model(
            state.progress,
        ));
    }
    let session = match sim {
        Some(s) => s,
        None => {
            let mut msg = "Simulation file not found: ".to_owned();
            msg.append(sim_path.as_str());
            msg.append(". Provide a valid path or keep /samples in the repo.");
            let ghost prevp = state.phase;
            let ghost prevg = opt_progress_model(state.progress);
            state.phase = AppPhase::Error;
            state.last_error = Some(
                ErrorInfo { summary: "Scan failed".to_owned(), details: msg.clone() },
            );
            state.progress = None;
            record_snapshot(state, out, Ghost(c), Ghost((prevp, prevg)));
            record_event(
                out,
                "error",
                LogKind::System,
                "Scan failed",
                LogPayload::ErrorText { error: msg.clone() },
                Ghost(c),
                Ghost((state.phase, opt_progress_model(state.progress))),
            );
            proof {
                lemma_emission_unpack(
                    out.snapshots@,
                    out.events@,
                    c,
                    state.phase,
                    opt_progress_model(state.progress),
                );
            }
            return Err(msg);
        },
    };
    let ghost prevp = state.phase;
    let ghost prevg = opt_progress_model(state.progress);
    state.adapter_connected = true;
    state.phase = AppPhase::Identifying;
    state.progress = Some(make_progress("identifying", 15, "Reading VIN".to_owned()));
    record_snapshot(state, out, Ghost(c), Ghost((prevp, prevg)));
    record_event(
        out,
        "info",
        LogKind::Protocol,
        "VIN read (simulation)",
        LogPayload::VinText { vin: session.vin.clone() },
        Ghost(c),
        Ghost((state.phase, opt_progress_model(state.progress))),
    );
    match decode_vin(session.vin.as_str()) {
        Some(info) => {
            record_event(
                out,
                "info",
                LogKind::Protocol,
                "VIN decode (simulation)",
                LogPayload::VinDecoded { wmi: info.wmi, year: info.year },
                Ghost(c),
                Ghost((state.phase, opt_progress_model(state.progress))),
            );
        },
        None => {},
    }
    let ghost prevp = state.phase;
    let ghost prevg = opt_progress_model(state.progress);
    state.vin = Some(session.vin.clone());
    state.phase = AppPhase::Discovering;
    state.progress = Some(make_progress("discovering", 30, "Discovering modules".to_owned()));
    record_snapshot(state, out, Ghost(c), Ghost((prevp, prevg)));
    let total = session.modules.len();
    let n: usize = if total == 0 {
        1
    } else {
        total
    };
    let mut k: usize = 0;
    while k < total
        invariant
            total == session.modules@.len(),
            n == (if total == 0 {
                1int
            } else {
                total as int
            }),
            k <= total,
            scan_emission(
                out.snapshots@,
                out.events@,
                c,
                state.phase,
                opt_progress_model(state.progress),
            ),
            state.phase == AppPhase::Discovering,
            state.adapter_connected,
            state.dtcs.wf(),
            state.dtcs@.len() == 0,
            state_counts_ok(*state),
            state.modules@.len() == k,
            forall|i: int| 0 <= i < k ==> sim_module_fields(
                #[trigger] state.modules@[i],
                session.modules@[i],
            ),
            k > 0 ==> crate::topology::buses_sorted(state.topology.buses@)
                && crate::topology::buses_cover(state.topology.buses@, state.modules@)
                && crate::topology::buses_grouped(state.topology.buses@, state.modules@),
            k == 0 ==> state.topology == old(state).topology,
            opt_str_model(state.vin) == Some(session.vin@),
            state.session_id == old(state).session_id,
            state.logs_path == old(state).logs_path,
            state.transport == old(state).transport,
            state.last_error == old(state).last_error,
            state.last_session == old(state).last_session,
            match opt_progress_model(state.progress) {
                Some(g) => g.percent as int == 30 + (k as int) * 30 / (n as int),
                None => false,
            },
        decreases total - k,
    {
        let m = &session.modules[k];
        let ghost prevp = state.phase;
        let ghost prevg = opt_progress_model(state.progress);
        state.modules.push(
            ModuleInfo {
                id: m.id.clone(),
                name: m.name.clone(),
                bus: m.bus.clone(),
                category: m.category.clone(),
                tx_id: m.tx_id,
                rx_id: m.rx_id,
                status: ModuleStatus::Responding,
                dtc_count: 0,
            },
        );
        state.topology = build_topology(&state.modules);
        proof {
            lemma_pct(k + 1, n as int, 30);
        }
        let pct: u8 = (30 + (((k + 1) as u128) * 30 / (n as u128))) as u8;
        let mut pmsg = "Discovered ".to_owned();
        pmsg.append(m.name.as_str());
        state.progress = Some(make_progress("discovering", pct, pmsg));
        proof {
            assert(state_counts_ok(*state));
        }
        record_snapshot(state, out, Ghost(c), Ghost((prevp, prevg)));
        record_event(
            out,
            "info",
            LogKind::Protocol,
            "Module discovered",
            LogPayload::ModuleSeen { module: m.id.clone(), name: m.name.clone() },
            Ghost(c),
            Ghost((state.phase, opt_progress_model(state.progress))),
        );
        k = k + 1;
    }
    let ghost prevp = state.phase;
    let ghost prevg = opt_progress_model(state.progress);
    state.phase = AppPhase::ScanningDtc;
    state.progress = Some(make_progress("scanning", 70, "Reading DTCs".to_owned()));
    proof {
        lemma_pct(
            if k == 0 {
                1int
            } else {
                k as int
            },
            n as int,
            30,
        );
    }
    record_snapshot(state, out, Ghost(c), Ghost((prevp, prevg)));
    let mut k2: usize = 0;
    while k2 < total
        invariant
            total == session.modules@.len(),
            n == (if total == 0 {
                1int
            } else {
                total as int
            }),
            k2 <= total,
            scan_emission(
                out.snapshots@,
                out.events@,
                c,
                state.phase,
                opt_progress_model(state.progress),
            ),
            state.phase == AppPhase::ScanningDtc,
            state.adapter_connected,
            state.dtcs.wf(),
            state_counts_ok(*state),
            state.modules@.len() == total,
            forall|i: int| 0 <= i < total ==> sim_module_fields(
                #[trigger] state.modules@[i],
                session.modules@[i],
            ),
            forall|i: int| 0 <= i < k2 ==> sim_dtcs_recorded(
                state.dtcs@,
                session.modules@,
                i,
            ),
            state.dtcs@.len() <= k2,
            total > 0 ==> crate::topology::buses_sorted(state.topology.buses@)
                && crate::topology::buses_cover(state.topology.buses@, state.modules@)
                && crate::topology::buses_grouped(state.topology.buses@, state.modules@),
            total == 0 ==> state.topology == old(state).topology,
            opt_str_model(state.vin) == Some(session.vin@),
            state.session_id == old(state).session_id,
            state.logs_path == old(state).logs_path,
            state.transport == old(state).transport,
            state.last_error == old(state).last_error,
            state.last_session == old(state).last_session,
            match opt_progress_model(state.progress) {
                Some(g) => g.percent as int == 70 + (k2 as int) * 25 / (n as int),
                None => false,
            },
        decreases total - k2,
    {
        let m = &session.modules[k2];
        let ghost prevp = state.phase;
        let ghost prevg = opt_progress_model(state.progress);
        let codes = clone_dtcs(&m.dtcs);
        let ghost codes_view = codes@;
        let ghost pre_map = state.dtcs@;
        state.dtcs.insert(m.id.clone(), codes);
        let ghost pre_mods = state.modules@;
        refresh_dtc_counts(&mut state.modules, &state.dtcs);
        proof {
            lemma_pct(k2 + 1, n as int, 25);
            assert(state_counts_ok(*state));
            assert forall|i: int| 0 <= i < k2 + 1 implies sim_dtcs_recorded(
                state.dtcs@,
                session.modules@,
                i,
            ) by {
                if session.modules@[i].id@ == session.modules@[k2 as int].id@ {
                    assert(dtc_map_get(state.dtcs@, session.modules@[k2 as int].id@) == Some(
                        dtcs_model(codes_view),
                    ));
                    assert(dtcs_model(codes_view) == dtcs_model(
                        session.modules@[k2 as int].dtcs@,
                    ));
                    assert(session.modules@[k2 as int].id@ == session.modules@[k2 as int].id@);
                } else {
                    assert(dtc_map_get(state.dtcs@, session.modules@[i].id@) == dtc_map_get(
                        pre_map,
                        session.modules@[i].id@,
                    ));
                    assert(sim_dtcs_recorded(pre_map, session.modules@, i));
                }
            }
            assert forall|i: int| 0 <= i < total implies sim_module_fields(
                #[trigger] state.modules@[i],
                session.modules@[i],
            ) by {
                assert(sim_module_fields(pre_mods[i], session.modules@[i]));
            }
            if total > 0 {
                crate::topology::lemma_topology_fields_preserved(
                    state.topology.buses@,
                    pre_mods,
                    state.modules@,
                );
            }
        }
        let pct: u8 = (70 + (((k2 + 1) as u128) * 25 / (n as u128))) as u8;
        let mut pmsg = "Scanned ".to_owned();
        pmsg.append(m.name.as_str());
        state.progress = Some(make_progress("scanning", pct, pmsg));
        record_snapshot(state, out, Ghost(c), Ghost((prevp, prevg)));
        k2 = k2 + 1;
    }
    let ghost mid_s = out.snapshots@;
    let ghost mid_e = out.events@;
    let ghost midp = state.phase;
    let ghost midg = opt_progress_model(state.progress);
    finish_session(state, out);
    proof {
        lemma_emission_trans(
            mid_s,
            mid_e,
            out.snapshots@,
            out.events@,
            c,
            midp,
            midg,
            state.phase,
            opt_progress_model(state.progress),
        );
        lemma_emission_unpack(
            out.snapshots@,
            out.events@,
            c,
            state.phase,
            opt_progress_model(state.progress),
        );
    }
    Ok(())
}

/// Finishes a session: the state enters the ready phase with no progress,
/// and a summary of the session is recorded as the last session.
pub fn finish_session(state: &mut AppState, out: &mut ScanEmit)
    requires
        old(state).dtcs.wf(),
        old(state).phase == AppPhase::ScanningDtc,
        state_counts_ok(*old(state)),
    ensures
        scan_emission(
            final(out).snapshots@,
            final(out).events@,
            EmissionCtx {
                base_s: old(out).snapshots@,
                base_e: old(out).events@,
                ep: old(state).phase,
                eg: opt_progress_model(old(state).progress),
            },
            final(state).phase,
            opt_progress_model(final(state).progress),
        ),
        final(out).events@ == old(out).events@,
        final(state).dtcs.wf(),
        state_counts_ok(*final(state)),
        final(state).phase == AppPhase::Ready,
        final(state).progress is None,
        match final(state).last_session {
            Some(s) => s.session_id@ == (match old(state).session_id {
                Some(x) => x@,
                None => Seq::<char>::empty(),
            }) && opt_str_model(s.vin) == opt_str_model(old(state).vin) && s.module_count == old(
                state,
            ).modules@.len() && s.dtc_count as nat == (if dtc_total(old(state).dtcs@)
                <= usize::MAX as nat {
                dtc_total(old(state).dtcs@)
            } else {
                usize::MAX as nat
            }),
            None => false,
        },
        final(state).adapter_connected == old(state).adapter_connected,
        final(state).vin == old(state).vin,
        final(state).modules == old(state).modules,
        final(state).dtcs == old(state).dtcs,
        final(state).topology == old(state).topology,
        final(state).session_id == old(state).session_id,
        final(state).logs_path == old(state).logs_path,
        final(state).last_error == old(state).last_error,
        final(state).transport == old(state).transport,
{
    let ghost c = EmissionCtx {
        base_s: out.snapshots@,
        base_e: out.events@,
        ep: state.phase,
        eg: opt_progress_model(state.progress),
    };
    proof {
        lemma_emission_init(out.snapshots@, out.events@, state.phase, opt_progress_model(
            state.progress,
        ));
    }
    let ghost prevp = state.phase;
    let ghost prevg = opt_progress_model(state.progress);
    state.phase = AppPhase::Ready;
    state.progress = None;
    record_snapshot(state, out, Ghost(c), Ghost((prevp, prevg)));
    let session_id = match &state.session_id {
        Some(s) => s.clone(),
        None => String::new(),
    };
    let now = now_millis();
    let timestamp_ms: i64 = if now > i64::MAX as u64 {
        i64::MAX
    } else {
        now as i64
    };
    let vin = match &state.vin {
        Some(v) => Some(v.clone()),
        None => None,
    };
    let summary = SessionSummary {
        session_id,
        timestamp_ms,
        vin,
        module_count: state.modules.len(),
        dtc_count: state.dtcs.total_dtcs(),
    };
    let ghost prevp = state.phase;
    let ghost prevg = opt_progress_model(state.progress);
    state.last_session = Some(summary);
    record_snapshot(state, out, Ghost(c), Ghost((prevp, prevg)));
}

/// The real scan over a transport: opens the adapter, reads the VIN with
/// one fallback address, discovers the responding modules, reads every
/// module's codes (per-module failures are logged and skipped), and
/// finishes with a session summary, handing the transport back. A failure
/// to connect or to identify leaves the error phase behind with the error
/// recorded, and the transport is given up.
#[verifier::loop_isolation(false)]
pub fn run_real_scan<T: Transport>(
    state: &mut AppState,
    transport: T,
    extra_candidates: &Vec<ModuleCandidate>,
    out: &mut ScanEmit,
) -> (r: Result<T, String>)
    requires
        old(state).dtcs.wf(),
        old(state).dtcs@.len() == 0,
        old(state).phase == AppPhase::Connecting,
        state_counts_ok(*old(state)),
        match opt_progress_model(old(state).progress) {
            Some(g) => g.percent <= 18,
            None => true,
        },
    ensures
        scan_emission(
            final(out).snapshots@,
            final(out).events@,
            EmissionCtx {
                base_s: old(out).snapshots@,
                base_e: old(out).events@,
                ep: old(state).phase,
                eg: opt_progress_model(old(state).progress),
            },
            final(state).phase,
            opt_progress_model(final(state).progress),
        ),
        final(out).snapshots@.take(old(out).snapshots@.len() as int) == old(out).snapshots@,
        final(out).events@.take(old(out).events@.len() as int) == old(out).events@,
        trace_ok(
            final(out).snapshots@.skip(old(out).snapshots@.len() as int),
            old(state).phase,
            opt_progress_model(old(state).progress),
        ),
        final(state).dtcs.wf(),
        state_counts_ok(*final(state)),
        final(state).session_id == old(state).session_id,
        final(state).logs_path == old(state).logs_path,
        final(state).transport == old(state).transport,
        r is Ok ==> final(state).phase == AppPhase::Ready && final(state).progress is None
            && final(state).adapter_connected && final(state).last_error == old(
            state,
        ).last_error,
        r is Ok ==> crate::topology::buses_sorted(final(state).topology.buses@)
            && crate::topology::buses_cover(final(state).topology.buses@, final(state).modules@)
            && crate::topology::buses_grouped(
            final(state).topology.buses@,
            final(state).modules@,
        ),
        r is Ok ==> summary_reflects(
            *final(state),
            match old(state).session_id {
                Some(x) => x@,
                None => Seq::<char>::empty(),
            },
        ),
        r matches Err(e) ==> final(state).phase == AppPhase::Error && final(state).progress
            is None && (match opt_error_model(final(state).last_error) {
            Some(em) => em.details == e@ && (em.summary == "Adapter connection failed"@
                || em.summary == "VIN read failed"@) && (em.summary
                == "Adapter connection failed"@ ==> final(state).adapter_connected == old(
                state,
            ).adapter_connected),
            None => false,
        }),
{
    let ghost c = EmissionCtx {
        base_s: out.snapshots@,
        base_e: out.events@,
        ep: state.phase,
        eg: opt_progress_model(state.progress),
    };
    proof {
        lemma_emission_init(out.snapshots@, out.events@, state.phase, opt_progress_model(
            state.progress,
        ));
    }
    let mut uds = UdsClient::new(transport, 500, 1);
    match uds.open() {
        Ok(()) => {},
        Err(e) => {
            let ghost prevp = state.phase;
            let ghost prevg = opt_progress_model(state.progress);
            state.phase = AppPhase::Error;
            state.last_error = Some(
                ErrorInfo { summary: "Adapter connection failed".to_owned(), details: e.clone() },
            );
            state.progress = None;
            record_snapshot(state, out, Ghost(c), Ghost((prevp, prevg)));
            proof {
                lemma_emission_unpack(
                    out.snapshots@,
                    out.events@,
                    c,
                    state.phase,
                    opt_progress_model(state.progress),
                );
            }
            return Err(e);
        },
    }
    let ghost prevp = state.phase;
    let ghost prevg = opt_progress_model(state.progress);
    state.adapter_connected = true;
    state.phase = AppPhase::Identifying;
    state.progress = Some(make_progress("identifying", 18, "Reading VIN".to_owned()));
    record_snapshot(state, out, Ghost(c), Ghost((prevp, prevg)));
    let vin = match uds.read_vin(0x7E0, 0x7E8) {
        Ok(v) => v,
        Err(_) => {
            match uds.read_vin(0x7DF, 0x7E8) {
                Ok(v) => v,
                Err(e) => {
                    let ghost prevp = state.phase;
                    let ghost prevg = opt_progress_model(state.progress);
                    state.phase = AppPhase::Error;
                    state.last_error = Some(
                        ErrorInfo { summary: "VIN read failed".to_owned(), details: e.clone() },
                    );
                    state.progress = None;
                    record_snapshot(state, out, Ghost(c), Ghost((prevp, prevg)));
                    proof {
                        reveal_strlit("Adapter connection failed");
                        reveal_strlit("VIN read failed");
                        assert("Adapter connection failed"@ != "VIN read failed"@) by {
                            assert("Adapter connection failed"@.len() == 25);
                            assert("VIN read failed"@.len() == 15);
                        }
                        lemma_emission_unpack(
                            out.snapshots@,
                            out.events@,
                            c,
                            state.phase,
                            opt_progress_model(state.progress),
                        );
                    }
                    return Err(e);
                },
            }
        },
    };
    record_event(
        out,
        "info",
        LogKind::Protocol,
        "VIN read",
        LogPayload::VinText { vin: vin.clone() },
        Ghost(c),
        Ghost((state.phase, opt_progress_model(state.progress))),
    );
    match decode_vin(vin.as_str()) {
        Some(info) => {
            record_event(
                out,
                "info",
                LogKind::Protocol,
                "VIN decode",
                LogPayload::VinDecoded { wmi: info.wmi, year: info.year },
                Ghost(c),
                Ghost((state.phase, opt_progress_model(state.progress))),
            );
        },
        None => {},
    }
    let ghost prevp = state.phase;
    let ghost prevg = opt_progress_model(state.progress);
    state.vin = Some(vin);
    state.phase = AppPhase::Discovering;
    state.progress = Some(make_progress("discovering", 35, "Discovering modules".to_owned()));
    record_snapshot(state, out, Ghost(c), Ghost((prevp, prevg)));
    let modules = discover_modules(&mut uds, extra_candidates.as_slice());
    let ghost prevp = state.phase;
    let ghost prevg = opt_progress_model(state.progress);
    state.modules = clone_modules(&modules);
    state.topology = build_topology(&state.modules);
    let mut dmsg = "Discovered ".to_owned();
    let mut count_text = String::new();
    crate::text::push_dec_repr(&mut count_text, modules.len() as u64);
    dmsg.append(count_text.as_str());
    dmsg.append(" modules");
    state.progress = Some(make_progress("discovering", 55, dmsg));
    proof {
        assert(state_counts_ok(*state)) by {
            assert(modules_model(state.modules@).len() == modules_model(modules@).len());
            assert forall|i: int| 0 <= i < state.modules@.len() implies (
            #[trigger] state.modules@[i]).dtc_count == 0 && dtc_map_get(
                state.dtcs@,
                state.modules@[i].id@,
            ) is None by {
                assert(modules_model(state.modules@)[i] == modules_model(modules@)[i]);
                assert(state.modules@[i].dtc_count == modules@[i].dtc_count);
            }
        }
    }
    record_snapshot(state, out, Ghost(c), Ghost((prevp, prevg)));
    let ghost prevp = state.phase;
    let ghost prevg = opt_progress_model(state.progress);
    state.phase = AppPhase::ScanningDtc;
    state.progress = Some(make_progress("scanning", 65, "Reading DTCs".to_owned()));
    record_snapshot(state, out, Ghost(c), Ghost((prevp, prevg)));
    let total = modules.len();
    let n: usize = if total == 0 {
        1
    } else {
        total
    };
    let mut k: usize = 0;
    while k < total
        invariant
            total == modules@.len(),
            n == (if total == 0 {
                1int
            } else {
                total as int
            }),
            k <= total,
            scan_emission(
                out.snapshots@,
                out.events@,
                c,
                state.phase,
                opt_progress_model(state.progress),
            ),
            state.phase == AppPhase::ScanningDtc,
            state.adapter_connected,
            state.dtcs.wf(),
            state_counts_ok(*state),
            crate::topology::buses_sorted(state.topology.buses@),
            crate::topology::buses_cover(state.topology.buses@, state.modules@),
            crate::topology::buses_grouped(state.topology.buses@, state.modules@),
            state.session_id == old(state).session_id,
            state.logs_path == old(state).logs_path,
            state.transport == old(state).transport,
            state.last_error == old(state).last_error,
            state.last_session == old(state).last_session,
            match opt_progress_model(state.progress) {
                Some(g) => g.percent as int == 65 + (k as int) * 30 / (n as int),
                None => false,
            },
        decreases total - k,
    {
        let m = &modules[k];
        let ghost prevp = state.phase;
        let ghost prevg = opt_progress_model(state.progress);
        match uds.read_dtcs(m.tx_id, m.rx_id) {
            Ok(dtcs) => {
                state.dtcs.insert(m.id.clone(), dtcs);
                let ghost pre_mods = state.modules@;
                refresh_dtc_counts(&mut state.modules, &state.dtcs);
                proof {
                    assert(state_counts_ok(*state));
                    crate::topology::lemma_topology_fields_preserved(
                        state.topology.buses@,
                        pre_mods,
                        state.modules@,
                    );
                }
            },
            Err(e) => {
                record_event(
                    out,
                    "warn",
                    LogKind::Protocol,
                    "DTC read failed",
                    LogPayload::ModuleError { module: m.id.clone(), error: e },
                    Ghost(c),
                    Ghost((state.phase, opt_progress_model(state.progress))),
                );
            },
        }
        proof {
            lemma_pct(k + 1, n as int, 30);
        }
        let pct: u8 = (65 + (((k + 1) as u128) * 30 / (n as u128))) as u8;
        let mut pmsg = "Scanned ".to_owned();
        pmsg.append(m.name.as_str());
        state.progress = Some(make_progress("scanning", pct, pmsg));
        record_snapshot(state, out, Ghost(c), Ghost((prevp, prevg)));
        k = k + 1;
    }
    let ghost mid_s = out.snapshots@;
    let ghost mid_e = out.events@;
    let ghost midp = state.phase;
    let ghost midg = opt_progress_model(state.progress);
    finish_session(state, out);
    proof {
        lemma_emission_trans(
            mid_s,
            mid_e,
            out.snapshots@,
            out.events@,
            c,
            midp,
            midg,
            state.phase,
            opt_progress_model(state.progress),
        );
        lemma_emission_unpack(
            out.snapshots@,
            out.events@,
            c,
            state.phase,
            opt_progress_model(state.progress),
        );
    }
    Ok(uds.into_transport())
}

/// Clears stored codes in a scripted session: one module's list, or every
/// list when no module is named. The counts follow, so clearing everything
/// zeroes every count.
pub fn clear_dtcs_simulation(state: &mut AppState, module_id: Option<String>, out: &mut ScanEmit)
    requires
        old(state).dtcs.wf(),
        state_counts_ok(*old(state)),
        old(state).progress is None,
    ensures
        final(out).snapshots@.len() > old(out).snapshots@.len(),
        final(out).snapshots@.take(old(out).snapshots@.len() as int) == old(out).snapshots@,
        final(out).events@.take(old(out).events@.len() as int) == old(out).events@,
        trace_ok(
            final(out).snapshots@.skip(old(out).snapshots@.len() as int),
            old(state).phase,
            opt_progress_model(old(state).progress),
        ),
        final(state).dtcs.wf(),
        state_counts_ok(*final(state)),
        final(state).phase == old(state).phase,
        final(state).progress is None,
        module_id is None ==> (forall|i: int|
            0 <= i < final(state).dtcs@.len() ==> (#[trigger] final(state).dtcs@[i]).1
                == Seq::<DtcModel>::empty()) && (forall|i: int|
            0 <= i < final(state).modules@.len()
                ==> (#[trigger] final(state).modules@[i]).dtc_count == 0),
        module_id matches Some(id) ==> dtc_map_get(final(state).dtcs@, id@) == Some(
            Seq::<DtcModel>::empty(),
        ) && (forall|k: Seq<char>| k != id@ ==> #[trigger] dtc_map_get(final(state).dtcs@, k)
            == dtc_map_get(old(state).dtcs@, k)),
        module_id is None ==> final(state).dtcs@.len() == old(state).dtcs@.len() && (forall|i: int|
            0 <= i < old(state).dtcs@.len() ==> (#[trigger] final(state).dtcs@[i]).0 == old(
                state,
            ).dtcs@[i].0),
        final(out).events@.len() == old(out).events@.len() + 1,
        final(out).events@.last().message@ == "Cleared DTCs (simulation)"@,
        final(out).events@.last().kind == LogKind::Protocol,
        final(out).events@.last().level@ == "info"@,
{
    let ghost c = EmissionCtx {
        base_s: out.snapshots@,
        base_e: out.events@,
        ep: state.phase,
        eg: opt_progress_model(state.progress),
    };
    proof {
        lemma_emission_init(out.snapshots@, out.events@, state.phase, opt_progress_model(
            state.progress,
        ));
    }
    let ghost prevp = state.phase;
    let ghost prevg = opt_progress_model(state.progress);
    state.progress = Some(make_progress("clearing", 5, "Clearing DTCs".to_owned()));
    record_snapshot(state, out, Ghost(c), Ghost((prevp, prevg)));
    match &module_id {
        Some(id) => {
            state.dtcs.insert(id.clone(), Vec::new());
        },
        None => {
            state.dtcs.clear_all();
        },
    }
    proof {
        assert(dtcs_model(Seq::<DtcInfo>::empty()) =~= Seq::<DtcModel>::empty());
    }
    refresh_dtc_counts(&mut state.modules, &state.dtcs);
    let ghost prevp = state.phase;
    let ghost prevg = opt_progress_model(state.progress);
    state.progress = None;
    proof {
        assert(state_counts_ok(*state));
    }
    record_snapshot(state, out, Ghost(c), Ghost((prevp, prevg)));
    record_event(
        out,
        "info",
        LogKind::Protocol,
        "Cleared DTCs (simulation)",
        LogPayload::ClearOutcome { module: module_id, error: None },
        Ghost(c),
        Ghost((state.phase, opt_progress_model(state.progress))),
    );
    proof {
        lemma_emission_unpack(
            out.snapshots@,
            out.events@,
            c,
            state.phase,
            opt_progress_model(state.progress),
        );
    }
}

/// Clears stored codes over the adapter: asks every targeted module in
/// turn, records per-module success or failure, empties the map entries of
/// the modules that confirmed, and hands the transport back.
#[verifier::loop_isolation(false)]
pub fn clear_dtcs_via_transport<T: Transport>(
    state: &mut AppState,
    module_id: Option<String>,
    transport: T,
    out: &mut ScanEmit,
) -> (r: T)
    requires
        old(state).dtcs.wf(),
        state_counts_ok(*old(state)),
        old(state).progress is None,
    ensures
        final(out).snapshots@.len() > old(out).snapshots@.len(),
        final(out).snapshots@.take(old(out).snapshots@.len() as int) == old(out).snapshots@,
        final(out).events@.take(old(out).events@.len() as int) == old(out).events@,
        trace_ok(
            final(out).snapshots@.skip(old(out).snapshots@.len() as int),
            old(state).phase,
            opt_progress_model(old(state).progress),
        ),
        final(state).dtcs.wf(),
        state_counts_ok(*final(state)),
        final(state).phase == old(state).phase,
        final(state).progress is None,
        forall|k: Seq<char>| #[trigger] dtc_map_get(final(state).dtcs@, k) == Some(
            Seq::<DtcModel>::empty(),
        ) || dtc_map_get(final(state).dtcs@, k) == dtc_map_get(old(state).dtcs@, k),
        module_id matches Some(id) ==> (forall|k: Seq<char>| k != id@
            ==> #[trigger] dtc_map_get(final(state).dtcs@, k) == dtc_map_get(
            old(state).dtcs@,
            k,
        )),
{
    let ghost c = EmissionCtx {
        base_s: out.snapshots@,
        base_e: out.events@,
        ep: state.phase,
        eg: opt_progress_model(state.progress),
    };
    proof {
        lemma_emission_init(out.snapshots@, out.events@, state.phase, opt_progress_model(
            state.progress,
        ));
    }
    let ghost prevp = state.phase;
    let ghost prevg = opt_progress_model(state.progress);
    state.progress = Some(make_progress("clearing", 5, "Clearing DTCs".to_owned()));
    record_snapshot(state, out, Ghost(c), Ghost((prevp, prevg)));
    let mut targets: Vec<ModuleInfo> = Vec::new();
    let mut i: usize = 0;
    while i < state.modules.len()
        invariant
            i <= state.modules@.len(),
            forall|t: int| 0 <= t < targets@.len() ==> (match module_id {
                Some(id) => (#[trigger] targets@[t]).id@ == id@,
                None => true,
            }),
        decreases state.modules@.len() - i,
    {
        let keep = match &module_id {
            Some(id) => crate::text::str_eq(&state.modules[i].id, id),
            None => true,
        };
        if keep {
            targets.push(crate::app_state::clone_module(&state.modules[i]));
        }
        i = i + 1;
    }
    let mut uds = UdsClient::new(transport, 500, 1);
    let total = targets.len();
    let n: usize = if total == 0 {
        1
    } else {
        total
    };
    let mut k: usize = 0;
    while k < total
        invariant
            total == targets@.len(),
            n == (if total == 0 {
                1int
            } else {
                total as int
            }),
            k <= total,
            scan_emission(
                out.snapshots@,
                out.events@,
                c,
                state.phase,
                opt_progress_model(state.progress),
            ),
            state.phase == c.ep,
            state.dtcs.wf(),
            state_counts_ok(*state),
            forall|kk: Seq<char>| #[trigger] dtc_map_get(state.dtcs@, kk) == Some(
                Seq::<DtcModel>::empty(),
            ) || dtc_map_get(state.dtcs@, kk) == dtc_map_get(old(state).dtcs@, kk),
            module_id matches Some(id) ==> (forall|kk: Seq<char>| kk != id@
                ==> #[trigger] dtc_map_get(state.dtcs@, kk) == dtc_map_get(
                old(state).dtcs@,
                kk,
            )),
            forall|t: int| 0 <= t < targets@.len() ==> (match module_id {
                Some(id) => (#[trigger] targets@[t]).id@ == id@,
                None => true,
            }),
            match opt_progress_model(state.progress) {
                Some(g) => g.percent as int == (if k == 0 {
                    5int
                } else {
                    let raw = (k as int) * 100 / (n as int);
                    if raw < 5 {
                        5int
                    } else {
                        raw
                    }
                }),
                None => false,
            },
        decreases total - k,
    {
        let m = &targets[k];
        let ghost prevp = state.phase;
        let ghost prevg = opt_progress_model(state.progress);
        let cleared = match uds.clear_dtcs(m.tx_id, m.rx_id) {
            Ok(()) => {
                record_event(
                    out,
                    "info",
                    LogKind::Protocol,
                    "Clear DTCs",
                    LogPayload::ClearOutcome { module: Some(m.id.clone()), error: None },
                    Ghost(c),
                    Ghost((state.phase, opt_progress_model(state.progress))),
                );
                true
            },
            Err(e) => {
                record_event(
                    out,
                    "warn",
                    LogKind::Protocol,
                    "Clear DTCs",
                    LogPayload::ClearOutcome { module: Some(m.id.clone()), error: Some(e) },
                    Ghost(c),
                    Ghost((state.phase, opt_progress_model(state.progress))),
                );
                false
            },
        };
        if cleared {
            let ghost pre_map = state.dtcs@;
            state.dtcs.insert(m.id.clone(), Vec::new());
            proof {
                assert(dtcs_model(Seq::<DtcInfo>::empty()) =~= Seq::<DtcModel>::empty());
                assert forall|kk: Seq<char>| #[trigger] dtc_map_get(state.dtcs@, kk) == Some(
                    Seq::<DtcModel>::empty(),
                ) || dtc_map_get(state.dtcs@, kk) == dtc_map_get(old(state).dtcs@, kk) by {
                    if kk != m.id@ {
                        assert(dtc_map_get(state.dtcs@, kk) == dtc_map_get(pre_map, kk));
                    }
                }
            }
            refresh_dtc_counts(&mut state.modules, &state.dtcs);
            proof {
                assert(state_counts_ok(*state));
            }
        }
        proof {
            lemma_pct(k + 1, n as int, 100);
            if k > 0 {
                lemma_pct(k as int, n as int, 100);
            }
        }
        let raw: u8 = ((((k + 1) as u128) * 100 / (n as u128))) as u8;
        let pct: u8 = if raw < 5 {
            5
        } else {
            raw
        };
        let mut pmsg = "Cleared ".to_owned();
        pmsg.append(m.name.as_str());
        state.progress = Some(make_progress("clearing", pct, pmsg));
        record_snapshot(state, out, Ghost(c), Ghost((prevp, prevg)));
        k = k + 1;
    }
    let ghost prevp = state.phase;
    let ghost prevg = opt_progress_model(state.progress);
    proof {
        lemma_emission_unpack(out.snapshots@, out.events@, c, prevp, prevg);
    }
    state.progress = None;
    record_snapshot(state, out, Ghost(c), Ghost((prevp, prevg)));
    proof {
        lemma_emission_unpack(
            out.snapshots@,
            out.events@,
            c,
            state.phase,
            opt_progress_model(state.progress),
        );
    }
    uds.into_transport()
}

} // verus!
