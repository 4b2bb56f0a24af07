use candiag::app_state::AppPhase;
use candiag::app_state::AppState;
use candiag::app_state::DtcInfo;
use candiag::app_state::DtcMap;
use candiag::app_state::ModuleInfo;
use candiag::app_state::ModuleStatus;
use candiag::app_state::TransportMode;
use candiag::logger::LogKind;
use candiag::scanner::clear_dtcs_simulation;
use candiag::scanner::run_scan;
use candiag::scanner::ScanEmit;
use candiag::simulation::SimulationModule;
use candiag::simulation::SimulationSession;
use candiag::simulation::VehicleInfo;
use candiag::transport::BusType;
use candiag::transport::Filter;
use candiag::transport::Frame;
use candiag::transport::TimingConfig;
use candiag::transport::Transport;

fn dtc(code: &str) -> DtcInfo {
    DtcInfo {
        code: code.to_string(),
        description: "DTC description unavailable".to_string(),
        status: "active".to_string(),
    }
}

fn module(id: &str, bus: &str, tx: u32, count: usize) -> ModuleInfo {
    ModuleInfo {
        id: id.to_string(),
        name: format!("ECU {id}"),
        bus: bus.to_string(),
        category: "Unknown".to_string(),
        tx_id: tx,
        rx_id: tx + 8,
        status: ModuleStatus::Responding,
        dtc_count: count,
    }
}

fn sample_session() -> SimulationSession {
    SimulationSession {
        vin: "1FTFW1ET5DFA00001".to_string(),
        vehicle: VehicleInfo {
            make: "Ford".to_string(),
            model: "F-250".to_string(),
            year: "2013".to_string(),
            trim: "Lariat".to_string(),
        },
        modules: vec![
            SimulationModule {
                id: "0x7E0".to_string(),
                name: "PCM".to_string(),
                bus: "HS-CAN".to_string(),
                category: "Powertrain".to_string(),
                tx_id: 0x7E0,
                rx_id: 0x7E8,
                dtcs: vec![dtc("P014300"), dtc("U010435")],
            },
            SimulationModule {
                id: "0x727".to_string(),
                name: "BCM".to_string(),
                bus: "MS-CAN".to_string(),
                category: "Body".to_string(),
                tx_id: 0x727,
                rx_id: 0x72F,
                dtcs: vec![dtc("B001122")],
            },
        ],
    }
}

struct NoTransport;

impl Transport for NoTransport {
    fn open(&mut self) -> Result<(), String> {
        Err("unused".to_string())
    }
    fn close(&mut self) {}
    fn send(&mut self, _frame: &Frame) -> Result<(), String> {
        Err("unused".to_string())
    }
    fn recv(&mut self, _timeout_ms: u64) -> Result<Option<Frame>, String> {
        Err("unused".to_string())
    }
    fn set_filters(&mut self, _filters: Vec<Filter>) -> Result<(), String> {
        Ok(())
    }
    fn set_baud(&mut self, _baud: u32) -> Result<(), String> {
        Ok(())
    }
    fn set_bus(&mut self, _bus: BusType) -> Result<(), String> {
        Ok(())
    }
    fn set_timing(&mut self, _timing: TimingConfig) -> Result<(), String> {
        Ok(())
    }
}

struct OfflineTransport;

impl Transport for OfflineTransport {
    fn open(&mut self) -> Result<(), String> {
        Err("Adapter offline".to_string())
    }
    fn close(&mut self) {}
    fn send(&mut self, _frame: &Frame) -> Result<(), String> {
        Err("Adapter offline".to_string())
    }
    fn recv(&mut self, _timeout_ms: u64) -> Result<Option<Frame>, String> {
        Err("Adapter offline".to_string())
    }
    fn set_filters(&mut self, _filters: Vec<Filter>) -> Result<(), String> {
        Ok(())
    }
    fn set_baud(&mut self, _baud: u32) -> Result<(), String> {
        Ok(())
    }
    fn set_bus(&mut self, _bus: BusType) -> Result<(), String> {
        Ok(())
    }
    fn set_timing(&mut self, _timing: TimingConfig) -> Result<(), String> {
        Ok(())
    }
}

/// A scripted far end: answers keep-alive probes and code reads for the ids
/// it was given, and stays silent for one chosen id.
struct EcuBench {
    responding: Vec<u32>,
    silent_for_dtcs: Vec<u32>,
    queue: Vec<Frame>,
}

impl EcuBench {
    fn new(responding: Vec<u32>, silent_for_dtcs: Vec<u32>) -> EcuBench {
        EcuBench { responding, silent_for_dtcs, queue: Vec::new() }
    }
}

impl Transport for EcuBench {
    fn open(&mut self) -> Result<(), String> {
        Ok(())
    }
    fn close(&mut self) {}
    fn send(&mut self, f: &Frame) -> Result<(), String> {
        if f.data.is_empty() || f.data[0] >> 4 != 0 {
            return Ok(());
        }
        let len = (f.data[0] & 0x0F) as usize;
        let payload = &f.data[1..1 + len];
        if !self.responding.contains(&f.id) {
            return Ok(());
        }
        let rx = f.id + 8;
        match payload {
            [0x3E, 0x00] => {
                self.queue.push(Frame {
                    id: rx,
                    data: vec![0x02, 0x7E, 0x00, 0, 0, 0, 0, 0],
                    timestamp_ms: 0,
                    is_extended: false,
                });
            }
            [0x22, 0xF1, 0x90] => {
                self.queue.push(Frame {
                    id: rx,
                    data: vec![0x07, 0x62, 0xF1, 0x90, 0x31, 0x46, 0x54, 0x00],
                    timestamp_ms: 0,
                    is_extended: false,
                });
            }
            [0x19, 0x02, 0xFF] => {
                if !self.silent_for_dtcs.contains(&f.id) {
                    self.queue.push(Frame {
                        id: rx,
                        data: vec![0x07, 0x59, 0x02, 0xFF, 0x01, 0x43, 0x00, 0x00],
                        timestamp_ms: 0,
                        is_extended: false,
                    });
                }
            }
            _ => {}
        }
        Ok(())
    }
    fn recv(&mut self, _timeout_ms: u64) -> Result<Option<Frame>, String> {
        if self.queue.is_empty() {
            Ok(None)
        } else {
            Ok(Some(self.queue.remove(0)))
        }
    }
    fn set_filters(&mut self, _filters: Vec<Filter>) -> Result<(), String> {
        Ok(())
    }
    fn set_baud(&mut self, _baud: u32) -> Result<(), String> {
        Ok(())
    }
    fn set_bus(&mut self, _bus: BusType) -> Result<(), String> {
        Ok(())
    }
    fn set_timing(&mut self, _timing: TimingConfig) -> Result<(), String> {
        Ok(())
    }
}

#[test]
fn simulation_scan_reaches_ready() {
    let mut state = AppState::default();
    let mut out = ScanEmit::new();
    let result = run_scan::<NoTransport>(
        &mut state,
        TransportMode::Simulation,
        "session-1".to_string(),
        Some("logs/session_session-1.jsonl".to_string()),
        Some(sample_session()),
        &"samples/f250_session.json".to_string(),
        None,
        &Vec::new(),
        &mut out,
    );
    assert!(result.is_ok());
    assert_eq!(state.phase, AppPhase::Ready);
    assert!(state.progress.is_none());
    assert!(state.last_error.is_none());
    assert_eq!(state.vin.as_deref(), Some("1FTFW1ET5DFA00001"));
    assert_eq!(state.modules.len(), 2);
    assert_eq!(state.modules[0].dtc_count, 2);
    assert_eq!(state.modules[1].dtc_count, 1);
    let summary = state.last_session.as_ref().unwrap();
    assert_eq!(summary.session_id, "session-1");
    assert_eq!(summary.module_count, 2);
    assert_eq!(summary.dtc_count, 3);
    assert_eq!(summary.vin.as_deref(), Some("1FTFW1ET5DFA00001"));
    assert_eq!(state.topology.buses.len(), 2);
    assert_eq!(state.topology.buses[0].name, "HS-CAN");
    assert_eq!(state.topology.buses[1].name, "MS-CAN");
    // every emitted snapshot keeps the module counts consistent with its map
    for snap in &out.snapshots {
        for m in &snap.modules {
            let held = snap.dtcs.get(&m.id).map(|d| d.len()).unwrap_or(0);
            assert_eq!(m.dtc_count, held);
        }
    }
    assert_eq!(out.snapshots.last().unwrap().phase, AppPhase::Ready);
}

#[test]
fn session_start_resets_the_state() {
    let mut state = AppState::default();
    let mut out = ScanEmit::new();
    run_scan::<NoTransport>(
        &mut state,
        TransportMode::Simulation,
        "session-7".to_string(),
        Some("logs/session_session-7.jsonl".to_string()),
        Some(sample_session()),
        &String::new(),
        None,
        &Vec::new(),
        &mut out,
    )
    .unwrap();
    let first = &out.snapshots[0];
    assert_eq!(first.phase, AppPhase::Connecting);
    let p = first.progress.as_ref().unwrap();
    assert_eq!(p.stage, "connecting");
    assert_eq!(p.percent, 5);
    assert_eq!(p.message, "Starting session");
    assert!(first.vin.is_none());
    assert!(first.modules.is_empty());
    assert!(first.last_error.is_none());
    assert_eq!(first.session_id.as_deref(), Some("session-7"));
    let ev = &out.events[0];
    assert_eq!(ev.message, "Session started");
    assert_eq!(ev.level, "info");
    assert_eq!(ev.kind, LogKind::System);
}

#[test]
fn simulation_scan_without_script_fails() {
    let mut state = AppState::default();
    let mut out = ScanEmit::new();
    let result = run_scan::<NoTransport>(
        &mut state,
        TransportMode::Simulation,
        "session-2".to_string(),
        None,
        None,
        &"missing.json".to_string(),
        None,
        &Vec::new(),
        &mut out,
    );
    assert!(result.is_err());
    assert_eq!(state.phase, AppPhase::Error);
    let err = state.last_error.as_ref().unwrap();
    assert_eq!(err.summary, "Scan failed");
    assert!(err.details.contains("missing.json"));
}

#[test]
fn adapter_open_failure_reports_connection_error() {
    let mut state = AppState::default();
    let mut out = ScanEmit::new();
    let result = run_scan(
        &mut state,
        TransportMode::J2534,
        "session-3".to_string(),
        None,
        None,
        &String::new(),
        Some(OfflineTransport),
        &Vec::new(),
        &mut out,
    );
    assert!(result.is_err());
    assert_eq!(state.phase, AppPhase::Error);
    let err = state.last_error.as_ref().unwrap();
    assert_eq!(err.summary, "Adapter connection failed");
    assert_eq!(err.details, "Adapter offline");
    assert!(state.progress.is_none());
    assert!(!state.adapter_connected);
}

#[test]
fn partial_dtc_failure_keeps_scan_alive() {
    let bench = EcuBench::new(vec![0x7E0, 0x7E1, 0x726], vec![0x7E1]);
    let mut state = AppState::default();
    let mut out = ScanEmit::new();
    let result = run_scan(
        &mut state,
        TransportMode::J2534,
        "session-4".to_string(),
        None,
        None,
        &String::new(),
        Some(bench),
        &Vec::new(),
        &mut out,
    );
    assert!(result.is_ok());
    assert_eq!(state.phase, AppPhase::Ready);
    assert!(state.last_error.is_none());
    assert_eq!(state.modules.len(), 3);
    assert!(state.dtcs.get(&"0x7E0".to_string()).is_some());
    assert!(state.dtcs.get(&"0x7E1".to_string()).is_none());
    assert!(state.dtcs.get(&"0x726".to_string()).is_some());
    let warned = out.events.iter().any(|e| e.message == "DTC read failed" && e.level == "warn");
    assert!(warned);
    assert_eq!(state.modules[0].dtc_count, 1);
    assert_eq!(state.modules[1].dtc_count, 0);
}

#[test]
fn discovery_never_rereports_seed_matches() {
    let bench = EcuBench::new(vec![0x7E0, 0x7E1, 0x700], vec![]);
    let mut state = AppState::default();
    let mut out = ScanEmit::new();
    run_scan(
        &mut state,
        TransportMode::J2534,
        "session-5".to_string(),
        None,
        None,
        &String::new(),
        Some(bench),
        &Vec::new(),
        &mut out,
    )
    .unwrap();
    let mut seen = Vec::new();
    for m in &state.modules {
        assert!(!seen.contains(&m.tx_id), "module id {} reported twice", m.id);
        seen.push(m.tx_id);
    }
    assert!(seen.contains(&0x7E0));
    assert!(seen.contains(&0x7E1));
    assert!(seen.contains(&0x700));
    let pcm = state.modules.iter().find(|m| m.tx_id == 0x7E0).unwrap();
    assert_eq!(pcm.name, "PCM");
    assert_eq!(pcm.bus, "HS-CAN");
    assert_eq!(pcm.category, "Powertrain");
    assert_eq!(pcm.rx_id, 0x7E8);
    let swept = state.modules.iter().find(|m| m.tx_id == 0x700).unwrap();
    assert_eq!(swept.name, "ECU 0x700");
    assert_eq!(swept.bus, "Unknown");
    assert_eq!(swept.rx_id, 0x708);
}

#[test]
fn clear_dtcs_simulation_empties_everything() {
    let mut state = AppState::default();
    state.phase = AppPhase::Ready;
    state.modules = vec![module("0x7E0", "HS-CAN", 0x7E0, 2), module("0x727", "MS-CAN", 0x727, 2)];
    let mut map = DtcMap::new();
    map.insert("0x7E0".to_string(), vec![dtc("P014300"), dtc("U010435")]);
    map.insert("0x727".to_string(), vec![dtc("B001122"), dtc("C000001")]);
    state.dtcs = map;
    let mut out = ScanEmit::new();
    clear_dtcs_simulation(&mut state, None, &mut out);
    for m in &state.modules {
        assert_eq!(m.dtc_count, 0);
        assert!(state.dtcs.get(&m.id).unwrap().is_empty());
    }
    let logged = out
        .events
        .iter()
        .any(|e| e.message == "Cleared DTCs (simulation)" && e.kind == LogKind::Protocol);
    assert!(logged);
}

#[test]
fn clear_dtcs_simulation_single_module() {
    let mut state = AppState::default();
    state.phase = AppPhase::Ready;
    state.modules = vec![module("0x7E0", "HS-CAN", 0x7E0, 1), module("0x727", "MS-CAN", 0x727, 1)];
    let mut map = DtcMap::new();
    map.insert("0x7E0".to_string(), vec![dtc("P014300")]);
    map.insert("0x727".to_string(), vec![dtc("B001122")]);
    state.dtcs = map;
    let mut out = ScanEmit::new();
    clear_dtcs_simulation(&mut state, Some("0x7E0".to_string()), &mut out);
    assert_eq!(state.modules[0].dtc_count, 0);
    assert_eq!(state.modules[1].dtc_count, 1);
    assert!(state.dtcs.get(&"0x7E0".to_string()).unwrap().is_empty());
    assert_eq!(state.dtcs.get(&"0x727".to_string()).unwrap().len(), 1);
}

#[test]
fn progress_is_monotonic_within_stage() {
    let mut state = AppState::default();
    let mut out = ScanEmit::new();
    run_scan::<NoTransport>(
        &mut state,
        TransportMode::Simulation,
        "session-6".to_string(),
        None,
        Some(sample_session()),
        &String::new(),
        None,
        &Vec::new(),
        &mut out,
    )
    .unwrap();
    let mut prev: Option<(String, u8)> = None;
    for snap in &out.snapshots {
        if let Some(p) = &snap.progress {
            if let Some((stage, pct)) = &prev {
                if stage == &p.stage {
                    assert!(pct <= &p.percent);
                }
            }
            prev = Some((p.stage.clone(), p.percent));
        } else {
            prev = None;
        }
    }
}
