use candiag::app_state::ModuleInfo;
use candiag::app_state::ModuleStatus;
use candiag::discovery::decode_vin;
use candiag::discovery::default_candidates;
use candiag::isotp::build_isotp_frames;
use candiag::isotp::FeedOutcome;
use candiag::isotp::IsoTpLink;
use candiag::logger::LogKind;
use candiag::logger::LogPayload;
use candiag::logger::LoggingTransport;
use candiag::isotp::Reassembler;
use candiag::text::format_can_id;
use candiag::topology::build_topology;
use candiag::transport::Frame;
use candiag::transport::SimTransport;
use candiag::transport::Transport;
use candiag::uds::decode_dtc;
use candiag::uds::parse_clear_response;
use candiag::uds::parse_dtc_response;
use candiag::uds::parse_vin_response;
use candiag::uds::UdsClient;

fn frame(id: u32, data: &[u8]) -> Frame {
    let mut padded = data.to_vec();
    while padded.len() < 8 {
        padded.push(0);
    }
    Frame { id, data: padded, timestamp_ms: 0, is_extended: false }
}

#[test]
fn single_frame_vin() {
    let mut t = SimTransport::new();
    t.push_frame(frame(0x7E8, &[0x10, 0x14, 0x62, 0xF1, 0x90, 0x31, 0x46, 0x54]));
    t.push_frame(frame(0x7E8, &[0x21, 0x46, 0x57, 0x31, 0x45, 0x54, 0x35, 0x44]));
    t.push_frame(frame(0x7E8, &[0x22, 0x46, 0x41, 0x30, 0x30, 0x30, 0x30, 0x31]));
    let mut uds = UdsClient::new(t, 200, 0);
    uds.open().unwrap();
    let vin = uds.read_vin(0x7E0, 0x7E8).unwrap();
    assert_eq!(vin, "1FTFW1ET5DFA00001");
    let info = decode_vin(&vin).unwrap();
    assert_eq!(info.wmi, "1FT");
    assert_eq!(info.year, "Unknown");
}

#[test]
fn dtc_response_decoding() {
    let response = vec![
        0x59, 0x02, 0xFF, 0x01, 0x43, 0x00, 0x00, 0x00, 0x00, 0xC1, 0x04, 0x35, 0x00, 0x00, 0x00,
    ];
    let dtcs = parse_dtc_response(&response).unwrap();
    assert_eq!(dtcs.len(), 2);
    assert_eq!(dtcs[0].code, "P014300");
    assert_eq!(dtcs[1].code, "U010435");
    assert_eq!(dtcs[0].status, "active");
    assert_eq!(dtcs[1].status, "active");
}

#[test]
fn dtc_decode_letters() {
    assert_eq!(decode_dtc([0x01, 0x43, 0x00]), "P014300");
    assert_eq!(decode_dtc([0xC1, 0x04, 0x35]), "U010435");
    assert_eq!(decode_dtc([0x40, 0x00, 0x01]), "C000001");
    assert_eq!(decode_dtc([0x80, 0x00, 0x00]), "B000000");
    assert_eq!(decode_dtc([0x00, 0x00, 0x00]), "P000000");
}

#[test]
fn dtc_response_rejected() {
    let err = parse_dtc_response(&vec![0x7F, 0x19, 0x31]).unwrap_err();
    assert_eq!(err, "Unexpected DTC response");
    let err2 = parse_dtc_response(&vec![0x59]).unwrap_err();
    assert_eq!(err2, "Unexpected DTC response");
}

#[test]
fn vin_response_parsing() {
    let mut resp = vec![0x62, 0xF1, 0x90];
    resp.extend_from_slice(b" 1FTABC  ");
    assert_eq!(parse_vin_response(&resp).unwrap(), "1FTABC");
    assert_eq!(parse_vin_response(&vec![0x7F, 0x22]).unwrap_err(), "Unexpected VIN response");
}

#[test]
fn isotp_roundtrip_multiframe() {
    let payload: Vec<u8> = (0..100u32).map(|i| (i * 7 % 251) as u8).collect();
    let frames = build_isotp_frames(0x7E8, false, &payload).unwrap();
    let mut reasm = Reassembler::new();
    let mut result = None;
    for f in &frames {
        match reasm.feed(&f.data) {
            FeedOutcome::Complete(p) => {
                result = Some(p);
            }
            _ => {}
        }
    }
    assert_eq!(result.unwrap(), payload);
}

#[test]
fn isotp_roundtrip_single_frame() {
    let payload = vec![0x3Eu8, 0x00];
    let frames = build_isotp_frames(0x7E0, false, &payload).unwrap();
    assert_eq!(frames.len(), 1);
    assert_eq!(frames[0].data[0], 0x02);
    let mut reasm = Reassembler::new();
    match reasm.feed(&frames[0].data) {
        FeedOutcome::Complete(p) => assert_eq!(p, payload),
        _ => panic!("single frame should complete"),
    }
}

#[test]
fn single_frame_zero_length_is_empty_payload() {
    let mut reasm = Reassembler::new();
    match reasm.feed(&vec![0x00u8, 0, 0, 0, 0, 0, 0, 0]) {
        FeedOutcome::Complete(p) => assert!(p.is_empty()),
        _ => panic!("zero-length single frame should complete"),
    }
}

#[test]
fn largest_payload_frame_count() {
    let payload = vec![0xAAu8; 4095];
    let frames = build_isotp_frames(0x7E0, false, &payload).unwrap();
    assert_eq!(frames.len(), 586);
    let too_big = vec![0u8; 4096];
    assert_eq!(
        build_isotp_frames(0x7E0, false, &too_big).unwrap_err(),
        "ISO-TP payload too large"
    );
}

#[test]
fn isotp_receive_times_out() {
    let mut t = SimTransport::new();
    t.open().unwrap();
    let link = IsoTpLink::new(0x7E0, 0x7E8, false);
    let err = link.recv_payload(&mut t, 50).unwrap_err();
    assert_eq!(err, "ISO-TP timeout waiting for response");
}

#[test]
fn isotp_ignores_other_ids() {
    let mut t = SimTransport::new();
    t.push_frame(frame(0x123, &[0x02, 0x3E, 0x00]));
    t.push_frame(frame(0x7E8, &[0x02, 0x7E, 0x00]));
    t.open().unwrap();
    let link = IsoTpLink::new(0x7E0, 0x7E8, false);
    let payload = link.recv_payload(&mut t, 200).unwrap();
    assert_eq!(payload, vec![0x7E, 0x00]);
}

#[test]
fn can_id_formatting() {
    assert_eq!(format_can_id(0x7E0), "0x7E0");
    assert_eq!(format_can_id(0x3A), "0x03A");
    assert_eq!(format_can_id(0x0), "0x000");
    assert_eq!(format_can_id(0x1ABC), "0x1ABC");
}

#[test]
fn vin_decode_table() {
    assert_eq!(decode_vin("1FTFW1ETXKFA00001").unwrap().year, "2019");
    assert_eq!(decode_vin("1FTFW1ETXLFA00001").unwrap().year, "2020");
    assert_eq!(decode_vin("1FTFW1ETXRFA00001").unwrap().year, "2024");
    assert!(decode_vin("1FT").is_none());
    assert!(decode_vin("").is_none());
    let info = decode_vin("1FTFW1ET5DFA00001").unwrap();
    assert_eq!(info.wmi, "1FT");
    assert_eq!(info.year, "Unknown");
}

#[test]
fn seed_candidates() {
    let seeds = default_candidates();
    assert_eq!(seeds.len(), 4);
    assert_eq!(seeds[0].name, "PCM");
    assert_eq!(seeds[0].tx_id, 0x7E0);
    assert_eq!(seeds[0].rx_id, 0x7E8);
    assert_eq!(seeds[3].name, "BCM");
    assert_eq!(seeds[3].bus, "MS-CAN");
}

fn module(id: &str, bus: &str, tx: u32) -> ModuleInfo {
    ModuleInfo {
        id: id.to_string(),
        name: format!("ECU {id}"),
        bus: bus.to_string(),
        category: "Unknown".to_string(),
        tx_id: tx,
        rx_id: tx + 8,
        status: ModuleStatus::Responding,
        dtc_count: 0,
    }
}

#[test]
fn topology_orders_buses_and_groups_modules() {
    let modules = vec![
        module("0x7E0", "HS-CAN", 0x7E0),
        module("0x727", "MS-CAN", 0x727),
        module("0x7E1", "HS-CAN", 0x7E1),
    ];
    let graph = build_topology(&modules);
    assert_eq!(graph.buses.len(), 2);
    assert_eq!(graph.buses[0].name, "HS-CAN");
    assert_eq!(graph.buses[0].modules, vec!["0x7E0".to_string(), "0x7E1".to_string()]);
    assert_eq!(graph.buses[1].name, "MS-CAN");
    assert_eq!(graph.buses[1].modules, vec!["0x727".to_string()]);
}

#[test]
fn topology_of_empty_input_is_empty() {
    let graph = build_topology(&Vec::new());
    assert!(graph.buses.is_empty());
}

#[test]
fn logging_transport_records_frames() {
    let mut inner = SimTransport::new();
    inner.push_frame(frame(0x7E8, &[0x02, 0x7E, 0x00]));
    let mut t = LoggingTransport::new(inner);
    t.open().unwrap();
    t.send(&frame(0x7E0, &[0x02, 0x3E, 0x00])).unwrap();
    let got = t.recv(10).unwrap();
    assert!(got.is_some());
    assert_eq!(t.events.len(), 2);
    assert_eq!(t.events[0].message, "TX CAN frame");
    assert_eq!(t.events[1].message, "RX CAN frame");
    assert_eq!(t.events[0].level, "debug");
    assert_eq!(t.events[0].kind, LogKind::Transport);
    match &t.events[0].payload {
        LogPayload::FrameSeen { id, extended, .. } => {
            assert_eq!(id.as_str(), "0x7E0");
            assert!(!*extended);
        }
        _ => panic!("expected a frame payload"),
    }
    match &t.events[1].payload {
        LogPayload::FrameSeen { id, .. } => assert_eq!(id.as_str(), "0x7E8"),
        _ => panic!("expected a frame payload"),
    }
}

#[test]
fn logging_transport_skips_failed_sends() {
    // the inner transport is not open, so the send is refused
    let inner = SimTransport::new();
    let mut t = LoggingTransport::new(inner);
    assert!(t.send(&frame(0x7E0, &[0x02, 0x3E, 0x00])).is_err());
    assert!(t.events.is_empty());
}

#[test]
fn clear_response_validation() {
    assert!(parse_clear_response(&vec![0x54]).is_ok());
    assert!(parse_clear_response(&vec![0x54, 0xFF, 0xFF, 0xFF]).is_ok());
    assert_eq!(parse_clear_response(&vec![]).unwrap_err(), "Clear DTCs failed");
    assert_eq!(parse_clear_response(&vec![0x7F, 0x14, 0x31]).unwrap_err(), "Clear DTCs failed");
}
