use candiag::app_state::SessionSummary;
use candiag::session::encode_session_summary;
use candiag::session::parse_session_summary;

fn summary(vin: Option<&str>) -> SessionSummary {
    SessionSummary {
        session_id: "0f8fad5b-d9cb-469f-a165-70867728950e".to_string(),
        timestamp_ms: 1700000000123,
        vin: vin.map(|v| v.to_string()),
        module_count: 5,
        dtc_count: 7,
    }
}

fn assert_same(a: &SessionSummary, b: &SessionSummary) {
    assert_eq!(a.session_id, b.session_id);
    assert_eq!(a.timestamp_ms, b.timestamp_ms);
    assert_eq!(a.vin, b.vin);
    assert_eq!(a.module_count, b.module_count);
    assert_eq!(a.dtc_count, b.dtc_count);
}

#[test]
fn summary_round_trips() {
    let s = summary(Some("1FTFW1ET5DFA00001"));
    let text = encode_session_summary(&s);
    let back = parse_session_summary(&text).unwrap();
    assert_same(&s, &back);
}

#[test]
fn summary_without_vin_round_trips() {
    let s = summary(None);
    let text = encode_session_summary(&s);
    assert!(text.contains("\"vin\": null"));
    let back = parse_session_summary(&text).unwrap();
    assert_same(&s, &back);
}

#[test]
fn summary_with_awkward_text_round_trips() {
    let mut s = summary(Some("A\"B\\C\tD"));
    s.session_id = "id with \"quotes\" and\nnewlines".to_string();
    s.timestamp_ms = -42;
    s.module_count = 0;
    s.dtc_count = 0;
    let text = encode_session_summary(&s);
    let back = parse_session_summary(&text).unwrap();
    assert_same(&s, &back);
}

#[test]
fn summary_encoding_is_readable_json() {
    let s = summary(Some("1FTFW1ET5DFA00001"));
    let text = encode_session_summary(&s);
    let expected = "{\n  \"sessionId\": \"0f8fad5b-d9cb-469f-a165-70867728950e\",\n  \"timestampMs\": 1700000000123,\n  \"vin\": \"1FTFW1ET5DFA00001\",\n  \"moduleCount\": 5,\n  \"dtcCount\": 7\n}";
    assert_eq!(text, expected);
}

#[test]
fn parser_rejects_mangled_text() {
    let s = summary(Some("1FT"));
    let text = encode_session_summary(&s);
    assert!(parse_session_summary(&text[..text.len() - 1]).is_none());
    assert!(parse_session_summary("{}").is_none());
    assert!(parse_session_summary("").is_none());
    let with_junk = format!("{text} ");
    assert!(parse_session_summary(&with_junk).is_none());
}
