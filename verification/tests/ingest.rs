use wifi_motion::ingest::{
    accept_line, accept_line_as, summary, unrecognized, IngestAction, ReadOutcome, ReadRecord,
    TelemetryIngester, BACKOFF_MS,
};
use wifi_motion::record::{CycleRecord, ObservedNetwork};
use wifi_motion::state::SharedState;

fn network(name: &str, signal: i8, channel: u8) -> ObservedNetwork {
    ObservedNetwork { name: name.to_string(), signal, channel }
}

#[test]
fn the_summary_of_a_record() {
    let still = CycleRecord { sequence: 41, motion_detected: false, access_points: vec![] };
    assert_eq!(summary(&still), "Counter: 41 | still | 0 APs");
    let moving = CycleRecord {
        sequence: u32::MAX,
        motion_detected: true,
        access_points: (0..10).map(|i| network("n", -1, i)).collect(),
    };
    assert_eq!(summary(&moving), "Counter: 4294967295 | MOTION! | 10 APs");
}

#[test]
fn the_entry_for_a_line_that_is_no_record() {
    assert_eq!(unrecognized("{\"error\":\"scan_failed\"}"), "Raw: {\"error\":\"scan_failed\"}");
    assert_eq!(unrecognized(""), "Raw: ");
}

#[test]
fn a_record_line_sets_the_latest_record_and_logs_its_summary() {
    let mut state = SharedState::new("port".to_string());
    accept_line(&mut state, "{\"counter\":3,\"motion\":1,\"aps\":[{\"ssid\":\"home\",\"rssi\":-40,\"ch\":6}]}");
    let expected =
        CycleRecord { sequence: 3, motion_detected: true, access_points: vec![network("home", -40, 6)] };
    assert_eq!(state.latest_record(), Some(&expected));
    assert_eq!(state.log(), &vec!["Counter: 3 | MOTION! | 1 APs".to_string()]);
}

#[test]
fn any_other_line_is_logged_raw_and_leaves_the_latest_record() {
    let mut state = SharedState::new("port".to_string());
    accept_line(&mut state, "{\"counter\":3,\"motion\":0,\"aps\":[]}");
    accept_line(&mut state, "{\"error\":\"scan_failed\"}");
    accept_line(&mut state, "{\"counter\": 4,\"motion\":0,\"aps\":[]}");
    let expected = CycleRecord { sequence: 3, motion_detected: false, access_points: vec![] };
    assert_eq!(state.latest_record(), Some(&expected));
    assert_eq!(
        state.log(),
        &vec![
            "Counter: 3 | still | 0 APs".to_string(),
            "Raw: {\"error\":\"scan_failed\"}".to_string(),
            "Raw: {\"counter\": 4,\"motion\":0,\"aps\":[]}".to_string(),
        ]
    );
}

#[test]
fn bytes_are_taken_in_and_the_reading_goes_on() {
    let mut ingester = TelemetryIngester::new();
    let mut state = SharedState::new("port".to_string());
    let banner = ReadOutcome::Bytes(b"{\"status\":\"WiFi Motion Sensor Started\"}\n{\"counter\":0,".to_vec());
    assert_eq!(ingester.on_read(&mut state, &banner), IngestAction::ReadOn);
    assert_eq!(state.latest_record(), None);
    assert_eq!(state.log(), &vec!["Raw: {\"status\":\"WiFi Motion Sensor Started\"}".to_string()]);

    let rest = ReadOutcome::Bytes(b"\"motion\":0,\"aps\":[]}\r\n".to_vec());
    assert_eq!(ingester.on_read(&mut state, &rest), IngestAction::ReadOn);
    let expected = CycleRecord { sequence: 0, motion_detected: false, access_points: vec![] };
    assert_eq!(state.latest_record(), Some(&expected));
    assert_eq!(state.log().len(), 2);
    assert_eq!(state.log()[1], "Counter: 0 | still | 0 APs");
}

#[test]
fn a_read_that_brought_nothing_is_followed_by_a_pause() {
    let mut ingester = TelemetryIngester::new();
    let mut state = SharedState::new("port".to_string());
    ingester.ingest(&mut state, b"half a li");
    assert_eq!(ingester.on_read(&mut state, &ReadOutcome::Bytes(Vec::new())), IngestAction::BackOff);
    assert_eq!(ingester.on_read(&mut state, &ReadOutcome::TimedOut), IngestAction::BackOff);
    assert!(state.log().is_empty());
    ingester.ingest(&mut state, b"ne\n");
    assert_eq!(state.log(), &vec!["Raw: half a line".to_string()]);
    assert_eq!(BACKOFF_MS, 10);
}

#[test]
fn a_failed_transport_stops_the_reading_and_keeps_the_state() {
    let mut ingester = TelemetryIngester::new();
    let mut state = SharedState::new("port".to_string());
    ingester.ingest(&mut state, b"{\"counter\":9,\"motion\":1,\"aps\":[]}\npart");
    assert_eq!(ingester.on_read(&mut state, &ReadOutcome::Failed), IngestAction::Stop);
    let expected = CycleRecord { sequence: 9, motion_detected: true, access_points: vec![] };
    assert_eq!(state.latest_record(), Some(&expected));
    assert_eq!(state.log(), &vec!["Counter: 9 | MOTION! | 0 APs".to_string()]);
}

#[test]
fn the_log_keeps_the_last_hundred_lines_taken_in() {
    let mut ingester = TelemetryIngester::new();
    let mut state = SharedState::new("port".to_string());
    let mut text = String::new();
    for i in 1..=105 {
        text.push_str(&format!("{{\"counter\":{},\"motion\":0,\"aps\":[]}}\n", i));
    }
    ingester.ingest_text(&mut state, &text);
    assert_eq!(state.log().len(), 100);
    assert_eq!(state.log()[0], "Counter: 6 | still | 0 APs");
    assert_eq!(state.log()[99], "Counter: 105 | still | 0 APs");
    assert_eq!(state.latest_record().map(|r| r.sequence), Some(105));
}

fn reading(counter: u32, motion: u8, networks: Vec<ObservedNetwork>) -> Option<ReadRecord> {
    Some(ReadRecord { counter, motion, networks })
}

fn json_reading(line: &str) -> Option<ReadRecord> {
    let value: serde_json::Value = serde_json::from_str(line).ok()?;
    let networks = value["aps"]
        .as_array()?
        .iter()
        .map(|ap| {
            network(
                ap["ssid"].as_str().unwrap(),
                ap["rssi"].as_i64().unwrap() as i8,
                ap["ch"].as_u64().unwrap() as u8,
            )
        })
        .collect();
    reading(value["counter"].as_u64()? as u32, value["motion"].as_u64()? as u8, networks)
}

#[test]
fn a_line_spelled_otherwise_counts_through_its_reading() {
    let mut state = SharedState::new("port".to_string());
    let line = "{ \"motion\": 1, \"counter\": 8, \"extra\": null, \"aps\": [ {\"ch\":6, \"ssid\":\"ho\\nme\", \"rssi\":-40} ] }";
    accept_line_as(&mut state, line, json_reading(line));
    let expected =
        CycleRecord { sequence: 8, motion_detected: true, access_points: vec![network("ho\nme", -40, 6)] };
    assert_eq!(state.latest_record(), Some(&expected));
    assert_eq!(state.log(), &vec!["Counter: 8 | MOTION! | 1 APs".to_string()]);

    let mut strict = SharedState::new("port".to_string());
    accept_line(&mut strict, line);
    assert_eq!(strict.latest_record(), None);
    assert_eq!(strict.log(), &vec![format!("Raw: {}", line)]);
}

#[test]
fn the_text_of_a_record_decides_whatever_the_reading_is() {
    let mut state = SharedState::new("port".to_string());
    let line = "{\"counter\":3,\"motion\":0,\"aps\":[]}";
    accept_line_as(&mut state, line, reading(99, 1, vec![network("x", 1, 1)]));
    let expected = CycleRecord { sequence: 3, motion_detected: false, access_points: vec![] };
    assert_eq!(state.latest_record(), Some(&expected));
    accept_line_as(&mut state, line, None);
    assert_eq!(state.log().len(), 2);
    assert_eq!(state.log()[1], "Counter: 3 | still | 0 APs");
}

#[test]
fn a_reading_with_another_motion_number_or_too_many_networks_is_no_record() {
    let mut state = SharedState::new("port".to_string());
    accept_line_as(&mut state, "{\"counter\":1,\"motion\":2,\"aps\":[]}", reading(1, 2, vec![]));
    let eleven: Vec<ObservedNetwork> = (0..11).map(|i| network("n", -1, i)).collect();
    accept_line_as(&mut state, "eleven", reading(1, 0, eleven));
    accept_line_as(&mut state, "nothing", None);
    assert_eq!(state.latest_record(), None);
    assert_eq!(
        state.log(),
        &vec![
            "Raw: {\"counter\":1,\"motion\":2,\"aps\":[]}".to_string(),
            "Raw: eleven".to_string(),
            "Raw: nothing".to_string(),
        ]
    );
    let ten: Vec<ObservedNetwork> = (0..10).map(|i| network("n", -1, i)).collect();
    accept_line_as(&mut state, "ten", reading(7, 1, ten));
    assert_eq!(state.latest_record().map(|r| (r.sequence, r.motion_detected)), Some((7, true)));
    assert_eq!(state.log()[3], "Counter: 7 | MOTION! | 10 APs");
}

#[test]
fn the_lines_of_a_chunk_can_be_taken_one_by_one() {
    let mut ingester = TelemetryIngester::new();
    assert_eq!(ingester.feed(b"one\ntw"), vec!["one".to_string()]);
    assert_eq!(ingester.feed(b"o\n\nthree\n"), vec!["two".to_string(), "three".to_string()]);
}
