use wifi_motion::codec::decode;
use wifi_motion::ingest::TelemetryIngester;
use wifi_motion::record::{CycleRecord, ObservedNetwork};
use wifi_motion::sensor::{next_directive, Directive, Sensor, LOOP_DELAY_MS, SCAN_INTERVAL_MS};
use wifi_motion::state::SharedState;

fn seen(name: &str, signal: i8, channel: u8) -> ObservedNetwork {
    ObservedNetwork { name: name.to_string(), signal, channel }
}

#[test]
fn a_scan_is_due_after_a_full_second() {
    assert_eq!(next_directive(0), Directive::Rest);
    assert_eq!(next_directive(999), Directive::Rest);
    assert_eq!(next_directive(1000), Directive::Scan);
    assert_eq!(next_directive(1001), Directive::Scan);
    assert_eq!(next_directive(u64::MAX), Directive::Scan);
    assert_eq!(SCAN_INTERVAL_MS, 1000);
    assert_eq!(LOOP_DELAY_MS, 50);
}

#[test]
fn after_a_fault_the_sensor_halts() {
    assert_eq!(wifi_motion::sensor::panic(), Directive::Halt);
}

#[test]
fn each_scan_makes_one_numbered_line() {
    let mut sensor = Sensor::new();
    assert_eq!(sensor.counter(), 0);
    let line = sensor.on_scan(Some(&[seen("home", -40, 6)]));
    assert_eq!(line, "{\"counter\":0,\"motion\":0,\"aps\":[{\"ssid\":\"home\",\"rssi\":-40,\"ch\":6}]}\n");
    assert_eq!(sensor.counter(), 1);
    let line = sensor.on_scan(Some(&[]));
    assert_eq!(line, "{\"counter\":1,\"motion\":0,\"aps\":[]}\n");
    assert_eq!(sensor.counter(), 2);
    assert_eq!(sensor.tracker().baseline_of("home"), Some(-40));
}

#[test]
fn a_failed_scan_makes_the_error_line_and_no_cycle() {
    let mut sensor = Sensor::new();
    sensor.on_scan(Some(&[seen("home", -40, 6)]));
    let line = sensor.on_scan(None);
    assert_eq!(line, "{\"error\":\"scan_failed\"}\n");
    assert_eq!(sensor.counter(), 1);
    assert_eq!(sensor.tracker().baseline_of("home"), Some(-40));
}

#[test]
fn motion_shows_from_the_seventh_cycle_on() {
    let mut sensor = Sensor::new();
    let mut flags = Vec::new();
    for cycle in 0..8 {
        let signal = if cycle % 2 == 0 { -40 } else { -90 };
        let line = sensor.on_scan(Some(&[seen("home", signal, 6)]));
        let record = decode(line.trim_end_matches('\n')).unwrap();
        assert_eq!(record.sequence, cycle);
        flags.push(record.motion_detected);
    }
    assert_eq!(flags, vec![false, false, false, false, false, false, true, true]);
}

#[test]
fn what_the_sensor_emits_the_ingester_takes_in() {
    let mut sensor = Sensor::new();
    let mut ingester = TelemetryIngester::new();
    let mut state = SharedState::new("loop".to_string());
    let scan = vec![seen("home", -40, 6), seen("Café", -71, 11)];
    let mut stream = Vec::new();
    stream.extend_from_slice(sensor.on_scan(Some(&scan)).as_bytes());
    stream.extend_from_slice(sensor.on_scan(None).as_bytes());
    stream.extend_from_slice(sensor.on_scan(Some(&scan[..1])).as_bytes());
    for chunk in stream.chunks(7) {
        ingester.ingest(&mut state, chunk);
    }
    let expected = CycleRecord { sequence: 1, motion_detected: false, access_points: vec![seen("home", -40, 6)] };
    assert_eq!(state.latest_record(), Some(&expected));
    assert_eq!(
        state.log(),
        &vec![
            "Counter: 0 | still | 2 APs".to_string(),
            "Raw: {\"error\":\"scan_failed\"}".to_string(),
            "Counter: 1 | still | 1 APs".to_string(),
        ]
    );
}

#[test]
fn a_name_with_a_newline_still_makes_one_line_that_comes_back() {
    let mut sensor = Sensor::new();
    let mut ingester = TelemetryIngester::new();
    let mut state = SharedState::new("loop".to_string());
    let scan = vec![seen("top\nbottom", -40, 6), seen("say \"hi\" \\ bye", -50, 1)];
    let line = sensor.on_scan(Some(&scan));
    assert_eq!(line.matches('\n').count(), 1);
    ingester.ingest(&mut state, line.as_bytes());
    let expected = CycleRecord { sequence: 0, motion_detected: false, access_points: scan };
    assert_eq!(state.latest_record(), Some(&expected));
    assert_eq!(state.log(), &vec!["Counter: 0 | still | 2 APs".to_string()]);
}
