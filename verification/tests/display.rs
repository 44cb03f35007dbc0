use wifi_motion::display::{
    motion_status, shortened, shown_entries, signal_band, MotionStatus, SignalBand,
};
use wifi_motion::record::CycleRecord;

#[test]
fn the_bands_of_signal_strength() {
    for signal in i8::MIN..=i8::MAX {
        let expected = match signal {
            -50..=0 => SignalBand::Strong,
            -70..=-51 => SignalBand::Fair,
            _ => SignalBand::Weak,
        };
        assert_eq!(signal_band(signal), expected, "{}", signal);
    }
    assert_eq!(signal_band(0), SignalBand::Strong);
    assert_eq!(signal_band(1), SignalBand::Weak);
    assert_eq!(signal_band(-50), SignalBand::Strong);
    assert_eq!(signal_band(-51), SignalBand::Fair);
    assert_eq!(signal_band(-70), SignalBand::Fair);
    assert_eq!(signal_band(-71), SignalBand::Weak);
}

#[test]
fn the_status_follows_the_latest_record() {
    let still = CycleRecord { sequence: 1, motion_detected: false, access_points: vec![] };
    let moving = CycleRecord { sequence: 2, motion_detected: true, access_points: vec![] };
    assert_eq!(motion_status(None), MotionStatus::Waiting);
    assert_eq!(motion_status(Some(&still)), MotionStatus::Still);
    assert_eq!(motion_status(Some(&moving)), MotionStatus::Moving);
}

#[test]
fn a_name_of_up_to_twelve_bytes_is_shown_whole() {
    for name in ["", "a", "twelve bytes", "éééééé", "日本語の"] {
        assert!(name.len() <= 12);
        assert_eq!(shortened(name), name);
    }
}

#[test]
fn a_longer_name_keeps_nine_bytes_and_gets_dots() {
    assert_eq!(shortened("thirteen byte"), "thirteen ...");
    assert_eq!(shortened("abcdefghijklmnopqrstuvwxyz"), "abcdefghi...");
    for name in ["thirteen byte", "a much longer network name", "0123456789abc"] {
        assert_eq!(shortened(name), format!("{}...", &name[..9]));
    }
}

#[test]
fn a_longer_name_is_cut_between_characters() {
    assert_eq!(shortened("ééééééé"), "éééé...");
    assert_eq!(shortened("日本語のネット"), "日本語...");
    assert_eq!(shortened("abcdefgh日本語"), "abcdefgh...");
    assert_eq!(shortened("abcdefghiéééé"), "abcdefghi...");
}

#[test]
fn the_newest_eight_entries_newest_first() {
    let log: Vec<String> = (1..=20).map(|i| format!("entry {}", i)).collect();
    let expected: Vec<String> = (13..=20).rev().map(|i| format!("entry {}", i)).collect();
    assert_eq!(shown_entries(&log), expected);

    let short: Vec<String> = vec!["one".to_string(), "two".to_string(), "three".to_string()];
    assert_eq!(shown_entries(&short), vec!["three".to_string(), "two".to_string(), "one".to_string()]);
    assert_eq!(shown_entries(&Vec::new()), Vec::<String>::new());
}
