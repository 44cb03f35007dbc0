use wifi_motion::record::ObservedNetwork;
use wifi_motion::tracker::BaselineTracker;

fn seen(name: &str, signal: i8, channel: u8) -> ObservedNetwork {
    ObservedNetwork { name: name.to_string(), signal, channel }
}

#[test]
fn new_tracker_has_no_slots() {
    let tracker = BaselineTracker::new();
    assert_eq!(tracker.slot_count(), 0);
    assert_eq!(tracker.slot(0), None);
    assert_eq!(tracker.baseline_of("home"), None);
}

#[test]
fn jump_of_ten_after_warm_up_reports_motion() {
    let mut tracker = BaselineTracker::new();
    let first = tracker.update(0, &[seen("home", -40, 6)]);
    assert!(!first.motion_detected);
    assert_eq!(tracker.baseline_of("home"), Some(-40));

    let record = tracker.update(6, &[seen("home", -30, 6)]);
    assert!(record.motion_detected);
    assert_eq!(record.sequence, 6);
    assert_eq!(tracker.baseline_of("home"), Some(-39));
}

#[test]
fn no_motion_in_the_first_six_cycles() {
    for cycle in 0..=5u32 {
        let mut tracker = BaselineTracker::new();
        tracker.update(0, &[seen("home", -90, 1), seen("cafe", 10, 2)]);
        let record = tracker.update(cycle, &[seen("home", -20, 1), seen("cafe", -128, 2)]);
        assert!(!record.motion_detected, "cycle {}", cycle);
        assert_eq!(record.sequence, cycle);
    }
    let mut tracker = BaselineTracker::new();
    tracker.update(0, &[seen("home", -90, 1)]);
    assert!(tracker.update(6, &[seen("home", -20, 1)]).motion_detected);
}

#[test]
fn the_baseline_moves_even_while_warming_up() {
    let mut tracker = BaselineTracker::new();
    tracker.update(0, &[seen("home", -40, 6)]);
    let record = tracker.update(3, &[seen("home", -30, 6)]);
    assert!(!record.motion_detected);
    assert_eq!(tracker.baseline_of("home"), Some(-39));
}

#[test]
fn new_name_takes_a_slot_with_the_signal_as_baseline() {
    let mut tracker = BaselineTracker::new();
    tracker.update(50, &[seen("home", -40, 6)]);
    let record = tracker.update(51, &[seen("home", -40, 6), seen("cafe", -77, 11)]);
    assert!(!record.motion_detected);
    assert_eq!(tracker.slot_count(), 2);
    assert_eq!(tracker.slot(0), Some(("home".to_string(), -40)));
    assert_eq!(tracker.slot(1), Some(("cafe".to_string(), -77)));
    assert_eq!(tracker.slot(2), None);
    assert_eq!(tracker.baseline_of("cafe"), Some(-77));
}

#[test]
fn first_sight_shows_no_motion_at_any_distance_from_the_sentinel() {
    let mut tracker = BaselineTracker::new();
    let record = tracker.update(1000, &[seen("home", 127, 6), seen("cafe", -128, 1)]);
    assert!(!record.motion_detected);
    assert_eq!(tracker.baseline_of("home"), Some(127));
    assert_eq!(tracker.baseline_of("cafe"), Some(-128));
}

#[test]
fn a_change_of_four_is_no_motion_and_five_is() {
    let mut tracker = BaselineTracker::new();
    tracker.update(0, &[seen("home", -40, 6), seen("cafe", -40, 6)]);
    assert!(!tracker.update(10, &[seen("home", -36, 6)]).motion_detected);
    assert!(tracker.update(10, &[seen("cafe", -35, 6)]).motion_detected);

    let mut tracker = BaselineTracker::new();
    tracker.update(0, &[seen("home", -40, 6), seen("cafe", -40, 6)]);
    assert!(!tracker.update(10, &[seen("home", -44, 6)]).motion_detected);
    assert!(tracker.update(10, &[seen("cafe", -45, 6)]).motion_detected);
}

#[test]
fn motion_of_any_one_network_marks_the_cycle() {
    let mut tracker = BaselineTracker::new();
    tracker.update(0, &[seen("a", -40, 1), seen("b", -50, 2), seen("c", -60, 3)]);
    let record = tracker.update(9, &[seen("a", -40, 1), seen("b", -70, 2), seen("c", -60, 3)]);
    assert!(record.motion_detected);
    let record = tracker.update(10, &[seen("a", -40, 1), seen("c", -60, 3)]);
    assert!(!record.motion_detected);
}

#[test]
fn the_widest_change_does_not_overflow() {
    let mut tracker = BaselineTracker::new();
    tracker.update(0, &[seen("home", -128, 6)]);
    let record = tracker.update(6, &[seen("home", 127, 6)]);
    assert!(record.motion_detected);
    assert_eq!(tracker.baseline_of("home"), Some(-102));

    let mut tracker = BaselineTracker::new();
    tracker.update(0, &[seen("home", 127, 6)]);
    let record = tracker.update(6, &[seen("home", -128, 6)]);
    assert!(record.motion_detected);
    assert_eq!(tracker.baseline_of("home"), Some(101));
}

#[test]
fn smoothing_rounds_toward_zero() {
    let mut tracker = BaselineTracker::new();
    tracker.update(0, &[seen("home", -40, 6)]);
    tracker.update(1, &[seen("home", -35, 6)]);
    assert_eq!(tracker.baseline_of("home"), Some(-39));

    let mut tracker = BaselineTracker::new();
    tracker.update(0, &[seen("home", 10, 6)]);
    tracker.update(1, &[seen("home", 19, 6)]);
    assert_eq!(tracker.baseline_of("home"), Some(10));

    let mut tracker = BaselineTracker::new();
    tracker.update(0, &[seen("home", 0, 6)]);
    tracker.update(1, &[seen("home", -9, 6)]);
    assert_eq!(tracker.baseline_of("home"), Some(0));
}

#[test]
fn the_same_name_twice_in_a_cycle_shares_one_slot() {
    let mut tracker = BaselineTracker::new();
    let record = tracker.update(20, &[seen("mesh", -40, 1), seen("mesh", -60, 6)]);
    assert_eq!(tracker.slot_count(), 1);
    assert!(record.motion_detected);
    assert_eq!(tracker.baseline_of("mesh"), Some(-42));
    assert_eq!(record.access_points.len(), 2);
}

#[test]
fn an_empty_name_is_tracked_like_any_other() {
    let mut tracker = BaselineTracker::new();
    tracker.update(0, &[seen("", -55, 3)]);
    assert_eq!(tracker.slot(0), Some((String::new(), -55)));
    assert!(tracker.update(7, &[seen("", -45, 3)]).motion_detected);
    assert_eq!(tracker.baseline_of(""), Some(-54));
}

#[test]
fn eleventh_name_gets_no_slot_but_is_reported() {
    let mut tracker = BaselineTracker::new();
    let names = ["n0", "n1", "n2", "n3", "n4", "n5", "n6", "n7", "n8", "n9"];
    let first: Vec<ObservedNetwork> = names.iter().map(|n| seen(n, -50, 1)).collect();
    tracker.update(0, &first);
    assert_eq!(tracker.slot_count(), 10);

    for cycle in 1..20u32 {
        let record = tracker.update(cycle, &[seen("late", -20 - cycle as i8, 13)]);
        assert_eq!(tracker.slot_count(), 10);
        assert_eq!(tracker.baseline_of("late"), None);
        assert!(!record.motion_detected);
        assert_eq!(record.access_points, vec![seen("late", -20 - cycle as i8, 13)]);
    }
    for (i, name) in names.iter().enumerate() {
        assert_eq!(tracker.slot(i), Some((name.to_string(), -50)));
    }
}

#[test]
fn only_the_first_ten_observations_are_taken_up() {
    let mut tracker = BaselineTracker::new();
    let scan: Vec<ObservedNetwork> =
        (0..12).map(|i| seen(&format!("net{}", i), -30 - i as i8, i as u8)).collect();
    let record = tracker.update(3, &scan);
    assert_eq!(record.access_points.len(), 10);
    assert_eq!(record.access_points[..], scan[..10]);
    assert_eq!(tracker.slot_count(), 10);
    assert_eq!(tracker.baseline_of("net9"), Some(-39));
    assert_eq!(tracker.baseline_of("net10"), None);
}

#[test]
fn an_empty_scan_changes_nothing() {
    let mut tracker = BaselineTracker::new();
    tracker.update(0, &[seen("home", -40, 6)]);
    let record = tracker.update(8, &[]);
    assert!(!record.motion_detected);
    assert_eq!(record.sequence, 8);
    assert!(record.access_points.is_empty());
    assert_eq!(tracker.slot(0), Some(("home".to_string(), -40)));
}

#[test]
fn a_name_of_thirty_two_bytes_is_kept_whole() {
    let name = "abcdefghijklmnopqrstuvwxyz012345";
    assert_eq!(name.len(), 32);
    let mut tracker = BaselineTracker::new();
    tracker.update(0, &[seen(name, -40, 6)]);
    assert_eq!(tracker.slot(0), Some((name.to_string(), -40)));
    assert_eq!(tracker.baseline_of(name), Some(-40));
    assert_eq!(tracker.baseline_of(""), None);
}

#[test]
fn a_longer_name_is_tracked_under_the_empty_name_and_reported_whole() {
    let name = "abcdefghijklmnopqrstuvwxyz0123456";
    assert_eq!(name.len(), 33);
    let mut tracker = BaselineTracker::new();
    let record = tracker.update(0, &[seen(name, -40, 6)]);
    assert_eq!(record.access_points[0].name, name);
    assert_eq!(tracker.slot(0), Some((String::new(), -40)));
    assert_eq!(tracker.baseline_of(""), Some(-40));
    assert_eq!(tracker.baseline_of(name), Some(-40));
    assert_eq!(tracker.baseline_of("abc"), None);
}

#[test]
fn the_size_of_a_name_is_counted_in_bytes() {
    let name = "ééééééééééééééééé";
    assert_eq!(name.chars().count(), 17);
    assert_eq!(name.len(), 34);
    let mut tracker = BaselineTracker::new();
    tracker.update(0, &[seen(name, -40, 6)]);
    assert_eq!(tracker.slot(0), Some((String::new(), -40)));

    let name = "éééééééééééééééé";
    assert_eq!(name.len(), 32);
    let mut tracker = BaselineTracker::new();
    tracker.update(0, &[seen(name, -40, 6)]);
    assert_eq!(tracker.slot(0), Some((name.to_string(), -40)));
}

#[test]
fn names_that_differ_get_slots_of_their_own() {
    let mut tracker = BaselineTracker::new();
    tracker.update(0, &[seen("home", -40, 6), seen("Home", -50, 6), seen("home ", -60, 6)]);
    assert_eq!(tracker.slot_count(), 3);
    assert_eq!(tracker.baseline_of("home"), Some(-40));
    assert_eq!(tracker.baseline_of("Home"), Some(-50));
    assert_eq!(tracker.baseline_of("home "), Some(-60));
}
