use largitdata_wifi_pool_ui::adb::{parse_device_list, DeviceInfo};
use largitdata_wifi_pool_ui::rounds::{
    begin_round, poll_step, remember_reverse, reverse_targets, PollStep, RoundStart, BACKOFF_MS, IDLE_MS,
    REVERSE_INTERVAL_MS,
};
use largitdata_wifi_pool_ui::screen::ScreenshotCache;
use largitdata_wifi_pool_ui::serial_map::SerialMap;

fn device(serial: &str) -> DeviceInfo {
    DeviceInfo { serial: serial.to_string(), model: None, product: None, status: "device".to_string() }
}

#[test]
fn round_waits() {
    assert_eq!(IDLE_MS, 1000);
    assert_eq!(BACKOFF_MS, 3000);
    assert_eq!(REVERSE_INTERVAL_MS, 30000);
}

#[test]
fn unwatched_round_idles() {
    assert!(matches!(poll_step(false, None), PollStep::Idle));
    assert!(matches!(poll_step(false, Some(vec![device("A")])), PollStep::Idle));
}

#[test]
fn failed_listing_backs_off() {
    assert!(matches!(poll_step(true, None), PollStep::Backoff));
}

#[test]
fn watched_round_captures_every_listed_device() {
    let listed = parse_device_list("List of devices attached\nA device\nB offline\nC device model:X\n");
    match poll_step(true, Some(listed)) {
        PollStep::Capture(ss) => assert_eq!(ss, vec!["A".to_string(), "C".to_string()]),
        _ => panic!("expected a capture"),
    }
    match poll_step(true, Some(vec![])) {
        PollStep::Capture(ss) => assert!(ss.is_empty()),
        _ => panic!("expected a capture"),
    }
}

#[test]
fn reverse_skips_devices_already_done() {
    let mut known: SerialMap<()> = SerialMap::new();
    let listed = vec![device("A"), device("B"), device("C")];
    assert_eq!(reverse_targets(&known, &listed), vec!["A", "B", "C"]);
    known.insert("B".to_string(), ());
    assert_eq!(reverse_targets(&known, &listed), vec!["A", "C"]);
    known.insert("A".to_string(), ());
    known.insert("C".to_string(), ());
    assert!(reverse_targets(&known, &listed).is_empty());
    assert_eq!(reverse_targets(&known, &vec![device("D"), device("A")]), vec!["D"]);
}

#[test]
fn round_lists_devices_only_after_a_viewer_asked() {
    let mut cache = ScreenshotCache::new();
    assert!(matches!(begin_round(&mut cache), RoundStart::Idle));
    cache.record("A".to_string(), vec![5], 0);
    assert!(matches!(begin_round(&mut cache), RoundStart::Idle));
    assert_eq!(cache.get("A", 1), Some(vec![5]));
    assert!(matches!(begin_round(&mut cache), RoundStart::ListDevices));
    assert!(matches!(begin_round(&mut cache), RoundStart::Idle));
    assert_eq!(cache.get("A", 2), Some(vec![5]));
}

#[test]
fn capture_round_updates_only_captured_devices() {
    let mut cache = ScreenshotCache::new();
    cache.record("A".to_string(), vec![1], 0);
    cache.record("B".to_string(), vec![2], 0);
    cache.record("Z".to_string(), vec![9], 0);
    let listed = vec![device("A"), device("B")];
    let targets = match poll_step(true, Some(listed)) {
        PollStep::Capture(ss) => ss,
        _ => panic!("expected a capture"),
    };
    for serial in targets {
        if serial == "A" {
            cache.record(serial, vec![10], 1_000);
        }
    }
    assert_eq!(cache.get("A", 1_000), Some(vec![10]));
    assert_eq!(cache.get("B", 1_000), Some(vec![2]));
    assert_eq!(cache.get("Z", 1_000), Some(vec![9]));
}

#[test]
fn reverse_is_sent_once_and_failures_are_retried() {
    let mut known: SerialMap<()> = SerialMap::new();
    let listed = vec![device("A"), device("B")];
    for serial in reverse_targets(&known, &listed) {
        let ok = serial == "A";
        remember_reverse(&mut known, serial, ok);
    }
    assert!(known.contains("A"));
    assert!(!known.contains("B"));
    assert_eq!(reverse_targets(&known, &listed), vec!["B"]);
    for serial in reverse_targets(&known, &listed) {
        remember_reverse(&mut known, serial, true);
    }
    assert!(reverse_targets(&known, &listed).is_empty());
}
