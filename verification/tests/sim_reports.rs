use largitdata_wifi_pool_ui::sim::{
    current_phone_for, parse_current_report, summarize_switch_all, switch_succeeded, CurrentSim,
    SwitchStatus,
};

const SWITCH_ALL_OUTPUT: &str = "Switching all devices to 5\n\
[OK] R38M605CSEH | 切換成功 app_order=5 (LB5) 目前: LB5\n\
[FAIL] RF8M31P4MQL | 點擊了 LB5 但目前是 LB4\n\
[SKIP] 03157df34dc0c916 | offline\n\
[ERROR] 05157df509b2de07 | timeout\n\
[OK] 1015fa68c0cf3303 | 切換成功\n\
done\n";

#[test]
fn switch_all_summary_counts() {
    let s = summarize_switch_all(SWITCH_ALL_OUTPUT);
    assert_eq!(s.results.len(), 5);
    assert_eq!(s.success, 2);
    assert_eq!(s.failed, 2);
    assert!(!s.ok);
    assert!(matches!(s.results[0].status, SwitchStatus::Switched));
    assert!(matches!(s.results[1].status, SwitchStatus::Failed));
    assert!(matches!(s.results[2].status, SwitchStatus::Skipped));
    assert!(matches!(s.results[3].status, SwitchStatus::Errored));
    assert_eq!(s.results[0].serial.as_deref(), Some("R38M605CSEH"));
    assert_eq!(s.results[4].serial.as_deref(), Some("1015fa68c0cf3303"));
    assert_eq!(s.results[1].serial, None);
    assert_eq!(s.results[1].message, "[FAIL] RF8M31P4MQL | 點擊了 LB5 但目前是 LB4");
    let skipped = s.results.iter().filter(|r| matches!(r.status, SwitchStatus::Skipped)).count();
    assert_eq!(s.success + s.failed + skipped, s.results.len());
}

#[test]
fn switch_all_ok_needs_a_success_and_no_failure() {
    let s = summarize_switch_all("[OK] A | done\n[SKIP] B | offline\n");
    assert!(s.ok);
    assert_eq!((s.success, s.failed), (1, 0));
    let s = summarize_switch_all("[SKIP] B | offline\n");
    assert!(!s.ok);
    let s = summarize_switch_all("");
    assert!(!s.ok);
    assert!(s.results.is_empty());
}

#[test]
fn switch_all_ok_line_without_serial() {
    let s = summarize_switch_all("[OK]no-space | x\n[OK] nobar\n");
    assert_eq!(s.success, 2);
    assert_eq!(s.results[0].serial, None);
    assert_eq!(s.results[1].serial, None);
}

#[test]
fn switch_success_is_any_ok_marker() {
    assert!(switch_succeeded("checking...\n[OK] R38 | 切換成功"));
    assert!(!switch_succeeded("[FAIL] R38 | wrong sim"));
    assert!(!switch_succeeded(""));
}

#[test]
fn current_report_lines_are_read() {
    let out = "R38M605CSEH | 目前: 0933246524 (共 15 個號碼)\nnoise line\n  RF8M31P4MQL  |   目前: SIM 3 (共 2 個號碼)\nX | 目前: nolabel\n";
    let cur = parse_current_report(out);
    assert_eq!(cur.len(), 2);
    assert_eq!(cur[0].device_id, "R38M605CSEH");
    assert_eq!(cur[0].label, "0933246524");
    assert_eq!(cur[1].device_id, "RF8M31P4MQL");
    assert_eq!(cur[1].label, "SIM 3");
}

#[test]
fn current_phone_prefers_card_number() {
    let c = CurrentSim { device_id: "D".to_string(), label: "LB5".to_string() };
    assert_eq!(current_phone_for(&c, Some("0900".to_string())), "0900");
    assert_eq!(current_phone_for(&c, None), "LB5");
}
