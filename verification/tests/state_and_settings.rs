use largitdata_wifi_pool_ui::commands::decimal_string;
use largitdata_wifi_pool_ui::config::{parse_port, Config};
use largitdata_wifi_pool_ui::events::{sms_event, Event};
use largitdata_wifi_pool_ui::ports::{next_atx_port, next_port, plan_atx_port, AtxPortPlan};
use largitdata_wifi_pool_ui::records::PhoneStatus;
use largitdata_wifi_pool_ui::serial_map::SerialMap;
use largitdata_wifi_pool_ui::sms::NewSms;
use largitdata_wifi_pool_ui::web::{asset_content_type, asset_path};

#[test]
fn atx_ports_count_up_and_start_over() {
    let mut c: u16 = 17100;
    assert_eq!(next_atx_port(&mut c), 17100);
    assert_eq!(next_atx_port(&mut c), 17101);
    let mut c: u16 = 18000;
    assert_eq!(next_atx_port(&mut c), 18000);
    assert_eq!(next_atx_port(&mut c), 18001);
    assert_eq!(c, 17100);
    assert_eq!(next_atx_port(&mut c), 17100);
}

#[test]
fn scrcpy_ports_count_up_and_start_over() {
    let mut c: u16 = 27183;
    assert_eq!(next_port(&mut c), 27183);
    assert_eq!(c, 27184);
    let mut c: u16 = 30001;
    assert_eq!(next_port(&mut c), 30001);
    assert_eq!(c, 27183);
    let mut c: u16 = u16::MAX;
    assert_eq!(next_port(&mut c), u16::MAX);
    assert_eq!(c, 27183);
}

#[test]
fn atx_port_plan_reuses_known_forward() {
    let mut ports: SerialMap<u16> = SerialMap::new();
    let mut c: u16 = 17100;
    match plan_atx_port(&ports, "S1", &mut c) {
        AtxPortPlan::Forward(p, args) => {
            assert_eq!(p, 17100);
            assert_eq!(args, vec!["-s", "S1", "forward", "tcp:17100", "tcp:9008"]);
            ports.insert("S1".to_string(), p);
        },
        AtxPortPlan::Known(_) => panic!("nothing was forwarded yet"),
    }
    assert_eq!(c, 17101);
    assert!(matches!(plan_atx_port(&ports, "S1", &mut c), AtxPortPlan::Known(17100)));
    assert_eq!(c, 17101);
}

#[test]
fn serial_map_insert_get_remove() {
    let mut m: SerialMap<u32> = SerialMap::new();
    assert_eq!(m.get("a"), None);
    m.insert("a".to_string(), 1);
    m.insert("b".to_string(), 2);
    m.insert("a".to_string(), 3);
    assert_eq!(m.get("a"), Some(&3));
    assert_eq!(m.get("b"), Some(&2));
    assert!(m.contains("b"));
    assert_eq!(m.remove("a"), Some(3));
    assert_eq!(m.remove("a"), None);
    assert!(!m.contains("a"));
    assert_eq!(m.get("b"), Some(&2));
}

#[test]
fn port_setting_defaults() {
    assert_eq!(parse_port(Some("8080")), 8080);
    assert_eq!(parse_port(Some("+80")), 80);
    assert_eq!(parse_port(Some("65536")), 5678);
    assert_eq!(parse_port(Some("http")), 5678);
    assert_eq!(parse_port(Some("")), 5678);
    assert_eq!(parse_port(None), 5678);
}

#[test]
fn config_defaults() {
    let c = Config::from_values(None, None, None, None, None);
    assert_eq!(c.port, 5678);
    assert_eq!(c.adb_path, "adb");
    assert_eq!(c.python_path, "python3");
    assert_eq!(c.scripts_dir, ".");
    assert_eq!(c.device_phones_path, "device_phones.json");
    let c = Config::from_values(
        Some("9000".to_string()),
        Some("/usr/bin/adb".to_string()),
        None,
        Some("/srv".to_string()),
        None,
    );
    assert_eq!(c.port, 9000);
    assert_eq!(c.adb_path, "/usr/bin/adb");
    assert_eq!(c.scripts_dir, "/srv");
}

#[test]
fn phone_status_activity() {
    let s = PhoneStatus::from_row("0911".to_string(), "D".to_string(), 3, Some("0911".to_string()));
    assert!(s.is_active);
    let s = PhoneStatus::from_row("0911".to_string(), "D".to_string(), 3, Some("0922".to_string()));
    assert!(!s.is_active);
    let s = PhoneStatus::from_row("0911".to_string(), "D".to_string(), 3, None);
    assert!(!s.is_active);
    assert_eq!(s.app_order, 3);
}

#[test]
fn sms_event_payload() {
    let sms = NewSms {
        device_id: None,
        phone_number: Some("0911".to_string()),
        sender: Some("Bank".to_string()),
        body: Some("code".to_string()),
        received_at: None,
        raw_body: Some("raw".to_string()),
    };
    let Event::Sms(p) = sms_event(7, &sms);
    assert_eq!(p.id, 7);
    assert_eq!(p.device_id, "");
    assert_eq!(p.phone_number.as_deref(), Some("0911"));
    assert_eq!(p.body.as_deref(), Some("code"));
}

#[test]
fn frontend_assets() {
    assert_eq!(asset_path("/index.html"), "index.html");
    assert_eq!(asset_path("//js/app.js"), "js/app.js");
    assert_eq!(asset_path(""), "");
    assert_eq!(asset_content_type("index.html"), "text/html");
    assert_eq!(asset_content_type("js/app.js"), "text/javascript");
    assert_eq!(asset_content_type("README"), "application/octet-stream");
}

#[test]
fn decimal_written_then_read_back() {
    for n in [0u64, 7, 80, 5678, 65535] {
        assert_eq!(u64::from(parse_port(Some(&decimal_string(n)))), n);
    }
    assert_eq!(parse_port(Some(&decimal_string(65536))), 5678);
}

#[test]
fn ports_of_one_turn_are_all_different() {
    let mut counter: u16 = 27183;
    let mut seen = std::collections::HashSet::new();
    for _ in 0..2819 {
        assert!(seen.insert(next_port(&mut counter)));
    }
    assert_eq!(next_port(&mut counter), 27183);
    let mut counter: u16 = 17100;
    let mut seen = std::collections::HashSet::new();
    for _ in 0..902 {
        assert!(seen.insert(next_atx_port(&mut counter)));
    }
    assert_eq!(next_atx_port(&mut counter), 17100);
}
