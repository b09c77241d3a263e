use largitdata_wifi_pool_ui::phones::{locate_phone, plan_import, LocateError, SimCard, SimDevice, SimManager};

fn card(phone: &str, app_order: &str) -> SimCard {
    SimCard {
        no: "1".to_string(),
        sim_no: "\"A1\"".to_string(),
        phone_number: phone.to_string(),
        app_lable: format!("L-{phone}"),
        sim_number: "null".to_string(),
        app_order: app_order.to_string(),
    }
}

fn table() -> Vec<SimDevice> {
    vec![
        SimDevice { device_id: "DEV-A".to_string(), card: vec![card("0911", "1"), card("0922", "2")] },
        SimDevice { device_id: "DEV-B".to_string(), card: vec![card("0933", "7"), card("0922", "9")] },
        SimDevice { device_id: "DEV-C".to_string(), card: vec![card("0944", "\"x\""), card("0955", "-3")] },
        SimDevice { device_id: "DEV-D".to_string(), card: vec![card("0966", "4294967301")] },
    ]
}

#[test]
fn locate_phone_first_match_wins() {
    let t = locate_phone(&table(), "0922").ok().unwrap();
    assert_eq!(t.device_id, "DEV-A");
    assert_eq!(t.app_order, 2);
    let t = locate_phone(&table(), "0933").ok().unwrap();
    assert_eq!((t.device_id.as_str(), t.app_order), ("DEV-B", 7));
}

#[test]
fn locate_phone_unknown_number() {
    assert!(matches!(locate_phone(&table(), "0999"), Err(LocateError::NotFound)));
    assert!(matches!(locate_phone(&Vec::new(), "0911"), Err(LocateError::NotFound)));
}

#[test]
fn locate_phone_invalid_app_order() {
    assert!(matches!(locate_phone(&table(), "0944"), Err(LocateError::InvalidAppOrder)));
    assert!(matches!(locate_phone(&table(), "0955"), Err(LocateError::InvalidAppOrder)));
}

#[test]
fn locate_phone_app_order_is_cut_to_32_bits() {
    let t = locate_phone(&table(), "0966").ok().unwrap();
    assert_eq!(t.app_order, 5);
}

#[test]
fn import_plan_reads_table() {
    let json = r#"[
        {"device_id": "R38M605CSEH", "card": [
            {"no": 1, "sim_no": "S-01", "phone_number": "0933246524", "app_lable": "LB1", "sim_number": "8988", "app_order": 1},
            {"no": "x2", "sim_no": 2, "phone_number": null, "app_order": 4294967298}
        ]},
        {"device_id": "", "card": [{"app_order": 3}]},
        {"card": [{"app_order": 3}]},
        {"device_id": "RF8M31P4MQL"},
        {"device_id": "NOCARDS", "card": "none"}
    ]"#;
    let plan = plan_import(json).unwrap();
    assert_eq!(plan.len(), 3);
    assert_eq!(plan[0].device_id, "R38M605CSEH");
    assert_eq!(plan[0].cards.len(), 2);
    let c0 = &plan[0].cards[0];
    assert_eq!(c0.app_order, 1);
    assert_eq!(c0.no, "1");
    assert_eq!(c0.sim_no, "S-01");
    assert_eq!(c0.phone_number, "0933246524");
    assert_eq!(c0.app_lable, "LB1");
    assert_eq!(c0.sim_number, "8988");
    let c1 = &plan[0].cards[1];
    assert_eq!(c1.app_order, 2);
    assert_eq!(c1.no, "x2");
    assert_eq!(c1.sim_no, "2");
    assert_eq!(c1.phone_number, "");
    assert_eq!(c1.app_lable, "");
    assert_eq!(plan[1].device_id, "RF8M31P4MQL");
    assert!(plan[1].cards.is_empty());
    assert_eq!(plan[2].device_id, "NOCARDS");
    assert!(plan[2].cards.is_empty());
}

#[test]
fn import_plan_negative_ident_and_missing_order() {
    let plan = plan_import(r#"[{"device_id":"D","card":[{"no":-12,"sim_no":1.5}]}]"#).unwrap();
    assert_eq!(plan[0].cards[0].no, "-12");
    assert_eq!(plan[0].cards[0].sim_no, "");
    assert_eq!(plan[0].cards[0].app_order, 0);
}

#[test]
fn import_plan_rejects_non_array() {
    assert!(plan_import("{\"device_id\": \"x\"}").is_none());
    assert!(plan_import("not json").is_none());
    assert!(plan_import("[]").unwrap().is_empty());
}

#[test]
fn sim_manager_keeps_paths() {
    let m = SimManager::new("python3".to_string(), "/opt/scripts".to_string(), "phones.json".to_string());
    assert_eq!(m.python_path, "python3");
    assert_eq!(m.scripts_dir, "/opt/scripts");
    assert_eq!(m.device_phones_path, "phones.json");
}
