use largitdata_wifi_pool_ui::adb::{parse_device_list, parse_window_size};

const DEVICES_OUTPUT: &str = "List of devices attached\n\
R38M605CSEH            device usb:1-1 product:a51nsxx model:SM_A515F device:a51 transport_id:3\n\
RF8M31P4MQL            unauthorized usb:1-2 transport_id:4\n\
emulator-5554          offline\n\
\n";

#[test]
fn device_list_keeps_only_ready_devices() {
    let devices = parse_device_list(DEVICES_OUTPUT);
    assert_eq!(devices.len(), 1);
    let d = &devices[0];
    assert_eq!(d.serial, "R38M605CSEH");
    assert_eq!(d.status, "device");
    assert_eq!(d.model.as_deref(), Some("SM_A515F"));
    assert_eq!(d.product.as_deref(), Some("a51nsxx"));
}

#[test]
fn device_list_skips_heading_and_short_lines() {
    let out = "List of devices attached\nlonely\n  \nABC device\r\nXYZ\tdevice\tmodel:Pixel_7\n";
    let devices = parse_device_list(out);
    assert_eq!(devices.len(), 2);
    assert_eq!(devices[0].serial, "ABC");
    assert_eq!(devices[0].model, None);
    assert_eq!(devices[0].product, None);
    assert_eq!(devices[1].serial, "XYZ");
    assert_eq!(devices[1].model.as_deref(), Some("Pixel_7"));
}

#[test]
fn device_list_heading_line_is_never_a_device() {
    let devices = parse_device_list("ABC device\n");
    assert!(devices.is_empty());
    assert!(parse_device_list("").is_empty());
}

#[test]
fn device_list_last_detail_wins() {
    let devices = parse_device_list("List\nS1 device model:A model:B product:\n");
    assert_eq!(devices.len(), 1);
    assert_eq!(devices[0].model.as_deref(), Some("B"));
    assert_eq!(devices[0].product.as_deref(), Some(""));
}

#[test]
fn window_size_reads_physical_size() {
    let size = parse_window_size("Physical size: 1080x1920\n").unwrap();
    assert_eq!((size.width, size.height), (1080, 1920));
}

#[test]
fn window_size_first_reported_line_wins() {
    let size = parse_window_size("Override size: 720x1280\nPhysical size:  1440x3200  \nPhysical size: 1x2\n")
        .unwrap();
    assert_eq!((size.width, size.height), (1440, 3200));
}

#[test]
fn window_size_rejects_malformed_lines() {
    assert!(parse_window_size("Physical size: 10x20x30\n").is_none());
    assert!(parse_window_size("Physical size: 1080 by 1920\n").is_none());
    assert!(parse_window_size("Physical size: -1x20\n").is_none());
    assert!(parse_window_size("Physical size: 4294967296x20\n").is_none());
    assert!(parse_window_size("Override size: 720x1280\n").is_none());
    assert!(parse_window_size("").is_none());
}

#[test]
fn window_size_accepts_plus_sign_like_str_parse() {
    let size = parse_window_size("Physical size: +720x+1280").unwrap();
    assert_eq!((size.width, size.height), (720, 1280));
    assert!(parse_window_size("Physical size: +x5").is_none());
}
