use largitdata_wifi_pool_ui::commands::{
    atx_forward_args, current_script_args, decimal_string, devices_args, escape_text,
    forward_args, input_text_args, keyevent_args, loopback_address, push_args,
    remove_forward_args, reverse_args, screencap_args, shell_args, signed_decimal_string,
    swipe_args, switch_all_script_args, switch_device_script_args, tap_args, tcp_address,
};
use largitdata_wifi_pool_ui::session::{give_up_after, jar_temp_path, server_args};

#[test]
fn decimal_notation() {
    assert_eq!(decimal_string(0), "0");
    assert_eq!(decimal_string(18_446_744_073_709_551_615), "18446744073709551615");
    assert_eq!(signed_decimal_string(-2147483648), "-2147483648");
    assert_eq!(signed_decimal_string(i64::MIN), "-9223372036854775808");
    assert_eq!(signed_decimal_string(42), "42");
}

#[test]
fn adb_argument_lists() {
    assert_eq!(devices_args(), vec!["devices", "-l"]);
    assert_eq!(screencap_args("S1"), vec!["-s", "S1", "exec-out", "screencap", "-p"]);
    assert_eq!(tap_args("S1", 540, -3), vec!["-s", "S1", "shell", "input", "tap", "540", "-3"]);
    assert_eq!(
        swipe_args("S1", 540, 1500, 540, 500, 300),
        vec!["-s", "S1", "shell", "input", "swipe", "540", "1500", "540", "500", "300"]
    );
    assert_eq!(keyevent_args("S1", 187), vec!["-s", "S1", "shell", "input", "keyevent", "187"]);
    assert_eq!(shell_args("S1", "wm size"), vec!["-s", "S1", "shell", "wm size"]);
    assert_eq!(push_args("S1", "/tmp/a", "/data/b"), vec!["-s", "S1", "push", "/tmp/a", "/data/b"]);
    assert_eq!(forward_args("S1", "tcp:1", "tcp:2"), vec!["-s", "S1", "forward", "tcp:1", "tcp:2"]);
    assert_eq!(remove_forward_args("S1", "tcp:1"), vec!["-s", "S1", "forward", "--remove", "tcp:1"]);
    assert_eq!(reverse_args("S1", "tcp:5678", "tcp:5678"), vec!["-s", "S1", "reverse", "tcp:5678", "tcp:5678"]);
    assert_eq!(atx_forward_args("S1", 17100), vec!["-s", "S1", "forward", "tcp:17100", "tcp:9008"]);
    assert_eq!(tcp_address(27183), "tcp:27183");
    assert_eq!(loopback_address(80), "127.0.0.1:80");
}

#[test]
fn input_text_escaping() {
    assert_eq!(escape_text("hello world"), "hello%sworld");
    assert_eq!(escape_text("a'b\"c&d<e>f|g;h(i)j"), "a\\'b\\\"c\\&d\\<e\\>f\\|g\\;h\\(i\\)j");
    assert_eq!(escape_text("中文 ok"), "中文%sok");
    assert_eq!(input_text_args("S1", "a b"), vec!["-s", "S1", "shell", "input", "text", "a%sb"]);
    assert!(!escape_text("  x y  ").contains(' '));
}

#[test]
fn script_argument_lists() {
    assert_eq!(current_script_args("./switch_all_devices.py"), vec!["./switch_all_devices.py", "--current"]);
    assert_eq!(switch_all_script_args("s.py", 5), vec!["s.py", "5"]);
    assert_eq!(switch_device_script_args("p.py", "R38", 12), vec!["p.py", "R38", "--index", "12"]);
}

#[test]
fn scrcpy_launch() {
    assert_eq!(jar_temp_path("R38M605CSEH"), "/tmp/scrcpy-server-R38M605CSEH.jar");
    let args = server_args("S1");
    assert_eq!(args.len(), 20);
    assert_eq!(&args[..4], &["-s", "S1", "shell", "CLASSPATH=/data/local/tmp/scrcpy_server.jar"]);
    assert_eq!(args[6], "com.genymobile.scrcpy.Server");
    assert_eq!(args[19], "clipboard_autosync=false");
}

#[test]
fn connect_retry_budget() {
    assert!(!give_up_after(0, 50));
    assert!(!give_up_after(48, 50));
    assert!(give_up_after(49, 50));
    assert!(give_up_after(0, 1));
}
