//! Starting a scrcpy session on a device: what is pushed where, how the
//! server is launched, and how connecting to it is retried.
use vstd::prelude::*;
use crate::commands::arg_views;
use crate::text::{chars_of, string_from_chars};

verus! {

/// Where the server JAR is placed on the device.
pub const DEVICE_JAR_PATH: &'static str = "/data/local/tmp/scrcpy_server.jar";

/// The device-side socket the scrcpy server listens on.
pub const SCRCPY_SOCKET: &'static str = "localabstract:scrcpy";

/// The local file the server JAR is written to before the push:
/// `/tmp/scrcpy-server-SERIAL.jar`.
pub fn jar_temp_path(serial: &str) -> (res: String)
    ensures
        res@ == "/tmp/scrcpy-server-"@ + serial@ + ".jar"@,
{
    let mut v = chars_of("/tmp/scrcpy-server-");
    let mut s = chars_of(serial);
    let mut e = chars_of(".jar");
    v.append(&mut s);
    v.append(&mut e);
    string_from_chars(v.as_slice())
}

fn owned(s: &str) -> (res: String)
    ensures
        res@ == s@,
{
    s.to_owned()
}

/// The `adb` arguments that launch scrcpy server 2.7 on a device: video
/// over a forwarded tunnel at most 1024 pixels wide, 30 frames per second,
/// 8 Mbit/s, with control and without audio.
pub fn server_args(serial: &str) -> (res: Vec<String>)
    ensures
        arg_views(res@) == seq![
            "-s"@,
            serial@,
            "shell"@,
            "CLASSPATH=/data/local/tmp/scrcpy_server.jar"@,
            "app_process"@,
            "/"@,
            "com.genymobile.scrcpy.Server"@,
            "2.7"@,
            "log_level=info"@,
            "max_size=1024"@,
            "max_fps=30"@,
            "video_bit_rate=8000000"@,
            "tunnel_forward=true"@,
            "send_frame_meta=false"@,
            "control=true"@,
            "audio=false"@,
            "show_touches=false"@,
            "stay_awake=false"@,
            "power_off_on_close=false"@,
            "clipboard_autosync=false"@,
        ],
{
    let res = vec![
        owned("-s"),
        owned(serial),
        owned("shell"),
        owned("CLASSPATH=/data/local/tmp/scrcpy_server.jar"),
        owned("app_process"),
        owned("/"),
        owned("com.genymobile.scrcpy.Server"),
        owned("2.7"),
        owned("log_level=info"),
        owned("max_size=1024"),
        owned("max_fps=30"),
        owned("video_bit_rate=8000000"),
        owned("tunnel_forward=true"),
        owned("send_frame_meta=false"),
        owned("control=true"),
        owned("audio=false"),
        owned("show_touches=false"),
        owned("stay_awake=false"),
        owned("power_off_on_close=false"),
        owned("clipboard_autosync=false"),
    ];
    assert(arg_views(res@) =~= seq![
        "-s"@,
        serial@,
        "shell"@,
        "CLASSPATH=/data/local/tmp/scrcpy_server.jar"@,
        "app_process"@,
        "/"@,
        "com.genymobile.scrcpy.Server"@,
        "2.7"@,
        "log_level=info"@,
        "max_size=1024"@,
        "max_fps=30"@,
        "video_bit_rate=8000000"@,
        "tunnel_forward=true"@,
        "send_frame_meta=false"@,
        "control=true"@,
        "audio=false"@,
        "show_touches=false"@,
        "stay_awake=false"@,
        "power_off_on_close=false"@,
        "clipboard_autosync=false"@,
    ]);
    res
}

/// Connection attempts for the video socket.
pub const VIDEO_CONNECT_ATTEMPTS: u32 = 50;

/// Connection attempts for the control socket.
pub const CONTROL_CONNECT_ATTEMPTS: u32 = 20;

/// After attempt number `attempt` (counted from 0) of `max_attempts` failed:
/// whether to give up (it was the last one) rather than wait and try again.
pub fn give_up_after(attempt: u32, max_attempts: u32) -> (give_up: bool)
    requires
        attempt < max_attempts,
    ensures
        give_up == (attempt + 1 == max_attempts),
{
    attempt == max_attempts - 1
}

} // verus!
