//! Server settings, each with its default.
use vstd::prelude::*;
use crate::text::{chars_of, parse_unsigned, parse_unsigned_range};

verus! {

/// Server settings.
pub struct Config {
    pub port: u16,
    pub adb_path: String,
    pub python_path: String,
    pub scripts_dir: String,
    pub device_phones_path: String,
}

/// The HTTP port when none (or no valid one) is given.
pub const DEFAULT_PORT: u16 = 5678;

/// The port a setting gives: the value read as a `u16`, or the default when
/// it is missing or is not a number in range.
pub open spec fn port_setting(value: Option<Seq<char>>) -> u16 {
    match value {
        Some(v) => match parse_unsigned(v, 0xFFFF) {
            Some(n) => n as u16,
            None => DEFAULT_PORT,
        },
        None => DEFAULT_PORT,
    }
}

pub fn parse_port(value: Option<&str>) -> (port: u16)
    ensures
        port == port_setting(match value {
            Some(v) => Some(v@),
            None => None,
        }),
{
    match value {
        Some(v) => {
            let cs = chars_of(v);
            assert(cs@.subrange(0, cs.len() as int) =~= cs@);
            match parse_unsigned_range(&cs, 0, cs.len(), 0xFFFF) {
                Some(n) => n as u16,
                None => DEFAULT_PORT,
            }
        },
        None => DEFAULT_PORT,
    }
}

fn or_default(value: Option<String>, default: &str) -> (res: String)
    ensures
        res@ == match value {
            Some(v) => v@,
            None => default@,
        },
{
    match value {
        Some(v) => v,
        None => default.to_owned(),
    }
}

impl Config {
    /// The settings from the values given (`PORT`, `ADB_PATH`, `PYTHON_PATH`,
    /// `SCRIPTS_DIR`, `DEVICE_JSON`); a missing one takes its default: port
    /// 5678, `adb`, `python3`, `.` and `device_phones.json`.
    pub fn from_values(
        port: Option<String>,
        adb_path: Option<String>,
        python_path: Option<String>,
        scripts_dir: Option<String>,
        device_phones_path: Option<String>,
    ) -> (res: Config)
        ensures
            res.port == port_setting(match port {
                Some(v) => Some(v@),
                None => None,
            }),
            res.adb_path@ == (match adb_path {
                Some(v) => v@,
                None => "adb"@,
            }),
            res.python_path@ == (match python_path {
                Some(v) => v@,
                None => "python3"@,
            }),
            res.scripts_dir@ == (match scripts_dir {
                Some(v) => v@,
                None => "."@,
            }),
            res.device_phones_path@ == (match device_phones_path {
                Some(v) => v@,
                None => "device_phones.json"@,
            }),
    {
        let port = match &port {
            Some(v) => parse_port(Some(v.as_str())),
            None => parse_port(None),
        };
        Config {
            port,
            adb_path: or_default(adb_path, "adb"),
            python_path: or_default(python_path, "python3"),
            scripts_dir: or_default(scripts_dir, "."),
            device_phones_path: or_default(device_phones_path, "device_phones.json"),
        }
    }
}

} // verus!
