//! The rows the store keeps about devices and SIM cards, and the lookup of
//! a number's status.
use vstd::prelude::*;
use crate::adb::opt_string_view;

verus! {

/// A device and the SIM it was last seen using.
pub struct DeviceRow {
    pub serial: String,
    pub model: Option<String>,
    pub product: Option<String>,
    pub current_phone: Option<String>,
    pub current_app_order: Option<i32>,
    pub last_checked_at: Option<String>,
}

/// A SIM card of a device.
pub struct SimCardRow {
    pub id: i64,
    pub device_serial: String,
    pub app_order: i32,
    pub phone_number: Option<String>,
    pub app_lable: Option<String>,
    pub no: Option<String>,
    pub sim_no: Option<String>,
    pub sim_number: Option<String>,
}

/// A device with all its SIM cards.
pub struct DeviceDetail {
    pub device: DeviceRow,
    pub sim_cards: Vec<SimCardRow>,
}

/// Which device holds a number, and whether it is the one in use.
pub struct PhoneStatus {
    pub phone_number: String,
    pub device_serial: String,
    pub app_order: i32,
    pub is_active: bool,
    pub current_phone: Option<String>,
}

impl PhoneStatus {
    /// The status of a number from its card and its device's current number:
    /// the number is active when the device currently uses exactly it.
    pub fn from_row(
        phone_number: String,
        device_serial: String,
        app_order: i32,
        current_phone: Option<String>,
    ) -> (res: PhoneStatus)
        ensures
            res.phone_number@ == phone_number@,
            res.device_serial@ == device_serial@,
            res.app_order == app_order,
            opt_string_view(res.current_phone) == opt_string_view(current_phone),
            res.is_active == (opt_string_view(current_phone) == Some(phone_number@)),
    {
        let is_active = match &current_phone {
            Some(c) => *c == phone_number,
            None => false,
        };
        PhoneStatus { phone_number, device_serial, app_order, is_active, current_phone }
    }
}

} // verus!
