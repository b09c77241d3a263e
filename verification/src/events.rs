//! Real-time events pushed to the browser.
use vstd::prelude::*;
use crate::adb::opt_string_view;
use crate::sms::NewSms;

verus! {

/// A real-time event.
pub enum Event {
    Sms(SmsPayload),
}

/// A stored SMS as the browser is told of it.
pub struct SmsPayload {
    pub id: i64,
    pub device_id: String,
    pub phone_number: Option<String>,
    pub sender: Option<String>,
    pub body: Option<String>,
    pub received_at: Option<String>,
}

fn clone_opt(o: &Option<String>) -> (res: Option<String>)
    ensures
        opt_string_view(res) == opt_string_view(*o),
{
    match o {
        Some(s) => Some(s.clone()),
        None => None,
    }
}

/// The event announcing a stored SMS; a message of no known device is
/// announced with an empty device id.
pub fn sms_event(id: i64, sms: &NewSms) -> (res: Event)
    ensures
        res matches Event::Sms(p) && p.id == id && p.device_id@ == (match sms.device_id {
            Some(d) => d@,
            None => Seq::<char>::empty(),
        }) && opt_string_view(p.phone_number) == opt_string_view(sms.phone_number)
            && opt_string_view(p.sender) == opt_string_view(sms.sender) && opt_string_view(p.body)
            == opt_string_view(sms.body) && opt_string_view(p.received_at) == opt_string_view(
            sms.received_at,
        ),
{
    let device_id = match &sms.device_id {
        Some(d) => d.clone(),
        None => String::new(),
    };
    Event::Sms(
        SmsPayload {
            id,
            device_id,
            phone_number: clone_opt(&sms.phone_number),
            sender: clone_opt(&sms.sender),
            body: clone_opt(&sms.body),
            received_at: clone_opt(&sms.received_at),
        },
    )
}

} // verus!
