use largitdata_wifi_pool_ui::sms::{
    current_phone_query, label_query, raw_sms_is_malformed, settle_sms, sms_layout,
    sms_query_limit, tag_query, with_current_phone, NewSms, SmsFormat,
};

fn bare(body: &str) -> NewSms {
    NewSms {
        device_id: None,
        phone_number: None,
        sender: None,
        body: Some(body.to_string()),
        received_at: None,
        raw_body: None,
    }
}

const RECEIVER_BODY: &str = " 0912345678 \nYour code is 1234\nvalid 5 minutes\nReceiver: SIM-07 \nmobile32\n2024-05-01 10:20:30\nend";

#[test]
fn receiver_layout_is_read() {
    let layout = sms_layout(RECEIVER_BODY).unwrap();
    assert!(matches!(layout.format, SmsFormat::Receiver));
    assert_eq!(layout.sender, "0912345678");
    assert_eq!(layout.content, "Your code is 1234\nvalid 5 minutes");
    assert_eq!(layout.label, "SIM-07");
    assert_eq!(layout.tag.as_deref(), Some("mobile32"));
    assert_eq!(layout.received_at.as_deref(), Some("2024-05-01 10:20:30"));
    assert_eq!(label_query(&layout).as_deref(), Some("SIM-07"));
    let unknown = NewSms { device_id: None, phone_number: None, sender: None, body: None, received_at: None, raw_body: None };
    let named = NewSms { device_id: Some("R38M605CSEH".to_string()), ..unknown_sms() };
    let hit = Some(("R38M605CSEH".to_string(), "886933246524".to_string()));
    assert_eq!(tag_query(&layout, &unknown, &None).as_deref(), Some("mobile32"));
    assert_eq!(tag_query(&layout, &unknown, &hit), None);
    assert_eq!(tag_query(&layout, &named, &None), None);
}

#[test]
fn tag_layout_is_read() {
    let body = "Bank\nCode 9999\nline two\n  mobile40  \n2024-05-02 08:00:00\ngroup A";
    let layout = sms_layout(body).unwrap();
    assert!(matches!(layout.format, SmsFormat::MobileTag));
    assert_eq!(layout.sender, "Bank");
    assert_eq!(layout.content, "Code 9999\nline two");
    assert_eq!(layout.label, "");
    assert_eq!(layout.tag.as_deref(), Some("mobile40"));
    assert_eq!(layout.received_at.as_deref(), Some("2024-05-02 08:00:00"));
    assert_eq!(label_query(&layout), None);
    let hit = Some(("R38M605CSEH".to_string(), "886933246524".to_string()));
    assert_eq!(tag_query(&layout, &unknown_sms(), &hit).as_deref(), Some("mobile40"));
    assert_eq!(tag_query(&layout, &unknown_sms(), &None).as_deref(), Some("mobile40"));
}

#[test]
fn short_or_plain_bodies_have_no_layout() {
    assert!(sms_layout("hello\nworld").is_none());
    assert!(sms_layout("a\nb\nc\nd\ne").is_none());
}

#[test]
fn receiver_at_end_has_no_time_or_tag() {
    let layout = sms_layout("s\nm1\nm2\nm3\nReceiver:").unwrap();
    assert_eq!(layout.label, "");
    assert_eq!(layout.tag, None);
    assert_eq!(layout.received_at, None);
    assert_eq!(label_query(&layout), None);
}

#[test]
fn first_line_label_is_malformed() {
    assert!(raw_sms_is_malformed("Receiver: x\na\nb\nc\nd"));
    assert!(raw_sms_is_malformed("mobile1\na\nb\nc\nd"));
    assert!(!raw_sms_is_malformed(RECEIVER_BODY));
    assert!(!raw_sms_is_malformed("Receiver: x\na"));
}

#[test]
fn settle_label_match_sets_device_and_number() {
    let layout = sms_layout(RECEIVER_BODY).unwrap();
    let sms = settle_sms(
        bare(RECEIVER_BODY),
        &layout,
        Some(("R38M605CSEH".to_string(), "0933246524".to_string())),
        None,
    );
    assert_eq!(sms.device_id.as_deref(), Some("R38M605CSEH"));
    assert_eq!(sms.phone_number.as_deref(), Some("0933246524"));
    assert_eq!(sms.sender.as_deref(), Some("0912345678"));
    assert_eq!(sms.body.as_deref(), Some("Your code is 1234\nvalid 5 minutes"));
    assert_eq!(sms.raw_body.as_deref(), Some(RECEIVER_BODY));
    assert_eq!(sms.received_at.as_deref(), Some("2024-05-01 10:20:30"));
}

#[test]
fn settle_keeps_what_the_phone_sent() {
    let layout = sms_layout(RECEIVER_BODY).unwrap();
    let mut body = bare(RECEIVER_BODY);
    body.sender = Some("given".to_string());
    body.received_at = Some("then".to_string());
    body.device_id = Some("DEV".to_string());
    let sms = settle_sms(body, &layout, None, Some("TAGDEV".to_string()));
    assert_eq!(sms.sender.as_deref(), Some("given"));
    assert_eq!(sms.received_at.as_deref(), Some("then"));
    assert_eq!(sms.device_id.as_deref(), Some("TAGDEV"));
    assert_eq!(sms.phone_number, None);
}

#[test]
fn current_phone_fills_missing_number() {
    let mut sms = bare("x");
    sms.device_id = Some("D1".to_string());
    assert_eq!(current_phone_query(&sms).as_deref(), Some("D1"));
    let sms = with_current_phone(sms, Some("0900".to_string()));
    assert_eq!(sms.phone_number.as_deref(), Some("0900"));
    assert_eq!(current_phone_query(&sms), None);
    let sms = with_current_phone(sms, Some("other".to_string()));
    assert_eq!(sms.phone_number.as_deref(), Some("0900"));
}

#[test]
fn no_device_means_no_current_phone_lookup() {
    let sms = bare("x");
    assert_eq!(current_phone_query(&sms), None);
    let sms = with_current_phone(sms, Some("0900".to_string()));
    assert_eq!(sms.phone_number, None);
}

#[test]
fn sms_limit_defaults_to_five() {
    assert_eq!(sms_query_limit(None), 5);
    assert_eq!(sms_query_limit(Some(20)), 20);
}

fn unknown_sms() -> NewSms {
    NewSms { device_id: None, phone_number: None, sender: None, body: None, received_at: None, raw_body: None }
}
