use largitdata_wifi_pool_ui::protocol::{
    build_key_event, build_touch_event, parse_handshake, plan_control, ControlAction, ControlError,
    HandshakeError,
};

#[test]
fn touch_event_layout() {
    let p = build_touch_event(0, 0x0102_0304, 540, 1080, 0x0780);
    let expected: [u8; 32] = [
        2, 0, 0, 0, 0, 0, 0, 0, 0, 1, 0x01, 0x02, 0x03, 0x04, 0, 0, 0x02, 0x1C, 0x04, 0x38, 0x07,
        0x80, 0, 1, 0, 0, 0, 1, 0, 0, 0, 1,
    ];
    assert_eq!(p, expected);
}

#[test]
fn key_event_layout() {
    let p = build_key_event(1, 187);
    let expected: [u8; 14] = [0, 1, 0, 0, 0, 187, 0, 0, 0, 0, 0, 0, 0, 0];
    assert_eq!(p, expected);
}

#[test]
fn handshake_gives_size() {
    let mut buf = [0u8; 77];
    buf[1..6].copy_from_slice(b"Pixel");
    buf[69..73].copy_from_slice(&1080u32.to_be_bytes());
    buf[73..77].copy_from_slice(&2400u32.to_be_bytes());
    match parse_handshake(&buf) {
        Ok((w, h)) => assert_eq!((w, h), (1080, 2400)),
        Err(_) => panic!("handshake refused"),
    }
}

#[test]
fn handshake_rejects_dummy_byte() {
    let mut buf = [0u8; 77];
    buf[0] = 0x2a;
    match parse_handshake(&buf) {
        Err(HandshakeError::InvalidDummyByte(b)) => assert_eq!(b, 0x2a),
        Ok(_) => panic!("accepted a bad dummy byte"),
    }
}

#[test]
fn touch_size_roundtrips_through_handshake_encoding() {
    let p = build_touch_event(2, 7, 9, 1080, 2400);
    let mut buf = [0u8; 77];
    buf[69..73].copy_from_slice(&p[10..14]);
    buf[73..77].copy_from_slice(&p[14..18]);
    match parse_handshake(&buf) {
        Ok((x, y)) => assert_eq!((x, y), (7, 9)),
        Err(_) => panic!("handshake refused"),
    }
}

#[test]
fn control_touch_messages() {
    for (ty, action) in [("touchDown", 0u8), ("touchUp", 1), ("touchMove", 2)] {
        let text = format!("{{\"type\":\"{ty}\",\"xP\":0.5,\"yP\":0.25}}");
        match plan_control(&text, 540, 480, 1080, 1920) {
            Ok(ControlAction::Touch(p)) => assert_eq!(p, build_touch_event(action, 540, 480, 1080, 1920)),
            _ => panic!("expected a touch for {ty}"),
        }
    }
}

#[test]
fn control_touch_size_is_cut_to_sixteen_bits() {
    match plan_control("{\"type\":\"touchDown\"}", 1, 2, 0x1_0005, 0x2_0006) {
        Ok(ControlAction::Touch(p)) => assert_eq!(p, build_touch_event(0, 1, 2, 5, 6)),
        _ => panic!("expected a touch"),
    }
}

#[test]
fn control_key_message_sends_down_then_up() {
    match plan_control("{\"type\":\"keyEvent\",\"data\":{\"eventNumber\":4}}", 0, 0, 1, 1) {
        Ok(ControlAction::Key(down, up)) => {
            assert_eq!(down, build_key_event(0, 4));
            assert_eq!(up, build_key_event(1, 4));
        },
        _ => panic!("expected a key press"),
    }
    match plan_control("{\"type\":\"keyEvent\"}", 0, 0, 1, 1) {
        Ok(ControlAction::Key(down, _)) => assert_eq!(down, build_key_event(0, 0)),
        _ => panic!("expected a key press"),
    }
}

#[test]
fn control_other_messages_are_ignored() {
    assert!(matches!(plan_control("{\"type\":\"ping\"}", 0, 0, 1, 1), Ok(ControlAction::Ignore)));
    assert!(matches!(plan_control("{\"kind\":3}", 0, 0, 1, 1), Ok(ControlAction::Ignore)));
    assert!(matches!(plan_control("[1,2]", 0, 0, 1, 1), Ok(ControlAction::Ignore)));
}

#[test]
fn control_invalid_json_is_an_error() {
    assert!(matches!(plan_control("{type:", 0, 0, 1, 1), Err(ControlError::InvalidJson)));
}
