//! The scrcpy v2 control protocol: the touch and key packets the server
//! injects, and the handshake that opens the video socket.
use vstd::prelude::*;
use crate::json::{json_member, json_member_text, json_str, json_str_text, json_u64, json_u64_text};

verus! {

/// Big-endian bytes of a 16-bit value.
pub open spec fn be16(v: u16) -> Seq<u8> {
    seq![(v / 0x100) as u8, (v % 0x100) as u8]
}

/// Big-endian bytes of a 32-bit value.
pub open spec fn be32(v: u32) -> Seq<u8> {
    seq![
        (v / 0x100_0000) as u8,
        ((v / 0x1_0000) % 0x100) as u8,
        ((v / 0x100) % 0x100) as u8,
        (v % 0x100) as u8,
    ]
}

/// Big-endian bytes of a 64-bit value.
pub open spec fn be64(v: u64) -> Seq<u8> {
    be32((v / 0x1_0000_0000) as u32) + be32((v % 0x1_0000_0000) as u32)
}

/// The value of four big-endian bytes.
pub open spec fn be32_value(b: Seq<u8>) -> nat
    recommends
        b.len() == 4,
{
    b[0] as nat * 0x100_0000 + b[1] as nat * 0x1_0000 + b[2] as nat * 0x100 + b[3] as nat
}

/// The value of two big-endian bytes.
pub open spec fn be16_value(b: Seq<u8>) -> nat
    recommends
        b.len() == 2,
{
    b[0] as nat * 0x100 + b[1] as nat
}

/// Message type of an injected touch event.
pub const TOUCH_EVENT_TYPE: u8 = 2;

/// Message type of an injected key event.
pub const KEY_EVENT_TYPE: u8 = 0;

/// A touch event: type 2, the action (0 down, 1 up, 2 move), pointer id 1,
/// the position and the screen size it refers to, pressure 1, and the
/// primary button as both action button and button state; all big-endian.
pub open spec fn touch_event(action: u8, x: u32, y: u32, width: u16, height: u16) -> Seq<u8> {
    seq![TOUCH_EVENT_TYPE, action] + be64(1) + be32(x) + be32(y) + be16(width) + be16(height)
        + be16(1) + be32(1) + be32(1)
}

/// A key event: type 0, the action (0 down, 1 up), the Android keycode,
/// repeat count 0 and meta state 0; all big-endian.
pub open spec fn key_event(action: u8, keycode: u32) -> Seq<u8> {
    seq![KEY_EVENT_TYPE, action] + be32(keycode) + be32(0) + be32(0)
}

/// Builds a touch event packet (32 bytes).
///
/// action: 0=down, 1=up, 2=move
pub fn build_touch_event(action: u8, x: u32, y: u32, width: u16, height: u16) -> (buf: [u8; 32])
    ensures
        buf@ == touch_event(action, x, y, width, height),
        buf@[0] == 2,
        buf@[1] == action,
        be32_value(buf@.subrange(10, 14)) == x,
        be32_value(buf@.subrange(14, 18)) == y,
        be16_value(buf@.subrange(18, 20)) == width,
        be16_value(buf@.subrange(20, 22)) == height,
{
    let buf: [u8; 32] = [
        TOUCH_EVENT_TYPE,
        action,
        0,
        0,
        0,
        0,
        0,
        0,
        0,
        1,
        (x / 0x100_0000) as u8,
        ((x / 0x1_0000) % 0x100) as u8,
        ((x / 0x100) % 0x100) as u8,
        (x % 0x100) as u8,
        (y / 0x100_0000) as u8,
        ((y / 0x1_0000) % 0x100) as u8,
        ((y / 0x100) % 0x100) as u8,
        (y % 0x100) as u8,
        (width / 0x100) as u8,
        (width % 0x100) as u8,
        (height / 0x100) as u8,
        (height % 0x100) as u8,
        0,
        1,
        0,
        0,
        0,
        1,
        0,
        0,
        0,
        1,
    ];
    assert(buf@ =~= touch_event(action, x, y, width, height));
    proof {
        lemma_touch_event_reads_back(action, x, y, width, height);
    }
    buf
}

/// Builds a key event packet (14 bytes).
///
/// action: 0=down, 1=up
pub fn build_key_event(action: u8, keycode: u32) -> (buf: [u8; 14])
    ensures
        buf@ == key_event(action, keycode),
        buf@[0] == 0,
        buf@[1] == action,
        be32_value(buf@.subrange(2, 6)) == keycode,
{
    let buf: [u8; 14] = [
        KEY_EVENT_TYPE,
        action,
        (keycode / 0x100_0000) as u8,
        ((keycode / 0x1_0000) % 0x100) as u8,
        ((keycode / 0x100) % 0x100) as u8,
        (keycode % 0x100) as u8,
        0,
        0,
        0,
        0,
        0,
        0,
        0,
        0,
    ];
    assert(buf@ =~= key_event(action, keycode));
    proof {
        lemma_key_event_reads_back(action, keycode);
    }
    buf
}

/// Four big-endian bytes read back give the value that was written.
pub proof fn lemma_be32_roundtrip(v: u32)
    ensures
        be32(v).len() == 4,
        be32_value(be32(v)) == v,
{
    let b = be32(v);
    assert(b[0] as nat * 0x100_0000 + b[1] as nat * 0x1_0000 + b[2] as nat * 0x100 + b[3] as nat
        == v) by (nonlinear_arith)
        requires
            b[0] == (v / 0x100_0000) as u8,
            b[1] == ((v / 0x1_0000) % 0x100) as u8,
            b[2] == ((v / 0x100) % 0x100) as u8,
            b[3] == (v % 0x100) as u8,
    ;
}

/// Two big-endian bytes read back give the value that was written.
pub proof fn lemma_be16_roundtrip(v: u16)
    ensures
        be16(v).len() == 2,
        be16_value(be16(v)) == v,
{
    let b = be16(v);
    assert(b[0] as nat * 0x100 + b[1] as nat == v) by (nonlinear_arith)
        requires
            b[0] == (v / 0x100) as u8,
            b[1] == (v % 0x100) as u8,
    ;
}

/// Reading a touch packet back: it is 32 bytes long, starts with type 2 and
/// the action it was built with, carries pointer id 1, then the position
/// and the screen size as given, pressure 1 and the primary button twice.
pub proof fn lemma_touch_event_reads_back(action: u8, x: u32, y: u32, width: u16, height: u16)
    ensures
        touch_event(action, x, y, width, height).len() == 32,
        touch_event(action, x, y, width, height)[0] == 2,
        touch_event(action, x, y, width, height)[1] == action,
        be32_value(touch_event(action, x, y, width, height).subrange(2, 6)) == 0,
        be32_value(touch_event(action, x, y, width, height).subrange(6, 10)) == 1,
        be32_value(touch_event(action, x, y, width, height).subrange(10, 14)) == x,
        be32_value(touch_event(action, x, y, width, height).subrange(14, 18)) == y,
        be16_value(touch_event(action, x, y, width, height).subrange(18, 20)) == width,
        be16_value(touch_event(action, x, y, width, height).subrange(20, 22)) == height,
        be16_value(touch_event(action, x, y, width, height).subrange(22, 24)) == 1,
        be32_value(touch_event(action, x, y, width, height).subrange(24, 28)) == 1,
        be32_value(touch_event(action, x, y, width, height).subrange(28, 32)) == 1,
{
    let p = touch_event(action, x, y, width, height);
    lemma_be32_roundtrip(0);
    lemma_be32_roundtrip(1);
    lemma_be32_roundtrip(x);
    lemma_be32_roundtrip(y);
    lemma_be16_roundtrip(width);
    lemma_be16_roundtrip(height);
    lemma_be16_roundtrip(1);
    assert(be64(1) =~= be32(0) + be32(1));
    assert(p.subrange(2, 6) =~= be32(0));
    assert(p.subrange(6, 10) =~= be32(1));
    assert(p.subrange(10, 14) =~= be32(x));
    assert(p.subrange(14, 18) =~= be32(y));
    assert(p.subrange(18, 20) =~= be16(width));
    assert(p.subrange(20, 22) =~= be16(height));
    assert(p.subrange(22, 24) =~= be16(1));
    assert(p.subrange(24, 28) =~= be32(1));
    assert(p.subrange(28, 32) =~= be32(1));
}

/// Reading a key packet back: it is 14 bytes long, starts with type 0 and
/// the action it was built with (0 down, 1 up), then the keycode as given,
/// repeat count 0 and meta state 0.
pub proof fn lemma_key_event_reads_back(action: u8, keycode: u32)
    ensures
        key_event(action, keycode).len() == 14,
        key_event(action, keycode)[0] == 0,
        key_event(action, keycode)[1] == action,
        be32_value(key_event(action, keycode).subrange(2, 6)) == keycode,
        be32_value(key_event(action, keycode).subrange(6, 10)) == 0,
        be32_value(key_event(action, keycode).subrange(10, 14)) == 0,
{
    let p = key_event(action, keycode);
    lemma_be32_roundtrip(0);
    lemma_be32_roundtrip(keycode);
    assert(p.subrange(2, 6) =~= be32(keycode));
    assert(p.subrange(6, 10) =~= be32(0));
    assert(p.subrange(10, 14) =~= be32(0));
}

/// The value of `b[at..at + 4]` read big-endian.
pub fn read_be32(b: &[u8], at: usize) -> (v: u32)
    requires
        at + 4 <= b@.len(),
    ensures
        v == be32_value(b@.subrange(at as int, at + 4)),
{
    let v = (b[at] as u32) * 0x100_0000 + (b[at + 1] as u32) * 0x1_0000 + (b[at + 2] as u32)
        * 0x100 + (b[at + 3] as u32);
    v
}

/// What the scrcpy server sends first on the video socket: a dummy byte, the
/// device name in 64 bytes, 4 bytes of codec id, then the width and the
/// height of the video, big-endian.
pub enum HandshakeError {
    /// The first byte is not the zero dummy byte.
    InvalidDummyByte(u8),
}

/// The video size that a 77-byte handshake announces.
pub open spec fn handshake_size(buf: Seq<u8>) -> Result<(nat, nat), u8> {
    if buf[0] != 0 {
        Err(buf[0])
    } else {
        Ok((be32_value(buf.subrange(69, 73)), be32_value(buf.subrange(73, 77))))
    }
}

/// Reads the video width and height from the 77-byte scrcpy handshake.
pub fn parse_handshake(buf: &[u8; 77]) -> (res: Result<(u32, u32), HandshakeError>)
    ensures
        match handshake_size(buf@) {
            Ok((w, h)) => res matches Ok((rw, rh)) && rw == w && rh == h,
            Err(b) => res matches Err(HandshakeError::InvalidDummyByte(rb)) && rb == b,
        },
{
    if buf[0] != 0 {
        return Err(HandshakeError::InvalidDummyByte(buf[0]));
    }
    let s = buf.as_slice();
    let width = read_be32(s, 69);
    let height = read_be32(s, 73);
    Ok((width, height))
}


/// What to write to the control socket for one message from the browser.
pub enum ControlAction {
    /// One touch event.
    Touch([u8; 32]),
    /// A key press: the key-down event, then the key-up event.
    Key([u8; 14], [u8; 14]),
    /// Nothing (a `ping`, or a type this server does not handle).
    Ignore,
}

/// Why a control message was refused.
pub enum ControlError {
    /// The message is not JSON.
    InvalidJson,
}

/// The `type` of a control message (empty when it has no string `type`),
/// or `None` when the message is not JSON.
pub open spec fn control_type(text: Seq<char>) -> Option<Seq<char>> {
    match json_member_text(text, "type"@) {
        Some(m) => Some(
            match json_str_text(m) {
                Some(t) => t,
                None => Seq::empty(),
            },
        ),
        None => None,
    }
}

/// The touch action a message type stands for.
pub open spec fn touch_action(t: Seq<char>) -> Option<u8> {
    if t == "touchDown"@ {
        Some(0)
    } else if t == "touchUp"@ {
        Some(1)
    } else if t == "touchMove"@ {
        Some(2)
    } else {
        None
    }
}

/// The browser's touch messages and the actions they become: `touchDown`
/// presses (0), `touchUp` lifts (1), `touchMove` moves (2); no other message
/// type is a touch.
pub proof fn lemma_touch_actions(t: Seq<char>)
    ensures
        touch_action("touchDown"@) == Some(0u8),
        touch_action("touchUp"@) == Some(1u8),
        touch_action("touchMove"@) == Some(2u8),
        touch_action(t) is Some ==> (t == "touchDown"@ || t == "touchUp"@ || t == "touchMove"@),
{
    reveal_strlit("touchDown");
    reveal_strlit("touchUp");
    reveal_strlit("touchMove");
    assert("touchUp"@ != "touchDown"@) by {
        assert("touchUp"@.len() != "touchDown"@.len());
    }
    assert("touchMove"@ != "touchDown"@) by {
        assert("touchMove"@[5] != "touchDown"@[5]);
    }
    assert("touchMove"@ != "touchUp"@) by {
        assert("touchMove"@.len() != "touchUp"@.len());
    }
}

/// The keycode of a `keyEvent` message: `data.eventNumber` as a `u64`
/// (0 when absent), cut to 32 bits.
pub open spec fn control_keycode(text: Seq<char>) -> u32 {
    let n: u64 = match json_member_text(text, "data"@) {
        Some(d) => match json_member_text(d, "eventNumber"@) {
            Some(e) => match json_u64_text(e) {
                Some(n) => n,
                None => 0,
            },
            None => 0,
        },
        None => 0,
    };
    n as u32
}

/// The packets for one control message. `x` and `y` are the touch position
/// in video pixels; `width` and `height` the video size, sent as 16 bits.
pub fn plan_control(text: &str, x: u32, y: u32, width: u32, height: u32) -> (res: Result<
    ControlAction,
    ControlError,
>)
    ensures
        match control_type(text@) {
            None => res matches Err(ControlError::InvalidJson),
            Some(t) => match touch_action(t) {
                Some(a) => res matches Ok(ControlAction::Touch(p)) && p@ == touch_event(
                    a,
                    x,
                    y,
                    (width % 0x1_0000) as u16,
                    (height % 0x1_0000) as u16,
                ),
                None => if t == "keyEvent"@ {
                    res matches Ok(ControlAction::Key(down, up)) && down@ == key_event(
                        0,
                        control_keycode(text@),
                    ) && up@ == key_event(1, control_keycode(text@))
                } else {
                    res matches Ok(ControlAction::Ignore)
                },
            },
        },
{
    let member = match json_member(text, "type") {
        Some(m) => m,
        None => return Err(ControlError::InvalidJson),
    };
    let t = match json_str(member.as_str()) {
        Some(t) => t,
        None => String::new(),
    };
    let action: Option<u8> = if t == "touchDown".to_owned() {
        Some(0)
    } else if t == "touchUp".to_owned() {
        Some(1)
    } else if t == "touchMove".to_owned() {
        Some(2)
    } else {
        None
    };
    match action {
        Some(a) => {
            let w = (width % 0x1_0000) as u16;
            let h = (height % 0x1_0000) as u16;
            Ok(ControlAction::Touch(build_touch_event(a, x, y, w, h)))
        },
        None => {
            if t == "keyEvent".to_owned() {
                let n: u64 = match json_member(text, "data") {
                    Some(d) => match json_member(d.as_str(), "eventNumber") {
                        Some(e) => match json_u64(e.as_str()) {
                            Some(n) => n,
                            None => 0,
                        },
                        None => 0,
                    },
                    None => 0,
                };
                let keycode = n as u32;
                Ok(ControlAction::Key(build_key_event(0, keycode), build_key_event(1, keycode)))
            } else {
                Ok(ControlAction::Ignore)
            }
        },
    }
}

/// A handshake with the zero dummy byte and the size written big-endian at
/// bytes 69 and 73 announces exactly that size.
pub proof fn lemma_handshake_reads_size(buf: Seq<u8>, w: u32, h: u32)
    requires
        buf.len() == 77,
        buf[0] == 0,
        buf.subrange(69, 73) == be32(w),
        buf.subrange(73, 77) == be32(h),
    ensures
        handshake_size(buf) == Ok::<(nat, nat), u8>((w as nat, h as nat)),
{
    lemma_be32_roundtrip(w);
    lemma_be32_roundtrip(h);
}

} // verus!
