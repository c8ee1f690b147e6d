use lan_mouse::event::{
    decode_i32, decode_keyboard_event, decode_u32, decode_u8, encode_keyboard_event, encode_keyboard_message,
    KeyboardEvent, KeyboardEventType, ProtocolError,
};

#[test]
fn key_events_round_trip() {
    let event = KeyboardEvent::Key { time: 0x0102_0304, key: 30, state: 1 };
    let bytes = encode_keyboard_message(&event);
    assert_eq!(bytes, vec![1, 0, 1, 2, 3, 4, 0, 0, 0, 30, 1]);
    assert_eq!(decode_keyboard_event(&bytes).unwrap(), event);
}

#[test]
fn modifier_events_round_trip_with_trailing_bytes() {
    let event = KeyboardEvent::Modifiers { depressed: 0x41, latched: 0, locked: 0x02, group: 0xffff_ffff };
    let mut bytes = encode_keyboard_message(&event);
    assert_eq!(bytes.len(), 18);
    bytes.push(0xaa);
    assert_eq!(decode_keyboard_event(&bytes).unwrap(), event);
    assert_eq!(event.event_type(), KeyboardEventType::Modifiers);
    assert_eq!(encode_keyboard_event(&event)[0], 1);
}

#[test]
fn short_messages_report_the_missing_range() {
    match decode_keyboard_event(&[1]) {
        Err(ProtocolError::Data(s)) => assert_eq!(s, "0"),
        other => panic!("unexpected: {other:?}"),
    }
    match decode_keyboard_event(&[1, 0, 0, 0, 0, 0, 0, 0]) {
        Err(e @ ProtocolError::Data(_)) => assert_eq!(e.message(), "expected data at idx `\"6..10\"`"),
        other => panic!("unexpected: {other:?}"),
    }
    match decode_keyboard_event(&[1, 1, 0, 0, 0, 0, 0, 0, 0, 0, 0, 0, 0, 0]) {
        Err(ProtocolError::Data(s)) => assert_eq!(s, "14..18"),
        other => panic!("unexpected: {other:?}"),
    }
}

#[test]
fn unknown_keyboard_event_types_are_refused() {
    match decode_keyboard_event(&[1, 7, 0, 0]) {
        Err(e @ ProtocolError::InvalidKeyboardEventId(7)) => {
            assert_eq!(e.message(), "invalid keyboard event type: `7`")
        }
        other => panic!("unexpected: {other:?}"),
    }
    assert_eq!(ProtocolError::InvalidEventId(200).message(), "invalid event id: `200`");
    assert_eq!(ProtocolError::InvalidPointerEventId(0).message(), "invalid pointer event type: `0`");
    assert_eq!(ProtocolError::MissingData.message(), "could not convert slice to array");
}

#[test]
fn field_decoders() {
    let data = [0xff, 0xff, 0xff, 0xfe, 9];
    assert_eq!(decode_u32(&data, 0, 4).unwrap(), 0xffff_fffe);
    assert_eq!(decode_i32(&data, 0, 4).unwrap(), -2);
    assert_eq!(decode_u8(&data, 4, 5).unwrap(), 9);
    assert!(matches!(decode_u32(&data, 0, 3), Err(ProtocolError::MissingData)));
    match decode_u8(&data, 4, 6) {
        Err(ProtocolError::Data(s)) => assert_eq!(s, "4..6"),
        other => panic!("unexpected: {other:?}"),
    }
    match decode_u8(&data, 3, 2) {
        Err(ProtocolError::Data(s)) => assert_eq!(s, "3..2"),
        other => panic!("unexpected: {other:?}"),
    }
}
