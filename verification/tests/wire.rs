use lan_mouse::event::{KeyboardEvent, ProtocolError};
use lan_mouse::wire::{
    decode_event, decode_pointer_event, encode_event, encode_pointer_event, pointer_event_type, Event, EventType,
    PointerEvent, PointerEventType,
};

fn motion(time: u32, dx: f64, dy: f64) -> PointerEvent {
    PointerEvent::Motion { time, dx_bits: dx.to_bits(), dy_bits: dy.to_bits() }
}

#[test]
fn motion_travels_as_big_endian_doubles() {
    let bytes = encode_event(&Event::Pointer(motion(1, 1.5, -2.0)));
    let mut expected = vec![0u8, 0, 0, 0, 1];
    expected.extend_from_slice(&1.5f64.to_be_bytes());
    expected.extend_from_slice(&(-2.0f64).to_be_bytes());
    assert_eq!(bytes, expected);
    assert_eq!(bytes.len(), 21);
    match decode_event(&bytes).unwrap() {
        Event::Pointer(PointerEvent::Motion { time, dx_bits, dy_bits }) => {
            assert_eq!(time, 1);
            assert_eq!(f64::from_bits(dx_bits), 1.5);
            assert_eq!(f64::from_bits(dy_bits), -2.0);
        }
        other => panic!("unexpected {other:?}"),
    }
}

#[test]
fn every_pointer_event_round_trips() {
    let events = [
        motion(7, 0.25, 100.0),
        PointerEvent::Button { time: 9, button: 0x110, state: 1 },
        PointerEvent::Axis { time: 3, axis: 1, value_bits: (-15.5f64).to_bits() },
        PointerEvent::AxisDiscrete120 { axis: 0, value: -240 },
        PointerEvent::Frame,
    ];
    for e in events {
        let bytes = encode_event(&Event::Pointer(e));
        assert_eq!(decode_event(&bytes).unwrap(), Event::Pointer(e));
    }
}

#[test]
fn discrete_scroll_is_two_complement() {
    let bytes = encode_pointer_event(&PointerEvent::AxisDiscrete120 { axis: 1, value: -1 });
    assert_eq!(bytes, vec![9, 1, 0xff, 0xff, 0xff, 0xff]);
    assert_eq!(encode_event(&Event::Pointer(PointerEvent::AxisDiscrete120 { axis: 1, value: -1 })), bytes);
}

#[test]
fn unit_events_are_just_their_id() {
    for (e, id) in [
        (Event::Enter, 2u8),
        (Event::Leave, 3),
        (Event::Ping, 4),
        (Event::Pong, 5),
        (Event::Disconnect, 6),
    ] {
        assert_eq!(encode_event(&e), vec![id]);
        assert_eq!(decode_event(&[id]).unwrap(), e);
        assert_eq!(e.event_type().id(), id);
    }
    assert_eq!(EventType::Keyboard.id(), 1);
}

#[test]
fn keyboard_events_round_trip_as_events() {
    let e = Event::Keyboard(KeyboardEvent::Modifiers { depressed: 1, latched: 2, locked: 3, group: 4 });
    let bytes = encode_event(&e);
    assert_eq!(bytes.len(), 18);
    assert_eq!(decode_event(&bytes).unwrap(), e);
}

#[test]
fn unknown_ids_are_refused() {
    match decode_event(&[11]) {
        Err(ProtocolError::InvalidEventId(11)) => {}
        other => panic!("unexpected {other:?}"),
    }
    match decode_pointer_event(&[5]) {
        Err(ProtocolError::InvalidPointerEventId(5)) => {}
        other => panic!("unexpected {other:?}"),
    }
    assert!(matches!(pointer_event_type(10), Ok(PointerEventType::Frame)));
    assert!(matches!(pointer_event_type(4), Err(ProtocolError::InvalidPointerEventId(4))));
}

#[test]
fn short_messages_name_the_missing_field() {
    match decode_pointer_event(&[]) {
        Err(e @ ProtocolError::Data(_)) => assert_eq!(e.message(), "expected data at idx `\"0\"`"),
        other => panic!("unexpected {other:?}"),
    }
    match decode_pointer_event(&[0, 0, 0, 0, 1, 0, 0]) {
        Err(e @ ProtocolError::Data(_)) => assert_eq!(e.message(), "expected data at idx `\"5..13\"`"),
        other => panic!("unexpected {other:?}"),
    }
    match decode_pointer_event(&[9, 1]) {
        Err(e @ ProtocolError::Data(_)) => assert_eq!(e.message(), "expected data at idx `\"2..6\"`"),
        other => panic!("unexpected {other:?}"),
    }
}
