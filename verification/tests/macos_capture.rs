use lan_mouse::capture::{PositionSet, BTN_BACK, BTN_LEFT, BTN_MIDDLE};
use lan_mouse::emulation::XMods;
use lan_mouse::mac_capture::{
    events_with_key, get_events, is_pointer_motion_event, CapturedInput, KeyMapError, MacEventFields, MacEventType,
};
use lan_mouse::mac_tap::{InputSource, MacCaptureState, ProducerEvent, TapEvent};
use lan_mouse::Position;

fn fields() -> MacEventFields {
    MacEventFields {
        keycode: 0,
        flags: 0,
        button_number: 0,
        scroll_is_continuous: false,
        point_delta_vertical: 0,
        point_delta_horizontal: 0,
        line_delta_vertical: 0,
        line_delta_horizontal: 0,
    }
}

fn set(positions: &[Position]) -> PositionSet {
    let mut s = PositionSet::empty();
    for p in positions {
        s.insert(*p);
    }
    s
}

#[test]
fn dragged_pointer_events_are_motion_events() {
    assert!(is_pointer_motion_event(MacEventType::MouseMoved));
    assert!(is_pointer_motion_event(MacEventType::LeftMouseDragged));
    assert!(is_pointer_motion_event(MacEventType::RightMouseDragged));
    assert!(is_pointer_motion_event(MacEventType::OtherMouseDragged));
    assert!(!is_pointer_motion_event(MacEventType::LeftMouseDown));
}

#[test]
fn key_events_map_mac_codes_to_evdev() {
    let mut mods = XMods::empty();
    let mut f = fields();
    f.keycode = 0; // kVK_ANSI_A
    assert_eq!(get_events(MacEventType::KeyDown, &f, &mut mods).unwrap(), vec![CapturedInput::Key { key: 30, state: 1 }]);
    f.keycode = 0xff;
    assert!(get_events(MacEventType::KeyUp, &f, &mut mods).is_err());
}

#[test]
fn key_events_carry_the_looked_up_key() {
    let mut mods = XMods::empty();
    let mut f = fields();
    f.keycode = 7;
    assert_eq!(
        events_with_key(MacEventType::KeyUp, &f, &mut mods, Some(45)).unwrap(),
        vec![CapturedInput::Key { key: 45, state: 0 }]
    );
    assert_eq!(events_with_key(MacEventType::KeyDown, &f, &mut mods, None), Err(KeyMapError { code: 7 }));
    // a modifier change without a key still reports the modifiers
    f.flags = 0x0002_0000;
    assert_eq!(
        events_with_key(MacEventType::FlagsChanged, &f, &mut mods, None).unwrap(),
        vec![CapturedInput::Modifiers { depressed: 0x01, latched: 0, locked: 0, group: 0 }]
    );
    assert_eq!(mods.bits, 0x01);
}

#[test]
fn flag_changes_report_modifier_state() {
    let mut mods = XMods::empty();
    let mut f = fields();
    f.keycode = 56; // left shift
    f.flags = 0x0002_0000 | 0x0001_0000;
    let events = get_events(MacEventType::FlagsChanged, &f, &mut mods).unwrap();
    assert_eq!(
        events,
        vec![
            CapturedInput::Key { key: 42, state: 1 },
            CapturedInput::Modifiers { depressed: 0x03, latched: 0, locked: 0x02, group: 0 },
        ]
    );
    assert_eq!(mods.bits, 0x03);
    f.flags = 0;
    let events = get_events(MacEventType::FlagsChanged, &f, &mut mods).unwrap();
    assert_eq!(events[0], CapturedInput::Key { key: 42, state: 0 });
    assert_eq!(mods.bits, 0);
}

#[test]
fn buttons_and_scrolls() {
    let mut mods = XMods::empty();
    let mut f = fields();
    f.button_number = 3;
    assert_eq!(
        get_events(MacEventType::OtherMouseDown, &f, &mut mods).unwrap(),
        vec![CapturedInput::Button { button: BTN_BACK, state: 1 }]
    );
    f.button_number = 2;
    assert_eq!(
        get_events(MacEventType::OtherMouseUp, &f, &mut mods).unwrap(),
        vec![CapturedInput::Button { button: BTN_MIDDLE, state: 0 }]
    );
    assert_eq!(
        get_events(MacEventType::LeftMouseDown, &f, &mut mods).unwrap(),
        vec![CapturedInput::Button { button: BTN_LEFT, state: 1 }]
    );
    f.line_delta_vertical = -2;
    f.line_delta_horizontal = 1;
    assert_eq!(
        get_events(MacEventType::ScrollWheel, &f, &mut mods).unwrap(),
        vec![
            CapturedInput::AxisDiscrete120 { axis: 0, value: -80 },
            CapturedInput::AxisDiscrete120 { axis: 1, value: 40 },
        ]
    );
    f.scroll_is_continuous = true;
    f.point_delta_horizontal = 5;
    assert_eq!(
        get_events(MacEventType::ScrollWheel, &f, &mut mods).unwrap(),
        vec![CapturedInput::Axis { axis: 1, value: 5 }]
    );
    assert!(get_events(MacEventType::Other, &f, &mut mods).unwrap().is_empty());
}

#[test]
fn a_crossing_disarms_its_position_until_an_inward_motion() {
    let mut s = MacCaptureState::new();
    s.apply_producer_event(ProducerEvent::Create(Position::Left));
    let none = PositionSet::empty();
    let left = set(&[Position::Left]);

    let first = s.tap_event(TapEvent::Motion, InputSource::Physical, left, none);
    assert_eq!(first.capture_position, Some(Position::Left));
    assert!(first.begin && first.start_capture && first.drop_event);
    assert_eq!(s.cursor_change(ProducerEvent::Grab(Position::Left, InputSource::Physical)), Some(false));
    s.apply_producer_event(ProducerEvent::Grab(Position::Left, InputSource::Physical));

    let during = s.tap_event(TapEvent::Other, InputSource::Physical, none, none);
    assert!(during.forward_events && during.drop_event);
    let other_source = s.tap_event(TapEvent::Other, InputSource::Emulated, none, none);
    assert!(!other_source.forward_events && !other_source.drop_event);

    assert_eq!(s.cursor_change(ProducerEvent::Release), Some(true));
    s.apply_producer_event(ProducerEvent::Release);
    let again = s.tap_event(TapEvent::Motion, InputSource::Physical, left, none);
    assert_eq!(again.capture_position, None);

    s.tap_event(TapEvent::Motion, InputSource::Physical, none, left);
    let rearmed = s.tap_event(TapEvent::Motion, InputSource::Physical, left, none);
    assert_eq!(rearmed.capture_position, Some(Position::Left));
}

#[test]
fn emulated_returns_go_to_enter_only_handles() {
    let mut s = MacCaptureState::new();
    s.apply_producer_event(ProducerEvent::Create(Position::Right));
    s.apply_producer_event(ProducerEvent::SetEnterOnly(Position::Right, true));
    let right = set(&[Position::Right]);
    let none = PositionSet::empty();
    assert_eq!(s.tap_event(TapEvent::Motion, InputSource::Emulated, right, none).capture_position, None);
    s.tap_event(TapEvent::Motion, InputSource::Emulated, none, right);
    let ret = s.tap_event(TapEvent::Motion, InputSource::Emulated, right, none);
    assert!(ret.begin && ret.route_enter_only && !ret.drop_event && !ret.start_capture);
    let lost = s.tap_event(TapEvent::DisabledByUserInput, InputSource::Physical, none, none);
    assert!(lost.tap_lost);
    assert!(s.tap_event(TapEvent::DisabledByTimeout, InputSource::Physical, none, none).reenable_tap);
}
