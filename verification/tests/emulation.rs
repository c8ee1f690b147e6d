use lan_mouse::capture::{BTN_BACK, BTN_FORWARD, BTN_LEFT, BTN_MIDDLE, BTN_RIGHT};
use lan_mouse::event::KeyboardEvent;
use lan_mouse::wire::PointerEvent;
use lan_mouse::emulation::{
    invert_scroll, mac_pointer_step, wlroots_discrete_scroll, wlroots_key_modifiers, MacPost, MacScrollUnit,
    discrete_scroll_wheels, drag_event_type, is_arrow_key, key_event_flags, modifier_flags_changed_flags,
    request_macos_emulation_permissions, scroll_wheels, to_cgevent_flags, union_bounds, x11_button_for, x11_keycode,
    x11_scroll_button, Backend, ClipboardError, DummyEmulation, HandleKeys, MacButtonState, MacMouseButton,
    MacMouseEventType, MacOSEmulationCreationError, OutputInfo, X11EmulationCreationError, XMods,
};

const KEY_LEFTSHIFT: u32 = 42;
const KEY_RIGHTCTRL: u32 = 97;
const KEY_CAPSLOCK: u32 = 58;
const KEY_NUMLOCK: u32 = 69;
const KEY_A: u32 = 30;

#[test]
fn backend_names() {
    assert_eq!(Backend::Wlroots.name(), "wlroots");
    assert_eq!(Backend::Xdp.name(), "xdg-desktop-portal");
    assert_eq!(Backend::X11.name(), "X11");
    assert_eq!(Backend::MacOs.name(), "macos");
    assert_eq!(Backend::Dummy.name(), "dummy");
    let _ = DummyEmulation::new();
}

#[test]
fn modifier_keys_set_and_clear_their_bits() {
    let mut m = XMods::empty();
    assert!(m.update_by_key_event(KEY_LEFTSHIFT, 1));
    assert_eq!(m.bits, 0x01);
    assert!(m.update_by_key_event(KEY_RIGHTCTRL, 1));
    assert_eq!(m.bits, 0x05);
    assert!(m.update_by_key_event(KEY_LEFTSHIFT, 0));
    assert_eq!(m.bits, 0x04);
    assert!(!m.update_by_key_event(KEY_A, 1));
    assert_eq!(m.bits, 0x04);
}

#[test]
fn lock_keys_toggle_on_release() {
    let mut m = XMods::empty();
    assert!(m.update_by_key_event(KEY_CAPSLOCK, 1));
    assert_eq!(m.bits, 0);
    assert!(m.update_by_key_event(KEY_CAPSLOCK, 0));
    assert_eq!(m.bits, 0x02);
    assert!(m.update_by_key_event(KEY_NUMLOCK, 0));
    assert_eq!(m.bits, 0x12);
    assert!(m.update_by_key_event(KEY_CAPSLOCK, 0));
    assert_eq!(m.bits, 0x10);
    assert_eq!(m.mask_locks().bits, 0x10);
    assert_eq!(m.mask_pressed().bits, 0);
}

#[test]
fn modifiers_events_union_depressed_and_locked() {
    let mut m = XMods::empty();
    m.update_by_mods_event(KeyboardEvent::Modifiers { depressed: 0x101, latched: 0x04, locked: 0x02, group: 1 });
    assert_eq!(m.bits, 0x03);
    m.update_by_mods_event(KeyboardEvent::Key { time: 0, key: 42, state: 1 });
    assert_eq!(m.bits, 0x03);
    assert_eq!(XMods::from_bits_truncate(0x1ff).bits, 0xff);
    assert_eq!(XMods::from_bits_or_empty(0x1ff).bits, 0);
    assert_eq!(XMods::from_bits_or_empty(0x41).bits, 0x41);
}

#[test]
fn macos_modifiers_track_caps_lock_as_held() {
    let mut m = XMods::empty();
    assert!(m.update_modifiers(KEY_CAPSLOCK, 1));
    assert_eq!(m.bits, 0x02);
    assert!(m.update_modifiers(KEY_CAPSLOCK, 0));
    assert_eq!(m.bits, 0);
    assert!(!m.update_modifiers(KEY_NUMLOCK, 1));
    m.set_modifiers(0x44, 1, 2, 3);
    assert_eq!(m.bits, 0x44);
    m.set_modifiers(0x100, 0, 0, 0);
    assert_eq!(m.bits, 0);
}

#[test]
fn quartz_flags_of_modifiers() {
    let shift_alt_gr = XMods { bits: 0x01 | 0x80 };
    assert_eq!(to_cgevent_flags(shift_alt_gr), 0x0002_0000 | 0x0008_0000);
    let cmd = XMods { bits: 0x40 };
    assert_eq!(to_cgevent_flags(cmd), 0x0010_0000);
    assert_eq!(modifier_flags_changed_flags(cmd), 0x0010_0000 | 0x100 | 0x08);
    assert_eq!(modifier_flags_changed_flags(shift_alt_gr), 0x0002_0000 | 0x0008_0000 | 0x100 | 0x02 | 0x40);
    assert!(is_arrow_key(0x7B));
    assert!(is_arrow_key(0x7E));
    assert!(!is_arrow_key(0x7F));
    assert_eq!(key_event_flags(0x7C, XMods::empty()), 0x0020_0000 | 0x0080_0000);
    assert_eq!(key_event_flags(0x00, cmd), 0x0010_0000);
}

#[test]
fn x11_emulation_codes() {
    assert_eq!(x11_button_for(BTN_LEFT), 1);
    assert_eq!(x11_button_for(BTN_MIDDLE), 2);
    assert_eq!(x11_button_for(BTN_RIGHT), 3);
    assert_eq!(x11_button_for(BTN_BACK), 8);
    assert_eq!(x11_button_for(BTN_FORWARD), 9);
    assert_eq!(x11_button_for(0x999), 1);
    assert_eq!(x11_scroll_button(0, true), 4);
    assert_eq!(x11_scroll_button(0, false), 5);
    assert_eq!(x11_scroll_button(1, true), 6);
    assert_eq!(x11_scroll_button(1, false), 7);
    assert_eq!(x11_keycode(30), 38);
}

#[test]
fn mac_buttons_count_clicks_of_the_same_button() {
    let mut b = MacButtonState::new();
    let first = b.button_event(BTN_LEFT, 1, false).unwrap();
    assert_eq!(first.event_type, MacMouseEventType::LeftMouseDown);
    assert_eq!(first.mouse_button, MacMouseButton::Left);
    assert_eq!(first.click_state, 1);
    let up = b.button_event(BTN_LEFT, 0, true).unwrap();
    assert_eq!(up.event_type, MacMouseEventType::LeftMouseUp);
    assert_eq!(up.click_state, 1);
    assert_eq!(b.button_event(BTN_LEFT, 1, true).unwrap().click_state, 2);
    assert_eq!(b.motion_event_type(), MacMouseEventType::LeftMouseDragged);
    let back = b.button_event(BTN_BACK, 1, true).unwrap();
    assert_eq!(back.click_state, 1);
    assert_eq!(back.button_number, Some(3));
    assert_eq!(back.event_type, MacMouseEventType::OtherMouseDown);
    assert!(b.button_event(0x200, 1, true).is_none());
    assert!(b.button_event(BTN_LEFT, 2, true).is_none());
    b.button_event(BTN_LEFT, 0, true);
    assert_eq!(b.motion_event_type(), MacMouseEventType::OtherMouseDragged);
    b.button_event(BTN_BACK, 0, true);
    assert_eq!(b.motion_event_type(), MacMouseEventType::MouseMoved);
    b.reset_click_state();
    assert_eq!(b.button_event(BTN_BACK, 1, true).unwrap().click_state, 1);
    assert_eq!(drag_event_type(BTN_RIGHT), MacMouseEventType::RightMouseDragged);
}

#[test]
fn mac_scroll_wheels() {
    assert_eq!(scroll_wheels(0, 7), Some((1, 7, 0, 0)));
    assert_eq!(scroll_wheels(1, -7), Some((2, 0, -7, 0)));
    assert_eq!(scroll_wheels(2, 7), None);
    assert_eq!(discrete_scroll_wheels(0, 120), Some((1, 3, 0, 0)));
    assert_eq!(discrete_scroll_wheels(1, -100), Some((2, 0, -2, 0)));
}

#[test]
fn union_bounds_spans_usable_outputs() {
    let a = OutputInfo { x: 0, y: 0, width: 1920, height: 1080, ..Default::default() };
    let b = OutputInfo {
        x: 0,
        y: 0,
        width: 3840,
        height: 2160,
        logical_x: Some(1920),
        logical_y: Some(-200),
        logical_width: Some(1920),
        logical_height: Some(1080),
    };
    let unusable = OutputInfo { x: -5000, y: -5000, width: 0, height: 10, ..Default::default() };
    assert_eq!(union_bounds(&[a, b, unusable]), Some((3840, 1280)));
    assert_eq!(union_bounds(&[unusable]), None);
    assert_eq!(union_bounds(&[]), None);
}

#[test]
fn handle_keys_filter_repeated_presses_and_releases() {
    let mut keys = HandleKeys::new();
    assert!(!keys.update_pressed_keys(1, KEY_A, 1));
    assert!(keys.create(1));
    assert!(!keys.create(1));
    assert!(keys.update_pressed_keys(1, KEY_A, 1));
    assert!(!keys.update_pressed_keys(1, KEY_A, 1));
    assert!(keys.has_pressed_keys(1));
    assert!(keys.update_pressed_keys(1, KEY_A, 0));
    assert!(!keys.update_pressed_keys(1, KEY_A, 0));
    assert!(!keys.has_pressed_keys(1));
    keys.update_pressed_keys(1, KEY_A, 1);
    keys.update_pressed_keys(1, KEY_LEFTSHIFT, 1);
    let mut released = keys.release_keys(1);
    released.sort();
    assert_eq!(released, vec![KEY_A, KEY_LEFTSHIFT]);
    assert!(!keys.has_pressed_keys(1));
    assert!(keys.release_keys(2).is_empty());
    assert!(keys.destroy(1));
    assert!(!keys.destroy(1));
}

#[test]
fn emulation_errors_and_permissions() {
    assert_eq!(X11EmulationCreationError::OpenDisplay.message(), "could not open display");
    assert_eq!(
        MacOSEmulationCreationError::AccessibilityPermission.message(),
        "accessibility permission is required"
    );
    assert_eq!(
        request_macos_emulation_permissions(false, false),
        Err(MacOSEmulationCreationError::AccessibilityPermission)
    );
    assert_eq!(
        request_macos_emulation_permissions(true, false),
        Err(MacOSEmulationCreationError::InputControlPermission)
    );
    assert_eq!(request_macos_emulation_permissions(true, true), Ok(()));
    assert_eq!(ClipboardError::Access("busy".into()).message(), "Failed to access clipboard: busy");
    assert_eq!(ClipboardError::SetText("denied".into()).message(), "Failed to set clipboard: denied");
}

#[test]
fn wlroots_keyboard_and_scroll() {
    let mut m = XMods::empty();
    assert_eq!(wlroots_key_modifiers(&mut m, KEY_LEFTSHIFT, 1), Some((0x01, 0, 0, 0)));
    assert_eq!(wlroots_key_modifiers(&mut m, KEY_CAPSLOCK, 0), Some((0x01, 0, 0x02, 0)));
    assert_eq!(wlroots_key_modifiers(&mut m, KEY_A, 1), None);
    assert_eq!(wlroots_discrete_scroll(240, false), (240, 2));
    assert_eq!(wlroots_discrete_scroll(130, true), (-130, -1));
}

#[test]
fn inverted_scrolls_change_direction() {
    assert_eq!(
        invert_scroll(PointerEvent::AxisDiscrete120 { axis: 0, value: 120 }),
        PointerEvent::AxisDiscrete120 { axis: 0, value: -120 }
    );
    let smooth = PointerEvent::Axis { time: 3, axis: 1, value_bits: 1.5f64.to_bits() };
    assert_eq!(invert_scroll(smooth), PointerEvent::Axis { time: 3, axis: 1, value_bits: (-1.5f64).to_bits() });
    assert_eq!(invert_scroll(invert_scroll(smooth)), smooth);
    let motion = PointerEvent::Motion { time: 1, dx_bits: 2.0f64.to_bits(), dy_bits: 0 };
    assert_eq!(invert_scroll(motion), motion);
}

#[test]
fn mac_pointer_events_post_and_end_click_sequences() {
    let mut st = MacButtonState::new();
    let press = PointerEvent::Button { time: 0, button: BTN_LEFT, state: 1 };
    match mac_pointer_step(&mut st, &press, false, 0) {
        Some(MacPost::Button(b)) => assert_eq!(b.click_state, 1),
        other => panic!("unexpected {other:?}"),
    }
    // a wheel step scrolls three lines on the vertical wheel
    let wheel = PointerEvent::AxisDiscrete120 { axis: 0, value: 120 };
    assert_eq!(
        mac_pointer_step(&mut st, &wheel, false, 0),
        Some(MacPost::Scroll { unit: MacScrollUnit::Line, count: 1, wheel1: 3, wheel2: 0, wheel3: 0 })
    );
    // a scroll that could not be posted keeps the click sequence going
    match mac_pointer_step(&mut st, &press, true, 0) {
        Some(MacPost::Button(b)) => assert_eq!(b.click_state, 2),
        other => panic!("unexpected {other:?}"),
    }
    // a posted scroll ends it: the next press counts from one
    mac_pointer_step(&mut st, &wheel, false, 0);
    st.posted(&wheel);
    match mac_pointer_step(&mut st, &press, true, 0) {
        Some(MacPost::Button(b)) => assert_eq!(b.click_state, 1),
        other => panic!("unexpected {other:?}"),
    }
    assert_eq!(
        mac_pointer_step(&mut st, &PointerEvent::Axis { time: 0, axis: 1, value_bits: 2.5f64.to_bits() }, false, 2),
        Some(MacPost::Scroll { unit: MacScrollUnit::Pixel, count: 2, wheel1: 0, wheel2: 2, wheel3: 0 })
    );
    assert_eq!(mac_pointer_step(&mut st, &PointerEvent::AxisDiscrete120 { axis: 7, value: 120 }, false, 0), None);
    assert_eq!(
        mac_pointer_step(&mut st, &PointerEvent::Motion { time: 0, dx_bits: 0, dy_bits: 0 }, false, 0),
        Some(MacPost::Motion { event_type: MacMouseEventType::LeftMouseDragged })
    );
}

#[test]
fn released_keys_go_up_then_the_modifiers_clear() {
    let mut keys = HandleKeys::new();
    keys.create(1);
    keys.update_pressed_keys(1, KEY_A, 1);
    let events = keys.release_events(1);
    assert_eq!(
        events,
        vec![
            KeyboardEvent::Key { time: 0, key: KEY_A, state: 0 },
            KeyboardEvent::Modifiers { depressed: 0, latched: 0, locked: 0, group: 0 },
        ]
    );
    assert!(!keys.has_pressed_keys(1));
    // an unknown handle gets only the cleared modifiers
    assert_eq!(
        keys.release_events(9),
        vec![KeyboardEvent::Modifiers { depressed: 0, latched: 0, locked: 0, group: 0 }]
    );
}
