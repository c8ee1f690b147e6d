use lan_mouse::capture::{BTN_BACK, BTN_FORWARD, BTN_LEFT, BTN_MIDDLE, BTN_RIGHT};
use lan_mouse::display::DisplayRect;
use lan_mouse::event::KeyboardEvent;
use lan_mouse::windows_hook::{
    display_rect, extended_scan_code, to_key_event, to_mouse_event, HookPointerEvent, HookRequest, HookState,
    WM_KEYDOWN, WM_KEYUP, WM_LBUTTONDOWN, WM_LBUTTONUP, WM_MBUTTONDOWN, WM_MOUSEMOVE, WM_MOUSEWHEEL,
    WM_RBUTTONUP, WM_SYSKEYDOWN, WM_SYSKEYUP, WM_XBUTTONDOWN, WM_XBUTTONUP,
};
use lan_mouse::Position;

fn displays() -> Vec<DisplayRect> {
    vec![display_rect(0, 0, 1920, 1080), display_rect(1920, 0, 1280, 1024)]
}

#[test]
fn mouse_buttons_map_to_evdev_buttons() {
    assert_eq!(
        to_mouse_event(WM_LBUTTONDOWN, (0, 0), 0, (0, 0)),
        Some(HookPointerEvent::Button { button: BTN_LEFT, state: 1 })
    );
    assert_eq!(
        to_mouse_event(WM_LBUTTONUP, (0, 0), 0, (0, 0)),
        Some(HookPointerEvent::Button { button: BTN_LEFT, state: 0 })
    );
    assert_eq!(
        to_mouse_event(WM_MBUTTONDOWN, (0, 0), 0, (0, 0)),
        Some(HookPointerEvent::Button { button: BTN_MIDDLE, state: 1 })
    );
    assert_eq!(
        to_mouse_event(WM_RBUTTONUP, (0, 0), 0, (0, 0)),
        Some(HookPointerEvent::Button { button: BTN_RIGHT, state: 0 })
    );
}

#[test]
fn side_buttons_come_from_the_high_word() {
    assert_eq!(
        to_mouse_event(WM_XBUTTONDOWN, (0, 0), 1 << 16, (0, 0)),
        Some(HookPointerEvent::Button { button: BTN_BACK, state: 1 })
    );
    assert_eq!(
        to_mouse_event(WM_XBUTTONUP, (0, 0), 2 << 16, (0, 0)),
        Some(HookPointerEvent::Button { button: BTN_FORWARD, state: 0 })
    );
    assert_eq!(to_mouse_event(WM_XBUTTONDOWN, (0, 0), 3 << 16, (0, 0)), None);
}

#[test]
fn wheel_delta_is_negated() {
    // one notch away from the user: +120 in the high word
    assert_eq!(
        to_mouse_event(WM_MOUSEWHEEL, (0, 0), 120 << 16, (0, 0)),
        Some(HookPointerEvent::AxisDiscrete120 { axis: 0, value: -120 })
    );
    // one notch toward the user: -120 in the high word
    let toward = ((-120i32) as u32) << 16;
    assert_eq!(
        to_mouse_event(WM_MOUSEWHEEL, (0, 0), toward, (0, 0)),
        Some(HookPointerEvent::AxisDiscrete120 { axis: 0, value: 120 })
    );
}

#[test]
fn motion_is_relative_to_the_entry_point() {
    assert_eq!(
        to_mouse_event(WM_MOUSEMOVE, (105, 98), 0, (100, 100)),
        Some(HookPointerEvent::Motion { dx: 5, dy: -2 })
    );
    assert_eq!(to_mouse_event(0x0001, (0, 0), 0, (0, 0)), None);
}

#[test]
fn extended_keys_get_the_e0_prefix() {
    assert_eq!(extended_scan_code(0x4B, 0x01), 0xE04B);
    assert_eq!(extended_scan_code(0x4B, 0x00), 0x4B);
    assert_eq!(extended_scan_code(0x1D, 0x81), 0xE01D);
}

#[test]
fn key_messages_give_press_and_release() {
    assert_eq!(to_key_event(WM_KEYDOWN, 30), Some(KeyboardEvent::Key { time: 0, key: 30, state: 1 }));
    assert_eq!(to_key_event(WM_SYSKEYDOWN, 56), Some(KeyboardEvent::Key { time: 0, key: 56, state: 1 }));
    assert_eq!(to_key_event(WM_KEYUP, 30), Some(KeyboardEvent::Key { time: 0, key: 30, state: 0 }));
    assert_eq!(to_key_event(WM_SYSKEYUP, 56), Some(KeyboardEvent::Key { time: 0, key: 56, state: 0 }));
    assert_eq!(to_key_event(0x0102, 30), None);
}

#[test]
fn display_rect_spans_its_size() {
    assert_eq!(
        display_rect(-1280, 100, 1280, 1024),
        DisplayRect { left: -1280, right: 0, top: 100, bottom: 1124 }
    );
}

#[test]
fn crossing_into_a_registered_barrier_activates_the_client() {
    let displays = displays();
    let mut state = HookState::new();
    state.update_clients(HookRequest::Create(Position::Left));

    let first = state.mouse_hook(WM_MOUSEMOVE, (10, 500), 0, &displays);
    assert_eq!(first.begin, None);
    assert!(first.pass_on);

    // leaving across the left edge enters the left client; the message
    // itself still reaches the applications
    let crossing = state.mouse_hook(WM_MOUSEMOVE, (-3, 510), 0, &displays);
    assert_eq!(crossing.begin, Some(Position::Left));
    assert!(crossing.pass_on);
    assert_eq!(crossing.forward, None);
    assert_eq!(state.active_client, Some(Position::Left));
    assert_eq!(state.entry_point, (0, 510));

    // from now on events are swallowed and forwarded, relative to the entry
    let motion = state.mouse_hook(WM_MOUSEMOVE, (-10, 515), 0, &displays);
    assert_eq!(motion.begin, None);
    assert!(!motion.pass_on);
    assert_eq!(motion.forward, Some((Position::Left, HookPointerEvent::Motion { dx: -10, dy: 5 })));
    let click = state.mouse_hook(WM_LBUTTONDOWN, (-10, 515), 0, &displays);
    assert_eq!(click.forward, Some((Position::Left, HookPointerEvent::Button { button: BTN_LEFT, state: 1 })));
}

#[test]
fn crossing_without_a_client_activates_nothing() {
    let displays = displays();
    let mut state = HookState::new();
    state.update_clients(HookRequest::Create(Position::Right));
    state.mouse_hook(WM_MOUSEMOVE, (10, 500), 0, &displays);
    let crossing = state.mouse_hook(WM_MOUSEMOVE, (-3, 510), 0, &displays);
    assert_eq!(crossing.begin, None);
    assert!(crossing.pass_on);
    assert_eq!(state.active_client, None);
}

#[test]
fn moving_between_displays_is_no_crossing() {
    let displays = displays();
    let mut state = HookState::new();
    state.update_clients(HookRequest::Create(Position::Right));
    state.mouse_hook(WM_MOUSEMOVE, (1910, 500), 0, &displays);
    let across = state.mouse_hook(WM_MOUSEMOVE, (1930, 500), 0, &displays);
    assert_eq!(across.begin, None);
    assert_eq!(state.active_client, None);
}

#[test]
fn destroying_or_releasing_ends_the_capture() {
    let displays = displays();
    let mut state = HookState::new();
    state.update_clients(HookRequest::Create(Position::Left));
    state.mouse_hook(WM_MOUSEMOVE, (10, 500), 0, &displays);
    state.mouse_hook(WM_MOUSEMOVE, (-3, 510), 0, &displays);
    assert_eq!(state.active_client, Some(Position::Left));
    state.release();
    assert_eq!(state.active_client, None);

    state.mouse_hook(WM_MOUSEMOVE, (10, 500), 0, &displays);
    state.mouse_hook(WM_MOUSEMOVE, (-3, 510), 0, &displays);
    assert_eq!(state.active_client, Some(Position::Left));
    state.update_clients(HookRequest::Destroy(Position::Left));
    assert_eq!(state.active_client, None);
    assert!(!state.clients.left);
}

#[test]
fn keyboard_goes_to_the_active_client_only() {
    let displays = displays();
    let mut state = HookState::new();
    let idle = state.keyboard_hook(WM_KEYDOWN, Some(30));
    assert!(idle.pass_on);
    assert_eq!(idle.forward, None);

    state.update_clients(HookRequest::Create(Position::Left));
    state.mouse_hook(WM_MOUSEMOVE, (10, 500), 0, &displays);
    state.mouse_hook(WM_MOUSEMOVE, (-3, 510), 0, &displays);
    let key = state.keyboard_hook(WM_KEYDOWN, Some(30));
    assert!(!key.pass_on);
    assert_eq!(key.forward, Some((Position::Left, KeyboardEvent::Key { time: 0, key: 30, state: 1 })));
    let unmapped = state.keyboard_hook(WM_KEYDOWN, None);
    assert!(!unmapped.pass_on);
    assert_eq!(unmapped.forward, None);
}
