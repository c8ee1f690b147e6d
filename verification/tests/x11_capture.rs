use lan_mouse::capture::{clamp_to_screen, crossed_boundary, x11_button_to_evdev, BTN_LEFT, BTN_MIDDLE, BTN_RIGHT};
use lan_mouse::event::KeyboardEvent;
use lan_mouse::wire::{Event, PointerEvent};
use lan_mouse::x11_capture::{x11_keycode_to_evdev, X11CaptureState, X11Input, X11Request, X11RequestAction};
use lan_mouse::Position;

#[test]
fn crosses_left_boundary() {
    assert_eq!(crossed_boundary((5, 100), (-1, 100), 1920, 1080), Some(Position::Left));
}

#[test]
fn crosses_right_boundary() {
    assert_eq!(crossed_boundary((1915, 100), (1919, 100), 1920, 1080), Some(Position::Right));
}

#[test]
fn crosses_top_boundary() {
    assert_eq!(crossed_boundary((100, 5), (100, -1), 1920, 1080), Some(Position::Top));
}

#[test]
fn crosses_bottom_boundary() {
    assert_eq!(crossed_boundary((100, 1075), (100, 1079), 1920, 1080), Some(Position::Bottom));
}

#[test]
fn no_crossing_interior_movement() {
    assert_eq!(crossed_boundary((100, 100), (200, 200), 1920, 1080), None);
}

#[test]
fn no_crossing_already_at_left_edge() {
    assert_eq!(crossed_boundary((0, 100), (0, 100), 1920, 1080), None);
}

#[test]
fn no_crossing_already_at_right_edge() {
    assert_eq!(crossed_boundary((1919, 100), (1919, 100), 1920, 1080), None);
}

#[test]
fn clamp_within_bounds_is_identity() {
    assert_eq!(clamp_to_screen((500, 300), 1920, 1080), (500, 300));
}

#[test]
fn clamp_negative_coords() {
    assert_eq!(clamp_to_screen((-10, -5), 1920, 1080), (0, 0));
}

#[test]
fn clamp_over_right_bottom_edge() {
    assert_eq!(clamp_to_screen((2000, 1200), 1920, 1080), (1919, 1079));
}

#[test]
fn left_button_maps_to_btn_left() {
    assert_eq!(x11_button_to_evdev(1), Some(BTN_LEFT));
}

#[test]
fn right_button_maps_to_btn_right() {
    assert_eq!(x11_button_to_evdev(3), Some(BTN_RIGHT));
}

#[test]
fn unknown_button_returns_none() {
    assert_eq!(x11_button_to_evdev(8), None);
}

#[test]
fn middle_button_maps_to_btn_middle() {
    assert_eq!(x11_button_to_evdev(2), Some(BTN_MIDDLE));
    assert_eq!(BTN_LEFT, 0x110);
    assert_eq!(BTN_RIGHT, 0x111);
    assert_eq!(BTN_MIDDLE, 0x112);
}

#[test]
fn crossing_left_is_checked_before_the_other_edges() {
    // a diagonal move into the top-left corner reports the left edge
    assert_eq!(crossed_boundary((5, 5), (-1, -1), 1920, 1080), Some(Position::Left));
    // a diagonal move into the bottom-right corner reports the right edge
    assert_eq!(crossed_boundary((1900, 1070), (1919, 1079), 1920, 1080), Some(Position::Right));
}

#[test]
fn pointer_poll_grabs_only_for_positions_with_a_client() {
    let mut state = X11CaptureState::new(1920, 1080);
    state.prev_pos = (5, 100);
    assert_eq!(state.pointer_polled((-3, 100)), None);
    assert_eq!(state.prev_pos, (-3, 100));

    assert_eq!(state.handle_request(X11Request::Create(Position::Left)), X11RequestAction::Nothing);
    state.prev_pos = (5, 100);
    assert_eq!(state.pointer_polled((-3, 100)), Some((Position::Left, (0, 100))));
    state.grabbed(Position::Left, (0, 100));
    assert_eq!(state.active_client, Some(Position::Left));
    assert_eq!(state.motion_delta((0, 100)), None);
    assert_eq!(state.motion_delta((7, 95)), Some((7, -5)));
}

#[test]
fn destroying_the_active_client_releases_the_grab() {
    let mut state = X11CaptureState::new(1920, 1080);
    state.handle_request(X11Request::Create(Position::Right));
    state.handle_request(X11Request::Create(Position::Top));
    state.grabbed(Position::Right, (1919, 10));
    assert_eq!(state.handle_request(X11Request::Destroy(Position::Top)), X11RequestAction::Nothing);
    assert_eq!(state.active_client, Some(Position::Right));
    assert_eq!(state.handle_request(X11Request::Destroy(Position::Right)), X11RequestAction::Ungrab);
    assert_eq!(state.active_client, None);
    assert!(!state.clients.contains(Position::Right));
    assert_eq!(state.handle_request(X11Request::Release), X11RequestAction::Ungrab);
    assert_eq!(state.handle_request(X11Request::Terminate), X11RequestAction::Terminate);
}

#[test]
fn x11_keycodes_are_shifted_by_eight() {
    assert_eq!(x11_keycode_to_evdev(38), 30);
    assert_eq!(x11_keycode_to_evdev(8), 0);
    assert_eq!(x11_keycode_to_evdev(3), 0);
}

#[test]
fn grabbed_buttons_and_keys_go_to_the_active_client() {
    let mut state = X11CaptureState::new(1920, 1080);
    assert_eq!(state.input_event(X11Input::KeyPress(38)), None);
    state.grabbed(Position::Left, (0, 500));
    assert_eq!(
        state.input_event(X11Input::KeyPress(38)),
        Some((Position::Left, Event::Keyboard(KeyboardEvent::Key { time: 0, key: 30, state: 1 })))
    );
    assert_eq!(
        state.input_event(X11Input::KeyRelease(3)),
        Some((Position::Left, Event::Keyboard(KeyboardEvent::Key { time: 0, key: 0, state: 0 })))
    );
    assert_eq!(
        state.input_event(X11Input::ButtonPress(3)),
        Some((Position::Left, Event::Pointer(PointerEvent::Button { time: 0, button: 0x111, state: 1 })))
    );
    assert_eq!(state.input_event(X11Input::ButtonRelease(4)), None);
}
