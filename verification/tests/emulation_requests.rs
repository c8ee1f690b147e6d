use lan_mouse::emulation_requests::{ei_request, portal_request, EiRequest, PortalRequest};
use lan_mouse::event::KeyboardEvent;
use lan_mouse::wire::{Event, PointerEvent};

#[test]
fn ei_scrolls_along_the_named_axis() {
    let v = 2.5f64.to_bits();
    assert_eq!(
        ei_request(&Event::Pointer(PointerEvent::Axis { time: 0, axis: 0, value_bits: v })),
        Some(EiRequest::Scroll { x_bits: 0, y_bits: v })
    );
    assert_eq!(
        ei_request(&Event::Pointer(PointerEvent::Axis { time: 0, axis: 1, value_bits: v })),
        Some(EiRequest::Scroll { x_bits: v, y_bits: 0 })
    );
    assert_eq!(
        ei_request(&Event::Pointer(PointerEvent::AxisDiscrete120 { axis: 0, value: -120 })),
        Some(EiRequest::ScrollDiscrete { x: 0, y: -120 })
    );
    assert_eq!(0.0f64.to_bits(), 0);
}

#[test]
fn ei_buttons_and_keys_press_on_any_nonzero_state() {
    assert_eq!(
        ei_request(&Event::Pointer(PointerEvent::Button { time: 0, button: 0x111, state: 2 })),
        Some(EiRequest::Button { button: 0x111, pressed: true })
    );
    assert_eq!(
        ei_request(&Event::Keyboard(KeyboardEvent::Key { time: 0, key: 30, state: 0 })),
        Some(EiRequest::Key { key: 30, pressed: false })
    );
    assert_eq!(
        ei_request(&Event::Keyboard(KeyboardEvent::Modifiers { depressed: 1, latched: 0, locked: 0, group: 0 })),
        None
    );
    assert_eq!(ei_request(&Event::Enter), None);
}

#[test]
fn portal_scrolls_in_whole_steps_toward_zero() {
    assert_eq!(
        portal_request(&Event::Pointer(PointerEvent::AxisDiscrete120 { axis: 0, value: 250 })),
        Some(PortalRequest::PointerAxisDiscrete { vertical: true, steps: 2 })
    );
    assert_eq!(
        portal_request(&Event::Pointer(PointerEvent::AxisDiscrete120 { axis: 1, value: -250 })),
        Some(PortalRequest::PointerAxisDiscrete { vertical: false, steps: -2 })
    );
    assert_eq!(
        portal_request(&Event::Pointer(PointerEvent::AxisDiscrete120 { axis: 0, value: i32::MIN })),
        Some(PortalRequest::PointerAxisDiscrete { vertical: true, steps: i32::MIN / 120 })
    );
}

#[test]
fn portal_keys_and_buttons_use_signed_codes() {
    assert_eq!(
        portal_request(&Event::Keyboard(KeyboardEvent::Key { time: 0, key: 30, state: 1 })),
        Some(PortalRequest::KeyboardKeycode { keycode: 30, pressed: true })
    );
    assert_eq!(
        portal_request(&Event::Pointer(PointerEvent::Button { time: 0, button: 0x110, state: 0 })),
        Some(PortalRequest::PointerButton { button: 0x110, pressed: false })
    );
    let v = (-1.0f64).to_bits();
    assert_eq!(
        portal_request(&Event::Pointer(PointerEvent::Axis { time: 0, axis: 0, value_bits: v })),
        Some(PortalRequest::PointerAxis { dx_bits: 0, dy_bits: v })
    );
}
