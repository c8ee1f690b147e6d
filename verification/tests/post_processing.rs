use lan_mouse::emulation::invert_scroll;
use lan_mouse::wire::{Event, PointerEvent};

/// The settings applied to emulated pointer events.
#[derive(Clone, Copy)]
struct InputConfig {
    mouse_sensitivity: f64,
    invert_scroll: bool,
}

impl Default for InputConfig {
    fn default() -> Self {
        InputConfig { mouse_sensitivity: 1.0, invert_scroll: false }
    }
}

/// Motion scaled by the sensitivity (a floating-point product), scrolling
/// inverted by the library when asked.
fn post_process_event(event: Event, config: InputConfig) -> Event {
    match event {
        Event::Pointer(PointerEvent::Motion { time, dx_bits, dy_bits }) => Event::Pointer(PointerEvent::Motion {
            time,
            dx_bits: (f64::from_bits(dx_bits) * config.mouse_sensitivity).to_bits(),
            dy_bits: (f64::from_bits(dy_bits) * config.mouse_sensitivity).to_bits(),
        }),
        Event::Pointer(e @ (PointerEvent::Axis { .. } | PointerEvent::AxisDiscrete120 { .. })) if config.invert_scroll => {
            Event::Pointer(invert_scroll(e))
        }
        other => other,
    }
}

#[test]
fn post_processing_scales_pointer_motion() {
    let event = Event::Pointer(PointerEvent::Motion { time: 42, dx_bits: 3.0f64.to_bits(), dy_bits: (-4.0f64).to_bits() });
    let config = InputConfig { mouse_sensitivity: 1.5, ..Default::default() };
    assert_eq!(
        post_process_event(event, config),
        Event::Pointer(PointerEvent::Motion { time: 42, dx_bits: 4.5f64.to_bits(), dy_bits: (-6.0f64).to_bits() })
    );
}

#[test]
fn post_processing_inverts_continuous_and_discrete_scrolling() {
    let config = InputConfig { invert_scroll: true, ..Default::default() };
    assert_eq!(
        post_process_event(Event::Pointer(PointerEvent::Axis { time: 7, axis: 0, value_bits: 2.5f64.to_bits() }), config),
        Event::Pointer(PointerEvent::Axis { time: 7, axis: 0, value_bits: (-2.5f64).to_bits() })
    );
    assert_eq!(
        post_process_event(Event::Pointer(PointerEvent::AxisDiscrete120 { axis: 1, value: 120 }), config),
        Event::Pointer(PointerEvent::AxisDiscrete120 { axis: 1, value: -120 })
    );
}

#[test]
fn post_processing_leaves_other_events_unchanged() {
    let event = Event::Pointer(PointerEvent::Button { time: 5, button: 0x110, state: 1 });
    assert_eq!(post_process_event(event, InputConfig { invert_scroll: true, mouse_sensitivity: 2.0 }), event);
}
