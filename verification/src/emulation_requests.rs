//! What the libei and the remote-desktop portal emulation backends send for
//! an event: the request, with its arguments. Doubles are carried by their
//! bit patterns, as in the wire format; zero is the bit pattern of `0.0`.
use vstd::prelude::*;

use crate::emulation::div_toward_zero;
use crate::event::KeyboardEvent;
use crate::wire::{Event, PointerEvent};

verus! {

/// A request to an ei device; each is followed by a frame.
#[derive(Clone, Copy, Debug, PartialEq, Eq, Structural)]
pub enum EiRequest {
    /// relative motion of the pointer device
    Motion { dx_bits: u64, dy_bits: u64 },
    Button { button: u32, pressed: bool },
    /// smooth scroll of `(x, y)`
    Scroll { x_bits: u64, y_bits: u64 },
    /// discrete scroll of `(x, y)`, in 120ths of a step
    ScrollDiscrete { x: i32, y: i32 },
    Key { key: u32, pressed: bool },
}

/// The ei request of an event: axis 0 scrolls vertically, any other axis
/// horizontally; a state of 0 is a release and any other a press. Modifier
/// changes and the events that carry no input send nothing.
pub open spec fn spec_ei_request(e: Event) -> Option<EiRequest> {
    match e {
        Event::Pointer(PointerEvent::Motion { dx_bits, dy_bits, .. }) => Some(EiRequest::Motion { dx_bits, dy_bits }),
        Event::Pointer(PointerEvent::Button { button, state, .. }) => Some(
            EiRequest::Button { button, pressed: state != 0 },
        ),
        Event::Pointer(PointerEvent::Axis { axis, value_bits, .. }) => Some(
            if axis == 0 {
                EiRequest::Scroll { x_bits: 0, y_bits: value_bits }
            } else {
                EiRequest::Scroll { x_bits: value_bits, y_bits: 0 }
            },
        ),
        Event::Pointer(PointerEvent::AxisDiscrete120 { axis, value }) => Some(
            if axis == 0 {
                EiRequest::ScrollDiscrete { x: 0, y: value }
            } else {
                EiRequest::ScrollDiscrete { x: value, y: 0 }
            },
        ),
        Event::Keyboard(KeyboardEvent::Key { key, state, .. }) => Some(EiRequest::Key { key, pressed: state != 0 }),
        _ => None,
    }
}

/// The request the libei emulation sends for `e`, if any.
pub fn ei_request(e: &Event) -> (r: Option<EiRequest>)
    ensures
        r == spec_ei_request(*e),
{
    match e {
        Event::Pointer(PointerEvent::Motion { dx_bits, dy_bits, .. }) => Some(
            EiRequest::Motion { dx_bits: *dx_bits, dy_bits: *dy_bits },
        ),
        Event::Pointer(PointerEvent::Button { button, state, .. }) => Some(
            EiRequest::Button { button: *button, pressed: *state != 0 },
        ),
        Event::Pointer(PointerEvent::Axis { axis, value_bits, .. }) => Some(
            if *axis == 0 {
                EiRequest::Scroll { x_bits: 0, y_bits: *value_bits }
            } else {
                EiRequest::Scroll { x_bits: *value_bits, y_bits: 0 }
            },
        ),
        Event::Pointer(PointerEvent::AxisDiscrete120 { axis, value }) => Some(
            if *axis == 0 {
                EiRequest::ScrollDiscrete { x: 0, y: *value }
            } else {
                EiRequest::ScrollDiscrete { x: *value, y: 0 }
            },
        ),
        Event::Keyboard(KeyboardEvent::Key { key, state, .. }) => Some(
            EiRequest::Key { key: *key, pressed: *state != 0 },
        ),
        _ => None,
    }
}

/// A notification to the remote-desktop portal.
#[derive(Clone, Copy, Debug, PartialEq, Eq, Structural)]
pub enum PortalRequest {
    PointerMotion { dx_bits: u64, dy_bits: u64 },
    PointerButton { button: i32, pressed: bool },
    /// whole scroll steps along the vertical or the horizontal axis
    PointerAxisDiscrete { vertical: bool, steps: i32 },
    /// a smooth scroll of `(dx, dy)` that finishes the scroll
    PointerAxis { dx_bits: u64, dy_bits: u64 },
    KeyboardKeycode { keycode: i32, pressed: bool },
}

/// The portal notification of an event: buttons and keys as the portal's
/// signed codes, discrete scrolls in whole steps (rounded toward zero),
/// smooth scrolls with the other axis zero.
pub open spec fn spec_portal_request(e: Event) -> Option<PortalRequest> {
    match e {
        Event::Pointer(PointerEvent::Motion { dx_bits, dy_bits, .. }) => Some(
            PortalRequest::PointerMotion { dx_bits, dy_bits },
        ),
        Event::Pointer(PointerEvent::Button { button, state, .. }) => Some(
            PortalRequest::PointerButton { button: button as i32, pressed: state != 0 },
        ),
        Event::Pointer(PointerEvent::AxisDiscrete120 { axis, value }) => Some(
            PortalRequest::PointerAxisDiscrete { vertical: axis == 0, steps: div_toward_zero(value as int, 120) as i32 },
        ),
        Event::Pointer(PointerEvent::Axis { axis, value_bits, .. }) => Some(
            if axis == 0 {
                PortalRequest::PointerAxis { dx_bits: 0, dy_bits: value_bits }
            } else {
                PortalRequest::PointerAxis { dx_bits: value_bits, dy_bits: 0 }
            },
        ),
        Event::Keyboard(KeyboardEvent::Key { key, state, .. }) => Some(
            PortalRequest::KeyboardKeycode { keycode: key as i32, pressed: state != 0 },
        ),
        _ => None,
    }
}

/// The notification the portal emulation sends for `e`, if any.
pub fn portal_request(e: &Event) -> (r: Option<PortalRequest>)
    ensures
        r == spec_portal_request(*e),
{
    match e {
        Event::Pointer(PointerEvent::Motion { dx_bits, dy_bits, .. }) => Some(
            PortalRequest::PointerMotion { dx_bits: *dx_bits, dy_bits: *dy_bits },
        ),
        Event::Pointer(PointerEvent::Button { button, state, .. }) => Some(
            PortalRequest::PointerButton { button: *button as i32, pressed: *state != 0 },
        ),
        Event::Pointer(PointerEvent::AxisDiscrete120 { axis, value }) => {
            let v: i32 = *value;
            let steps: i32 = if v >= 0 {
                v / 120
            } else {
                -((-(v as i64) / 120) as i32)
            };
            Some(PortalRequest::PointerAxisDiscrete { vertical: *axis == 0, steps })
        },
        Event::Pointer(PointerEvent::Axis { axis, value_bits, .. }) => Some(
            if *axis == 0 {
                PortalRequest::PointerAxis { dx_bits: 0, dy_bits: *value_bits }
            } else {
                PortalRequest::PointerAxis { dx_bits: *value_bits, dy_bits: 0 }
            },
        ),
        Event::Keyboard(KeyboardEvent::Key { key, state, .. }) => Some(
            PortalRequest::KeyboardKeycode { keycode: *key as i32, pressed: *state != 0 },
        ),
        _ => None,
    }
}

} // verus!
