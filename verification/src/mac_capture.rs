//! The input events that a macOS event tap turns a Quartz event into while
//! capture is active.
use vstd::prelude::*;

use crate::capture::{BTN_BACK, BTN_FORWARD, BTN_LEFT, BTN_MIDDLE, BTN_RIGHT};
use crate::emulation::{
    XMods, CG_FLAG_ALPHA_SHIFT, CG_FLAG_ALTERNATE, CG_FLAG_COMMAND, CG_FLAG_CONTROL, CG_FLAG_SHIFT, CONTROL_MASK,
    LOCK_MASK, MOD1_MASK, MOD4_MASK, SHIFT_MASK,
};
use crate::keymap::{mac_key_to_evdev, mac_to_evdev};

verus! {

/// The Quartz event types the tap handles; all others are `Other`.
#[derive(Clone, Copy, Debug, PartialEq, Eq, Structural)]
pub enum MacEventType {
    KeyDown,
    KeyUp,
    FlagsChanged,
    MouseMoved,
    LeftMouseDragged,
    RightMouseDragged,
    OtherMouseDragged,
    LeftMouseDown,
    LeftMouseUp,
    RightMouseDown,
    RightMouseUp,
    OtherMouseDown,
    OtherMouseUp,
    ScrollWheel,
    Other,
}

/// The integer fields of a Quartz event that the mapping reads.
#[derive(Clone, Copy, Debug, PartialEq, Eq, Structural)]
pub struct MacEventFields {
    pub keycode: i64,
    pub flags: u64,
    pub button_number: i64,
    /// the scroll comes from a continuous (pixel) device
    pub scroll_is_continuous: bool,
    pub point_delta_vertical: i64,
    pub point_delta_horizontal: i64,
    pub line_delta_vertical: i64,
    pub line_delta_horizontal: i64,
}

/// A captured input event; pointer motion carries its deltas as floating
/// point values, which the caller reads from the event.
#[derive(Clone, Copy, Debug, PartialEq, Eq, Structural)]
pub enum CapturedInput {
    Key { key: u32, state: u8 },
    Modifiers { depressed: u32, latched: u32, locked: u32, group: u32 },
    Motion,
    Button { button: u32, state: u32 },
    /// a continuous scroll, in pixels
    Axis { axis: u8, value: i64 },
    /// a line scroll, in 120ths of a wheel step
    AxisDiscrete120 { axis: u8, value: i32 },
}

/// Whether an event type moves the pointer: a plain move or a drag.
pub fn is_pointer_motion_event(t: MacEventType) -> (r: bool)
    ensures
        r == (t == MacEventType::MouseMoved || t == MacEventType::LeftMouseDragged || t
            == MacEventType::RightMouseDragged || t == MacEventType::OtherMouseDragged),
{
    match t {
        MacEventType::MouseMoved | MacEventType::LeftMouseDragged | MacEventType::RightMouseDragged
        | MacEventType::OtherMouseDragged => true,
        _ => false,
    }
}

/// A Mac key code that has no evdev code.
#[derive(Clone, Copy, Debug, PartialEq, Eq, Structural)]
pub struct KeyMapError {
    pub code: i64,
}

/// The evdev key of a Mac key code field.
pub open spec fn spec_map_key(code: i64) -> Option<u32> {
    match mac_to_evdev(code as u16) {
        Some(k) => Some(k as u32),
        None => None,
    }
}

fn map_key(code: i64) -> (r: Option<u32>)
    ensures
        r == spec_map_key(code),
{
    match mac_key_to_evdev(code as u16) {
        Some(k) => Some(k as u32),
        None => None,
    }
}

pub open spec fn has_flag(flags: u64, f: u64) -> bool {
    flags & f == f
}

pub open spec fn bit_if(c: bool, b: u32) -> u32 {
    if c {
        b
    } else {
        0
    }
}

/// The modifiers held according to Quartz flags: shift, control, option
/// (Mod1), command (Mod4) and caps lock.
pub open spec fn flags_depressed(flags: u64) -> u32 {
    bit_if(has_flag(flags, CG_FLAG_SHIFT), SHIFT_MASK) | bit_if(has_flag(flags, CG_FLAG_CONTROL), CONTROL_MASK)
        | bit_if(has_flag(flags, CG_FLAG_ALTERNATE), MOD1_MASK) | bit_if(has_flag(flags, CG_FLAG_COMMAND), MOD4_MASK)
        | bit_if(has_flag(flags, CG_FLAG_ALPHA_SHIFT), LOCK_MASK)
}

/// The locks set according to Quartz flags: caps lock.
pub open spec fn flags_locked(flags: u64) -> u32 {
    bit_if(has_flag(flags, CG_FLAG_ALPHA_SHIFT), LOCK_MASK)
}

/// The evdev button of an "other" mouse button number: 3 back, 4 forward,
/// any other the middle button.
pub open spec fn other_button(n: i64) -> u32 {
    if n == 3 {
        BTN_BACK
    } else if n == 4 {
        BTN_FORWARD
    } else {
        BTN_MIDDLE
    }
}

/// 120ths of a wheel step per scrolled line.
pub const V120_STEPS_PER_LINE: i32 = 40;

/// The scroll events of a continuous (`Axis`) or line (`AxisDiscrete120`)
/// scroll: vertical first, then horizontal, each only when not zero.
pub open spec fn scroll_events(f: MacEventFields) -> Seq<CapturedInput> {
    if f.scroll_is_continuous {
        (if f.point_delta_vertical != 0 {
            seq![CapturedInput::Axis { axis: 0, value: f.point_delta_vertical }]
        } else {
            Seq::empty()
        }) + (if f.point_delta_horizontal != 0 {
            seq![CapturedInput::Axis { axis: 1, value: f.point_delta_horizontal }]
        } else {
            Seq::empty()
        })
    } else {
        (if f.line_delta_vertical != 0 {
            seq![
                CapturedInput::AxisDiscrete120 {
                    axis: 0,
                    value: (V120_STEPS_PER_LINE * (f.line_delta_vertical as i32)) as i32,
                },
            ]
        } else {
            Seq::empty()
        }) + (if f.line_delta_horizontal != 0 {
            seq![
                CapturedInput::AxisDiscrete120 {
                    axis: 1,
                    value: (V120_STEPS_PER_LINE * (f.line_delta_horizontal as i32)) as i32,
                },
            ]
        } else {
            Seq::empty()
        })
    }
}

/// A line delta whose value in 120ths of a step fits in `i32`.
pub open spec fn lines_fit(v: i64) -> bool {
    v != 0 ==> i32::MIN <= V120_STEPS_PER_LINE * (v as i32) <= i32::MAX
}

/// The events of a Quartz event of type `t` with fields `f`, given the
/// modifiers held before (`mods`): `None` when its key code has no evdev
/// code (for a key up or down).
pub open spec fn spec_events(t: MacEventType, f: MacEventFields, mods: XMods) -> Option<Seq<CapturedInput>> {
    spec_events_with_key(t, f, mods, spec_map_key(f.keycode))
}

/// The events of a Quartz event of type `t` with fields `f`, given the
/// modifiers held before (`mods`) and the evdev key that its key code maps
/// to (`key`, `None` where it maps to none): `None` for a key up or down
/// whose key code maps to no key.
pub open spec fn spec_events_with_key(t: MacEventType, f: MacEventFields, mods: XMods, key: Option<u32>) -> Option<
    Seq<CapturedInput>,
> {
    match t {
        MacEventType::KeyDown => match key {
            Some(k) => Some(seq![CapturedInput::Key { key: k, state: 1 }]),
            None => None,
        },
        MacEventType::KeyUp => match key {
            Some(k) => Some(seq![CapturedInput::Key { key: k, state: 0 }]),
            None => None,
        },
        MacEventType::FlagsChanged => {
            let depressed = flags_depressed(f.flags);
            let state: u8 = if depressed > mods.bits {
                1
            } else {
                0
            };
            let modifiers = CapturedInput::Modifiers {
                depressed,
                latched: 0,
                locked: flags_locked(f.flags),
                group: 0,
            };
            Some(
                match key {
                    Some(k) => seq![CapturedInput::Key { key: k, state }, modifiers],
                    None => seq![modifiers],
                },
            )
        },
        MacEventType::MouseMoved | MacEventType::LeftMouseDragged | MacEventType::RightMouseDragged
        | MacEventType::OtherMouseDragged => Some(seq![CapturedInput::Motion]),
        MacEventType::LeftMouseDown => Some(seq![CapturedInput::Button { button: BTN_LEFT, state: 1 }]),
        MacEventType::LeftMouseUp => Some(seq![CapturedInput::Button { button: BTN_LEFT, state: 0 }]),
        MacEventType::RightMouseDown => Some(seq![CapturedInput::Button { button: BTN_RIGHT, state: 1 }]),
        MacEventType::RightMouseUp => Some(seq![CapturedInput::Button { button: BTN_RIGHT, state: 0 }]),
        MacEventType::OtherMouseDown => Some(
            seq![CapturedInput::Button { button: other_button(f.button_number), state: 1 }],
        ),
        MacEventType::OtherMouseUp => Some(
            seq![CapturedInput::Button { button: other_button(f.button_number), state: 0 }],
        ),
        MacEventType::ScrollWheel => Some(scroll_events(f)),
        MacEventType::Other => Some(Seq::empty()),
    }
}

fn flag_bit(flags: u64, f: u64, b: u32) -> (r: u32)
    ensures
        r == bit_if(has_flag(flags, f), b),
{
    if flags & f == f {
        b
    } else {
        0
    }
}

fn other_button_of(n: i64) -> (r: u32)
    ensures
        r == other_button(n),
{
    if n == 3 {
        BTN_BACK
    } else if n == 4 {
        BTN_FORWARD
    } else {
        BTN_MIDDLE
    }
}

/// Turn a Quartz event into input events, given the evdev key that its key
/// code maps to (`key`, `None` where it maps to none). A modifier change
/// also updates the tracked modifier state, and reports its key as pressed
/// when the held modifiers grew and as released otherwise.
pub fn events_with_key(t: MacEventType, f: &MacEventFields, modifier_state: &mut XMods, key: Option<u32>) -> (r: Result<
    Vec<CapturedInput>,
    KeyMapError,
>)
    requires
        t == MacEventType::ScrollWheel && !f.scroll_is_continuous ==> lines_fit(f.line_delta_vertical) && lines_fit(
            f.line_delta_horizontal,
        ),
    ensures
        match spec_events_with_key(t, *f, *old(modifier_state), key) {
            Some(events) => r matches Ok(v) && v@ == events,
            None => r == Err::<Vec<CapturedInput>, KeyMapError>(KeyMapError { code: f.keycode }),
        },
        t == MacEventType::FlagsChanged ==> final(modifier_state).bits == flags_depressed(f.flags),
        t != MacEventType::FlagsChanged ==> *final(modifier_state) == *old(modifier_state),
{
    let mut out: Vec<CapturedInput> = Vec::new();
    match t {
        MacEventType::KeyDown => {
            let k = match key {
                Some(k) => k,
                None => return Err(KeyMapError { code: f.keycode }),
            };
            out.push(CapturedInput::Key { key: k, state: 1 });
        },
        MacEventType::KeyUp => {
            let k = match key {
                Some(k) => k,
                None => return Err(KeyMapError { code: f.keycode }),
            };
            out.push(CapturedInput::Key { key: k, state: 0 });
        },
        MacEventType::FlagsChanged => {
            let depressed = flag_bit(f.flags, CG_FLAG_SHIFT, SHIFT_MASK) | flag_bit(f.flags, CG_FLAG_CONTROL, CONTROL_MASK)
                | flag_bit(f.flags, CG_FLAG_ALTERNATE, MOD1_MASK) | flag_bit(f.flags, CG_FLAG_COMMAND, MOD4_MASK)
                | flag_bit(f.flags, CG_FLAG_ALPHA_SHIFT, LOCK_MASK);
            let locked = flag_bit(f.flags, CG_FLAG_ALPHA_SHIFT, LOCK_MASK);
            let state: u8 = if depressed > modifier_state.bits {
                1
            } else {
                0
            };
            modifier_state.bits = depressed;
            match key {
                Some(k) => out.push(CapturedInput::Key { key: k, state }),
                None => {},
            }
            out.push(CapturedInput::Modifiers { depressed, latched: 0, locked, group: 0 });
        },
        MacEventType::MouseMoved | MacEventType::LeftMouseDragged | MacEventType::RightMouseDragged
        | MacEventType::OtherMouseDragged => {
            out.push(CapturedInput::Motion);
        },
        MacEventType::LeftMouseDown => {
            out.push(CapturedInput::Button { button: BTN_LEFT, state: 1 });
        },
        MacEventType::LeftMouseUp => {
            out.push(CapturedInput::Button { button: BTN_LEFT, state: 0 });
        },
        MacEventType::RightMouseDown => {
            out.push(CapturedInput::Button { button: BTN_RIGHT, state: 1 });
        },
        MacEventType::RightMouseUp => {
            out.push(CapturedInput::Button { button: BTN_RIGHT, state: 0 });
        },
        MacEventType::OtherMouseDown => {
            out.push(CapturedInput::Button { button: other_button_of(f.button_number), state: 1 });
        },
        MacEventType::OtherMouseUp => {
            out.push(CapturedInput::Button { button: other_button_of(f.button_number), state: 0 });
        },
        MacEventType::ScrollWheel => {
            if f.scroll_is_continuous {
                if f.point_delta_vertical != 0 {
                    out.push(CapturedInput::Axis { axis: 0, value: f.point_delta_vertical });
                }
                if f.point_delta_horizontal != 0 {
                    out.push(CapturedInput::Axis { axis: 1, value: f.point_delta_horizontal });
                }
            } else {
                if f.line_delta_vertical != 0 {
                    let v = f.line_delta_vertical as i32;
                    out.push(CapturedInput::AxisDiscrete120 { axis: 0, value: V120_STEPS_PER_LINE * v });
                }
                if f.line_delta_horizontal != 0 {
                    let h = f.line_delta_horizontal as i32;
                    out.push(CapturedInput::AxisDiscrete120 { axis: 1, value: V120_STEPS_PER_LINE * h });
                }
            }
            assert(out@ =~= scroll_events(*f));
        },
        MacEventType::Other => {},
    }
    proof {
        if t != MacEventType::ScrollWheel {
            assert(out@ =~= spec_events_with_key(t, *f, *old(modifier_state), key)->0);
        }
    }
    Ok(out)
}

/// Turn a Quartz event into input events, looking its key code up in the
/// key code table for a key or modifier event. A modifier change also
/// updates the tracked modifier state, and reports its key as pressed when
/// the held modifiers grew and as released otherwise.
pub fn get_events(t: MacEventType, f: &MacEventFields, modifier_state: &mut XMods) -> (r: Result<
    Vec<CapturedInput>,
    KeyMapError,
>)
    requires
        t == MacEventType::ScrollWheel && !f.scroll_is_continuous ==> lines_fit(f.line_delta_vertical) && lines_fit(
            f.line_delta_horizontal,
        ),
    ensures
        match spec_events(t, *f, *old(modifier_state)) {
            Some(events) => r matches Ok(v) && v@ == events,
            None => r == Err::<Vec<CapturedInput>, KeyMapError>(KeyMapError { code: f.keycode }),
        },
        t == MacEventType::FlagsChanged ==> final(modifier_state).bits == flags_depressed(f.flags),
        t != MacEventType::FlagsChanged ==> *final(modifier_state) == *old(modifier_state),
{
    let key = match t {
        MacEventType::KeyDown | MacEventType::KeyUp | MacEventType::FlagsChanged => map_key(f.keycode),
        _ => None,
    };
    events_with_key(t, f, modifier_state, key)
}

/// A Quartz mouse event becomes the evdev button it names: left
/// (0x110), right (0x111), and for "other" buttons back (0x113) for button
/// number 3, forward (0x114) for 4 and middle (0x112) for any other; a Down
/// event is a press (state 1), an Up event a release (state 0); moves and
/// drags are pointer motion. This holds whatever the rest of the event and
/// the held modifiers are.
pub proof fn lemma_mac_mouse_event_table(f: MacEventFields, mods: XMods)
    ensures
        spec_events(MacEventType::LeftMouseDown, f, mods) == Some(seq![CapturedInput::Button { button: 0x110, state: 1 }]),
        spec_events(MacEventType::LeftMouseUp, f, mods) == Some(seq![CapturedInput::Button { button: 0x110, state: 0 }]),
        spec_events(MacEventType::RightMouseDown, f, mods) == Some(seq![CapturedInput::Button { button: 0x111, state: 1 }]),
        spec_events(MacEventType::RightMouseUp, f, mods) == Some(seq![CapturedInput::Button { button: 0x111, state: 0 }]),
        spec_events(MacEventType::OtherMouseDown, f, mods) == Some(
            seq![CapturedInput::Button {
                button: if f.button_number == 3 { 0x113 } else if f.button_number == 4 { 0x114 } else { 0x112 },
                state: 1,
            }],
        ),
        spec_events(MacEventType::OtherMouseUp, f, mods) == Some(
            seq![CapturedInput::Button {
                button: if f.button_number == 3 { 0x113 } else if f.button_number == 4 { 0x114 } else { 0x112 },
                state: 0,
            }],
        ),
        spec_events(MacEventType::MouseMoved, f, mods) == Some(seq![CapturedInput::Motion]),
        spec_events(MacEventType::LeftMouseDragged, f, mods) == Some(seq![CapturedInput::Motion]),
        spec_events(MacEventType::RightMouseDragged, f, mods) == Some(seq![CapturedInput::Motion]),
        spec_events(MacEventType::OtherMouseDragged, f, mods) == Some(seq![CapturedInput::Motion]),
{
}

/// The held modifiers read from Quartz flags: shift (flag 0x2_0000) is
/// X11 Shift (0x01), caps lock (0x1_0000) Lock (0x02), control (0x4_0000)
/// Control (0x04), option (0x8_0000) Mod1 (0x08), command (0x10_0000) Mod4
/// (0x40); no other bit is set, and only caps lock is reported locked.
pub proof fn lemma_quartz_flags_to_modifiers(flags: u64)
    ensures
        (flags_depressed(flags) & 0x01 != 0) == (flags & 0x2_0000 == 0x2_0000),
        (flags_depressed(flags) & 0x02 != 0) == (flags & 0x1_0000 == 0x1_0000),
        (flags_depressed(flags) & 0x04 != 0) == (flags & 0x4_0000 == 0x4_0000),
        (flags_depressed(flags) & 0x08 != 0) == (flags & 0x8_0000 == 0x8_0000),
        (flags_depressed(flags) & 0x40 != 0) == (flags & 0x10_0000 == 0x10_0000),
        flags_depressed(flags) & !0x4fu32 == 0,
        flags_locked(flags) == (if flags & 0x1_0000 == 0x1_0000 { 0x02u32 } else { 0u32 }),
{
    let a = flags & 0x2_0000 == 0x2_0000;
    let b = flags & 0x4_0000 == 0x4_0000;
    let c = flags & 0x8_0000 == 0x8_0000;
    let d = flags & 0x10_0000 == 0x10_0000;
    let e = flags & 0x1_0000 == 0x1_0000;
    let v: u32 = (if a { 1u32 } else { 0u32 }) | (if b { 4u32 } else { 0u32 }) | (if c { 8u32 } else { 0u32 }) | (if d {
        0x40u32
    } else {
        0u32
    }) | (if e { 2u32 } else { 0u32 });
    assert(flags_depressed(flags) == v);
    assert((v & 0x01 != 0) == a && (v & 0x02 != 0) == e && (v & 0x04 != 0) == b && (v & 0x08 != 0) == c && (v & 0x40
        != 0) == d && v & !0x4fu32 == 0) by (bit_vector)
        requires
            v == (if a { 1u32 } else { 0u32 }) | (if b { 4u32 } else { 0u32 }) | (if c { 8u32 } else { 0u32 }) | (if d {
                0x40u32
            } else {
                0u32
            }) | (if e { 2u32 } else { 0u32 }),
    ;
}

} // verus!
