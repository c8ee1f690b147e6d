//! Decisions of input emulation that do not depend on a display server:
//! backends, scroll accumulation, modifier state and per-handle key state.
use std::collections::{HashMap, HashSet};
use vstd::prelude::*;

use crate::capture::{BTN_BACK, BTN_FORWARD, BTN_LEFT, BTN_MIDDLE, BTN_RIGHT};
use crate::event::KeyboardEvent;
use crate::text::push_str;
use crate::wire::PointerEvent;

verus! {

/// An input emulation backend.
#[derive(Clone, Copy, Debug, PartialEq, Eq, Structural)]
pub enum Backend {
    Wlroots,
    Libei,
    Xdp,
    X11,
    Windows,
    MacOs,
    Dummy,
}

pub open spec fn spec_backend_name(b: Backend) -> Seq<char> {
    match b {
        Backend::Wlroots => "wlroots"@,
        Backend::Libei => "libei"@,
        Backend::Xdp => "xdg-desktop-portal"@,
        Backend::X11 => "X11"@,
        Backend::Windows => "windows"@,
        Backend::MacOs => "macos"@,
        Backend::Dummy => "dummy"@,
    }
}

impl Backend {
    /// The backend's name, as it is shown to the user.
    pub fn name(&self) -> (r: &'static str)
        ensures
            r@ == spec_backend_name(*self),
    {
        match self {
            Backend::Wlroots => "wlroots",
            Backend::Libei => "libei",
            Backend::Xdp => "xdg-desktop-portal",
            Backend::X11 => "X11",
            Backend::Windows => "windows",
            Backend::MacOs => "macos",
            Backend::Dummy => "dummy",
        }
    }
}

/// The fallback emulation: it only logs what it receives.
#[derive(Debug, Default)]
pub struct DummyEmulation {}

impl DummyEmulation {
    pub fn new() -> (r: DummyEmulation)
        ensures
            r == (DummyEmulation {}),
    {
        DummyEmulation {}
    }
}

/// `a / 120` rounded toward zero.
pub open spec fn steps_of(a: int) -> int {
    if a >= 0 {
        a / 120
    } else {
        -((-a) / 120)
    }
}

/// Accumulates high-resolution scroll deltas into whole 120-unit steps.
///
/// A classic wheel emits exactly +/-120 per detent and several backends act
/// only on whole steps; a high-resolution wheel reports fractions (16, 24, ...)
/// that would each truncate to nothing. Keeping the remainder restores one
/// step per 120 units received.
#[derive(Debug)]
pub struct Scroll120Accumulator {
    vertical: i32,
    horizontal: i32,
}

impl Default for Scroll120Accumulator {
    /// Nothing is accumulated yet.
    fn default() -> (r: Scroll120Accumulator)
        ensures
            forall|axis: u8| #[trigger] r.pending(axis) == 0,
    {
        Scroll120Accumulator { vertical: 0, horizontal: 0 }
    }
}

impl Scroll120Accumulator {
    /// The sub-step remainder kept for `axis` (0 is vertical, any other horizontal).
    pub closed spec fn pending(self, axis: u8) -> int {
        if axis == 0 {
            self.vertical as int
        } else {
            self.horizontal as int
        }
    }

    /// Nothing is accumulated yet.
    pub fn new() -> (r: Scroll120Accumulator)
        ensures
            forall|axis: u8| #[trigger] r.pending(axis) == 0,
    {
        Scroll120Accumulator { vertical: 0, horizontal: 0 }
    }

    /// Add `value` to the running total of `axis` and return the whole
    /// 120-unit steps to emit now, keeping the remainder for the next event.
    /// Steps round toward zero, so the remainder keeps the sign of the total
    /// and a change of direction cancels rather than latches.
    pub fn accumulate(&mut self, axis: u8, value: i32) -> (steps: i32)
        requires
            i32::MIN <= old(self).pending(axis) + value <= i32::MAX,
        ensures
            steps == steps_of(old(self).pending(axis) + value),
            final(self).pending(axis) == old(self).pending(axis) + value - 120 * steps,
            forall|other: u8| (other == 0) != (axis == 0) ==> #[trigger] final(self).pending(other) == old(self).pending(other),
    {
        let acc: i32 = if axis == 0 {
            self.vertical + value
        } else {
            self.horizontal + value
        };
        let steps: i32 = if acc >= 0 {
            acc / 120
        } else {
            -(((-(acc as i64)) / 120) as i32)
        };
        let rest: i32 = acc - steps * 120;
        if axis == 0 {
            self.vertical = rest;
        } else {
            self.horizontal = rest;
        }
        steps
    }
}

/// What is left of a scroll total once its whole steps are taken: less than
/// one step, with the sign of the total.
pub proof fn lemma_scroll_remainder(total: int)
    ensures
        -120 < total - 120 * steps_of(total) < 120,
        total >= 0 ==> total - 120 * steps_of(total) >= 0,
        total <= 0 ==> total - 120 * steps_of(total) <= 0,
{
}

/// X11 modifier bits, from X11/X.h.
#[derive(Clone, Copy, Debug, Default, PartialEq, Eq, Structural)]
pub struct XMods {
    pub bits: u32,
}

pub const SHIFT_MASK: u32 = 0x01;
pub const LOCK_MASK: u32 = 0x02;
pub const CONTROL_MASK: u32 = 0x04;
pub const MOD1_MASK: u32 = 0x08;
pub const MOD2_MASK: u32 = 0x10;
pub const MOD3_MASK: u32 = 0x20;
pub const MOD4_MASK: u32 = 0x40;
pub const MOD5_MASK: u32 = 0x80;
/// Every defined modifier bit.
pub const ALL_MODS: u32 = 0xff;

/// evdev key codes of the modifier and lock keys.
pub const KEY_LEFTCTRL: u32 = 29;
pub const KEY_LEFTSHIFT: u32 = 42;
pub const KEY_RIGHTSHIFT: u32 = 54;
pub const KEY_LEFTALT: u32 = 56;
pub const KEY_CAPSLOCK: u32 = 58;
pub const KEY_NUMLOCK: u32 = 69;
pub const KEY_SCROLLLOCK: u32 = 70;
pub const KEY_RIGHTCTRL: u32 = 97;
pub const KEY_RIGHTALT: u32 = 100;
pub const KEY_LEFTMETA: u32 = 125;
pub const KEY_RIGHTMETA: u32 = 126;

/// The modifier held while `key` is down: shift, control, alt (Mod1) or
/// meta (Mod4), left and right alike.
pub open spec fn pressed_mask(key: u32) -> u32 {
    if key == KEY_LEFTSHIFT || key == KEY_RIGHTSHIFT {
        SHIFT_MASK
    } else if key == KEY_LEFTCTRL || key == KEY_RIGHTCTRL {
        CONTROL_MASK
    } else if key == KEY_LEFTALT || key == KEY_RIGHTALT {
        MOD1_MASK
    } else if key == KEY_LEFTMETA || key == KEY_RIGHTMETA {
        MOD4_MASK
    } else {
        0
    }
}

/// The lock toggled when `key` is released: caps (Lock), num (Mod2) or
/// scroll (Mod3).
pub open spec fn locked_mask(key: u32) -> u32 {
    if key == KEY_CAPSLOCK {
        LOCK_MASK
    } else if key == KEY_NUMLOCK {
        MOD2_MASK
    } else if key == KEY_SCROLLLOCK {
        MOD3_MASK
    } else {
        0
    }
}

fn pressed_mask_of(key: u32) -> (r: u32)
    ensures
        r == pressed_mask(key),
{
    if key == KEY_LEFTSHIFT || key == KEY_RIGHTSHIFT {
        SHIFT_MASK
    } else if key == KEY_LEFTCTRL || key == KEY_RIGHTCTRL {
        CONTROL_MASK
    } else if key == KEY_LEFTALT || key == KEY_RIGHTALT {
        MOD1_MASK
    } else if key == KEY_LEFTMETA || key == KEY_RIGHTMETA {
        MOD4_MASK
    } else {
        0
    }
}

fn locked_mask_of(key: u32) -> (r: u32)
    ensures
        r == locked_mask(key),
{
    if key == KEY_CAPSLOCK {
        LOCK_MASK
    } else if key == KEY_NUMLOCK {
        MOD2_MASK
    } else if key == KEY_SCROLLLOCK {
        MOD3_MASK
    } else {
        0
    }
}

/// The modifier that the macOS backend tracks for `key`: shift, caps lock,
/// control, alt or meta; caps lock is held like the others there.
pub open spec fn mac_modifier_mask(key: u32) -> u32 {
    if key == KEY_CAPSLOCK {
        LOCK_MASK
    } else {
        pressed_mask(key)
    }
}

impl XMods {
    pub fn empty() -> (r: XMods)
        ensures
            r.bits == 0,
    {
        XMods { bits: 0 }
    }

    /// The defined bits of `bits`; the others are dropped.
    pub fn from_bits_truncate(bits: u32) -> (r: XMods)
        ensures
            r.bits == bits & ALL_MODS,
    {
        XMods { bits: bits & ALL_MODS }
    }

    /// `bits` when it sets only defined bits, else no modifier at all.
    pub fn from_bits_or_empty(bits: u32) -> (r: XMods)
        ensures
            r.bits == if bits & !ALL_MODS == 0 {
                bits
            } else {
                0
            },
    {
        if bits & !ALL_MODS == 0 {
            XMods { bits }
        } else {
            XMods { bits: 0 }
        }
    }

    /// Whether every bit of `mask` is set.
    pub fn contains(&self, mask: u32) -> (r: bool)
        ensures
            r == (self.bits & mask == mask),
    {
        self.bits & mask == mask
    }

    /// Take the modifier state of a wholesale modifiers event: the union of
    /// its depressed and locked modifiers. Key events change nothing.
    pub fn update_by_mods_event(&mut self, evt: KeyboardEvent)
        ensures
            match evt {
                KeyboardEvent::Modifiers { depressed, locked, .. } => final(self).bits == (depressed & ALL_MODS) | (
                locked & ALL_MODS),
                KeyboardEvent::Key { .. } => *final(self) == *old(self),
            },
    {
        if let KeyboardEvent::Modifiers { depressed, locked, .. } = evt {
            self.bits = (depressed & ALL_MODS) | (locked & ALL_MODS);
        }
    }

    /// Track a key event: a modifier key sets its bit when pressed and clears
    /// it when released; a lock key toggles its bit when released. Returns
    /// whether `key` is a modifier or lock key; other keys change nothing.
    pub fn update_by_key_event(&mut self, key: u32, state: u8) -> (r: bool)
        ensures
            r == (pressed_mask(key) != 0 || locked_mask(key) != 0),
            !r ==> final(self).bits == old(self).bits,
            r && state == 1 ==> final(self).bits == old(self).bits | pressed_mask(key),
            r && state != 1 ==> final(self).bits == (old(self).bits & !pressed_mask(key)) ^ locked_mask(key),
    {
        let pressed = pressed_mask_of(key);
        let locked = locked_mask_of(key);
        if pressed == 0 && locked == 0 {
            return false;
        }
        if state == 1 {
            self.bits = self.bits | pressed;
        } else {
            self.bits = (self.bits & !pressed) ^ locked;
        }
        true
    }

    /// The lock modifiers: caps, num and scroll lock.
    pub fn mask_locks(&self) -> (r: XMods)
        ensures
            r.bits == self.bits & (LOCK_MASK | MOD2_MASK | MOD3_MASK),
    {
        XMods { bits: self.bits & (LOCK_MASK | MOD2_MASK | MOD3_MASK) }
    }

    /// The held modifiers: shift, control, alt and meta.
    pub fn mask_pressed(&self) -> (r: XMods)
        ensures
            r.bits == self.bits & (SHIFT_MASK | CONTROL_MASK | MOD1_MASK | MOD4_MASK),
    {
        XMods { bits: self.bits & (SHIFT_MASK | CONTROL_MASK | MOD1_MASK | MOD4_MASK) }
    }

    /// Track a key event as the macOS backend does: a modifier key (caps
    /// lock among them) sets its bit when pressed and clears it otherwise.
    /// Returns whether `key` is such a key; other keys change nothing.
    pub fn update_modifiers(&mut self, key: u32, state: u8) -> (r: bool)
        ensures
            r == (mac_modifier_mask(key) != 0),
            !r ==> final(self).bits == old(self).bits,
            r && state == 1 ==> final(self).bits == old(self).bits | mac_modifier_mask(key),
            r && state != 1 ==> final(self).bits == old(self).bits & !mac_modifier_mask(key),
    {
        let mask = if key == KEY_CAPSLOCK {
            LOCK_MASK
        } else {
            pressed_mask_of(key)
        };
        if mask == 0 {
            return false;
        }
        if state == 1 {
            self.bits = self.bits | mask;
        } else {
            self.bits = self.bits & !mask;
        }
        true
    }

    /// Take the depressed modifiers of a wholesale modifiers event, as the
    /// macOS backend does; a value with undefined bits counts as none.
    pub fn set_modifiers(&mut self, depressed: u32, latched: u32, locked: u32, group: u32)
        ensures
            final(self).bits == if depressed & !ALL_MODS == 0 {
                depressed
            } else {
                0
            },
    {
        *self = XMods::from_bits_or_empty(depressed);
    }
}

/// Pressing and releasing a modifier key leaves its bit clear and every
/// other bit as it was; so a press and release of a modifier that was not
/// held restores the modifier state.
pub proof fn lemma_modifier_press_release(bits: u32, key: u32)
    requires
        pressed_mask(key) != 0,
    ensures
        ((bits | pressed_mask(key)) & !pressed_mask(key)) ^ locked_mask(key) == bits & !pressed_mask(key),
        bits & pressed_mask(key) == 0 ==> ((bits | pressed_mask(key)) & !pressed_mask(key)) ^ locked_mask(key) == bits,
{
    let m = pressed_mask(key);
    assert(locked_mask(key) == 0);
    assert(m == 1 || m == 4 || m == 8 || m == 64);
    assert(((bits | m) & !m) ^ 0u32 == bits & !m) by (bit_vector);
    assert(bits & m == 0 ==> bits & !m == bits) by (bit_vector);
}

/// A lock key toggles its lock on every release: two presses and releases
/// restore the modifier state.
pub proof fn lemma_lock_toggles_twice(bits: u32, key: u32)
    requires
        locked_mask(key) != 0,
    ensures
        ({
            let once = ((bits | pressed_mask(key)) & !pressed_mask(key)) ^ locked_mask(key);
            let twice = ((once | pressed_mask(key)) & !pressed_mask(key)) ^ locked_mask(key);
            &&& once & locked_mask(key) != bits & locked_mask(key)
            &&& twice == bits
        }),
{
    let l = locked_mask(key);
    assert(pressed_mask(key) == 0);
    assert(l == 2 || l == 16 || l == 32);
    assert((((bits | 0u32) & !0u32) ^ l) & l != bits & l) by (bit_vector)
        requires
            l == 2 || l == 16 || l == 32,
    ;
    assert((((((bits | 0u32) & !0u32) ^ l) | 0u32) & !0u32) ^ l == bits) by (bit_vector);
}

/// Quartz event flag bits (CGEventFlags).
pub const CG_FLAG_ALPHA_SHIFT: u64 = 0x0001_0000;
pub const CG_FLAG_SHIFT: u64 = 0x0002_0000;
pub const CG_FLAG_CONTROL: u64 = 0x0004_0000;
pub const CG_FLAG_ALTERNATE: u64 = 0x0008_0000;
pub const CG_FLAG_COMMAND: u64 = 0x0010_0000;
pub const CG_FLAG_NUMERIC_PAD: u64 = 0x0020_0000;
pub const CG_FLAG_SECONDARY_FN: u64 = 0x0080_0000;
pub const CG_FLAG_NON_COALESCED: u64 = 0x0000_0100;

/// Device-dependent modifier bits of a hardware keyboard (IOLLEvent.h).
pub const NX_DEVICE_L_CTRL: u64 = 0x0000_0001;
pub const NX_DEVICE_L_SHIFT: u64 = 0x0000_0002;
pub const NX_DEVICE_L_CMD: u64 = 0x0000_0008;
pub const NX_DEVICE_L_ALT: u64 = 0x0000_0020;
pub const NX_DEVICE_R_ALT: u64 = 0x0000_0040;

pub open spec fn has(m: XMods, mask: u32) -> bool {
    m.bits & mask == mask
}

pub open spec fn flag_if(c: bool, f: u64) -> u64 {
    if c {
        f
    } else {
        0
    }
}

/// The Quartz flags of a modifier state: shift, caps lock, control, option
/// for Mod1 or Mod5 (AltGr), and command for Mod4.
pub open spec fn spec_cgevent_flags(m: XMods) -> u64 {
    flag_if(has(m, SHIFT_MASK), CG_FLAG_SHIFT) | flag_if(has(m, LOCK_MASK), CG_FLAG_ALPHA_SHIFT) | flag_if(
        has(m, CONTROL_MASK),
        CG_FLAG_CONTROL,
    ) | flag_if(has(m, MOD1_MASK) || has(m, MOD5_MASK), CG_FLAG_ALTERNATE) | flag_if(
        has(m, MOD4_MASK),
        CG_FLAG_COMMAND,
    )
}

/// The Quartz flags of the modifier state `depressed`.
pub fn to_cgevent_flags(depressed: XMods) -> (r: u64)
    ensures
        r == spec_cgevent_flags(depressed),
{
    let shift: u64 = if depressed.contains(SHIFT_MASK) {
        CG_FLAG_SHIFT
    } else {
        0
    };
    let caps: u64 = if depressed.contains(LOCK_MASK) {
        CG_FLAG_ALPHA_SHIFT
    } else {
        0
    };
    let control: u64 = if depressed.contains(CONTROL_MASK) {
        CG_FLAG_CONTROL
    } else {
        0
    };
    let option: u64 = if depressed.contains(MOD1_MASK) || depressed.contains(MOD5_MASK) {
        CG_FLAG_ALTERNATE
    } else {
        0
    };
    let command: u64 = if depressed.contains(MOD4_MASK) {
        CG_FLAG_COMMAND
    } else {
        0
    };
    shift | caps | control | option | command
}

/// Mac virtual key codes of the arrow keys.
pub const MAC_KEY_LEFT: u16 = 0x7B;
pub const MAC_KEY_RIGHT: u16 = 0x7C;
pub const MAC_KEY_DOWN: u16 = 0x7D;
pub const MAC_KEY_UP: u16 = 0x7E;

/// Whether `key` is one of the four Mac arrow keys.
pub fn is_arrow_key(key: u16) -> (r: bool)
    ensures
        r == (key == MAC_KEY_LEFT || key == MAC_KEY_RIGHT || key == MAC_KEY_DOWN || key == MAC_KEY_UP),
{
    key == MAC_KEY_LEFT || key == MAC_KEY_RIGHT || key == MAC_KEY_DOWN || key == MAC_KEY_UP
}

/// The flags of a synthesized key event: those of the modifiers, and for an
/// arrow key also numeric-pad and secondary-fn, as hardware arrows carry them.
pub fn key_event_flags(key: u16, modifiers: XMods) -> (r: u64)
    ensures
        r == spec_cgevent_flags(modifiers) | flag_if(
            key == MAC_KEY_LEFT || key == MAC_KEY_RIGHT || key == MAC_KEY_DOWN || key == MAC_KEY_UP,
            CG_FLAG_NUMERIC_PAD | CG_FLAG_SECONDARY_FN,
        ),
{
    let flags = to_cgevent_flags(modifiers);
    if is_arrow_key(key) {
        flags | (CG_FLAG_NUMERIC_PAD | CG_FLAG_SECONDARY_FN)
    } else {
        assert(flags | 0u64 == flags) by (bit_vector);
        flags
    }
}

/// The device-dependent bits of a modifier state: left shift, left control,
/// left option for Mod1, right option for Mod5 (AltGr), left command for Mod4.
pub open spec fn spec_device_bits(m: XMods) -> u64 {
    flag_if(has(m, SHIFT_MASK), NX_DEVICE_L_SHIFT) | flag_if(has(m, CONTROL_MASK), NX_DEVICE_L_CTRL) | flag_if(
        has(m, MOD1_MASK),
        NX_DEVICE_L_ALT,
    ) | flag_if(has(m, MOD5_MASK), NX_DEVICE_R_ALT) | flag_if(has(m, MOD4_MASK), NX_DEVICE_L_CMD)
}

/// The flags of a `FlagsChanged` event for the modifier state `depressed`:
/// the modifier flags, the non-coalesced marker that hardware events carry,
/// and the device-dependent bits a hardware keyboard sets.
pub fn modifier_flags_changed_flags(depressed: XMods) -> (r: u64)
    ensures
        r == (spec_cgevent_flags(depressed) | CG_FLAG_NON_COALESCED) | spec_device_bits(depressed),
{
    let shift: u64 = if depressed.contains(SHIFT_MASK) {
        NX_DEVICE_L_SHIFT
    } else {
        0
    };
    let control: u64 = if depressed.contains(CONTROL_MASK) {
        NX_DEVICE_L_CTRL
    } else {
        0
    };
    let left_alt: u64 = if depressed.contains(MOD1_MASK) {
        NX_DEVICE_L_ALT
    } else {
        0
    };
    let right_alt: u64 = if depressed.contains(MOD5_MASK) {
        NX_DEVICE_R_ALT
    } else {
        0
    };
    let command: u64 = if depressed.contains(MOD4_MASK) {
        NX_DEVICE_L_CMD
    } else {
        0
    };
    let device_bits = shift | control | left_alt | right_alt | command;
    let flags = to_cgevent_flags(depressed) | CG_FLAG_NON_COALESCED;
    flags | device_bits
}

/// The X11 core button of an evdev button: right 3, middle 2, back 8,
/// forward 9, and left 1, as is any other button.
pub open spec fn spec_x11_button_for(button: u32) -> u32 {
    if button == BTN_RIGHT {
        3
    } else if button == BTN_MIDDLE {
        2
    } else if button == BTN_BACK {
        8
    } else if button == BTN_FORWARD {
        9
    } else {
        1u32
    }
}

pub fn x11_button_for(button: u32) -> (r: u32)
    ensures
        r == spec_x11_button_for(button),
{
    if button == BTN_RIGHT {
        3
    } else if button == BTN_MIDDLE {
        2
    } else if button == BTN_BACK {
        8
    } else if button == BTN_FORWARD {
        9
    } else {
        1
    }
}

/// X11 core buttons of the scroll directions.
pub const SCROLL_UP: u32 = 4;
pub const SCROLL_DOWN: u32 = 5;
pub const SCROLL_LEFT: u32 = 6;
pub const SCROLL_RIGHT: u32 = 7;

/// The X11 scroll button for a scroll on `axis` (1 horizontal, else vertical)
/// in the negative direction or not.
pub open spec fn spec_x11_scroll_button(axis: u8, negative: bool) -> u32 {
    if axis == 1 {
        if negative {
            SCROLL_LEFT
        } else {
            SCROLL_RIGHT
        }
    } else if negative {
        SCROLL_UP
    } else {
        SCROLL_DOWN
    }
}

pub fn x11_scroll_button(axis: u8, negative: bool) -> (r: u32)
    ensures
        r == spec_x11_scroll_button(axis, negative),
{
    if axis == 1 {
        if negative {
            SCROLL_LEFT
        } else {
            SCROLL_RIGHT
        }
    } else if negative {
        SCROLL_UP
    } else {
        SCROLL_DOWN
    }
}

/// The X server keycode of an evdev key: shifted by 8.
pub open spec fn spec_x11_keycode(key: u32) -> int {
    key + 8
}

pub fn x11_keycode(key: u32) -> (r: u32)
    requires
        key + 8 <= u32::MAX,
    ensures
        r == spec_x11_keycode(key),
{
    key + 8
}

/// Quartz mouse event types that the macOS backend posts.
#[derive(Clone, Copy, Debug, PartialEq, Eq, Structural)]
pub enum MacMouseEventType {
    LeftMouseDown,
    LeftMouseUp,
    RightMouseDown,
    RightMouseUp,
    OtherMouseDown,
    OtherMouseUp,
    LeftMouseDragged,
    RightMouseDragged,
    OtherMouseDragged,
    MouseMoved,
}

/// Quartz mouse buttons.
#[derive(Clone, Copy, Debug, PartialEq, Eq, Structural)]
pub enum MacMouseButton {
    Left,
    Right,
    Center,
}

/// The drag event type for a held evdev button: left and right have their
/// own, every other button drags as "other".
pub open spec fn spec_drag_event_type(button: u32) -> MacMouseEventType {
    if button == BTN_LEFT {
        MacMouseEventType::LeftMouseDragged
    } else if button == BTN_RIGHT {
        MacMouseEventType::RightMouseDragged
    } else {
        MacMouseEventType::OtherMouseDragged
    }
}

pub fn drag_event_type(button: u32) -> (r: MacMouseEventType)
    ensures
        r == spec_drag_event_type(button),
{
    if button == BTN_LEFT {
        MacMouseEventType::LeftMouseDragged
    } else if button == BTN_RIGHT {
        MacMouseEventType::RightMouseDragged
    } else {
        MacMouseEventType::OtherMouseDragged
    }
}

/// The Quartz event type and button of a press (`state` 1) or release
/// (`state` 0) of an evdev button; middle, back and forward are "other"
/// events of the center button. Other buttons and states have none.
pub open spec fn spec_mac_button_event(button: u32, state: u32) -> Option<(MacMouseEventType, MacMouseButton)> {
    if state != 0 && state != 1 {
        None
    } else if button == BTN_LEFT {
        Some(
            (
                if state == 1 {
                    MacMouseEventType::LeftMouseDown
                } else {
                    MacMouseEventType::LeftMouseUp
                },
                MacMouseButton::Left,
            ),
        )
    } else if button == BTN_RIGHT {
        Some(
            (
                if state == 1 {
                    MacMouseEventType::RightMouseDown
                } else {
                    MacMouseEventType::RightMouseUp
                },
                MacMouseButton::Right,
            ),
        )
    } else if button == BTN_MIDDLE || button == BTN_BACK || button == BTN_FORWARD {
        Some(
            (
                if state == 1 {
                    MacMouseEventType::OtherMouseDown
                } else {
                    MacMouseEventType::OtherMouseUp
                },
                MacMouseButton::Center,
            ),
        )
    } else {
        None
    }
}

/// The Quartz button number of the side buttons: back 3, forward 4.
pub open spec fn spec_mac_button_number(button: u32) -> Option<i64> {
    if button == BTN_BACK {
        Some(3i64)
    } else if button == BTN_FORWARD {
        Some(4i64)
    } else {
        None
    }
}

/// A mouse button event as the macOS backend posts it.
#[derive(Clone, Copy, Debug, PartialEq, Eq, Structural)]
pub struct MacButtonEvent {
    pub event_type: MacMouseEventType,
    pub mouse_button: MacMouseButton,
    /// the number of clicks in quick succession
    pub click_state: i64,
    /// the button number, for the side buttons
    pub button_number: Option<i64>,
}

/// The mouse buttons held on the macOS side and the click count of the
/// last button pressed.
#[derive(Debug)]
pub struct MacButtonState {
    pressed_buttons: HashSet<u32>,
    previous_button: Option<u32>,
    button_click_state: i64,
}

impl MacButtonState {
    /// The evdev buttons held.
    pub closed spec fn held(self) -> Set<u32> {
        self.pressed_buttons@
    }

    /// The button pressed last.
    pub closed spec fn previous(self) -> Option<u32> {
        self.previous_button
    }

    /// The click count carried by the next button event.
    pub closed spec fn click_state(self) -> int {
        self.button_click_state as int
    }

    /// No button held, none pressed yet.
    pub fn new() -> (r: MacButtonState)
        ensures
            r.held() == Set::<u32>::empty(),
            r.previous() is None,
            r.click_state() == 0,
    {
        MacButtonState { pressed_buttons: HashSet::new(), previous_button: None, button_click_state: 0 }
    }

    /// Record a button event and describe the event to post. A press of the
    /// button pressed last, within the double-click interval, counts one more
    /// click; any other press starts again at one. Events of unknown buttons
    /// or states are dropped and change nothing.
    pub fn button_event(&mut self, button: u32, state: u32, within_double_click: bool) -> (r: Option<
        MacButtonEvent,
    >)
        requires
            old(self).click_state() < i64::MAX,
        ensures
            match spec_mac_button_event(button, state) {
                None => r is None && *final(self) == *old(self),
                Some((t, b)) => {
                    let clicks = if state == 1 {
                        if old(self).previous() == Some(button) && within_double_click {
                            old(self).click_state() + 1
                        } else {
                            1
                        }
                    } else {
                        old(self).click_state()
                    };
                    &&& r == Some(
                        MacButtonEvent {
                            event_type: t,
                            mouse_button: b,
                            click_state: clicks as i64,
                            button_number: spec_mac_button_number(button),
                        },
                    )
                    &&& final(self).click_state() == clicks
                    &&& final(self).held() == if state == 1 {
                        old(self).held().insert(button)
                    } else {
                        old(self).held().remove(button)
                    }
                    &&& final(self).previous() == if state == 1 {
                        Some(button)
                    } else {
                        old(self).previous()
                    }
                },
            },
    {
        broadcast use vstd::std_specs::hash::group_hash_axioms;

        let button_number: Option<i64> = if button == BTN_BACK {
            Some(3)
        } else if button == BTN_FORWARD {
            Some(4)
        } else {
            None
        };
        if state != 0 && state != 1 {
            return None;
        }
        let (event_type, mouse_button) = if button == BTN_LEFT {
            (
                if state == 1 {
                    MacMouseEventType::LeftMouseDown
                } else {
                    MacMouseEventType::LeftMouseUp
                },
                MacMouseButton::Left,
            )
        } else if button == BTN_RIGHT {
            (
                if state == 1 {
                    MacMouseEventType::RightMouseDown
                } else {
                    MacMouseEventType::RightMouseUp
                },
                MacMouseButton::Right,
            )
        } else if button == BTN_MIDDLE || button == BTN_BACK || button == BTN_FORWARD {
            (
                if state == 1 {
                    MacMouseEventType::OtherMouseDown
                } else {
                    MacMouseEventType::OtherMouseUp
                },
                MacMouseButton::Center,
            )
        } else {
            return None;
        };
        if state == 1 {
            self.pressed_buttons.insert(button);
        } else {
            self.pressed_buttons.remove(&button);
        }
        if state == 1 {
            if self.previous_button == Some(button) && within_double_click {
                self.button_click_state = self.button_click_state + 1;
            } else {
                self.button_click_state = 1;
            }
            self.previous_button = Some(button);
        }
        Some(MacButtonEvent { event_type, mouse_button, click_state: self.button_click_state, button_number })
    }

    /// Any pointer event other than a button event ends a click sequence.
    pub fn reset_click_state(&mut self)
        ensures
            final(self).click_state() == 0,
            final(self).held() == old(self).held(),
            final(self).previous() == old(self).previous(),
    {
        self.button_click_state = 0;
    }

    /// The event type of a pointer motion: a drag of some held button, or a
    /// plain move when none is held.
    pub fn motion_event_type(&self) -> (r: MacMouseEventType)
        ensures
            self.held().is_empty() ==> r == MacMouseEventType::MouseMoved,
            !self.held().is_empty() ==> exists|b: u32| self.held().contains(b) && r == spec_drag_event_type(b),
    {
        broadcast use vstd::std_specs::hash::group_hash_axioms;

        if self.pressed_buttons.contains(&BTN_LEFT) {
            assert(self.held().contains(BTN_LEFT) && MacMouseEventType::LeftMouseDragged == spec_drag_event_type(
                BTN_LEFT,
            ));
            return MacMouseEventType::LeftMouseDragged;
        }
        if self.pressed_buttons.contains(&BTN_RIGHT) {
            assert(self.held().contains(BTN_RIGHT) && MacMouseEventType::RightMouseDragged == spec_drag_event_type(
                BTN_RIGHT,
            ));
            return MacMouseEventType::RightMouseDragged;
        }
        if self.pressed_buttons.is_empty() {
            MacMouseEventType::MouseMoved
        } else {
            proof {
                if forall|b: u32| !self.held().contains(b) {
                    assert(self.held() =~= Set::<u32>::empty());
                }
                let b = choose|b: u32| self.held().contains(b);
                assert(self.held().contains(b) && spec_drag_event_type(b) == MacMouseEventType::OtherMouseDragged);
            }
            MacMouseEventType::OtherMouseDragged
        }
    }
}

/// `a / d` rounded toward zero.
pub open spec fn div_toward_zero(a: int, d: int) -> int {
    if a >= 0 {
        a / d
    } else {
        -((-a) / d)
    }
}

/// The scroll-wheel parameters of a Quartz scroll event on `axis`: the wheel
/// count and the three wheel deltas; vertical scrolls move the first wheel,
/// horizontal the second. Other axes have none.
pub open spec fn spec_scroll_wheels(axis: u8, value: i32) -> Option<(u32, i32, i32, i32)> {
    if axis == 0 {
        Some((1u32, value, 0i32, 0i32))
    } else if axis == 1 {
        Some((2u32, 0i32, value, 0i32))
    } else {
        None
    }
}

pub fn scroll_wheels(axis: u8, value: i32) -> (r: Option<(u32, i32, i32, i32)>)
    ensures
        r == spec_scroll_wheels(axis, value),
{
    if axis == 0 {
        Some((1, value, 0, 0))
    } else if axis == 1 {
        Some((2, 0, value, 0))
    } else {
        None
    }
}

/// Lines scrolled per 120-unit wheel step.
pub const LINES_PER_STEP: i32 = 3;

/// The line-scroll wheel parameters of a 120-unit scroll: each step scrolls
/// `LINES_PER_STEP` lines, fractions of a line rounding toward zero.
pub fn discrete_scroll_wheels(axis: u8, value: i32) -> (r: Option<(u32, i32, i32, i32)>)
    ensures
        r == spec_scroll_wheels(axis, div_toward_zero(value as int, 120int / LINES_PER_STEP as int) as i32),
{
    let d: i64 = (120 / LINES_PER_STEP) as i64;
    let v: i64 = value as i64;
    let lines: i64 = if v >= 0 {
        v / d
    } else {
        -((-v) / d)
    };
    scroll_wheels(axis, lines as i32)
}

/// The unit of a Quartz scroll event.
#[derive(Clone, Copy, Debug, PartialEq, Eq, Structural)]
pub enum MacScrollUnit {
    Pixel,
    Line,
}

/// The event the macOS backend posts for a pointer event.
#[derive(Clone, Copy, Debug, PartialEq, Eq, Structural)]
pub enum MacPost {
    /// a mouse event of this type at the pointer's new place, which the
    /// caller finds in floating point
    Motion { event_type: MacMouseEventType },
    /// a button event
    Button(MacButtonEvent),
    /// a scroll event in `unit` with `count` wheels and their deltas
    Scroll { unit: MacScrollUnit, count: u32, wheel1: i32, wheel2: i32, wheel3: i32 },
}

/// A Quartz scroll event in `unit` with the wheel parameters `w`.
pub open spec fn scroll_post(unit: MacScrollUnit, w: (u32, i32, i32, i32)) -> MacPost {
    MacPost::Scroll { unit, count: w.0, wheel1: w.1, wheel2: w.2, wheel3: w.3 }
}

/// `t` is the type of a motion event while the buttons `held` are down: a
/// plain move when none is, else a drag of one of them.
pub open spec fn motion_type_for(held: Set<u32>, t: MacMouseEventType) -> bool {
    &&& held.is_empty() ==> t == MacMouseEventType::MouseMoved
    &&& !held.is_empty() ==> exists|b: u32| held.contains(b) && t == spec_drag_event_type(b)
}

/// One pointer event of the macOS backend: the event `r` to post, from the
/// button state `before` to `after`. `smooth_pixels` is a smooth scroll's
/// value in whole pixels (the caller's floating-point conversion);
/// `within_double_click` says whether a press comes within the double-click
/// interval of the one before.
/// - a button event is recorded as `MacButtonState::button_event` says;
/// - a motion posts a move or a drag of a held button;
/// - a smooth scroll posts a PIXEL scroll of `smooth_pixels`, a 120-unit
///   scroll a LINE scroll of `LINES_PER_STEP` lines per step (fractions
///   toward zero), on wheel 1 for the vertical axis (count 1) and wheel 2 for
///   the horizontal one (count 2); a scroll on another axis posts nothing;
/// - other events change nothing here: once such an event has been
///   posted, `MacButtonState::posted` ends the click sequence.
pub open spec fn mac_pointer_post(
    before: MacButtonState,
    after: MacButtonState,
    e: PointerEvent,
    within_double_click: bool,
    smooth_pixels: i32,
    r: Option<MacPost>,
) -> bool {
    match e {
        PointerEvent::Button { button, state, .. } => match spec_mac_button_event(button, state) {
            None => r is None && after == before,
            Some((t, b)) => {
                let clicks = if state == 1 {
                    if before.previous() == Some(button) && within_double_click {
                        before.click_state() + 1
                    } else {
                        1
                    }
                } else {
                    before.click_state()
                };
                &&& r == Some(
                    MacPost::Button(
                        MacButtonEvent {
                            event_type: t,
                            mouse_button: b,
                            click_state: clicks as i64,
                            button_number: spec_mac_button_number(button),
                        },
                    ),
                )
                &&& after.click_state() == clicks
                &&& after.held() == if state == 1 {
                    before.held().insert(button)
                } else {
                    before.held().remove(button)
                }
                &&& after.previous() == if state == 1 {
                    Some(button)
                } else {
                    before.previous()
                }
            },
        },
        _ => {
            let post: Option<MacPost> = match e {
                PointerEvent::Axis { axis, .. } => match spec_scroll_wheels(axis, smooth_pixels) {
                    Some(w) => Some(scroll_post(MacScrollUnit::Pixel, w)),
                    None => None,
                },
                PointerEvent::AxisDiscrete120 { axis, value } => match spec_scroll_wheels(
                    axis,
                    div_toward_zero(value as int, 120int / LINES_PER_STEP as int) as i32,
                ) {
                    Some(w) => Some(scroll_post(MacScrollUnit::Line, w)),
                    None => None,
                },
                _ => None,
            };
            &&& e is Motion ==> (r matches Some(MacPost::Motion { event_type }) && motion_type_for(
                before.held(),
                event_type,
            ))
            &&& !(e is Motion) ==> r == post
            &&& after == before
        },
    }
}

/// Decide what the macOS backend posts for a pointer event, and track the
/// buttons and the click sequence of button events (`mac_pointer_post`). It
/// never fails: the backend reports success for every pointer event, posted
/// or dropped. After posting the event, the caller calls
/// `MacButtonState::posted`; where Quartz could not create the event, or the
/// pointer's place is unknown, it posts nothing and does not call it.
pub fn mac_pointer_step(state: &mut MacButtonState, e: &PointerEvent, within_double_click: bool, smooth_pixels: i32) -> (r:
    Option<MacPost>)
    requires
        e is Button ==> old(state).click_state() < i64::MAX,
    ensures
        mac_pointer_post(*old(state), *final(state), *e, within_double_click, smooth_pixels, r),
{
    let r = match e {
        PointerEvent::Button { button, state: s, .. } => {
            return match state.button_event(*button, *s, within_double_click) {
                Some(b) => Some(MacPost::Button(b)),
                None => None,
            };
        },
        PointerEvent::Motion { .. } => Some(MacPost::Motion { event_type: state.motion_event_type() }),
        PointerEvent::Axis { axis, .. } => match scroll_wheels(*axis, smooth_pixels) {
            Some(w) => Some(MacPost::Scroll { unit: MacScrollUnit::Pixel, count: w.0, wheel1: w.1, wheel2: w.2, wheel3: w.3 }),
            None => None,
        },
        PointerEvent::AxisDiscrete120 { axis, value } => match discrete_scroll_wheels(*axis, *value) {
            Some(w) => Some(MacPost::Scroll { unit: MacScrollUnit::Line, count: w.0, wheel1: w.1, wheel2: w.2, wheel3: w.3 }),
            None => None,
        },
        PointerEvent::Frame => None,
    };
    r
}

impl MacButtonState {
    /// Record that `e` was posted: any pointer event other than a button
    /// event ends the click sequence; a button event leaves the state as its
    /// step left it.
    pub fn posted(&mut self, e: &PointerEvent)
        ensures
            e is Button ==> *final(self) == *old(self),
            !(e is Button) ==> final(self).click_state() == 0 && final(self).held() == old(self).held()
                && final(self).previous() == old(self).previous(),
    {
        match e {
            PointerEvent::Button { .. } => {},
            _ => self.reset_click_state(),
        }
    }
}

/// What a `wl_output` has reported of its place and size: mode pixels, and
/// the logical values of xdg-output where the compositor sent them.
#[derive(Clone, Copy, Debug, Default, PartialEq, Eq, Structural)]
pub struct OutputInfo {
    pub x: i32,
    pub y: i32,
    pub width: i32,
    pub height: i32,
    pub logical_x: Option<i32>,
    pub logical_y: Option<i32>,
    pub logical_width: Option<i32>,
    pub logical_height: Option<i32>,
}

pub open spec fn or_else(o: Option<i32>, d: i32) -> int {
    match o {
        Some(v) => v as int,
        None => d as int,
    }
}

impl OutputInfo {
    pub open spec fn left(self) -> int {
        or_else(self.logical_x, self.x)
    }

    pub open spec fn top(self) -> int {
        or_else(self.logical_y, self.y)
    }

    pub open spec fn w(self) -> int {
        or_else(self.logical_width, self.width)
    }

    pub open spec fn h(self) -> int {
        or_else(self.logical_height, self.height)
    }

    /// The output reports a positive size.
    pub open spec fn usable(self) -> bool {
        self.w() > 0 && self.h() > 0
    }
}

/// Some output of `s` reports a positive size.
pub open spec fn any_usable(s: Seq<OutputInfo>) -> bool {
    exists|i: int| 0 <= i < s.len() && (#[trigger] s[i]).usable()
}

/// The least left edge of the usable outputs of `s` (`i32::MAX` if none).
pub open spec fn min_left(s: Seq<OutputInfo>) -> int
    decreases s.len(),
{
    if s.len() == 0 {
        i32::MAX as int
    } else if s.last().usable() {
        vstd::math::min(min_left(s.drop_last()), s.last().left())
    } else {
        min_left(s.drop_last())
    }
}

/// The least top edge of the usable outputs of `s` (`i32::MAX` if none).
pub open spec fn min_top(s: Seq<OutputInfo>) -> int
    decreases s.len(),
{
    if s.len() == 0 {
        i32::MAX as int
    } else if s.last().usable() {
        vstd::math::min(min_top(s.drop_last()), s.last().top())
    } else {
        min_top(s.drop_last())
    }
}

/// The greatest right edge of the usable outputs of `s` (`i32::MIN` if none).
pub open spec fn max_right(s: Seq<OutputInfo>) -> int
    decreases s.len(),
{
    if s.len() == 0 {
        i32::MIN as int
    } else if s.last().usable() {
        vstd::math::max(max_right(s.drop_last()), s.last().left() + s.last().w())
    } else {
        max_right(s.drop_last())
    }
}

/// The greatest bottom edge of the usable outputs of `s` (`i32::MIN` if none).
pub open spec fn max_bottom(s: Seq<OutputInfo>) -> int
    decreases s.len(),
{
    if s.len() == 0 {
        i32::MIN as int
    } else if s.last().usable() {
        vstd::math::max(max_bottom(s.drop_last()), s.last().top() + s.last().h())
    } else {
        max_bottom(s.drop_last())
    }
}

/// Every usable output's right and bottom edges fit in `i32`.
pub open spec fn edges_fit(s: Seq<OutputInfo>) -> bool {
    forall|i: int|
        0 <= i < s.len() && (#[trigger] s[i]).usable() ==> s[i].left() + s[i].w() <= i32::MAX && s[i].top()
            + s[i].h() <= i32::MAX
}

proof fn lemma_bounds_step(s: Seq<OutputInfo>)
    requires
        s.len() > 0,
    ensures
        any_usable(s) == (any_usable(s.drop_last()) || s.last().usable()),
        edges_fit(s) ==> edges_fit(s.drop_last()),
{
    if any_usable(s) && !s.last().usable() {
        let i = choose|i: int| 0 <= i < s.len() && (#[trigger] s[i]).usable();
        assert(s.drop_last()[i].usable());
    }
    if any_usable(s.drop_last()) {
        let i = choose|i: int| 0 <= i < s.len() - 1 && (#[trigger] s.drop_last()[i]).usable();
        assert(s[i].usable());
    }
    if s.last().usable() {
        assert(s[s.len() - 1].usable());
    }
    if edges_fit(s) {
        assert forall|i: int| 0 <= i < s.len() - 1 && (#[trigger] s.drop_last()[i]).usable() implies s.drop_last()[i].left()
            + s.drop_last()[i].w() <= i32::MAX && s.drop_last()[i].top() + s.drop_last()[i].h() <= i32::MAX by {
            assert(s[i] == s.drop_last()[i]);
        }
    }
}

proof fn lemma_bounds_order(s: Seq<OutputInfo>)
    requires
        any_usable(s),
    ensures
        min_left(s) < max_right(s),
        min_top(s) < max_bottom(s),
        i32::MIN <= min_left(s),
        i32::MIN <= min_top(s),
    decreases s.len(),
{
    lemma_bounds_step(s);
    if s.last().usable() {
        if any_usable(s.drop_last()) {
            lemma_bounds_order(s.drop_last());
        }
        lemma_bounds_empty(s.drop_last());
    } else {
        lemma_bounds_order(s.drop_last());
    }
}

proof fn lemma_bounds_empty(s: Seq<OutputInfo>)
    ensures
        !any_usable(s) ==> min_left(s) == i32::MAX && min_top(s) == i32::MAX && max_right(s) == i32::MIN
            && max_bottom(s) == i32::MIN,
        i32::MIN <= min_left(s) <= i32::MAX,
        i32::MIN <= min_top(s) <= i32::MAX,
        max_right(s) >= i32::MIN,
        max_bottom(s) >= i32::MIN,
    decreases s.len(),
{
    if s.len() > 0 {
        lemma_bounds_step(s);
        lemma_bounds_empty(s.drop_last());
    }
}

/// The size of the rectangle bounding every output that reports a positive
/// size, in the compositor's logical coordinates; each output's logical
/// values stand where it has them, its mode values where not. `None` when no
/// output has reported a usable size yet.
pub fn union_bounds(outputs: &[OutputInfo]) -> (r: Option<(u32, u32)>)
    requires
        edges_fit(outputs@),
        any_usable(outputs@) ==> max_right(outputs@) - min_left(outputs@) <= i32::MAX && max_bottom(outputs@)
            - min_top(outputs@) <= i32::MAX,
    ensures
        match r {
            None => !any_usable(outputs@),
            Some((w, h)) => any_usable(outputs@) && w == max_right(outputs@) - min_left(outputs@) && h
                == max_bottom(outputs@) - min_top(outputs@),
        },
{
    let mut xmin = i32::MAX;
    let mut ymin = i32::MAX;
    let mut xmax = i32::MIN;
    let mut ymax = i32::MIN;
    let mut any = false;
    let mut i: usize = 0;
    while i < outputs.len()
        invariant
            0 <= i <= outputs@.len(),
            edges_fit(outputs@),
            xmin == min_left(outputs@.take(i as int)),
            ymin == min_top(outputs@.take(i as int)),
            xmax == max_right(outputs@.take(i as int)),
            ymax == max_bottom(outputs@.take(i as int)),
            any == any_usable(outputs@.take(i as int)),
        decreases outputs.len() - i,
    {
        let ghost pre = outputs@.take(i as int);
        let ghost cur = outputs@.take(i + 1);
        proof {
            assert(cur.drop_last() =~= pre);
            assert(cur.last() == outputs@[i as int]);
            lemma_bounds_step(cur);
        }
        let o = outputs[i];
        let w = match o.logical_width {
            Some(v) => v,
            None => o.width,
        };
        let h = match o.logical_height {
            Some(v) => v,
            None => o.height,
        };
        if w > 0 && h > 0 {
            let ox = match o.logical_x {
                Some(v) => v,
                None => o.x,
            };
            let oy = match o.logical_y {
                Some(v) => v,
                None => o.y,
            };
            assert(outputs@[i as int].usable());
            any = true;
            if ox < xmin {
                xmin = ox;
            }
            if oy < ymin {
                ymin = oy;
            }
            if ox + w > xmax {
                xmax = ox + w;
            }
            if oy + h > ymax {
                ymax = oy + h;
            }
        }
        i += 1;
    }
    assert(outputs@.take(outputs.len() as int) =~= outputs@);
    if !any {
        return None;
    }
    proof {
        lemma_bounds_order(outputs@);
    }
    let w = (xmax - xmin) as u32;
    let h = (ymax - ymin) as u32;
    Some((w, h))
}

/// The keys each emulation handle holds down on the local side: a key goes
/// down once and up once, and what is still down is released when a handle
/// goes away.
#[derive(Debug)]
pub struct HandleKeys {
    pressed_keys: HashMap<u64, HashSet<u32>>,
}

impl HandleKeys {
    /// The keys held by each known handle.
    pub closed spec fn held(self) -> Map<u64, Set<u32>> {
        self.pressed_keys@.map_values(|s: HashSet<u32>| s@)
    }

    /// No handle known.
    pub fn new() -> (r: HandleKeys)
        ensures
            r.held() == Map::<u64, Set<u32>>::empty(),
    {
        let r = HandleKeys { pressed_keys: HashMap::new() };
        assert(r.held() =~= Map::<u64, Set<u32>>::empty());
        r
    }

    /// Register `handle` with no key down. Returns whether it was new; a
    /// known handle keeps its keys.
    pub fn create(&mut self, handle: u64) -> (r: bool)
        ensures
            r == !old(self).held().contains_key(handle),
            r ==> final(self).held() == old(self).held().insert(handle, Set::<u32>::empty()),
            !r ==> final(self).held() == old(self).held(),
    {
        broadcast use vstd::std_specs::hash::group_hash_axioms;

        if self.pressed_keys.contains_key(&handle) {
            return false;
        }
        self.pressed_keys.insert(handle, HashSet::new());
        assert(final(self).held() =~= old(self).held().insert(handle, Set::<u32>::empty()));
        true
    }

    /// Forget `handle`. Returns whether it was known.
    pub fn destroy(&mut self, handle: u64) -> (r: bool)
        ensures
            r == old(self).held().contains_key(handle),
            final(self).held() == old(self).held().remove(handle),
    {
        broadcast use vstd::std_specs::hash::group_hash_axioms;

        let r = self.pressed_keys.remove(&handle).is_some();
        assert(final(self).held() =~= old(self).held().remove(handle));
        r
    }

    /// Record a key event of `handle` and return whether it should be
    /// emulated: a press of a key not down, or a release (`state` 0) of a
    /// key down. Events of an unknown handle are not.
    pub fn update_pressed_keys(&mut self, handle: u64, key: u32, state: u8) -> (r: bool)
        ensures
            !old(self).held().contains_key(handle) ==> !r && final(self).held() == old(self).held(),
            old(self).held().contains_key(handle) && state == 0 ==> r == old(self).held()[handle].contains(key)
                && final(self).held() == old(self).held().insert(handle, old(self).held()[handle].remove(key)),
            old(self).held().contains_key(handle) && state != 0 ==> r == !old(self).held()[handle].contains(key)
                && final(self).held() == old(self).held().insert(handle, old(self).held()[handle].insert(key)),
    {
        broadcast use vstd::std_specs::hash::group_hash_axioms;

        let mut keys = match self.pressed_keys.remove(&handle) {
            Some(k) => k,
            None => {
                assert(final(self).held() =~= old(self).held());
                return false;
            },
        };
        let r = if state == 0 {
            keys.remove(&key)
        } else {
            keys.insert(key)
        };
        self.pressed_keys.insert(handle, keys);
        proof {
            if state == 0 {
                assert(final(self).held() =~= old(self).held().insert(handle, old(self).held()[handle].remove(key)));
            } else {
                assert(final(self).held() =~= old(self).held().insert(handle, old(self).held()[handle].insert(key)));
            }
        }
        r
    }

    /// Whether `handle` is known and holds some key down.
    pub fn has_pressed_keys(&self, handle: u64) -> (r: bool)
        ensures
            r == (self.held().contains_key(handle) && !self.held()[handle].is_empty()),
    {
        broadcast use vstd::std_specs::hash::group_hash_axioms;

        match self.pressed_keys.get(&handle) {
            Some(keys) => !keys.is_empty(),
            None => false,
        }
    }

    /// Take the keys `handle` holds down, each once, leaving none held; they
    /// are to be released on the emulated side. An unknown handle holds none.
    pub fn release_keys(&mut self, handle: u64) -> (r: Vec<u32>)
        ensures
            old(self).held().contains_key(handle) ==> r@.to_set() == old(self).held()[handle] && r@.no_duplicates()
                && final(self).held() == old(self).held().insert(handle, Set::<u32>::empty()),
            !old(self).held().contains_key(handle) ==> r@ == Seq::<u32>::empty() && final(self).held() == old(
                self,
            ).held(),
    {
        broadcast use vstd::std_specs::hash::group_hash_axioms;

        let keys = match self.pressed_keys.remove(&handle) {
            Some(k) => k,
            None => {
                assert(final(self).held() =~= old(self).held());
                return Vec::new();
            },
        };
        let mut out: Vec<u32> = Vec::new();
        for k in it: keys.iter()
            invariant
                it.seq().unref().to_set() == keys@,
                it.seq().no_duplicates(),
                out@ == it.seq().unref().take(it.index() as int),
                out@.no_duplicates(),
                it.index() == it.seq().len() ==> out@ == it.seq().unref(),
        {
            assert(it.seq().unref().take(it.index() + 1) =~= out@.push(*k));
            assert(!out@.contains(*k)) by {
                if out@.contains(*k) {
                    let j = choose|j: int| 0 <= j < out@.len() && out@[j] == *k;
                    assert(it.seq()[j] == it.seq()[it.index()]);
                }
            }
            out.push(*k);
            assert(out@ =~= it.seq().unref().take(it.index() + 1));
        }
        self.pressed_keys.insert(handle, HashSet::new());
        assert(final(self).held() =~= old(self).held().insert(handle, Set::<u32>::empty()));
        out
    }
}

/// The events that release the keys `keys`, in their order: a key-up at
/// time 0 for each, then a Modifiers event that clears every modifier.
pub open spec fn release_events_of(keys: Seq<u32>) -> Seq<KeyboardEvent> {
    Seq::new(keys.len(), |i: int| KeyboardEvent::Key { time: 0, key: keys[i], state: 0 }).push(
        KeyboardEvent::Modifiers { depressed: 0, latched: 0, locked: 0, group: 0 },
    )
}

impl HandleKeys {
    /// The keyboard events that release what `handle` holds on the emulated
    /// side, to be consumed in order: one key-up per held key (each once, in
    /// the order `release_keys` gives them), then a Modifiers event that
    /// clears every modifier. An unknown handle gets only the Modifiers
    /// event. The handle holds no key afterwards.
    pub fn release_events(&mut self, handle: u64) -> (r: Vec<KeyboardEvent>)
        ensures
            exists|keys: Seq<u32>|
                #![trigger release_events_of(keys)]
                {
                    &&& r@ == release_events_of(keys)
                    &&& keys.no_duplicates()
                    &&& old(self).held().contains_key(handle) ==> keys.to_set() == old(self).held()[handle]
                        && final(self).held() == old(self).held().insert(handle, Set::<u32>::empty())
                    &&& !old(self).held().contains_key(handle) ==> keys == Seq::<u32>::empty() && final(self).held()
                        == old(self).held()
                },
    {
        let keys = self.release_keys(handle);
        let mut out: Vec<KeyboardEvent> = Vec::new();
        let mut i: usize = 0;
        while i < keys.len()
            invariant
                0 <= i <= keys@.len(),
                out@ == Seq::new(i as nat, |j: int| KeyboardEvent::Key { time: 0, key: keys@[j], state: 0 }),
            decreases keys.len() - i,
        {
            out.push(KeyboardEvent::Key { time: 0, key: keys[i], state: 0 });
            i += 1;
            assert(out@ =~= Seq::new(i as nat, |j: int| KeyboardEvent::Key { time: 0, key: keys@[j], state: 0 }));
        }
        out.push(KeyboardEvent::Modifiers { depressed: 0, latched: 0, locked: 0, group: 0 });
        assert(out@ =~= release_events_of(keys@));
        out
    }
}

/// Why the clipboard could not be used; the payload is the underlying
/// error's message.
#[derive(Debug)]
pub enum ClipboardError {
    Access(String),
    SetText(String),
}

impl ClipboardError {
    /// The error's message.
    pub fn message(&self) -> (r: String)
        ensures
            r@ == match self {
                ClipboardError::Access(e) => "Failed to access clipboard: "@ + e@,
                ClipboardError::SetText(e) => "Failed to set clipboard: "@ + e@,
            },
    {
        let mut r = String::new();
        match self {
            ClipboardError::Access(e) => {
                push_str(&mut r, "Failed to access clipboard: ");
                push_str(&mut r, e.as_str());
            },
            ClipboardError::SetText(e) => {
                push_str(&mut r, "Failed to set clipboard: ");
                push_str(&mut r, e.as_str());
            },
        }
        r
    }
}

/// Why the X11 emulation backend could not start.
#[derive(Clone, Copy, Debug, PartialEq, Eq, Structural)]
pub enum X11EmulationCreationError {
    OpenDisplay,
}

impl X11EmulationCreationError {
    pub fn message(&self) -> (r: &'static str)
        ensures
            r@ == "could not open display"@,
    {
        "could not open display"
    }
}

/// Why the macOS emulation backend could not start.
#[derive(Clone, Copy, Debug, PartialEq, Eq, Structural)]
pub enum MacOSEmulationCreationError {
    EventSourceCreation,
    AccessibilityPermission,
    InputControlPermission,
}

impl MacOSEmulationCreationError {
    pub fn message(&self) -> (r: &'static str)
        ensures
            r@ == match self {
                MacOSEmulationCreationError::EventSourceCreation => "could not create event source"@,
                MacOSEmulationCreationError::AccessibilityPermission => "accessibility permission is required"@,
                MacOSEmulationCreationError::InputControlPermission => "input control permission is required"@,
            },
    {
        match self {
            MacOSEmulationCreationError::EventSourceCreation => "could not create event source",
            MacOSEmulationCreationError::AccessibilityPermission => "accessibility permission is required",
            MacOSEmulationCreationError::InputControlPermission => "input control permission is required",
        }
    }
}

/// The outcome of the permission checks that the macOS emulation backend
/// needs: both are asked for, so that the user sees both prompts at once,
/// and the accessibility permission is reported missing first.
pub fn request_macos_emulation_permissions(accessibility: bool, input_control: bool) -> (r: Result<
    (),
    MacOSEmulationCreationError,
>)
    ensures
        r == if !accessibility {
            Err(MacOSEmulationCreationError::AccessibilityPermission)
        } else if !input_control {
            Err(MacOSEmulationCreationError::InputControlPermission)
        } else {
            Ok::<(), MacOSEmulationCreationError>(())
        },
{
    if !accessibility {
        return Err(MacOSEmulationCreationError::AccessibilityPermission);
    }
    if !input_control {
        return Err(MacOSEmulationCreationError::InputControlPermission);
    }
    Ok(())
}

/// What the macOS backend does with a key event.
#[derive(Clone, Copy, Debug, PartialEq, Eq, Structural)]
pub enum MacKeyAction {
    /// a modifier key changed: post a `FlagsChanged` event for the Mac key
    /// `code` with `flags`; modifiers never repeat
    Modifier { code: u16, flags: u64 },
    /// a key went down: press the Mac key `code` and repeat it while held
    StartRepeat { code: u16 },
    /// a key went up: stop the repeat, which releases the repeating key
    StopRepeat { code: u16 },
}

/// What a key event does on macOS given the Mac key code of `key` (`code`,
/// `None` where it has none), with the modifiers held before (`before`) and
/// after (`after`) it: a key with no Mac key code is dropped and changes
/// nothing; a modifier key updates the modifiers and posts a flags change;
/// another key starts or stops its repeat.
pub open spec fn mac_key_step(before: XMods, after: XMods, key: u32, state: u8, code: Option<u16>, r: Option<
    MacKeyAction,
>) -> bool {
    match code {
        None => r is None && after == before,
        Some(c) => {
            &&& (mac_modifier_mask(key) != 0 ==> {
                &&& after.bits == if state == 1 {
                    before.bits | mac_modifier_mask(key)
                } else {
                    before.bits & !mac_modifier_mask(key)
                }
                &&& r == Some(
                    MacKeyAction::Modifier {
                        code: c,
                        flags: (spec_cgevent_flags(after) | CG_FLAG_NON_COALESCED) | spec_device_bits(
                            after,
                        ),
                    },
                )
            })
            &&& (mac_modifier_mask(key) == 0 ==> {
                &&& after == before
                &&& r == Some(
                    if state == 1 {
                        MacKeyAction::StartRepeat { code: c }
                    } else {
                        MacKeyAction::StopRepeat { code: c }
                    },
                )
            })
        },
    }
}

/// Decide what a key event does on macOS given the Mac key code of `key`
/// (`code`, `None` where it has none), tracking the modifier state.
pub fn mac_key_action_for(modifiers: &mut XMods, key: u32, state: u8, code: Option<u16>) -> (r: Option<MacKeyAction>)
    ensures
        mac_key_step(*old(modifiers), *final(modifiers), key, state, code, r),
{
    let code = match code {
        Some(c) => c,
        None => return None,
    };
    if modifiers.update_modifiers(key, state) {
        let flags = modifier_flags_changed_flags(*modifiers);
        Some(MacKeyAction::Modifier { code, flags })
    } else if state == 1 {
        Some(MacKeyAction::StartRepeat { code })
    } else {
        Some(MacKeyAction::StopRepeat { code })
    }
}

/// Decide what a key event does on macOS, tracking the modifier state. A
/// key with no Mac key code in the key code table is dropped and changes
/// nothing.
pub fn mac_key_action(modifiers: &mut XMods, key: u32, state: u8) -> (r: Option<MacKeyAction>)
    ensures
        mac_key_step(*old(modifiers), *final(modifiers), key, state, crate::keymap::evdev_to_mac(key as u16), r),
{
    let code = crate::keymap::evdev_key_to_mac(key as u16);
    mac_key_action_for(modifiers, key, state, code)
}

/// The modifiers message the wlroots virtual keyboard sends after a key
/// event that changed the modifier state: depressed (the held modifiers),
/// latched (none), locked (the locks) and group (0).
pub fn wlroots_key_modifiers(mods: &mut XMods, key: u32, state: u8) -> (r: Option<(u32, u32, u32, u32)>)
    ensures
        (pressed_mask(key) != 0 || locked_mask(key) != 0) ==> r == Some(
            (
                final(mods).bits & (SHIFT_MASK | CONTROL_MASK | MOD1_MASK | MOD4_MASK),
                0u32,
                final(mods).bits & (LOCK_MASK | MOD2_MASK | MOD3_MASK),
                0u32,
            ),
        ),
        !(pressed_mask(key) != 0 || locked_mask(key) != 0) ==> r is None && *final(mods) == *old(mods),
        r is Some && state == 1 ==> final(mods).bits == old(mods).bits | pressed_mask(key),
        r is Some && state != 1 ==> final(mods).bits == (old(mods).bits & !pressed_mask(key)) ^ locked_mask(key),
{
    if mods.update_by_key_event(key, state) {
        Some((mods.mask_pressed().bits, 0, mods.mask_locks().bits, 0))
    } else {
        None
    }
}

/// A 120-unit scroll as the wlroots virtual pointer sends it: the value,
/// negated for natural scrolling, and its whole steps, rounded toward zero.
pub fn wlroots_discrete_scroll(value: i32, natural_scroll: bool) -> (r: (i32, i32))
    requires
        natural_scroll ==> value != i32::MIN,
    ensures
        r.0 == if natural_scroll {
            -value
        } else {
            value as int
        },
        r.1 == steps_of(r.0 as int),
{
    let v: i32 = if natural_scroll {
        -value
    } else {
        value
    };
    let steps: i32 = if v >= 0 {
        v / 120
    } else {
        -(((-(v as i64)) / 120) as i32)
    };
    (v, steps)
}

/// The sign bit of an IEEE 754 double; negating a double flips it and
/// nothing else.
pub const F64_SIGN_BIT: u64 = 0x8000_0000_0000_0000;

/// A pointer event with its scroll direction inverted: a discrete scroll
/// negated, a smooth scroll's value negated (its sign bit flipped), any
/// other event as it is.
pub open spec fn spec_invert_scroll(event: PointerEvent) -> PointerEvent {
    match event {
        PointerEvent::AxisDiscrete120 { axis, value } => PointerEvent::AxisDiscrete120 { axis, value: (-value) as i32 },
        PointerEvent::Axis { time, axis, value_bits } => PointerEvent::Axis {
            time,
            axis,
            value_bits: value_bits ^ F64_SIGN_BIT,
        },
        _ => event,
    }
}

/// Invert the direction of a scroll event, as the "invert scroll" setting
/// asks of emulated events. A discrete scroll of `i32::MIN` has no negation.
pub fn invert_scroll(event: PointerEvent) -> (r: PointerEvent)
    requires
        event matches PointerEvent::AxisDiscrete120 { value, .. } ==> value != i32::MIN,
    ensures
        r == spec_invert_scroll(event),
{
    match event {
        PointerEvent::AxisDiscrete120 { axis, value } => PointerEvent::AxisDiscrete120 { axis, value: -value },
        PointerEvent::Axis { time, axis, value_bits } => PointerEvent::Axis {
            time,
            axis,
            value_bits: value_bits ^ F64_SIGN_BIT,
        },
        _ => event,
    }
}

/// Inverting a scroll twice gives the scroll back.
pub proof fn lemma_invert_scroll_twice(event: PointerEvent)
    requires
        event matches PointerEvent::AxisDiscrete120 { value, .. } ==> value != i32::MIN,
    ensures
        spec_invert_scroll(spec_invert_scroll(event)) == event,
{
    if let PointerEvent::Axis { value_bits, .. } = event {
        assert((value_bits ^ F64_SIGN_BIT) ^ F64_SIGN_BIT == value_bits) by (bit_vector);
    }
}

/// Each modifier key sets its own X11 modifier bit, as the X protocol numbers
/// them: shift (evdev 42, 54) Shift 0x01, control (29, 97) Control 0x04,
/// alt (56, 100) Mod1 0x08, meta (125, 126) Mod4 0x40; no other key holds a
/// modifier. Each lock key toggles its own lock bit: caps lock (58) Lock
/// 0x02, num lock (69) Mod2 0x10, scroll lock (70) Mod3 0x20; no other key
/// toggles one. The macOS backend tracks caps lock as a held modifier
/// (Lock 0x02) besides the held modifiers.
pub proof fn lemma_modifier_key_table(key: u32)
    ensures
        pressed_mask(42) == 0x01 && pressed_mask(54) == 0x01,
        pressed_mask(29) == 0x04 && pressed_mask(97) == 0x04,
        pressed_mask(56) == 0x08 && pressed_mask(100) == 0x08,
        pressed_mask(125) == 0x40 && pressed_mask(126) == 0x40,
        !(key == 42 || key == 54 || key == 29 || key == 97 || key == 56 || key == 100 || key == 125 || key == 126)
            ==> pressed_mask(key) == 0,
        locked_mask(58) == 0x02 && locked_mask(69) == 0x10 && locked_mask(70) == 0x20,
        !(key == 58 || key == 69 || key == 70) ==> locked_mask(key) == 0,
        mac_modifier_mask(58) == 0x02,
        key != 58 ==> mac_modifier_mask(key) == pressed_mask(key),
        SHIFT_MASK == 0x01 && LOCK_MASK == 0x02 && CONTROL_MASK == 0x04 && MOD1_MASK == 0x08,
        MOD2_MASK == 0x10 && MOD3_MASK == 0x20 && MOD4_MASK == 0x40 && MOD5_MASK == 0x80,
{
}

/// A modifier key press sets exactly its own bit and a release clears it,
/// whatever else is held; so after pressing alt the held modifiers that a
/// wlroots keyboard reports hold Mod1 (0x08) and not Control (0x04) unless
/// control was already held.
pub proof fn lemma_modifier_press_sets_its_bit(bits: u32, key: u32)
    requires
        pressed_mask(key) != 0,
    ensures
        (bits | pressed_mask(key)) & pressed_mask(key) == pressed_mask(key),
        forall|other: u32| #![auto] other != key && pressed_mask(other) != pressed_mask(key) && pressed_mask(other) != 0
            ==> ((bits | pressed_mask(key)) & pressed_mask(other)) == (bits & pressed_mask(other)),
        ((bits & !pressed_mask(key)) ^ locked_mask(key)) & pressed_mask(key) == 0,
{
    let m = pressed_mask(key);
    assert(m == 1 || m == 4 || m == 8 || m == 64);
    assert(locked_mask(key) == 0);
    assert forall|other: u32| #![auto] other != key && pressed_mask(other) != m && pressed_mask(other) != 0 implies ((
    bits | m) & pressed_mask(other)) == (bits & pressed_mask(other)) by {
        let n = pressed_mask(other);
        assert(n == 1 || n == 4 || n == 8 || n == 64);
        assert((m == 1 || m == 4 || m == 8 || m == 64) && (n == 1 || n == 4 || n == 8 || n == 64) && n != m ==> ((bits
            | m) & n) == (bits & n)) by (bit_vector);
    }
    assert((m == 1 || m == 4 || m == 8 || m == 64) ==> (bits | m) & m == m) by (bit_vector);
    assert((m == 1 || m == 4 || m == 8 || m == 64) ==> ((bits & !m) ^ 0u32) & m == 0) by (bit_vector);
}

/// The Quartz event of an evdev button: left (0x110) is the left button,
/// right (0x111) the right button, middle (0x112), back (0x113) and forward
/// (0x114) the centre button of "other" events; a press (state 1) is its
/// Down event and a release (state 0) its Up event; any other button or
/// state posts nothing. The side buttons carry their number: back 3,
/// forward 4. So distinct buttons among left, right and middle are posted
/// as distinct Quartz buttons.
pub proof fn lemma_mac_button_table(button: u32, state: u32)
    ensures
        spec_mac_button_event(0x110, 1) == Some((MacMouseEventType::LeftMouseDown, MacMouseButton::Left)),
        spec_mac_button_event(0x110, 0) == Some((MacMouseEventType::LeftMouseUp, MacMouseButton::Left)),
        spec_mac_button_event(0x111, 1) == Some((MacMouseEventType::RightMouseDown, MacMouseButton::Right)),
        spec_mac_button_event(0x111, 0) == Some((MacMouseEventType::RightMouseUp, MacMouseButton::Right)),
        spec_mac_button_event(0x112, 1) == Some((MacMouseEventType::OtherMouseDown, MacMouseButton::Center)),
        spec_mac_button_event(0x112, 0) == Some((MacMouseEventType::OtherMouseUp, MacMouseButton::Center)),
        spec_mac_button_event(0x113, 1) == Some((MacMouseEventType::OtherMouseDown, MacMouseButton::Center)),
        spec_mac_button_event(0x113, 0) == Some((MacMouseEventType::OtherMouseUp, MacMouseButton::Center)),
        spec_mac_button_event(0x114, 1) == Some((MacMouseEventType::OtherMouseDown, MacMouseButton::Center)),
        spec_mac_button_event(0x114, 0) == Some((MacMouseEventType::OtherMouseUp, MacMouseButton::Center)),
        !(0x110 <= button <= 0x114) || (state != 0 && state != 1) ==> spec_mac_button_event(button, state) is None,
        spec_mac_button_number(0x113) == Some(3i64) && spec_mac_button_number(0x114) == Some(4i64),
        button != 0x113 && button != 0x114 ==> spec_mac_button_number(button) is None,
        BTN_LEFT == 0x110 && BTN_RIGHT == 0x111 && BTN_MIDDLE == 0x112 && BTN_BACK == 0x113 && BTN_FORWARD == 0x114,
{
}

/// X11 core buttons as the X protocol numbers them: an emulated evdev
/// button presses left 1, middle 2, right 3, back 8 and forward 9 (any
/// other button the left one); a scroll presses up 4 or down 5 on the
/// vertical axis and left 6 or right 7 on the horizontal axis (1), by its
/// direction. Reading a captured left, middle or right X11 button and
/// emulating it presses the same X11 button again.
pub proof fn lemma_x11_button_table(button: u32, axis: u8)
    ensures
        spec_x11_button_for(0x110) == 1 && spec_x11_button_for(0x112) == 2 && spec_x11_button_for(0x111) == 3,
        spec_x11_button_for(0x113) == 8 && spec_x11_button_for(0x114) == 9,
        !(0x111 <= button <= 0x114) ==> spec_x11_button_for(button) == 1,
        crate::capture::spec_x11_button_to_evdev(1) == Some(0x110u32),
        crate::capture::spec_x11_button_to_evdev(2) == Some(0x112u32),
        crate::capture::spec_x11_button_to_evdev(3) == Some(0x111u32),
        1 <= button <= 3 ==> spec_x11_button_for(crate::capture::spec_x11_button_to_evdev(button)->0) == button,
        !(1 <= button <= 3) ==> crate::capture::spec_x11_button_to_evdev(button) is None,
        axis != 1 ==> spec_x11_scroll_button(axis, true) == 4 && spec_x11_scroll_button(axis, false) == 5,
        spec_x11_scroll_button(1, true) == 6 && spec_x11_scroll_button(1, false) == 7,
{
}

/// The Quartz flags of a modifier state: X11 Shift (0x01) is the shift flag
/// (0x2_0000), Lock (0x02) caps lock (0x1_0000), Control (0x04) control
/// (0x4_0000), Mod1 (0x08) or Mod5 (0x80) option (0x8_0000), Mod4 (0x40)
/// command (0x10_0000); no other flag is set. A modifier change also carries
/// the device bits of the left shift (0x02), left control (0x01), left
/// option (0x20, Mod1), right option (0x40, Mod5) and left command (0x08,
/// Mod4) keys, and the non-coalesced marker (0x100).
pub proof fn lemma_modifiers_to_quartz_flags(m: XMods)
    ensures
        (spec_cgevent_flags(m) & 0x2_0000 != 0) == (m.bits & 0x01 == 0x01),
        (spec_cgevent_flags(m) & 0x1_0000 != 0) == (m.bits & 0x02 == 0x02),
        (spec_cgevent_flags(m) & 0x4_0000 != 0) == (m.bits & 0x04 == 0x04),
        (spec_cgevent_flags(m) & 0x8_0000 != 0) == (m.bits & 0x08 == 0x08 || m.bits & 0x80 == 0x80),
        (spec_cgevent_flags(m) & 0x10_0000 != 0) == (m.bits & 0x40 == 0x40),
        spec_cgevent_flags(m) & !0x1f_0000u64 == 0,
        (spec_device_bits(m) & 0x02 != 0) == (m.bits & 0x01 == 0x01),
        (spec_device_bits(m) & 0x01 != 0) == (m.bits & 0x04 == 0x04),
        (spec_device_bits(m) & 0x20 != 0) == (m.bits & 0x08 == 0x08),
        (spec_device_bits(m) & 0x40 != 0) == (m.bits & 0x80 == 0x80),
        (spec_device_bits(m) & 0x08 != 0) == (m.bits & 0x40 == 0x40),
        spec_device_bits(m) & !0x6bu64 == 0,
        CG_FLAG_NON_COALESCED == 0x100,
        CG_FLAG_NUMERIC_PAD == 0x20_0000 && CG_FLAG_SECONDARY_FN == 0x80_0000,
{
    let a = m.bits & 0x01 == 0x01;
    let l = m.bits & 0x02 == 0x02;
    let c = m.bits & 0x04 == 0x04;
    let o = m.bits & 0x08 == 0x08;
    let g = m.bits & 0x80 == 0x80;
    let d = m.bits & 0x40 == 0x40;
    let f: u64 = (if a { 0x2_0000u64 } else { 0u64 }) | (if l { 0x1_0000u64 } else { 0u64 }) | (if c {
        0x4_0000u64
    } else {
        0u64
    }) | (if o || g { 0x8_0000u64 } else { 0u64 }) | (if d { 0x10_0000u64 } else { 0u64 });
    assert(spec_cgevent_flags(m) == f);
    assert((f & 0x2_0000 != 0) == a && (f & 0x1_0000 != 0) == l && (f & 0x4_0000 != 0) == c && (f & 0x8_0000 != 0) == (o
        || g) && (f & 0x10_0000 != 0) == d && f & !0x1f_0000u64 == 0) by (bit_vector)
        requires
            f == (if a { 0x2_0000u64 } else { 0u64 }) | (if l { 0x1_0000u64 } else { 0u64 }) | (if c {
                0x4_0000u64
            } else {
                0u64
            }) | (if o || g { 0x8_0000u64 } else { 0u64 }) | (if d { 0x10_0000u64 } else { 0u64 }),
    ;
    let v: u64 = (if a { 0x02u64 } else { 0u64 }) | (if c { 0x01u64 } else { 0u64 }) | (if o { 0x20u64 } else { 0u64 }) | (
    if g {
        0x40u64
    } else {
        0u64
    }) | (if d { 0x08u64 } else { 0u64 });
    assert(spec_device_bits(m) == v);
    assert((v & 0x02 != 0) == a && (v & 0x01 != 0) == c && (v & 0x20 != 0) == o && (v & 0x40 != 0) == g && (v & 0x08
        != 0) == d && v & !0x6bu64 == 0) by (bit_vector)
        requires
            v == (if a { 0x02u64 } else { 0u64 }) | (if c { 0x01u64 } else { 0u64 }) | (if o { 0x20u64 } else { 0u64 })
                | (if g { 0x40u64 } else { 0u64 }) | (if d { 0x08u64 } else { 0u64 }),
    ;
}

/// A macOS scroll moves the first wheel for the vertical axis (0) with one
/// wheel, the second wheel for the horizontal axis (1) with two, by the
/// value given; other axes do not scroll. A wheel step of 120 units
/// scrolls three lines, in LINE units, and a smooth scroll its pixels, in
/// PIXEL units; the button state is not touched by a scroll.
pub proof fn lemma_mac_scroll_table(axis: u8, value: i32, before: MacButtonState, after: MacButtonState, r: Option<MacPost>)
    ensures
        spec_scroll_wheels(0, value) == Some((1u32, value, 0i32, 0i32)),
        spec_scroll_wheels(1, value) == Some((2u32, 0i32, value, 0i32)),
        axis > 1 ==> spec_scroll_wheels(axis, value) is None,
        LINES_PER_STEP == 3,
        mac_pointer_post(before, after, PointerEvent::AxisDiscrete120 { axis: 0, value }, false, 0, r) ==> r == Some(
            MacPost::Scroll {
                unit: MacScrollUnit::Line,
                count: 1,
                wheel1: (if value >= 0 { value / 40 } else { -((-value) / 40) }) as i32,
                wheel2: 0,
                wheel3: 0,
            },
        ) && after == before,
        mac_pointer_post(before, after, PointerEvent::Axis { time: 0, axis: 1, value_bits: 0 }, false, value, r) ==> r
            == Some(MacPost::Scroll { unit: MacScrollUnit::Pixel, count: 2, wheel1: 0, wheel2: value, wheel3: 0 })
            && after == before,
{
}

/// X server keycodes are evdev key codes shifted by 8 (evdev KEY_A, 30, is
/// X keycode 38): emulating an evdev key presses the X keycode 8 above it,
/// and a captured X keycode reads back as the evdev key it was made from.
pub proof fn lemma_x11_keycodes(key: u32)
    ensures
        key + 8 <= u32::MAX ==> spec_x11_keycode(key) == key + 8
            && crate::x11_capture::spec_x11_keycode_to_evdev(spec_x11_keycode(key) as u32) == key,
        key >= 8 ==> crate::x11_capture::spec_x11_keycode_to_evdev(key) == key - 8,
        key < 8 ==> crate::x11_capture::spec_x11_keycode_to_evdev(key) == 0,
{
}

} // verus!
