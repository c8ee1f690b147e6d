//! The decisions of the Windows low-level mouse and keyboard hooks: when a
//! pointer crossing activates a client, where it entered, and which input
//! events the hooked messages become.
use vstd::prelude::*;

use crate::capture::{PositionSet, BTN_BACK, BTN_FORWARD, BTN_LEFT, BTN_MIDDLE, BTN_RIGHT};
use crate::display::{
    clamp_to, clamp_to_display_bounds, entered_barrier, first_display, spec_entered_barrier, within_region,
    DisplayRect,
};
use crate::event::KeyboardEvent;
use crate::Position;

verus! {

/// Window message of a key going down.
pub const WM_KEYDOWN: usize = 0x0100;
/// Window message of a key going up.
pub const WM_KEYUP: usize = 0x0101;
/// Window message of a key going down while Alt is held.
pub const WM_SYSKEYDOWN: usize = 0x0104;
/// Window message of a key going up while Alt is held.
pub const WM_SYSKEYUP: usize = 0x0105;
/// Window message of pointer motion.
pub const WM_MOUSEMOVE: usize = 0x0200;
pub const WM_LBUTTONDOWN: usize = 0x0201;
pub const WM_LBUTTONUP: usize = 0x0202;
pub const WM_RBUTTONDOWN: usize = 0x0204;
pub const WM_RBUTTONUP: usize = 0x0205;
pub const WM_MBUTTONDOWN: usize = 0x0207;
pub const WM_MBUTTONUP: usize = 0x0208;
/// Window message of a vertical wheel turn.
pub const WM_MOUSEWHEEL: usize = 0x020A;
pub const WM_XBUTTONDOWN: usize = 0x020B;
pub const WM_XBUTTONUP: usize = 0x020C;
/// The flag of a low-level keyboard event that marks an extended key.
pub const LLKHF_EXTENDED: u32 = 0x01;

/// A pointer event made from a hooked mouse message. Motion is relative to
/// the point where the pointer entered the client.
#[derive(Clone, Copy, Debug, PartialEq, Eq, Structural)]
pub enum HookPointerEvent {
    Motion { dx: i32, dy: i32 },
    Button { button: u32, state: u32 },
    AxisDiscrete120 { axis: u8, value: i32 },
}

/// The wheel delta of a `WM_MOUSEWHEEL`, in 120ths of a notch and with the
/// sign that scrolling down is positive: the high word of `mouse_data`,
/// negated.
pub open spec fn wheel_value(mouse_data: u32) -> int {
    -((mouse_data as i32) >> 16u32)
}

/// The side button that the high word of `mouse_data` names.
pub open spec fn spec_side_button(mouse_data: u32) -> Option<u32> {
    if mouse_data >> 16u32 == 1 {
        Some(BTN_BACK)
    } else if mouse_data >> 16u32 == 2 {
        Some(BTN_FORWARD)
    } else {
        None
    }
}

/// The pointer event of a hooked mouse message, if it is one the capture
/// forwards.
pub open spec fn spec_mouse_event(message: usize, point: (i32, i32), mouse_data: u32, entry: (i32, i32)) -> Option<
    HookPointerEvent,
> {
    if message == WM_LBUTTONDOWN {
        Some(HookPointerEvent::Button { button: BTN_LEFT, state: 1 })
    } else if message == WM_MBUTTONDOWN {
        Some(HookPointerEvent::Button { button: BTN_MIDDLE, state: 1 })
    } else if message == WM_RBUTTONDOWN {
        Some(HookPointerEvent::Button { button: BTN_RIGHT, state: 1 })
    } else if message == WM_LBUTTONUP {
        Some(HookPointerEvent::Button { button: BTN_LEFT, state: 0 })
    } else if message == WM_MBUTTONUP {
        Some(HookPointerEvent::Button { button: BTN_MIDDLE, state: 0 })
    } else if message == WM_RBUTTONUP {
        Some(HookPointerEvent::Button { button: BTN_RIGHT, state: 0 })
    } else if message == WM_MOUSEMOVE {
        Some(HookPointerEvent::Motion { dx: (point.0 - entry.0) as i32, dy: (point.1 - entry.1) as i32 })
    } else if message == WM_MOUSEWHEEL {
        Some(HookPointerEvent::AxisDiscrete120 { axis: 0, value: wheel_value(mouse_data) as i32 })
    } else if message == WM_XBUTTONDOWN || message == WM_XBUTTONUP {
        match spec_side_button(mouse_data) {
            Some(b) => Some(HookPointerEvent::Button { button: b, state: if message == WM_XBUTTONDOWN { 1 } else { 0 } }),
            None => None,
        }
    } else {
        None
    }
}

/// The motion deltas from `entry` to `point` fit an `i32`.
pub open spec fn motion_fits(point: (i32, i32), entry: (i32, i32)) -> bool {
    &&& i32::MIN <= point.0 - entry.0 <= i32::MAX
    &&& i32::MIN <= point.1 - entry.1 <= i32::MAX
}

/// The pointer event of a hooked mouse message: buttons, motion relative
/// to `entry`, the vertical wheel and the two side buttons.
pub fn to_mouse_event(message: usize, point: (i32, i32), mouse_data: u32, entry: (i32, i32)) -> (r: Option<
    HookPointerEvent,
>)
    requires
        message == WM_MOUSEMOVE ==> motion_fits(point, entry),
    ensures
        r == spec_mouse_event(message, point, mouse_data, entry),
{
    if message == WM_LBUTTONDOWN {
        Some(HookPointerEvent::Button { button: BTN_LEFT, state: 1 })
    } else if message == WM_MBUTTONDOWN {
        Some(HookPointerEvent::Button { button: BTN_MIDDLE, state: 1 })
    } else if message == WM_RBUTTONDOWN {
        Some(HookPointerEvent::Button { button: BTN_RIGHT, state: 1 })
    } else if message == WM_LBUTTONUP {
        Some(HookPointerEvent::Button { button: BTN_LEFT, state: 0 })
    } else if message == WM_MBUTTONUP {
        Some(HookPointerEvent::Button { button: BTN_MIDDLE, state: 0 })
    } else if message == WM_RBUTTONUP {
        Some(HookPointerEvent::Button { button: BTN_RIGHT, state: 0 })
    } else if message == WM_MOUSEMOVE {
        Some(HookPointerEvent::Motion { dx: point.0 - entry.0, dy: point.1 - entry.1 })
    } else if message == WM_MOUSEWHEEL {
        let high: i32 = (mouse_data as i32) >> 16u32;
        assert(-32768 <= (mouse_data as i32) >> 16u32 <= 32767) by (bit_vector);
        Some(HookPointerEvent::AxisDiscrete120 { axis: 0, value: -high })
    } else if message == WM_XBUTTONDOWN || message == WM_XBUTTONUP {
        let hb: u32 = mouse_data >> 16u32;
        let button = if hb == 1 {
            BTN_BACK
        } else if hb == 2 {
            BTN_FORWARD
        } else {
            return None;
        };
        Some(HookPointerEvent::Button { button, state: if message == WM_XBUTTONDOWN { 1 } else { 0 } })
    } else {
        None
    }
}

/// The scan code of a low-level keyboard event, with `0xE000` set for an
/// extended key.
pub fn extended_scan_code(scan_code: u32, flags: u32) -> (r: u32)
    ensures
        r == if flags & LLKHF_EXTENDED != 0 {
            scan_code | 0xE000u32
        } else {
            scan_code
        },
{
    if flags & LLKHF_EXTENDED != 0 {
        scan_code | 0xE000u32
    } else {
        scan_code
    }
}

/// The key state that a keyboard message reports: 1 going down, 0 going up.
pub open spec fn spec_key_state(message: usize) -> Option<u8> {
    if message == WM_KEYDOWN || message == WM_SYSKEYDOWN {
        Some(1)
    } else if message == WM_KEYUP || message == WM_SYSKEYUP {
        Some(0)
    } else {
        None
    }
}

/// The key event of a keyboard message for the evdev key `key`.
pub fn to_key_event(message: usize, key: u32) -> (r: Option<KeyboardEvent>)
    ensures
        r == match spec_key_state(message) {
            Some(state) => Some(KeyboardEvent::Key { time: 0, key, state }),
            None => None,
        },
{
    if message == WM_KEYDOWN || message == WM_SYSKEYDOWN {
        Some(KeyboardEvent::Key { time: 0, key, state: 1 })
    } else if message == WM_KEYUP || message == WM_SYSKEYUP {
        Some(KeyboardEvent::Key { time: 0, key, state: 0 })
    } else {
        None
    }
}

/// The bounds of a display at `(x, y)` of `width` by `height` pixels.
pub fn display_rect(x: i32, y: i32, width: u32, height: u32) -> (r: DisplayRect)
    requires
        i32::MIN <= x + (width as i32) <= i32::MAX,
        i32::MIN <= y + (height as i32) <= i32::MAX,
    ensures
        r == (DisplayRect { left: x, right: (x + (width as i32)) as i32, top: y, bottom: (y + (height as i32)) as i32 }),
{
    DisplayRect { left: x, right: x + width as i32, top: y, bottom: y + height as i32 }
}

/// A change to the positions that have a client.
#[derive(Clone, Copy, Debug, PartialEq, Eq, Structural)]
pub enum HookRequest {
    Create(Position),
    Destroy(Position),
}

/// What became of a hooked mouse message.
#[derive(Clone, Copy, Debug, PartialEq, Eq)]
pub struct MouseHookOutcome {
    /// a capture begins at this position
    pub begin: Option<Position>,
    /// hand the message on to the other hooks and applications
    pub pass_on: bool,
    /// the event to send for the active client
    pub forward: Option<(Position, HookPointerEvent)>,
}

/// What became of a hooked keyboard message.
#[derive(Clone, Copy, Debug, PartialEq, Eq)]
pub struct KeyboardHookOutcome {
    /// hand the message on to the other hooks and applications
    pub pass_on: bool,
    /// the event to send for the active client
    pub forward: Option<(Position, KeyboardEvent)>,
}

/// The state that the hooks share: the client being captured for, the
/// positions with a client, the last pointer position and the point where
/// the pointer entered the active client.
#[derive(Clone, Copy, Debug)]
pub struct HookState {
    pub active_client: Option<Position>,
    pub clients: PositionSet,
    pub prev_pos: Option<(i32, i32)>,
    pub entry_point: (i32, i32),
}

/// The state after a mouse message at `point` in state `s`, and whether a
/// client was active before it: only motion is looked at; a motion from the
/// previous position (or from `point` itself, for the first one) that enters
/// the barrier of a position with a client activates that client, and the
/// entry point is `point` clamped to the display the pointer came from.
pub open spec fn spec_activation(s: HookState, is_motion: bool, point: (i32, i32), displays: Seq<DisplayRect>) -> (
    HookState,
    bool,
) {
    let was_active = s.active_client is Some;
    if !is_motion {
        (s, was_active)
    } else {
        let prev = match s.prev_pos {
            Some(p) => p,
            None => point,
        };
        let moved = HookState { prev_pos: Some(point), ..s };
        if was_active {
            (moved, was_active)
        } else {
            match spec_entered_barrier(prev, point, displays) {
                Some(p) => if s.clients.has(p) {
                    let d = displays[first_display(displays, prev)];
                    (
                        HookState {
                            active_client: Some(p),
                            entry_point: (
                                clamp_to(point.0 as int, d.left as int, d.right - 1) as i32,
                                clamp_to(point.1 as int, d.top as int, d.bottom - 1) as i32,
                            ),
                            ..moved
                        },
                        was_active,
                    )
                } else {
                    (moved, was_active)
                },
                None => (moved, was_active),
            }
        }
    }
}

impl HookState {
    /// No client, nothing active, no pointer position seen yet.
    pub fn new() -> (r: HookState)
        ensures
            r.active_client is None,
            forall|p: Position| !#[trigger] r.clients.has(p),
            r.prev_pos is None,
            r.entry_point == (0i32, 0i32),
    {
        HookState { active_client: None, clients: PositionSet::empty(), prev_pos: None, entry_point: (0, 0) }
    }

    /// Add or remove the client at a position; removing the active client
    /// ends its capture.
    pub fn update_clients(&mut self, request: HookRequest)
        ensures
            final(self).prev_pos == old(self).prev_pos,
            final(self).entry_point == old(self).entry_point,
            match request {
                HookRequest::Create(p) => {
                    &&& final(self).clients.has(p)
                    &&& forall|q: Position| q != p ==> #[trigger] final(self).clients.has(q) == old(self).clients.has(q)
                    &&& final(self).active_client == old(self).active_client
                },
                HookRequest::Destroy(p) => {
                    &&& !final(self).clients.has(p)
                    &&& forall|q: Position| q != p ==> #[trigger] final(self).clients.has(q) == old(self).clients.has(q)
                    &&& final(self).active_client == if old(self).active_client == Some(p) {
                        None
                    } else {
                        old(self).active_client
                    }
                },
            },
    {
        match request {
            HookRequest::Create(p) => {
                self.clients.insert(p);
            },
            HookRequest::Destroy(p) => {
                if self.active_client == Some(p) {
                    self.active_client = None;
                }
                self.clients.remove(p);
            },
        }
    }

    /// End the capture: no client is active any more.
    pub fn release(&mut self)
        ensures
            *final(self) == (HookState { active_client: None, ..*old(self) }),
    {
        self.active_client = None;
    }

    /// Track a mouse message and activate the client whose barrier the
    /// pointer crossed. Returns whether a client was active before.
    pub fn check_client_activation(&mut self, is_motion: bool, point: (i32, i32), displays: &[DisplayRect]) -> (r:
        bool)
        ensures
            (*final(self), r) == spec_activation(*old(self), is_motion, point, displays@),
    {
        let was_active = self.active_client.is_some();
        if !is_motion {
            return was_active;
        }
        let prev = match self.prev_pos {
            Some(p) => p,
            None => point,
        };
        self.prev_pos = Some(point);
        if was_active {
            return was_active;
        }
        let pos = match entered_barrier(prev, point, displays) {
            Some(p) => p,
            None => {
                return was_active;
            },
        };
        if !self.clients.contains(pos) {
            return was_active;
        }
        self.active_client = Some(pos);
        self.entry_point = clamp_to_display_bounds(displays, prev, point);
        was_active
    }

    /// Decide on a hooked mouse message: activate a client on crossing
    /// into its barrier, and, while a client was already active, swallow the
    /// message and forward its event. The message that activates a client
    /// still reaches the applications.
    pub fn mouse_hook(&mut self, message: usize, point: (i32, i32), mouse_data: u32, displays: &[DisplayRect]) -> (r:
        MouseHookOutcome)
        requires
            message == WM_MOUSEMOVE ==> old(self).active_client is Some ==> motion_fits(point, old(self).entry_point),
        ensures
            ({
                let (after, was_active) = spec_activation(*old(self), message == WM_MOUSEMOVE, point, displays@);
                &&& *final(self) == after
                &&& r.begin == if !was_active && after.active_client is Some {
                    after.active_client
                } else {
                    None
                }
                &&& r.pass_on == !was_active
                &&& r.forward == if was_active {
                    match spec_mouse_event(message, point, mouse_data, after.entry_point) {
                        Some(e) => Some((after.active_client->0, e)),
                        None => None,
                    }
                } else {
                    None
                }
            }),
    {
        let was_active = self.check_client_activation(message == WM_MOUSEMOVE, point, displays);
        let begin = if !was_active && self.active_client.is_some() {
            self.active_client
        } else {
            None
        };
        if !was_active {
            return MouseHookOutcome { begin, pass_on: true, forward: None };
        }
        let pos = match self.active_client {
            Some(p) => p,
            None => {
                return MouseHookOutcome { begin, pass_on: false, forward: None };
            },
        };
        let forward = match to_mouse_event(message, point, mouse_data, self.entry_point) {
            Some(e) => Some((pos, e)),
            None => None,
        };
        MouseHookOutcome { begin, pass_on: false, forward }
    }

    /// Decide on a hooked keyboard message: without an active client it
    /// reaches the applications; with one it is swallowed and its key event,
    /// when the scan code has an evdev key (`key`), goes to that client.
    pub fn keyboard_hook(&self, message: usize, key: Option<u32>) -> (r: KeyboardHookOutcome)
        ensures
            r.pass_on == (self.active_client is None),
            r.forward == match (self.active_client, key) {
                (Some(p), Some(k)) => match spec_key_state(message) {
                    Some(state) => Some((p, KeyboardEvent::Key { time: 0, key: k, state })),
                    None => None,
                },
                _ => None,
            },
    {
        let client = match self.active_client {
            Some(p) => p,
            None => {
                return KeyboardHookOutcome { pass_on: true, forward: None };
            },
        };
        let k = match key {
            Some(k) => k,
            None => {
                return KeyboardHookOutcome { pass_on: false, forward: None };
            },
        };
        let forward = match to_key_event(message, k) {
            Some(e) => Some((client, e)),
            None => None,
        };
        KeyboardHookOutcome { pass_on: false, forward }
    }
}

/// A crossing activates only a position that has a client, and the point
/// where the pointer enters lies on the display it came from.
pub proof fn lemma_activation_enters_client_on_source_display(
    s: HookState,
    is_motion: bool,
    point: (i32, i32),
    displays: Seq<DisplayRect>,
)
    requires
        s.active_client is None,
        spec_activation(s, is_motion, point, displays).0.active_client is Some,
    ensures
        ({
            let after = spec_activation(s, is_motion, point, displays).0;
            let prev = match s.prev_pos {
                Some(p) => p,
                None => point,
            };
            &&& is_motion
            &&& s.clients.has(after.active_client->0)
            &&& spec_entered_barrier(prev, point, displays) == after.active_client
            &&& within_region(after.entry_point, displays[first_display(displays, prev)])
        }),
{
    let prev = match s.prev_pos {
        Some(p) => p,
        None => point,
    };
    crate::display::lemma_first_display(displays, prev);
}

/// While a client is active, hooked messages neither change which client it
/// is nor move its entry point: only a release or its removal ends it.
pub proof fn lemma_active_client_stays(s: HookState, is_motion: bool, point: (i32, i32), displays: Seq<DisplayRect>)
    requires
        s.active_client is Some,
    ensures
        spec_activation(s, is_motion, point, displays).0.active_client == s.active_client,
        spec_activation(s, is_motion, point, displays).0.entry_point == s.entry_point,
        spec_activation(s, is_motion, point, displays).1,
{
}

} // verus!
