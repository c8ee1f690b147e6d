//! Decisions of input capture: when the pointer leaves the screen, where it
//! re-enters, which handles an event goes to, and when a key bind fires.
use std::collections::HashSet;
use vstd::prelude::*;

use crate::Position;

verus! {

/// evdev code of the left mouse button.
pub const BTN_LEFT: u32 = 0x110;
/// evdev code of the right mouse button.
pub const BTN_RIGHT: u32 = 0x111;
/// evdev code of the middle mouse button.
pub const BTN_MIDDLE: u32 = 0x112;
/// evdev code of the "back" side button.
pub const BTN_BACK: u32 = 0x113;
/// evdev code of the "forward" side button.
pub const BTN_FORWARD: u32 = 0x114;

/// The edge of a `w` x `h` screen that a pointer moving from `prev` to `curr`
/// reached. The pointer is clamped to `[0, w-1] x [0, h-1]`, so arriving at the
/// last pixel row or column counts as crossing the right or bottom edge.
pub open spec fn spec_crossed_boundary(prev: (i32, i32), curr: (i32, i32), w: int, h: int) -> Option<Position> {
    if prev.0 > 0 && curr.0 <= 0 {
        Some(Position::Left)
    } else if prev.0 < w - 1 && curr.0 >= w - 1 {
        Some(Position::Right)
    } else if prev.1 > 0 && curr.1 <= 0 {
        Some(Position::Top)
    } else if prev.1 < h - 1 && curr.1 >= h - 1 {
        Some(Position::Bottom)
    } else {
        None
    }
}

/// The screen edge crossed by a pointer move, checked left, right, top, bottom.
pub fn crossed_boundary(prev: (i32, i32), curr: (i32, i32), w: i32, h: i32) -> (r: Option<Position>)
    requires
        w > i32::MIN,
        h > i32::MIN,
    ensures
        r == spec_crossed_boundary(prev, curr, w as int, h as int),
{
    if prev.0 > 0 && curr.0 <= 0 {
        Some(Position::Left)
    } else if prev.0 < w - 1 && curr.0 >= w - 1 {
        Some(Position::Right)
    } else if prev.1 > 0 && curr.1 <= 0 {
        Some(Position::Top)
    } else if prev.1 < h - 1 && curr.1 >= h - 1 {
        Some(Position::Bottom)
    } else {
        None
    }
}

/// `v` limited to `[lo, hi]`.
pub open spec fn clamp_int(v: int, lo: int, hi: int) -> int {
    if v < lo {
        lo
    } else if v > hi {
        hi
    } else {
        v
    }
}

/// The point on a `w` x `h` screen nearest to `pos`.
pub fn clamp_to_screen(pos: (i32, i32), w: i32, h: i32) -> (r: (i32, i32))
    requires
        w >= 1,
        h >= 1,
    ensures
        r.0 == clamp_int(pos.0 as int, 0, w - 1),
        r.1 == clamp_int(pos.1 as int, 0, h - 1),
{
    let x = if pos.0 < 0 {
        0
    } else if pos.0 > w - 1 {
        w - 1
    } else {
        pos.0
    };
    let y = if pos.1 < 0 {
        0
    } else if pos.1 > h - 1 {
        h - 1
    } else {
        pos.1
    };
    (x, y)
}

/// Where a crossing begins capture, the pointer is held on the edge it
/// crossed: the first or last column for left and right, the first or last
/// row for top and bottom, and inside the screen along that edge.
pub proof fn lemma_entry_on_crossed_edge(prev: (i32, i32), curr: (i32, i32), w: int, h: int)
    requires
        w >= 1,
        h >= 1,
        spec_crossed_boundary(prev, curr, w, h) is Some,
    ensures
        ({
            let x = clamp_int(curr.0 as int, 0, w - 1);
            let y = clamp_int(curr.1 as int, 0, h - 1);
            &&& 0 <= x < w
            &&& 0 <= y < h
            &&& match spec_crossed_boundary(prev, curr, w, h) {
                Some(Position::Left) => x == 0,
                Some(Position::Right) => x == w - 1,
                Some(Position::Top) => y == 0,
                Some(Position::Bottom) => y == h - 1,
                None => false,
            }
        }),
{
}

/// The evdev button code of an X11 core pointer button: 1 is left, 2 middle,
/// 3 right; other buttons have none.
pub open spec fn spec_x11_button_to_evdev(button: u32) -> Option<u32> {
    if button == 1 {
        Some(BTN_LEFT)
    } else if button == 2 {
        Some(BTN_MIDDLE)
    } else if button == 3 {
        Some(BTN_RIGHT)
    } else {
        None::<u32>
    }
}

pub fn x11_button_to_evdev(button: u32) -> (r: Option<u32>)
    ensures
        r == spec_x11_button_to_evdev(button),
{
    match button {
        1 => Some(BTN_LEFT),
        2 => Some(BTN_MIDDLE),
        3 => Some(BTN_RIGHT),
        _ => None,
    }
}

/// What the routing of a captured event looks at: whether it begins capture.
#[derive(Clone, Copy, Debug, PartialEq, Eq, Structural)]
pub enum CaptureEventKind {
    /// capture on this position is now active
    Begin,
    /// an input event from the capture
    Input,
}

/// The handles that receive an event: a `Begin` that must go to enter-only
/// handles goes to those of `handles` alone, in order; any other event to all.
pub fn route_handles(
    handles: &[u64],
    enter_only_handles: &HashSet<u64>,
    event: CaptureEventKind,
    event_requires_enter_only: bool,
) -> (r: Vec<u64>)
    ensures
        r@ == if event == CaptureEventKind::Begin && event_requires_enter_only {
            handles@.filter(|h: u64| enter_only_handles@.contains(h))
        } else {
            handles@
        },
{
    broadcast use vstd::std_specs::hash::group_hash_axioms;

    let mut r: Vec<u64> = Vec::new();
    if event == CaptureEventKind::Begin && event_requires_enter_only {
        let ghost keep = |h: u64| enter_only_handles@.contains(h);
        let mut i: usize = 0;
        while i < handles.len()
            invariant
                0 <= i <= handles@.len(),
                keep == (|h: u64| enter_only_handles@.contains(h)),
                r@ == handles@.take(i as int).filter(keep),
            decreases handles.len() - i,
        {
            proof {
                handles@.take(i as int).lemma_filter_push(handles@[i as int], keep);
                assert(handles@.take(i + 1) =~= handles@.take(i as int).push(handles@[i as int]));
            }
            let h = handles[i];
            if enter_only_handles.contains(&h) {
                r.push(h);
            }
            i += 1;
        }
        assert(handles@.take(handles.len() as int) =~= handles@);
    } else {
        let mut i: usize = 0;
        while i < handles.len()
            invariant
                0 <= i <= handles@.len(),
                r@ == handles@.take(i as int),
            decreases handles.len() - i,
        {
            assert(handles@.take(i + 1) =~= handles@.take(i as int).push(handles@[i as int]));
            r.push(handles[i]);
            i += 1;
        }
        assert(handles@.take(handles.len() as int) =~= handles@);
    }
    r
}

/// An input capture backend.
#[derive(Clone, Copy, Debug, PartialEq, Eq, Structural)]
pub enum Backend {
    InputCapturePortal,
    LayerShell,
    X11,
    Windows,
    MacOs,
    Dummy,
}

pub open spec fn spec_backend_name(b: Backend) -> Seq<char> {
    match b {
        Backend::InputCapturePortal => "input-capture-portal"@,
        Backend::LayerShell => "layer-shell"@,
        Backend::X11 => "X11"@,
        Backend::Windows => "windows"@,
        Backend::MacOs => "MacOS"@,
        Backend::Dummy => "dummy"@,
    }
}

impl Backend {
    /// The backend's name, as it is shown to the user.
    pub fn name(&self) -> (r: &'static str)
        ensures
            r@ == spec_backend_name(*self),
    {
        match self {
            Backend::InputCapturePortal => "input-capture-portal",
            Backend::LayerShell => "layer-shell",
            Backend::X11 => "X11",
            Backend::Windows => "windows",
            Backend::MacOs => "MacOS",
            Backend::Dummy => "dummy",
        }
    }
}

/// Why the X11 capture backend could not start.
#[derive(Clone, Copy, Debug, PartialEq, Eq, Structural)]
pub enum X11InputCaptureCreationError {
    NotImplemented,
    OpenDisplayFailed,
}

impl X11InputCaptureCreationError {
    pub fn message(&self) -> (r: &'static str)
        ensures
            r@ == match self {
                X11InputCaptureCreationError::NotImplemented => "X11 input capture is not yet implemented :("@,
                X11InputCaptureCreationError::OpenDisplayFailed => "could not open display"@,
            },
    {
        match self {
            X11InputCaptureCreationError::NotImplemented => "X11 input capture is not yet implemented :(",
            X11InputCaptureCreationError::OpenDisplayFailed => "could not open display",
        }
    }
}

/// Why the macOS capture backend could not start.
#[derive(Clone, Copy, Debug, PartialEq, Eq, Structural)]
pub enum MacosCaptureCreationError {
    EventSourceCreation,
    EventTapCreation,
    CGCursorProperty,
    AccessibilityPermission,
    InputMonitoringPermission,
    /// the active displays could not be listed; the Core Graphics error code
    ActiveDisplays(i32),
}

/// The outcome of the permission checks that the macOS capture backend
/// needs: both are asked for, so that the first launch shows both prompts,
/// and the accessibility permission is reported missing first.
pub fn request_macos_capture_permissions(accessibility: bool, input_monitoring: bool) -> (r: Result<
    (),
    MacosCaptureCreationError,
>)
    ensures
        r == if !accessibility {
            Err(MacosCaptureCreationError::AccessibilityPermission)
        } else if !input_monitoring {
            Err(MacosCaptureCreationError::InputMonitoringPermission)
        } else {
            Ok::<(), MacosCaptureCreationError>(())
        },
{
    if !accessibility {
        return Err(MacosCaptureCreationError::AccessibilityPermission);
    }
    if !input_monitoring {
        return Err(MacosCaptureCreationError::InputMonitoringPermission);
    }
    Ok(())
}

/// A set of positions.
#[derive(Clone, Copy, Debug, Default, PartialEq, Eq, Structural)]
pub struct PositionSet {
    pub left: bool,
    pub right: bool,
    pub top: bool,
    pub bottom: bool,
}

impl PositionSet {
    pub open spec fn has(self, p: Position) -> bool {
        match p {
            Position::Left => self.left,
            Position::Right => self.right,
            Position::Top => self.top,
            Position::Bottom => self.bottom,
        }
    }

    pub fn empty() -> (r: PositionSet)
        ensures
            forall|p: Position| !#[trigger] r.has(p),
    {
        PositionSet { left: false, right: false, top: false, bottom: false }
    }

    pub fn contains(&self, p: Position) -> (r: bool)
        ensures
            r == self.has(p),
    {
        match p {
            Position::Left => self.left,
            Position::Right => self.right,
            Position::Top => self.top,
            Position::Bottom => self.bottom,
        }
    }

    /// Add `p`; returns whether it was missing.
    pub fn insert(&mut self, p: Position) -> (r: bool)
        ensures
            r == !old(self).has(p),
            final(self).has(p),
            forall|q: Position| q != p ==> #[trigger] final(self).has(q) == old(self).has(q),
    {
        let r = !self.contains(p);
        match p {
            Position::Left => self.left = true,
            Position::Right => self.right = true,
            Position::Top => self.top = true,
            Position::Bottom => self.bottom = true,
        }
        r
    }

    /// Remove `p`; returns whether it was there.
    pub fn remove(&mut self, p: Position) -> (r: bool)
        ensures
            r == old(self).has(p),
            !final(self).has(p),
            forall|q: Position| q != p ==> #[trigger] final(self).has(q) == old(self).has(q),
    {
        let r = self.contains(p);
        match p {
            Position::Left => self.left = false,
            Position::Right => self.right = false,
            Position::Top => self.top = false,
            Position::Bottom => self.bottom = false,
        }
        r
    }
}

} // verus!
