//! The decisions of the X11 capture thread: which positions have a client,
//! when a pointer move begins capture, and what a grabbed event becomes.
use vstd::prelude::*;

use crate::capture::{clamp_int, clamp_to_screen, crossed_boundary, spec_crossed_boundary, x11_button_to_evdev, PositionSet, BTN_LEFT, BTN_MIDDLE, BTN_RIGHT};
use crate::event::KeyboardEvent;
use crate::wire::{Event, PointerEvent};
use crate::Position;

verus! {

/// A request from the async side to the capture thread.
#[derive(Clone, Copy, Debug, PartialEq, Eq, Structural)]
pub enum X11Request {
    Create(Position),
    Destroy(Position),
    Release,
    Terminate,
}

/// What the thread does for a request besides updating its state.
#[derive(Clone, Copy, Debug, PartialEq, Eq, Structural)]
pub enum X11RequestAction {
    Nothing,
    /// ungrab pointer and keyboard
    Ungrab,
    /// close the display and end the thread
    Terminate,
}

/// The capture thread's state.
#[derive(Clone, Copy, Debug)]
pub struct X11CaptureState {
    pub screen_w: i32,
    pub screen_h: i32,
    /// the positions with a client
    pub clients: PositionSet,
    /// the position captured for, while the pointer is grabbed
    pub active_client: Option<Position>,
    /// where the pointer is held while grabbed
    pub entry_point: (i32, i32),
    /// the pointer position seen last while not grabbed
    pub prev_pos: (i32, i32),
}

impl X11CaptureState {
    /// No client, nothing grabbed, on a `screen_w` x `screen_h` screen.
    pub fn new(screen_w: i32, screen_h: i32) -> (r: X11CaptureState)
        ensures
            r.screen_w == screen_w,
            r.screen_h == screen_h,
            forall|p: Position| !#[trigger] r.clients.has(p),
            r.active_client is None,
            r.entry_point == (0i32, 0i32),
            r.prev_pos == (0i32, 0i32),
    {
        X11CaptureState {
            screen_w,
            screen_h,
            clients: PositionSet::empty(),
            active_client: None,
            entry_point: (0, 0),
            prev_pos: (0, 0),
        }
    }

    /// Apply a request: a client is added or removed (destroying the active
    /// one releases the grab), a release always ungrabs, and termination
    /// ends the thread.
    pub fn handle_request(&mut self, req: X11Request) -> (r: X11RequestAction)
        ensures
            match req {
                X11Request::Create(p) => {
                    &&& r == X11RequestAction::Nothing
                    &&& final(self).clients.has(p)
                    &&& forall|q: Position| q != p ==> #[trigger] final(self).clients.has(q) == old(self).clients.has(q)
                    &&& final(self).active_client == old(self).active_client
                },
                X11Request::Destroy(p) => {
                    &&& !final(self).clients.has(p)
                    &&& forall|q: Position| q != p ==> #[trigger] final(self).clients.has(q) == old(self).clients.has(q)
                    &&& if old(self).active_client == Some(p) {
                        r == X11RequestAction::Ungrab && final(self).active_client is None
                    } else {
                        r == X11RequestAction::Nothing && final(self).active_client == old(self).active_client
                    }
                },
                X11Request::Release => {
                    &&& r == X11RequestAction::Ungrab
                    &&& final(self).active_client is None
                    &&& final(self).clients == old(self).clients
                },
                X11Request::Terminate => r == X11RequestAction::Terminate && *final(self) == *old(self),
            },
            final(self).screen_w == old(self).screen_w,
            final(self).screen_h == old(self).screen_h,
            final(self).entry_point == old(self).entry_point,
            final(self).prev_pos == old(self).prev_pos,
    {
        match req {
            X11Request::Create(p) => {
                self.clients.insert(p);
                X11RequestAction::Nothing
            },
            X11Request::Destroy(p) => {
                self.clients.remove(p);
                if self.active_client == Some(p) {
                    self.active_client = None;
                    X11RequestAction::Ungrab
                } else {
                    X11RequestAction::Nothing
                }
            },
            X11Request::Release => {
                self.active_client = None;
                X11RequestAction::Ungrab
            },
            X11Request::Terminate => X11RequestAction::Terminate,
        }
    }

    /// A pointer position polled while nothing is grabbed: when the move from
    /// the previous one crosses a screen edge that has a client, the
    /// position to capture for and where to hold the pointer (the new
    /// position, clamped to the screen). The position is remembered.
    pub fn pointer_polled(&mut self, curr: (i32, i32)) -> (r: Option<(Position, (i32, i32))>)
        requires
            old(self).screen_w >= 1,
            old(self).screen_h >= 1,
        ensures
            final(self).prev_pos == curr,
            final(self).clients == old(self).clients,
            final(self).active_client == old(self).active_client,
            final(self).entry_point == old(self).entry_point,
            final(self).screen_w == old(self).screen_w,
            final(self).screen_h == old(self).screen_h,
            r == match spec_crossed_boundary(old(self).prev_pos, curr, old(self).screen_w as int, old(self).screen_h as int) {
                Some(p) => if old(self).clients.has(p) {
                    Some(
                        (
                            p,
                            (
                                clamp_int(curr.0 as int, 0, old(self).screen_w - 1) as i32,
                                clamp_int(curr.1 as int, 0, old(self).screen_h - 1) as i32,
                            ),
                        ),
                    )
                } else {
                    None
                },
                None => None,
            },
    {
        let crossed = crossed_boundary(self.prev_pos, curr, self.screen_w, self.screen_h);
        self.prev_pos = curr;
        match crossed {
            Some(p) => if self.clients.contains(p) {
                Some((p, clamp_to_screen(curr, self.screen_w, self.screen_h)))
            } else {
                None
            },
            None => None,
        }
    }

    /// The pointer was grabbed for `pos` and is held at `entry`.
    pub fn grabbed(&mut self, pos: Position, entry: (i32, i32))
        ensures
            final(self).active_client == Some(pos),
            final(self).entry_point == entry,
            final(self).clients == old(self).clients,
            final(self).prev_pos == old(self).prev_pos,
            final(self).screen_w == old(self).screen_w,
            final(self).screen_h == old(self).screen_h,
    {
        self.entry_point = entry;
        self.active_client = Some(pos);
    }

    /// The relative motion of a grabbed pointer now at `curr`: its offset
    /// from where it is held, none for the echo of warping it back there.
    pub fn motion_delta(&self, curr: (i32, i32)) -> (r: Option<(i32, i32)>)
        requires
            i32::MIN <= curr.0 - self.entry_point.0 <= i32::MAX,
            i32::MIN <= curr.1 - self.entry_point.1 <= i32::MAX,
        ensures
            r == if curr == self.entry_point {
                None
            } else {
                Some(((curr.0 - self.entry_point.0) as i32, (curr.1 - self.entry_point.1) as i32))
            },
    {
        let dx = curr.0 - self.entry_point.0;
        let dy = curr.1 - self.entry_point.1;
        if dx == 0 && dy == 0 {
            None
        } else {
            Some((dx, dy))
        }
    }
}

/// A button or key event of the grabbed X server devices.
#[derive(Clone, Copy, Debug, PartialEq, Eq, Structural)]
pub enum X11Input {
    ButtonPress(u32),
    ButtonRelease(u32),
    /// a key going down, by X server keycode
    KeyPress(u32),
    KeyRelease(u32),
}

/// The evdev button of an X server button: left, middle and right only.
pub open spec fn spec_x11_button(button: u32) -> Option<u32> {
    if button == 1 {
        Some(BTN_LEFT)
    } else if button == 2 {
        Some(BTN_MIDDLE)
    } else if button == 3 {
        Some(BTN_RIGHT)
    } else {
        None
    }
}

/// The evdev key of an X server keycode.
pub open spec fn spec_x11_key(keycode: u32) -> u32 {
    if keycode >= 8 {
        (keycode - 8) as u32
    } else {
        0
    }
}

/// The event that a grabbed button or key event becomes for the active
/// client: buttons other than the three main ones, and anything while no
/// client is active, become none.
pub open spec fn spec_x11_input_event(active: Option<Position>, input: X11Input) -> Option<(Position, Event)> {
    match active {
        None => None,
        Some(p) => match input {
            X11Input::ButtonPress(b) => match spec_x11_button(b) {
                Some(button) => Some((p, Event::Pointer(PointerEvent::Button { time: 0, button, state: 1 }))),
                None => None,
            },
            X11Input::ButtonRelease(b) => match spec_x11_button(b) {
                Some(button) => Some((p, Event::Pointer(PointerEvent::Button { time: 0, button, state: 0 }))),
                None => None,
            },
            X11Input::KeyPress(k) => Some(
                (p, Event::Keyboard(KeyboardEvent::Key { time: 0, key: spec_x11_key(k), state: 1 })),
            ),
            X11Input::KeyRelease(k) => Some(
                (p, Event::Keyboard(KeyboardEvent::Key { time: 0, key: spec_x11_key(k), state: 0 })),
            ),
        },
    }
}

impl X11CaptureState {
    /// The event for the active client of a grabbed button or key event.
    pub fn input_event(&self, input: X11Input) -> (r: Option<(Position, Event)>)
        ensures
            r == spec_x11_input_event(self.active_client, input),
    {
        let p = match self.active_client {
            Some(p) => p,
            None => return None,
        };
        match input {
            X11Input::ButtonPress(b) => match x11_button_to_evdev(b) {
                Some(button) => Some((p, Event::Pointer(PointerEvent::Button { time: 0, button, state: 1 }))),
                None => None,
            },
            X11Input::ButtonRelease(b) => match x11_button_to_evdev(b) {
                Some(button) => Some((p, Event::Pointer(PointerEvent::Button { time: 0, button, state: 0 }))),
                None => None,
            },
            X11Input::KeyPress(k) => Some(
                (p, Event::Keyboard(KeyboardEvent::Key { time: 0, key: x11_keycode_to_evdev(k), state: 1 })),
            ),
            X11Input::KeyRelease(k) => Some(
                (p, Event::Keyboard(KeyboardEvent::Key { time: 0, key: x11_keycode_to_evdev(k), state: 0 })),
            ),
        }
    }
}

/// The evdev key code of an X server keycode: 8 less, and 0 below that.
pub open spec fn spec_x11_keycode_to_evdev(keycode: u32) -> u32 {
    if keycode >= 8 {
        (keycode - 8) as u32
    } else {
        0u32
    }
}

pub fn x11_keycode_to_evdev(keycode: u32) -> (r: u32)
    ensures
        r == spec_x11_keycode_to_evdev(keycode),
{
    keycode.saturating_sub(8)
}

} // verus!
