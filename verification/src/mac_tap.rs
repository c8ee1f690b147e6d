//! The decisions of the macOS capture event tap: which positions may be
//! entered, by physical or by emulated input, when a crossing begins capture,
//! and what happens to each tapped event.
use vstd::prelude::*;

use crate::capture::PositionSet;
use crate::emulation::XMods;
use crate::mac_capture::{get_events, spec_events, CapturedInput, KeyMapError, MacEventFields, MacEventType};
use crate::Position;

verus! {

/// Where the events of a capture come from.
#[derive(Clone, Copy, Debug, PartialEq, Eq, Structural)]
pub enum InputSource {
    /// the local mouse and keyboard
    Physical,
    /// events this app synthesized for an incoming remote pointer
    Emulated,
}

/// The kind of a tapped event, as the decisions look at it.
#[derive(Clone, Copy, Debug, PartialEq, Eq, Structural)]
pub enum TapEvent {
    /// the system disabled the tap because a callback took too long
    DisabledByTimeout,
    /// the tap was disabled deliberately (secure input, revoked permission)
    DisabledByUserInput,
    /// pointer motion, dragging included
    Motion,
    /// any other input event
    Other,
}

/// What to do with a tapped event.
#[derive(Clone, Copy, Debug, PartialEq, Eq, Structural)]
pub struct TapDecision {
    /// re-enable the tap
    pub reenable_tap: bool,
    /// show the cursor again and tell the producer that the tap is gone
    pub tap_lost: bool,
    /// the position the event's input goes to, if any
    pub capture_position: Option<Position>,
    /// translate the event into input events for the capture
    pub forward_events: bool,
    /// a capture begins at `capture_position`
    pub begin: bool,
    /// the capture goes to the enter-only handles alone
    pub route_enter_only: bool,
    /// warp the cursor to the edge and grab it for `capture_position`
    pub start_capture: bool,
    /// warp the hidden cursor back to where the capture holds it
    pub reset_cursor: bool,
    /// drop the event instead of passing it on
    pub drop_event: bool,
}

/// What the producer side asks of the capture state.
#[derive(Clone, Copy, Debug, PartialEq, Eq, Structural)]
pub enum ProducerEvent {
    Release,
    Create(Position),
    Destroy(Position),
    SetEnterOnly(Position, bool),
    Grab(Position, InputSource),
    EventTapDisabled,
}

/// The capture state of the macOS backend, without display geometry.
#[derive(Clone, Copy, Debug)]
pub struct MacCaptureState {
    /// the positions with a capture
    pub active_clients: PositionSet,
    /// positions used to return an incoming emulated pointer
    pub enter_only_clients: PositionSet,
    /// positions that physical input may enter now; a position is disarmed
    /// when crossed and armed again by a separate inward motion
    pub physical_armed_clients: PositionSet,
    /// positions where emulated input may signal a return now; armed only
    /// once it moved into the desktop, disarmed after one signal
    pub emulated_armed_clients: PositionSet,
    /// the position captured for, if any
    pub current_pos: Option<Position>,
    /// where the events of the active capture come from
    pub current_source: Option<InputSource>,
    /// the modifiers held during the capture
    pub modifier_state: XMods,
}

/// The decision that changes nothing and passes the event on.
pub open spec fn keep() -> TapDecision {
    TapDecision {
        reenable_tap: false,
        tap_lost: false,
        capture_position: None,
        forward_events: false,
        begin: false,
        route_enter_only: false,
        start_capture: false,
        reset_cursor: false,
        drop_event: false,
    }
}

fn keep_exec() -> (r: TapDecision)
    ensures
        r == keep(),
{
    TapDecision {
        reenable_tap: false,
        tap_lost: false,
        capture_position: None,
        forward_events: false,
        begin: false,
        route_enter_only: false,
        start_capture: false,
        reset_cursor: false,
        drop_event: false,
    }
}

/// The first of left, right, top and bottom that is both active and crossed.
pub open spec fn first_crossing(active: PositionSet, crossed: PositionSet) -> Option<Position> {
    if active.left && crossed.left {
        Some(Position::Left)
    } else if active.right && crossed.right {
        Some(Position::Right)
    } else if active.top && crossed.top {
        Some(Position::Top)
    } else if active.bottom && crossed.bottom {
        Some(Position::Bottom)
    } else {
        None
    }
}

/// One tapped event: the decision `r` on `event` from `source` in state
/// `before`, and the state `after` it. `crossed` are the barriers the pointer
/// reached and `inward` the positions toward which it moved inward.
pub open spec fn tap_step(
    before: MacCaptureState,
    event: TapEvent,
    source: InputSource,
    crossed: PositionSet,
    inward: PositionSet,
    r: TapDecision,
    after: MacCaptureState,
) -> bool {
    &&& after.active_clients == before.active_clients
    &&& after.enter_only_clients == before.enter_only_clients
    &&& after.modifier_state == before.modifier_state
    &&& event == TapEvent::DisabledByTimeout ==> r == (TapDecision { reenable_tap: true, ..keep() })
        && after == before
    &&& event == TapEvent::DisabledByUserInput ==> r == (TapDecision { tap_lost: true, ..keep() })
        && after.current_pos is None && after.current_source is None
        && after.physical_armed_clients == before.physical_armed_clients
        && after.emulated_armed_clients == before.emulated_armed_clients
    &&& (event == TapEvent::Motion || event == TapEvent::Other) && before.current_pos is Some ==> {
        if before.current_source == Some(source) {
            &&& r == (TapDecision {
                capture_position: before.current_pos,
                forward_events: true,
                drop_event: true,
                reset_cursor: event == TapEvent::Motion,
                ..keep()
            })
            &&& after == before
        } else {
            r == keep() && after == before
        }
    }
    &&& event == TapEvent::Other && before.current_pos is None ==> r == keep() && after == before
    &&& event == TapEvent::Motion && before.current_pos is None ==> {
        &&& after.current_pos == before.current_pos
        &&& after.current_source == before.current_source
        &&& match first_crossing(before.active_clients, crossed) {
            Some(p) => {
                let armed = if source == InputSource::Emulated {
                    before.emulated_armed_clients.has(p)
                } else {
                    before.physical_armed_clients.has(p)
                };
                &&& source == InputSource::Emulated ==> after.physical_armed_clients == before.physical_armed_clients
                    && !after.emulated_armed_clients.has(p)
                    && forall|q: Position| q != p ==> #[trigger] after.emulated_armed_clients.has(q) == before.emulated_armed_clients.has(q)
                &&& source == InputSource::Physical ==> after.emulated_armed_clients == before.emulated_armed_clients
                    && !after.physical_armed_clients.has(p)
                    && forall|q: Position| q != p ==> #[trigger] after.physical_armed_clients.has(q) == before.physical_armed_clients.has(q)
                &&& r == if !armed {
                    keep()
                } else if source == InputSource::Emulated && before.enter_only_clients.has(p) {
                    TapDecision { capture_position: Some(p), begin: true, route_enter_only: true, ..keep() }
                } else {
                    TapDecision { capture_position: Some(p), begin: true, start_capture: true, drop_event: true, ..keep() }
                }
            },
            None => {
                &&& r == keep()
                &&& forall|q: Position| #[trigger] after.physical_armed_clients.has(q) == (before.physical_armed_clients.has(q)
                    || (source == InputSource::Physical && before.active_clients.has(q) && inward.has(q)))
                &&& forall|q: Position| #[trigger] after.emulated_armed_clients.has(q) == (before.emulated_armed_clients.has(q)
                    || (source == InputSource::Emulated && before.active_clients.has(q) && inward.has(q)))
            },
        }
    }
}

impl MacCaptureState {
    pub fn new() -> (r: MacCaptureState)
        ensures
            forall|p: Position| !#[trigger] r.active_clients.has(p),
            forall|p: Position| !#[trigger] r.enter_only_clients.has(p),
            forall|p: Position| !#[trigger] r.physical_armed_clients.has(p),
            forall|p: Position| !#[trigger] r.emulated_armed_clients.has(p),
            r.current_pos is None,
            r.current_source is None,
            r.modifier_state.bits == 0,
    {
        MacCaptureState {
            active_clients: PositionSet::empty(),
            enter_only_clients: PositionSet::empty(),
            physical_armed_clients: PositionSet::empty(),
            emulated_armed_clients: PositionSet::empty(),
            current_pos: None,
            current_source: None,
            modifier_state: XMods::empty(),
        }
    }

    /// The first active position (left, right, top, bottom) among `crossed`,
    /// the positions whose barrier the moving pointer reached.
    pub fn crossing_position(&self, crossed: PositionSet) -> (r: Option<Position>)
        ensures
            r == first_crossing(self.active_clients, crossed),
            match r {
                Some(p) => self.active_clients.has(p) && crossed.has(p),
                None => forall|p: Position| !(#[trigger] self.active_clients.has(p) && crossed.has(p)),
            },
    {
        if self.active_clients.left && crossed.left {
            return Some(Position::Left);
        }
        if self.active_clients.right && crossed.right {
            return Some(Position::Right);
        }
        if self.active_clients.top && crossed.top {
            return Some(Position::Top);
        }
        if self.active_clients.bottom && crossed.bottom {
            return Some(Position::Bottom);
        }
        assert forall|p: Position| !(#[trigger] self.active_clients.has(p) && crossed.has(p)) by {
            match p {
                Position::Left => {},
                Position::Right => {},
                Position::Top => {},
                Position::Bottom => {},
            }
        }
        None
    }

    /// Arm, for `source`, every active position toward which the pointer
    /// moved inward (`inward`).
    pub fn arm_clients_on_inward_motion(&mut self, inward: PositionSet, emulated: bool)
        ensures
            forall|p: Position| #[trigger] final(self).physical_armed_clients.has(p) == (old(self).physical_armed_clients.has(p)
                || (!emulated && old(self).active_clients.has(p) && inward.has(p))),
            forall|p: Position| #[trigger] final(self).emulated_armed_clients.has(p) == (old(self).emulated_armed_clients.has(p)
                || (emulated && old(self).active_clients.has(p) && inward.has(p))),
            final(self).active_clients == old(self).active_clients,
            final(self).enter_only_clients == old(self).enter_only_clients,
            final(self).current_pos == old(self).current_pos,
            final(self).current_source == old(self).current_source,
            final(self).modifier_state == old(self).modifier_state,
    {
        let a = self.active_clients;
        let targets = PositionSet {
            left: a.left && inward.left,
            right: a.right && inward.right,
            top: a.top && inward.top,
            bottom: a.bottom && inward.bottom,
        };
        if emulated {
            self.emulated_armed_clients = PositionSet {
                left: self.emulated_armed_clients.left || targets.left,
                right: self.emulated_armed_clients.right || targets.right,
                top: self.emulated_armed_clients.top || targets.top,
                bottom: self.emulated_armed_clients.bottom || targets.bottom,
            };
        } else {
            self.physical_armed_clients = PositionSet {
                left: self.physical_armed_clients.left || targets.left,
                right: self.physical_armed_clients.right || targets.right,
                top: self.physical_armed_clients.top || targets.top,
                bottom: self.physical_armed_clients.bottom || targets.bottom,
            };
        }
        proof {
            assert forall|p: Position| #[trigger] self.physical_armed_clients.has(p) == (old(self).physical_armed_clients.has(p)
                || (!emulated && old(self).active_clients.has(p) && inward.has(p))) by {
                match p {
                    Position::Left => {},
                    Position::Right => {},
                    Position::Top => {},
                    Position::Bottom => {},
                }
            }
            assert forall|p: Position| #[trigger] self.emulated_armed_clients.has(p) == (old(self).emulated_armed_clients.has(p)
                || (emulated && old(self).active_clients.has(p) && inward.has(p))) by {
                match p {
                    Position::Left => {},
                    Position::Right => {},
                    Position::Top => {},
                    Position::Bottom => {},
                }
            }
        }
    }

    /// Decide on a tapped event from `source`. `crossed` are the barriers
    /// the pointer reached with this motion and `inward` the positions
    /// toward which it moved inward; both matter for motion only.
    pub fn tap_event(&mut self, event: TapEvent, source: InputSource, crossed: PositionSet, inward: PositionSet) -> (r:
        TapDecision)
        ensures
            tap_step(*old(self), event, source, crossed, inward, r, *final(self)),
    {
        if event == TapEvent::DisabledByTimeout {
            return TapDecision { reenable_tap: true, ..keep_exec() };
        }
        if event == TapEvent::DisabledByUserInput {
            self.current_pos = None;
            self.current_source = None;
            return TapDecision { tap_lost: true, ..keep_exec() };
        }
        if let Some(current) = self.current_pos {
            if self.current_source != Some(source) {
                return keep_exec();
            }
            return TapDecision {
                capture_position: Some(current),
                forward_events: true,
                drop_event: true,
                reset_cursor: event == TapEvent::Motion,
                ..keep_exec()
            };
        }
        if event != TapEvent::Motion {
            return keep_exec();
        }
        match self.crossing_position(crossed) {
            Some(new_pos) => {
                let armed = if source == InputSource::Emulated {
                    self.emulated_armed_clients.remove(new_pos)
                } else {
                    self.physical_armed_clients.remove(new_pos)
                };
                if !armed {
                    return keep_exec();
                }
                if source == InputSource::Emulated && self.enter_only_clients.contains(new_pos) {
                    TapDecision { capture_position: Some(new_pos), begin: true, route_enter_only: true, ..keep_exec() }
                } else {
                    TapDecision {
                        capture_position: Some(new_pos),
                        begin: true,
                        start_capture: true,
                        drop_event: true,
                        ..keep_exec()
                    }
                }
            },
            None => {
                self.arm_clients_on_inward_motion(inward, source == InputSource::Emulated);
                keep_exec()
            },
        }
    }

    /// Translate the event of an active capture, tracking the modifiers.
    pub fn capture_events(&mut self, t: MacEventType, f: &MacEventFields) -> (r: Result<Vec<CapturedInput>, KeyMapError>)
        requires
            t == MacEventType::ScrollWheel && !f.scroll_is_continuous ==> crate::mac_capture::lines_fit(f.line_delta_vertical)
                && crate::mac_capture::lines_fit(f.line_delta_horizontal),
        ensures
            match spec_events(t, *f, old(self).modifier_state) {
                Some(events) => r matches Ok(v) && v@ == events,
                None => r == Err::<Vec<CapturedInput>, KeyMapError>(KeyMapError { code: f.keycode }),
            },
            final(self).current_pos == old(self).current_pos,
            final(self).current_source == old(self).current_source,
            final(self).active_clients == old(self).active_clients,
    {
        get_events(t, f, &mut self.modifier_state)
    }

    /// Apply a producer event. Returns whether the cursor is to be shown
    /// (`Some(true)`) or hidden (`Some(false)`) first; the state changes
    /// only once that succeeded, as `apply_producer_event` does.
    pub fn cursor_change(&self, ev: ProducerEvent) -> (r: Option<bool>)
        ensures
            r == match ev {
                ProducerEvent::Release | ProducerEvent::EventTapDisabled => if self.current_pos is Some {
                    Some(true)
                } else {
                    None
                },
                ProducerEvent::Grab(_, _) => if self.current_pos is None {
                    Some(false)
                } else {
                    None
                },
                ProducerEvent::Destroy(p) => if self.current_pos == Some(p) {
                    Some(true)
                } else {
                    None
                },
                _ => None,
            },
    {
        match ev {
            ProducerEvent::Release | ProducerEvent::EventTapDisabled => if self.current_pos.is_some() {
                Some(true)
            } else {
                None
            },
            ProducerEvent::Grab(_, _) => if self.current_pos.is_none() {
                Some(false)
            } else {
                None
            },
            ProducerEvent::Destroy(p) => if self.current_pos == Some(p) {
                Some(true)
            } else {
                None
            },
            _ => None,
        }
    }

    /// Apply a producer event once its cursor change, if any, succeeded.
    pub fn apply_producer_event(&mut self, ev: ProducerEvent)
        ensures
            match ev {
                ProducerEvent::Release | ProducerEvent::EventTapDisabled => {
                    &&& final(self).current_pos is None
                    &&& final(self).current_source is None
                    &&& final(self).active_clients == old(self).active_clients
                    &&& final(self).enter_only_clients == old(self).enter_only_clients
                    &&& final(self).physical_armed_clients == old(self).physical_armed_clients
                    &&& final(self).emulated_armed_clients == old(self).emulated_armed_clients
                },
                ProducerEvent::Grab(p, s) => if old(self).current_pos is None {
                    &&& final(self).current_pos == Some(p)
                    &&& final(self).current_source == Some(s)
                    &&& final(self).active_clients == old(self).active_clients
                    &&& final(self).enter_only_clients == old(self).enter_only_clients
                    &&& final(self).physical_armed_clients == old(self).physical_armed_clients
                    &&& final(self).emulated_armed_clients == old(self).emulated_armed_clients
                } else {
                    *final(self) == *old(self)
                },
                ProducerEvent::Create(p) => {
                    &&& final(self).active_clients.has(p)
                    &&& final(self).physical_armed_clients.has(p)
                    &&& forall|q: Position| q != p ==> #[trigger] final(self).active_clients.has(q) == old(self).active_clients.has(q)
                    &&& forall|q: Position| q != p ==> #[trigger] final(self).physical_armed_clients.has(q) == old(self).physical_armed_clients.has(q)
                    &&& final(self).emulated_armed_clients == old(self).emulated_armed_clients
                    &&& final(self).enter_only_clients == old(self).enter_only_clients
                    &&& final(self).current_pos == old(self).current_pos
                    &&& final(self).current_source == old(self).current_source
                },
                ProducerEvent::Destroy(p) => {
                    &&& !final(self).active_clients.has(p)
                    &&& !final(self).physical_armed_clients.has(p)
                    &&& !final(self).emulated_armed_clients.has(p)
                    &&& !final(self).enter_only_clients.has(p)
                    &&& forall|q: Position| q != p ==> #[trigger] final(self).active_clients.has(q) == old(self).active_clients.has(q)
                    &&& forall|q: Position| q != p ==> #[trigger] final(self).physical_armed_clients.has(q) == old(self).physical_armed_clients.has(q)
                    &&& forall|q: Position| q != p ==> #[trigger] final(self).emulated_armed_clients.has(q) == old(self).emulated_armed_clients.has(q)
                    &&& forall|q: Position| q != p ==> #[trigger] final(self).enter_only_clients.has(q) == old(self).enter_only_clients.has(q)
                    &&& if old(self).current_pos == Some(p) {
                        final(self).current_pos is None && final(self).current_source is None
                    } else {
                        final(self).current_pos == old(self).current_pos && final(self).current_source == old(self).current_source
                    }
                },
                ProducerEvent::SetEnterOnly(p, enabled) => {
                    &&& final(self).enter_only_clients.has(p) == enabled
                    &&& forall|q: Position| q != p ==> #[trigger] final(self).enter_only_clients.has(q) == old(self).enter_only_clients.has(q)
                    &&& final(self).active_clients == old(self).active_clients
                    &&& final(self).physical_armed_clients == old(self).physical_armed_clients
                    &&& final(self).emulated_armed_clients == old(self).emulated_armed_clients
                    &&& final(self).current_pos == old(self).current_pos
                    &&& final(self).current_source == old(self).current_source
                },
            },
            final(self).modifier_state == old(self).modifier_state,
    {
        match ev {
            ProducerEvent::Release | ProducerEvent::EventTapDisabled => {
                self.current_pos = None;
                self.current_source = None;
            },
            ProducerEvent::Grab(p, s) => {
                if self.current_pos.is_none() {
                    self.current_pos = Some(p);
                    self.current_source = Some(s);
                }
            },
            ProducerEvent::Create(p) => {
                self.active_clients.insert(p);
                self.physical_armed_clients.insert(p);
            },
            ProducerEvent::Destroy(p) => {
                self.physical_armed_clients.remove(p);
                self.emulated_armed_clients.remove(p);
                self.enter_only_clients.remove(p);
                if self.current_pos == Some(p) {
                    self.current_pos = None;
                    self.current_source = None;
                }
                self.active_clients.remove(p);
            },
            ProducerEvent::SetEnterOnly(p, enabled) => {
                if enabled {
                    self.enter_only_clients.insert(p);
                } else {
                    self.enter_only_clients.remove(p);
                }
            },
        }
    }
}

/// The positions that input from `source` may enter now.
pub open spec fn armed_for(s: MacCaptureState, source: InputSource) -> PositionSet {
    if source == InputSource::Emulated {
        s.emulated_armed_clients
    } else {
        s.physical_armed_clients
    }
}

/// A crossing that began a capture disarms its position for its source: as
/// long as nothing re-arms it, crossing there again from the same source
/// begins nothing and passes the event on.
pub proof fn lemma_crossing_disarms(
    s0: MacCaptureState,
    s1: MacCaptureState,
    mid: MacCaptureState,
    s2: MacCaptureState,
    source: InputSource,
    crossed0: PositionSet,
    inward0: PositionSet,
    r0: TapDecision,
    crossed: PositionSet,
    inward: PositionSet,
    r: TapDecision,
)
    requires
        s0.current_pos is None,
        tap_step(s0, TapEvent::Motion, source, crossed0, inward0, r0, s1),
        r0.begin,
        mid.current_pos is None,
        mid.active_clients == s1.active_clients,
        armed_for(mid, source) == armed_for(s1, source),
        tap_step(mid, TapEvent::Motion, source, crossed, inward, r, s2),
        first_crossing(mid.active_clients, crossed) == r0.capture_position,
    ensures
        r == keep(),
{
}

/// A separate inward motion toward an active position arms it again: the
/// next crossing there from the same source begins a capture at it.
pub proof fn lemma_inward_motion_rearms(
    s0: MacCaptureState,
    s1: MacCaptureState,
    mid: MacCaptureState,
    s2: MacCaptureState,
    source: InputSource,
    p: Position,
    crossed0: PositionSet,
    inward0: PositionSet,
    r0: TapDecision,
    crossed: PositionSet,
    inward: PositionSet,
    r: TapDecision,
)
    requires
        s0.current_pos is None,
        first_crossing(s0.active_clients, crossed0) is None,
        s0.active_clients.has(p),
        inward0.has(p),
        tap_step(s0, TapEvent::Motion, source, crossed0, inward0, r0, s1),
        mid.current_pos is None,
        mid.active_clients == s1.active_clients,
        armed_for(mid, source) == armed_for(s1, source),
        tap_step(mid, TapEvent::Motion, source, crossed, inward, r, s2),
        first_crossing(mid.active_clients, crossed) == Some(p),
    ensures
        r.begin,
        r.capture_position == Some(p),
{
    assert(armed_for(s1, source).has(p));
}

} // verus!
