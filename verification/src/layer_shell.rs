//! Where the layer-shell backend puts its barrier windows: on the outputs
//! whose edge at a position borders no other output; and what the events of
//! the seat become while a barrier window has the focus.
use vstd::prelude::*;

use crate::event::KeyboardEvent;
use crate::wire::{Event, PointerEvent};
use crate::Position;

verus! {

/// What an output reports of its name and logical place.
#[derive(Debug)]
pub struct OutputInfo {
    pub name: String,
    pub position: (i32, i32),
    pub size: (i32, i32),
}

impl Clone for OutputInfo {
    fn clone(&self) -> (r: Self)
        ensures
            r == *self,
    {
        OutputInfo { name: self.name.clone(), position: self.position, size: self.size }
    }
}

impl OutputInfo {
    /// An output not yet described: no name, at the origin, of no size.
    pub fn new() -> (r: OutputInfo)
        ensures
            r.name@ == Seq::<char>::empty(),
            r.position == (0i32, 0i32),
            r.size == (0i32, 0i32),
    {
        OutputInfo { name: String::new(), position: (0, 0), size: (0, 0) }
    }
}

/// The coordinate of an output's edge at `pos`.
pub open spec fn edge_of(o: OutputInfo, pos: Position) -> int {
    match pos {
        Position::Left => o.position.0 as int,
        Position::Right => o.position.0 + o.size.0,
        Position::Top => o.position.1 as int,
        Position::Bottom => o.position.1 + o.size.1,
    }
}

/// Every output's right and bottom edges fit in `i32`.
pub open spec fn edges_fit(outputs: Seq<(u32, OutputInfo)>) -> bool {
    forall|i: int|
        0 <= i < outputs.len() ==> i32::MIN <= #[trigger] edge_of(outputs[i].1, Position::Right) <= i32::MAX
            && i32::MIN <= edge_of(outputs[i].1, Position::Bottom) <= i32::MAX
}

fn edge(o: &OutputInfo, pos: Position) -> (r: i32)
    requires
        i32::MIN <= edge_of(*o, Position::Right) <= i32::MAX,
        i32::MIN <= edge_of(*o, Position::Bottom) <= i32::MAX,
    ensures
        r == edge_of(*o, pos),
{
    match pos {
        Position::Left => o.position.0,
        Position::Right => o.position.0 + o.size.0,
        Position::Top => o.position.1,
        Position::Bottom => o.position.1 + o.size.1,
    }
}

/// The `i`-th output's edge at `pos` meets no output's opposite edge.
pub open spec fn exposed(outputs: Seq<(u32, OutputInfo)>, pos: Position, i: int) -> bool {
    forall|j: int|
        0 <= j < outputs.len() ==> edge_of(outputs[i].1, pos) != #[trigger] edge_of(
            outputs[j].1,
            pos.spec_opposite(),
        )
}

/// Some entry of `id` has an exposed edge at `pos`.
pub open spec fn keeps(outputs: Seq<(u32, OutputInfo)>, pos: Position, id: u32) -> bool {
    exists|i: int| 0 <= i < outputs.len() && outputs[i].0 == id && #[trigger] exposed(outputs, pos, i)
}

/// The outputs that get a barrier window at `pos`, in order.
pub open spec fn spec_output_configuration(outputs: Seq<(u32, OutputInfo)>, pos: Position) -> Seq<
    (u32, OutputInfo),
> {
    outputs.filter(|e: (u32, OutputInfo)| keeps(outputs, pos, e.0))
}

fn is_exposed(outputs: &[(u32, OutputInfo)], pos: Position, i: usize) -> (r: bool)
    requires
        i < outputs@.len(),
        edges_fit(outputs@),
    ensures
        r == exposed(outputs@, pos, i as int),
{
    let e = edge(&outputs[i].1, pos);
    let opposite = pos.opposite();
    let mut j: usize = 0;
    while j < outputs.len()
        invariant
            0 <= j <= outputs@.len(),
            i < outputs@.len(),
            edges_fit(outputs@),
            e == edge_of(outputs@[i as int].1, pos),
            opposite == pos.spec_opposite(),
            forall|k: int| 0 <= k < j ==> e != #[trigger] edge_of(outputs@[k].1, pos.spec_opposite()),
        decreases outputs.len() - j,
    {
        assert(i32::MIN <= edge_of(outputs@[j as int].1, Position::Right) <= i32::MAX);
        if edge(&outputs[j].1, opposite) == e {
            return false;
        }
        j += 1;
    }
    true
}

/// The outputs that get a barrier window at `pos`: those with an entry
/// whose edge at `pos` is at the coordinate of no output's opposite edge,
/// where two outputs meet.
pub fn get_output_configuration(outputs: &[(u32, OutputInfo)], pos: Position) -> (r: Vec<(u32, OutputInfo)>)
    requires
        edges_fit(outputs@),
    ensures
        r@ == spec_output_configuration(outputs@, pos),
{
    let mut kept: Vec<u32> = Vec::new();
    let mut i: usize = 0;
    while i < outputs.len()
        invariant
            0 <= i <= outputs@.len(),
            edges_fit(outputs@),
            forall|k: int| 0 <= k < kept@.len() ==> #[trigger] keeps(outputs@, pos, kept@[k]),
            forall|k: int| 0 <= k < i && exposed(outputs@, pos, k) ==> kept@.contains(#[trigger] outputs@[k].0),
        decreases outputs.len() - i,
    {
        if is_exposed(outputs, pos, i) {
            assert(keeps(outputs@, pos, outputs@[i as int].0));
            let ghost old_kept = kept@;
            kept.push(outputs[i].0);
            assert forall|k: int| 0 <= k <= i && exposed(outputs@, pos, k) implies kept@.contains(
                #[trigger] outputs@[k].0,
            ) by {
                if k < i {
                    assert(old_kept.contains(outputs@[k].0));
                    let m = choose|m: int| 0 <= m < old_kept.len() && old_kept[m] == outputs@[k].0;
                    assert(kept@[m] == old_kept[m]);
                } else {
                    assert(kept@[kept@.len() - 1] == outputs@[k].0);
                }
            }
        }
        i += 1;
    }
    let ghost keep = |e: (u32, OutputInfo)| keeps(outputs@, pos, e.0);
    let mut r: Vec<(u32, OutputInfo)> = Vec::new();
    let mut i: usize = 0;
    while i < outputs.len()
        invariant
            0 <= i <= outputs@.len(),
            keep == (|e: (u32, OutputInfo)| keeps(outputs@, pos, e.0)),
            forall|k: int| 0 <= k < kept@.len() ==> #[trigger] keeps(outputs@, pos, kept@[k]),
            forall|k: int| 0 <= k < outputs@.len() && exposed(outputs@, pos, k) ==> kept@.contains(#[trigger] outputs@[k].0),
            r@ == outputs@.take(i as int).filter(keep),
        decreases outputs.len() - i,
    {
        proof {
            outputs@.take(i as int).lemma_filter_push(outputs@[i as int], keep);
            assert(outputs@.take(i + 1) =~= outputs@.take(i as int).push(outputs@[i as int]));
        }
        let id = outputs[i].0;
        let mut found = false;
        let mut k: usize = 0;
        while k < kept.len()
            invariant
                0 <= k <= kept@.len(),
                found == exists|m: int| 0 <= m < k && kept@[m] == id,
            decreases kept.len() - k,
        {
            if kept[k] == id {
                found = true;
            }
            k += 1;
        }
        proof {
            if found {
                let m = choose|m: int| 0 <= m < kept@.len() && kept@[m] == id;
                assert(keeps(outputs@, pos, kept@[m]));
            }
            if keeps(outputs@, pos, id) {
                let w = choose|w: int| 0 <= w < outputs@.len() && outputs@[w].0 == id && #[trigger] exposed(outputs@, pos, w);
                assert(kept@.contains(outputs@[w].0));
                let m = choose|m: int| 0 <= m < kept@.len() && kept@[m] == outputs@[w].0;
                assert(0 <= m < kept@.len() && kept@[m] == id);
            }
        }
        if found {
            let entry = (outputs[i].0, outputs[i].1.clone());
            assert(entry == outputs@[i as int]);
            r.push(entry);
        }
        i += 1;
    }
    assert(outputs@.take(outputs.len() as int) =~= outputs@);
    r
}

/// The size of the barrier window at `pos` on an output of `size`: one
/// pixel wide along the left and right edges, one pixel high along the top
/// and bottom edges.
pub fn window_size(pos: Position, size: (i32, i32)) -> (r: (u32, u32))
    ensures
        r == match pos {
            Position::Left | Position::Right => (1u32, size.1 as u32),
            Position::Top | Position::Bottom => (size.0 as u32, 1u32),
        },
{
    match pos {
        Position::Left | Position::Right => (1, size.1 as u32),
        Position::Top | Position::Bottom => (size.0 as u32, 1),
    }
}

/// An event of the Wayland seat, as the capture reads it. Doubles are
/// carried by their bit patterns.
#[derive(Clone, Copy, Debug, PartialEq, Eq, Structural)]
pub enum SeatInput {
    /// the pointer entered a surface: the position of the barrier window it
    /// belongs to, if it is one
    Enter { window: Option<Position> },
    Leave,
    Button { time: u32, button: u32, state: u32 },
    Axis { time: u32, axis: u32, value_bits: u64 },
    AxisValue120 { axis: u32, value120: i32 },
    Key { time: u32, key: u32, state: u32 },
    Modifiers { depressed: u32, latched: u32, locked: u32, group: u32 },
    /// unaccelerated relative motion, with a timestamp in microseconds
    RelativeMotion { utime_hi: u32, utime_lo: u32, dx_bits: u64, dy_bits: u64 },
}

/// What the capture does on a seat event.
#[derive(Clone, Copy, Debug, PartialEq, Eq, Structural)]
pub enum SeatOutcome {
    Nothing,
    /// grab the pointer for the barrier window at this position and begin
    /// capture there
    Begin(Position),
    /// let go of the pointer
    Ungrab,
    /// an input event for the capture at this position
    Deliver(Position, Event),
}

/// The focused barrier window, and whether the smooth scroll that comes
/// with each discrete one is still to be skipped.
#[derive(Clone, Copy, Debug, PartialEq, Eq, Structural)]
pub struct SeatState {
    pub focused: Option<Position>,
    pub scroll_discrete_pending: bool,
}

/// Milliseconds, wrapped to 32 bits, of a microsecond timestamp split into
/// its high and low words.
pub open spec fn motion_time(utime_hi: u32, utime_lo: u32) -> u32 {
    ((utime_hi as int * 0x1_0000_0000 + utime_lo as int) / 1000) as u32
}

/// The state and outcome after a seat event: entering a barrier window
/// focuses it and begins capture; leaving lets go; pointer events go to
/// the focused window, where each discrete scroll is followed by a smooth
/// one that is skipped; keys, modifiers and motion go to the focused
/// window, when there is one.
pub open spec fn spec_seat_event(s: SeatState, e: SeatInput) -> (SeatState, SeatOutcome) {
    match e {
        SeatInput::Enter { window } => match window {
            Some(p) => (SeatState { focused: Some(p), ..s }, SeatOutcome::Begin(p)),
            None => (s, SeatOutcome::Nothing),
        },
        SeatInput::Leave => (s, SeatOutcome::Ungrab),
        SeatInput::Button { time, button, state } => (
            s,
            SeatOutcome::Deliver(s.focused->0, Event::Pointer(PointerEvent::Button { time, button, state })),
        ),
        SeatInput::Axis { time, axis, value_bits } => if s.scroll_discrete_pending {
            (SeatState { scroll_discrete_pending: false, ..s }, SeatOutcome::Nothing)
        } else {
            (
                s,
                SeatOutcome::Deliver(
                    s.focused->0,
                    Event::Pointer(PointerEvent::Axis { time, axis: axis as u8, value_bits }),
                ),
            )
        },
        SeatInput::AxisValue120 { axis, value120 } => (
            SeatState { scroll_discrete_pending: true, ..s },
            SeatOutcome::Deliver(
                s.focused->0,
                Event::Pointer(PointerEvent::AxisDiscrete120 { axis: axis as u8, value: value120 }),
            ),
        ),
        SeatInput::Key { time, key, state } => match s.focused {
            Some(p) => (
                s,
                SeatOutcome::Deliver(p, Event::Keyboard(KeyboardEvent::Key { time, key, state: state as u8 })),
            ),
            None => (s, SeatOutcome::Nothing),
        },
        SeatInput::Modifiers { depressed, latched, locked, group } => match s.focused {
            Some(p) => (
                s,
                SeatOutcome::Deliver(
                    p,
                    Event::Keyboard(KeyboardEvent::Modifiers { depressed, latched, locked, group }),
                ),
            ),
            None => (s, SeatOutcome::Nothing),
        },
        SeatInput::RelativeMotion { utime_hi, utime_lo, dx_bits, dy_bits } => match s.focused {
            Some(p) => (
                s,
                SeatOutcome::Deliver(
                    p,
                    Event::Pointer(PointerEvent::Motion { time: motion_time(utime_hi, utime_lo), dx_bits, dy_bits }),
                ),
            ),
            None => (s, SeatOutcome::Nothing),
        },
    }
}

/// A seat event from a button or a scroll: these come only while a barrier
/// window has the pointer focus.
pub open spec fn is_pointer_event(e: SeatInput) -> bool {
    e is Button || e is Axis || e is AxisValue120
}

impl SeatState {
    /// No window focused, no scroll pending.
    pub fn new() -> (r: SeatState)
        ensures
            r == (SeatState { focused: None, scroll_discrete_pending: false }),
    {
        SeatState { focused: None, scroll_discrete_pending: false }
    }

    /// Take in a seat event.
    pub fn seat_event(&mut self, e: SeatInput) -> (r: SeatOutcome)
        requires
            is_pointer_event(e) ==> old(self).focused is Some,
        ensures
            (*final(self), r) == spec_seat_event(*old(self), e),
    {
        match e {
            SeatInput::Enter { window } => match window {
                Some(p) => {
                    self.focused = Some(p);
                    SeatOutcome::Begin(p)
                },
                None => SeatOutcome::Nothing,
            },
            SeatInput::Leave => SeatOutcome::Ungrab,
            SeatInput::Button { time, button, state } => {
                let p = self.focused.unwrap();
                SeatOutcome::Deliver(p, Event::Pointer(PointerEvent::Button { time, button, state }))
            },
            SeatInput::Axis { time, axis, value_bits } => {
                if self.scroll_discrete_pending {
                    self.scroll_discrete_pending = false;
                    SeatOutcome::Nothing
                } else {
                    let p = self.focused.unwrap();
                    SeatOutcome::Deliver(p, Event::Pointer(PointerEvent::Axis { time, axis: axis as u8, value_bits }))
                }
            },
            SeatInput::AxisValue120 { axis, value120 } => {
                let p = self.focused.unwrap();
                self.scroll_discrete_pending = true;
                SeatOutcome::Deliver(
                    p,
                    Event::Pointer(PointerEvent::AxisDiscrete120 { axis: axis as u8, value: value120 }),
                )
            },
            SeatInput::Key { time, key, state } => match self.focused {
                Some(p) => SeatOutcome::Deliver(p, Event::Keyboard(KeyboardEvent::Key { time, key, state: state as u8 })),
                None => SeatOutcome::Nothing,
            },
            SeatInput::Modifiers { depressed, latched, locked, group } => match self.focused {
                Some(p) => SeatOutcome::Deliver(
                    p,
                    Event::Keyboard(KeyboardEvent::Modifiers { depressed, latched, locked, group }),
                ),
                None => SeatOutcome::Nothing,
            },
            SeatInput::RelativeMotion { utime_hi, utime_lo, dx_bits, dy_bits } => match self.focused {
                Some(p) => {
                    let micros: u64 = ((utime_hi as u64) << 32u64) | (utime_lo as u64);
                    proof {
                        assert(((utime_hi as u64) << 32u64) | (utime_lo as u64) == utime_hi as u64 * 0x1_0000_0000u64
                            + utime_lo as u64) by (bit_vector);
                    }
                    let time = (micros / 1000) as u32;
                    SeatOutcome::Deliver(p, Event::Pointer(PointerEvent::Motion { time, dx_bits, dy_bits }))
                },
                None => SeatOutcome::Nothing,
            },
        }
    }
}

/// A discrete scroll is delivered and the smooth scroll that follows it is
/// not: one wheel notch scrolls once.
pub proof fn lemma_discrete_scroll_not_doubled(s: SeatState, axis: u32, value120: i32, time: u32, value_bits: u64)
    requires
        s.focused is Some,
    ensures
        ({
            let (s1, r1) = spec_seat_event(s, SeatInput::AxisValue120 { axis, value120 });
            let (s2, r2) = spec_seat_event(s1, SeatInput::Axis { time, axis, value_bits });
            &&& r1 is Deliver
            &&& r2 == SeatOutcome::Nothing
            &&& !s2.scroll_discrete_pending
        }),
{
}

} // verus!
