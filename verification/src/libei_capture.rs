//! Input capture through the desktop portal and libei: the pointer barriers
//! placed along the screen zones for each client, the input events that an
//! ei event turns into, and where the cursor is released.
use std::collections::HashMap;
use vstd::prelude::*;

use crate::event::KeyboardEvent;
use crate::Position;

verus! {

/// A screen zone that the portal reports: its origin and size in pixels.
#[derive(Clone, Copy, Debug, PartialEq, Eq, Structural)]
pub struct Zone {
    pub x_offset: i32,
    pub y_offset: i32,
    pub width: u32,
    pub height: u32,
}

/// A barrier line from `(x1, y1)` to `(x2, y2)`, both ends inclusive.
pub type BarrierLine = (i32, i32, i32, i32);

/// The barrier along the edge of `r` at `pos`: the pixel row or column just
/// inside the zone for left and top, just outside it for right and bottom.
pub open spec fn barrier_line(r: Zone, pos: Position) -> (int, int, int, int) {
    let (x, y) = (r.x_offset as int, r.y_offset as int);
    let (w, h) = ((r.width as i32) as int, (r.height as i32) as int);
    match pos {
        Position::Left => (x, y, x, y + h - 1),
        Position::Right => (x + w, y, x + w, y + h - 1),
        Position::Top => (x, y, x + w - 1, y),
        Position::Bottom => (x, y + h, x + w - 1, y + h),
    }
}

pub open spec fn fits(v: int) -> bool {
    i32::MIN <= v <= i32::MAX
}

/// Every coordinate of the barrier of `r` at `pos` fits an `i32`.
pub open spec fn barrier_fits(r: Zone, pos: Position) -> bool {
    let (w, h) = ((r.width as i32) as int, (r.height as i32) as int);
    &&& fits(r.x_offset + w)
    &&& fits(r.y_offset + h)
    &&& fits(r.x_offset + w - 1)
    &&& fits(r.y_offset + h - 1)
}

pub open spec fn line_of(l: (int, int, int, int)) -> BarrierLine {
    (l.0 as i32, l.1 as i32, l.2 as i32, l.3 as i32)
}

/// The barrier along the edge of `r` at `pos`.
pub fn pos_to_barrier(r: &Zone, pos: Position) -> (b: BarrierLine)
    requires
        barrier_fits(*r, pos),
    ensures
        b == line_of(barrier_line(*r, pos)),
{
    let (x, y) = (r.x_offset, r.y_offset);
    let (width, height) = (r.width as i32, r.height as i32);
    match pos {
        Position::Left => (x, y, x, y + height - 1),
        Position::Right => (x + width, y, x + width, y + height - 1),
        Position::Top => (x, y, x + width - 1, y),
        Position::Bottom => (x, y + height, x + width - 1, y + height),
    }
}

/// The barriers can be placed: each fits, and the ids they take stay
/// within `u32`.
pub open spec fn barriers_placeable(zones: Seq<Zone>, clients: Seq<(u64, Position)>, next_id: u32) -> bool {
    &&& next_id + clients.len() * zones.len() <= u32::MAX
    &&& forall|i: int, j: int|
        0 <= i < clients.len() && 0 <= j < zones.len() ==> barrier_fits(#[trigger] zones[j], #[trigger] clients[i].1)
}

proof fn lemma_index_bound(i: int, j: int, n: int, m: int)
    requires
        0 <= i < n,
        0 <= j < m,
    ensures
        0 <= i * m + j < n * m,
        i * m + j < (i + 1) * m,
        (i + 1) * m <= n * m,
{
    assert(0 <= i * m + j < n * m) by (nonlinear_arith)
        requires
            0 <= i < n,
            0 <= j < m,
    ;
    assert(i * m + j < (i + 1) * m) by (nonlinear_arith)
        requires
            0 <= j < m,
    ;
    assert((i + 1) * m <= n * m) by (nonlinear_arith)
        requires
            0 <= i < n,
            0 <= m,
    ;
}

/// Place a barrier along every zone for each client, clients in order and
/// zones in order within each, numbering them from `next_barrier_id` on.
/// Returns the barriers and, for each barrier id, the client it belongs to.
pub fn select_barriers(zones: &[Zone], clients: &[(u64, Position)], next_barrier_id: &mut u32) -> (r: (
    Vec<(u32, BarrierLine)>,
    HashMap<u32, u64>,
))
    requires
        barriers_placeable(zones@, clients@, *old(next_barrier_id)),
    ensures
        ({
            let (barriers, owners) = r;
            let (n, m, first) = (clients@.len() as int, zones@.len() as int, *old(next_barrier_id) as int);
            &&& *final(next_barrier_id) == first + n * m
            &&& barriers@.len() == n * m
            &&& forall|i: int, j: int|
                0 <= i < n && 0 <= j < m ==> #[trigger] barriers@[i * m + j] == (
                    (first + i * m + j) as u32,
                    line_of(barrier_line(zones@[j], clients@[i].1)),
                )
            &&& owners@.dom() == Set::new(|id: u32| first <= id < first + n * m)
            &&& forall|i: int, j: int|
                0 <= i < n && 0 <= j < m ==> #[trigger] owners@[(first + i * m + j) as u32] == clients@[i].0
        }),
{
    broadcast use vstd::std_specs::hash::group_hash_axioms;

    let ghost first: int = *old(next_barrier_id) as int;
    let ghost m: int = zones@.len() as int;
    let ghost n: int = clients@.len() as int;
    let mut owners: HashMap<u32, u64> = HashMap::new();
    let mut barriers: Vec<(u32, BarrierLine)> = Vec::new();
    let mut ci: usize = 0;
    proof {
        assert(0 * m == 0) by (nonlinear_arith);
        assert(owners@.dom() =~= Set::new(|id: u32| first <= id < first + 0 * m));
    }
    while ci < clients.len()
        invariant
            barriers_placeable(zones@, clients@, first as u32),
            first == *old(next_barrier_id) as int,
            m == zones@.len(),
            n == clients@.len(),
            0 <= ci <= n,
            *next_barrier_id == first + ci * m,
            barriers@.len() == ci * m,
            forall|i: int, j: int|
                0 <= i < ci && 0 <= j < m ==> #[trigger] barriers@[i * m + j] == (
                    (first + i * m + j) as u32,
                    line_of(barrier_line(zones@[j], clients@[i].1)),
                ),
            owners@.dom() == Set::new(|id: u32| first <= id < first + ci * m),
            forall|i: int, j: int|
                0 <= i < ci && 0 <= j < m ==> #[trigger] owners@[(first + i * m + j) as u32] == clients@[i].0,
        decreases n - ci,
    {
        let (handle, pos) = clients[ci];
        let mut zi: usize = 0;
        proof {
            assert((ci + 1) * m <= n * m) by (nonlinear_arith)
                requires
                    0 <= ci < n,
                    0 <= m,
            ;
        }
        while zi < zones.len()
            invariant
                barriers_placeable(zones@, clients@, first as u32),
                first == *old(next_barrier_id) as int,
                m == zones@.len(),
                n == clients@.len(),
                0 <= ci < n,
                (ci + 1) * m <= n * m,
                handle == clients@[ci as int].0,
                pos == clients@[ci as int].1,
                0 <= zi <= m,
                *next_barrier_id == first + ci * m + zi,
                barriers@.len() == ci * m + zi,
                forall|i: int, j: int|
                    0 <= i < ci && 0 <= j < m ==> #[trigger] barriers@[i * m + j] == (
                        (first + i * m + j) as u32,
                        line_of(barrier_line(zones@[j], clients@[i].1)),
                    ),
                forall|j: int|
                    0 <= j < zi ==> #[trigger] barriers@[ci * m + j] == (
                        (first + ci * m + j) as u32,
                        line_of(barrier_line(zones@[j], clients@[ci as int].1)),
                    ),
                owners@.dom() == Set::new(|id: u32| first <= id < first + ci * m + zi),
                forall|i: int, j: int|
                    0 <= i < ci && 0 <= j < m ==> #[trigger] owners@[(first + i * m + j) as u32] == clients@[i].0,
                forall|j: int| 0 <= j < zi ==> #[trigger] owners@[(first + ci * m + j) as u32] == handle,
            decreases m - zi,
        {
            proof {
                lemma_index_bound(ci as int, zi as int, n, m);
                assert(barrier_fits(zones@[zi as int], clients@[ci as int].1));
            }
            let id = *next_barrier_id;
            *next_barrier_id = id + 1;
            let line = pos_to_barrier(&zones[zi], pos);
            let ghost before = owners@;
            owners.insert(id, handle);
            barriers.push((id, line));
            proof {
                assert forall|i: int, j: int| 0 <= i < ci && 0 <= j < m implies #[trigger] owners@[(first + i * m + j)
                    as u32] == clients@[i].0 by {
                    lemma_index_bound(i, j, ci as int, m);
                }
                assert forall|i: int, j: int| 0 <= i < ci && 0 <= j < m implies #[trigger] barriers@[i * m + j] == (
                    (first + i * m + j) as u32,
                    line_of(barrier_line(zones@[j], clients@[i].1)),
                ) by {
                    lemma_index_bound(i, j, ci as int, m);
                }
                assert(owners@.dom() =~= Set::new(|id: u32| first <= id < first + ci * m + zi + 1));
            }
            zi += 1;
        }
        proof {
            assert(ci * m + m == (ci + 1) * m) by (nonlinear_arith);
            assert forall|i: int, j: int| 0 <= i < ci + 1 && 0 <= j < m implies #[trigger] barriers@[i * m + j] == (
                (first + i * m + j) as u32,
                line_of(barrier_line(zones@[j], clients@[i].1)),
            ) by {
                if i == ci {
                    assert(barriers@[ci * m + j] == barriers@[i * m + j]);
                }
            }
            assert forall|i: int, j: int| 0 <= i < ci + 1 && 0 <= j < m implies #[trigger] owners@[(first + i * m + j)
                as u32] == clients@[i].0 by {
                if i == ci {
                    assert(owners@[(first + ci * m + j) as u32] == handle);
                }
            }
        }
        ci += 1;
    }
    (barriers, owners)
}

/// An ei event as input capture reads it. For a smooth scroll only which
/// deltas are nonzero matters here; the deltas themselves are read by the
/// caller, as are those of relative motion.
#[derive(Clone, Copy, Debug, PartialEq, Eq, Structural)]
pub enum EiInput {
    KeyboardModifiers { depressed: u32, latched: u32, locked: u32, group: u32 },
    PointerMotion { time: u64 },
    Button { time: u64, button: u32, pressed: bool },
    ScrollDelta { dx_nonzero: bool, dy_nonzero: bool },
    ScrollDiscrete { discrete_dx: i32, discrete_dy: i32 },
    KeyboardKey { time: u64, key: u32, pressed: bool },
    /// frames, absolute motion, scroll stop and cancel, touch, and the rest
    Other,
}

/// A captured input event. Motion and smooth scroll carry floating point
/// values, which the caller takes from the ei event.
#[derive(Clone, Copy, Debug, PartialEq, Eq, Structural)]
pub enum EiCaptured {
    Keyboard(KeyboardEvent),
    Motion { time: u32 },
    Button { time: u32, button: u32, state: u32 },
    /// a smooth scroll along `axis`: 0 vertical, 1 horizontal
    Axis { axis: u8 },
    AxisDiscrete120 { axis: u8, value: i32 },
}

/// The events of a scroll: the vertical one first, then the horizontal
/// one, each only where it moves.
pub open spec fn scroll_pair(dy: Option<EiCaptured>, dx: Option<EiCaptured>) -> Seq<EiCaptured> {
    match (dy, dx) {
        (Some(a), Some(b)) => seq![a, b],
        (Some(a), None) => seq![a],
        (None, Some(b)) => seq![b],
        (None, None) => Seq::empty(),
    }
}

/// The input events of an ei event.
pub open spec fn spec_input_events(e: EiInput) -> Seq<EiCaptured> {
    match e {
        EiInput::KeyboardModifiers { depressed, latched, locked, group } => seq![
            EiCaptured::Keyboard(KeyboardEvent::Modifiers { depressed, latched, locked, group }),
        ],
        EiInput::PointerMotion { time } => seq![EiCaptured::Motion { time: time as u32 }],
        EiInput::Button { time, button, pressed } => seq![
            EiCaptured::Button { time: time as u32, button, state: if pressed { 1 } else { 0 } },
        ],
        EiInput::ScrollDelta { dx_nonzero, dy_nonzero } => scroll_pair(
            if dy_nonzero { Some(EiCaptured::Axis { axis: 0 }) } else { None },
            if dx_nonzero { Some(EiCaptured::Axis { axis: 1 }) } else { None },
        ),
        EiInput::ScrollDiscrete { discrete_dx, discrete_dy } => scroll_pair(
            if discrete_dy != 0 { Some(EiCaptured::AxisDiscrete120 { axis: 0, value: discrete_dy }) } else { None },
            if discrete_dx != 0 { Some(EiCaptured::AxisDiscrete120 { axis: 1, value: discrete_dx }) } else { None },
        ),
        EiInput::KeyboardKey { time, key, pressed } => seq![
            EiCaptured::Keyboard(KeyboardEvent::Key { time: time as u32, key, state: if pressed { 1 } else { 0 } }),
        ],
        EiInput::Other => Seq::empty(),
    }
}

fn push_scroll(out: &mut Vec<EiCaptured>, dy: Option<EiCaptured>, dx: Option<EiCaptured>)
    requires
        old(out)@.len() == 0,
    ensures
        final(out)@ == scroll_pair(dy, dx),
{
    if let Some(a) = dy {
        out.push(a);
    }
    if let Some(b) = dx {
        out.push(b);
    }
    assert(final(out)@ =~= scroll_pair(dy, dx));
}

/// The input events that capture sends for an ei event: modifiers and keys,
/// relative motion, buttons, and scrolling, vertical before horizontal.
/// Frames, absolute motion, touch and the end of a scroll give none.
pub fn to_input_events(e: EiInput) -> (r: Vec<EiCaptured>)
    ensures
        r@ == spec_input_events(e),
{
    let mut out: Vec<EiCaptured> = Vec::new();
    match e {
        EiInput::KeyboardModifiers { depressed, latched, locked, group } => {
            out.push(EiCaptured::Keyboard(KeyboardEvent::Modifiers { depressed, latched, locked, group }));
        },
        EiInput::PointerMotion { time } => {
            out.push(EiCaptured::Motion { time: time as u32 });
        },
        EiInput::Button { time, button, pressed } => {
            out.push(EiCaptured::Button { time: time as u32, button, state: if pressed { 1 } else { 0 } });
        },
        EiInput::ScrollDelta { dx_nonzero, dy_nonzero } => {
            let dy = if dy_nonzero { Some(EiCaptured::Axis { axis: 0 }) } else { None };
            let dx = if dx_nonzero { Some(EiCaptured::Axis { axis: 1 }) } else { None };
            push_scroll(&mut out, dy, dx);
        },
        EiInput::ScrollDiscrete { discrete_dx, discrete_dy } => {
            let dy = if discrete_dy != 0 {
                Some(EiCaptured::AxisDiscrete120 { axis: 0, value: discrete_dy })
            } else {
                None
            };
            let dx = if discrete_dx != 0 {
                Some(EiCaptured::AxisDiscrete120 { axis: 1, value: discrete_dx })
            } else {
                None
            };
            push_scroll(&mut out, dy, dx);
        },
        EiInput::KeyboardKey { time, key, pressed } => {
            out.push(
                EiCaptured::Keyboard(KeyboardEvent::Key { time: time as u32, key, state: if pressed { 1 } else { 0 } }),
            );
        },
        EiInput::Other => {},
    }
    assert(out@ =~= spec_input_events(e));
    out
}

/// The position of the first entry for `client` among `active`.
pub open spec fn client_position(client: u64, active: Seq<(u64, Position)>) -> Option<Position>
    decreases active.len(),
{
    if active.len() == 0 {
        None
    } else if active[0].0 == client {
        Some(active[0].1)
    } else {
        client_position(client, active.drop_first())
    }
}

/// The offset, one pixel back into the desktop, by which the cursor is
/// released from a capture at `pos`, so that it does not enter again at once.
pub open spec fn spec_release_offset(pos: Position) -> (i32, i32) {
    match pos {
        Position::Left => (1i32, 0i32),
        Position::Right => (-1i32, 0i32),
        Position::Top => (0i32, 1i32),
        Position::Bottom => (0i32, -1i32),
    }
}

/// The release offset for the capture of `client`, from the position of its
/// first entry among `active`; `None` where it has none.
pub fn release_offset(client: u64, active: &[(u64, Position)]) -> (r: Option<(i32, i32)>)
    ensures
        r == match client_position(client, active@) {
            Some(p) => Some(spec_release_offset(p)),
            None => None,
        },
{
    let mut i: usize = 0;
    assert(active@.skip(0) =~= active@);
    while i < active.len()
        invariant
            0 <= i <= active@.len(),
            client_position(client, active@) == client_position(client, active@.skip(i as int)),
        decreases active.len() - i,
    {
        assert(active@.skip(i as int).drop_first() =~= active@.skip(i + 1));
        if active[i].0 == client {
            let pos = active[i].1;
            return Some(
                match pos {
                    Position::Left => (1, 0),
                    Position::Right => (-1, 0),
                    Position::Top => (0, 1),
                    Position::Bottom => (0, -1),
                },
            );
        }
        i += 1;
    }
    assert(active@.skip(i as int) =~= Seq::<(u64, Position)>::empty());
    None
}

} // verus!
