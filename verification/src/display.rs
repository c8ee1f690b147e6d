//! Barrier crossings over a set of display rectangles, as a hooked pointer
//! reports them in virtual-desktop coordinates.
use vstd::prelude::*;

use crate::Position;

verus! {

/// A display's bounds: `left` and `top` inclusive, `right` and `bottom` exclusive.
#[derive(Clone, Copy, Debug, PartialEq, Eq, Structural)]
pub struct DisplayRect {
    pub left: i32,
    pub top: i32,
    pub right: i32,
    pub bottom: i32,
}

/// `point` lies on the inner side of `display`'s edge at `pos`.
pub open spec fn within_boundary(point: (i32, i32), display: DisplayRect, pos: Position) -> bool {
    match pos {
        Position::Left => display.left <= point.0,
        Position::Right => display.right > point.0,
        Position::Top => display.top <= point.1,
        Position::Bottom => display.bottom > point.1,
    }
}

/// `point` lies inside `display`.
pub open spec fn within_region(point: (i32, i32), display: DisplayRect) -> bool {
    &&& within_boundary(point, display, Position::Left)
    &&& within_boundary(point, display, Position::Right)
    &&& within_boundary(point, display, Position::Top)
    &&& within_boundary(point, display, Position::Bottom)
}

/// Some display has `point` on the inner side of its edge at `pos`.
pub open spec fn spec_in_bounds(point: (i32, i32), displays: Seq<DisplayRect>, pos: Position) -> bool {
    exists|i: int| 0 <= i < displays.len() && within_boundary(point, #[trigger] displays[i], pos)
}

/// Some display contains `point`.
pub open spec fn spec_in_display_region(point: (i32, i32), displays: Seq<DisplayRect>) -> bool {
    exists|i: int| 0 <= i < displays.len() && within_region(point, #[trigger] displays[i])
}

/// The pointer was on a display and is now beyond the edge at `pos` of every display.
pub open spec fn spec_moved_across_boundary(
    prev: (i32, i32),
    curr: (i32, i32),
    displays: Seq<DisplayRect>,
    pos: Position,
) -> bool {
    spec_in_display_region(prev, displays) && !spec_in_bounds(curr, displays, pos)
}

/// The barrier entered by a move from `prev` to `curr`: the first of left,
/// right, top and bottom across which the pointer left the displays.
pub open spec fn spec_entered_barrier(prev: (i32, i32), curr: (i32, i32), displays: Seq<DisplayRect>) -> Option<
    Position,
> {
    if spec_moved_across_boundary(prev, curr, displays, Position::Left) {
        Some(Position::Left)
    } else if spec_moved_across_boundary(prev, curr, displays, Position::Right) {
        Some(Position::Right)
    } else if spec_moved_across_boundary(prev, curr, displays, Position::Top) {
        Some(Position::Top)
    } else if spec_moved_across_boundary(prev, curr, displays, Position::Bottom) {
        Some(Position::Bottom)
    } else {
        None
    }
}

/// Whether `point` lies on the inner side of `display`'s edge at `pos`.
pub fn is_within_dp_boundary(point: (i32, i32), display: &DisplayRect, pos: Position) -> (r: bool)
    ensures
        r == within_boundary(point, *display, pos),
{
    let (x, y) = point;
    match pos {
        Position::Left => display.left <= x,
        Position::Right => display.right > x,
        Position::Top => display.top <= y,
        Position::Bottom => display.bottom > y,
    }
}

/// Whether `point` lies inside `display`.
pub fn is_within_dp_region(point: (i32, i32), display: &DisplayRect) -> (r: bool)
    ensures
        r == within_region(point, *display),
{
    is_within_dp_boundary(point, display, Position::Left) && is_within_dp_boundary(point, display, Position::Right)
        && is_within_dp_boundary(point, display, Position::Top) && is_within_dp_boundary(
        point,
        display,
        Position::Bottom,
    )
}

/// Whether some display has `point` on the inner side of its edge at `pos`.
pub fn in_bounds(point: (i32, i32), displays: &[DisplayRect], pos: Position) -> (r: bool)
    ensures
        r == spec_in_bounds(point, displays@, pos),
{
    let mut i: usize = 0;
    while i < displays.len()
        invariant
            0 <= i <= displays@.len(),
            forall|j: int| 0 <= j < i ==> !within_boundary(point, #[trigger] displays@[j], pos),
        decreases displays.len() - i,
    {
        if is_within_dp_boundary(point, &displays[i], pos) {
            return true;
        }
        i += 1;
    }
    false
}

/// The index of the first display that contains `point`.
pub fn source_display(displays: &[DisplayRect], point: (i32, i32)) -> (r: Option<usize>)
    ensures
        match r {
            Some(i) => i < displays@.len() && within_region(point, displays@[i as int]) && forall|j: int|
                0 <= j < i ==> !within_region(point, #[trigger] displays@[j]),
            None => !spec_in_display_region(point, displays@),
        },
{
    let mut i: usize = 0;
    while i < displays.len()
        invariant
            0 <= i <= displays@.len(),
            forall|j: int| 0 <= j < i ==> !within_region(point, #[trigger] displays@[j]),
        decreases displays.len() - i,
    {
        if is_within_dp_region(point, &displays[i]) {
            return Some(i);
        }
        i += 1;
    }
    None
}

/// Whether some display contains `point`.
pub fn in_display_region(point: (i32, i32), displays: &[DisplayRect]) -> (r: bool)
    ensures
        r == spec_in_display_region(point, displays@),
{
    source_display(displays, point).is_some()
}

/// Whether the pointer left the displays across their edges at `pos`: it was
/// on a display and now no display has it on the inner side of such an edge.
pub fn moved_across_boundary(prev: (i32, i32), curr: (i32, i32), displays: &[DisplayRect], pos: Position) -> (r:
    bool)
    ensures
        r == spec_moved_across_boundary(prev, curr, displays@, pos),
{
    in_display_region(prev, displays) && !in_bounds(curr, displays, pos)
}

/// The barrier entered by a move from `prev` to `curr`, if any.
pub fn entered_barrier(prev: (i32, i32), curr: (i32, i32), displays: &[DisplayRect]) -> (r: Option<Position>)
    ensures
        r == spec_entered_barrier(prev, curr, displays@),
{
    if moved_across_boundary(prev, curr, displays, Position::Left) {
        Some(Position::Left)
    } else if moved_across_boundary(prev, curr, displays, Position::Right) {
        Some(Position::Right)
    } else if moved_across_boundary(prev, curr, displays, Position::Top) {
        Some(Position::Top)
    } else if moved_across_boundary(prev, curr, displays, Position::Bottom) {
        Some(Position::Bottom)
    } else {
        None
    }
}

/// `v` limited to `[lo, hi]`.
pub open spec fn clamp_to(v: int, lo: int, hi: int) -> int {
    if v < lo {
        lo
    } else if v > hi {
        hi
    } else {
        v
    }
}

/// The index of the first display that contains `point`, when one does.
pub open spec fn first_display(displays: Seq<DisplayRect>, point: (i32, i32)) -> int {
    choose|i: int|
        0 <= i < displays.len() && within_region(point, displays[i]) && forall|j: int|
            0 <= j < i ==> !within_region(point, #[trigger] displays[j])
}

/// Some display containing `point` comes first among those that do.
pub proof fn lemma_first_display(displays: Seq<DisplayRect>, point: (i32, i32))
    requires
        spec_in_display_region(point, displays),
    ensures
        0 <= first_display(displays, point) < displays.len(),
        within_region(point, displays[first_display(displays, point)]),
        forall|j: int| 0 <= j < first_display(displays, point) ==> !within_region(point, #[trigger] displays[j]),
    decreases displays.len(),
{
    let k = choose|k: int| 0 <= k < displays.len() && within_region(point, #[trigger] displays[k]);
    if within_region(point, displays[0]) {
        assert(forall|j: int| 0 <= j < 0 ==> !within_region(point, #[trigger] displays[j]));
    } else {
        let rest = displays.drop_first();
        assert(within_region(point, rest[k - 1]));
        lemma_first_display(rest, point);
        let f = first_display(rest, point);
        assert forall|j: int| 0 <= j < f + 1 implies !within_region(point, #[trigger] displays[j]) by {
            if j > 0 {
                assert(displays[j] == rest[j - 1]);
            }
        }
        assert(within_region(point, displays[f + 1]));
    }
}

/// `point` clamped, inclusively, to the bounds of the display the pointer
/// came from: the first display that contains `prev_point`.
pub fn clamp_to_display_bounds(display_regions: &[DisplayRect], prev_point: (i32, i32), point: (i32, i32)) -> (r: (
    i32,
    i32,
))
    requires
        spec_in_display_region(prev_point, display_regions@),
    ensures
        ({
            let d = display_regions@[first_display(display_regions@, prev_point)];
            &&& r.0 == clamp_to(point.0 as int, d.left as int, d.right - 1)
            &&& r.1 == clamp_to(point.1 as int, d.top as int, d.bottom - 1)
            &&& within_region(r, d)
            &&& within_region(point, d) ==> r == point
        }),
{
    proof {
        lemma_first_display(display_regions@, prev_point);
    }
    let i = match source_display(display_regions, prev_point) {
        Some(i) => i,
        None => {
            return (point.0, point.1);
        },
    };
    assert(i == first_display(display_regions@, prev_point)) by {
        let f = first_display(display_regions@, prev_point);
        if i < f {
        } else if f < i {
        }
    }
    let d = display_regions[i];
    let (x, y) = point;
    let (min_x, max_x) = (d.left, d.right - 1);
    let (min_y, max_y) = (d.top, d.bottom - 1);
    let cx = if x < min_x {
        min_x
    } else if x > max_x {
        max_x
    } else {
        x
    };
    let cy = if y < min_y {
        min_y
    } else if y > max_y {
        max_y
    } else {
        y
    };
    (cx, cy)
}

/// `point` lies beyond the edge at `pos` of `d`: left of its left column,
/// right of its right one, above its top row or below its bottom one.
pub open spec fn beyond_edge(point: (i32, i32), d: DisplayRect, pos: Position) -> bool {
    match pos {
        Position::Left => point.0 < d.left,
        Position::Right => point.0 >= d.right,
        Position::Top => point.1 < d.top,
        Position::Bottom => point.1 >= d.bottom,
    }
}

/// The rank of a barrier when a move leaves the displays across several
/// edges at once: left, right, top, bottom.
pub open spec fn barrier_rank(pos: Position) -> int {
    match pos {
        Position::Left => 0,
        Position::Right => 1,
        Position::Top => 2,
        Position::Bottom => 3,
    }
}

/// A move from `prev`, on some display, to `curr`, beyond the edge at `pos`
/// of every display.
pub open spec fn leaves_across(prev: (i32, i32), curr: (i32, i32), displays: Seq<DisplayRect>, pos: Position) -> bool {
    &&& exists|i: int|
        0 <= i < displays.len() && displays[i].left <= prev.0 < displays[i].right && displays[i].top <= prev.1
            < #[trigger] displays[i].bottom
    &&& forall|i: int| 0 <= i < displays.len() ==> beyond_edge(curr, #[trigger] displays[i], pos)
}

/// The barrier a hooked pointer entered is one it left the displays across:
/// it was on a display and is now beyond that edge of every display. Every
/// such move enters a barrier (none is missed), and where it leaves across
/// several edges, the first of left, right, top, bottom is entered. Such a
/// move is exactly what `moved_across_boundary` tests.
pub proof fn lemma_entered_barrier_meaning(prev: (i32, i32), curr: (i32, i32), displays: Seq<DisplayRect>)
    ensures
        forall|pos: Position| #[trigger] leaves_across(prev, curr, displays, pos) <==> spec_moved_across_boundary(
            prev,
            curr,
            displays,
            pos,
        ),
        spec_entered_barrier(prev, curr, displays) matches Some(p) ==> leaves_across(prev, curr, displays, p),
        spec_entered_barrier(prev, curr, displays) is None ==> forall|pos: Position| !#[trigger] leaves_across(
            prev,
            curr,
            displays,
            pos,
        ),
        forall|pos: Position|
            #[trigger] leaves_across(prev, curr, displays, pos) ==> (spec_entered_barrier(prev, curr, displays) matches Some(
                p,
            ) && barrier_rank(p) <= barrier_rank(pos)),
{
    assert forall|pos: Position| #[trigger] leaves_across(prev, curr, displays, pos) <==> spec_moved_across_boundary(
        prev,
        curr,
        displays,
        pos,
    ) by {
        if spec_in_display_region(prev, displays) {
            let i = choose|i: int| 0 <= i < displays.len() && within_region(prev, #[trigger] displays[i]);
            assert(displays[i].left <= prev.0 < displays[i].right && displays[i].top <= prev.1 < displays[i].bottom);
        }
        if exists|i: int|
            0 <= i < displays.len() && displays[i].left <= prev.0 < displays[i].right && displays[i].top <= prev.1
                < #[trigger] displays[i].bottom {
            let i = choose|i: int|
                0 <= i < displays.len() && displays[i].left <= prev.0 < displays[i].right && displays[i].top <= prev.1
                    < #[trigger] displays[i].bottom;
            assert(within_region(prev, displays[i]));
        }
        if spec_in_bounds(curr, displays, pos) {
            let i = choose|i: int| 0 <= i < displays.len() && within_boundary(curr, #[trigger] displays[i], pos);
            assert(!beyond_edge(curr, displays[i], pos));
        }
        if !(forall|i: int| 0 <= i < displays.len() ==> beyond_edge(curr, #[trigger] displays[i], pos)) {
            let i = choose|i: int| 0 <= i < displays.len() && !beyond_edge(curr, #[trigger] displays[i], pos);
            assert(within_boundary(curr, displays[i], pos));
        }
    }
}

} // verus!
