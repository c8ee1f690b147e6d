//! Desktop geometry: which physical edge of a multi-monitor desktop a
//! pointer movement leaves through, and which portions of each desktop edge
//! face the outside world.
use vstd::prelude::*;

verus! {

/// A display rectangle in compositor or desktop pixel coordinates.
#[derive(Clone, Copy, Debug, PartialEq, Eq, Structural)]
pub struct Rect {
    pub x: i32,
    pub y: i32,
    pub width: i32,
    pub height: i32,
}

/// A physical desktop edge.
#[derive(Clone, Copy, Debug, PartialEq, Eq, Structural)]
pub enum Edge {
    Left,
    Right,
    Top,
    Bottom,
}

/// The point on the edge of a display through which a movement left the desktop.
#[derive(Clone, Copy, Debug, PartialEq, Eq)]
pub struct CrossedEdge {
    pub edge: Edge,
    pub point: (i32, i32),
}

/// `v` clamped into the range of `i32`: what a saturating `i32` operation yields.
pub open spec fn saturate(v: int) -> int {
    if v > i32::MAX {
        i32::MAX as int
    } else if v < i32::MIN {
        i32::MIN as int
    } else {
        v
    }
}

pub open spec fn fits_i32(v: int) -> bool {
    i32::MIN <= v <= i32::MAX
}

fn saturating_add_i32(a: i32, b: i32) -> (r: i32)
    ensures
        r == saturate(a + b),
{
    let s: i64 = a as i64 + b as i64;
    if s > i32::MAX as i64 {
        i32::MAX
    } else if s < i32::MIN as i64 {
        i32::MIN
    } else {
        s as i32
    }
}

fn saturating_sub_i32(a: i32, b: i32) -> (r: i32)
    ensures
        r == saturate(a - b),
{
    let s: i64 = a as i64 - b as i64;
    if s > i32::MAX as i64 {
        i32::MAX
    } else if s < i32::MIN as i64 {
        i32::MIN
    } else {
        s as i32
    }
}

impl Rect {
    pub open spec fn valid(self) -> bool {
        self.width > 0 && self.height > 0
    }

    /// Whether the pixel `(x, y)` lies in this rectangle; the far bounds saturate
    /// at the end of the `i32` range.
    pub open spec fn covers(self, x: int, y: int) -> bool {
        &&& self.x <= x
        &&& x < saturate(self.x + self.width)
        &&& self.y <= y
        &&& y < saturate(self.y + self.height)
    }

    /// The half-open range this rectangle spans along the axis parallel to `edge`.
    pub open spec fn cross_range(self, edge: Edge) -> (int, int) {
        match edge {
            Edge::Left | Edge::Right => (self.y as int, saturate(self.y + self.height)),
            Edge::Top | Edge::Bottom => (self.x as int, saturate(self.x + self.width)),
        }
    }

    /// The coordinate of the outermost pixel row/column of this rectangle on `edge`.
    pub open spec fn edge_coord(self, edge: Edge) -> int {
        match edge {
            Edge::Left => self.x as int,
            Edge::Right => saturate(saturate(self.x + self.width) - 1),
            Edge::Top => self.y as int,
            Edge::Bottom => saturate(saturate(self.y + self.height) - 1),
        }
    }

    pub fn contains_point(self, point: (i32, i32)) -> (r: bool)
        ensures
            r == self.covers(point.0 as int, point.1 as int),
    {
        point.0 >= self.x && point.0 < saturating_add_i32(self.x, self.width) && point.1 >= self.y
            && point.1 < saturating_add_i32(self.y, self.height)
    }

    pub fn contains_cross_axis(self, edge: Edge, coordinate: i32) -> (r: bool)
        ensures
            r == (self.cross_range(edge).0 <= coordinate < self.cross_range(edge).1),
    {
        let (start, end) = self.cross_axis_range(edge);
        coordinate >= start && coordinate < end
    }

    pub fn cross_axis_range(self, edge: Edge) -> (r: (i32, i32))
        ensures
            r.0 as int == self.cross_range(edge).0,
            r.1 as int == self.cross_range(edge).1,
    {
        match edge {
            Edge::Left | Edge::Right => (self.y, saturating_add_i32(self.y, self.height)),
            Edge::Top | Edge::Bottom => (self.x, saturating_add_i32(self.x, self.width)),
        }
    }

    pub fn edge_coordinate(self, edge: Edge) -> (r: i32)
        ensures
            r as int == self.edge_coord(edge),
    {
        match edge {
            Edge::Left => self.x,
            Edge::Right => saturating_sub_i32(saturating_add_i32(self.x, self.width), 1),
            Edge::Top => self.y,
            Edge::Bottom => saturating_sub_i32(saturating_add_i32(self.y, self.height), 1),
        }
    }

    pub fn is_valid(self) -> (r: bool)
        ensures
            r == self.valid(),
    {
        self.width > 0 && self.height > 0
    }
}

/// Whether some valid rectangle of the desktop covers the pixel `(x, y)`.
pub open spec fn occupied(rects: Seq<Rect>, x: int, y: int) -> bool {
    exists|i: int| 0 <= i < rects.len() && #[trigger] rects[i].valid() && rects[i].covers(x, y)
}

/// The first valid rectangle of `rects` that contains `p`.
pub open spec fn first_source(rects: Seq<Rect>, p: (i32, i32)) -> Option<Rect>
    decreases rects.len(),
{
    if rects.len() == 0 {
        None
    } else if rects[0].valid() && rects[0].covers(p.0 as int, p.1 as int) {
        Some(rects[0])
    } else {
        first_source(rects.drop_first(), p)
    }
}


/// The coordinate along the axis perpendicular to `edge`.
pub open spec fn axis_of(edge: Edge, p: (i32, i32)) -> int {
    match edge {
        Edge::Left | Edge::Right => p.0 as int,
        Edge::Top | Edge::Bottom => p.1 as int,
    }
}

/// The coordinate along the axis parallel to `edge`.
pub open spec fn cross_of(edge: Edge, p: (i32, i32)) -> int {
    match edge {
        Edge::Left | Edge::Right => p.1 as int,
        Edge::Top | Edge::Bottom => p.0 as int,
    }
}

/// The physical boundary of an edge pixel lies half a pixel outward.
pub open spec fn outward(edge: Edge) -> int {
    match edge {
        Edge::Left | Edge::Top => -1,
        Edge::Right | Edge::Bottom => 1,
    }
}

/// First and last pixel of the source rectangle along `edge` (inclusive).
pub open spec fn span_lo(source: Rect, edge: Edge) -> int {
    match edge {
        Edge::Left | Edge::Right => source.y as int,
        Edge::Top | Edge::Bottom => source.x as int,
    }
}

pub open spec fn span_hi(source: Rect, edge: Edge) -> int {
    match edge {
        Edge::Left | Edge::Right => source.y + source.height - 1,
        Edge::Top | Edge::Bottom => source.x + source.width - 1,
    }
}

/// The fraction `t = num / den` (with `0 < t <= 1`, `den > 0`) of the movement
/// from `previous` to `current` at which the physical boundary of `edge` is
/// reached, measured in half pixels; `None` when the movement does not reach it.
pub open spec fn crossing_time(source: Rect, edge: Edge, previous: (i32, i32), current: (i32, i32)) -> Option<(int, int)> {
    let delta = axis_of(edge, current) - axis_of(edge, previous);
    if delta == 0 {
        None
    } else {
        let num0 = 2 * source.edge_coord(edge) + outward(edge) - 2 * axis_of(edge, previous);
        let den0 = 2 * delta;
        let num = if den0 < 0 { -num0 } else { num0 };
        let den = if den0 < 0 { -den0 } else { den0 };
        if 0 < num && num <= den {
            Some((num, den))
        } else {
            None
        }
    }
}

/// The cross-axis coordinate at crossing time `t`, as a numerator over `t.1`.
pub open spec fn cross_numerator(edge: Edge, previous: (i32, i32), current: (i32, i32), t: (int, int)) -> int {
    cross_of(edge, previous) * t.1 + t.0 * (cross_of(edge, current) - cross_of(edge, previous))
}

/// Whether the crossing point `n / d` lies on the physical extent of the source's edge.
pub open spec fn within_span(source: Rect, edge: Edge, n: int, d: int) -> bool {
    !(2 * n < (2 * span_lo(source, edge) - 1) * d || 2 * n > (2 * span_hi(source, edge) + 1) * d)
}

/// `n / d` rounded to the nearest integer, halves away from zero (for `d > 0`).
pub open spec fn round_half_away(n: int, d: int) -> int {
    let floor = n / d;
    let rem = n % d;
    if rem * 2 < d {
        floor
    } else if rem * 2 > d {
        floor + 1
    } else if n < 0 {
        floor
    } else {
        floor + 1
    }
}

/// When `n / d` lies exactly on the border between two pixels, those two pixels,
/// the one farther from zero first.
pub open spec fn endpoint_owner_pair(n: int, d: int) -> Option<(int, int)> {
    if d <= 0 || (2 * n) % d != 0 {
        None
    } else {
        let doubled = (2 * n) / d;
        if doubled % 2 == 0 {
            None
        } else {
            let floor = doubled / 2;
            if !fits_i32(floor) || !fits_i32(floor + 1) {
                None
            } else if doubled > 0 {
                Some((floor + 1, floor))
            } else {
                Some((floor, floor + 1))
            }
        }
    }
}

pub open spec fn clamp_int(v: int, lo: int, hi: int) -> int {
    if v < lo {
        lo
    } else if v > hi {
        hi
    } else {
        v
    }
}

/// The pixel just beyond the edge pixel at cross coordinate `c`.
pub open spec fn outside_cell(edge: Edge, edge_c: int, c: int) -> (int, int) {
    match edge {
        Edge::Left => (edge_c - 1, c),
        Edge::Right => (edge_c + 1, c),
        Edge::Top => (c, edge_c - 1),
        Edge::Bottom => (c, edge_c + 1),
    }
}

pub open spec fn exposed_at(rects: Seq<Rect>, edge: Edge, edge_c: int, c: int) -> bool {
    let cell = outside_cell(edge, edge_c, c);
    !occupied(rects, cell.0, cell.1)
}

/// The pixel on the edge line at cross coordinate `c`.
pub open spec fn point_on(edge: Edge, edge_c: int, c: int) -> (i32, i32) {
    match edge {
        Edge::Left | Edge::Right => (edge_c as i32, c as i32),
        Edge::Top | Edge::Bottom => (c as i32, edge_c as i32),
    }
}

/// The crossing of `edge` of `source`: crossing time and crossed pixel, when the
/// movement reaches that edge within its extent, the crossing pixel fits `i32`,
/// and one of the owning pixels faces outside the desktop.
pub open spec fn edge_crossing(
    previous: (i32, i32),
    current: (i32, i32),
    rects: Seq<Rect>,
    source: Rect,
    edge: Edge,
) -> Option<(int, int, CrossedEdge)> {
    match crossing_time(source, edge, previous, current) {
        None => None,
        Some(t) => {
            let n = cross_numerator(edge, previous, current, t);
            if !within_span(source, edge, n, t.1) {
                None
            } else {
                let rounded = round_half_away(n, t.1);
                if !fits_i32(rounded) {
                    None
                } else {
                    let owners = match endpoint_owner_pair(n, t.1) {
                        Some(p) => p,
                        None => (rounded, rounded),
                    };
                    let lo = span_lo(source, edge);
                    let hi = span_hi(source, edge);
                    let edge_c = source.edge_coord(edge);
                    let c0 = clamp_int(owners.0, lo, hi);
                    let c1 = clamp_int(owners.1, lo, hi);
                    if exposed_at(rects, edge, edge_c, c0) {
                        Some((t.0, t.1, CrossedEdge { edge, point: point_on(edge, edge_c, c0) }))
                    } else if exposed_at(rects, edge, edge_c, c1) {
                        Some((t.0, t.1, CrossedEdge { edge, point: point_on(edge, edge_c, c1) }))
                    } else {
                        None
                    }
                }
            }
        }
    }
}

/// Keep the earlier of two crossings; on equal times the one seen first stays.
pub open spec fn earlier(best: Option<(int, int, CrossedEdge)>, c: Option<(int, int, CrossedEdge)>) -> Option<(int, int, CrossedEdge)> {
    match c {
        None => best,
        Some(c) => match best {
            None => Some(c),
            Some(b) => if c.0 * b.1 < b.0 * c.1 {
                Some(c)
            } else {
                Some(b)
            },
        },
    }
}

/// The exposed edge crossing of the movement from `previous` to `current`: the
/// source display is the first valid rectangle containing `previous`; among its
/// four edges (in the order left, right, top, bottom) the one crossed earliest wins.
pub open spec fn spec_crossed_exposed_edge(previous: (i32, i32), current: (i32, i32), rects: Seq<Rect>) -> Option<CrossedEdge> {
    match first_source(rects, previous) {
        None => None,
        Some(s) => {
            let best = earlier(
                earlier(
                    earlier(earlier(None, edge_crossing(previous, current, rects, s, Edge::Left)),
                    edge_crossing(previous, current, rects, s, Edge::Right)),
                    edge_crossing(previous, current, rects, s, Edge::Top),
                ),
                edge_crossing(previous, current, rects, s, Edge::Bottom),
            );
            match best {
                None => None,
                Some(b) => Some(b.2),
            }
        }
    }
}

/// Whether the rectangle that contains `p` fits with its far corner inside `i32`.
pub open spec fn source_in_range(rects: Seq<Rect>, p: (i32, i32)) -> bool {
    match first_source(rects, p) {
        None => true,
        Some(s) => s.x + s.width <= i32::MAX && s.y + s.height <= i32::MAX,
    }
}

/// An exact crossing as computed at run time, read as mathematical integers.
pub open spec fn lift(o: Option<(i128, i128, CrossedEdge)>) -> Option<(int, int, CrossedEdge)> {
    match o {
        None => None,
        Some(c) => Some((c.0 as int, c.1 as int, c.2)),
    }
}

proof fn lemma_mul_bounds(a: int, b: int, ab: int, bb: int)
    by (nonlinear_arith)
    requires
        -ab <= a <= ab,
        0 <= b <= bb,
        0 <= ab,
    ensures
        -(ab * bb) <= a * b <= ab * bb,
{
}

/// The source display is one of the rectangles, valid, and contains the point.
pub proof fn lemma_first_source(rects: Seq<Rect>, p: (i32, i32))
    ensures
        first_source(rects, p) matches Some(s) ==> {
            &&& s.valid()
            &&& s.covers(p.0 as int, p.1 as int)
            &&& rects.contains(s)
        },
        first_source(rects, p) is None <==> !occupied(rects, p.0 as int, p.1 as int),
    decreases rects.len(),
{
    if rects.len() > 0 {
        lemma_first_source(rects.drop_first(), p);
        if let Some(s) = first_source(rects.drop_first(), p) {
            let k = choose|k: int| 0 <= k < rects.drop_first().len() && rects.drop_first()[k] == s;
            assert(rects[k + 1] == s);
        }
        if occupied(rects.drop_first(), p.0 as int, p.1 as int) {
            let k = choose|k: int| 0 <= k < rects.drop_first().len() && #[trigger] rects.drop_first()[k].valid() && rects.drop_first()[k].covers(p.0 as int, p.1 as int);
            assert(rects[k + 1].valid());
        }
        if occupied(rects, p.0 as int, p.1 as int) && !(rects[0].valid() && rects[0].covers(p.0 as int, p.1 as int)) {
            let k = choose|k: int| 0 <= k < rects.len() && #[trigger] rects[k].valid() && rects[k].covers(p.0 as int, p.1 as int);
            assert(rects.drop_first()[k - 1].valid());
        }
        assert(rects[0] == rects[0]);
        assert(rects.contains(rects[0]));
    }
}

fn find_source(rects: &[Rect], p: (i32, i32)) -> (r: Option<Rect>)
    ensures
        r == first_source(rects@, p),
{
    let mut i: usize = 0;
    assert(rects@.skip(0) =~= rects@);
    while i < rects.len()
        invariant
            0 <= i <= rects.len(),
            first_source(rects@, p) == first_source(rects@.skip(i as int), p),
        decreases rects.len() - i,
    {
        let r = rects[i];
        if r.is_valid() && r.contains_point(p) {
            assert(rects@.skip(i as int)[0] == r);
            return Some(r);
        }
        assert(rects@.skip(i as int).drop_first() =~= rects@.skip(i + 1));
        i += 1;
    }
    assert(rects@.skip(i as int) =~= Seq::<Rect>::empty());
    None
}

/// Whether some valid rectangle covers the pixel `(x, y)`; coordinates beyond
/// the `i32` range are never covered.
fn occupied_at(rects: &[Rect], x: i64, y: i64) -> (r: bool)
    ensures
        r == occupied(rects@, x as int, y as int),
{
    let mut i: usize = 0;
    while i < rects.len()
        invariant
            0 <= i <= rects.len(),
            forall|j: int| 0 <= j < i ==> !(#[trigger] rects@[j].valid() && rects@[j].covers(x as int, y as int)),
        decreases rects.len() - i,
    {
        let r = rects[i];
        let x_end = saturating_add_i32(r.x, r.width);
        let y_end = saturating_add_i32(r.y, r.height);
        if r.is_valid() && x >= r.x as i64 && x < x_end as i64 && y >= r.y as i64 && y < y_end as i64 {
            assert(rects@[i as int].valid() && rects@[i as int].covers(x as int, y as int));
            return true;
        }
        i += 1;
    }
    false
}

fn clamp_i32(v: i32, lo: i32, hi: i32) -> (r: i32)
    requires
        lo <= hi,
    ensures
        r as int == clamp_int(v as int, lo as int, hi as int),
{
    if v < lo {
        lo
    } else if v > hi {
        hi
    } else {
        v
    }
}

fn exposed_exec(rects: &[Rect], edge: Edge, edge_c: i32, c: i32) -> (r: bool)
    ensures
        r == exposed_at(rects@, edge, edge_c as int, c as int),
{
    let (x, y): (i64, i64) = match edge {
        Edge::Left => (edge_c as i64 - 1, c as i64),
        Edge::Right => (edge_c as i64 + 1, c as i64),
        Edge::Top => (c as i64, edge_c as i64 - 1),
        Edge::Bottom => (c as i64, edge_c as i64 + 1),
    };
    !occupied_at(rects, x, y)
}

fn point_exec(edge: Edge, edge_c: i32, c: i32) -> (r: (i32, i32))
    ensures
        r == point_on(edge, edge_c as int, c as int),
{
    match edge {
        Edge::Left | Edge::Right => (edge_c, c),
        Edge::Top | Edge::Bottom => (c, edge_c),
    }
}

/// `numerator / denominator` rounded to the nearest integer with halves away
/// from zero, when the denominator is positive and the result fits `i32`.
fn round_ratio_away_from_zero(numerator: i128, denominator: i128) -> (r: Option<i32>)
    requires
        denominator < 0x4000_0000_0000_0000_0000_0000_0000_0000,
    ensures
        denominator <= 0 ==> r is None,
        denominator > 0 ==> match r {
            Some(v) => fits_i32(round_half_away(numerator as int, denominator as int))
                && v as int == round_half_away(numerator as int, denominator as int),
            None => !fits_i32(round_half_away(numerator as int, denominator as int)),
        },
{
    if denominator <= 0 {
        return None;
    }
    let floor = match numerator.checked_div_euclid(denominator) {
        Some(f) => f,
        None => return None,
    };
    let remainder = match numerator.checked_rem_euclid(denominator) {
        Some(m) => m,
        None => return None,
    };
    assert(0 <= remainder < denominator);
    let rounded: i128 = if remainder * 2 < denominator {
        floor
    } else if remainder * 2 > denominator {
        match floor.checked_add(1) {
            Some(v) => v,
            None => return None,
        }
    } else if numerator < 0 {
        floor
    } else {
        match floor.checked_add(1) {
            Some(v) => v,
            None => return None,
        }
    };
    if rounded < i32::MIN as i128 || rounded > i32::MAX as i128 {
        None
    } else {
        Some(rounded as i32)
    }
}

/// When `cross_num / cross_den` lies exactly on the border between two pixels,
/// those two pixels, the one farther from zero first.
fn endpoint_owners(cross_num: i128, cross_den: i128) -> (r: Option<(i32, i32)>)
    requires
        -0x1000_0000_0000_0000_0000_0000_0000_0000 < cross_num < 0x1000_0000_0000_0000_0000_0000_0000_0000,
    ensures
        match r {
            None => endpoint_owner_pair(cross_num as int, cross_den as int) is None,
            Some(p) => endpoint_owner_pair(cross_num as int, cross_den as int) == Some((p.0 as int, p.1 as int)),
        },
{
    if cross_den <= 0 {
        return None;
    }
    let doubled_num = cross_num * 2;
    let rem = match doubled_num.checked_rem_euclid(cross_den) {
        Some(m) => m,
        None => return None,
    };
    if rem != 0 {
        return None;
    }
    let doubled_cross = match doubled_num.checked_div_euclid(cross_den) {
        Some(q) => q,
        None => return None,
    };
    let parity = match doubled_cross.checked_rem_euclid(2) {
        Some(m) => m,
        None => return None,
    };
    if parity == 0 {
        return None;
    }
    let half = match doubled_cross.checked_div_euclid(2) {
        Some(q) => q,
        None => return None,
    };
    if half < i32::MIN as i128 || half > i32::MAX as i128 {
        return None;
    }
    let floor = half as i32;
    if floor == i32::MAX {
        return None;
    }
    let ceiling = floor + 1;
    Some(if doubled_cross > 0 {
        (ceiling, floor)
    } else {
        (floor, ceiling)
    })
}

fn axis_exec(edge: Edge, p: (i32, i32)) -> (r: i32)
    ensures
        r as int == axis_of(edge, p),
{
    match edge {
        Edge::Left | Edge::Right => p.0,
        Edge::Top | Edge::Bottom => p.1,
    }
}

fn cross_exec(edge: Edge, p: (i32, i32)) -> (r: i32)
    ensures
        r as int == cross_of(edge, p),
{
    match edge {
        Edge::Left | Edge::Right => p.1,
        Edge::Top | Edge::Bottom => p.0,
    }
}

fn crossing_time_exec(source: Rect, edge: Edge, previous: (i32, i32), current: (i32, i32)) -> (r: Option<(i128, i128)>)
    ensures
        match r {
            None => crossing_time(source, edge, previous, current) is None,
            Some(t) => crossing_time(source, edge, previous, current) == Some((t.0 as int, t.1 as int))
                && 0 < t.0 <= t.1 <= 0x4_0000_0000,
        },
{
    let edge_coordinate = source.edge_coordinate(edge);
    let boundary_adjustment: i128 = match edge {
        Edge::Left | Edge::Top => -1,
        Edge::Right | Edge::Bottom => 1,
    };
    let axis_delta: i128 = axis_exec(edge, current) as i128 - axis_exec(edge, previous) as i128;
    if axis_delta == 0 {
        return None;
    }
    let mut t_num: i128 = edge_coordinate as i128 * 2 + boundary_adjustment - axis_exec(edge, previous) as i128 * 2;
    let mut t_den: i128 = axis_delta * 2;
    if t_den < 0 {
        t_num = -t_num;
        t_den = -t_den;
    }
    if !(t_num > 0 && t_num <= t_den) {
        return None;
    }
    Some((t_num, t_den))
}

fn cross_numerator_exec(edge: Edge, previous: (i32, i32), current: (i32, i32), t_num: i128, t_den: i128) -> (r: i128)
    requires
        0 < t_num <= t_den <= 0x4_0000_0000,
    ensures
        r as int == cross_numerator(edge, previous, current, (t_num as int, t_den as int)),
        -0x40_0000_0000_0000_0000 < r < 0x40_0000_0000_0000_0000,
{
    let previous_cross = cross_exec(edge, previous);
    let cross_delta: i128 = cross_exec(edge, current) as i128 - previous_cross as i128;
    proof {
        lemma_mul_bounds(previous_cross as int, t_den as int, 0x8000_0000, 0x4_0000_0000);
        lemma_mul_bounds(cross_delta as int, t_num as int, 0x1_0000_0000, 0x4_0000_0000);
        assert(t_num * cross_delta == cross_delta * t_num) by (nonlinear_arith);
    }
    previous_cross as i128 * t_den + t_num * cross_delta
}

fn span_exec(source: Rect, edge: Edge) -> (r: (i32, i32))
    requires
        source.valid(),
        source.x + source.width <= i32::MAX,
        source.y + source.height <= i32::MAX,
    ensures
        r.0 as int == span_lo(source, edge),
        r.1 as int == span_hi(source, edge),
        r.0 <= r.1,
{
    match edge {
        Edge::Left | Edge::Right => (source.y, source.y + source.height - 1),
        Edge::Top | Edge::Bottom => (source.x, source.x + source.width - 1),
    }
}

fn within_span_exec(cross_start: i32, cross_end: i32, n: i128, d: i128) -> (r: bool)
    requires
        0 < d <= 0x4_0000_0000,
        -0x40_0000_0000_0000_0000 < n < 0x40_0000_0000_0000_0000,
    ensures
        r == !(2 * n < (2 * cross_start - 1) * d || 2 * n > (2 * cross_end + 1) * d),
{
    proof {
        lemma_mul_bounds(cross_start as int * 2 - 1, d as int, 0x1_0000_0001, 0x4_0000_0000);
        lemma_mul_bounds(cross_end as int * 2 + 1, d as int, 0x1_0000_0001, 0x4_0000_0000);
    }
    !(2 * n < (cross_start as i128 * 2 - 1) * d || 2 * n > (cross_end as i128 * 2 + 1) * d)
}

/// The crossing of one edge of the source display, with its exact crossing time.
fn edge_crossing_exec(
    previous: (i32, i32),
    current: (i32, i32),
    rects: &[Rect],
    source: Rect,
    edge: Edge,
) -> (res: Option<(i128, i128, CrossedEdge)>)
    requires
        source.valid(),
        source.x + source.width <= i32::MAX,
        source.y + source.height <= i32::MAX,
    ensures
        lift(res) == edge_crossing(previous, current, rects@, source, edge),
        res matches Some(c) ==> 0 < c.0 <= c.1 <= 0x4_0000_0000,
{
    let (t_num, t_den) = match crossing_time_exec(source, edge, previous, current) {
        Some(t) => t,
        None => return None,
    };
    let cross_num = cross_numerator_exec(edge, previous, current, t_num, t_den);
    let (cross_start, cross_end) = span_exec(source, edge);
    if !within_span_exec(cross_start, cross_end, cross_num, t_den) {
        return None;
    }
    let rounded = match round_ratio_away_from_zero(cross_num, t_den) {
        Some(r) => r,
        None => return None,
    };
    let owners = match endpoint_owners(cross_num, t_den) {
        Some(p) => p,
        None => (rounded, rounded),
    };
    let edge_coordinate = source.edge_coordinate(edge);
    let c0 = clamp_i32(owners.0, cross_start, cross_end);
    if exposed_exec(rects, edge, edge_coordinate, c0) {
        return Some((t_num, t_den, CrossedEdge { edge, point: point_exec(edge, edge_coordinate, c0) }));
    }
    let c1 = clamp_i32(owners.1, cross_start, cross_end);
    if exposed_exec(rects, edge, edge_coordinate, c1) {
        return Some((t_num, t_den, CrossedEdge { edge, point: point_exec(edge, edge_coordinate, c1) }));
    }
    None
}

fn earlier_exec(best: Option<(i128, i128, CrossedEdge)>, c: Option<(i128, i128, CrossedEdge)>) -> (r: Option<(i128, i128, CrossedEdge)>)
    requires
        best matches Some(b) ==> 0 < b.0 <= b.1 <= 0x4_0000_0000,
        c matches Some(c) ==> 0 < c.0 <= c.1 <= 0x4_0000_0000,
    ensures
        lift(r) == earlier(lift(best), lift(c)),
        r matches Some(b) ==> 0 < b.0 <= b.1 <= 0x4_0000_0000,
{
    match c {
        None => best,
        Some(c) => match best {
            None => Some(c),
            Some(b) => {
                proof {
                    lemma_mul_bounds(c.0 as int, b.1 as int, 0x4_0000_0000, 0x4_0000_0000);
                    lemma_mul_bounds(b.0 as int, c.1 as int, 0x4_0000_0000, 0x4_0000_0000);
                }
                if c.0 * b.1 < b.0 * c.1 {
                    Some(c)
                } else {
                    Some(b)
                }
            },
        },
    }
}

/// The exposed desktop edge that the pointer crossed when moving from
/// `previous` to `current`, and the edge pixel it crossed at.
///
/// The movement starts on the first valid rectangle containing `previous`.
/// Among the four edges of that display the earliest crossing along the
/// movement wins (ties go to left, right, top, bottom in that order); an edge
/// only counts where the pixel beyond it is not covered by any other display.
pub fn crossed_exposed_edge(previous: (i32, i32), current: (i32, i32), rectangles: &[Rect]) -> (res: Option<CrossedEdge>)
    requires
        source_in_range(rectangles@, previous),
    ensures
        res == spec_crossed_exposed_edge(previous, current, rectangles@),
{
    let source = match find_source(rectangles, previous) {
        Some(s) => s,
        None => return None,
    };
    proof {
        lemma_first_source(rectangles@, previous);
    }
    let left = edge_crossing_exec(previous, current, rectangles, source, Edge::Left);
    let best = earlier_exec(None, left);
    let right = edge_crossing_exec(previous, current, rectangles, source, Edge::Right);
    let best = earlier_exec(best, right);
    let top = edge_crossing_exec(previous, current, rectangles, source, Edge::Top);
    let best = earlier_exec(best, top);
    let bottom = edge_crossing_exec(previous, current, rectangles, source, Edge::Bottom);
    let best = earlier_exec(best, bottom);
    match best {
        None => None,
        Some(b) => Some(b.2),
    }
}

/// Whether two rectangle lists hold the same rectangles, in any order or multiplicity.
pub open spec fn same_rectangles(a: Seq<Rect>, b: Seq<Rect>) -> bool {
    forall|r: Rect| a.contains(r) <==> b.contains(r)
}

/// Whether at most one distinct valid rectangle of `rects` contains `p`.
pub open spec fn unique_source(rects: Seq<Rect>, p: (i32, i32)) -> bool {
    forall|a: Rect, b: Rect|
        rects.contains(a) && rects.contains(b) && a.valid() && b.valid() && a.covers(p.0 as int, p.1 as int)
            && b.covers(p.0 as int, p.1 as int) ==> a == b
}

proof fn lemma_occupied_same(a: Seq<Rect>, b: Seq<Rect>, x: int, y: int)
    requires
        same_rectangles(a, b),
    ensures
        occupied(a, x, y) == occupied(b, x, y),
{
    if occupied(a, x, y) {
        let i = choose|i: int| 0 <= i < a.len() && #[trigger] a[i].valid() && a[i].covers(x, y);
        assert(a.contains(a[i]));
        assert(b.contains(a[i]));
        let j = choose|j: int| 0 <= j < b.len() && b[j] == a[i];
        assert(b[j].valid());
    }
    if occupied(b, x, y) {
        let i = choose|i: int| 0 <= i < b.len() && #[trigger] b[i].valid() && b[i].covers(x, y);
        assert(b.contains(b[i]));
        assert(a.contains(b[i]));
        let j = choose|j: int| 0 <= j < a.len() && a[j] == b[i];
        assert(a[j].valid());
    }
}

proof fn lemma_edge_crossing_same(
    previous: (i32, i32),
    current: (i32, i32),
    a: Seq<Rect>,
    b: Seq<Rect>,
    s: Rect,
    edge: Edge,
)
    requires
        same_rectangles(a, b),
    ensures
        edge_crossing(previous, current, a, s, edge) == edge_crossing(previous, current, b, s, edge),
{
    assert forall|x: int, y: int| occupied(a, x, y) == occupied(b, x, y) by {
        lemma_occupied_same(a, b, x, y);
    }
}

/// A crossing is reported only from a display that contains the starting
/// point; the reported pixel lies on the crossed edge of that display, and the
/// pixel just beyond it is covered by no display of the desktop.
pub proof fn lemma_crossing_lands_on_exposed_edge(previous: (i32, i32), current: (i32, i32), rects: Seq<Rect>)
    requires
        source_in_range(rects, previous),
    ensures
        !occupied(rects, previous.0 as int, previous.1 as int) ==> spec_crossed_exposed_edge(previous, current, rects) is None,
        spec_crossed_exposed_edge(previous, current, rects) matches Some(c) ==> {
            let s = first_source(rects, previous)->0;
            &&& first_source(rects, previous) is Some
            &&& s.covers(previous.0 as int, previous.1 as int)
            &&& s.covers(c.point.0 as int, c.point.1 as int)
            &&& axis_of(c.edge, c.point) == s.edge_coord(c.edge)
            &&& exposed_at(rects, c.edge, axis_of(c.edge, c.point), cross_of(c.edge, c.point))
        },
{
    lemma_first_source(rects, previous);
    if let Some(s) = first_source(rects, previous) {
        assert forall|e: Edge| #[trigger] edge_crossing(previous, current, rects, s, e) matches Some(c) ==> {
            &&& c.2.edge == e
            &&& s.covers(c.2.point.0 as int, c.2.point.1 as int)
            &&& axis_of(e, c.2.point) == s.edge_coord(e)
            &&& exposed_at(rects, e, axis_of(e, c.2.point), cross_of(e, c.2.point))
        } by {
            if let Some(t) = crossing_time(s, e, previous, current) {
                let n = cross_numerator(e, previous, current, t);
                let rounded = round_half_away(n, t.1);
                let owners = match endpoint_owner_pair(n, t.1) {
                    Some(p) => p,
                    None => (rounded, rounded),
                };
                let lo = span_lo(s, e);
                let hi = span_hi(s, e);
                let c0 = clamp_int(owners.0, lo, hi);
                let c1 = clamp_int(owners.1, lo, hi);
                assert(lo <= c0 <= hi);
                assert(lo <= c1 <= hi);
            }
        }
        let l = edge_crossing(previous, current, rects, s, Edge::Left);
        let r = edge_crossing(previous, current, rects, s, Edge::Right);
        let t = edge_crossing(previous, current, rects, s, Edge::Top);
        let b = edge_crossing(previous, current, rects, s, Edge::Bottom);
        let best = earlier(earlier(earlier(earlier(None, l), r), t), b);
        assert(best matches Some(x) ==> (Some(x) == l || Some(x) == r || Some(x) == t || Some(x) == b));
    }
}

/// When exactly one display contains the starting point, the crossing does not
/// depend on the order in which the displays are listed.
pub proof fn lemma_crossing_ignores_rectangle_order(
    previous: (i32, i32),
    current: (i32, i32),
    a: Seq<Rect>,
    b: Seq<Rect>,
)
    requires
        same_rectangles(a, b),
        unique_source(a, previous),
    ensures
        spec_crossed_exposed_edge(previous, current, a) == spec_crossed_exposed_edge(previous, current, b),
{
    lemma_first_source(a, previous);
    lemma_first_source(b, previous);
    lemma_occupied_same(a, b, previous.0 as int, previous.1 as int);
    if let Some(sa) = first_source(a, previous) {
        let sb = first_source(b, previous)->0;
        assert(a.contains(sb));
        assert(sa == sb);
        lemma_edge_crossing_same(previous, current, a, b, sa, Edge::Left);
        lemma_edge_crossing_same(previous, current, a, b, sa, Edge::Right);
        lemma_edge_crossing_same(previous, current, a, b, sa, Edge::Top);
        lemma_edge_crossing_same(previous, current, a, b, sa, Edge::Bottom);
    }
}

/// A contiguous, usable portion of one desktop edge: the pixels
/// `cross_start..cross_end` at `edge_coordinate`.
#[derive(Clone, Copy, Debug, PartialEq, Eq, Structural)]
pub struct EdgeSegment {
    pub edge_coordinate: i32,
    pub cross_start: i32,
    pub cross_end: i32,
}

impl EdgeSegment {
    /// Number of pixels of the segment; an inverted segment wraps as an
    /// `as u32` cast of its (saturated, negative) length does.
    pub open spec fn spec_len(self) -> int {
        let d = saturate(self.cross_end - self.cross_start);
        if d >= 0 {
            d
        } else {
            d + 0x1_0000_0000
        }
    }

    pub open spec fn holds(self, edge_coordinate: int, cross_coordinate: int) -> bool {
        self.edge_coordinate == edge_coordinate && self.cross_start <= cross_coordinate < self.cross_end
    }

    pub fn len(self) -> (r: u32)
        ensures
            r as int == self.spec_len(),
    {
        let d = saturating_sub_i32(self.cross_end, self.cross_start);
        if d >= 0 {
            d as u32
        } else {
            (d as i64 + 0x1_0000_0000) as u32
        }
    }

    pub fn contains(self, edge_coordinate: i32, cross_coordinate: i32) -> (r: bool)
        ensures
            r == self.holds(edge_coordinate as int, cross_coordinate as int),
    {
        self.edge_coordinate == edge_coordinate && cross_coordinate >= self.cross_start
            && cross_coordinate < self.cross_end
    }
}

pub open spec fn nonempty_segment(s: EdgeSegment) -> bool {
    s.cross_start < s.cross_end
}

/// The sort order of segments: by `cross_start`, then by `edge_coordinate`.
pub open spec fn segment_key_le(a: EdgeSegment, b: EdgeSegment) -> bool {
    a.cross_start < b.cross_start || (a.cross_start == b.cross_start && a.edge_coordinate <= b.edge_coordinate)
}

pub open spec fn sorted_segments(s: Seq<EdgeSegment>) -> bool {
    forall|i: int, j: int| 0 <= i < j < s.len() ==> segment_key_le(#[trigger] s[i], #[trigger] s[j])
}

/// The exposed outer edge of a non-rectangular desktop.
#[derive(Debug, PartialEq, Eq)]
pub struct EdgeSegments(Vec<EdgeSegment>);

impl EdgeSegments {
    /// Every segment holds at least one pixel, and the segments are sorted
    /// by `cross_start`, then by `edge_coordinate`.
    #[verifier::type_invariant]
    spec fn segments_well_formed(self) -> bool {
        &&& forall|i: int| 0 <= i < self.0@.len() ==> nonempty_segment(#[trigger] self.0@[i])
        &&& sorted_segments(self.0@)
    }
}

impl Clone for EdgeSegments {
    /// The same segments.
    fn clone(&self) -> (r: EdgeSegments)
        ensures
            r@ == self@,
    {
        proof {
            use_type_invariant(self);
        }
        EdgeSegments(self.segments())
    }
}

impl Default for EdgeSegments {
    /// No segment.
    fn default() -> (r: EdgeSegments)
        ensures
            r@ == Seq::<EdgeSegment>::empty(),
    {
        EdgeSegments(Vec::new())
    }
}

/// Whether the first segment of `s` that holds `(e, c)` starts at most `i32::MAX`
/// pixels before `c`.
pub open spec fn holder_in_range(s: Seq<EdgeSegment>, e: int, c: int) -> bool
    decreases s.len(),
{
    if s.len() == 0 {
        true
    } else if s[0].holds(e, c) {
        c - s[0].cross_start <= i32::MAX
    } else {
        holder_in_range(s.drop_first(), e, c)
    }
}

impl View for EdgeSegments {
    type V = Seq<EdgeSegment>;

    closed spec fn view(&self) -> Seq<EdgeSegment> {
        self.0@
    }
}

/// Sum of the lengths of `s`.
pub open spec fn total_len(s: Seq<EdgeSegment>) -> int
    decreases s.len(),
{
    if s.len() == 0 {
        0
    } else {
        total_len(s.drop_last()) + s.last().spec_len()
    }
}

/// Where pixel `(e, c)` sits in the concatenation of the segments of `s`,
/// counting from the first pixel of the first segment holding it.
pub open spec fn offset_of(s: Seq<EdgeSegment>, e: int, c: int) -> Option<int>
    decreases s.len(),
{
    if s.len() == 0 {
        None
    } else if s[0].holds(e, c) {
        Some(c - s[0].cross_start)
    } else {
        match offset_of(s.drop_first(), e, c) {
            None => None,
            Some(o) => Some(s[0].spec_len() + o),
        }
    }
}

/// The pixel at position `target` of the concatenation of the segments of `s`.
pub open spec fn pixel_at_offset(s: Seq<EdgeSegment>, target: int) -> Option<(i32, i32)>
    decreases s.len(),
{
    if s.len() == 0 {
        None
    } else if target < s[0].spec_len() {
        Some((s[0].edge_coordinate, (s[0].cross_start + target) as i32))
    } else {
        pixel_at_offset(s.drop_first(), target - s[0].spec_len())
    }
}

proof fn lemma_total_len_nonneg(s: Seq<EdgeSegment>)
    ensures
        total_len(s) >= 0,
        forall|i: int| 0 <= i < s.len() ==> #[trigger] s[i].spec_len() <= total_len(s),
    decreases s.len(),
{
    if s.len() > 0 {
        lemma_total_len_nonneg(s.drop_last());
        assert(forall|i: int| 0 <= i < s.len() - 1 ==> s.drop_last()[i] == s[i]);
    }
}

proof fn lemma_total_len_take(s: Seq<EdgeSegment>, i: int)
    requires
        0 <= i < s.len(),
    ensures
        total_len(s.take(i + 1)) == total_len(s.take(i)) + s[i].spec_len(),
{
    assert(s.take(i + 1).drop_last() =~= s.take(i));
}

proof fn lemma_total_len_prefix(s: Seq<EdgeSegment>, i: int)
    requires
        0 <= i <= s.len(),
    ensures
        total_len(s.take(i)) <= total_len(s),
    decreases s.len() - i,
{
    if i < s.len() {
        lemma_total_len_take(s, i);
        lemma_total_len_prefix(s, i + 1);
        assert(s[i].spec_len() >= 0);
    } else {
        assert(s.take(i) =~= s);
    }
}

proof fn lemma_offset_of_skip(s: Seq<EdgeSegment>, i: int, e: int, c: int)
    requires
        0 <= i < s.len(),
        !s[i].holds(e, c),
    ensures
        offset_of(s.skip(i), e, c) == match offset_of(s.skip(i + 1), e, c) {
            None => None,
            Some(o) => Some(s[i].spec_len() + o),
        },
{
    assert(s.skip(i).drop_first() =~= s.skip(i + 1));
}

proof fn lemma_pixel_at_skip(s: Seq<EdgeSegment>, i: int, target: int)
    requires
        0 <= i < s.len(),
        target >= s[i].spec_len(),
    ensures
        pixel_at_offset(s.skip(i), target) == pixel_at_offset(s.skip(i + 1), target - s[i].spec_len()),
{
    assert(s.skip(i).drop_first() =~= s.skip(i + 1));
}

impl EdgeSegments {
    /// The non-empty segments among `segments`, sorted by `cross_start` and
    /// then by `edge_coordinate`.
    pub fn from_segments(segments: Vec<EdgeSegment>) -> (r: EdgeSegments)
        ensures
            r@.to_multiset() == segments@.filter(|s: EdgeSegment| nonempty_segment(s)).to_multiset(),
            sorted_segments(r@),
            forall|i: int| 0 <= i < r@.len() ==> nonempty_segment(#[trigger] r@[i]),
    {
        broadcast use vstd::seq_lib::group_to_multiset_ensures;

        let ghost pred = |s: EdgeSegment| nonempty_segment(s);
        let mut out: Vec<EdgeSegment> = Vec::new();
        let mut i: usize = 0;
        assert(segments@.take(0) =~= Seq::<EdgeSegment>::empty());
        assert(segments@.take(0).filter(pred) =~= Seq::<EdgeSegment>::empty());
        while i < segments.len()
            invariant
                0 <= i <= segments.len(),
                pred == (|s: EdgeSegment| nonempty_segment(s)),
                out@.to_multiset() == segments@.take(i as int).filter(pred).to_multiset(),
                sorted_segments(out@),
                forall|k: int| 0 <= k < out@.len() ==> nonempty_segment(#[trigger] out@[k]),
            decreases segments.len() - i,
        {
            let seg = segments[i];
            assert(segments@.take(i + 1) =~= segments@.take(i as int).push(seg));
            proof {
                segments@.take(i as int).lemma_filter_push(seg, pred);
            }
            if !(seg.cross_start < seg.cross_end) {
                assert(!pred(seg));
                assert(segments@.take(i + 1).filter(pred) == segments@.take(i as int).filter(pred));
            }
            if seg.cross_start < seg.cross_end {
                // insert after every segment that sorts before or equal to `seg`
                let mut p: usize = 0;
                while p < out.len() && (out[p].cross_start < seg.cross_start || (out[p].cross_start
                    == seg.cross_start && out[p].edge_coordinate <= seg.edge_coordinate))
                    invariant
                        0 <= p <= out.len(),
                        forall|k: int| 0 <= k < p ==> segment_key_le(#[trigger] out@[k], seg),
                    decreases out.len() - p,
                {
                    p += 1;
                }
                let ghost before = out@;
                assert(p < out@.len() ==> !segment_key_le(out@[p as int], seg));
                out.insert(p, seg);
                assert(out@ == before.insert(p as int, seg));
                assert(pred(seg));
                assert(segments@.take(i + 1).filter(pred) == segments@.take(i as int).filter(pred).push(seg));
                proof {
                    vstd::seq_lib::to_multiset_insert(before, p as int, seg);
                    vstd::seq_lib::to_multiset_build(segments@.take(i as int).filter(pred), seg);
                }
                assert(out@.to_multiset() == before.to_multiset().insert(seg));
                assert forall|a: int, b: int| 0 <= a < b < out@.len() implies segment_key_le(
                    #[trigger] out@[a],
                    #[trigger] out@[b],
                ) by {
                    if b < p {
                        assert(out@[a] == before[a] && out@[b] == before[b]);
                    } else if b == p {
                        assert(out@[a] == before[a]);
                    } else if a == p {
                        assert(out@[b] == before[b - 1]);
                        assert(segment_key_le(before[p as int], before[b - 1]));
                    } else if a < p {
                        assert(out@[a] == before[a] && out@[b] == before[b - 1]);
                    } else {
                        assert(out@[a] == before[a - 1] && out@[b] == before[b - 1]);
                    }
                }
            }
            i += 1;
        }
        assert(segments@.take(segments.len() as int) =~= segments@);
        EdgeSegments(out)
    }

    /// The segments, in order: each holds at least one pixel, and they are
    /// sorted by `cross_start`, then by `edge_coordinate`.
    pub fn segments(&self) -> (r: Vec<EdgeSegment>)
        ensures
            r@ == self@,
            forall|i: int| 0 <= i < r@.len() ==> nonempty_segment(#[trigger] r@[i]),
            sorted_segments(r@),
    {
        proof {
            use_type_invariant(self);
        }
        let mut out: Vec<EdgeSegment> = Vec::new();
        let mut i: usize = 0;
        while i < self.0.len()
            invariant
                0 <= i <= self.0.len(),
                out@ =~= self.0@.take(i as int),
            decreases self.0.len() - i,
        {
            out.push(self.0[i]);
            i += 1;
        }
        out
    }

    /// Total number of pixels of all segments, when it fits `u32`.
    pub fn total_len(&self) -> (r: Option<u32>)
        ensures
            match r {
                Some(t) => t as int == total_len(self@),
                None => total_len(self@) > u32::MAX,
            },
    {
        let mut total: u32 = 0;
        let mut i: usize = 0;
        assert(self@.take(0) =~= Seq::<EdgeSegment>::empty());
        while i < self.0.len()
            invariant
                0 <= i <= self.0.len(),
                total as int == total_len(self@.take(i as int)),
            decreases self.0.len() - i,
        {
            proof {
                lemma_total_len_take(self@, i as int);
            }
            let l = self.0[i].len();
            if total > u32::MAX - l {
                proof {
                    lemma_total_len_prefix(self@, i + 1);
                }
                return None;
            }
            total = total + l;
            i += 1;
        }
        assert(self@.take(self@.len() as int) =~= self@);
        Some(total)
    }

    /// Position of the pixel `(edge_coordinate, cross_coordinate)` along the
    /// concatenated segments, when some segment holds it.
    pub fn offset_of(&self, edge_coordinate: i32, cross_coordinate: i32) -> (r: Option<u32>)
        requires
            total_len(self@) <= u32::MAX,
            holder_in_range(self@, edge_coordinate as int, cross_coordinate as int),
        ensures
            match r {
                Some(o) => offset_of(self@, edge_coordinate as int, cross_coordinate as int) == Some(o as int),
                None => offset_of(self@, edge_coordinate as int, cross_coordinate as int) is None,
            },
    {
        proof {
            use_type_invariant(self);
        }
        let mut offset: u32 = 0;
        let mut i: usize = 0;
        assert(self@.skip(0) =~= self@);
        assert(self@.take(0) =~= Seq::<EdgeSegment>::empty());
        proof {
            lemma_total_len_nonneg(self@);
        }
        while i < self.0.len()
            invariant
                0 <= i <= self.0.len(),
                total_len(self@) <= u32::MAX,
                offset as int == total_len(self@.take(i as int)),
                holder_in_range(self@.skip(i as int), edge_coordinate as int, cross_coordinate as int),
                offset_of(self@, edge_coordinate as int, cross_coordinate as int) == match offset_of(
                    self@.skip(i as int),
                    edge_coordinate as int,
                    cross_coordinate as int,
                ) {
                    None => None,
                    Some(o) => Some(offset + o),
                },
            decreases self.0.len() - i,
        {
            let segment = self.0[i];
            proof {
                lemma_total_len_take(self@, i as int);
                lemma_total_len_prefix(self@, i + 1);
                lemma_total_len_nonneg(self@.take(i + 1));
            }
            if segment.contains(edge_coordinate, cross_coordinate) {
                assert(self@.skip(i as int)[0] == segment);
                assert(cross_coordinate - segment.cross_start <= segment.spec_len());
                return Some(offset + (cross_coordinate as i64 - segment.cross_start as i64) as u32);
            }
            proof {
                lemma_offset_of_skip(self@, i as int, edge_coordinate as int, cross_coordinate as int);
                assert(self@.skip(i as int).drop_first() =~= self@.skip(i + 1));
            }
            offset = offset + segment.len();
            i += 1;
        }
        assert(self@.skip(i as int) =~= Seq::<EdgeSegment>::empty());
        None
    }

    /// The pixel at position `target` along the concatenated segments.
    pub fn pixel_at(&self, target: u32) -> (r: Option<(i32, i32)>)
        requires
            total_len(self@) <= u32::MAX,
        ensures
            r == pixel_at_offset(self@, target as int),
    {
        proof {
            use_type_invariant(self);
        }
        let mut offset: u32 = 0;
        let mut i: usize = 0;
        assert(self@.skip(0) =~= self@);
        assert(self@.take(0) =~= Seq::<EdgeSegment>::empty());
        while i < self.0.len()
            invariant
                0 <= i <= self.0.len(),
                total_len(self@) <= u32::MAX,
                offset as int == total_len(self@.take(i as int)),
                forall|k: int| 0 <= k < self@.len() ==> nonempty_segment(#[trigger] self@[k]),
                offset <= target ==> pixel_at_offset(self@, target as int) == pixel_at_offset(
                    self@.skip(i as int),
                    target - offset,
                ),
                offset <= target,
            decreases self.0.len() - i,
        {
            let segment = self.0[i];
            proof {
                lemma_total_len_take(self@, i as int);
                lemma_total_len_prefix(self@, i + 1);
                lemma_total_len_nonneg(self@.take(i + 1));
            }
            let end = offset + segment.len();
            if target < end {
                assert(self@.skip(i as int)[0] == segment);
                assert(nonempty_segment(self@[i as int]));
                return Some((segment.edge_coordinate, (segment.cross_start as i64 + (target - offset) as i64) as i32));
            }
            proof {
                lemma_pixel_at_skip(self@, i as int, (target - offset) as int);
            }
            offset = end;
            i += 1;
        }
        assert(self@.skip(i as int) =~= Seq::<EdgeSegment>::empty());
        None
    }
}

/// The pixel found at the offset of a pixel is that pixel: normalising a
/// point along the edge and denormalising the result gives the point back,
/// for segments that each hold at least one pixel and at most `i32::MAX`.
pub proof fn lemma_offset_then_pixel(s: Seq<EdgeSegment>, e: int, c: int)
    requires
        forall|i: int|
            0 <= i < s.len() ==> nonempty_segment(#[trigger] s[i]) && s[i].cross_end - s[i].cross_start
                <= i32::MAX,
        offset_of(s, e, c) is Some,
    ensures
        offset_of(s, e, c)->0 >= 0,
        pixel_at_offset(s, offset_of(s, e, c)->0) matches Some(p) && p.0 == e && p.1 == c,
    decreases s.len(),
{
    if s[0].holds(e, c) {
        assert(s[0].spec_len() == s[0].cross_end - s[0].cross_start);
    } else {
        let rest = s.drop_first();
        assert(forall|i: int| 0 <= i < rest.len() ==> rest[i] == s[i + 1]);
        lemma_offset_then_pixel(rest, e, c);
        assert(s[0].spec_len() >= 0);
    }
}

/// Whether the valid rectangle `r` spans the cross coordinate `c` along `edge`.
pub open spec fn spans(r: Rect, edge: Edge, c: int) -> bool {
    r.valid() && r.cross_range(edge).0 <= c < r.cross_range(edge).1
}

/// The outermost of two edge coordinates: the smaller for left/top, the larger for right/bottom.
pub open spec fn outermost(edge: Edge, a: int, b: int) -> int {
    match edge {
        Edge::Left | Edge::Top => if b < a { b } else { a },
        Edge::Right | Edge::Bottom => if b > a { b } else { a },
    }
}

/// The outermost edge coordinate, along `edge`, of the rectangles spanning cross
/// coordinate `c`; `None` when no valid rectangle spans it.
pub open spec fn exposed_coord(rects: Seq<Rect>, edge: Edge, c: int) -> Option<int>
    decreases rects.len(),
{
    if rects.len() == 0 {
        None
    } else {
        let rest = exposed_coord(rects.drop_last(), edge, c);
        let r = rects.last();
        if spans(r, edge, c) {
            match rest {
                None => Some(r.edge_coord(edge)),
                Some(v) => Some(outermost(edge, v, r.edge_coord(edge))),
            }
        } else {
            rest
        }
    }
}

/// `segs` describes exactly the exposed side `edge` of the desktop `rects`:
/// sorted disjoint non-empty runs that hold precisely the spanned cross
/// coordinates, each at the outermost edge coordinate there, with adjacent
/// runs merged whenever they continue at the same edge coordinate.
pub open spec fn describes_exposed_edge(segs: Seq<EdgeSegment>, rects: Seq<Rect>, edge: Edge) -> bool {
    &&& forall|i: int| 0 <= i < segs.len() ==> nonempty_segment(#[trigger] segs[i])
    &&& forall|i: int, j: int| 0 <= i < j < segs.len() ==> #[trigger] segs[i].cross_end <= #[trigger] segs[j].cross_start
    &&& forall|i: int| 0 <= i < segs.len() - 1 ==> #[trigger] segs[i].cross_end < segs[i + 1].cross_start
        || segs[i].edge_coordinate != segs[i + 1].edge_coordinate
    &&& forall|i: int, c: int| 0 <= i < segs.len() && segs[i].cross_start <= c < segs[i].cross_end
        ==> #[trigger] exposed_coord(rects, edge, c) == Some(#[trigger] segs[i].edge_coordinate as int)
    &&& forall|c: int| #[trigger] exposed_coord(rects, edge, c) is Some ==> exists|i: int|
        0 <= i < segs.len() && #[trigger] segs[i].cross_start <= c < segs[i].cross_end
}

pub open spec fn strictly_sorted(bs: Seq<i32>) -> bool {
    forall|i: int, j: int| 0 <= i < j < bs.len() ==> #[trigger] bs[i] < #[trigger] bs[j]
}

/// Every end of the cross range of a valid rectangle is among `bs`.
pub open spec fn has_all_boundaries(bs: Seq<i32>, rects: Seq<Rect>, edge: Edge) -> bool {
    forall|j: int| 0 <= j < rects.len() && #[trigger] rects[j].valid() ==> bs.contains(rects[j].cross_range(edge).0 as i32)
        && bs.contains(rects[j].cross_range(edge).1 as i32)
}

proof fn lemma_cross_range_fits(r: Rect, edge: Edge)
    ensures
        fits_i32(r.cross_range(edge).0),
        fits_i32(r.cross_range(edge).1),
{
}

/// Between two consecutive boundaries nothing changes.
proof fn lemma_exposed_constant(rects: Seq<Rect>, edge: Edge, bs: Seq<i32>, k: int, c: int)
    requires
        strictly_sorted(bs),
        0 <= k < bs.len() - 1,
        bs[k] <= c < bs[k + 1],
        has_all_boundaries(bs, rects, edge),
    ensures
        exposed_coord(rects, edge, c) == exposed_coord(rects, edge, bs[k] as int),
    decreases rects.len(),
{
    if rects.len() > 0 {
        let rest = rects.drop_last();
        assert forall|j: int| 0 <= j < rest.len() && #[trigger] rest[j].valid() implies bs.contains(
            rest[j].cross_range(edge).0 as i32,
        ) && bs.contains(rest[j].cross_range(edge).1 as i32) by {
            assert(rest[j] == rects[j]);
        }
        lemma_exposed_constant(rest, edge, bs, k, c);
        let r = rects.last();
        assert(rects[rects.len() - 1] == r);
        if r.valid() {
            lemma_cross_range_fits(r, edge);
            let st = r.cross_range(edge).0;
            let en = r.cross_range(edge).1;
            let ms = choose|m: int| 0 <= m < bs.len() && bs[m] == st as i32;
            let me = choose|m: int| 0 <= m < bs.len() && bs[m] == en as i32;
            if ms <= k {
                assert(bs[ms] <= bs[k]) by {
                    if ms < k {
                        assert(bs[ms] < bs[k]);
                    }
                }
            } else {
                assert(bs[k + 1] <= bs[ms]) by {
                    if k + 1 < ms {
                        assert(bs[k + 1] < bs[ms]);
                    }
                }
            }
            if me <= k {
                assert(bs[me] <= bs[k]) by {
                    if me < k {
                        assert(bs[me] < bs[k]);
                    }
                }
            } else {
                assert(bs[k + 1] <= bs[me]) by {
                    if k + 1 < me {
                        assert(bs[k + 1] < bs[me]);
                    }
                }
            }
            assert(spans(r, edge, c) == spans(r, edge, bs[k] as int));
        }
    }
}

/// Outside the outermost boundaries nothing is spanned.
proof fn lemma_exposed_outside(rects: Seq<Rect>, edge: Edge, bs: Seq<i32>, c: int)
    requires
        strictly_sorted(bs),
        has_all_boundaries(bs, rects, edge),
        bs.len() == 0 || c < bs[0] || c >= bs[bs.len() - 1],
    ensures
        exposed_coord(rects, edge, c) is None,
    decreases rects.len(),
{
    if rects.len() > 0 {
        let rest = rects.drop_last();
        assert forall|j: int| 0 <= j < rest.len() && #[trigger] rest[j].valid() implies bs.contains(
            rest[j].cross_range(edge).0 as i32,
        ) && bs.contains(rest[j].cross_range(edge).1 as i32) by {
            assert(rest[j] == rects[j]);
        }
        lemma_exposed_outside(rest, edge, bs, c);
        let r = rects.last();
        assert(rects[rects.len() - 1] == r);
        if r.valid() {
            lemma_cross_range_fits(r, edge);
            let st = r.cross_range(edge).0;
            let en = r.cross_range(edge).1;
            let ms = choose|m: int| 0 <= m < bs.len() && bs[m] == st as i32;
            let me = choose|m: int| 0 <= m < bs.len() && bs[m] == en as i32;
            if ms > 0 {
                assert(bs[0] < bs[ms]);
            }
            if me < bs.len() - 1 {
                assert(bs[me] < bs[bs.len() - 1]);
            }
        }
    }
}

/// Add `b` to the strictly sorted `bs` unless it is there already.
fn insert_boundary(bs: &mut Vec<i32>, b: i32)
    requires
        strictly_sorted(old(bs)@),
    ensures
        strictly_sorted(final(bs)@),
        final(bs)@.contains(b),
        forall|x: i32| #[trigger] final(bs)@.contains(x) ==> (old(bs)@.contains(x) || x == b),
        forall|x: i32| #[trigger] old(bs)@.contains(x) ==> final(bs)@.contains(x),
{
    let mut p: usize = 0;
    while p < bs.len() && bs[p] < b
        invariant
            0 <= p <= bs.len(),
            bs@ == old(bs)@,
            forall|k: int| 0 <= k < p ==> bs@[k] < b,
        decreases bs.len() - p,
    {
        p += 1;
    }
    if p < bs.len() && bs[p] == b {
        assert(bs@[p as int] == b);
    } else {
        let ghost before = bs@;
        bs.insert(p, b);
        proof {
            lemma_insert_sorted(before, p as int, b);
        }
    }
}

proof fn lemma_insert_sorted(before: Seq<i32>, p: int, b: i32)
    requires
        strictly_sorted(before),
        0 <= p <= before.len(),
        forall|k: int| 0 <= k < p ==> before[k] < b,
        p < before.len() ==> before[p] > b,
    ensures
        strictly_sorted(before.insert(p, b)),
        before.insert(p, b).contains(b),
        forall|x: i32| #[trigger] before.insert(p, b).contains(x) ==> (before.contains(x) || x == b),
        forall|x: i32| #[trigger] before.contains(x) ==> before.insert(p, b).contains(x),
{
    let after = before.insert(p, b);
    assert(after[p] == b);
    assert forall|x: i32| #[trigger] before.contains(x) implies after.contains(x) by {
        let k = choose|k: int| 0 <= k < before.len() && before[k] == x;
        if k < p {
            assert(after[k] == x);
        } else {
            assert(after[k + 1] == x);
        }
    }
    assert forall|x: i32| #[trigger] after.contains(x) implies (before.contains(x) || x == b) by {
        let k = choose|k: int| 0 <= k < after.len() && after[k] == x;
        if k < p {
            assert(before[k] == x);
        } else if k > p {
            assert(before[k - 1] == x);
        }
    }
    assert forall|i: int, j: int| 0 <= i < j < after.len() implies #[trigger] after[i] < #[trigger] after[j] by {
        if j < p {
        } else if j == p {
        } else if i == p {
            assert(after[j] == before[j - 1]);
            if j - 1 > p {
                assert(before[p] < before[j - 1]);
            }
        } else if i < p {
            assert(after[j] == before[j - 1]);
        } else {
            assert(after[i] == before[i - 1] && after[j] == before[j - 1]);
        }
    }
}

/// The sorted, distinct ends of the cross ranges of the valid rectangles.
fn cross_boundaries(edge: Edge, rects: &[Rect]) -> (bs: Vec<i32>)
    ensures
        strictly_sorted(bs@),
        has_all_boundaries(bs@, rects@, edge),
{
    let mut bs: Vec<i32> = Vec::new();
    let mut i: usize = 0;
    while i < rects.len()
        invariant
            0 <= i <= rects.len(),
            strictly_sorted(bs@),
            forall|j: int| 0 <= j < i && #[trigger] rects@[j].valid() ==> bs@.contains(rects@[j].cross_range(edge).0 as i32)
                && bs@.contains(rects@[j].cross_range(edge).1 as i32),
        decreases rects.len() - i,
    {
        let r = rects[i];
        if r.is_valid() {
            let (start, end) = r.cross_axis_range(edge);
            insert_boundary(&mut bs, start);
            insert_boundary(&mut bs, end);
        }
        i += 1;
    }
    bs
}

/// The outermost edge coordinate among the rectangles spanning `c`.
fn exposed_coordinate_at(edge: Edge, rects: &[Rect], c: i32) -> (r: Option<i32>)
    ensures
        match r {
            None => exposed_coord(rects@, edge, c as int) is None,
            Some(v) => exposed_coord(rects@, edge, c as int) == Some(v as int),
        },
{
    let mut acc: Option<i32> = None;
    let mut i: usize = 0;
    assert(rects@.take(0) =~= Seq::<Rect>::empty());
    while i < rects.len()
        invariant
            0 <= i <= rects.len(),
            match acc {
                None => exposed_coord(rects@.take(i as int), edge, c as int) is None,
                Some(v) => exposed_coord(rects@.take(i as int), edge, c as int) == Some(v as int),
            },
        decreases rects.len() - i,
    {
        let r = rects[i];
        assert(rects@.take(i + 1).drop_last() =~= rects@.take(i as int));
        assert(rects@.take(i + 1).last() == r);
        if r.is_valid() && r.contains_cross_axis(edge, c) {
            let candidate = r.edge_coordinate(edge);
            acc = match acc {
                None => Some(candidate),
                Some(current) => Some(
                    match edge {
                        Edge::Left | Edge::Top => if candidate < current {
                            candidate
                        } else {
                            current
                        },
                        Edge::Right | Edge::Bottom => if candidate > current {
                            candidate
                        } else {
                            current
                        },
                    },
                ),
            };
        }
        i += 1;
    }
    assert(rects@.take(rects.len() as int) =~= rects@);
    acc
}

impl EdgeSegments {
    /// The portions of side `edge` of the desktop formed by `rectangles` that
    /// face outside: for every spanned cross coordinate, the outermost pixel.
    /// Gaps between displays are left out of the segments. The segments do
    /// not depend on the order of the rectangles
    /// (`lemma_exposed_edge_ignores_rectangle_order`).
    pub fn from_rectangles(edge: Edge, rectangles: &[Rect]) -> (r: EdgeSegments)
        ensures
            describes_exposed_edge(r@, rectangles@, edge),
    {
        let bs = cross_boundaries(edge, rectangles);
        let mut segments: Vec<EdgeSegment> = Vec::new();
        let mut k: usize = 0;
        while k + 1 < bs.len()
            invariant
                strictly_sorted(bs@),
                has_all_boundaries(bs@, rectangles@, edge),
                0 <= k < bs.len() || (k == 0 && bs.len() == 0),
                forall|i: int| 0 <= i < segments@.len() ==> nonempty_segment(#[trigger] segments@[i]),
                forall|i: int, j: int| 0 <= i < j < segments@.len() ==> #[trigger] segments@[i].cross_end
                    <= #[trigger] segments@[j].cross_start,
                forall|i: int| 0 <= i < segments@.len() - 1 ==> #[trigger] segments@[i].cross_end < segments@[i
                    + 1].cross_start || segments@[i].edge_coordinate != segments@[i + 1].edge_coordinate,
                forall|i: int, c: int| 0 <= i < segments@.len() && segments@[i].cross_start <= c < segments@[i].cross_end
                    ==> #[trigger] exposed_coord(rectangles@, edge, c) == Some(#[trigger] segments@[i].edge_coordinate as int),
                bs.len() > 0 ==> forall|i: int| 0 <= i < segments@.len() ==> #[trigger] segments@[i].cross_end <= bs@[k as int],
                bs.len() > 0 ==> forall|c: int| bs@[0] <= c < bs@[k as int] && #[trigger] exposed_coord(rectangles@, edge, c) is Some
                    ==> exists|i: int| 0 <= i < segments@.len() && #[trigger] segments@[i].cross_start <= c < segments@[i].cross_end,
            decreases bs.len() - k,
        {
            let start = bs[k];
            let end = bs[k + 1];
            assert(start < end);
            let exposed = exposed_coordinate_at(edge, rectangles, start);
            let ghost before = segments@;
            assert forall|c: int| start <= c < end implies #[trigger] exposed_coord(rectangles@, edge, c)
                == exposed_coord(rectangles@, edge, start as int) by {
                lemma_exposed_constant(rectangles@, edge, bs@, k as int, c);
            }
            match exposed {
                None => {},
                Some(ec) => {
                    let n = segments.len();
                    if n > 0 && segments[n - 1].edge_coordinate == ec && segments[n - 1].cross_end == start {
                        let mut last = segments[n - 1];
                        last.cross_end = end;
                        segments.set(n - 1, last);
                        assert forall|c: int| bs@[0] <= c < end && #[trigger] exposed_coord(rectangles@, edge, c) is Some
                            implies exists|i: int| 0 <= i < segments@.len() && #[trigger] segments@[i].cross_start <= c < segments@[i].cross_end by {
                            if c < start {
                                let i = choose|i: int| 0 <= i < before.len() && #[trigger] before[i].cross_start <= c < before[i].cross_end;
                                if i == n - 1 {
                                    assert(segments@[i].cross_start <= c < segments@[i].cross_end);
                                } else {
                                    assert(segments@[i] == before[i]);
                                }
                            } else {
                                assert(segments@[n - 1].cross_start <= c < segments@[n - 1].cross_end);
                            }
                        }
                        assert forall|i: int, c: int| 0 <= i < segments@.len() && segments@[i].cross_start <= c < segments@[i].cross_end
                            implies #[trigger] exposed_coord(rectangles@, edge, c) == Some(#[trigger] segments@[i].edge_coordinate as int) by {
                            if i == n - 1 && c >= start {
                            } else if i == n - 1 {
                                assert(before[i].cross_start <= c < before[i].cross_end);
                            } else {
                                assert(segments@[i] == before[i]);
                            }
                        }
                        assert forall|i: int, j: int| 0 <= i < j < segments@.len() implies #[trigger] segments@[i].cross_end
                            <= #[trigger] segments@[j].cross_start by {
                            if j == n - 1 {
                                assert(before[i].cross_end <= before[j].cross_start);
                            } else {
                                assert(before[i].cross_end <= before[j].cross_start);
                            }
                        }
                        assert forall|i: int| 0 <= i < segments@.len() - 1 implies #[trigger] segments@[i].cross_end < segments@[i
                            + 1].cross_start || segments@[i].edge_coordinate != segments@[i + 1].edge_coordinate by {
                            assert(before[i].cross_end < before[i + 1].cross_start || before[i].edge_coordinate != before[i + 1].edge_coordinate);
                        }
                    } else {
                        let seg = EdgeSegment { edge_coordinate: ec, cross_start: start, cross_end: end };
                        segments.push(seg);
                        assert(segments@ == before.push(seg));
                        assert forall|c: int| bs@[0] <= c < end && #[trigger] exposed_coord(rectangles@, edge, c) is Some
                            implies exists|i: int| 0 <= i < segments@.len() && #[trigger] segments@[i].cross_start <= c < segments@[i].cross_end by {
                            if c < start {
                                let i = choose|i: int| 0 <= i < before.len() && #[trigger] before[i].cross_start <= c < before[i].cross_end;
                                assert(segments@[i] == before[i]);
                            } else {
                                assert(segments@[n as int].cross_start <= c < segments@[n as int].cross_end);
                            }
                        }
                        assert forall|i: int, c: int| 0 <= i < segments@.len() && segments@[i].cross_start <= c < segments@[i].cross_end
                            implies #[trigger] exposed_coord(rectangles@, edge, c) == Some(#[trigger] segments@[i].edge_coordinate as int) by {
                            if i < n {
                                assert(segments@[i] == before[i]);
                            }
                        }
                        assert forall|i: int| 0 <= i < segments@.len() - 1 implies #[trigger] segments@[i].cross_end < segments@[i
                            + 1].cross_start || segments@[i].edge_coordinate != segments@[i + 1].edge_coordinate by {
                            if i < n - 1 {
                                assert(before[i].cross_end < before[i + 1].cross_start || before[i].edge_coordinate != before[i + 1].edge_coordinate);
                            }
                        }
                    }
                },
            }
            assert forall|i: int| 0 <= i < segments@.len() implies #[trigger] segments@[i].cross_end <= bs@[k + 1] by {
                if i < before.len() && !(i == before.len() - 1 && segments@.len() == before.len() && exposed is Some) {
                    assert(before[i].cross_end <= bs@[k as int]);
                }
            }
            k += 1;
        }
        assert forall|c: int| #[trigger] exposed_coord(rectangles@, edge, c) is Some implies exists|i: int|
            0 <= i < segments@.len() && #[trigger] segments@[i].cross_start <= c < segments@[i].cross_end by {
            if bs.len() == 0 || c < bs@[0] || c >= bs@[bs.len() - 1] {
                lemma_exposed_outside(rectangles@, edge, bs@, c);
            }
        }
        assert forall|i: int, j: int| 0 <= i < j < segments@.len() implies segment_key_le(
            #[trigger] segments@[i],
            #[trigger] segments@[j],
        ) by {
            assert(segments@[i].cross_start < segments@[i].cross_end);
        }
        EdgeSegments(segments)
    }
}

/// `v` is at least as far out along `edge` as `w`.
pub open spec fn at_least_as_outer(edge: Edge, v: int, w: int) -> bool {
    match edge {
        Edge::Left | Edge::Top => v <= w,
        Edge::Right | Edge::Bottom => v >= w,
    }
}

/// The exposed coordinate at `c` is that of a rectangle spanning `c`, and
/// no rectangle spanning `c` lies further out; there is none exactly when
/// no rectangle spans `c`.
proof fn lemma_exposed_characterized(rects: Seq<Rect>, edge: Edge, c: int)
    ensures
        exposed_coord(rects, edge, c) is None <==> forall|j: int| 0 <= j < rects.len() ==> !spans(#[trigger] rects[j], edge, c),
        exposed_coord(rects, edge, c) matches Some(v) ==> {
            &&& exists|j: int| 0 <= j < rects.len() && spans(#[trigger] rects[j], edge, c) && rects[j].edge_coord(edge) == v
            &&& forall|j: int| 0 <= j < rects.len() && spans(#[trigger] rects[j], edge, c) ==> at_least_as_outer(edge, v, rects[j].edge_coord(edge))
        },
    decreases rects.len(),
{
    if rects.len() > 0 {
        let rest = rects.drop_last();
        lemma_exposed_characterized(rest, edge, c);
        let n = rects.len() - 1;
        assert forall|j: int| 0 <= j < n implies rects[j] == rest[j] by {}
        if let Some(v) = exposed_coord(rects, edge, c) {
            if spans(rects[n], edge, c) {
                if let Some(w) = exposed_coord(rest, edge, c) {
                    let k = choose|k: int| 0 <= k < rest.len() && spans(#[trigger] rest[k], edge, c) && rest[k].edge_coord(edge) == w;
                    if v == w {
                        assert(spans(rects[k], edge, c) && rects[k].edge_coord(edge) == v);
                    } else {
                        assert(spans(rects[n], edge, c) && rects[n].edge_coord(edge) == v);
                    }
                    assert forall|j: int| 0 <= j < rects.len() && spans(#[trigger] rects[j], edge, c) implies at_least_as_outer(edge, v, rects[j].edge_coord(edge)) by {
                        if j < n {
                            assert(spans(rest[j], edge, c));
                        }
                    }
                } else {
                    assert(spans(rects[n], edge, c) && rects[n].edge_coord(edge) == v);
                    assert forall|j: int| 0 <= j < rects.len() && spans(#[trigger] rects[j], edge, c) implies at_least_as_outer(edge, v, rects[j].edge_coord(edge)) by {
                        if j < n {
                            assert(!spans(rest[j], edge, c));
                        }
                    }
                }
            } else {
                let k = choose|k: int| 0 <= k < rest.len() && spans(#[trigger] rest[k], edge, c) && rest[k].edge_coord(edge) == v;
                assert(spans(rects[k], edge, c) && rects[k].edge_coord(edge) == v);
                assert forall|j: int| 0 <= j < rects.len() && spans(#[trigger] rects[j], edge, c) implies at_least_as_outer(edge, v, rects[j].edge_coord(edge)) by {
                    if j < n {
                        assert(spans(rest[j], edge, c));
                    }
                }
            }
        } else {
            assert forall|j: int| 0 <= j < rects.len() implies !spans(#[trigger] rects[j], edge, c) by {
                if j < n {
                    assert(!spans(rest[j], edge, c));
                }
            }
        }
    }
}

/// Two lists of the same rectangles expose the same coordinate at every
/// cross coordinate.
proof fn lemma_exposed_same(a: Seq<Rect>, b: Seq<Rect>, edge: Edge, c: int)
    requires
        same_rectangles(a, b),
    ensures
        exposed_coord(a, edge, c) == exposed_coord(b, edge, c),
{
    lemma_exposed_characterized(a, edge, c);
    lemma_exposed_characterized(b, edge, c);
    if let Some(va) = exposed_coord(a, edge, c) {
        let i = choose|i: int| 0 <= i < a.len() && spans(#[trigger] a[i], edge, c) && a[i].edge_coord(edge) == va;
        assert(a.contains(a[i]));
        let j = choose|j: int| 0 <= j < b.len() && b[j] == a[i];
        assert(spans(b[j], edge, c));
        let vb = exposed_coord(b, edge, c)->0;
        let k = choose|k: int| 0 <= k < b.len() && spans(#[trigger] b[k], edge, c) && b[k].edge_coord(edge) == vb;
        assert(b.contains(b[k]));
        let l = choose|l: int| 0 <= l < a.len() && a[l] == b[k];
        assert(spans(a[l], edge, c));
        assert(at_least_as_outer(edge, va, a[l].edge_coord(edge)));
        assert(at_least_as_outer(edge, vb, b[j].edge_coord(edge)));
    } else if let Some(vb) = exposed_coord(b, edge, c) {
        let k = choose|k: int| 0 <= k < b.len() && spans(#[trigger] b[k], edge, c) && b[k].edge_coord(edge) == vb;
        assert(b.contains(b[k]));
        let l = choose|l: int| 0 <= l < a.len() && a[l] == b[k];
        assert(!spans(a[l], edge, c));
    }
}

/// Segment `i` of a description of the exposed edge is a maximal run: the
/// exposed coordinate just before it and just after it is not its own.
proof fn lemma_segment_is_maximal(segs: Seq<EdgeSegment>, rects: Seq<Rect>, edge: Edge, i: int)
    requires
        describes_exposed_edge(segs, rects, edge),
        0 <= i < segs.len(),
    ensures
        exposed_coord(rects, edge, segs[i].cross_start - 1) != Some(segs[i].edge_coordinate as int),
        exposed_coord(rects, edge, segs[i].cross_end as int) != Some(segs[i].edge_coordinate as int),
{
    let before = segs[i].cross_start - 1;
    if exposed_coord(rects, edge, before) is Some {
        let k = choose|k: int| 0 <= k < segs.len() && #[trigger] segs[k].cross_start <= before < segs[k].cross_end;
        assert(nonempty_segment(segs[k]));
        assert(nonempty_segment(segs[i]));
        if k >= i {
            if k > i {
                assert(segs[i].cross_end <= segs[k].cross_start);
            }
        } else if k < i - 1 {
            assert(segs[k].cross_end <= segs[i - 1].cross_start);
            assert(nonempty_segment(segs[i - 1]));
            assert(segs[i - 1].cross_end <= segs[i].cross_start);
        } else {
            assert(segs[k].cross_end <= segs[i].cross_start);
            assert(segs[i - 1].cross_end < segs[i].cross_start || segs[i - 1].edge_coordinate != segs[i].edge_coordinate);
            assert(exposed_coord(rects, edge, before) == Some(segs[k].edge_coordinate as int));
        }
    }
    let after = segs[i].cross_end as int;
    if exposed_coord(rects, edge, after) is Some {
        let k = choose|k: int| 0 <= k < segs.len() && #[trigger] segs[k].cross_start <= after < segs[k].cross_end;
        assert(nonempty_segment(segs[k]));
        assert(nonempty_segment(segs[i]));
        if k <= i {
            if k < i {
                assert(segs[k].cross_end <= segs[i].cross_start);
            }
        } else if k > i + 1 {
            assert(segs[i].cross_end <= segs[i + 1].cross_start);
            assert(nonempty_segment(segs[i + 1]));
            assert(segs[i + 1].cross_end <= segs[k].cross_start);
        } else {
            assert(segs[i].cross_end <= segs[k].cross_start);
            assert(segs[i].cross_end < segs[i + 1].cross_start || segs[i].edge_coordinate != segs[i + 1].edge_coordinate);
            assert(exposed_coord(rects, edge, after) == Some(segs[k].edge_coordinate as int));
        }
    }
}

/// Each segment of one description of the same exposed edge is a segment
/// of any other.
proof fn lemma_segment_in_other(
    sa: Seq<EdgeSegment>,
    a: Seq<Rect>,
    sb: Seq<EdgeSegment>,
    b: Seq<Rect>,
    edge: Edge,
    i: int,
)
    requires
        describes_exposed_edge(sa, a, edge),
        describes_exposed_edge(sb, b, edge),
        forall|c: int| #[trigger] exposed_coord(a, edge, c) == exposed_coord(b, edge, c),
        0 <= i < sa.len(),
    ensures
        exists|j: int| 0 <= j < sb.len() && sb[j] == sa[i],
{
    let x = sa[i];
    let c = x.cross_start as int;
    assert(nonempty_segment(x));
    assert(exposed_coord(a, edge, c) == Some(x.edge_coordinate as int));
    assert(exposed_coord(b, edge, c) is Some);
    let j = choose|j: int| 0 <= j < sb.len() && #[trigger] sb[j].cross_start <= c < sb[j].cross_end;
    let y = sb[j];
    assert(exposed_coord(b, edge, c) == Some(y.edge_coordinate as int));
    lemma_segment_is_maximal(sa, a, edge, i);
    lemma_segment_is_maximal(sb, b, edge, j);
    assert(exposed_coord(a, edge, y.cross_start - 1) == exposed_coord(b, edge, y.cross_start - 1));
    assert(exposed_coord(a, edge, y.cross_end as int) == exposed_coord(b, edge, y.cross_end as int));
    assert(exposed_coord(b, edge, x.cross_end as int) == exposed_coord(a, edge, x.cross_end as int));
    if y.cross_start < x.cross_start {
        assert(exposed_coord(b, edge, x.cross_start - 1) == Some(y.edge_coordinate as int));
    }
    if x.cross_start < y.cross_start {
        assert(exposed_coord(a, edge, y.cross_start - 1) == Some(x.edge_coordinate as int));
    }
    if x.cross_end < y.cross_end {
        assert(exposed_coord(b, edge, x.cross_end as int) == Some(y.edge_coordinate as int));
    }
    if y.cross_end < x.cross_end {
        assert(exposed_coord(a, edge, y.cross_end as int) == Some(x.edge_coordinate as int));
    }
    assert(sb[j] == sa[i]);
}

/// The index in `s` of one of its elements.
spec fn index_of_segment(s: Seq<EdgeSegment>, x: EdgeSegment) -> int {
    choose|j: int| 0 <= j < s.len() && s[j] == x
}

/// Where the elements of one description sit in another: at an index at
/// least as large, since both are in increasing order.
proof fn lemma_index_at_least(
    sa: Seq<EdgeSegment>,
    a: Seq<Rect>,
    sb: Seq<EdgeSegment>,
    b: Seq<Rect>,
    edge: Edge,
    k: int,
)
    requires
        describes_exposed_edge(sa, a, edge),
        describes_exposed_edge(sb, b, edge),
        forall|c: int| #[trigger] exposed_coord(a, edge, c) == exposed_coord(b, edge, c),
        0 <= k < sa.len(),
    ensures
        0 <= index_of_segment(sb, sa[k]) < sb.len(),
        sb[index_of_segment(sb, sa[k])] == sa[k],
        index_of_segment(sb, sa[k]) >= k,
    decreases k,
{
    lemma_segment_in_other(sa, a, sb, b, edge, k);
    let j = index_of_segment(sb, sa[k]);
    if k > 0 {
        lemma_index_at_least(sa, a, sb, b, edge, k - 1);
        let j1 = index_of_segment(sb, sa[k - 1]);
        assert(nonempty_segment(sa[k - 1]));
        assert(sa[k - 1].cross_end <= sa[k].cross_start);
        if j <= j1 {
            if j < j1 {
                assert(sb[j].cross_end <= sb[j1].cross_start);
                assert(nonempty_segment(sb[j]));
            }
        }
    }
}

/// The exposed side of a desktop has one description: two lists of the same
/// rectangles, in any order, describe it by the same segments.
pub proof fn lemma_exposed_edge_ignores_rectangle_order(
    a: Seq<Rect>,
    b: Seq<Rect>,
    edge: Edge,
    sa: Seq<EdgeSegment>,
    sb: Seq<EdgeSegment>,
)
    requires
        same_rectangles(a, b),
        describes_exposed_edge(sa, a, edge),
        describes_exposed_edge(sb, b, edge),
    ensures
        sa == sb,
{
    assert forall|c: int| #[trigger] exposed_coord(a, edge, c) == exposed_coord(b, edge, c) by {
        lemma_exposed_same(a, b, edge, c);
    }
    assert forall|c: int| #[trigger] exposed_coord(b, edge, c) == exposed_coord(a, edge, c) by {
        lemma_exposed_same(a, b, edge, c);
    }
    assert forall|k: int| 0 <= k < sa.len() implies k < sb.len() && #[trigger] sa[k] == sb[k] by {
        lemma_index_at_least(sa, a, sb, b, edge, k);
        let j = index_of_segment(sb, sa[k]);
        lemma_index_at_least(sb, b, sa, a, edge, j);
        let l = index_of_segment(sa, sb[j]);
        if l != k {
            assert(nonempty_segment(sa[k]));
            assert(nonempty_segment(sa[l]));
            if l < k {
                assert(sa[l].cross_end <= sa[k].cross_start);
            } else {
                assert(sa[k].cross_end <= sa[l].cross_start);
            }
        }
    }
    if sb.len() > sa.len() {
        lemma_index_at_least(sb, b, sa, a, edge, sa.len() as int);
    }
    if sa.len() > 0 {
        let last = sa.len() - 1;
        assert(sa[last] == sb[last]);
    }
    assert(sa =~= sb);
}
} // verus!
