//! Moving a whole desktop, and the pointer with it, moves its edge crossings
//! along, except where the pointer crosses an edge exactly between two
//! pixels, both of which face outside, and the move takes that point to
//! the other side of zero: such a tie goes to the pixel away from zero,
//! which does not move with the desktop.
use vstd::arithmetic::div_mod::{lemma_fundamental_div_mod, lemma_fundamental_div_mod_converse};
use vstd::prelude::*;

use crate::screen::{
    axis_of, clamp_int, cross_numerator, cross_of, crossing_time, earlier, edge_crossing, endpoint_owner_pair,
    exposed_at, first_source, fits_i32, occupied, outside_cell, point_on, round_half_away, span_hi, span_lo,
    spec_crossed_exposed_edge, within_span, CrossedEdge, Edge, Rect,
};

verus! {

/// `r` moved by `o`.
pub open spec fn moved_rect(r: Rect, o: (int, int)) -> Rect {
    Rect { x: (r.x + o.0) as i32, y: (r.y + o.1) as i32, width: r.width, height: r.height }
}

/// `p` moved by `o`.
pub open spec fn moved_point(p: (i32, i32), o: (int, int)) -> (i32, i32) {
    ((p.0 + o.0) as i32, (p.1 + o.1) as i32)
}

/// Every rectangle of `rects` moved by `o`.
pub open spec fn moved_rects(rects: Seq<Rect>, o: (int, int)) -> Seq<Rect> {
    Seq::new(rects.len(), |i: int| moved_rect(rects[i], o))
}

/// A crossing moved by `o`.
pub open spec fn moved_crossing(c: Option<CrossedEdge>, o: (int, int)) -> Option<CrossedEdge> {
    match c {
        Some(x) => Some(CrossedEdge { edge: x.edge, point: moved_point(x.point, o) }),
        None => None,
    }
}

/// `r` and its far corner lie within `i32`, before and after moving by `o`.
pub open spec fn rect_moves_cleanly(r: Rect, o: (int, int)) -> bool {
    &&& fits_i32(r.x + o.0)
    &&& fits_i32(r.y + o.1)
    &&& r.x + r.width <= i32::MAX
    &&& r.y + r.height <= i32::MAX
    &&& r.x + o.0 + r.width <= i32::MAX
    &&& r.y + o.1 + r.height <= i32::MAX
}

/// `p` lies within `i32` after moving by `o`.
pub open spec fn point_moves_cleanly(p: (i32, i32), o: (int, int)) -> bool {
    fits_i32(p.0 + o.0) && fits_i32(p.1 + o.1)
}

/// `n / d` lies exactly on the border between two pixels.
pub open spec fn is_border(n: int, d: int) -> bool {
    (2 * n) % d == 0 && ((2 * n) / d) % 2 == 1
}

/// The pixel below the border point `n / d`; the other pixel beside it is
/// the next one.
pub open spec fn below_border(n: int, d: int) -> int {
    ((2 * n) / d) / 2
}

/// A pixel beside the border point `n / d`, before or after moving it by
/// `k` pixels, lies outside `i32`.
pub open spec fn tie_leaves_i32(n: int, d: int, k: int) -> bool {
    let below = below_border(n, d);
    ||| !fits_i32(below) || !fits_i32(below + 1)
    ||| !fits_i32(below + k) || !fits_i32(below + k + 1)
}

/// Both pixels beside the border point `n / d` on `edge` of `s`, held to
/// the edge's extent, are distinct and face outside the desktop `rects`:
/// the tie decides between two candidates.
pub open spec fn tie_between_exposed(rects: Seq<Rect>, s: Rect, e: Edge, n: int, d: int) -> bool {
    let below = below_border(n, d);
    let lo = span_lo(s, e);
    let hi = span_hi(s, e);
    let a = clamp_int(below, lo, hi);
    let b = clamp_int(below + 1, lo, hi);
    &&& a != b
    &&& exposed_at(rects, e, s.edge_coord(e), a)
    &&& exposed_at(rects, e, s.edge_coord(e), b)
}

/// The crossing of `edge` of `s` reaches it within its extent exactly on
/// the border between two pixels, and moving by `k` along the edge breaks
/// that tie the other way: the border point goes to the other side of zero
/// while both pixels beside it face outside, or a pixel beside it leaves
/// `i32`.
pub open spec fn tie_breaks_differently(rects: Seq<Rect>, s: Rect, e: Edge, n: int, d: int, k: int) -> bool {
    &&& is_border(n, d)
    &&& within_span(s, e, n, d)
    &&& {
        ||| tie_leaves_i32(n, d, k)
        ||| (n > 0) != (n + k * d > 0) && tie_between_exposed(rects, s, e, n, d)
    }
}

/// The movement from `previous` to `current` reaches an edge of its source
/// display exactly on the border between two pixels, where moving by `o`
/// breaks the tie the other way (`tie_breaks_differently`).
pub open spec fn tie_moves_apart(previous: (i32, i32), current: (i32, i32), rects: Seq<Rect>, o: (int, int)) -> bool {
    match first_source(rects, previous) {
        None => false,
        Some(s) => exists|e: Edge|
            #![trigger crossing_time(s, e, previous, current)]
            match crossing_time(s, e, previous, current) {
                Some(t) => tie_breaks_differently(
                    rects,
                    s,
                    e,
                    cross_numerator(e, previous, current, t),
                    t.1,
                    cross_offset(e, o),
                ),
                None => false,
            },
    }
}

/// The offset of `o` along the axis perpendicular to `edge`.
pub open spec fn axis_offset(edge: Edge, o: (int, int)) -> int {
    match edge {
        Edge::Left | Edge::Right => o.0,
        Edge::Top | Edge::Bottom => o.1,
    }
}

/// The offset of `o` along the axis parallel to `edge`.
pub open spec fn cross_offset(edge: Edge, o: (int, int)) -> int {
    match edge {
        Edge::Left | Edge::Right => o.1,
        Edge::Top | Edge::Bottom => o.0,
    }
}

proof fn lemma_covers_moved(r: Rect, o: (int, int), x: int, y: int)
    requires
        r.valid(),
        rect_moves_cleanly(r, o),
    ensures
        moved_rect(r, o).covers(x + o.0, y + o.1) == r.covers(x, y),
        moved_rect(r, o).valid(),
{
}

proof fn lemma_occupied_moved(rects: Seq<Rect>, o: (int, int), x: int, y: int)
    requires
        forall|i: int| 0 <= i < rects.len() ==> rect_moves_cleanly(#[trigger] rects[i], o),
    ensures
        occupied(moved_rects(rects, o), x + o.0, y + o.1) == occupied(rects, x, y),
{
    let m = moved_rects(rects, o);
    if occupied(rects, x, y) {
        let i = choose|i: int| 0 <= i < rects.len() && #[trigger] rects[i].valid() && rects[i].covers(x, y);
        lemma_covers_moved(rects[i], o, x, y);
        assert(m[i].valid() && m[i].covers(x + o.0, y + o.1));
    }
    if occupied(m, x + o.0, y + o.1) {
        let i = choose|i: int| 0 <= i < m.len() && #[trigger] m[i].valid() && m[i].covers(x + o.0, y + o.1);
        lemma_covers_moved(rects[i], o, x, y);
        assert(rects[i].valid() && rects[i].covers(x, y));
    }
}

proof fn lemma_first_source_moved(rects: Seq<Rect>, o: (int, int), p: (i32, i32))
    requires
        forall|i: int| 0 <= i < rects.len() ==> rect_moves_cleanly(#[trigger] rects[i], o),
        point_moves_cleanly(p, o),
    ensures
        first_source(moved_rects(rects, o), moved_point(p, o)) == match first_source(rects, p) {
            Some(s) => Some(moved_rect(s, o)),
            None => None,
        },
    decreases rects.len(),
{
    if rects.len() > 0 {
        let m = moved_rects(rects, o);
        let q = moved_point(p, o);
        if rects[0].valid() {
            lemma_covers_moved(rects[0], o, p.0 as int, p.1 as int);
        }
        assert(m.drop_first() =~= moved_rects(rects.drop_first(), o));
        lemma_first_source_moved(rects.drop_first(), o, p);
    }
}

/// `v` moved by `k`, where `n / d` lies off the pixel borders.
proof fn lemma_round_moved(n: int, d: int, k: int)
    requires
        d > 0,
        !is_border(n, d),
    ensures
        round_half_away(n + k * d, d) == round_half_away(n, d) + k,
        !is_border(n + k * d, d),
        endpoint_owner_pair(n, d) is None,
        endpoint_owner_pair(n + k * d, d) is None,
{
    lemma_fundamental_div_mod(n, d);
    let f = n / d;
    let r = n % d;
    assert(n + k * d == (f + k) * d + r) by (nonlinear_arith)
        requires
            n == d * f + r,
    ;
    lemma_fundamental_div_mod_converse(n + k * d, d, f + k, r);
    lemma_fundamental_div_mod(2 * n, d);
    let g = (2 * n) / d;
    let s = (2 * n) % d;
    assert(2 * (n + k * d) == (g + 2 * k) * d + s) by (nonlinear_arith)
        requires
            2 * n == d * g + s,
    ;
    lemma_fundamental_div_mod_converse(2 * (n + k * d), d, g + 2 * k, s);
    if 2 * r == d {
        assert(2 * n == (2 * f + 1) * d) by (nonlinear_arith)
            requires
                n == d * f + r,
                2 * r == d,
        ;
        lemma_fundamental_div_mod_converse(2 * n, d, 2 * f + 1, 0);
    }
}

/// A border point moved by `k` pixels, with the pixels beside it within
/// `i32`: it stays on a border, its rounding fits `i32`, and its owning
/// pixels are the two beside it, the one farther from zero first.
proof fn lemma_tie_moved(n: int, d: int, k: int)
    requires
        d > 0,
        is_border(n, d),
        !tie_leaves_i32(n, d, k),
    ensures
        is_border(n + k * d, d),
        fits_i32(round_half_away(n, d)),
        fits_i32(round_half_away(n + k * d, d)),
        endpoint_owner_pair(n, d) == Some(
            if n > 0 {
                (below_border(n, d) + 1, below_border(n, d))
            } else {
                (below_border(n, d), below_border(n, d) + 1)
            },
        ),
        endpoint_owner_pair(n + k * d, d) == Some(
            if n + k * d > 0 {
                (below_border(n, d) + k + 1, below_border(n, d) + k)
            } else {
                (below_border(n, d) + k, below_border(n, d) + k + 1)
            },
        ),
{
    let g = (2 * n) / d;
    let q = g / 2;
    lemma_fundamental_div_mod(2 * n, d);
    lemma_fundamental_div_mod(g, 2);
    assert(g == 2 * q + 1);
    assert(2 * n == d * g);
    assert(2 * (n + k * d) == (g + 2 * k) * d + 0) by (nonlinear_arith)
        requires
            2 * n == d * g,
    ;
    lemma_fundamental_div_mod_converse(2 * (n + k * d), d, g + 2 * k, 0);
    assert(g + 2 * k == 2 * (q + k) + 1);
    lemma_fundamental_div_mod_converse(g + 2 * k, 2, q + k, 1);
    // n = d * q + d / 2, so n / d == q with remainder d / 2
    assert(d == 2 * (n - d * q)) by (nonlinear_arith)
        requires
            2 * n == d * g,
            g == 2 * q + 1,
    ;
    lemma_fundamental_div_mod_converse(d, 2, n - d * q, 0);
    assert(n == d * q + d / 2);
    lemma_fundamental_div_mod_converse(n, d, q, d / 2);
    assert(n + k * d == d * (q + k) + d / 2) by (nonlinear_arith)
        requires
            n == d * q + d / 2,
    ;
    lemma_fundamental_div_mod_converse(n + k * d, d, q + k, d / 2);
    assert(g > 0 <==> n > 0) by (nonlinear_arith)
        requires
            2 * n == d * g,
            d > 0,
    ;
    assert(g + 2 * k > 0 <==> n + k * d > 0) by (nonlinear_arith)
        requires
            2 * (n + k * d) == (g + 2 * k) * d,
            d > 0,
    ;
}

/// Off the pixel borders, the crossing point rounds to a pixel of the span.
proof fn lemma_round_within_span(n: int, d: int, lo: int, hi: int)
    requires
        d > 0,
        !is_border(n, d),
        !(2 * n < (2 * lo - 1) * d || 2 * n > (2 * hi + 1) * d),
    ensures
        lo <= round_half_away(n, d) <= hi,
{
    lemma_fundamental_div_mod(n, d);
    let f = n / d;
    let r = n % d;
    if 2 * r == d {
        assert(2 * n == (2 * f + 1) * d) by (nonlinear_arith)
            requires
                n == d * f + r,
                2 * r == d,
        ;
        lemma_fundamental_div_mod_converse(2 * n, d, 2 * f + 1, 0);
    }
    if 2 * r < d {
        assert(lo <= f <= hi) by (nonlinear_arith)
            requires
                n == d * f + r,
                0 <= r,
                2 * r < d,
                d > 0,
                2 * n >= (2 * lo - 1) * d,
                2 * n <= (2 * hi + 1) * d,
        ;
    } else {
        assert(lo <= f + 1 <= hi) by (nonlinear_arith)
            requires
                n == d * f + r,
                r < d,
                2 * r > d,
                d > 0,
                2 * n >= (2 * lo - 1) * d,
                2 * n <= (2 * hi + 1) * d,
        ;
    }
}

proof fn lemma_within_span_moved(n: int, d: int, lo: int, hi: int, k: int)
    requires
        d > 0,
    ensures
        !(2 * (n + k * d) < (2 * (lo + k) - 1) * d || 2 * (n + k * d) > (2 * (hi + k) + 1) * d) == !(2 * n < (2
            * lo - 1) * d || 2 * n > (2 * hi + 1) * d),
{
    assert((2 * (lo + k) - 1) * d == (2 * lo - 1) * d + 2 * k * d) by (nonlinear_arith);
    assert((2 * (hi + k) + 1) * d == (2 * hi + 1) * d + 2 * k * d) by (nonlinear_arith);
    assert(2 * (n + k * d) == 2 * n + 2 * k * d) by (nonlinear_arith);
}

/// The pixel at `c` beside the edge at `edge_c`, moved with the desktop:
/// exposed exactly when it was, and at the moved point.
proof fn lemma_pixel_moved(rects: Seq<Rect>, o: (int, int), e: Edge, edge_c: int, c: int)
    requires
        forall|i: int| 0 <= i < rects.len() ==> rect_moves_cleanly(#[trigger] rects[i], o),
        fits_i32(edge_c),
        fits_i32(c),
        fits_i32(edge_c + axis_offset(e, o)),
        fits_i32(c + cross_offset(e, o)),
    ensures
        exposed_at(moved_rects(rects, o), e, edge_c + axis_offset(e, o), c + cross_offset(e, o)) == exposed_at(
            rects,
            e,
            edge_c,
            c,
        ),
        point_on(e, edge_c + axis_offset(e, o), c + cross_offset(e, o)) == moved_point(point_on(e, edge_c, c), o),
{
    let cell = outside_cell(e, edge_c, c);
    assert(outside_cell(e, edge_c + axis_offset(e, o), c + cross_offset(e, o)) == (cell.0 + o.0, cell.1 + o.1));
    lemma_occupied_moved(rects, o, cell.0, cell.1);
}

/// An edge crossing of a moved desktop is the crossing of the desktop, moved.
proof fn lemma_edge_crossing_moved(
    previous: (i32, i32),
    current: (i32, i32),
    rects: Seq<Rect>,
    s: Rect,
    e: Edge,
    o: (int, int),
)
    requires
        forall|i: int| 0 <= i < rects.len() ==> rect_moves_cleanly(#[trigger] rects[i], o),
        rect_moves_cleanly(s, o),
        s.valid(),
        point_moves_cleanly(previous, o),
        point_moves_cleanly(current, o),
        crossing_time(s, e, previous, current) matches Some(t) ==> !tie_breaks_differently(
            rects,
            s,
            e,
            cross_numerator(e, previous, current, t),
            t.1,
            cross_offset(e, o),
        ),
    ensures
        edge_crossing(moved_point(previous, o), moved_point(current, o), moved_rects(rects, o), moved_rect(s, o), e)
            == match edge_crossing(previous, current, rects, s, e) {
            Some(c) => Some((c.0, c.1, CrossedEdge { edge: c.2.edge, point: moved_point(c.2.point, o) })),
            None => None,
        },
{
    let mp = moved_point(previous, o);
    let mc = moved_point(current, o);
    let ms = moved_rect(s, o);
    let mr = moved_rects(rects, o);
    let ka = axis_offset(e, o);
    let kc = cross_offset(e, o);
    assert(axis_of(e, mp) == axis_of(e, previous) + ka);
    assert(axis_of(e, mc) == axis_of(e, current) + ka);
    assert(cross_of(e, mp) == cross_of(e, previous) + kc);
    assert(cross_of(e, mc) == cross_of(e, current) + kc);
    assert(ms.edge_coord(e) == s.edge_coord(e) + ka);
    assert(span_lo(ms, e) == span_lo(s, e) + kc);
    assert(span_hi(ms, e) == span_hi(s, e) + kc);
    assert(crossing_time(ms, e, mp, mc) == crossing_time(s, e, previous, current));
    if let Some(t) = crossing_time(s, e, previous, current) {
        let n = cross_numerator(e, previous, current, t);
        let d = t.1;
        let mn = cross_numerator(e, mp, mc, t);
        assert(mn == n + kc * d) by (nonlinear_arith)
            requires
                mn == (cross_of(e, previous) + kc) * d + t.0 * ((cross_of(e, current) + kc) - (cross_of(e, previous)
                    + kc)),
                n == cross_of(e, previous) * d + t.0 * (cross_of(e, current) - cross_of(e, previous)),
        ;
        let lo = span_lo(s, e);
        let hi = span_hi(s, e);
        lemma_within_span_moved(n, d, lo, hi, kc);
        assert(within_span(ms, e, mn, d) == within_span(s, e, n, d));
        if within_span(s, e, n, d) {
            let edge_c = s.edge_coord(e);
            if is_border(n, d) {
                lemma_tie_moved(n, d, kc);
                let q = below_border(n, d);
                let a = clamp_int(q, lo, hi);
                let b = clamp_int(q + 1, lo, hi);
                assert(clamp_int(q + kc, lo + kc, hi + kc) == a + kc);
                assert(clamp_int(q + kc + 1, lo + kc, hi + kc) == b + kc);
                lemma_pixel_moved(rects, o, e, edge_c, a);
                lemma_pixel_moved(rects, o, e, edge_c, b);
                assert(mn == n + kc * d);
            } else {
                lemma_round_moved(n, d, kc);
                lemma_round_within_span(n, d, lo, hi);
                let rounded = round_half_away(n, d);
                let c0 = clamp_int(rounded, lo, hi);
                assert(clamp_int(rounded + kc, lo + kc, hi + kc) == c0 + kc);
                lemma_pixel_moved(rects, o, e, edge_c, c0);
            }
        }
    }
}

/// Moving the desktop and the pointer's movement by the same offset moves
/// the crossing by that offset, as long as everything stays within `i32`
/// and the move does not break a tie between two pixels the other way
/// (`tie_moves_apart`).
#[verifier::rlimit(50)]
pub proof fn lemma_crossing_moves_with_the_desktop(
    previous: (i32, i32),
    current: (i32, i32),
    rects: Seq<Rect>,
    o: (int, int),
)
    requires
        forall|i: int| 0 <= i < rects.len() ==> rect_moves_cleanly(#[trigger] rects[i], o),
        point_moves_cleanly(previous, o),
        point_moves_cleanly(current, o),
        !tie_moves_apart(previous, current, rects, o),
    ensures
        spec_crossed_exposed_edge(moved_point(previous, o), moved_point(current, o), moved_rects(rects, o))
            == moved_crossing(spec_crossed_exposed_edge(previous, current, rects), o),
{
    lemma_first_source_moved(rects, o, previous);
    if let Some(s) = first_source(rects, previous) {
        crate::screen::lemma_first_source(rects, previous);
        let i = choose|i: int| 0 <= i < rects.len() && rects[i] == s;
        assert(rect_moves_cleanly(rects[i], o));
        assert forall|e: Edge| #![trigger crossing_time(s, e, previous, current)]
            (crossing_time(s, e, previous, current) matches Some(t) ==> !tie_breaks_differently(
                rects,
                s,
                e,
                cross_numerator(e, previous, current, t),
                t.1,
                cross_offset(e, o),
            )) by {}
        lemma_edge_crossing_moved(previous, current, rects, s, Edge::Left, o);
        lemma_edge_crossing_moved(previous, current, rects, s, Edge::Right, o);
        lemma_edge_crossing_moved(previous, current, rects, s, Edge::Top, o);
        lemma_edge_crossing_moved(previous, current, rects, s, Edge::Bottom, o);
    }
}

} // verus!
