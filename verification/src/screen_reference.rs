//! What an edge crossing means, pixel by pixel: among the pixels of the
//! source display whose side faces outside the desktop, the side that the
//! pointer's straight movement reaches first, on the earliest edge (left,
//! right, top, bottom) at equal times, and at a border between two pixels
//! the one that the crossing point rounds to.
use vstd::arithmetic::div_mod::{lemma_fundamental_div_mod, lemma_fundamental_div_mod_converse};
use vstd::prelude::*;

use crate::screen::{
    clamp_int, cross_numerator, crossing_time, earlier, edge_crossing, lemma_first_source, source_in_range,
    spec_crossed_exposed_edge, endpoint_owner_pair, exposed_at, first_source,
    fits_i32, occupied, outside_cell, outward, point_on, round_half_away, span_hi, span_lo, within_span,
    CrossedEdge, Edge, Rect, axis_of, cross_of, saturate,
};

verus! {

/// The pixel `a` across and `c` along the edge `e`.
pub open spec fn pixel_at(e: Edge, a: int, c: int) -> (int, int) {
    match e {
        Edge::Left | Edge::Right => (a, c),
        Edge::Top | Edge::Bottom => (c, a),
    }
}

/// When the movement from `previous` to `current` reaches the `e` side of a
/// pixel `a` across `e`, as a fraction `num / den` with `0 < num <= den`, in
/// half pixels; `None` when it does not.
pub open spec fn side_time(e: Edge, a: int, previous: (i32, i32), current: (i32, i32)) -> Option<(int, int)> {
    let delta = axis_of(e, current) - axis_of(e, previous);
    if delta == 0 {
        None
    } else {
        let num0 = 2 * a + outward(e) - 2 * axis_of(e, previous);
        let den0 = 2 * delta;
        let num = if den0 < 0 { -num0 } else { num0 };
        let den = if den0 < 0 { -den0 } else { den0 };
        if 0 < num && num <= den {
            Some((num, den))
        } else {
            None
        }
    }
}

/// The point `n / d` lies on the extent of pixel `c` along the edge, its
/// two ends included.
pub open spec fn on_extent(c: int, n: int, d: int) -> bool {
    (2 * c - 1) * d <= 2 * n <= (2 * c + 1) * d
}

/// The pixel `a` across and `c` along edge `e` of the source `s` is a
/// candidate: it lies in `s`, its neighbour across `e` is in no display, the
/// movement reaches its `e` side on that side's extent, and the crossing
/// point rounds to a coordinate within `i32`.
pub open spec fn is_candidate(
    previous: (i32, i32),
    current: (i32, i32),
    rects: Seq<Rect>,
    s: Rect,
    e: Edge,
    a: int,
    c: int,
) -> bool {
    &&& s.covers(pixel_at(e, a, c).0, pixel_at(e, a, c).1)
    &&& !occupied(rects, outside_cell(e, a, c).0, outside_cell(e, a, c).1)
    &&& match side_time(e, a, previous, current) {
        Some(t) => {
            &&& on_extent(c, cross_numerator(e, previous, current, t), t.1)
            &&& fits_i32(round_half_away(cross_numerator(e, previous, current, t), t.1))
        },
        None => false,
    }
}

pub open spec fn edge_order(e: Edge) -> int {
    match e {
        Edge::Left => 0,
        Edge::Right => 1,
        Edge::Top => 2,
        Edge::Bottom => 3,
    }
}

/// How a candidate ranks: its time (numerator, denominator), its edge, and
/// 0 when it is the pixel that the crossing point rounds to, else 1.
pub open spec fn candidate_key(previous: (i32, i32), current: (i32, i32), e: Edge, a: int, c: int) -> (int, int, int, int) {
    match side_time(e, a, previous, current) {
        Some(t) => (
            t.0,
            t.1,
            edge_order(e),
            if c == round_half_away(cross_numerator(e, previous, current, t), t.1) {
                0
            } else {
                1
            },
        ),
        None => (0, 1, 0, 0),
    }
}

/// `k` ranks strictly before `l`: an earlier time, else an earlier edge,
/// else the rounded pixel.
pub open spec fn key_less(k: (int, int, int, int), l: (int, int, int, int)) -> bool {
    ||| k.0 * l.1 < l.0 * k.1
    ||| k.0 * l.1 == l.0 * k.1 && (k.2 < l.2 || (k.2 == l.2 && k.3 < l.3))
}

/// A candidate that no candidate ranks before.
pub open spec fn is_first_candidate(
    previous: (i32, i32),
    current: (i32, i32),
    rects: Seq<Rect>,
    s: Rect,
    e: Edge,
    a: int,
    c: int,
) -> bool {
    &&& is_candidate(previous, current, rects, s, e, a, c)
    &&& forall|e2: Edge, a2: int, c2: int|
        #[trigger] is_candidate(previous, current, rects, s, e2, a2, c2) ==> !key_less(
            candidate_key(previous, current, e2, a2, c2),
            candidate_key(previous, current, e, a, c),
        )
}

/// The crossing by its meaning: the first candidate pixel of the first
/// display that holds `previous`, if there is a candidate.
pub open spec fn reference_crossed_edge(previous: (i32, i32), current: (i32, i32), rects: Seq<Rect>) -> Option<
    CrossedEdge,
> {
    match first_source(rects, previous) {
        None => None,
        Some(s) => if exists|e: Edge, a: int, c: int| is_first_candidate(previous, current, rects, s, e, a, c) {
            let (e, a, c) = choose|e: Edge, a: int, c: int| is_first_candidate(previous, current, rects, s, e, a, c);
            Some(CrossedEdge { edge: e, point: (pixel_at(e, a, c).0 as i32, pixel_at(e, a, c).1 as i32) })
        } else {
            None
        },
    }
}

/// The source lies within `i32`, far corner included.
pub open spec fn rect_in_range(s: Rect) -> bool {
    s.x + s.width <= i32::MAX && s.y + s.height <= i32::MAX
}

/// A candidate pixel lies in the outermost row or column of the source on
/// its edge, within the edge's extent, and its side is reached when the
/// source's edge is.
proof fn lemma_candidate_on_edge(
    previous: (i32, i32),
    current: (i32, i32),
    rects: Seq<Rect>,
    s: Rect,
    e: Edge,
    a: int,
    c: int,
)
    requires
        s.valid(),
        rects.contains(s),
        rect_in_range(s),
        is_candidate(previous, current, rects, s, e, a, c),
    ensures
        a == s.edge_coord(e),
        span_lo(s, e) <= c <= span_hi(s, e),
        side_time(e, a, previous, current) == crossing_time(s, e, previous, current),
{
    let i = choose|i: int| 0 <= i < rects.len() && rects[i] == s;
    let cell = outside_cell(e, a, c);
    if s.covers(cell.0, cell.1) {
        assert(rects[i].valid() && rects[i].covers(cell.0, cell.1));
        assert(occupied(rects, cell.0, cell.1));
    }
}

/// The pixels whose extent holds `n / d`: the pixel below it when it lies
/// at most half a pixel above that pixel's middle, the one above when at
/// least half; on a border both, and the rounding picks the one away from
/// zero, as the owning pair lists first.
proof fn lemma_extent(n: int, d: int)
    requires
        d > 0,
    ensures
        forall|c: int|
            #[trigger] on_extent(c, n, d) <==> (c == n / d && 2 * (n % d) <= d) || (c == n / d + 1 && 2 * (n % d)
                >= d),
        2 * (n % d) != d ==> endpoint_owner_pair(n, d) is None,
        2 * (n % d) == d ==> endpoint_owner_pair(n, d) == if fits_i32(n / d) && fits_i32(n / d + 1) {
            Some(
                if n > 0 {
                    (n / d + 1, n / d)
                } else {
                    (n / d, n / d + 1)
                },
            )
        } else {
            None
        },
        2 * (n % d) == d ==> (n > 0 <==> n / d >= 0),
{
    lemma_fundamental_div_mod(n, d);
    let f = n / d;
    let r = n % d;
    assert(0 <= r < d);
    assert forall|c: int|
        #[trigger] on_extent(c, n, d) <==> (c == f && 2 * r <= d) || (c == f + 1 && 2 * r >= d) by {
        if c <= f - 1 {
            assert((2 * c + 1) * d < 2 * n) by (nonlinear_arith)
                requires
                    c <= f - 1,
                    n == d * f + r,
                    0 <= r,
                    d > 0,
            ;
        } else if c >= f + 2 {
            assert((2 * c - 1) * d > 2 * n) by (nonlinear_arith)
                requires
                    c >= f + 2,
                    n == d * f + r,
                    r < d,
                    d > 0,
            ;
        } else if c == f {
            assert((2 * c - 1) * d == 2 * (d * f) - d && (2 * c + 1) * d == 2 * (d * f) + d) by (nonlinear_arith)
                requires
                    c == f,
            ;
        } else {
            assert((2 * c - 1) * d == 2 * (d * f) + d && (2 * c + 1) * d == 2 * (d * f) + 3 * d) by (nonlinear_arith)
                requires
                    c == f + 1,
            ;
        }
    }
    if 2 * r == d {
        assert(2 * n == (2 * f + 1) * d) by (nonlinear_arith)
            requires
                n == d * f + r,
                2 * r == d,
        ;
        lemma_fundamental_div_mod_converse(2 * n, d, 2 * f + 1, 0);
        lemma_fundamental_div_mod_converse(2 * f + 1, 2, f, 1);
        assert(n > 0 <==> f >= 0) by (nonlinear_arith)
            requires
                n == d * f + r,
                2 * r == d,
                d > 0,
        ;
    } else {
        lemma_fundamental_div_mod(2 * n, d);
        let g = (2 * n) / d;
        let m = (2 * n) % d;
        if m == 0 {
            // 2 * n == d * g and 2 * n == 2 * d * f + 2 * r: so 2 * r == d * (g - 2 * f)
            assert(2 * r == d * (g - 2 * f)) by (nonlinear_arith)
                requires
                    2 * n == d * g + m,
                    m == 0,
                    n == d * f + r,
            ;
            if g - 2 * f != 0 {
                assert(g - 2 * f == 1 || g - 2 * f >= 2 || g - 2 * f <= -1);
                assert(false) by (nonlinear_arith)
                    requires
                        2 * r == d * (g - 2 * f),
                        g - 2 * f != 0,
                        2 * r != d,
                        0 <= r < d,
                        d > 0,
                ;
            }
            assert(g == 2 * f);
            lemma_fundamental_div_mod_converse(g, 2, f, 0);
        }
    }
}

/// A point on the extent of a pixel between `lo` and `hi` lies within the
/// span `lo - 1/2 ..= hi + 1/2`.
proof fn lemma_extent_in_span(c: int, n: int, d: int, lo: int, hi: int)
    requires
        d > 0,
        lo <= c <= hi,
        on_extent(c, n, d),
    ensures
        !(2 * n < (2 * lo - 1) * d || 2 * n > (2 * hi + 1) * d),
{
    assert((2 * lo - 1) * d <= (2 * c - 1) * d) by (nonlinear_arith)
        requires
            lo <= c,
            d > 0,
    ;
    assert((2 * c + 1) * d <= (2 * hi + 1) * d) by (nonlinear_arith)
        requires
            c <= hi,
            d > 0,
    ;
}

/// A pixel whose extent holds a point within the span, held to the span,
/// still holds it.
proof fn lemma_clamp_on_extent(o: int, n: int, d: int, lo: int, hi: int)
    requires
        d > 0,
        lo <= hi,
        on_extent(o, n, d),
        !(2 * n < (2 * lo - 1) * d || 2 * n > (2 * hi + 1) * d),
    ensures
        on_extent(clamp_int(o, lo, hi), n, d),
{
    if o < lo {
        assert((2 * o + 1) * d <= (2 * lo - 1) * d) by (nonlinear_arith)
            requires
                o <= lo - 1,
                d > 0,
        ;
        assert((2 * lo - 1) * d <= (2 * lo + 1) * d) by (nonlinear_arith)
            requires
                d > 0,
        ;
    } else if o > hi {
        assert((2 * hi + 1) * d <= (2 * o - 1) * d) by (nonlinear_arith)
            requires
                o >= hi + 1,
                d > 0,
        ;
        assert((2 * hi - 1) * d <= (2 * hi + 1) * d) by (nonlinear_arith)
            requires
                d > 0,
        ;
    }
}

/// The crossing of one edge of the source is its first candidate pixel on
/// that edge (returned as `c`); an edge without a crossing has none.
proof fn lemma_edge_first_candidate(
    previous: (i32, i32),
    current: (i32, i32),
    rects: Seq<Rect>,
    s: Rect,
    e: Edge,
) -> (c: int)
    requires
        s.valid(),
        rects.contains(s),
        rect_in_range(s),
    ensures
        edge_crossing(previous, current, rects, s, e) is None ==> forall|a: int, c2: int|
            !#[trigger] is_candidate(previous, current, rects, s, e, a, c2),
        edge_crossing(previous, current, rects, s, e) matches Some(x) ==> {
            &&& crossing_time(s, e, previous, current) == Some((x.0, x.1))
            &&& x.2.edge == e
            &&& is_candidate(previous, current, rects, s, e, s.edge_coord(e), c)
            &&& x.2.point == point_on(e, s.edge_coord(e), c)
            &&& forall|a2: int, c2: int|
                #[trigger] is_candidate(previous, current, rects, s, e, a2, c2) ==> a2 == s.edge_coord(e) && (c2 == c
                    || candidate_key(previous, current, e, a2, c2).3 > candidate_key(
                    previous,
                    current,
                    e,
                    s.edge_coord(e),
                    c,
                ).3)
        },
{
    let edge_c = s.edge_coord(e);
    let lo = span_lo(s, e);
    let hi = span_hi(s, e);
    assert forall|a: int, c2: int| #[trigger] is_candidate(previous, current, rects, s, e, a, c2) implies a == edge_c
        && lo <= c2 <= hi && side_time(e, a, previous, current) == crossing_time(s, e, previous, current) by {
        lemma_candidate_on_edge(previous, current, rects, s, e, a, c2);
    }
    assert(side_time(e, edge_c, previous, current) == crossing_time(s, e, previous, current));
    match crossing_time(s, e, previous, current) {
        None => 0,
        Some(t) => {
            let n = cross_numerator(e, previous, current, t);
            let d = t.1;
            lemma_extent(n, d);
            if !within_span(s, e, n, d) {
                assert forall|a: int, c2: int| !#[trigger] is_candidate(previous, current, rects, s, e, a, c2) by {
                    if is_candidate(previous, current, rects, s, e, a, c2) {
                        lemma_extent_in_span(c2, n, d, lo, hi);
                    }
                }
                return 0;
            }
            let rounded = round_half_away(n, d);
            if !fits_i32(rounded) {
                return 0;
            }
            let owners = match endpoint_owner_pair(n, d) {
                Some(p) => p,
                None => (rounded, rounded),
            };
            let f = n / d;
            let r = n % d;
            assert(owners.0 == rounded);
            assert(on_extent(owners.0, n, d));
            assert(on_extent(owners.1, n, d));
            let c0 = clamp_int(owners.0, lo, hi);
            let c1 = clamp_int(owners.1, lo, hi);
            lemma_clamp_on_extent(owners.0, n, d, lo, hi);
            lemma_clamp_on_extent(owners.1, n, d, lo, hi);
            // every pixel of the span whose extent holds the point is c0 or c1
            assert forall|c2: int| lo <= c2 <= hi && #[trigger] on_extent(c2, n, d) implies c2 == c0 || c2 == c1 by {
                if 2 * r == d && !(fits_i32(f) && fits_i32(f + 1)) {
                    assert(c2 == rounded);
                }
            }
            if exposed_at(rects, e, edge_c, c0) {
                c0
            } else if exposed_at(rects, e, edge_c, c1) {
                c1
            } else {
                0
            }
        },
    }
}

/// The earliest of `es`, the first listed on equal times.
pub open spec fn earliest(es: Seq<Option<(int, int, CrossedEdge)>>) -> Option<(int, int, CrossedEdge)>
    decreases es.len(),
{
    if es.len() == 0 {
        None
    } else {
        earlier(earliest(es.drop_last()), es.last())
    }
}

/// `y`, listed at `k`, comes no later than `x`, listed at `j`: an earlier
/// time, or the same time and listed no later.
pub open spec fn comes_first(y: (int, int, CrossedEdge), k: int, x: Option<(int, int, CrossedEdge)>, j: int) -> bool {
    match x {
        None => true,
        Some(x) => y.0 * x.1 < x.0 * y.1 || (y.0 * x.1 == x.0 * y.1 && k <= j),
    }
}

proof fn lemma_time_order(a: int, b: int, c: int, d: int, e: int, f: int)
    requires
        b > 0,
        d > 0,
        f > 0,
    ensures
        a * d < c * b && c * f <= e * d ==> a * f < e * b,
        a * d <= c * b && c * f < e * d ==> a * f < e * b,
        a * d == c * b && c * f == e * d ==> a * f == e * b,
{
    if a * d < c * b && c * f <= e * d {
        assert(a * f < e * b) by (nonlinear_arith)
            requires
                a * d < c * b,
                c * f <= e * d,
                b > 0,
                d > 0,
                f > 0,
        ;
    }
    if a * d <= c * b && c * f < e * d {
        assert(a * f < e * b) by (nonlinear_arith)
            requires
                a * d <= c * b,
                c * f < e * d,
                b > 0,
                d > 0,
                f > 0,
        ;
    }
    if a * d == c * b && c * f == e * d {
        assert(a * f == e * b) by (nonlinear_arith)
            requires
                a * d == c * b,
                c * f == e * d,
                b > 0,
                d > 0,
                f > 0,
        ;
    }
}

/// The earliest of `es` is one of them (listed at `k`), and it comes first
/// among all of them; there is none only when none of them is.
proof fn lemma_earliest(es: Seq<Option<(int, int, CrossedEdge)>>) -> (k: int)
    requires
        forall|j: int| 0 <= j < es.len() ==> (#[trigger] es[j] matches Some(x) ==> x.1 > 0),
    ensures
        earliest(es) is None <==> forall|j: int| 0 <= j < es.len() ==> #[trigger] es[j] is None,
        earliest(es) matches Some(y) ==> {
            &&& 0 <= k < es.len()
            &&& es[k] == Some(y)
            &&& forall|j: int| 0 <= j < es.len() ==> #[trigger] comes_first(y, k, es[j], j)
        },
    decreases es.len(),
{
    if es.len() == 0 {
        0
    } else {
        let init = es.drop_last();
        let k0 = lemma_earliest(init);
        let last = es.last();
        let n = es.len() - 1;
        assert forall|j: int| 0 <= j < n implies #[trigger] init[j] == es[j] by {}
        match last {
            None => {
                if earliest(init) is None {
                    assert forall|j: int| 0 <= j < es.len() implies #[trigger] es[j] is None by {
                        if j < n {
                            assert(init[j] == es[j]);
                        }
                    }
                }
                if let Some(y) = earliest(init) {
                    assert forall|j: int| 0 <= j < es.len() implies #[trigger] comes_first(y, k0, es[j], j) by {
                        if j < n {
                            assert(init[j] == es[j]);
                            assert(comes_first(y, k0, init[j], j));
                        }
                    }
                    assert(es[k0] == init[k0]);
                } else {
                    assert(!(forall|j: int| 0 <= j < es.len() ==> #[trigger] es[j] is None) ==> false) by {
                        if !(forall|j: int| 0 <= j < es.len() ==> #[trigger] es[j] is None) {
                            let j = choose|j: int| 0 <= j < es.len() && !(#[trigger] es[j] is None);
                            if j < n {
                                assert(init[j] == es[j]);
                            }
                        }
                    }
                }
                k0
            },
            Some(c) => {
                assert(es[n] == Some(c));
                match earliest(init) {
                    None => {
                        // every earlier entry is none: the last is the earliest
                        assert forall|j: int| 0 <= j < es.len() implies #[trigger] comes_first(c, n, es[j], j) by {
                            if j < n {
                                assert(init[j] == es[j]);
                                assert(init[j] is None);
                            }
                        }
                        n
                    },
                    Some(b) => {
                        assert(es[k0] == init[k0]);
                        assert(b.1 > 0) by {
                            assert(init[k0] == Some(b));
                        }
                        assert(c.1 > 0);
                        if c.0 * b.1 < b.0 * c.1 {
                            assert forall|j: int| 0 <= j < es.len() implies #[trigger] comes_first(c, n, es[j], j) by {
                                if j < n {
                                    assert(init[j] == es[j]);
                                    assert(comes_first(b, k0, init[j], j));
                                    if let Some(x) = es[j] {
                                        assert(x.1 > 0);
                                        lemma_time_order(c.0, c.1, b.0, b.1, x.0, x.1);
                                    }
                                }
                            }
                            n
                        } else {
                            assert forall|j: int| 0 <= j < es.len() implies #[trigger] comes_first(b, k0, es[j], j) by {
                                if j < n {
                                    assert(init[j] == es[j]);
                                    assert(comes_first(b, k0, init[j], j));
                                }
                            }
                            k0
                        }
                    },
                }
            },
        }
    }
}

pub open spec fn edge_at(k: int) -> Edge {
    if k == 0 {
        Edge::Left
    } else if k == 1 {
        Edge::Right
    } else if k == 2 {
        Edge::Top
    } else {
        Edge::Bottom
    }
}

/// The crossing of the earliest edge (listed at `k`, crossing `y`) is the
/// first candidate pixel of the source, and the only one.
proof fn lemma_earliest_is_first_candidate(
    previous: (i32, i32),
    current: (i32, i32),
    rects: Seq<Rect>,
    s: Rect,
    k: int,
    y: (int, int, CrossedEdge),
)
    requires
        s.valid(),
        rects.contains(s),
        rect_in_range(s),
        0 <= k < 4,
        edge_crossing(previous, current, rects, s, edge_at(k)) == Some(y),
        forall|j: int| 0 <= j < 4 ==> comes_first(y, k, #[trigger] edge_crossing(previous, current, rects, s, edge_at(j)), j),
    ensures
        exists|c: int| #[trigger] is_first_candidate(previous, current, rects, s, edge_at(k), s.edge_coord(edge_at(k)), c)
            && y.2.point == point_on(edge_at(k), s.edge_coord(edge_at(k)), c),
        forall|e3: Edge, a3: int, c3: int| #[trigger] is_first_candidate(previous, current, rects, s, e3, a3, c3) ==> e3 == edge_at(k)
            && a3 == s.edge_coord(edge_at(k)) && y.2.point == point_on(e3, a3, c3),
        y.2.edge == edge_at(k),
{
    let e = edge_at(k);
    let a = s.edge_coord(e);
    let c = lemma_edge_first_candidate(previous, current, rects, s, e);
    assert forall|e2: Edge, a2: int, c2: int| #[trigger] is_candidate(previous, current, rects, s, e2, a2, c2)
        implies !key_less(candidate_key(previous, current, e2, a2, c2), candidate_key(previous, current, e, a, c))
        && (!key_less(candidate_key(previous, current, e, a, c), candidate_key(previous, current, e2, a2, c2))
        ==> e2 == e && a2 == a && c2 == c) by {
        let j = edge_order(e2);
        assert(edge_at(j) == e2);
        let _ = lemma_edge_first_candidate(previous, current, rects, s, e2);
        assert(comes_first(y, k, edge_crossing(previous, current, rects, s, edge_at(j)), j));
        if j == k {
            assert(e2 == e);
        }
    }
    assert(is_first_candidate(previous, current, rects, s, e, a, c));
}

/// The crossing of a movement means what the pixels say: for a source
/// display within `i32`, the crossing reported is the side of the first
/// candidate pixel of the source, the side that faces outside the desktop
/// and that the movement reaches first (on the earliest edge at equal
/// times, and at the pixel the crossing point rounds to at a border between
/// two pixels); there is none exactly when no pixel side is a candidate.
pub proof fn lemma_crossing_is_first_candidate(previous: (i32, i32), current: (i32, i32), rects: Seq<Rect>)
    requires
        source_in_range(rects, previous),
    ensures
        spec_crossed_exposed_edge(previous, current, rects) == reference_crossed_edge(previous, current, rects),
{
    lemma_first_source(rects, previous);
    if let Some(s) = first_source(rects, previous) {
        assert(rect_in_range(s));
        let el = edge_crossing(previous, current, rects, s, Edge::Left);
        let er = edge_crossing(previous, current, rects, s, Edge::Right);
        let et = edge_crossing(previous, current, rects, s, Edge::Top);
        let eb = edge_crossing(previous, current, rects, s, Edge::Bottom);
        let _ = lemma_edge_first_candidate(previous, current, rects, s, Edge::Left);
        let _ = lemma_edge_first_candidate(previous, current, rects, s, Edge::Right);
        let _ = lemma_edge_first_candidate(previous, current, rects, s, Edge::Top);
        let _ = lemma_edge_first_candidate(previous, current, rects, s, Edge::Bottom);
        let es = seq![el, er, et, eb];
        assert forall|j: int| 0 <= j < 4 implies #[trigger] es[j] == edge_crossing(previous, current, rects, s, edge_at(j))
            && (es[j] matches Some(x) ==> x.1 > 0) by {}
        let k = lemma_earliest(es);
        let s1 = seq![el];
        let s2 = seq![el, er];
        let s3 = seq![el, er, et];
        assert(s1.drop_last() =~= Seq::<Option<(int, int, CrossedEdge)>>::empty());
        assert(earliest(s1.drop_last()) is None);
        assert(earliest(s1) == earlier(None, el));
        assert(s2.drop_last() =~= s1);
        assert(earliest(s2) == earlier(earliest(s1), er));
        assert(s3.drop_last() =~= s2);
        assert(earliest(s3) == earlier(earliest(s2), et));
        assert(es.drop_last() =~= s3);
        assert(earliest(es) == earlier(earliest(s3), eb));
        match earliest(es) {
            None => {
                assert forall|e: Edge, a: int, c: int| !#[trigger] is_first_candidate(previous, current, rects, s, e, a, c) by {
                    let j = edge_order(e);
                    assert(es[j] is None);
                    assert(edge_at(j) == e);
                }
            },
            Some(y) => {
                assert forall|j: int| 0 <= j < 4 implies comes_first(y, k, #[trigger] edge_crossing(previous, current, rects, s, edge_at(j)), j) by {
                    assert(comes_first(y, k, es[j], j));
                }
                assert(es[k] == Some(y));
                lemma_earliest_is_first_candidate(previous, current, rects, s, k, y);
            },
        }
    }
}

} // verus!
