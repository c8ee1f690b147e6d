use std::collections::HashSet;

use lan_mouse::screen::{crossed_exposed_edge, CrossedEdge, Edge, EdgeSegment, EdgeSegments, Rect};

fn rect(x: i32, y: i32, width: i32, height: i32) -> Rect {
    Rect { x, y, width, height }
}

#[test]
fn crossed_edge_uses_only_exposed_segments() {
    let rectangles = [rect(0, 0, 100, 100), rect(100, 100, 100, 100)];
    assert_eq!(
        crossed_exposed_edge((99, 50), (100, 50), &rectangles).map(|crossed| crossed.edge),
        Some(Edge::Right)
    );
    let overlapping = [rect(0, 0, 100, 100), rect(100, 50, 100, 100)];
    assert_eq!(crossed_exposed_edge((99, 75), (100, 75), &overlapping), None);
}

#[test]
fn crossed_edge_rejects_internal_and_gap_transitions() {
    let aligned = [rect(0, 0, 100, 100), rect(100, 0, 100, 100)];
    assert_eq!(crossed_exposed_edge((99, 50), (100, 50), &aligned), None);

    let gap = [rect(0, 0, 100, 100), rect(200, 0, 100, 100)];
    assert_eq!(
        crossed_exposed_edge((99, 50), (100, 50), &gap).map(|crossed| crossed.edge),
        Some(Edge::Right)
    );
}

#[test]
fn crossed_edge_uses_the_first_diagonal_intersection() {
    let rectangles = [rect(0, 0, 100, 100)];
    assert_eq!(
        crossed_exposed_edge((50, 50), (150, -100), &rectangles),
        Some(CrossedEdge { edge: Edge::Top, point: (84, 0) })
    );
    assert_eq!(
        crossed_exposed_edge((50, 50), (150, -25), &rectangles),
        Some(CrossedEdge { edge: Edge::Right, point: (99, 13) })
    );
}

#[test]
fn crossed_edge_resolves_every_exact_corner_deterministically() {
    let rectangles = [rect(0, 0, 100, 100)];
    for (previous, current) in [((99, 0), (100, -1)), ((0, 0), (-1, -1)), ((99, 99), (100, 100)), ((0, 99), (-1, 100))] {
        let crossed = crossed_exposed_edge(previous, current, &rectangles).unwrap();
        assert!(crossed.point.0 >= 0 && crossed.point.0 < 100);
        assert!(crossed.point.1 >= 0 && crossed.point.1 < 100);
    }
}

#[test]
fn crossed_edge_chooses_an_exposed_endpoint_owner() {
    let positive = [rect(0, 0, 3, 4), rect(3, 2, 2, 3)];
    assert_eq!(
        crossed_exposed_edge((0, 0), (5, 3), &positive),
        Some(CrossedEdge { edge: Edge::Right, point: (2, 1) })
    );

    let negative = [rect(0, -4, 3, 4), rect(3, -3, 2, 1)];
    assert_eq!(
        crossed_exposed_edge((0, -4), (5, -1), &negative),
        Some(CrossedEdge { edge: Edge::Right, point: (2, -2) })
    );
}

#[test]
fn crossed_edge_handles_endpoint_after_inexact_division() {
    let rectangles = [rect(0, 0, 8, 12), rect(8, 7, 1, 1)];
    assert_eq!(
        crossed_exposed_edge((0, 0), (11, 11), &rectangles),
        Some(CrossedEdge { edge: Edge::Right, point: (7, 8) })
    );

    let negative = [rect(0, -12, 8, 12), rect(8, -5, 1, 1)];
    assert_eq!(
        crossed_exposed_edge((0, -12), (11, -1), &negative),
        Some(CrossedEdge { edge: Edge::Right, point: (7, -4) })
    );
}

#[test]
fn crossed_edge_handles_inexact_exact_corner() {
    assert_eq!(
        crossed_exposed_edge((0, 3), (25, -22), &[rect(0, 0, 4, 4)]),
        Some(CrossedEdge { edge: Edge::Right, point: (3, 0) })
    );
}

type CornerCase = (Rect, (i32, i32), (i32, i32), CrossedEdge);

fn nontrivial_corner_cases() -> [CornerCase; 4] {
    [
        (rect(0, 0, 1, 2), (0, 1), (7, -20), CrossedEdge { edge: Edge::Right, point: (0, 0) }),
        (rect(0, 0, 2, 2), (1, 1), (-10, -10), CrossedEdge { edge: Edge::Left, point: (0, 0) }),
        (rect(0, 0, 2, 2), (0, 0), (13, 13), CrossedEdge { edge: Edge::Right, point: (1, 1) }),
        (rect(0, 0, 2, 2), (1, 0), (-24, 25), CrossedEdge { edge: Edge::Left, point: (0, 1) }),
    ]
}

#[test]
fn crossed_edge_handles_all_corners_with_nontrivial_divisions() {
    for (display, previous, current, expected) in nontrivial_corner_cases() {
        assert_eq!(
            crossed_exposed_edge(previous, current, &[display]),
            Some(expected),
            "display={display:?}, previous={previous:?}, current={current:?}"
        );
    }
}

#[test]
fn crossed_edge_corner_crossings_are_translation_invariant() {
    for offset in [(10_000, 10_000), (-10_000, -10_000), (30_000, -20_000)] {
        for (display, previous, current, expected) in nontrivial_corner_cases() {
            let translated = Rect { x: display.x + offset.0, y: display.y + offset.1, ..display };
            assert_eq!(
                crossed_exposed_edge(
                    (previous.0 + offset.0, previous.1 + offset.1),
                    (current.0 + offset.0, current.1 + offset.1),
                    &[translated],
                ),
                Some(CrossedEdge {
                    edge: expected.edge,
                    point: (expected.point.0 + offset.0, expected.point.1 + offset.1),
                }),
                "offset={offset:?}, display={display:?}, previous={previous:?}, current={current:?}"
            );
        }
    }
}

#[test]
fn crossed_edge_handles_very_shallow_and_steep_diagonals() {
    let display = rect(0, 0, 10, 10);
    assert_eq!(
        crossed_exposed_edge((5, 5), (1_005, 6), &[display]),
        Some(CrossedEdge { edge: Edge::Right, point: (9, 5) })
    );
    assert_eq!(
        crossed_exposed_edge((5, 5), (6, 1_005), &[display]),
        Some(CrossedEdge { edge: Edge::Bottom, point: (5, 9) })
    );
}

#[test]
fn crossed_edge_handles_exact_endpoints_for_positive_and_negative_coordinates() {
    for denominator in [7, 11, 13, 25] {
        assert_eq!(
            crossed_exposed_edge((0, 0), (denominator, denominator), &[rect(0, 0, 1, 2), rect(1, 1, 1, 1)]),
            Some(CrossedEdge { edge: Edge::Right, point: (0, 0) }),
            "positive denominator={denominator}"
        );
        assert_eq!(
            crossed_exposed_edge((0, -2), (denominator, denominator - 2), &[rect(0, -2, 1, 2), rect(1, -2, 1, 1)]),
            Some(CrossedEdge { edge: Edge::Right, point: (0, -1) }),
            "negative denominator={denominator}"
        );
    }
}

#[test]
fn crossed_edge_endpoint_ownership_is_translation_invariant() {
    let rectangles = [rect(0, 0, 8, 12), rect(8, 7, 1, 1)];
    for offset in [(10_000, 10_000), (-10_000, -10_000), (30_000, -20_000)] {
        let translated = rectangles.map(|display| Rect { x: display.x + offset.0, y: display.y + offset.1, ..display });
        assert_eq!(
            crossed_exposed_edge((offset.0, offset.1), (offset.0 + 11, offset.1 + 11), &translated),
            Some(CrossedEdge { edge: Edge::Right, point: (offset.0 + 7, offset.1 + 8) }),
            "offset={offset:?}"
        );
    }
}

fn contains(rect: Rect, point: (i32, i32)) -> bool {
    point.0 >= rect.x && point.0 < rect.x + rect.width && point.1 >= rect.y && point.1 < rect.y + rect.height
}

fn occupied_pixels(rectangles: &[Rect]) -> HashSet<(i32, i32)> {
    rectangles
        .iter()
        .flat_map(|rect| (rect.x..rect.x + rect.width).flat_map(move |x| (rect.y..rect.y + rect.height).map(move |y| (x, y))))
        .collect()
}

fn verification_layouts() -> Vec<Vec<Rect>> {
    vec![
        vec![rect(0, 0, 1, 1)],
        vec![rect(-2, -1, 3, 4)],
        vec![rect(0, 0, 3, 3), rect(3, 0, 2, 4)],
        vec![rect(0, 0, 3, 3), rect(0, 3, 4, 2)],
        vec![rect(0, 0, 3, 4), rect(3, 2, 2, 3)],
        vec![rect(0, 0, 3, 3), rect(5, 0, 2, 2)],
        vec![rect(-2, -2, 4, 2), rect(2, 0, 3, 4)],
        vec![rect(0, 0, 3, 3), rect(3, 3, 2, 2)],
        vec![rect(0, 0, 4, 4), rect(2, 1, 3, 2)],
        vec![rect(0, 0, 2, 3), rect(2, 0, 2, 3), rect(4, 0, 2, 3)],
        vec![rect(0, 0, 3, 2), rect(0, 2, 3, 2), rect(0, 4, 3, 2)],
        vec![rect(0, 0, 2, 2), rect(2, 1, 2, 2), rect(4, 2, 2, 2)],
        vec![rect(0, 1, 2, 2), rect(2, 0, 2, 4), rect(4, 1, 2, 2)],
        vec![rect(-3, 0, 2, 2), rect(-1, 0, 3, 3), rect(2, 1, 2, 2)],
    ]
}

fn generated_two_monitor_layouts() -> Vec<Vec<Rect>> {
    const OFFSETS: [i32; 4] = [-2, 0, 2, 4];
    let mut layouts = Vec::new();
    for primary_width in 1..=3 {
        for primary_height in 1..=3 {
            let primary = rect(0, 0, primary_width, primary_height);
            for secondary_width in 1..=3 {
                for secondary_height in 1..=3 {
                    for offset_x in OFFSETS {
                        for offset_y in OFFSETS {
                            layouts.push(vec![primary, rect(offset_x, offset_y, secondary_width, secondary_height)]);
                        }
                    }
                }
            }
        }
    }
    layouts
}

fn desktop_bounds(rectangles: &[Rect], padding: i32) -> (i32, i32, i32, i32) {
    (
        rectangles.iter().map(|rect| rect.x).min().unwrap() - padding,
        rectangles.iter().map(|rect| rect.x + rect.width).max().unwrap() + padding,
        rectangles.iter().map(|rect| rect.y).min().unwrap() - padding,
        rectangles.iter().map(|rect| rect.y + rect.height).max().unwrap() + padding,
    )
}

fn pixels_of(segments: &EdgeSegments) -> Vec<(i32, i32)> {
    segments
        .segments()
        .into_iter()
        .flat_map(|segment: EdgeSegment| (segment.cross_start..segment.cross_end).map(move |cross| (segment.edge_coordinate, cross)))
        .collect()
}

#[test]
fn edge_segments_match_the_outer_pixels_of_the_grid() {
    for rectangles in verification_layouts().into_iter().chain(generated_two_monitor_layouts()) {
        let occupied = occupied_pixels(&rectangles);
        for edge in [Edge::Left, Edge::Right, Edge::Top, Edge::Bottom] {
            let mut expected = Vec::new();
            let cross_values = match edge {
                Edge::Left | Edge::Right => occupied.iter().map(|(_, y)| *y).collect::<HashSet<_>>(),
                Edge::Top | Edge::Bottom => occupied.iter().map(|(x, _)| *x).collect::<HashSet<_>>(),
            };
            for cross in cross_values {
                let edge_coordinate = match edge {
                    Edge::Left => occupied.iter().filter(|(_, y)| *y == cross).map(|(x, _)| *x).min(),
                    Edge::Right => occupied.iter().filter(|(_, y)| *y == cross).map(|(x, _)| *x).max(),
                    Edge::Top => occupied.iter().filter(|(x, _)| *x == cross).map(|(_, y)| *y).min(),
                    Edge::Bottom => occupied.iter().filter(|(x, _)| *x == cross).map(|(_, y)| *y).max(),
                }
                .unwrap();
                expected.push((edge_coordinate, cross));
            }
            expected.sort_unstable_by_key(|(_, cross)| *cross);
            let actual = pixels_of(&EdgeSegments::from_rectangles(edge, &rectangles));
            assert_eq!(actual, expected, "rectangles={rectangles:?}, edge={edge:?}");
        }
    }
}

#[test]
fn edge_segments_ignore_rectangle_order() {
    for rectangles in verification_layouts() {
        let mut reversed = rectangles.clone();
        reversed.reverse();
        for edge in [Edge::Left, Edge::Right, Edge::Top, Edge::Bottom] {
            assert_eq!(
                EdgeSegments::from_rectangles(edge, &rectangles),
                EdgeSegments::from_rectangles(edge, &reversed),
                "rectangles={rectangles:?}, edge={edge:?}"
            );
        }
    }
}

#[test]
fn crossing_is_invariant_under_rectangle_permutations_when_source_is_unique() {
    for rectangles in verification_layouts().into_iter().filter(|layout| layout.len() >= 2) {
        let mut orders = vec![rectangles.clone()];
        let mut reversed = rectangles.clone();
        reversed.reverse();
        orders.push(reversed);
        if rectangles.len() == 3 {
            for order in [[0, 2, 1], [1, 0, 2], [1, 2, 0], [2, 0, 1], [2, 1, 0]] {
                orders.push(order.into_iter().map(|index| rectangles[index]).collect());
            }
        }
        let (min_x, max_x, min_y, max_y) = desktop_bounds(&rectangles, 1);
        for previous in (min_x..max_x).flat_map(|x| (min_y..max_y).map(move |y| (x, y))) {
            if rectangles.iter().filter(|rect| contains(**rect, previous)).count() != 1 {
                continue;
            }
            for current in (min_x..max_x).flat_map(|x| (min_y..max_y).map(move |y| (x, y))) {
                let expected = crossed_exposed_edge(previous, current, &rectangles);
                for order in &orders {
                    assert_eq!(
                        crossed_exposed_edge(previous, current, order),
                        expected,
                        "rectangles={rectangles:?}, previous={previous:?}, current={current:?}"
                    );
                }
            }
        }
    }
}

#[test]
fn generated_crossings_are_invariant_under_rectangle_order_when_source_is_unique() {
    let layouts = generated_two_monitor_layouts();
    for rectangles in &layouts {
        let mut reversed = rectangles.clone();
        reversed.reverse();
        let (min_x, max_x, min_y, max_y) = desktop_bounds(rectangles, 1);
        for previous in (min_x..max_x).flat_map(|x| (min_y..max_y).map(move |y| (x, y))) {
            if rectangles.iter().filter(|rect| contains(**rect, previous)).count() != 1 {
                continue;
            }
            for current in (min_x..max_x).flat_map(|x| (min_y..max_y).map(move |y| (x, y))) {
                let expected = crossed_exposed_edge(previous, current, rectangles);
                assert_eq!(
                    crossed_exposed_edge(previous, current, &reversed),
                    expected,
                    "rectangles={rectangles:?}, previous={previous:?}, current={current:?}"
                );
            }
        }
    }
}

#[test]
fn edge_segments_offsets_and_pixels_round_trip() {
    let segments = EdgeSegments::from_rectangles(Edge::Left, &[rect(0, 0, 1920, 3), rect(0, 5, 1920, 2)]);
    assert_eq!(segments.total_len(), Some(5));
    for (offset, coordinate) in [0, 1, 2, 5, 6].into_iter().enumerate() {
        assert_eq!(segments.offset_of(0, coordinate), Some(offset as u32));
        assert_eq!(segments.pixel_at(offset as u32), Some((0, coordinate)));
    }
    assert_eq!(segments.offset_of(0, 3), None);
    assert_eq!(segments.pixel_at(5), None);
}

#[test]
fn from_segments_drops_empty_segments_and_sorts() {
    let segments = EdgeSegments::from_segments(vec![
        EdgeSegment { edge_coordinate: 0, cross_start: 10, cross_end: 12 },
        EdgeSegment { edge_coordinate: 0, cross_start: 5, cross_end: 5 },
        EdgeSegment { edge_coordinate: 3, cross_start: 0, cross_end: 4 },
    ]);
    assert_eq!(
        segments.segments(),
        vec![
            EdgeSegment { edge_coordinate: 3, cross_start: 0, cross_end: 4 },
            EdgeSegment { edge_coordinate: 0, cross_start: 10, cross_end: 12 },
        ]
    );
}

#[test]
fn rect_helpers_report_edges_and_ranges() {
    let r = rect(10, 20, 30, 40);
    assert!(r.contains_point((10, 20)));
    assert!(!r.contains_point((40, 20)));
    assert_eq!(r.edge_coordinate(Edge::Right), 39);
    assert_eq!(r.edge_coordinate(Edge::Top), 20);
    assert_eq!(r.cross_axis_range(Edge::Left), (20, 60));
    assert!(r.contains_cross_axis(Edge::Top, 39));
    assert!(!r.contains_cross_axis(Edge::Top, 40));
    assert!(r.is_valid());
    assert!(!rect(0, 0, 0, 5).is_valid());
    let s = EdgeSegment { edge_coordinate: 1, cross_start: 2, cross_end: 6 };
    assert_eq!(s.len(), 4);
    assert!(s.contains(1, 5));
    assert!(!s.contains(1, 6));
}

#[test]
fn ties_round_half_away_from_zero_on_both_sides_of_the_origin() {
    // the crossing meets the right edge exactly between two pixels; the
    // tie goes to the pixel away from zero, so moving the layout across
    // the origin moves the chosen pixel by one more than the offset
    let here = crossed_exposed_edge((5, 2), (14, 3), &[rect(0, 0, 10, 10)]);
    assert_eq!(here, Some(CrossedEdge { edge: Edge::Right, point: (9, 3) }));
    let moved = crossed_exposed_edge((-5, -8), (4, -7), &[rect(-10, -10, 10, 10)]);
    assert_eq!(moved, Some(CrossedEdge { edge: Edge::Right, point: (-1, -8) }));
}

#[test]
fn ties_move_with_the_layout_on_one_side_of_the_origin() {
    // the same tie between two pixels, with the layout moved but kept on
    // the positive side: the chosen pixel moves by exactly the offset
    let here = crossed_exposed_edge((5, 2), (14, 3), &[rect(0, 0, 10, 10)]);
    assert_eq!(here, Some(CrossedEdge { edge: Edge::Right, point: (9, 3) }));
    let moved = crossed_exposed_edge((105, 102), (114, 103), &[rect(100, 100, 10, 10)]);
    assert_eq!(moved, Some(CrossedEdge { edge: Edge::Right, point: (109, 103) }));
}

#[test]
fn edge_segments_clone_and_default() {
    let segments = EdgeSegments::from_segments(vec![
        EdgeSegment { edge_coordinate: 3, cross_start: 4, cross_end: 9 },
        EdgeSegment { edge_coordinate: 0, cross_start: 0, cross_end: 2 },
    ]);
    let copy = segments.clone();
    assert_eq!(copy, segments);
    assert_eq!(copy.segments(), segments.segments());
    assert_eq!(segments.segments()[0].cross_start, 0);
    assert!(EdgeSegments::default().segments().is_empty());
    assert_eq!(EdgeSegments::default().total_len(), Some(0));
}

#[test]
fn a_tie_with_one_exposed_pixel_moves_with_the_layout_across_the_origin() {
    // the pixel away from zero is blocked by a neighbouring display, so the
    // tie goes to the other one, before and after moving across the origin
    let here = crossed_exposed_edge((5, 2), (14, 3), &[rect(0, 0, 10, 10), rect(10, 3, 5, 5)]);
    assert_eq!(here, Some(CrossedEdge { edge: Edge::Right, point: (9, 2) }));
    let moved = crossed_exposed_edge((-5, -8), (4, -7), &[rect(-10, -10, 10, 10), rect(0, -7, 5, 5)]);
    assert_eq!(moved, Some(CrossedEdge { edge: Edge::Right, point: (-1, -8) }));
}
