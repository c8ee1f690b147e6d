use std::collections::HashSet;

use lan_mouse::screen::{crossed_exposed_edge, CrossedEdge, Edge, Rect};

fn rect(x: i32, y: i32, width: i32, height: i32) -> Rect {
    Rect { x, y, width, height }
}

fn contains(rect: Rect, point: (i32, i32)) -> bool {
    point.0 >= rect.x && point.0 < rect.x + rect.width && point.1 >= rect.y && point.1 < rect.y + rect.height
}

#[derive(Clone, Copy)]
struct ReferenceEdgeSegment {
    edge: Edge,
    pixel: (i32, i32),
}

fn occupied_pixels(rectangles: &[Rect]) -> HashSet<(i32, i32)> {
    rectangles
        .iter()
        .flat_map(|rect| (rect.x..rect.x + rect.width).flat_map(move |x| (rect.y..rect.y + rect.height).map(move |y| (x, y))))
        .collect()
}

fn reference_segments(source: Rect, occupied: &HashSet<(i32, i32)>) -> Vec<ReferenceEdgeSegment> {
    let mut segments = Vec::new();
    for x in source.x..source.x + source.width {
        for y in source.y..source.y + source.height {
            for (edge, neighbor) in [
                (Edge::Left, (x - 1, y)),
                (Edge::Right, (x + 1, y)),
                (Edge::Top, (x, y - 1)),
                (Edge::Bottom, (x, y + 1)),
            ] {
                if !occupied.contains(&neighbor) {
                    segments.push(ReferenceEdgeSegment { edge, pixel: (x, y) });
                }
            }
        }
    }
    segments
}

fn reference_round_ratio_away_from_zero(numerator: i128, denominator: i128) -> Option<i32> {
    if denominator <= 0 {
        return None;
    }
    let floor = numerator.div_euclid(denominator);
    let remainder = numerator.rem_euclid(denominator);
    let rounded = match (remainder * 2).cmp(&denominator) {
        std::cmp::Ordering::Less => floor,
        std::cmp::Ordering::Greater => floor.checked_add(1)?,
        std::cmp::Ordering::Equal if numerator < 0 => floor,
        std::cmp::Ordering::Equal => floor.checked_add(1)?,
    };
    i32::try_from(rounded).ok()
}

fn reference_crossed_edge(
    previous: (i32, i32),
    current: (i32, i32),
    rectangles: &[Rect],
    occupied: &HashSet<(i32, i32)>,
) -> Option<CrossedEdge> {
    let source = rectangles.iter().copied().find(|rect| contains(*rect, previous))?;
    reference_segments(source, occupied)
        .into_iter()
        .filter_map(|segment| {
            let (boundary2, previous_axis, previous_cross, axis_delta, cross_delta, low2, high2, pixel_cross) =
                match segment.edge {
                    Edge::Left => (
                        i128::from(segment.pixel.0) * 2 - 1,
                        previous.0,
                        previous.1,
                        i128::from(current.0) - i128::from(previous.0),
                        i128::from(current.1) - i128::from(previous.1),
                        i128::from(segment.pixel.1) * 2 - 1,
                        i128::from(segment.pixel.1) * 2 + 1,
                        segment.pixel.1,
                    ),
                    Edge::Right => (
                        i128::from(segment.pixel.0) * 2 + 1,
                        previous.0,
                        previous.1,
                        i128::from(current.0) - i128::from(previous.0),
                        i128::from(current.1) - i128::from(previous.1),
                        i128::from(segment.pixel.1) * 2 - 1,
                        i128::from(segment.pixel.1) * 2 + 1,
                        segment.pixel.1,
                    ),
                    Edge::Top => (
                        i128::from(segment.pixel.1) * 2 - 1,
                        previous.1,
                        previous.0,
                        i128::from(current.1) - i128::from(previous.1),
                        i128::from(current.0) - i128::from(previous.0),
                        i128::from(segment.pixel.0) * 2 - 1,
                        i128::from(segment.pixel.0) * 2 + 1,
                        segment.pixel.0,
                    ),
                    Edge::Bottom => (
                        i128::from(segment.pixel.1) * 2 + 1,
                        previous.1,
                        previous.0,
                        i128::from(current.1) - i128::from(previous.1),
                        i128::from(current.0) - i128::from(previous.0),
                        i128::from(segment.pixel.0) * 2 - 1,
                        i128::from(segment.pixel.0) * 2 + 1,
                        segment.pixel.0,
                    ),
                };
            if axis_delta == 0 {
                return None;
            }
            let mut t_num = boundary2 - i128::from(previous_axis) * 2;
            let mut t_den = axis_delta * 2;
            if t_den < 0 {
                t_num = -t_num;
                t_den = -t_den;
            }
            if !(t_num > 0 && t_num <= t_den) {
                return None;
            }
            let cross_num = i128::from(previous_cross) * t_den + t_num * cross_delta;
            if 2 * cross_num < low2 * t_den || 2 * cross_num > high2 * t_den {
                return None;
            }
            let order = match segment.edge {
                Edge::Left => 0,
                Edge::Right => 1,
                Edge::Top => 2,
                Edge::Bottom => 3,
            };
            let owner_rank = usize::from(pixel_cross != reference_round_ratio_away_from_zero(cross_num, t_den)?);
            Some((t_num, t_den, order, owner_rank, CrossedEdge { edge: segment.edge, point: segment.pixel }))
        })
        .min_by(|left, right| {
            (left.0 * right.1).cmp(&(right.0 * left.1)).then(left.2.cmp(&right.2)).then(left.3.cmp(&right.3))
        })
        .map(|(_, _, _, _, crossed)| crossed)
}

fn verification_layouts() -> Vec<Vec<Rect>> {
    vec![
        vec![rect(0, 0, 1, 1)],
        vec![rect(-2, -1, 3, 4)],
        vec![rect(0, 0, 3, 3), rect(3, 0, 2, 4)],
        vec![rect(0, 0, 3, 3), rect(0, 3, 4, 2)],
        vec![rect(0, 0, 3, 4), rect(3, 2, 2, 3)],
        vec![rect(0, 0, 3, 3), rect(5, 0, 2, 2)],
        vec![rect(-2, -2, 4, 2), rect(2, 0, 3, 4)],
        vec![rect(0, 0, 3, 3), rect(3, 3, 2, 2)],
        vec![rect(0, 0, 4, 4), rect(2, 1, 3, 2)],
        vec![rect(0, 0, 2, 3), rect(2, 0, 2, 3), rect(4, 0, 2, 3)],
        vec![rect(0, 0, 3, 2), rect(0, 2, 3, 2), rect(0, 4, 3, 2)],
        vec![rect(0, 0, 2, 2), rect(2, 1, 2, 2), rect(4, 2, 2, 2)],
        vec![rect(0, 1, 2, 2), rect(2, 0, 2, 4), rect(4, 1, 2, 2)],
        vec![rect(-3, 0, 2, 2), rect(-1, 0, 3, 3), rect(2, 1, 2, 2)],
    ]
}

fn generated_two_monitor_layouts() -> Vec<Vec<Rect>> {
    const OFFSETS: [i32; 4] = [-2, 0, 2, 4];
    let mut layouts = Vec::new();
    for primary_width in 1..=3 {
        for primary_height in 1..=3 {
            let primary = rect(0, 0, primary_width, primary_height);
            for secondary_width in 1..=3 {
                for secondary_height in 1..=3 {
                    for offset_x in OFFSETS {
                        for offset_y in OFFSETS {
                            layouts.push(vec![primary, rect(offset_x, offset_y, secondary_width, secondary_height)]);
                        }
                    }
                }
            }
        }
    }
    layouts
}

fn desktop_bounds(rectangles: &[Rect], padding: i32) -> (i32, i32, i32, i32) {
    (
        rectangles.iter().map(|rect| rect.x).min().unwrap() - padding,
        rectangles.iter().map(|rect| rect.x + rect.width).max().unwrap() + padding,
        rectangles.iter().map(|rect| rect.y).min().unwrap() - padding,
        rectangles.iter().map(|rect| rect.y + rect.height).max().unwrap() + padding,
    )
}

#[test]
fn crossing_matches_the_cell_oracle_for_small_layouts() {
    for rectangles in &verification_layouts() {
        let occupied = occupied_pixels(rectangles);
        let (min_x, max_x, min_y, max_y) = desktop_bounds(rectangles, 3);
        for previous in (min_x..max_x).flat_map(|x| (min_y..max_y).map(move |y| (x, y))) {
            if !rectangles.iter().any(|rect| contains(*rect, previous)) {
                continue;
            }
            for current in (min_x..max_x).flat_map(|x| (min_y..max_y).map(move |y| (x, y))) {
                let production = crossed_exposed_edge(previous, current, rectangles);
                let oracle = reference_crossed_edge(previous, current, rectangles, &occupied);
                assert_eq!(
                    production, oracle,
                    "rectangles={rectangles:?}, previous={previous:?}, current={current:?}"
                );
            }
        }
    }
}

#[test]
fn generated_crossings_match_the_cell_oracle() {
    for rectangles in &generated_two_monitor_layouts() {
        let occupied = occupied_pixels(rectangles);
        let (min_x, max_x, min_y, max_y) = desktop_bounds(rectangles, 1);
        for previous in (min_x..max_x).flat_map(|x| (min_y..max_y).map(move |y| (x, y))) {
            if !rectangles.iter().any(|rect| contains(*rect, previous)) {
                continue;
            }
            for current in (min_x..max_x).flat_map(|x| (min_y..max_y).map(move |y| (x, y))) {
                let production = crossed_exposed_edge(previous, current, rectangles);
                let oracle = reference_crossed_edge(previous, current, rectangles, &occupied);
                assert_eq!(
                    production, oracle,
                    "rectangles={rectangles:?}, previous={previous:?}, current={current:?}"
                );
            }
        }
    }
}
