use lan_mouse::screen::{Edge, EdgeSegment, EdgeSegments, Rect};

fn rect(x: i32, y: i32, width: i32, height: i32) -> Rect {
    Rect { x, y, width, height }
}

/// The normalised position of a pixel along the edge, from the library's
/// offset and total length.
fn normalize(segments: &EdgeSegments, edge_coordinate: i32, cross_coordinate: i32) -> Option<f32> {
    let total = segments.total_len()?;
    if total == 0 {
        return None;
    }
    let offset = segments.offset_of(edge_coordinate, cross_coordinate)?;
    Some(if total == 1 { 0.0 } else { offset as f32 / (total - 1) as f32 })
}

/// The pixel at a normalised position, from the library's pixel lookup.
fn denormalize(segments: &EdgeSegments, normalized: f32) -> Option<(i32, i32)> {
    if !normalized.is_finite() {
        return None;
    }
    let total = segments.total_len()?;
    if total == 0 {
        return None;
    }
    let target = if total == 1 { 0 } else { (normalized.clamp(0.0, 1.0) * (total - 1) as f32).round() as u32 };
    segments.pixel_at(target)
}

fn verification_layouts() -> Vec<Vec<Rect>> {
    vec![
        vec![rect(0, 0, 1, 1)],
        vec![rect(-2, -1, 3, 4)],
        vec![rect(0, 0, 3, 3), rect(3, 0, 2, 4)],
        vec![rect(0, 0, 3, 3), rect(0, 3, 4, 2)],
        vec![rect(0, 0, 3, 4), rect(3, 2, 2, 3)],
        vec![rect(0, 0, 3, 3), rect(5, 0, 2, 2)],
        vec![rect(-2, -2, 4, 2), rect(2, 0, 3, 4)],
        vec![rect(0, 0, 3, 3), rect(3, 3, 2, 2)],
        vec![rect(0, 0, 4, 4), rect(2, 1, 3, 2)],
        vec![rect(0, 0, 2, 3), rect(2, 0, 2, 3), rect(4, 0, 2, 3)],
        vec![rect(0, 0, 3, 2), rect(0, 2, 3, 2), rect(0, 4, 3, 2)],
        vec![rect(0, 0, 2, 2), rect(2, 1, 2, 2), rect(4, 2, 2, 2)],
        vec![rect(0, 1, 2, 2), rect(2, 0, 2, 4), rect(4, 1, 2, 2)],
        vec![rect(-3, 0, 2, 2), rect(-1, 0, 3, 3), rect(2, 1, 2, 2)],
    ]
}

#[test]
fn single_monitor_preserves_every_pixel() {
    let segments = EdgeSegments::from_rectangles(Edge::Left, &[rect(0, 0, 1920, 1080)]);
    assert_eq!(normalize(&segments, 0, 0), Some(0.0));
    assert_eq!(normalize(&segments, 0, 1079), Some(1.0));
    assert_eq!(denormalize(&segments, 0.5), Some((0, 540)));
}

#[test]
fn stacked_monitors_share_one_continuous_edge() {
    let segments = EdgeSegments::from_rectangles(Edge::Left, &[rect(0, 0, 1920, 1080), rect(0, 1080, 1920, 1080)]);
    assert_eq!(normalize(&segments, 0, 1620), Some(1620.0 / 2159.0));
    assert_eq!(denormalize(&segments, 1620.0 / 2159.0), Some((0, 1620)));
}

#[test]
fn side_by_side_monitors_keep_only_outer_edges() {
    let segments = EdgeSegments::from_rectangles(Edge::Left, &[rect(0, 0, 1920, 1080), rect(1920, 0, 1920, 1080)]);
    assert_eq!(normalize(&segments, 0, 540), Some(540.0 / 1079.0));
    assert_eq!(normalize(&segments, 1920, 540), None);
}

#[test]
fn different_sizes_contribute_only_the_exposed_portions() {
    let segments = EdgeSegments::from_rectangles(Edge::Right, &[rect(0, 0, 1920, 1080), rect(1920, 0, 2560, 1440)]);
    assert_eq!(normalize(&segments, 4479, 1439), Some(1.0));
}

#[test]
fn gaps_are_compacted_out_of_the_edge_coordinate_space() {
    let segments = EdgeSegments::from_rectangles(Edge::Left, &[rect(0, 0, 1920, 100), rect(0, 200, 1920, 100)]);
    assert_eq!(normalize(&segments, 0, 99), Some(99.0 / 199.0));
    assert_eq!(denormalize(&segments, 100.0 / 199.0), Some((0, 200)));
}

#[test]
fn stepped_edge_uses_each_outer_segment() {
    let segments = EdgeSegments::from_rectangles(Edge::Left, &[rect(100, 0, 1920, 100), rect(0, 100, 1920, 100)]);
    assert_eq!(normalize(&segments, 100, 50), Some(50.0 / 199.0));
    assert_eq!(normalize(&segments, 0, 150), Some(150.0 / 199.0));
}

#[test]
fn normalization_and_denormalization_are_symmetric_for_every_pixel() {
    let segments = EdgeSegments::from_rectangles(Edge::Left, &[rect(0, 0, 1920, 3), rect(0, 5, 1920, 2)]);
    for coordinate in [0, 1, 2, 5, 6] {
        let normalized = normalize(&segments, 0, coordinate).unwrap();
        assert_eq!(denormalize(&segments, normalized), Some((0, coordinate)));
    }
}

#[test]
fn normalization_round_trips_every_exposed_pixel_and_ignores_rectangle_order() {
    for rectangles in verification_layouts() {
        let mut reversed = rectangles.clone();
        reversed.reverse();
        for edge in [Edge::Left, Edge::Right, Edge::Top, Edge::Bottom] {
            let segments = EdgeSegments::from_rectangles(edge, &rectangles);
            let reversed_segments = EdgeSegments::from_rectangles(edge, &reversed);
            assert_eq!(segments, reversed_segments, "rectangles={rectangles:?}, edge={edge:?}");
            let pixels = segments
                .segments()
                .into_iter()
                .flat_map(|segment: EdgeSegment| {
                    (segment.cross_start..segment.cross_end).map(move |cross| (segment.edge_coordinate, cross))
                })
                .collect::<Vec<_>>();
            for (index, pixel) in pixels.iter().copied().enumerate() {
                let normalized = normalize(&segments, pixel.0, pixel.1).unwrap();
                assert!((0.0..=1.0).contains(&normalized));
                assert_eq!(denormalize(&segments, normalized), Some(pixel));
                if pixels.len() > 1 && index == 0 {
                    assert_eq!(normalized, 0.0);
                }
                if pixels.len() > 1 && index + 1 == pixels.len() {
                    assert_eq!(normalized, 1.0);
                }
            }
        }
    }
}
