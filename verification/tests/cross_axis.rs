use lan_mouse::display::{source_display, DisplayRect};
use lan_mouse::Position;

fn rect(left: i32, top: i32, right: i32, bottom: i32) -> DisplayRect {
    DisplayRect { left, top, right, bottom }
}

/// `coord` normalised to `0.0..=1.0` within `min..=max` (a floating-point
/// ratio), clamped; the midpoint for degenerate bounds.
fn normalized_cross_axis(coord: i32, min: i32, max: i32) -> f64 {
    if max <= min {
        return 0.5;
    }
    ((coord - min) as f64 / (max - min) as f64).clamp(0.0, 1.0)
}

/// The normalised crossing position within the display the library finds
/// the movement came from; the midpoint when none holds it.
fn cross_axis_position(displays: &[DisplayRect], prev_point: (i32, i32), point: (i32, i32), pos: Position) -> f64 {
    let Some(i) = source_display(displays, prev_point) else {
        return 0.5;
    };
    let display = displays[i];
    let (x, y) = point;
    match pos {
        Position::Left | Position::Right => normalized_cross_axis(y, display.top, display.bottom),
        Position::Top | Position::Bottom => normalized_cross_axis(x, display.left, display.right),
    }
}

#[test]
fn midpoint_of_top_edge() {
    let displays = [rect(0, 0, 1000, 800)];
    let t = cross_axis_position(&displays, (500, 400), (500, -5), Position::Top);
    assert_eq!(t, 0.5);
}

#[test]
fn near_left_end_of_top_edge() {
    let displays = [rect(0, 0, 1000, 800)];
    let t = cross_axis_position(&displays, (10, 400), (10, -5), Position::Top);
    assert_eq!(t, 0.01);
}

#[test]
fn cross_axis_for_left_right_edges_uses_y() {
    let displays = [rect(0, 0, 1000, 800)];
    let t = cross_axis_position(&displays, (5, 200), (-5, 200), Position::Left);
    assert_eq!(t, 0.25);
}

#[test]
fn uses_bounds_of_the_display_movement_came_from() {
    // two displays side by side; the crossing display is the second
    // (offset) one, not the first
    let displays = [rect(0, 0, 1000, 800), rect(1000, 0, 2000, 800)];
    let t = cross_axis_position(&displays, (1500, 400), (1500, -5), Position::Top);
    assert_eq!(t, 0.5);
}

#[test]
fn falls_back_to_midpoint_when_display_not_found() {
    let displays = [rect(0, 0, 1000, 800)];
    let t = cross_axis_position(&displays, (5000, 5000), (5000, -5), Position::Top);
    assert_eq!(t, 0.5);
}
