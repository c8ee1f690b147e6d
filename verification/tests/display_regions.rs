use lan_mouse::display::{
    clamp_to_display_bounds, entered_barrier, in_bounds, in_display_region, is_within_dp_boundary,
    is_within_dp_region, moved_across_boundary, source_display, DisplayRect,
};
use lan_mouse::Position;

fn rect(left: i32, top: i32, right: i32, bottom: i32) -> DisplayRect {
    DisplayRect { left, top, right, bottom }
}

#[test]
fn region_and_boundary_checks() {
    let d = rect(0, 0, 1000, 800);
    assert!(is_within_dp_region((0, 0), &d));
    assert!(!is_within_dp_region((1000, 0), &d));
    assert!(is_within_dp_boundary((-5, 0), &d, Position::Right));
    assert!(!is_within_dp_boundary((-5, 0), &d, Position::Left));
    let displays = [d, rect(1000, 0, 2000, 800)];
    assert!(in_display_region((1500, 10), &displays));
    assert!(!in_display_region((1500, 900), &displays));
    assert!(in_bounds((1500, 900), &displays, Position::Top));
    assert!(!in_bounds((1500, 900), &displays, Position::Bottom));
    assert_eq!(source_display(&displays, (1500, 10)), Some(1));
}

#[test]
fn barriers_are_entered_only_when_leaving_every_display() {
    let displays = [rect(0, 0, 1000, 800), rect(1000, 0, 2000, 800)];
    assert_eq!(entered_barrier((999, 400), (1000, 400), &displays), None);
    assert_eq!(entered_barrier((1999, 400), (2000, 400), &displays), Some(Position::Right));
    assert_eq!(entered_barrier((5, 400), (-1, 400), &displays), Some(Position::Left));
    assert_eq!(entered_barrier((5, 0), (5, -1), &displays), Some(Position::Top));
    assert_eq!(entered_barrier((5000, 0), (-1, 400), &displays), None);
    assert!(moved_across_boundary((5, 799), (5, 800), &displays, Position::Bottom));
    assert!(!moved_across_boundary((5, 799), (5, 800), &displays, Position::Top));
}

#[test]
fn entry_points_are_clamped_to_the_display_of_origin() {
    let displays = [rect(0, 0, 1000, 800), rect(1000, 0, 2000, 1200)];
    assert_eq!(clamp_to_display_bounds(&displays, (1500, 1000), (2100, 1300)), (1999, 1199));
    assert_eq!(clamp_to_display_bounds(&displays, (10, 10), (-50, 900)), (0, 799));
    assert_eq!(clamp_to_display_bounds(&displays, (10, 10), (500, 400)), (500, 400));
}
