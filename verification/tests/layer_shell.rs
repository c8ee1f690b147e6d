use lan_mouse::event::KeyboardEvent;
use lan_mouse::layer_shell::{get_output_configuration, window_size, OutputInfo, SeatInput, SeatOutcome, SeatState};
use lan_mouse::wire::{Event, PointerEvent};
use lan_mouse::Position;

fn output(name: &str, position: (i32, i32), size: (i32, i32)) -> OutputInfo {
    OutputInfo { name: name.into(), position, size }
}

#[test]
fn barriers_go_only_on_outer_edges() {
    let outputs = vec![(1, output("DP-1", (0, 0), (1920, 1080))), (2, output("DP-2", (1920, 0), (1920, 1080)))];
    let left: Vec<u32> = get_output_configuration(&outputs, Position::Left).into_iter().map(|(id, _)| id).collect();
    assert_eq!(left, vec![1]);
    let right: Vec<u32> = get_output_configuration(&outputs, Position::Right).into_iter().map(|(id, _)| id).collect();
    assert_eq!(right, vec![2]);
    let top: Vec<u32> = get_output_configuration(&outputs, Position::Top).into_iter().map(|(id, _)| id).collect();
    assert_eq!(top, vec![1, 2]);
    assert_eq!(get_output_configuration(&outputs, Position::Left)[0].1.name, "DP-1");
}

#[test]
fn new_outputs_are_empty_and_windows_are_one_pixel_thick() {
    let o = OutputInfo::new();
    assert_eq!(o.name, "");
    assert_eq!(o.position, (0, 0));
    assert_eq!(o.size, (0, 0));
    assert_eq!(window_size(Position::Left, (1920, 1080)), (1, 1080));
    assert_eq!(window_size(Position::Bottom, (1920, 1080)), (1920, 1));
}

#[test]
fn entering_a_barrier_window_begins_capture_there() {
    let mut seat = SeatState::new();
    assert_eq!(seat.seat_event(SeatInput::Enter { window: None }), SeatOutcome::Nothing);
    assert_eq!(seat.seat_event(SeatInput::Key { time: 1, key: 30, state: 1 }), SeatOutcome::Nothing);
    assert_eq!(seat.seat_event(SeatInput::Enter { window: Some(Position::Top) }), SeatOutcome::Begin(Position::Top));
    assert_eq!(
        seat.seat_event(SeatInput::Key { time: 1, key: 30, state: 1 }),
        SeatOutcome::Deliver(Position::Top, Event::Keyboard(KeyboardEvent::Key { time: 1, key: 30, state: 1 }))
    );
    assert_eq!(seat.seat_event(SeatInput::Leave), SeatOutcome::Ungrab);
}

#[test]
fn the_smooth_scroll_after_a_discrete_one_is_skipped() {
    let mut seat = SeatState::new();
    seat.seat_event(SeatInput::Enter { window: Some(Position::Left) });
    let v = 10.0f64.to_bits();
    assert_eq!(
        seat.seat_event(SeatInput::AxisValue120 { axis: 0, value120: 120 }),
        SeatOutcome::Deliver(Position::Left, Event::Pointer(PointerEvent::AxisDiscrete120 { axis: 0, value: 120 }))
    );
    assert_eq!(seat.seat_event(SeatInput::Axis { time: 5, axis: 0, value_bits: v }), SeatOutcome::Nothing);
    assert_eq!(
        seat.seat_event(SeatInput::Axis { time: 6, axis: 1, value_bits: v }),
        SeatOutcome::Deliver(Position::Left, Event::Pointer(PointerEvent::Axis { time: 6, axis: 1, value_bits: v }))
    );
}

#[test]
fn relative_motion_is_timed_in_milliseconds() {
    let mut seat = SeatState::new();
    seat.seat_event(SeatInput::Enter { window: Some(Position::Right) });
    let (dx, dy) = (1.5f64.to_bits(), (-0.5f64).to_bits());
    // 2^32 + 5000 microseconds
    assert_eq!(
        seat.seat_event(SeatInput::RelativeMotion { utime_hi: 1, utime_lo: 5000, dx_bits: dx, dy_bits: dy }),
        SeatOutcome::Deliver(
            Position::Right,
            Event::Pointer(PointerEvent::Motion { time: 4_294_972, dx_bits: dx, dy_bits: dy })
        )
    );
    assert_eq!(
        seat.seat_event(SeatInput::Button { time: 2, button: 0x110, state: 1 }),
        SeatOutcome::Deliver(Position::Right, Event::Pointer(PointerEvent::Button { time: 2, button: 0x110, state: 1 }))
    );
}
