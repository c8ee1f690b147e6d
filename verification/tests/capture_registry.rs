use lan_mouse::capture::CaptureEventKind;
use lan_mouse::registry::{CaptureRegistry, DeliveryQueue};
use lan_mouse::Position;

#[test]
fn the_first_handle_at_a_position_creates_its_barrier() {
    let mut reg = CaptureRegistry::new();
    assert!(reg.add_handle(7, Position::Left));
    assert!(!reg.add_handle(8, Position::Left));
    assert!(reg.add_handle(9, Position::Top));
    assert_eq!(reg.handles_at(Position::Left), vec![7, 8]);
    assert_eq!(reg.handles_at(Position::Top), vec![9]);
    assert!(reg.handles_at(Position::Right).is_empty());
}

#[test]
fn the_last_handle_at_a_position_destroys_its_barrier() {
    let mut reg = CaptureRegistry::new();
    reg.add_handle(7, Position::Left);
    reg.add_handle(8, Position::Left);
    assert_eq!(reg.take_handle(7), (Position::Left, false));
    assert!(!reg.drop_from_position(7, Position::Left));
    assert_eq!(reg.handles_at(Position::Left), vec![8]);
    assert_eq!(reg.take_handle(8), (Position::Left, false));
    assert!(reg.drop_from_position(8, Position::Left));
    assert!(reg.handles_at(Position::Left).is_empty());
}

#[test]
fn enter_only_marks_follow_the_count_of_enter_only_handles() {
    let mut reg = CaptureRegistry::new();
    reg.add_handle(1, Position::Right);
    assert!(reg.add_enter_only(1, Position::Right));
    reg.add_handle(2, Position::Right);
    assert!(!reg.add_enter_only(2, Position::Right));
    assert!(reg.enter_only_handles().contains(&1));
    assert_eq!(reg.take_handle(1), (Position::Right, false));
    reg.drop_from_position(1, Position::Right);
    assert_eq!(reg.take_handle(2), (Position::Right, true));
    assert!(reg.drop_from_position(2, Position::Right));
    assert!(reg.enter_only_handles().is_empty());
}

#[test]
fn unroutable_event_does_not_stall_the_next_ready_event() {
    // handle 7 sits at the left edge and is no enter-only handle; the
    // backend yields a Begin that must go to enter-only handles, then a
    // plain Begin
    let mut registry = CaptureRegistry::new();
    registry.add_handle(7, Position::Left);
    let mut queue: DeliveryQueue<CaptureEventKind> = DeliveryQueue::new();
    assert_eq!(queue.take_pending(), None);
    let events = [(Position::Left, CaptureEventKind::Begin, true), (Position::Left, CaptureEventKind::Begin, false)];
    let mut delivered = None;
    for (pos, event, requires_enter_only) in events {
        let handles = registry.route(pos, event, requires_enter_only);
        if let Some(d) = queue.deliver(&handles, event) {
            delivered = Some(d);
            break;
        }
    }
    assert_eq!(delivered, Some((7, CaptureEventKind::Begin)));
}

#[test]
fn an_event_for_several_handles_is_handed_out_in_turn() {
    let mut registry = CaptureRegistry::new();
    registry.add_handle(1, Position::Top);
    registry.add_handle(2, Position::Top);
    registry.add_handle(3, Position::Top);
    let mut queue: DeliveryQueue<CaptureEventKind> = DeliveryQueue::new();
    let handles = registry.route(Position::Top, CaptureEventKind::Input, false);
    assert_eq!(handles, vec![1, 2, 3]);
    assert_eq!(queue.deliver(&handles, CaptureEventKind::Input), Some((1, CaptureEventKind::Input)));
    assert_eq!(queue.take_pending(), Some((2, CaptureEventKind::Input)));
    assert_eq!(queue.take_pending(), Some((3, CaptureEventKind::Input)));
    assert_eq!(queue.take_pending(), None);
    assert!(registry.route(Position::Bottom, CaptureEventKind::Input, false).is_empty());
}
