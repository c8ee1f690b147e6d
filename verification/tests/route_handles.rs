use std::collections::HashSet;

use lan_mouse::capture::{route_handles, CaptureEventKind};

#[test]
fn emulated_begin_is_routed_only_to_enter_only_handles() {
    let enter_only = HashSet::from([2]);
    assert_eq!(route_handles(&[1, 2], &enter_only, CaptureEventKind::Begin, true), vec![2]);
}

#[test]
fn physical_begin_is_routed_to_all_handles() {
    let enter_only = HashSet::from([2]);
    assert_eq!(route_handles(&[1, 2], &enter_only, CaptureEventKind::Begin, false), vec![1, 2]);
}

#[test]
fn input_events_go_to_every_handle() {
    let enter_only = HashSet::from([2]);
    assert_eq!(route_handles(&[3, 1, 2], &enter_only, CaptureEventKind::Input, true), vec![3, 1, 2]);
}
