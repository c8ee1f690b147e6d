use lan_mouse::event::KeyboardEvent;
use lan_mouse::libei_capture::{
    pos_to_barrier, release_offset, select_barriers, to_input_events, EiCaptured, EiInput, Zone,
};
use lan_mouse::Position;

fn zone(x_offset: i32, y_offset: i32, width: u32, height: u32) -> Zone {
    Zone { x_offset, y_offset, width, height }
}

#[test]
fn barriers_run_along_each_edge() {
    let z = zone(100, 50, 1920, 1080);
    assert_eq!(pos_to_barrier(&z, Position::Left), (100, 50, 100, 1129));
    assert_eq!(pos_to_barrier(&z, Position::Right), (2020, 50, 2020, 1129));
    assert_eq!(pos_to_barrier(&z, Position::Top), (100, 50, 2019, 50));
    assert_eq!(pos_to_barrier(&z, Position::Bottom), (100, 1130, 2019, 1130));
}

#[test]
fn each_client_gets_a_barrier_on_every_zone() {
    let zones = [zone(0, 0, 1920, 1080), zone(1920, 0, 1280, 1024)];
    let clients = [(7u64, Position::Left), (9u64, Position::Top)];
    let mut next_id = 3u32;
    let (barriers, owners) = select_barriers(&zones, &clients, &mut next_id);
    assert_eq!(next_id, 7);
    assert_eq!(
        barriers,
        vec![
            (3, (0, 0, 0, 1079)),
            (4, (1920, 0, 1920, 1023)),
            (5, (0, 0, 1919, 0)),
            (6, (1920, 0, 3199, 0)),
        ]
    );
    assert_eq!(owners.len(), 4);
    assert_eq!(owners[&3], 7);
    assert_eq!(owners[&4], 7);
    assert_eq!(owners[&5], 9);
    assert_eq!(owners[&6], 9);
}

#[test]
fn no_clients_place_no_barriers() {
    let zones = [zone(0, 0, 800, 600)];
    let mut next_id = 11u32;
    let (barriers, owners) = select_barriers(&zones, &[], &mut next_id);
    assert!(barriers.is_empty());
    assert!(owners.is_empty());
    assert_eq!(next_id, 11);
}

#[test]
fn keys_buttons_and_modifiers_pass_through() {
    assert_eq!(
        to_input_events(EiInput::KeyboardKey { time: 0x1_0000_0005, key: 30, pressed: true }),
        vec![EiCaptured::Keyboard(KeyboardEvent::Key { time: 5, key: 30, state: 1 })]
    );
    assert_eq!(
        to_input_events(EiInput::Button { time: 9, button: 0x110, pressed: false }),
        vec![EiCaptured::Button { time: 9, button: 0x110, state: 0 }]
    );
    assert_eq!(
        to_input_events(EiInput::KeyboardModifiers { depressed: 1, latched: 0, locked: 2, group: 0 }),
        vec![EiCaptured::Keyboard(KeyboardEvent::Modifiers { depressed: 1, latched: 0, locked: 2, group: 0 })]
    );
    assert_eq!(to_input_events(EiInput::PointerMotion { time: 12 }), vec![EiCaptured::Motion { time: 12 }]);
    assert!(to_input_events(EiInput::Other).is_empty());
}

#[test]
fn scrolling_gives_vertical_before_horizontal() {
    assert_eq!(
        to_input_events(EiInput::ScrollDiscrete { discrete_dx: -120, discrete_dy: 240 }),
        vec![
            EiCaptured::AxisDiscrete120 { axis: 0, value: 240 },
            EiCaptured::AxisDiscrete120 { axis: 1, value: -120 },
        ]
    );
    assert_eq!(
        to_input_events(EiInput::ScrollDiscrete { discrete_dx: 120, discrete_dy: 0 }),
        vec![EiCaptured::AxisDiscrete120 { axis: 1, value: 120 }]
    );
    assert!(to_input_events(EiInput::ScrollDiscrete { discrete_dx: 0, discrete_dy: 0 }).is_empty());
    assert_eq!(
        to_input_events(EiInput::ScrollDelta { dx_nonzero: true, dy_nonzero: true }),
        vec![EiCaptured::Axis { axis: 0 }, EiCaptured::Axis { axis: 1 }]
    );
    assert_eq!(
        to_input_events(EiInput::ScrollDelta { dx_nonzero: false, dy_nonzero: true }),
        vec![EiCaptured::Axis { axis: 0 }]
    );
}

#[test]
fn release_steps_back_into_the_desktop() {
    let active = [(1u64, Position::Left), (2u64, Position::Bottom), (1u64, Position::Right)];
    assert_eq!(release_offset(1, &active), Some((1, 0)));
    assert_eq!(release_offset(2, &active), Some((0, -1)));
    assert_eq!(release_offset(3, &active), None);
}
