use lan_mouse::enter_bind::EnterBindTracker;
use lan_mouse::Position;

const KEY_A: u32 = 30;
const KEY_B: u32 = 48;
const KEY_LEFT_CTRL: u32 = 29;
const KEY_LEFT_SHIFT: u32 = 42;
const KEY_LEFT_ALT: u32 = 56;
const KEY_RIGHT: u32 = 106;
const KEY_UP: u32 = 103;

fn tracker(binds: &[(Position, &[u32])]) -> EnterBindTracker {
    let mut tracker = EnterBindTracker::new();
    tracker.set_binds(binds.iter().map(|(pos, keys)| (*pos, keys.to_vec())).collect());
    tracker
}

fn active(positions: &[Position]) -> Vec<Position> {
    positions.to_vec()
}

#[test]
fn fires_once_every_key_is_held() {
    let mut t = tracker(&[(Position::Right, &[KEY_LEFT_CTRL, KEY_LEFT_ALT, KEY_RIGHT])]);
    let active = active(&[Position::Right]);

    assert_eq!(t.key_event(KEY_LEFT_CTRL, true, &active), None);
    assert_eq!(t.key_event(KEY_LEFT_ALT, true, &active), None);
    assert_eq!(t.key_event(KEY_RIGHT, true, &active), Some(Position::Right), "bind completes on the last key");
}

#[test]
fn order_of_the_keys_does_not_matter() {
    let mut t = tracker(&[(Position::Top, &[KEY_LEFT_CTRL, KEY_UP])]);
    let active = active(&[Position::Top]);

    assert_eq!(t.key_event(KEY_UP, true, &active), None);
    assert_eq!(t.key_event(KEY_LEFT_CTRL, true, &active), Some(Position::Top));
}

#[test]
fn does_not_fire_on_release() {
    let mut t = tracker(&[(Position::Top, &[KEY_LEFT_CTRL, KEY_UP])]);
    let active = active(&[Position::Top]);

    t.key_event(KEY_LEFT_CTRL, true, &active);
    t.key_event(KEY_UP, true, &active);
    assert_eq!(t.key_event(KEY_UP, false, &active), None, "releasing a key must never enter a client");
}

#[test]
fn ignores_positions_without_a_client() {
    let mut t = tracker(&[(Position::Right, &[KEY_LEFT_CTRL, KEY_RIGHT])]);
    let nothing_active = active(&[]);

    t.key_event(KEY_LEFT_CTRL, true, &nothing_active);
    assert_eq!(
        t.key_event(KEY_RIGHT, true, &nothing_active),
        None,
        "a bind must not enter a position that has no client"
    );
}

#[test]
fn a_superset_of_the_bind_still_fires() {
    let mut t = tracker(&[(Position::Left, &[KEY_LEFT_CTRL])]);
    let active = active(&[Position::Left]);

    t.key_event(KEY_LEFT_SHIFT, true, &active);
    assert_eq!(t.key_event(KEY_LEFT_CTRL, true, &active), Some(Position::Left));
}

#[test]
fn unrelated_keys_do_not_fire() {
    let mut t = tracker(&[(Position::Left, &[KEY_LEFT_CTRL, KEY_A])]);
    let active = active(&[Position::Left]);

    assert_eq!(t.key_event(KEY_B, true, &active), None);
    assert_eq!(t.key_event(KEY_LEFT_CTRL, true, &active), None);
}

#[test]
fn clear_prevents_a_held_bind_from_retriggering() {
    let mut t = tracker(&[(Position::Top, &[KEY_LEFT_CTRL, KEY_UP])]);
    let active = active(&[Position::Top]);

    t.key_event(KEY_LEFT_CTRL, true, &active);
    assert_eq!(t.key_event(KEY_UP, true, &active), Some(Position::Top));

    t.clear();
    assert_eq!(t.key_event(KEY_UP, true, &active), None, "the whole bind has to be pressed again");
    t.key_event(KEY_LEFT_CTRL, true, &active);
    assert_eq!(t.key_event(KEY_UP, false, &active), None, "and it still may not fire on release");
}

#[test]
fn keys_released_out_of_sight_do_not_stay_held() {
    let mut t = tracker(&[(Position::Top, &[KEY_LEFT_CTRL, KEY_UP])]);
    let active = active(&[Position::Top]);

    t.key_event(KEY_LEFT_CTRL, true, &active);
    t.clear();

    assert_eq!(t.key_event(KEY_UP, true, &active), None, "ctrl is not actually held anymore");
}

#[test]
fn empty_bind_never_fires() {
    let mut t = tracker(&[(Position::Left, &[])]);
    let active = active(&[Position::Left]);
    assert_eq!(t.key_event(KEY_A, true, &active), None);
}

#[test]
fn setting_binds_forgets_held_keys() {
    let mut t = tracker(&[(Position::Left, &[KEY_LEFT_CTRL, KEY_A])]);
    let active = active(&[Position::Left, Position::Right]);
    t.key_event(KEY_LEFT_CTRL, true, &active);

    t.set_binds(vec![(Position::Right, vec![KEY_LEFT_CTRL, KEY_RIGHT])]);
    assert_eq!(t.key_event(KEY_RIGHT, true, &active), None, "ctrl was held before the new bind existed");
}

#[test]
fn later_binds_for_a_position_replace_earlier_ones() {
    let mut t = tracker(&[(Position::Left, &[KEY_A]), (Position::Left, &[KEY_B])]);
    let active = active(&[Position::Left]);
    assert!(!t.is_empty());
    assert_eq!(t.key_event(KEY_A, true, &active), None);
    assert_eq!(t.key_event(KEY_B, true, &active), Some(Position::Left));
}

#[test]
fn a_tracker_without_binds_is_empty() {
    let mut t = EnterBindTracker::new();
    assert!(t.is_empty());
    t.set_binds(vec![(Position::Bottom, vec![])]);
    assert!(!t.is_empty());
}
