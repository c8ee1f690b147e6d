use lan_mouse::capture::{
    request_macos_capture_permissions, Backend, MacosCaptureCreationError, PositionSet, X11InputCaptureCreationError,
};
use lan_mouse::emulation::{mac_key_action, mac_key_action_for, MacKeyAction, XMods};
use lan_mouse::text::{parse_uint, push_decimal, split_whitespace, str_eq};
use lan_mouse::Position;

#[test]
fn words_are_split_on_unicode_whitespace() {
    assert_eq!(split_whitespace("  a\tbc \u{3000}d\n"), vec!["a", "bc", "d"]);
    assert!(split_whitespace(" \t ").is_empty());
}

#[test]
fn unsigned_integers_parse_like_str_parse() {
    assert_eq!(parse_uint("42", u64::MAX), Some(42));
    assert_eq!(parse_uint("+42", u64::MAX), Some(42));
    assert_eq!(parse_uint("007", 10), Some(7));
    assert_eq!(parse_uint("11", 10), None);
    assert_eq!(parse_uint("", 10), None);
    assert_eq!(parse_uint("+", 10), None);
    assert_eq!(parse_uint("-1", 10), None);
    assert_eq!(parse_uint("1a", 10), None);
    assert_eq!(parse_uint("65536", 65535), None);
}

#[test]
fn decimal_text_and_equality() {
    let mut s = String::from("n=");
    push_decimal(&mut s, 1_234_567);
    assert_eq!(s, "n=1234567");
    let mut z = String::new();
    push_decimal(&mut z, 0);
    assert_eq!(z, "0");
    assert!(str_eq("abc", "abc"));
    assert!(!str_eq("abc", "abd"));
}

#[test]
fn position_opposites_and_sets() {
    assert_eq!(Position::Left.opposite(), Position::Right);
    assert_eq!(Position::Bottom.opposite(), Position::Top);
    let mut s = PositionSet::empty();
    assert!(s.insert(Position::Top));
    assert!(!s.insert(Position::Top));
    assert!(s.contains(Position::Top));
    assert!(s.remove(Position::Top));
    assert!(!s.contains(Position::Top));
}

#[test]
fn capture_backends_and_errors() {
    assert_eq!(Backend::InputCapturePortal.name(), "input-capture-portal");
    assert_eq!(Backend::LayerShell.name(), "layer-shell");
    assert_eq!(Backend::MacOs.name(), "MacOS");
    assert_eq!(X11InputCaptureCreationError::NotImplemented.message(), "X11 input capture is not yet implemented :(");
    assert_eq!(
        request_macos_capture_permissions(false, true),
        Err(MacosCaptureCreationError::AccessibilityPermission)
    );
    assert_eq!(
        request_macos_capture_permissions(true, false),
        Err(MacosCaptureCreationError::InputMonitoringPermission)
    );
    assert_eq!(request_macos_capture_permissions(true, true), Ok(()));
}

#[test]
fn mac_key_actions() {
    let mut mods = XMods::empty();
    // left shift: evdev 42 is Mac 0x38
    assert_eq!(
        mac_key_action(&mut mods, 42, 1),
        Some(MacKeyAction::Modifier { code: 0x38, flags: 0x0002_0000 | 0x100 | 0x02 })
    );
    assert_eq!(mods.bits, 0x01);
    // the A key: evdev 30 is Mac 0x00
    assert_eq!(mac_key_action(&mut mods, 30, 1), Some(MacKeyAction::StartRepeat { code: 0 }));
    assert_eq!(mac_key_action(&mut mods, 30, 0), Some(MacKeyAction::StopRepeat { code: 0 }));
    assert_eq!(mods.bits, 0x01);
}

#[test]
fn mac_key_actions_follow_the_given_code() {
    let mut mods = XMods::empty();
    assert_eq!(mac_key_action_for(&mut mods, 30, 1, Some(9)), Some(MacKeyAction::StartRepeat { code: 9 }));
    assert_eq!(mac_key_action_for(&mut mods, 42, 1, None), None);
    assert_eq!(mods.bits, 0);
    assert_eq!(
        mac_key_action_for(&mut mods, 42, 1, Some(0x38)),
        Some(MacKeyAction::Modifier { code: 0x38, flags: 0x0002_0000 | 0x100 | 0x02 })
    );
}

#[test]
fn position_names_read_back_as_positions() {
    for p in [Position::Left, Position::Right, Position::Top, Position::Bottom] {
        assert_eq!(lan_mouse::cli::parse_position(p.name()), Some(p));
    }
    assert_eq!(Position::Top.name(), "top");
}
