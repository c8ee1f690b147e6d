use lan_mouse::clipboard::{is_concealed_clipboard, ChangeCounter, ClipboardCheck, ClipboardOutcome, ClipboardWatch};

#[test]
fn concealed_pasteboards_are_detected() {
    assert!(is_concealed_clipboard(&["public.utf8-plain-text".into(), "org.nspasteboard.ConcealedType".into()]));
    assert!(!is_concealed_clipboard(&["public.utf8-plain-text".into()]));
    assert!(!is_concealed_clipboard(&[]));
}

#[test]
fn a_changed_text_is_decided_on_once() {
    let mut w = ClipboardWatch::new();
    assert_eq!(w.check("secret", false), ClipboardCheck::Changed);
    assert_eq!(w.settle("secret".into(), false, true), ClipboardOutcome::Suppressed);
    assert_eq!(w.check("secret", false), ClipboardCheck::Unchanged);
    assert_eq!(w.check("other", true), ClipboardCheck::Debounced);
    assert_eq!(w.check("other", false), ClipboardCheck::Changed);
    assert_eq!(w.settle("other".into(), true, true), ClipboardOutcome::Concealed);
    assert_eq!(w.settle("third".into(), false, false), ClipboardOutcome::Emit);
    w.update_last_content("mine".into());
    assert_eq!(w.check("mine", false), ClipboardCheck::Unchanged);
    w.disable();
    assert!(!w.is_enabled());
    w.enable();
    assert!(w.is_enabled());
}

#[test]
fn the_first_look_at_the_change_count_reports_a_change() {
    let mut c = ChangeCounter::new();
    assert!(c.advanced(5));
    assert!(!c.advanced(5));
    assert!(c.advanced(6));
}
