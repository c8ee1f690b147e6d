use lan_mouse::privacy::{
    accessibility_change, bundle_path, fire_initial_prompts, invalid_bundle_path, AccessibilityChange, InitialPrompts,
    PromptGuard, ACCESSIBILITY_SETTINGS_URL,
};

#[test]
fn resolves_only_expected_bundle_layout() {
    let executable = "/Applications/Lan Mouse.app/Contents/MacOS/lan-mouse";
    assert_eq!(bundle_path(executable).unwrap(), "/Applications/Lan Mouse.app");
    assert!(bundle_path("/usr/local/bin/lan-mouse").is_err());
    assert!(bundle_path("/Applications/Lan Mouse.app/Resources/MacOS/lan-mouse").is_err());
    assert!(bundle_path("/Applications/Lan Mouse/Contents/MacOS/lan-mouse").is_err());
}

#[test]
fn invalid_bundle_path_explains_the_expected_layout() {
    assert_eq!(invalid_bundle_path().message(), "executable is not inside <bundle>.app/Contents/MacOS");
    assert_eq!(bundle_path("lan-mouse"), Err(invalid_bundle_path()));
}

#[test]
fn accessibility_flips_are_reported_once() {
    assert_eq!(accessibility_change(false, true), Some(AccessibilityChange::Granted));
    assert_eq!(accessibility_change(true, false), Some(AccessibilityChange::Revoked));
    assert_eq!(accessibility_change(true, true), None);
    assert_eq!(accessibility_change(false, false), None);
}

#[test]
fn initial_prompts_fire_once_per_process() {
    let mut guard = PromptGuard::new();
    assert_eq!(fire_initial_prompts(&mut guard, false), Some(InitialPrompts::Accessibility));
    assert_eq!(fire_initial_prompts(&mut guard, true), None);
    let mut guard = PromptGuard::new();
    assert_eq!(fire_initial_prompts(&mut guard, true), Some(InitialPrompts::ListenAndPost));
    assert!(ACCESSIBILITY_SETTINGS_URL.ends_with("Privacy_Accessibility"));
}
