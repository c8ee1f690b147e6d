use lan_mouse::desktop::{AppDirectory, DesktopAppMetadata};
use lan_mouse::frontmost::{
    build_running_app, collect_app_ids, find_focused_app_id, hyprland_active_class, hyprland_client_classes,
    is_wayland, linux_app_ident, metadata_found, running_apps, wm_class, AppIdent, HyprClient, IconCache, SwayNode,
};

fn node(focused: bool, app_id: Option<&str>, class: Option<&str>, nodes: Vec<SwayNode>) -> SwayNode {
    SwayNode {
        focused,
        app_id: app_id.map(String::from),
        class: class.map(String::from),
        nodes,
        floating_nodes: Vec::new(),
    }
}

fn tree() -> SwayNode {
    let mut workspace = node(false, None, None, vec![node(false, Some("foot"), None, vec![])]);
    workspace.floating_nodes = vec![node(true, Some(""), Some("Gimp"), vec![])];
    node(false, None, None, vec![workspace, node(false, Some("firefox"), Some("Firefox"), vec![])])
}

#[test]
fn the_focused_node_is_found_depth_first() {
    assert_eq!(find_focused_app_id(&tree()).as_deref(), Some("Gimp"));
    assert_eq!(find_focused_app_id(&node(true, Some("kitty"), Some("K"), vec![])).as_deref(), Some("kitty"));
    assert_eq!(find_focused_app_id(&node(false, Some("kitty"), None, vec![])), None);
}

#[test]
fn every_identifier_is_collected_in_tree_order() {
    let mut acc = vec!["seed".to_string()];
    collect_app_ids(&tree(), &mut acc);
    assert_eq!(acc, vec!["seed", "foot", "Gimp", "firefox", "Firefox"]);
}

#[test]
fn hyprland_prefers_the_initial_class() {
    let c = HyprClient { initial_class: Some("  Alacritty ".into()), class: Some("other".into()) };
    assert_eq!(hyprland_active_class(&c).as_deref(), Some("Alacritty"));
    let blank = HyprClient { initial_class: Some("   ".into()), class: Some("other".into()) };
    assert_eq!(hyprland_active_class(&blank), None);
    let fallback = HyprClient { initial_class: None, class: Some("code".into()) };
    assert_eq!(hyprland_active_class(&fallback).as_deref(), Some("code"));
    let none = HyprClient { initial_class: None, class: None };
    assert_eq!(hyprland_client_classes(&[c, none, fallback]), vec!["  Alacritty ".to_string(), "code".to_string()]);
}

#[test]
fn wm_class_prefers_the_class_over_the_instance() {
    assert_eq!(wm_class(b"navigator\0Firefox\0"), Some(b"Firefox".to_vec()));
    assert_eq!(wm_class(b"\0\0only\0"), Some(b"only".to_vec()));
    assert_eq!(wm_class(b"\0\0"), None);
    assert_eq!(wm_class(b"a\0\0b\0c"), Some(b"b".to_vec()));
}

#[test]
fn wayland_sessions_are_told_by_wayland_display() {
    assert!(is_wayland(Some("wayland-1")));
    assert!(!is_wayland(Some("")));
    assert!(!is_wayland(None));
}

#[test]
fn running_apps_take_installed_metadata() {
    let mut dir = AppDirectory::new();
    dir.insert_identifier(
        "firefox".into(),
        DesktopAppMetadata { display_name: "Firefox".into(), icon_name: Some("firefox".into()) },
    );
    let known = build_running_app(&dir, "Firefox");
    assert_eq!(known.display_name, "Firefox");
    assert_eq!(known.identifier, "firefox");
    assert_eq!(known.icon_name.as_deref(), Some("firefox"));
    let unknown = build_running_app(&dir, "XTerm");
    assert_eq!(unknown.display_name, "XTerm");
    assert_eq!(unknown.identifier, "xterm");
    assert_eq!(unknown.icon_name, None);
    assert!(!metadata_found("XTerm", "xterm", false));
    assert!(metadata_found("XTerm", "xterm", true));
    assert!(metadata_found("1Password", "com.1password", false));
}

#[test]
fn icons_are_cached_by_bundle() {
    let mut cache = IconCache::new();
    assert_eq!(cache.cached_icon("com.a"), None);
    cache.store_icon("com.a".into(), Some(vec![1, 2, 3]));
    cache.store_icon("com.b".into(), None);
    assert_eq!(cache.cached_icon("com.a"), Some(Some(vec![1, 2, 3])));
    assert_eq!(cache.cached_icon("com.b"), Some(None));
}


#[test]
fn the_frontmost_class_is_lowercased_and_tagged() {
    assert_eq!(linux_app_ident(true, "Firefox"), AppIdent::LinuxWayland("firefox".into()));
    assert_eq!(linux_app_ident(false, "XTerm"), AppIdent::LinuxX11("xterm".into()));
}

#[test]
fn running_apps_are_distinct_and_sorted_by_display_name() {
    let mut dir = AppDirectory::new();
    dir.insert_identifier(
        "org.gnome.nautilus".into(),
        DesktopAppMetadata { display_name: "Files".into(), icon_name: Some("nautilus".into()) },
    );
    let idents = vec!["zed".to_string(), "org.gnome.Nautilus".into(), "alacritty".into(), "zed".into(), "Beta".into()];
    let apps = running_apps(&dir, idents);
    let names: Vec<&str> = apps.iter().map(|a| a.display_name.as_str()).collect();
    assert_eq!(names, vec!["alacritty", "Beta", "Files", "zed"]);
    let ids: Vec<&str> = apps.iter().map(|a| a.identifier.as_str()).collect();
    assert_eq!(ids, vec!["alacritty", "beta", "org.gnome.nautilus", "zed"]);
    assert_eq!(apps[2].icon_name.as_deref(), Some("nautilus"));
    // equal names ignoring case keep the ascending order of their identifiers
    let apps = running_apps(&AppDirectory::new(), vec!["abc".into(), "ABC".into()]);
    let names: Vec<&str> = apps.iter().map(|a| a.display_name.as_str()).collect();
    assert_eq!(names, vec!["ABC", "abc"]);
}
