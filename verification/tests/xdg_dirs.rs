use lan_mouse::xdg_dirs::{icon_candidates, icon_search_dirs, split_colon_list, standard_app_dirs};

#[test]
fn colon_lists_drop_empty_parts() {
    assert_eq!(split_colon_list("/a::/b:"), vec!["/a".to_string(), "/b".to_string()]);
    assert!(split_colon_list(":::").is_empty());
}

#[test]
fn app_dirs_default_to_home_and_the_system_share() {
    assert_eq!(
        standard_app_dirs(None, Some("/home/u"), None),
        vec![
            "/home/u/.local/share/applications",
            "/usr/local/share/applications",
            "/usr/share/applications",
            "/home/u/.local/share/flatpak/exports/share/applications",
            "/var/lib/flatpak/exports/share/applications",
        ]
    );
}

#[test]
fn app_dirs_follow_the_xdg_variables() {
    assert_eq!(
        standard_app_dirs(Some("/data"), Some("/home/u"), Some("/a::/b/")),
        vec![
            "/data/applications",
            "/a/applications",
            "/b/applications",
            "/home/u/.local/share/flatpak/exports/share/applications",
            "/var/lib/flatpak/exports/share/applications",
        ]
    );
    // an empty XDG_DATA_HOME counts as unset, and so does an empty XDG_DATA_DIRS
    assert_eq!(
        standard_app_dirs(Some(""), None, Some("")),
        vec![
            "/usr/local/share/applications",
            "/usr/share/applications",
            "/var/lib/flatpak/exports/share/applications",
        ]
    );
}

#[test]
fn icon_dirs_are_the_hicolor_themes() {
    assert_eq!(
        icon_search_dirs(None, Some("/home/u"), Some("/opt/share")),
        vec!["/home/u/.local/share/icons/hicolor", "/opt/share/icons/hicolor"]
    );
}

#[test]
fn icon_candidates_prefer_picker_sizes_then_svg_then_pixmaps() {
    let dirs = vec!["/t".to_string()];
    assert_eq!(
        icon_candidates("firefox", &dirs),
        vec![
            "/t/128x128/apps/firefox.png",
            "/t/256x256/apps/firefox.png",
            "/t/64x64/apps/firefox.png",
            "/t/96x96/apps/firefox.png",
            "/t/192x192/apps/firefox.png",
            "/t/48x48/apps/firefox.png",
            "/t/32x32/apps/firefox.png",
            "/t/scalable/apps/firefox.svg",
            "/usr/share/pixmaps/firefox.png",
            "/usr/share/pixmaps/firefox.svg",
        ]
    );
}

#[test]
fn absolute_and_empty_icon_names() {
    let dirs = vec!["/t".to_string()];
    assert_eq!(icon_candidates("/opt/app/icon.png", &dirs), vec!["/opt/app/icon.png"]);
    assert!(icon_candidates("", &dirs).is_empty());
}
