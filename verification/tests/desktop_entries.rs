use lan_mouse::desktop::{
    desktop_entry_stem, extract_hosts_from_exec, parse_chrome_pwa_host, parse_desktop_entry, AppDirectory, DesktopAppMetadata,
};

#[test]
fn parses_minimal_application_entry() {
    let raw = "[Desktop Entry]\nName=Firefox\nIcon=firefox\nType=Application\n";
    let parsed = parse_desktop_entry(raw).expect("application entry");
    assert_eq!(parsed.name.as_deref(), Some("Firefox"));
    assert_eq!(parsed.icon.as_deref(), Some("firefox"));
    assert_eq!(parsed.startup_wm_class, None);
}

#[test]
fn captures_startup_wm_class() {
    let raw = "[Desktop Entry]\nName=1Password\nIcon=1password\n\
               Type=Application\nStartupWMClass=1Password\n";
    let parsed = parse_desktop_entry(raw).expect("application entry");
    assert_eq!(parsed.startup_wm_class.as_deref(), Some("1Password"));
}

#[test]
fn rejects_link_type() {
    let raw = "[Desktop Entry]\nName=Some Bookmark\nType=Link\nURL=https://x/\n";
    assert!(parse_desktop_entry(raw).is_none());
}

#[test]
fn rejects_missing_type() {
    let raw = "[Desktop Entry]\nName=Whatever\nIcon=x\n";
    assert!(parse_desktop_entry(raw).is_none());
}

#[test]
fn rejects_hidden_entry() {
    let raw = "[Desktop Entry]\nName=Hidden\nIcon=x\nType=Application\nHidden=true\n";
    assert!(parse_desktop_entry(raw).is_none());
}

#[test]
fn rejects_no_display_entry() {
    let raw = "[Desktop Entry]\nName=Helper\nIcon=x\nType=Application\nNoDisplay=true\n";
    assert!(parse_desktop_entry(raw).is_none());
}

#[test]
fn stops_at_subsequent_section_header() {
    let raw = "[Desktop Entry]\nName=Foo\nType=Application\n\
               [Desktop Action New]\nName=New Window\n";
    let parsed = parse_desktop_entry(raw).unwrap();
    assert_eq!(parsed.name.as_deref(), Some("Foo"));
}

#[test]
fn ignores_comments_and_blank_lines() {
    let raw = "# leading comment\n\n[Desktop Entry]\n# inside\nName=Foo\n\nType=Application\n";
    let parsed = parse_desktop_entry(raw).unwrap();
    assert_eq!(parsed.name.as_deref(), Some("Foo"));
}

#[test]
fn extract_hosts_handles_simple_https_url() {
    let hosts = extract_hosts_from_exec("omarchy-launch-webapp https://discord.com/channels/@me");
    assert_eq!(hosts, vec!["discord.com"]);
}

#[test]
fn extract_hosts_handles_quoted_and_multiple_urls() {
    let hosts = extract_hosts_from_exec("browser \"https://gmail.com/u/0\" https://calendar.google.com/r");
    assert_eq!(hosts, vec!["gmail.com", "calendar.google.com"]);
}

#[test]
fn extract_hosts_skips_non_url_tokens() {
    let hosts = extract_hosts_from_exec("firefox %U");
    assert!(hosts.is_empty());
}

#[test]
fn extract_hosts_strips_port_and_query() {
    let hosts = extract_hosts_from_exec("open https://example.com:8080/path?q=1#frag");
    assert_eq!(hosts, vec!["example.com"]);
}

#[test]
fn parse_chrome_pwa_host_handles_path_form() {
    assert_eq!(parse_chrome_pwa_host("chrome-discord.com__channels_@me-default"), Some("discord.com"));
}

#[test]
fn parse_chrome_pwa_host_handles_pathless_form() {
    assert_eq!(parse_chrome_pwa_host("chrome-example.com-default"), Some("example.com"));
}

#[test]
fn parse_chrome_pwa_host_handles_alt_profiles() {
    assert_eq!(parse_chrome_pwa_host("chrome-example.com__app_-profile_2"), Some("example.com"));
    assert_eq!(parse_chrome_pwa_host("chrome-example.com-profile_1"), Some("example.com"));
}

#[test]
fn parse_chrome_pwa_host_rejects_non_chrome_classes() {
    assert!(parse_chrome_pwa_host("firefox").is_none());
    assert!(parse_chrome_pwa_host("chromium").is_none());
    assert!(parse_chrome_pwa_host("chrome-mjoklplbddabcmpepnokjaffbmgbkkgg-default").is_none());
}

#[test]
fn parse_chrome_pwa_host_rejects_unknown_profile_suffix() {
    assert!(parse_chrome_pwa_host("chrome-example.com-something").is_none());
}

#[test]
fn app_directory_lookup_falls_back_to_webapp_host() {
    let mut dir = AppDirectory::new();
    dir.insert_identifier(
        "discord".to_owned(),
        DesktopAppMetadata { display_name: "Discord".into(), icon_name: Some("/path/to/discord.png".into()) },
    );
    dir.insert_webapp_host(
        "discord.com".to_owned(),
        DesktopAppMetadata { display_name: "Discord".into(), icon_name: Some("/path/to/discord.png".into()) },
    );
    assert_eq!(dir.lookup("discord").map(|m| m.display_name), Some("Discord".into()));
    assert_eq!(
        dir.lookup("chrome-discord.com__channels_@me-Default").map(|m| m.display_name),
        Some("Discord".into())
    );
    assert!(dir.lookup("chrome-unknown.com-default").is_none());
}

#[test]
fn index_entry_records_stem_wm_class_and_hosts() {
    let mut dir = AppDirectory::new();
    dir.index_entry(
        "Discord",
        "[Desktop Entry]\nName=Discord\nIcon=discord\nType=Application\nStartupWMClass=DiscordApp\n\
         Exec=webapp https://discord.com/app\n",
    );
    assert_eq!(dir.lookup("discord").map(|m| m.display_name), Some("Discord".into()));
    assert_eq!(dir.lookup("DISCORDAPP").map(|m| m.icon_name), Some(Some("discord".into())));
    assert_eq!(dir.lookup("chrome-discord.com-default").map(|m| m.display_name), Some("Discord".into()));
}

#[test]
fn index_entry_keeps_the_first_entry_and_falls_back_to_the_stem() {
    let mut dir = AppDirectory::new();
    dir.index_entry("first", "[Desktop Entry]\nName=\nType=Application\n");
    dir.index_entry("first", "[Desktop Entry]\nName=Second\nType=Application\n");
    dir.index_entry("hidden", "[Desktop Entry]\nName=Hidden\nType=Application\nHidden=true\n");
    let m = dir.lookup("first").unwrap();
    assert_eq!(m.display_name, "first");
    assert_eq!(m.icon_name, None);
    assert!(dir.lookup("hidden").is_none());
}

#[test]
fn only_desktop_files_give_a_stem() {
    assert_eq!(desktop_entry_stem("/usr/share/applications/firefox.desktop").as_deref(), Some("firefox"));
    assert_eq!(desktop_entry_stem("/usr/share/applications/org.gnome.Maps.desktop").as_deref(), Some("org.gnome.Maps"));
    assert_eq!(desktop_entry_stem("/usr/share/applications/readme.txt"), None);
    assert_eq!(desktop_entry_stem("/usr/share/applications/.desktop"), None);
}
