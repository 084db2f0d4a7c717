use removestaller::backends::snap::{
    canonical_first, is_canonical_entry, parse_snap_desktop, snap_apps, versions_from_snap_list,
};

#[test]
fn parses_snap_desktop() {
    let content = "[Desktop Entry]\nX-SnapInstanceName=snap-store\nType=Application\n\
                   Name=App Center\nIcon=/snap/snap-store/current/meta/gui/icon.png\n";
    let (snap, name, icon) = parse_snap_desktop(content).unwrap();
    assert_eq!(snap, "snap-store");
    assert_eq!(name, "App Center");
    assert_eq!(
        icon.as_deref(),
        Some("/snap/snap-store/current/meta/gui/icon.png")
    );
}

#[test]
fn skips_hidden_snap_entries() {
    let content = "[Desktop Entry]\nX-SnapInstanceName=prompting-client\nType=Application\n\
                   NoDisplay=true\nName=Prompting Client\n";
    assert!(parse_snap_desktop(content).is_none());
}

#[test]
fn snap_desktop_needs_instance_name() {
    let content = "[Desktop Entry]\nType=Application\nName=Plain\n";
    assert!(parse_snap_desktop(content).is_none());
}

#[test]
fn parses_snap_list() {
    let out = "Name      Version   Rev    Tracking       Publisher   Notes\n\
               core22    20240111  1122   latest/stable  canonical✓  base\n\
               firefox   126.0-2   4336   latest/stable  mozilla✓    -\n\
               broken\n";
    let versions = versions_from_snap_list(out);
    assert_eq!(versions.get("core22").unwrap(), "20240111");
    assert_eq!(versions.get("firefox").unwrap(), "126.0-2");
    assert!(versions.get("Name").is_none());
    assert!(versions.get("broken").is_none());
}

#[test]
fn recognizes_canonical_entries() {
    assert!(is_canonical_entry(
        "/var/lib/snapd/desktop/applications/firefox_firefox.desktop",
        "firefox"
    ));
    assert!(!is_canonical_entry(
        "/var/lib/snapd/desktop/applications/firefox_geckodriver.desktop",
        "firefox"
    ));
    assert!(!is_canonical_entry("/x/firefox.desktop", "firefox"));
}

#[test]
fn canonical_entries_come_first() {
    let entries = vec![
        ("a".to_string(), "A helper".to_string(), None, false),
        ("b".to_string(), "B".to_string(), None, true),
        ("a".to_string(), "A".to_string(), Some("a.png".to_string()), true),
    ];
    let ordered = canonical_first(&entries);
    let names: Vec<&str> = ordered.iter().map(|e| e.1.as_str()).collect();
    assert_eq!(names, vec!["B", "A"]);
    assert_eq!(ordered[1].2.as_deref(), Some("a.png"));
}

#[test]
fn one_entry_per_snap_even_without_a_canonical_one() {
    let entries = vec![
        ("c".to_string(), "C one".to_string(), None, false),
        ("c".to_string(), "C two".to_string(), None, false),
        ("d".to_string(), "D".to_string(), None, false),
    ];
    let kept: Vec<String> = canonical_first(&entries).into_iter().map(|e| e.1).collect();
    assert_eq!(kept, vec!["C one".to_string(), "D".to_string()]);
}

#[test]
fn snap_apps_are_deduplicated_and_sorted() {
    let out = "Name Version\nzoom 6.0\nalpha 1.0\nbase 2\n";
    let versions = versions_from_snap_list(out);
    let entries = vec![
        ("zoom".to_string(), "Zoom".to_string(), None),
        ("alpha".to_string(), String::new(), Some("/snap/alpha/icon.png".to_string())),
        ("zoom".to_string(), "Zoom Helper".to_string(), None),
        ("unlisted".to_string(), "Unlisted".to_string(), None),
    ];
    let apps = snap_apps(&entries, &versions);
    assert_eq!(apps.len(), 2);
    assert_eq!(apps[0].id, "alpha");
    assert_eq!(apps[0].name, "alpha");
    assert_eq!(apps[0].version.as_deref(), Some("1.0"));
    assert_eq!(apps[0].icon.as_deref(), Some("/snap/alpha/icon.png"));
    assert_eq!(apps[1].id, "zoom");
    assert_eq!(apps[1].name, "Zoom");
    assert_eq!(apps[1].backend, "snap");
}
