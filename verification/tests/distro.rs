use removestaller::backends::desktop::DesktopEntry;
use removestaller::backends::distro::{
    build_apps, is_critical, parse_dpkg_owners, versions_from_dpkg, versions_from_pacman,
    versions_from_rpm,
};
use removestaller::table::TextMap;

#[test]
fn parses_dpkg_versions() {
    let out = "3cpio\t0.14.0-1ubuntu1\nadduser\t3.153ubuntu1\n";
    let versions = versions_from_dpkg(out);
    assert_eq!(versions.get("3cpio").unwrap(), "0.14.0-1ubuntu1");
    assert_eq!(versions.get("adduser").unwrap(), "3.153ubuntu1");
}

#[test]
fn parses_rpm_versions() {
    let out = "firefox\t126.0-1.fc40\nbash\t5.2.26-3.fc40\n";
    let versions = versions_from_rpm(out);
    assert_eq!(versions.get("firefox").unwrap(), "126.0-1.fc40");
    assert_eq!(versions.get("bash").unwrap(), "5.2.26-3.fc40");
}

#[test]
fn parses_pacman_versions() {
    let out = "firefox 126.0-1\nbash 5.2.026-1\n";
    let versions = versions_from_pacman(out);
    assert_eq!(versions.get("firefox").unwrap(), "126.0-1");
    assert_eq!(versions.get("bash").unwrap(), "5.2.026-1");
}

#[test]
fn parses_dpkg_owners() {
    let out = "nautilus: /usr/share/applications/org.gnome.Nautilus.desktop\n\
               libfoo:amd64: /usr/share/applications/foo.desktop\n";
    let owners = parse_dpkg_owners(out);
    assert_eq!(
        owners
            .get("/usr/share/applications/org.gnome.Nautilus.desktop")
            .unwrap(),
        "nautilus"
    );
    assert_eq!(
        owners.get("/usr/share/applications/foo.desktop").unwrap(),
        "libfoo"
    );
}

#[test]
fn flags_critical_packages() {
    assert!(is_critical("systemd"));
    assert!(is_critical("linux-image-6.8.0-31-generic"));
    assert!(is_critical("xwayland"));
    assert!(!is_critical("firefox"));
    assert!(!is_critical("nautilus"));
}

#[test]
fn builds_apps_with_real_names_and_icons() {
    let mut versions = TextMap::new();
    versions.insert("nautilus".to_string(), "1:47.0".to_string());
    versions.insert("firefox".to_string(), "1:140.0".to_string());
    let entries = vec![
        (
            "/usr/share/applications/org.gnome.Nautilus.desktop".to_string(),
            DesktopEntry {
                name: "Files".to_string(),
                icon: Some("org.gnome.Nautilus".to_string()),
            },
        ),
        (
            "/usr/share/applications/firefox.desktop".to_string(),
            DesktopEntry {
                name: "Firefox".to_string(),
                icon: Some("firefox".to_string()),
            },
        ),
    ];
    let mut owners = TextMap::new();
    owners.insert(
        "/usr/share/applications/org.gnome.Nautilus.desktop".to_string(),
        "nautilus".to_string(),
    );
    owners.insert(
        "/usr/share/applications/firefox.desktop".to_string(),
        "firefox".to_string(),
    );

    let apps = build_apps(&versions, "apt", &entries, &owners);
    assert_eq!(apps.len(), 2);
    assert_eq!(apps[0].id, "nautilus");
    assert_eq!(apps[0].name, "Files");
    assert_eq!(apps[0].icon.as_deref(), Some("org.gnome.Nautilus"));
    assert_eq!(apps[1].id, "firefox");
    assert_eq!(apps[1].name, "Firefox");
    assert_eq!(apps[1].version.as_deref(), Some("1:140.0"));
}
