use removestaller::backends::desktop::{application_dirs, is_visible_app, parse_entry};

#[test]
fn detects_visible_apps() {
    let app = "[Desktop Entry]\nType=Application\nName=Foo\n";
    assert!(is_visible_app(app));

    let no_display = "[Desktop Entry]\nType=Application\nNoDisplay=true\n";
    assert!(!is_visible_app(no_display));

    let hidden = "[Desktop Entry]\nType=Application\nHidden=true\n";
    assert!(!is_visible_app(hidden));

    let link = "[Desktop Entry]\nType=Link\n";
    assert!(!is_visible_app(link));
}

#[test]
fn parses_name_and_icon() {
    let content = "[Desktop Entry]\nType=Application\nName=Firefox\nIcon=firefox\n";
    let entry = parse_entry(content).unwrap();
    assert_eq!(entry.name, "Firefox");
    assert_eq!(entry.icon.as_deref(), Some("firefox"));
}

#[test]
fn prefers_unlocalized_name_and_icon() {
    let content = "[Desktop Entry]\nType=Application\nName=Files\nName[fr]=Fichiers\nIcon=org.gnome.Nautilus\n";
    let entry = parse_entry(content).unwrap();
    assert_eq!(entry.name, "Files");
    assert_eq!(entry.icon.as_deref(), Some("org.gnome.Nautilus"));
}

#[test]
fn rejects_invisible_entries() {
    let no_display = "[Desktop Entry]\nType=Application\nName=X\nNoDisplay=true\n";
    assert!(parse_entry(no_display).is_none());
}

#[test]
fn empty_name_when_absent() {
    let entry = parse_entry("[Desktop Entry]\nType=Application\n").unwrap();
    assert_eq!(entry.name, "");
    assert_eq!(entry.icon, None);
}

fn some(s: &str) -> Option<String> {
    Some(s.to_string())
}

#[test]
fn application_folders_follow_xdg() {
    assert_eq!(
        application_dirs(some("/home/u"), None, None),
        vec![
            "/home/u/.local/share/applications",
            "/usr/local/share/applications",
            "/usr/share/applications",
        ]
    );
    assert_eq!(
        application_dirs(
            some("/home/u"),
            some("/data/"),
            Some(vec!["/opt/share".to_string(), "relative".to_string(), "/x/".to_string()]),
        ),
        vec!["/data/applications", "/opt/share/applications", "/x/applications"]
    );
    assert_eq!(
        application_dirs(some("/home/u"), some("not/absolute"), Some(vec![String::new()])),
        vec!["/home/u/.local/share/applications"]
    );
    assert_eq!(
        application_dirs(None, some("/data"), None),
        vec!["/usr/local/share/applications", "/usr/share/applications"]
    );
}
