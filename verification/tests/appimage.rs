use removestaller::backends::appimage::{
    app_from_path, appimage_dirs, appimages_from, has_appimage_extension, is_appimage,
};

#[test]
fn detects_appimage_extension() {
    assert!(has_appimage_extension("Foo.AppImage"));
    assert!(has_appimage_extension("Foo.appimage"));
    assert!(!has_appimage_extension("Foo.png"));
}

#[test]
fn builds_app_from_path() {
    let app = app_from_path("/home/user/Applications/MyTool.AppImage").unwrap();
    assert_eq!(app.id, "/home/user/Applications/MyTool.AppImage");
    assert_eq!(app.name, "MyTool");
    assert_eq!(app.backend, "appimage");
}

#[test]
fn appimage_needs_a_regular_file() {
    assert!(is_appimage("/tmp/Tool.AppImage", true));
    assert!(!is_appimage("/tmp/Tool.AppImage", false));
    assert!(!is_appimage("/tmp/Tool.tar.gz", true));
}

#[test]
fn hidden_file_has_no_extension() {
    assert!(!has_appimage_extension("/home/user/.AppImage"));
    assert!(!has_appimage_extension("/home/user/Tool.AppImage/.."));
    assert!(has_appimage_extension("/home/user/Tool.APPIMAGE/."));
}

#[test]
fn app_from_path_without_file_name() {
    assert!(app_from_path("/").is_none());
    assert!(app_from_path("..").is_none());
    let app = app_from_path("Tool.v2.AppImage").unwrap();
    assert_eq!(app.name, "Tool.v2");
    assert_eq!(app.version, None);
    assert_eq!(app.icon, None);
}

#[test]
fn scanned_appimages_are_sorted_by_name() {
    let files = vec![
        ("/h/Downloads/zeta.AppImage".to_string(), true),
        ("/h/Applications/Alpha.AppImage".to_string(), true),
        ("/h/bin/notes.txt".to_string(), true),
        ("/h/bin/dir.AppImage".to_string(), false),
        ("/h/Desktop/beta.appimage".to_string(), true),
    ];
    let apps = appimages_from(&files);
    let names: Vec<&str> = apps.iter().map(|a| a.name.as_str()).collect();
    assert_eq!(names, vec!["Alpha", "beta", "zeta"]);
    assert_eq!(apps[0].id, "/h/Applications/Alpha.AppImage");
}

#[test]
fn searched_folders() {
    assert_eq!(
        appimage_dirs(),
        vec!["Applications", ".local/bin", "bin", "Desktop", "Downloads"]
    );
}
