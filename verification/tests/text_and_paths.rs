use removestaller::backends::desktop::{is_desktop_file, is_visible_app, parse_entry};
use removestaller::backends::distro::{dpkg_owner_args, parse_dpkg_owners, versions_from_dpkg};
use removestaller::backends::flatpak::parse_flatpak_list;
use removestaller::model::App;
use removestaller::path::{is_absolute_path, join_path, path_extension, path_file_stem};
use removestaller::sort::stable_sort;
use removestaller::table::TextMap;

#[test]
fn later_insert_wins() {
    let mut m = TextMap::new();
    m.insert("k".to_string(), "1".to_string());
    m.insert("j".to_string(), "2".to_string());
    m.insert("k".to_string(), "3".to_string());
    assert_eq!(m.get("k").unwrap(), "3");
    assert_eq!(m.get("j").unwrap(), "2");
    assert!(m.get("x").is_none());
    assert!(m.contains_key("j"));
    assert!(!m.contains_key("x"));
}

#[test]
fn versions_handle_crlf_and_repeats() {
    let out = "a\t1\r\n\tnoname\nplain\na\t2\tx\n";
    let versions = versions_from_dpkg(out);
    assert_eq!(versions.get("a").unwrap(), "2\tx");
    assert!(versions.get("").is_none());
    assert!(versions.get("plain").is_none());
}

#[test]
fn dpkg_owner_lines_without_separator_are_skipped() {
    let owners = parse_dpkg_owners("dpkg-query: no path found matching pattern x\nfoo, bar: /p/x.desktop  \n");
    assert_eq!(owners.get("no path found matching pattern x").unwrap(), "dpkg-query");
    assert_eq!(owners.get("/p/x.desktop").unwrap(), "foo, bar");
}

#[test]
fn dpkg_query_arguments() {
    assert!(dpkg_owner_args(&Vec::new()).is_none());
    let args = dpkg_owner_args(&vec!["/a.desktop".to_string(), "/b.desktop".to_string()]).unwrap();
    assert_eq!(args, vec!["-S", "/a.desktop", "/b.desktop"]);
}

#[test]
fn desktop_files_by_extension() {
    assert!(is_desktop_file("/usr/share/applications/org.gnome.Nautilus.desktop"));
    assert!(!is_desktop_file("/usr/share/applications/readme.DESKTOP"));
    assert!(!is_desktop_file("/usr/share/applications/.desktop"));
}

#[test]
fn visibility_respects_groups_and_case() {
    assert!(is_visible_app("[Desktop Action x]\nNoDisplay=true\n[Desktop Entry]\nType=application\n"));
    assert!(!is_visible_app("[Desktop Entry]\n  NoDisplay = TRUE  \n"));
    assert!(is_visible_app("[Desktop Entry]\nNoDisplay=false\n"));
    assert!(is_visible_app(""));
    assert!(!is_visible_app("[Desktop Entry]\nType=Link\n[Other]\nType=Application\n"));
}

#[test]
fn entry_values_come_from_the_entry_group() {
    let content = "[Desktop Action new]\nName=New Window\n[Desktop Entry]\nName=\nName=Real\nIcon= icon \n";
    let entry = parse_entry(content).unwrap();
    assert_eq!(entry.name, "Real");
    assert_eq!(entry.icon.as_deref(), Some("icon"));
}

#[test]
fn path_parts() {
    assert_eq!(path_extension("/a/b.tar.gz").as_deref(), Some("gz"));
    assert_eq!(path_file_stem("/a/b.tar.gz").as_deref(), Some("b.tar"));
    assert_eq!(path_extension("/a/.bashrc"), None);
    assert_eq!(path_file_stem("/a/.bashrc").as_deref(), Some(".bashrc"));
    assert_eq!(path_extension("/a/b."). as_deref(), Some(""));
    assert_eq!(path_file_stem("/a/b//").as_deref(), Some("b"));
    assert_eq!(path_file_stem("/"), None);
    assert_eq!(path_file_stem("."), None);
    assert_eq!(path_file_stem("a/.."), None);
}

#[test]
fn flatpak_rows() {
    let out = "Application ID\tName\tVersion\n\
               org.gnome.Boxes\tBoxes\t46.1\n\
               org.example.NoVersion\tNo Version\t\n\
               \tMissing id\t1\n\
               lonely\n\
               com.two.Cols\t Two \n";
    let apps = parse_flatpak_list(out);
    assert_eq!(apps.len(), 3);
    assert_eq!(apps[0].id, "org.gnome.Boxes");
    assert_eq!(apps[0].name, "Boxes");
    assert_eq!(apps[0].version.as_deref(), Some("46.1"));
    assert_eq!(apps[0].backend, "flatpak");
    assert_eq!(apps[1].version, None);
    assert_eq!(apps[2].name, "Two");
    assert!(parse_flatpak_list("org.only.Header\tName\n").is_empty());
}

#[test]
fn stable_sort_keeps_ties_in_order() {
    let items = vec!["c1", "a1", "b1", "a2", "c2"];
    let keys: Vec<usize> = vec![3, 1, 2, 1, 3];
    assert_eq!(stable_sort(items, keys), vec!["a1", "a2", "b1", "c1", "c2"]);
    let names = vec![1, 2, 3];
    let keys = vec!["b".to_string(), "B".to_string(), "a".to_string()];
    assert_eq!(stable_sort(names, keys), vec![2, 3, 1]);
}

#[test]
fn builders_set_one_field() {
    let app = App::new("id", "Name", "apt").with_version("1.0").with_icon("icon");
    assert_eq!(app.id, "id");
    assert_eq!(app.name, "Name");
    assert_eq!(app.version.as_deref(), Some("1.0"));
    assert_eq!(app.icon.as_deref(), Some("icon"));
    assert_eq!(app.backend, "apt");
    assert_eq!(app.duplicate(), app);
}

#[test]
fn joins_and_absolute_paths() {
    assert_eq!(join_path("/usr/share", "applications"), "/usr/share/applications");
    assert_eq!(join_path("/usr/share/", "applications"), "/usr/share/applications");
    assert_eq!(join_path("", ".local/share"), ".local/share");
    assert!(is_absolute_path("/usr"));
    assert!(!is_absolute_path("usr"));
    assert!(!is_absolute_path(""));
}
