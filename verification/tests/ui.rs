use removestaller::backend::{BackendError, BackendFailure, ListReport};
use removestaller::model::App;
use removestaller::ui::{
    app_key, backend_label, comma, count_text, detail_button_text, failure_notice, filter_apps,
    group_apps, icon_file, icon_names, order_index, remove_button_label, removal_body,
    removal_failed_notice, removal_heading, removed_notice, removing_notice, row_subtitle,
    version_text, WindowState,
};

#[test]
fn labels_for_every_backend() {
    let ids = ["apt", "dnf", "zypper", "pacman", "flatpak", "snap", "appimage", "pip", "npm", "cargo", "brew"];
    let labels: Vec<&str> = ids.iter().map(|id| backend_label(id)).collect();
    assert_eq!(
        labels,
        vec!["APT", "DNF", "Zypper", "Pacman", "Flatpak", "Snap", "AppImage", "Python", "Node.js", "Rust", "Other"]
    );
    let order: Vec<usize> = ids.iter().map(|id| order_index(id)).collect();
    assert_eq!(order, vec![0, 1, 2, 3, 4, 5, 6, 7, 8, 9, usize::MAX]);
}

#[test]
fn app_keys_join_backend_and_id() {
    assert_eq!(app_key(&App::new("firefox", "Firefox", "snap")), "snap::firefox");
}

#[test]
fn counts_with_thousands_separators() {
    assert_eq!(comma(0), "0");
    assert_eq!(comma(999), "999");
    assert_eq!(comma(1000), "1,000");
    assert_eq!(comma(1234567), "1,234,567");
    assert_eq!(comma(100000), "100,000");
    assert_eq!(count_text(1, 0), "1 application");
    assert_eq!(count_text(2500, 0), "2,500 applications");
    assert_eq!(count_text(0, 1), "0 applications, 1 source unavailable");
    assert_eq!(count_text(3, 1200), "3 applications, 1200 sources unavailable");
}

fn sample() -> Vec<App> {
    vec![
        App::new("org.mozilla.firefox", "Firefox", "flatpak"),
        App::new("nautilus", "Files", "apt"),
        App::new("bat", "bat", "cargo"),
        App::new("gimp", "GIMP", "apt"),
        App::new("weird", "Weird", "brew"),
    ]
}

#[test]
fn search_matches_name_or_id_without_case() {
    let apps = sample();
    let shown = filter_apps(&apps, "  FIRE ");
    assert_eq!(shown.len(), 1);
    assert_eq!(shown[0].id, "org.mozilla.firefox");
    let by_id = filter_apps(&apps, "nautil");
    assert_eq!(by_id[0].name, "Files");
    assert_eq!(filter_apps(&apps, "   ").len(), 5);
    assert!(filter_apps(&apps, "zzz").is_empty());
}

#[test]
fn groups_follow_backend_order() {
    let groups = group_apps(sample());
    let ids: Vec<&str> = groups.iter().map(|g| g.0).collect();
    assert_eq!(ids, vec!["apt", "flatpak", "cargo", "brew"]);
    let apt: Vec<&str> = groups[0].1.iter().map(|a| a.id.as_str()).collect();
    assert_eq!(apt, vec!["nautilus", "gimp"]);
}

#[test]
fn texts_of_the_removal_flow() {
    let app = App::new("gimp", "GIMP", "flatpak");
    assert_eq!(removal_heading(&app.name), "Remove GIMP?");
    assert_eq!(
        removal_body(&app),
        "This will remove GIMP from Flatpak. This action cannot be undone."
    );
    assert_eq!(removing_notice("GIMP"), "Removing GIMP...");
    assert_eq!(removed_notice("GIMP"), "Removed GIMP");
    assert_eq!(
        removal_failed_notice("GIMP", "flatpak uninstall gimp failed"),
        "Failed to remove GIMP: flatpak uninstall gimp failed"
    );
    assert_eq!(detail_button_text(false, "GIMP"), "Remove GIMP");
    assert_eq!(detail_button_text(true, "GIMP"), "Removing...");
    assert_eq!(remove_button_label(true), "Removing...");
    assert_eq!(remove_button_label(false), "Remove");
}

#[test]
fn versions_on_screen() {
    assert_eq!(version_text(&Some("1.2".to_string())), "1.2");
    assert_eq!(version_text(&Some(String::new())), "Not available");
    assert_eq!(version_text(&None), "Not available");
    assert_eq!(row_subtitle(&Some("1.2".to_string())), "1.2");
    assert_eq!(row_subtitle(&None), "");
}

#[test]
fn unchecked_sources_are_named() {
    assert_eq!(failure_notice(&Vec::new()), None);
    assert_eq!(
        failure_notice(&vec!["snap", "pip"]).as_deref(),
        Some("Could not check: Snap, Python")
    );
}

#[test]
fn icon_lookup_order() {
    let themed = App::new("Org.Foo", "Foo App", "flatpak").with_icon("org.foo");
    assert_eq!(icon_file(&themed), None);
    assert_eq!(
        icon_names(&themed),
        vec!["org.foo", "Org.Foo", "org.foo", "Foo App", "foo app"]
    );
    let file = App::new("x", "", "snap").with_icon("/snap/x/icon.png");
    assert_eq!(icon_file(&file).as_deref(), Some("/snap/x/icon.png"));
    assert_eq!(icon_names(&file), vec!["x"]);
}

#[test]
fn scan_and_removal_state() {
    let mut state = WindowState::new();
    assert_eq!(state.begin_scan(), Some(true));
    assert_eq!(state.begin_scan(), None);
    state.finish_scan(ListReport {
        apps: sample(),
        failures: vec![BackendFailure { backend: "snap", error: BackendError("x".to_string()) }],
    });
    assert!(state.loaded && !state.scanning);
    assert_eq!(state.failed_backends, vec!["snap"]);
    assert_eq!(state.count_line(5), "5 applications, 1 source unavailable");
    assert!(state.set_query("gimp".to_string()));
    assert_eq!(state.shown_apps().len(), 1);

    let gimp = App::new("gimp", "GIMP", "apt");
    state.open_detail(gimp.clone());
    assert!(state.can_request_removal());
    assert!(state.request_removal(gimp.clone()));
    assert!(!state.answer_removal(&gimp, "cancel"));
    assert!(!state.busy && state.confirming.is_empty());
    assert!(state.request_removal(gimp.clone()));
    assert!(state.answer_removal(&gimp, "remove"));
    assert!(state.is_removing(&gimp));
    assert!(!state.is_removing(&App::new("gimp", "GIMP", "flatpak")));
    assert!(!state.can_request_removal());
    assert_eq!(state.begin_scan(), None);

    assert!(state.finish_removal(&gimp, false));
    assert_eq!(state.all_apps.len(), 5);
    assert!(state.detail.is_some());

    assert!(state.request_removal(gimp.clone()));
    assert!(state.answer_removal(&gimp, "remove"));
    assert!(!state.request_removal(App::new("x", "X", "apt")));
    assert!(state.finish_removal(&gimp, true));
    assert_eq!(state.all_apps.len(), 4);
    assert!(state.all_apps.iter().all(|a| app_key(a) != "apt::gimp"));
    assert!(state.detail.is_none());
    assert!(!state.busy && state.removing.is_none());
    assert_eq!(state.begin_scan(), Some(false));
}

#[test]
fn default_window_state_is_idle() {
    let state = WindowState::default();
    assert!(state.all_apps.is_empty() && state.query.is_empty());
    assert!(!state.loaded && !state.scanning && !state.busy);
    assert!(state.removing.is_none() && state.detail.is_none());
    assert!(state.failed_backends.is_empty());
}

#[test]
fn removal_needs_a_confirmed_request() {
    let mut state = WindowState::new();
    let app = App::new("gimp", "GIMP", "apt");
    assert!(!state.answer_removal(&app, "remove"));
    assert!(!state.busy);
    assert!(state.request_removal(app.clone()));
    assert_eq!(state.confirming, vec![app.clone()]);
    assert!(!state.answer_removal(&app, "close"));
    assert!(!state.answer_removal(&app, "remove"));
    assert!(state.request_removal(app.clone()));
    assert!(state.answer_removal(&app, "remove"));
    assert!(state.busy && state.is_removing(&app) && state.confirming.is_empty());
}

#[test]
fn each_answer_acts_on_its_own_app() {
    let mut state = WindowState::new();
    let gimp = App::new("gimp", "GIMP", "apt");
    let maps = App::new("org.gnome.Maps", "Maps", "flatpak");
    assert!(state.request_removal(gimp.clone()));
    assert!(state.request_removal(maps.clone()));
    assert!(state.answer_removal(&gimp, "remove"));
    assert!(state.is_removing(&gimp));
    assert!(!state.is_removing(&maps));
    assert_eq!(state.confirming, vec![maps.clone()]);
    assert!(!state.answer_removal(&maps, "cancel"));
    assert!(state.confirming.is_empty());
}
