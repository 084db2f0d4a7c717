use removestaller::backend::{removal_result, Backend, BackendError, CommandLine, Registry};
use removestaller::backends::appimage::AppImageBackend;
use removestaller::backends::desktop::DesktopEntry;
use removestaller::backends::distro::{
    owner_from_query, AptBackend, DnfBackend, PacmanBackend, ZypperBackend,
};
use removestaller::backends::flatpak::FlatpakBackend;
use removestaller::backends::snap::SnapBackend;
use removestaller::backends::userspace::{CargoBackend, NpmBackend, PipBackend};
use removestaller::backends::{build_registry, Source};
use removestaller::model::App;
use removestaller::table::TextMap;
use removestaller::ui::order_index;

fn words(c: &CommandLine) -> Vec<String> {
    let mut out = vec![c.program.clone()];
    out.extend(c.args.iter().cloned());
    out
}

#[test]
fn registry_holds_every_source_in_order() {
    let ids: Vec<&str> = build_registry().iter().map(|s| s.id()).collect();
    assert_eq!(
        ids,
        vec!["apt", "dnf", "zypper", "pacman", "flatpak", "snap", "appimage", "pip", "npm", "cargo"]
    );
}

#[test]
fn registry_ids_are_distinct() {
    let ids: Vec<&str> = build_registry().iter().map(|s| s.id()).collect();
    for i in 0..ids.len() {
        for j in (i + 1)..ids.len() {
            assert_ne!(ids[i], ids[j]);
        }
    }
}

#[test]
fn detection_needs_the_right_tools() {
    let apt = Source::Apt(AptBackend);
    assert_eq!(apt.tools(), vec!["apt-get", "dpkg-query"]);
    assert!(apt.detect(&vec![true, true]));
    assert!(!apt.detect(&vec![true, false]));

    let pip = Source::Pip(PipBackend);
    assert_eq!(pip.tools(), vec!["pip3", "pip"]);
    assert!(pip.detect(&vec![false, true]));
    assert!(!pip.detect(&vec![false, false]));

    let appimage = Source::AppImage(AppImageBackend);
    assert!(appimage.tools().is_empty());
    assert!(appimage.detect(&vec![]));

    assert_eq!(Source::Dnf(DnfBackend).tools(), vec!["dnf", "rpm"]);
    assert_eq!(Source::Zypper(ZypperBackend).tools(), vec!["zypper", "rpm"]);
    assert!(!Source::Flatpak(FlatpakBackend).detect(&vec![false]));
}

#[test]
fn package_managers_remove_as_root() {
    let app = App::new("firefox", "Firefox", "apt");
    assert_eq!(
        words(&AptBackend.removal(&app)),
        vec!["pkexec", "apt-get", "remove", "-y", "firefox"]
    );
    assert_eq!(
        words(&DnfBackend.removal(&app)),
        vec!["pkexec", "dnf", "remove", "-y", "firefox"]
    );
    assert_eq!(
        words(&ZypperBackend.removal(&app)),
        vec!["pkexec", "zypper", "remove", "-y", "firefox"]
    );
    assert_eq!(
        words(&PacmanBackend.removal(&app)),
        vec!["pkexec", "pacman", "-Rns", "--noconfirm", "firefox"]
    );
}

#[test]
fn package_manager_queries() {
    assert_eq!(
        words(&AptBackend.version_query()),
        vec!["dpkg-query", "-W", "-f=${binary:Package}\t${Version}\n"]
    );
    assert_eq!(
        words(&DnfBackend.version_query()),
        vec!["rpm", "-qa", "--qf", "%{NAME}\t%{VERSION}-%{RELEASE}\n"]
    );
    assert_eq!(words(&PacmanBackend.version_query()), vec!["pacman", "-Q"]);
    assert_eq!(
        words(&ZypperBackend.owner_query("/a.desktop")),
        vec!["rpm", "-qf", "--qf", "%{NAME}", "/a.desktop"]
    );
    assert_eq!(
        words(&PacmanBackend.owner_query("/a.desktop")),
        vec!["pacman", "-Qqo", "/a.desktop"]
    );
    assert!(AptBackend.owner_query(&vec![]).is_none());
    let files = vec!["/a.desktop".to_string(), "/b.desktop".to_string()];
    assert_eq!(
        words(&AptBackend.owner_query(&files).unwrap()),
        vec!["dpkg", "-S", "/a.desktop", "/b.desktop"]
    );
}

#[test]
fn owner_queries_answer_only_on_success() {
    assert_eq!(owner_from_query(true, " firefox\n"), Some("firefox".to_string()));
    assert_eq!(owner_from_query(true, "  \n"), None);
    assert_eq!(owner_from_query(false, "firefox\n"), None);
}

#[test]
fn package_manager_apps_carry_their_backend() {
    let entries = vec![(
        "/usr/share/applications/firefox.desktop".to_string(),
        DesktopEntry { name: "Firefox".to_string(), icon: None },
    )];
    let mut owners = TextMap::new();
    owners.insert("/usr/share/applications/firefox.desktop".to_string(), "firefox".to_string());
    let apps = PacmanBackend.apps("firefox 126.0-1\n", &entries, &owners);
    assert_eq!(apps.len(), 1);
    assert_eq!(apps[0].backend, "pacman");
    assert_eq!(apps[0].version.as_deref(), Some("126.0-1"));
    let apps = DnfBackend.apps("firefox\t126.0-1.fc40\n", &entries, &owners);
    assert_eq!(apps[0].backend, "dnf");
    assert_eq!(apps[0].version.as_deref(), Some("126.0-1.fc40"));
}

#[test]
fn tool_sources_list_and_remove() {
    let app = App::new("org.gnome.Maps", "Maps", "flatpak");
    let listing = FlatpakBackend.listing();
    assert_eq!(
        words(&listing.command),
        vec!["flatpak", "list", "--app", "--columns=application,name,version"]
    );
    assert_eq!(listing.action, "flatpak list");
    let removal = FlatpakBackend.removal(&app);
    assert_eq!(words(&removal.command), vec!["flatpak", "uninstall", "-y", "org.gnome.Maps"]);
    assert_eq!(removal.action, "flatpak uninstall org.gnome.Maps");

    let snap = App::new("firefox", "Firefox", "snap");
    assert_eq!(words(&SnapBackend.listing().command), vec!["snap", "list"]);
    assert_eq!(words(&SnapBackend.removal(&snap).command), vec!["snap", "remove", "firefox"]);
    assert_eq!(SnapBackend.removal(&snap).action, "snap remove firefox");
    assert_eq!(SnapBackend.desktop_dir(), "/var/lib/snapd/desktop/applications");

    let pkg = App::new("typescript", "typescript", "npm");
    assert_eq!(
        words(&NpmBackend.listing().command),
        vec!["npm", "ls", "-g", "--depth=0", "--parseable"]
    );
    assert_eq!(words(&NpmBackend.removal(&pkg).command), vec!["npm", "uninstall", "-g", "typescript"]);
    assert_eq!(NpmBackend.removal(&pkg).action, "npm uninstall typescript");

    let krate = App::new("bat", "bat", "cargo");
    assert_eq!(words(&CargoBackend.listing().command), vec!["cargo", "install", "--list"]);
    assert_eq!(CargoBackend.listing().action, "cargo install --list");
    assert_eq!(words(&CargoBackend.removal(&krate).command), vec!["cargo", "uninstall", "bat"]);
}

#[test]
fn pip_uses_the_pip_it_found() {
    let app = App::new("requests", "requests", "pip");
    let listing = PipBackend.listing(&vec![false, true]).unwrap();
    assert_eq!(words(&listing.command), vec!["pip", "list", "--user", "--format=freeze"]);
    assert_eq!(listing.action, "pip list");
    let removal = PipBackend.removal(&vec![true, true], &app).unwrap();
    assert_eq!(words(&removal.command), vec!["pip3", "uninstall", "-y", "requests"]);
    assert_eq!(removal.action, "pip3 uninstall requests");
    assert_eq!(
        PipBackend.listing(&vec![false, false]).unwrap_err().0,
        "pip is not installed"
    );
    assert_eq!(
        PipBackend.removal(&vec![false, false], &app).unwrap_err().0,
        "pip is not installed"
    );
}

#[test]
fn tool_sources_parse_their_output() {
    let apps = FlatpakBackend.apps("Application ID\tName\tVersion\norg.gnome.Maps\tMaps\t46.0\n");
    assert_eq!(apps.len(), 1);
    assert_eq!(apps[0].backend, "flatpak");
    let apps = PipBackend.apps("foo==1.2.3\n");
    assert_eq!(apps[0].backend, "pip");
    let apps = NpmBackend.apps("/usr/lib/node_modules/typescript\n");
    assert_eq!(apps[0].backend, "npm");
    let apps = CargoBackend.apps("bat v0.24.0:\n    /home/u/.cargo/bin/bat\n");
    assert_eq!(apps[0].backend, "cargo");
    let entries = vec![("firefox".to_string(), "Firefox".to_string(), None)];
    let apps = SnapBackend.apps("Name Version Rev\nfirefox 126.0 4259 latest/stable mozilla -\n", &entries);
    assert_eq!(apps.len(), 1);
    assert_eq!(apps[0].backend, "snap");
    assert_eq!(apps[0].version.as_deref(), Some("126.0"));
}

#[test]
fn appimages_are_found_and_deleted_by_path() {
    assert_eq!(
        AppImageBackend.folders(),
        vec!["Applications", ".local/bin", "bin", "Desktop", "Downloads"]
    );
    let files = vec![
        ("/home/u/Applications/Zed.AppImage".to_string(), true),
        ("/home/u/Applications/notes.txt".to_string(), true),
    ];
    let apps = AppImageBackend.apps(&files);
    assert_eq!(apps.len(), 1);
    assert_eq!(apps[0].backend, "appimage");
    assert_eq!(AppImageBackend.removal(&apps[0]), "/home/u/Applications/Zed.AppImage");
}

#[test]
fn removal_result_keeps_diagnostics() {
    assert!(removal_result("snap remove x", true, "ignored").is_ok());
    assert_eq!(
        removal_result("snap remove x", false, " error: not installed\n").unwrap_err().0,
        "snap remove x failed: error: not installed"
    );
    assert_eq!(
        removal_result("snap remove x", false, "").unwrap_err().0,
        "snap remove x failed"
    );
}

#[test]
fn groups_follow_registry_order() {
    for (k, source) in build_registry().iter().enumerate() {
        assert_eq!(order_index(source.id()), k);
    }
}

#[test]
fn snap_entries_know_their_canonical_file() {
    let content = "[Desktop Entry]\nX-SnapInstanceName=firefox\nType=Application\nName=Firefox\nIcon=/snap/firefox/icon.png\n";
    let entry = SnapBackend
        .entry("/var/lib/snapd/desktop/applications/firefox_firefox.desktop", content)
        .unwrap();
    assert_eq!(entry.0, "firefox");
    assert_eq!(entry.1, "Firefox");
    assert_eq!(entry.2.as_deref(), Some("/snap/firefox/icon.png"));
    assert!(entry.3);
    let other = SnapBackend
        .entry("/var/lib/snapd/desktop/applications/firefox_geckodriver.desktop", content)
        .unwrap();
    assert!(!other.3);
    let hidden = "[Desktop Entry]\nX-SnapInstanceName=x\nType=Application\nNoDisplay=true\nName=X\n";
    assert!(SnapBackend.entry("/a/x_x.desktop", hidden).is_none());
}

struct Recorded(Source);

impl Backend for Recorded {
    fn id(&self) -> &'static str {
        self.0.id()
    }

    fn detect(&self) -> bool {
        false
    }

    fn list(&self) -> Result<Vec<App>, BackendError> {
        Ok(Vec::new())
    }

    fn remove(&self, app: &App) -> Result<(), BackendError> {
        Err(BackendError(format!("{} removes {}", self.0.id(), app.id)))
    }
}

#[test]
fn apps_are_removed_by_the_source_that_listed_them() {
    let mut registry = Registry::new();
    for source in build_registry() {
        registry.add(Box::new(Recorded(source)));
    }
    for source in build_registry() {
        let app = App::new("x", "X", source.id());
        let routed = registry.remove(&app).unwrap_err();
        assert_eq!(routed.0, format!("{} removes x", source.id()));
    }
}
