//! The system package managers: APT, DNF, Zypper and Pacman.
//!
//! Running the package tools is left to the caller; this module names the
//! queries and removal commands, decides which packages are offered, and reads
//! what the tools print.
use vstd::prelude::*;

use crate::backend::{command_line, texts, CommandLine};
use crate::backends::desktop::DesktopEntry;
use crate::model::{all_from, apps_view, lemma_all_from_views, views_from, App, AppView};
use crate::table::TextMap;
use crate::text::{
    chars_of, find_char, find_pat, lemma_first_match_some, lemma_lines_advance, lemma_lines_done,
    lemma_lines_start, lines, next_line, opt_view, own, range_eq, same_text, split_once_char,
    split_once_pat, string_of, trim, trim_range,
};

verus! {

broadcast use vstd::string::group_string_axioms;

/// Packages that must never be offered for removal, even if they ship a
/// visible desktop file, because removing them can break the system.
pub open spec fn critical_names() -> Seq<Seq<char>> {
    seq![
        "apt"@,
        "bash"@,
        "base-files"@,
        "coreutils"@,
        "dbus"@,
        "dpkg"@,
        "gdm3"@,
        "gnome-session"@,
        "gnome-shell"@,
        "grub-common"@,
        "grub-efi-amd64"@,
        "grub-pc"@,
        "libc6"@,
        "lightdm"@,
        "login"@,
        "network-manager"@,
        "passwd"@,
        "snapd"@,
        "sudo"@,
        "systemd"@,
        "systemd-sysv"@,
        "ubuntu-desktop"@,
        "ubuntu-desktop-minimal"@,
        "ubuntu-session"@,
        "xorg"@,
        "xserver-xorg"@,
        "xserver-xorg-core"@,
        "xwayland"@,
    ]
}

/// Name prefixes of packages that must never be offered for removal.
pub open spec fn critical_prefixes() -> Seq<Seq<char>> {
    seq!["linux-image"@, "linux-headers"@, "linux-modules"@, "linux-generic"@, "linux-tools"@]
}

/// `s` starts with `p`.
pub open spec fn has_prefix(s: Seq<char>, p: Seq<char>) -> bool {
    p.len() <= s.len() && s.take(p.len() as int) == p
}

/// A package that removal must never touch.
pub open spec fn critical(name: Seq<char>) -> bool {
    ||| critical_names().contains(name)
    ||| exists|i: int| 0 <= i < critical_prefixes().len() && has_prefix(name, critical_prefixes()[i])
}

fn critical_name_list() -> (v: Vec<&'static str>)
    ensures
        v@.map_values(|s: &'static str| s@) == critical_names(),
{
    let v = vec![
        "apt",
        "bash",
        "base-files",
        "coreutils",
        "dbus",
        "dpkg",
        "gdm3",
        "gnome-session",
        "gnome-shell",
        "grub-common",
        "grub-efi-amd64",
        "grub-pc",
        "libc6",
        "lightdm",
        "login",
        "network-manager",
        "passwd",
        "snapd",
        "sudo",
        "systemd",
        "systemd-sysv",
        "ubuntu-desktop",
        "ubuntu-desktop-minimal",
        "ubuntu-session",
        "xorg",
        "xserver-xorg",
        "xserver-xorg-core",
        "xwayland",
    ];
    assert(v@.map_values(|s: &'static str| s@) =~= critical_names());
    v
}

fn critical_prefix_list() -> (v: Vec<&'static str>)
    ensures
        v@.map_values(|s: &'static str| s@) == critical_prefixes(),
{
    let v = vec!["linux-image", "linux-headers", "linux-modules", "linux-generic", "linux-tools"];
    assert(v@.map_values(|s: &'static str| s@) =~= critical_prefixes());
    v
}

/// Whether removing this package could break the system.
pub fn is_critical(name: &str) -> (r: bool)
    ensures
        r == critical(name@),
{
    let names = critical_name_list();
    let mut i: usize = 0;
    while i < names.len()
        invariant
            names@.map_values(|s: &'static str| s@) == critical_names(),
            i <= names@.len(),
            forall|j: int| 0 <= j < i ==> critical_names()[j] != name@,
        decreases names@.len() - i,
    {
        if same_text(names[i], name) {
            assert(critical_names()[i as int] == name@);
            return true;
        }
        i = i + 1;
    }
    assert(!critical_names().contains(name@));
    let prefixes = critical_prefix_list();
    let v = chars_of(name);
    let mut k: usize = 0;
    while k < prefixes.len()
        invariant
            prefixes@.map_values(|s: &'static str| s@) == critical_prefixes(),
            v@ == name@,
            k <= prefixes@.len(),
            forall|j: int| 0 <= j < k ==> !has_prefix(name@, critical_prefixes()[j]),
        decreases prefixes@.len() - k,
    {
        let p = chars_of(prefixes[k]);
        assert(p@ == critical_prefixes()[k as int]);
        if p.len() <= v.len() && range_eq(&v, 0, p.len(), &p) {
            return true;
        }
        k = k + 1;
    }
    false
}

// ---------------------------------------------------------------------------
// Tool output
// ---------------------------------------------------------------------------

/// The map built from `name<sep>version` lines: lines without the separator or
/// with an empty name are skipped, and a later line for a name wins.
pub open spec fn versions_by(ls: Seq<Seq<char>>, sep: char) -> Map<Seq<char>, Seq<char>>
    decreases ls.len(),
{
    if ls.len() == 0 {
        Map::empty()
    } else {
        let m = versions_by(ls.drop_last(), sep);
        match split_once_char(ls.last(), sep) {
            Some((name, version)) => if name.len() > 0 {
                m.insert(name, version)
            } else {
                m
            },
            None => m,
        }
    }
}

/// Package name to version, from lines of the form `name<sep>version`.
fn versions_by_separator(out: &str, sep: char) -> (r: TextMap)
    ensures
        r@ == versions_by(lines(out@), sep),
{
    let v = chars_of(out);
    let n = v.len();
    let mut map = TextMap::new();
    let mut pos: usize = 0;
    let ghost mut done: Seq<Seq<char>> = seq![];
    proof {
        lemma_lines_start(v@);
    }
    while pos < n
        invariant
            n == v@.len(),
            pos <= n,
            lines(v@) == done + lines(v@.subrange(pos as int, n as int)),
            map@ == versions_by(done, sep),
        decreases n - pos,
    {
        let (a, b, next) = next_line(&v, pos);
        let ghost line = v@.subrange(a as int, b as int);
        proof {
            lemma_lines_advance(
                lines(v@),
                done,
                line,
                lines(v@.subrange(pos as int, n as int)),
                lines(v@.subrange(next as int, n as int)),
            );
            assert(done.push(line).drop_last() =~= done);
        }
        match find_char(&v, a, b, sep) {
            Some(e) => {
                assert(line.take(e - a) =~= v@.subrange(a as int, e as int));
                assert(line.skip(e - a + 1) =~= v@.subrange(e + 1, b as int));
                if e > a {
                    map.insert(string_of(&v, a, e), string_of(&v, e + 1, b));
                }
            },
            None => {},
        }
        proof {
            done = done.push(line);
        }
        pos = next;
    }
    proof {
        lemma_lines_done(v@, lines(v@), done);
    }
    map
}

/// Versions from `dpkg-query -W -f='${binary:Package}\t${Version}\n'`.
pub fn versions_from_dpkg(out: &str) -> (r: TextMap)
    ensures
        r@ == versions_by(lines(out@), '\t'),
{
    versions_by_separator(out, '\t')
}

/// Versions from `rpm -qa --qf '%{NAME}\t%{VERSION}-%{RELEASE}\n'`.
pub fn versions_from_rpm(out: &str) -> (r: TextMap)
    ensures
        r@ == versions_by(lines(out@), '\t'),
{
    versions_by_separator(out, '\t')
}

/// Versions from `pacman -Q`.
pub fn versions_from_pacman(out: &str) -> (r: TextMap)
    ensures
        r@ == versions_by(lines(out@), ' '),
{
    versions_by_separator(out, ' ')
}

/// The owning package named by the owner column of `dpkg -S`: the text
/// before the first `:` (an architecture qualifier follows it).
pub open spec fn owner_package(owner: Seq<char>) -> Seq<char> {
    match split_once_char(owner, ':') {
        Some((pkg, _)) => pkg,
        None => owner,
    }
}

/// Desktop file path to owning package, from `dpkg -S` lines `owner: path`.
pub open spec fn dpkg_owner_map(ls: Seq<Seq<char>>) -> Map<Seq<char>, Seq<char>>
    decreases ls.len(),
{
    if ls.len() == 0 {
        Map::empty()
    } else {
        let m = dpkg_owner_map(ls.drop_last());
        match split_once_pat(ls.last(), ": "@) {
            Some((owner, path)) => m.insert(trim(path), owner_package(owner)),
            None => m,
        }
    }
}

/// Parse `dpkg -S` output into a desktop file path -> package map.
pub fn parse_dpkg_owners(out: &str) -> (r: TextMap)
    ensures
        r@ == dpkg_owner_map(lines(out@)),
{
    let v = chars_of(out);
    let sep = chars_of(": ");
    let n = v.len();
    let mut map = TextMap::new();
    let mut pos: usize = 0;
    let ghost mut done: Seq<Seq<char>> = seq![];
    proof {
        lemma_lines_start(v@);
    }
    while pos < n
        invariant
            n == v@.len(),
            sep@ == ": "@,
            pos <= n,
            lines(v@) == done + lines(v@.subrange(pos as int, n as int)),
            map@ == dpkg_owner_map(done),
        decreases n - pos,
    {
        let (a, b, next) = next_line(&v, pos);
        let ghost line = v@.subrange(a as int, b as int);
        proof {
            lemma_lines_advance(
                lines(v@),
                done,
                line,
                lines(v@.subrange(pos as int, n as int)),
                lines(v@.subrange(next as int, n as int)),
            );
            assert(done.push(line).drop_last() =~= done);
        }
        match find_pat(&v, a, b, &sep) {
            Some(e) => {
                proof {
                    reveal_strlit(": ");
                    lemma_first_match_some(line, sep@);
                }
                assert(e + sep@.len() <= b);
                assert(line.take(e - a) =~= v@.subrange(a as int, e as int));
                assert(line.skip(e - a + sep@.len()) =~= v@.subrange(e + 2, b as int));
                let (pa, pb) = trim_range(&v, e + 2, b);
                let owner_end = match find_char(&v, a, e, ':') {
                    Some(c) => {
                        assert(v@.subrange(a as int, e as int).take(c - a) =~= v@.subrange(
                            a as int,
                            c as int,
                        ));
                        c
                    },
                    None => e,
                };
                map.insert(string_of(&v, pa, pb), string_of(&v, a, owner_end));
            },
            None => {},
        }
        proof {
            done = done.push(line);
        }
        pos = next;
    }
    proof {
        lemma_lines_done(v@, lines(v@), done);
    }
    map
}

/// The arguments of the `dpkg -S` query for these files, or `None` when there
/// is nothing to ask about.
pub fn dpkg_owner_args(files: &Vec<String>) -> (r: Option<Vec<String>>)
    ensures
        r is None <==> files@.len() == 0,
        r matches Some(args) ==> args@.len() == files@.len() + 1 && args@[0]@ == "-S"@ && forall|
            i: int,
        |
            0 <= i < files@.len() ==> #[trigger] args@[i + 1]@ == files@[i]@,
{
    if files.len() == 0 {
        return None;
    }
    let mut args: Vec<String> = Vec::new();
    args.push(String::from_str("-S"));
    let mut i: usize = 0;
    while i < files.len()
        invariant
            i <= files@.len(),
            args@.len() == i + 1,
            args@[0]@ == "-S"@,
            forall|j: int| 0 <= j < i ==> #[trigger] args@[j + 1]@ == files@[j]@,
        decreases files@.len() - i,
    {
        args.push(files[i].clone());
        i = i + 1;
    }
    Some(args)
}

/// The package named by `rpm -qf --qf '%{NAME}'` or `pacman -Qqo`: the
/// trimmed output of a query that succeeded, when there is any.
pub fn owner_from_query(success: bool, stdout: &str) -> (r: Option<String>)
    ensures
        !success || trim(stdout@).len() == 0 ==> r is None,
        success && trim(stdout@).len() > 0 ==> (r matches Some(o) && o@ == trim(stdout@)),
{
    if !success {
        return None;
    }
    let v = chars_of(stdout);
    let (a, b) = trim_range(&v, 0, v.len());
    assert(v@.subrange(0, v@.len() as int) =~= v@);
    if a == b {
        None
    } else {
        Some(string_of(&v, a, b))
    }
}

// ---------------------------------------------------------------------------
// Building the app list
// ---------------------------------------------------------------------------

/// What a desktop entry list says: path, display name, icon.
pub open spec fn entry_views(entries: Seq<(String, DesktopEntry)>) -> Seq<
    (Seq<char>, Seq<char>, Option<Seq<char>>),
> {
    entries.map_values(|e: (String, DesktopEntry)| (e.0@, e.1.name@, opt_view(e.1.icon)))
}

/// The value of `k`, if mapped.
pub open spec fn map_get(m: Map<Seq<char>, Seq<char>>, k: Seq<char>) -> Option<Seq<char>> {
    if m.contains_key(k) {
        Some(m[k])
    } else {
        None
    }
}

/// Some app of `apps` has identifier `id`.
pub open spec fn has_id(apps: Seq<AppView>, id: Seq<char>) -> bool {
    exists|i: int| 0 <= i < apps.len() && apps[i].0 == id
}

/// The apps built from desktop entries: one per owning package, in entry
/// order, skipping unowned entries, critical packages and packages already
/// listed; the package name stands in for an empty display name.
pub open spec fn built_apps(
    versions: Map<Seq<char>, Seq<char>>,
    backend: Seq<char>,
    entries: Seq<(Seq<char>, Seq<char>, Option<Seq<char>>)>,
    owners: Map<Seq<char>, Seq<char>>,
) -> Seq<AppView>
    decreases entries.len(),
{
    if entries.len() == 0 {
        seq![]
    } else {
        let acc = built_apps(versions, backend, entries.drop_last(), owners);
        let (path, name, icon) = entries.last();
        if !owners.contains_key(path) {
            acc
        } else {
            let pkg = owners[path];
            if critical(pkg) || has_id(acc, pkg) {
                acc
            } else {
                acc.push(
                    (
                        pkg,
                        if name.len() == 0 {
                            pkg
                        } else {
                            name
                        },
                        map_get(versions, pkg),
                        backend,
                        icon,
                    ),
                )
            }
        }
    }
}


/// The built apps never include a critical package, name one package at most
/// once, and all belong to the given backend.
pub proof fn law_built_apps_are_safe(
    versions: Map<Seq<char>, Seq<char>>,
    backend: Seq<char>,
    entries: Seq<(Seq<char>, Seq<char>, Option<Seq<char>>)>,
    owners: Map<Seq<char>, Seq<char>>,
)
    ensures
        forall|i: int|
            0 <= i < built_apps(versions, backend, entries, owners).len() ==> !critical(
                (#[trigger] built_apps(versions, backend, entries, owners)[i]).0,
            ) && built_apps(versions, backend, entries, owners)[i].3 == backend,
        forall|i: int, j: int|
            #![trigger built_apps(versions, backend, entries, owners)[i], built_apps(versions, backend, entries, owners)[j]]
            0 <= i < j < built_apps(versions, backend, entries, owners).len() ==> built_apps(
                versions,
                backend,
                entries,
                owners,
            )[i].0 != built_apps(versions, backend, entries, owners)[j].0,
    decreases entries.len(),
{
    if entries.len() > 0 {
        law_built_apps_are_safe(versions, backend, entries.drop_last(), owners);
        let acc = built_apps(versions, backend, entries.drop_last(), owners);
        let r = built_apps(versions, backend, entries, owners);
        if r.len() > acc.len() {
            assert forall|i: int, j: int| 0 <= i < j < r.len() implies r[i].0 != r[j].0 by {
                if j == acc.len() {
                    assert(r[i] == acc[i]);
                    assert(!has_id(acc, r[j].0));
                } else {
                    assert(r[i] == acc[i] && r[j] == acc[j]);
                }
            }
            assert forall|i: int| 0 <= i < r.len() implies !critical(#[trigger] r[i].0) && r[i].3
                == backend by {
                if i < acc.len() {
                    assert(r[i] == acc[i]);
                }
            }
        }
    }
}

/// Whether one of `apps` has identifier `id`.
fn contains_id(apps: &Vec<App>, id: &String) -> (r: bool)
    ensures
        r == has_id(apps_view(apps@), id@),
{
    let mut i: usize = 0;
    while i < apps.len()
        invariant
            i <= apps@.len(),
            forall|j: int| 0 <= j < i ==> apps@[j].id@ != id@,
        decreases apps@.len() - i,
    {
        if apps[i].id == *id {
            assert(apps_view(apps@)[i as int].0 == id@);
            return true;
        }
        i = i + 1;
    }
    false
}

/// Build Apps from desktop entries whose owning package is in `owners`,
/// using each entry's real Name and Icon instead of the raw package name.
pub fn build_apps(
    versions: &TextMap,
    backend: &'static str,
    entries: &Vec<(String, DesktopEntry)>,
    owners: &TextMap,
) -> (r: Vec<App>)
    ensures
        apps_view(r@) == built_apps(versions@, backend@, entry_views(entries@), owners@),
{
    let ghost ev = entry_views(entries@);
    let mut apps: Vec<App> = Vec::new();
    let mut i: usize = 0;
    while i < entries.len()
        invariant
            i <= entries@.len(),
            ev == entry_views(entries@),
            apps_view(apps@) == built_apps(versions@, backend@, ev.take(i as int), owners@),
        decreases entries@.len() - i,
    {
        let ghost acc = apps_view(apps@);
        assert(ev.take(i + 1).drop_last() =~= ev.take(i as int));
        let (path, info) = &entries[i];
        match owners.get(path.as_str()) {
            Some(pkg) => {
                if !is_critical(pkg.as_str()) && !contains_id(&apps, pkg) {
                    let name: &str = if info.name.as_str().is_empty() {
                        pkg.as_str()
                    } else {
                        info.name.as_str()
                    };
                    let mut app = App::new(pkg.as_str(), name, backend);
                    match versions.get(pkg.as_str()) {
                        Some(version) => {
                            app = app.with_version(version.as_str());
                        },
                        None => {},
                    }
                    match &info.icon {
                        Some(icon) => {
                            app = app.with_icon(icon.as_str());
                        },
                        None => {},
                    }
                    apps.push(app);
                    assert(apps_view(apps@) =~= acc.push(app@));
                }
            },
            None => {},
        }
        i = i + 1;
    }
    assert(ev.take(entries@.len() as int) =~= ev);
    apps
}

/// Each built app is the package owning one of the entries, with the version
/// the package manager reports for that package, the entry's icon, and the
/// entry's display name (the package name when the entry has none); and every
/// package owning an entry is built unless it is critical.
pub proof fn law_built_apps_describe_their_packages(
    versions: Map<Seq<char>, Seq<char>>,
    backend: Seq<char>,
    entries: Seq<(Seq<char>, Seq<char>, Option<Seq<char>>)>,
    owners: Map<Seq<char>, Seq<char>>,
)
    ensures
        forall|i: int|
            0 <= i < built_apps(versions, backend, entries, owners).len() ==> {
                let a = #[trigger] built_apps(versions, backend, entries, owners)[i];
                &&& a.2 == map_get(versions, a.0)
                &&& exists|e: int|
                    0 <= e < entries.len() && owners.contains_key(entries[e].0) && owners[entries[e].0]
                        == a.0 && a.4 == entries[e].2 && a.1 == (if entries[e].1.len() == 0 {
                        a.0
                    } else {
                        entries[e].1
                    })
            },
        forall|e: int|
            0 <= e < entries.len() && owners.contains_key(#[trigger] entries[e].0) && !critical(
                owners[entries[e].0],
            ) ==> has_id(built_apps(versions, backend, entries, owners), owners[entries[e].0]),
    decreases entries.len(),
{
    if entries.len() > 0 {
        let prev = entries.drop_last();
        law_built_apps_describe_their_packages(versions, backend, prev, owners);
        let acc = built_apps(versions, backend, prev, owners);
        let r = built_apps(versions, backend, entries, owners);
        assert forall|i: int| 0 <= i < r.len() implies {
            let a = #[trigger] r[i];
            &&& a.2 == map_get(versions, a.0)
            &&& exists|e: int|
                0 <= e < entries.len() && owners.contains_key(entries[e].0) && owners[entries[e].0]
                    == a.0 && a.4 == entries[e].2 && a.1 == (if entries[e].1.len() == 0 {
                    a.0
                } else {
                    entries[e].1
                })
        } by {
            if i < acc.len() {
                assert(r[i] == acc[i]);
                let a = acc[i];
                let e = choose|e: int|
                    0 <= e < prev.len() && owners.contains_key(prev[e].0) && owners[prev[e].0] == a.0
                        && a.4 == prev[e].2 && a.1 == (if prev[e].1.len() == 0 {
                        a.0
                    } else {
                        prev[e].1
                    });
                assert(entries[e] == prev[e]);
            } else {
                let e = entries.len() - 1;
                assert(entries[e] == entries.last());
            }
        }
        assert forall|e: int|
            0 <= e < entries.len() && owners.contains_key(#[trigger] entries[e].0) && !critical(
                owners[entries[e].0],
            ) implies has_id(r, owners[entries[e].0]) by {
            let pkg = owners[entries[e].0];
            if e < prev.len() {
                assert(prev[e] == entries[e]);
                assert(has_id(acc, pkg));
                let k = choose|k: int| 0 <= k < acc.len() && acc[k].0 == pkg;
                assert(r[k] == acc[k]);
            } else {
                assert(entries.last() == entries[e]);
                if has_id(acc, pkg) {
                    let k = choose|k: int| 0 <= k < acc.len() && acc[k].0 == pkg;
                    assert(r[k] == acc[k]);
                } else {
                    assert(r[acc.len() as int].0 == pkg);
                }
            }
        }
    }
}

/// Every built app is owned by the backend it was built for.
proof fn lemma_built_apps_from(
    versions: Map<Seq<char>, Seq<char>>,
    backend: Seq<char>,
    entries: Seq<(Seq<char>, Seq<char>, Option<Seq<char>>)>,
    owners: Map<Seq<char>, Seq<char>>,
)
    ensures
        views_from(built_apps(versions, backend, entries, owners), backend),
    decreases entries.len(),
{
    if entries.len() > 0 {
        lemma_built_apps_from(versions, backend, entries.drop_last(), owners);
    }
}

// ---------------------------------------------------------------------------
// The four package managers
// ---------------------------------------------------------------------------

/// The query that lists installed rpm packages with their versions.
fn rpm_version_query() -> (r: CommandLine)
    ensures
        r.argv() == seq!["rpm"@, "-qa"@, "--qf"@, "%{NAME}\t%{VERSION}-%{RELEASE}\n"@],
{
    let words = vec!["rpm", "-qa", "--qf", "%{NAME}\t%{VERSION}-%{RELEASE}\n"];
    assert(texts(words@) =~= seq!["rpm"@, "-qa"@, "--qf"@, "%{NAME}\t%{VERSION}-%{RELEASE}\n"@]);
    command_line(&words)
}

/// The query for the rpm package that owns `file`, printing just its name.
fn rpm_owner_query(file: &str) -> (r: CommandLine)
    ensures
        r.argv() == seq!["rpm"@, "-qf"@, "--qf"@, "%{NAME}"@, file@],
{
    let words = vec!["rpm", "-qf", "--qf", "%{NAME}", file];
    assert(texts(words@) =~= seq!["rpm"@, "-qf"@, "--qf"@, "%{NAME}"@, file@]);
    command_line(&words)
}

/// `pkexec <manager> <verb> <flag> <id>`: a removal run as root.
fn privileged_removal(manager: &str, verb: &str, flag: &str, id: &str) -> (r: CommandLine)
    ensures
        r.argv() == seq!["pkexec"@, manager@, verb@, flag@, id@],
{
    let words = vec!["pkexec", manager, verb, flag, id];
    assert(texts(words@) =~= seq!["pkexec"@, manager@, verb@, flag@, id@]);
    command_line(&words)
}

/// The APT package manager of Debian and Ubuntu.
#[derive(Debug, Clone, Copy, PartialEq, Eq)]
pub struct AptBackend;

impl AptBackend {
    /// `apt`, the identifier stored on every app of this backend.
    pub fn id(&self) -> (r: &'static str)
        ensures
            r@ == "apt"@,
    {
        "apt"
    }

    /// The tools probed to detect this backend.
    pub fn tools(&self) -> (r: Vec<&'static str>)
        ensures
            texts(r@) == seq!["apt-get"@, "dpkg-query"@],
    {
        let v = vec!["apt-get", "dpkg-query"];
        assert(texts(v@) =~= seq!["apt-get"@, "dpkg-query"@]);
        v
    }

    /// Available when both `apt-get` and `dpkg-query` were found.
    pub fn detect(&self, present: &Vec<bool>) -> (r: bool)
        requires
            present@.len() == 2,
        ensures
            r == (present@[0] && present@[1]),
    {
        present[0] && present[1]
    }

    /// The query that lists installed packages with their versions.
    pub fn version_query(&self) -> (r: CommandLine)
        ensures
            r.argv() == seq!["dpkg-query"@, "-W"@, "-f=${binary:Package}\t${Version}\n"@],
    {
        let words = vec!["dpkg-query", "-W", "-f=${binary:Package}\t${Version}\n"];
        assert(texts(words@) =~= seq!["dpkg-query"@, "-W"@, "-f=${binary:Package}\t${Version}\n"@]);
        command_line(&words)
    }

    /// The `dpkg -S` query for the packages owning `files`; none when there
    /// are no files. Exit code 1 (no owner found) is a valid answer.
    pub fn owner_query(&self, files: &Vec<String>) -> (r: Option<CommandLine>)
        ensures
            r is None <==> files@.len() == 0,
            r matches Some(c) ==> c.argv() == seq!["dpkg"@, "-S"@] + files@.map_values(
                |f: String| f@,
            ),
    {
        match dpkg_owner_args(files) {
            None => None,
            Some(args) => {
                let c = CommandLine { program: own("dpkg"), args };
                let ghost want = seq!["dpkg"@, "-S"@] + files@.map_values(|f: String| f@);
                assert(c.argv().len() == want.len());
                assert(c.argv()[0] == want[0]);
                assert(c.argv()[1] == want[1]);
                assert forall|i: int| 2 <= i < want.len() implies #[trigger] c.argv()[i] == want[i] by {
                    assert(c.argv()[i] == c.args@[i - 1]@);
                    assert(c.args@[(i - 2) + 1]@ == files@[i - 2]@);
                }
                assert(c.argv() =~= want);
                Some(c)
            },
        }
    }

    /// The apps of the desktop entries owned by packages, with the versions
    /// from the output of the version query; each is owned by this backend.
    pub fn apps(&self, version_output: &str, entries: &Vec<(String, DesktopEntry)>, owners: &TextMap) -> (r: Vec<App>)
        ensures
            apps_view(r@) == built_apps(
                versions_by(lines(version_output@), '\t'),
                "apt"@,
                entry_views(entries@),
                owners@,
            ),
            all_from(r@, "apt"@),
    {
        let versions = versions_from_dpkg(version_output);
        let r = build_apps(&versions, "apt", entries, owners);
        proof {
            lemma_built_apps_from(versions@, "apt"@, entry_views(entries@), owners@);
            lemma_all_from_views(r@, "apt"@);
        }
        r
    }

    /// `apt-get remove -y <id>`, run as root.
    pub fn removal(&self, app: &App) -> (r: CommandLine)
        ensures
            r.argv() == seq!["pkexec"@, "apt-get"@, "remove"@, "-y"@, app.id@],
    {
        privileged_removal("apt-get", "remove", "-y", app.id.as_str())
    }
}

/// The DNF package manager of Fedora.
#[derive(Debug, Clone, Copy, PartialEq, Eq)]
pub struct DnfBackend;

impl DnfBackend {
    /// `dnf`, the identifier stored on every app of this backend.
    pub fn id(&self) -> (r: &'static str)
        ensures
            r@ == "dnf"@,
    {
        "dnf"
    }

    /// The tools probed to detect this backend.
    pub fn tools(&self) -> (r: Vec<&'static str>)
        ensures
            texts(r@) == seq!["dnf"@, "rpm"@],
    {
        let v = vec!["dnf", "rpm"];
        assert(texts(v@) =~= seq!["dnf"@, "rpm"@]);
        v
    }

    /// Available when both `dnf` and `rpm` were found.
    pub fn detect(&self, present: &Vec<bool>) -> (r: bool)
        requires
            present@.len() == 2,
        ensures
            r == (present@[0] && present@[1]),
    {
        present[0] && present[1]
    }

    /// The query that lists installed packages with their versions.
    pub fn version_query(&self) -> (r: CommandLine)
        ensures
            r.argv() == seq!["rpm"@, "-qa"@, "--qf"@, "%{NAME}\t%{VERSION}-%{RELEASE}\n"@],
    {
        rpm_version_query()
    }

    /// The query for the package that owns `file`.
    pub fn owner_query(&self, file: &str) -> (r: CommandLine)
        ensures
            r.argv() == seq!["rpm"@, "-qf"@, "--qf"@, "%{NAME}"@, file@],
    {
        rpm_owner_query(file)
    }

    /// The apps of the desktop entries owned by packages, with the versions
    /// from the output of the version query; each is owned by this backend.
    pub fn apps(&self, version_output: &str, entries: &Vec<(String, DesktopEntry)>, owners: &TextMap) -> (r: Vec<App>)
        ensures
            apps_view(r@) == built_apps(
                versions_by(lines(version_output@), '\t'),
                "dnf"@,
                entry_views(entries@),
                owners@,
            ),
            all_from(r@, "dnf"@),
    {
        let versions = versions_from_rpm(version_output);
        let r = build_apps(&versions, "dnf", entries, owners);
        proof {
            lemma_built_apps_from(versions@, "dnf"@, entry_views(entries@), owners@);
            lemma_all_from_views(r@, "dnf"@);
        }
        r
    }

    /// `dnf remove -y <id>`, run as root.
    pub fn removal(&self, app: &App) -> (r: CommandLine)
        ensures
            r.argv() == seq!["pkexec"@, "dnf"@, "remove"@, "-y"@, app.id@],
    {
        privileged_removal("dnf", "remove", "-y", app.id.as_str())
    }
}

/// The Zypper package manager of openSUSE.
#[derive(Debug, Clone, Copy, PartialEq, Eq)]
pub struct ZypperBackend;

impl ZypperBackend {
    /// `zypper`, the identifier stored on every app of this backend.
    pub fn id(&self) -> (r: &'static str)
        ensures
            r@ == "zypper"@,
    {
        "zypper"
    }

    /// The tools probed to detect this backend.
    pub fn tools(&self) -> (r: Vec<&'static str>)
        ensures
            texts(r@) == seq!["zypper"@, "rpm"@],
    {
        let v = vec!["zypper", "rpm"];
        assert(texts(v@) =~= seq!["zypper"@, "rpm"@]);
        v
    }

    /// Available when both `zypper` and `rpm` were found.
    pub fn detect(&self, present: &Vec<bool>) -> (r: bool)
        requires
            present@.len() == 2,
        ensures
            r == (present@[0] && present@[1]),
    {
        present[0] && present[1]
    }

    /// The query that lists installed packages with their versions.
    pub fn version_query(&self) -> (r: CommandLine)
        ensures
            r.argv() == seq!["rpm"@, "-qa"@, "--qf"@, "%{NAME}\t%{VERSION}-%{RELEASE}\n"@],
    {
        rpm_version_query()
    }

    /// The query for the package that owns `file`.
    pub fn owner_query(&self, file: &str) -> (r: CommandLine)
        ensures
            r.argv() == seq!["rpm"@, "-qf"@, "--qf"@, "%{NAME}"@, file@],
    {
        rpm_owner_query(file)
    }

    /// The apps of the desktop entries owned by packages, with the versions
    /// from the output of the version query; each is owned by this backend.
    pub fn apps(&self, version_output: &str, entries: &Vec<(String, DesktopEntry)>, owners: &TextMap) -> (r: Vec<App>)
        ensures
            apps_view(r@) == built_apps(
                versions_by(lines(version_output@), '\t'),
                "zypper"@,
                entry_views(entries@),
                owners@,
            ),
            all_from(r@, "zypper"@),
    {
        let versions = versions_from_rpm(version_output);
        let r = build_apps(&versions, "zypper", entries, owners);
        proof {
            lemma_built_apps_from(versions@, "zypper"@, entry_views(entries@), owners@);
            lemma_all_from_views(r@, "zypper"@);
        }
        r
    }

    /// `zypper remove -y <id>`, run as root.
    pub fn removal(&self, app: &App) -> (r: CommandLine)
        ensures
            r.argv() == seq!["pkexec"@, "zypper"@, "remove"@, "-y"@, app.id@],
    {
        privileged_removal("zypper", "remove", "-y", app.id.as_str())
    }
}

/// The Pacman package manager of Arch Linux.
#[derive(Debug, Clone, Copy, PartialEq, Eq)]
pub struct PacmanBackend;

impl PacmanBackend {
    /// `pacman`, the identifier stored on every app of this backend.
    pub fn id(&self) -> (r: &'static str)
        ensures
            r@ == "pacman"@,
    {
        "pacman"
    }

    /// The tools probed to detect this backend.
    pub fn tools(&self) -> (r: Vec<&'static str>)
        ensures
            texts(r@) == seq!["pacman"@],
    {
        let v = vec!["pacman"];
        assert(texts(v@) =~= seq!["pacman"@]);
        v
    }

    /// Available when `pacman` was found.
    pub fn detect(&self, present: &Vec<bool>) -> (r: bool)
        requires
            present@.len() == 1,
        ensures
            r == present@[0],
    {
        present[0]
    }

    /// The query that lists installed packages with their versions.
    pub fn version_query(&self) -> (r: CommandLine)
        ensures
            r.argv() == seq!["pacman"@, "-Q"@],
    {
        let words = vec!["pacman", "-Q"];
        assert(texts(words@) =~= seq!["pacman"@, "-Q"@]);
        command_line(&words)
    }

    /// The query for the package that owns `file`.
    pub fn owner_query(&self, file: &str) -> (r: CommandLine)
        ensures
            r.argv() == seq!["pacman"@, "-Qqo"@, file@],
    {
        let words = vec!["pacman", "-Qqo", file];
        assert(texts(words@) =~= seq!["pacman"@, "-Qqo"@, file@]);
        command_line(&words)
    }

    /// The apps of the desktop entries owned by packages, with the versions
    /// from the output of the version query; each is owned by this backend.
    pub fn apps(&self, version_output: &str, entries: &Vec<(String, DesktopEntry)>, owners: &TextMap) -> (r: Vec<App>)
        ensures
            apps_view(r@) == built_apps(
                versions_by(lines(version_output@), ' '),
                "pacman"@,
                entry_views(entries@),
                owners@,
            ),
            all_from(r@, "pacman"@),
    {
        let versions = versions_from_pacman(version_output);
        let r = build_apps(&versions, "pacman", entries, owners);
        proof {
            lemma_built_apps_from(versions@, "pacman"@, entry_views(entries@), owners@);
            lemma_all_from_views(r@, "pacman"@);
        }
        r
    }

    /// `pacman -Rns --noconfirm <id>`, run as root.
    pub fn removal(&self, app: &App) -> (r: CommandLine)
        ensures
            r.argv() == seq!["pkexec"@, "pacman"@, "-Rns"@, "--noconfirm"@, app.id@],
    {
        privileged_removal("pacman", "-Rns", "--noconfirm", app.id.as_str())
    }
}

} // verus!
