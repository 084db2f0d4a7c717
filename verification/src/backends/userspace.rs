//! Language package managers: pip, npm and cargo.
use vstd::prelude::*;

use crate::backend::{joined, texts, tool_run, BackendError, ToolRun};
use crate::model::{all_from, apps_view, lemma_all_from_views, views_from, App, AppView};
use crate::text::{
    append_str, chars_of, find_char, find_pat, last_match, lemma_first_match_some,
    lemma_last_match_some, lemma_lines_advance, lemma_lines_done, lemma_lines_start, lines,
    next_line, own, rfind_pat, skip_leading, split_once_char, split_once_pat, string_of, trim,
    trim_range, trim_start_char,
};

verus! {

broadcast use vstd::string::group_string_axioms;

/// The pip to use: `pip3` when present, else `pip`.
pub fn pip_bin(pip3_available: bool, pip_available: bool) -> (r: Option<&'static str>)
    ensures
        pip3_available ==> r == Some("pip3"),
        !pip3_available && pip_available ==> r == Some("pip"),
        !pip3_available && !pip_available ==> r is None,
{
    if pip3_available {
        Some("pip3")
    } else if pip_available {
        Some("pip")
    } else {
        None
    }
}

/// The apps in `pip list --format=freeze` lines `name==version`.
pub open spec fn pip_apps(ls: Seq<Seq<char>>) -> Seq<AppView>
    decreases ls.len(),
{
    if ls.len() == 0 {
        seq![]
    } else {
        let acc = pip_apps(ls.drop_last());
        match split_once_pat(ls.last(), "=="@) {
            Some((n, v)) => if trim(n).len() > 0 {
                acc.push((trim(n), trim(n), Some(trim(v)), "pip"@, None))
            } else {
                acc
            },
            None => acc,
        }
    }
}

/// Apps from `pip list --format=freeze` output; editable installs and other
/// lines without `==` are skipped.
pub fn parse_pip_freeze(stdout: &str) -> (r: Vec<App>)
    ensures
        apps_view(r@) == pip_apps(lines(stdout@)),
{
    let v = chars_of(stdout);
    let sep = chars_of("==");
    let n = v.len();
    let mut apps: Vec<App> = Vec::new();
    let mut pos: usize = 0;
    let ghost mut done: Seq<Seq<char>> = seq![];
    proof {
        lemma_lines_start(v@);
        reveal_strlit("==");
    }
    while pos < n
        invariant
            n == v@.len(),
            sep@ == "=="@,
            sep@.len() == 2,
            pos <= n,
            lines(v@) == done + lines(v@.subrange(pos as int, n as int)),
            apps_view(apps@) == pip_apps(done),
        decreases n - pos,
    {
        let (a, b, next) = next_line(&v, pos);
        let ghost line = v@.subrange(a as int, b as int);
        let ghost acc = apps_view(apps@);
        proof {
            lemma_lines_advance(
                lines(v@),
                done,
                line,
                lines(v@.subrange(pos as int, n as int)),
                lines(v@.subrange(next as int, n as int)),
            );
            assert(done.push(line).drop_last() =~= done);
        }
        match find_pat(&v, a, b, &sep) {
            Some(e) => {
                proof {
                    lemma_first_match_some(line, sep@);
                }
                assert(line.take(e - a) =~= v@.subrange(a as int, e as int));
                assert(line.skip(e - a + 2) =~= v@.subrange(e + 2, b as int));
                let (na, nb) = trim_range(&v, a, e);
                if na < nb {
                    let (va, vb) = trim_range(&v, e + 2, b);
                    let name = string_of(&v, na, nb);
                    let version = string_of(&v, va, vb);
                    let app = App::new(name.as_str(), name.as_str(), "pip").with_version(
                        version.as_str(),
                    );
                    apps.push(app);
                    assert(apps_view(apps@) =~= acc.push(app@));
                }
            },
            None => {},
        }
        proof {
            done = done.push(line);
        }
        pos = next;
    }
    proof {
        lemma_lines_done(v@, lines(v@), done);
    }
    apps
}

/// The apps in `npm ls -g --depth=0 --parseable` lines: the path after the
/// last `node_modules/` names the package.
pub open spec fn npm_apps(ls: Seq<Seq<char>>) -> Seq<AppView>
    decreases ls.len(),
{
    if ls.len() == 0 {
        seq![]
    } else {
        let acc = npm_apps(ls.drop_last());
        let t = trim(ls.last());
        match last_match(t, "node_modules/"@) {
            Some(idx) => {
                let name = t.skip(idx + "node_modules/"@.len());
                if name.len() > 0 {
                    acc.push((name, name, None, "npm"@, None))
                } else {
                    acc
                }
            },
            None => acc,
        }
    }
}

/// Apps from `npm ls -g --depth=0 --parseable` output.
pub fn parse_npm_ls(stdout: &str) -> (r: Vec<App>)
    ensures
        apps_view(r@) == npm_apps(lines(stdout@)),
{
    let v = chars_of(stdout);
    let marker = chars_of("node_modules/");
    let n = v.len();
    let mut apps: Vec<App> = Vec::new();
    let mut pos: usize = 0;
    let ghost mut done: Seq<Seq<char>> = seq![];
    proof {
        lemma_lines_start(v@);
    }
    while pos < n
        invariant
            n == v@.len(),
            marker@ == "node_modules/"@,
            pos <= n,
            lines(v@) == done + lines(v@.subrange(pos as int, n as int)),
            apps_view(apps@) == npm_apps(done),
        decreases n - pos,
    {
        let (a, b, next) = next_line(&v, pos);
        let ghost line = v@.subrange(a as int, b as int);
        let ghost acc = apps_view(apps@);
        proof {
            lemma_lines_advance(
                lines(v@),
                done,
                line,
                lines(v@.subrange(pos as int, n as int)),
                lines(v@.subrange(next as int, n as int)),
            );
            assert(done.push(line).drop_last() =~= done);
        }
        let (ta, tb) = trim_range(&v, a, b);
        let ghost t = v@.subrange(ta as int, tb as int);
        match rfind_pat(&v, ta, tb, &marker) {
            Some(idx) => {
                proof {
                    lemma_last_match_some(t, marker@);
                }
                let start = idx + marker.len();
                assert(t.skip(idx - ta + marker@.len()) =~= v@.subrange(start as int, tb as int));
                if start < tb {
                    let name = string_of(&v, start, tb);
                    let app = App::new(name.as_str(), name.as_str(), "npm");
                    apps.push(app);
                    assert(apps_view(apps@) =~= acc.push(app@));
                }
            },
            None => {},
        }
        proof {
            done = done.push(line);
        }
        pos = next;
    }
    proof {
        lemma_lines_done(v@, lines(v@), done);
    }
    apps
}

/// The apps in `cargo install --list` output: header lines `name vX.Y.Z:`;
/// the indented binary lines below them do not end with `:` and are skipped.
pub open spec fn cargo_apps(ls: Seq<Seq<char>>) -> Seq<AppView>
    decreases ls.len(),
{
    if ls.len() == 0 {
        seq![]
    } else {
        let acc = cargo_apps(ls.drop_last());
        let t = trim(ls.last());
        if t.len() > 0 && t.last() == ':' {
            match split_once_char(t.drop_last(), ' ') {
                Some((n, v)) => if trim(n).len() > 0 {
                    acc.push(
                        (trim(n), trim(n), Some(trim_start_char(trim(v), 'v')), "cargo"@, None),
                    )
                } else {
                    acc
                },
                None => acc,
            }
        } else {
            acc
        }
    }
}

/// Apps from `cargo install --list` output.
pub fn parse_cargo_list(stdout: &str) -> (r: Vec<App>)
    ensures
        apps_view(r@) == cargo_apps(lines(stdout@)),
{
    let v = chars_of(stdout);
    let n = v.len();
    let mut apps: Vec<App> = Vec::new();
    let mut pos: usize = 0;
    let ghost mut done: Seq<Seq<char>> = seq![];
    proof {
        lemma_lines_start(v@);
    }
    while pos < n
        invariant
            n == v@.len(),
            pos <= n,
            lines(v@) == done + lines(v@.subrange(pos as int, n as int)),
            apps_view(apps@) == cargo_apps(done),
        decreases n - pos,
    {
        let (a, b, next) = next_line(&v, pos);
        let ghost line = v@.subrange(a as int, b as int);
        let ghost acc = apps_view(apps@);
        proof {
            lemma_lines_advance(
                lines(v@),
                done,
                line,
                lines(v@.subrange(pos as int, n as int)),
                lines(v@.subrange(next as int, n as int)),
            );
            assert(done.push(line).drop_last() =~= done);
        }
        let (ta, tb) = trim_range(&v, a, b);
        let ghost t = v@.subrange(ta as int, tb as int);
        if ta < tb && v[tb - 1] == ':' {
            let re = tb - 1;
            assert(t.drop_last() =~= v@.subrange(ta as int, re as int));
            match find_char(&v, ta, re, ' ') {
                Some(sp) => {
                    let ghost rest = v@.subrange(ta as int, re as int);
                    assert(rest.take(sp - ta) =~= v@.subrange(ta as int, sp as int));
                    assert(rest.skip(sp - ta + 1) =~= v@.subrange(sp + 1, re as int));
                    let (na, nb) = trim_range(&v, ta, sp);
                    if na < nb {
                        let (va, vb) = trim_range(&v, sp + 1, re);
                        let vs = skip_leading(&v, va, vb, 'v');
                        let name = string_of(&v, na, nb);
                        let version = string_of(&v, vs, vb);
                        let app = App::new(name.as_str(), name.as_str(), "cargo").with_version(
                            version.as_str(),
                        );
                        apps.push(app);
                        assert(apps_view(apps@) =~= acc.push(app@));
                    }
                },
                None => {},
            }
        }
        proof {
            done = done.push(line);
        }
        pos = next;
    }
    proof {
        lemma_lines_done(v@, lines(v@), done);
    }
    apps
}

/// Every app of pip's lines is owned by pip.
proof fn lemma_pip_apps_from(ls: Seq<Seq<char>>)
    ensures
        views_from(pip_apps(ls), "pip"@),
    decreases ls.len(),
{
    if ls.len() > 0 {
        lemma_pip_apps_from(ls.drop_last());
    }
}

/// Every app of npm's lines is owned by npm.
proof fn lemma_npm_apps_from(ls: Seq<Seq<char>>)
    ensures
        views_from(npm_apps(ls), "npm"@),
    decreases ls.len(),
{
    if ls.len() > 0 {
        lemma_npm_apps_from(ls.drop_last());
    }
}

/// Every app of cargo's lines is owned by cargo.
proof fn lemma_cargo_apps_from(ls: Seq<Seq<char>>)
    ensures
        views_from(cargo_apps(ls), "cargo"@),
    decreases ls.len(),
{
    if ls.len() > 0 {
        lemma_cargo_apps_from(ls.drop_last());
    }
}

/// A language package is shown under its own package name: the display name
/// of every pip, npm and cargo app is its identifier.
pub proof fn law_packages_are_named_by_their_id(ls: Seq<Seq<char>>)
    ensures
        forall|i: int| 0 <= i < pip_apps(ls).len() ==> (#[trigger] pip_apps(ls)[i]).1 == pip_apps(ls)[i].0,
        forall|i: int| 0 <= i < npm_apps(ls).len() ==> (#[trigger] npm_apps(ls)[i]).1 == npm_apps(ls)[i].0,
        forall|i: int|
            0 <= i < cargo_apps(ls).len() ==> (#[trigger] cargo_apps(ls)[i]).1 == cargo_apps(ls)[i].0,
    decreases ls.len(),
{
    if ls.len() > 0 {
        let prev = ls.drop_last();
        law_packages_are_named_by_their_id(prev);
        assert forall|i: int| 0 <= i < pip_apps(ls).len() implies (#[trigger] pip_apps(ls)[i]).1
            == pip_apps(ls)[i].0 by {
            if i < pip_apps(prev).len() {
                assert(pip_apps(ls)[i] == pip_apps(prev)[i]);
            }
        }
        assert forall|i: int| 0 <= i < npm_apps(ls).len() implies (#[trigger] npm_apps(ls)[i]).1
            == npm_apps(ls)[i].0 by {
            if i < npm_apps(prev).len() {
                assert(npm_apps(ls)[i] == npm_apps(prev)[i]);
            }
        }
        assert forall|i: int| 0 <= i < cargo_apps(ls).len() implies (#[trigger] cargo_apps(
            ls,
        )[i]).1 == cargo_apps(ls)[i].0 by {
            if i < cargo_apps(prev).len() {
                assert(cargo_apps(ls)[i] == cargo_apps(prev)[i]);
            }
        }
    }
}

/// The pip that is used: `pip3` when present, else `pip`.
pub open spec fn pip_choice(pip3_available: bool, pip_available: bool) -> Option<Seq<char>> {
    if pip3_available {
        Some("pip3"@)
    } else if pip_available {
        Some("pip"@)
    } else {
        None
    }
}

/// Packages installed for the user with pip.
#[derive(Debug, Clone, Copy, PartialEq, Eq)]
pub struct PipBackend;

impl PipBackend {
    /// `pip`, the identifier stored on every app of this backend.
    pub fn id(&self) -> (r: &'static str)
        ensures
            r@ == "pip"@,
    {
        "pip"
    }

    /// The tools probed to detect this backend: either will do.
    pub fn tools(&self) -> (r: Vec<&'static str>)
        ensures
            texts(r@) == seq!["pip3"@, "pip"@],
    {
        let v = vec!["pip3", "pip"];
        assert(texts(v@) =~= seq!["pip3"@, "pip"@]);
        v
    }

    /// Available when `pip3` or `pip` was found.
    pub fn detect(&self, present: &Vec<bool>) -> (r: bool)
        requires
            present@.len() == 2,
        ensures
            r == (present@[0] || present@[1]),
    {
        pip_bin(present[0], present[1]).is_some()
    }

    /// The pip found among the probed tools.
    fn bin(&self, present: &Vec<bool>) -> (r: Result<&'static str, BackendError>)
        requires
            present@.len() == 2,
        ensures
            match pip_choice(present@[0], present@[1]) {
                Some(b) => r matches Ok(found) && found@ == b,
                None => r matches Err(e) && e.0@ == "pip is not installed"@,
            },
    {
        match pip_bin(present[0], present[1]) {
            Some(b) => Ok(b),
            None => Err(BackendError(own("pip is not installed"))),
        }
    }

    /// `<pip> list --user --format=freeze`, reported as `<pip> list` when it
    /// fails; an error when no pip was found.
    pub fn listing(&self, present: &Vec<bool>) -> (r: Result<ToolRun, BackendError>)
        requires
            present@.len() == 2,
        ensures
            match pip_choice(present@[0], present@[1]) {
                Some(b) => r matches Ok(t) && t.command.argv() == seq![b, "list"@, "--user"@, "--format=freeze"@]
                    && t.action@ == b + " list"@,
                None => r matches Err(e) && e.0@ == "pip is not installed"@,
            },
    {
        let bin = self.bin(present)?;
        let words = vec![bin, "list", "--user", "--format=freeze"];
        assert(texts(words@) =~= seq![bin@, "list"@, "--user"@, "--format=freeze"@]);
        Ok(tool_run(&words, joined(bin, " list")))
    }

    /// The apps in the listing's output, each owned by this backend.
    pub fn apps(&self, stdout: &str) -> (r: Vec<App>)
        ensures
            apps_view(r@) == pip_apps(lines(stdout@)),
            all_from(r@, "pip"@),
    {
        let r = parse_pip_freeze(stdout);
        proof {
            lemma_pip_apps_from(lines(stdout@));
            lemma_all_from_views(r@, "pip"@);
        }
        r
    }

    /// `<pip> uninstall -y <id>`, reported as `<pip> uninstall <id>`; an error
    /// when no pip was found.
    pub fn removal(&self, present: &Vec<bool>, app: &App) -> (r: Result<ToolRun, BackendError>)
        requires
            present@.len() == 2,
        ensures
            match pip_choice(present@[0], present@[1]) {
                Some(b) => r matches Ok(t) && t.command.argv() == seq![b, "uninstall"@, "-y"@, app.id@]
                    && t.action@ == b + " uninstall "@ + app.id@,
                None => r matches Err(e) && e.0@ == "pip is not installed"@,
            },
    {
        let bin = self.bin(present)?;
        let words = vec![bin, "uninstall", "-y", app.id.as_str()];
        assert(texts(words@) =~= seq![bin@, "uninstall"@, "-y"@, app.id@]);
        let mut action = joined(bin, " uninstall ");
        append_str(&mut action, app.id.as_str());
        Ok(tool_run(&words, action))
    }
}

/// Packages installed globally with npm.
#[derive(Debug, Clone, Copy, PartialEq, Eq)]
pub struct NpmBackend;

impl NpmBackend {
    /// `npm`, the identifier stored on every app of this backend.
    pub fn id(&self) -> (r: &'static str)
        ensures
            r@ == "npm"@,
    {
        "npm"
    }

    /// The tools probed to detect this backend.
    pub fn tools(&self) -> (r: Vec<&'static str>)
        ensures
            texts(r@) == seq!["npm"@],
    {
        let v = vec!["npm"];
        assert(texts(v@) =~= seq!["npm"@]);
        v
    }

    /// Available when `npm` was found.
    pub fn detect(&self, present: &Vec<bool>) -> (r: bool)
        requires
            present@.len() == 1,
        ensures
            r == present@[0],
    {
        present[0]
    }

    /// `npm ls -g --depth=0 --parseable`, reported as `npm ls` when it fails.
    pub fn listing(&self) -> (r: ToolRun)
        ensures
            r.command.argv() == seq!["npm"@, "ls"@, "-g"@, "--depth=0"@, "--parseable"@],
            r.action@ == "npm ls"@,
    {
        let words = vec!["npm", "ls", "-g", "--depth=0", "--parseable"];
        assert(texts(words@) =~= seq!["npm"@, "ls"@, "-g"@, "--depth=0"@, "--parseable"@]);
        tool_run(&words, own("npm ls"))
    }

    /// The apps in the listing's output, each owned by this backend.
    pub fn apps(&self, stdout: &str) -> (r: Vec<App>)
        ensures
            apps_view(r@) == npm_apps(lines(stdout@)),
            all_from(r@, "npm"@),
    {
        let r = parse_npm_ls(stdout);
        proof {
            lemma_npm_apps_from(lines(stdout@));
            lemma_all_from_views(r@, "npm"@);
        }
        r
    }

    /// `npm uninstall -g <id>`, reported as `npm uninstall <id>`.
    pub fn removal(&self, app: &App) -> (r: ToolRun)
        ensures
            r.command.argv() == seq!["npm"@, "uninstall"@, "-g"@, app.id@],
            r.action@ == "npm uninstall "@ + app.id@,
    {
        let words = vec!["npm", "uninstall", "-g", app.id.as_str()];
        assert(texts(words@) =~= seq!["npm"@, "uninstall"@, "-g"@, app.id@]);
        tool_run(&words, joined("npm uninstall ", app.id.as_str()))
    }
}

/// Crates installed with `cargo install`.
#[derive(Debug, Clone, Copy, PartialEq, Eq)]
pub struct CargoBackend;

impl CargoBackend {
    /// `cargo`, the identifier stored on every app of this backend.
    pub fn id(&self) -> (r: &'static str)
        ensures
            r@ == "cargo"@,
    {
        "cargo"
    }

    /// The tools probed to detect this backend.
    pub fn tools(&self) -> (r: Vec<&'static str>)
        ensures
            texts(r@) == seq!["cargo"@],
    {
        let v = vec!["cargo"];
        assert(texts(v@) =~= seq!["cargo"@]);
        v
    }

    /// Available when `cargo` was found.
    pub fn detect(&self, present: &Vec<bool>) -> (r: bool)
        requires
            present@.len() == 1,
        ensures
            r == present@[0],
    {
        present[0]
    }

    /// `cargo install --list`, reported under that name when it fails.
    pub fn listing(&self) -> (r: ToolRun)
        ensures
            r.command.argv() == seq!["cargo"@, "install"@, "--list"@],
            r.action@ == "cargo install --list"@,
    {
        let words = vec!["cargo", "install", "--list"];
        assert(texts(words@) =~= seq!["cargo"@, "install"@, "--list"@]);
        tool_run(&words, own("cargo install --list"))
    }

    /// The apps in the listing's output, each owned by this backend.
    pub fn apps(&self, stdout: &str) -> (r: Vec<App>)
        ensures
            apps_view(r@) == cargo_apps(lines(stdout@)),
            all_from(r@, "cargo"@),
    {
        let r = parse_cargo_list(stdout);
        proof {
            lemma_cargo_apps_from(lines(stdout@));
            lemma_all_from_views(r@, "cargo"@);
        }
        r
    }

    /// `cargo uninstall <id>`, reported as `cargo uninstall <id>`: cargo's own
    /// uninstall removes the crate from cargo's registry, not just its
    /// binaries, so it stops showing up on the next listing.
    pub fn removal(&self, app: &App) -> (r: ToolRun)
        ensures
            r.command.argv() == seq!["cargo"@, "uninstall"@, app.id@],
            r.action@ == "cargo uninstall "@ + app.id@,
    {
        let words = vec!["cargo", "uninstall", app.id.as_str()];
        assert(texts(words@) =~= seq!["cargo"@, "uninstall"@, app.id@]);
        tool_run(&words, joined("cargo uninstall ", app.id.as_str()))
    }
}

} // verus!
