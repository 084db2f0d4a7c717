//! Flatpak applications, from `flatpak list --app --columns=application,name,version`.
use vstd::prelude::*;

use crate::backend::{joined, texts, tool_run, ToolRun};
use crate::model::{all_from, apps_view, lemma_all_from_views, views_from, App, AppView};
use crate::text::{
    after_header, chars_of, find_char, lemma_after_header_push, lemma_lines_advance,
    lemma_lines_done, lemma_lines_start, lines, next_line, own, split_all, string_of, trim,
    trim_range,
};

verus! {

broadcast use vstd::string::group_string_axioms;

/// The app of one row of tab-separated columns: application id, name and
/// (optionally) version, each trimmed; rows with fewer than two columns or an
/// empty id give none.
pub open spec fn flatpak_row(line: Seq<char>) -> Option<AppView> {
    let cols = split_all(line, '\t');
    if cols.len() < 2 || trim(cols[0]).len() == 0 {
        None
    } else {
        Some(
            (
                trim(cols[0]),
                trim(cols[1]),
                if cols.len() >= 3 && trim(cols[2]).len() > 0 {
                    Some(trim(cols[2]))
                } else {
                    None
                },
                "flatpak"@,
                None,
            ),
        )
    }
}

/// The apps of the rows `ls`, in order.
pub open spec fn flatpak_apps(ls: Seq<Seq<char>>) -> Seq<AppView>
    decreases ls.len(),
{
    if ls.len() == 0 {
        seq![]
    } else {
        let acc = flatpak_apps(ls.drop_last());
        match flatpak_row(ls.last()) {
            Some(a) => acc.push(a),
            None => acc,
        }
    }
}

/// The end of the column that starts at `lo` in the line ending at `hi`.
fn column_end(v: &Vec<char>, lo: usize, hi: usize) -> (r: (usize, bool))
    requires
        lo <= hi <= v@.len(),
    ensures
        lo <= r.0 <= hi,
        r.1 ==> r.0 < hi && split_all(v@.subrange(lo as int, hi as int), '\t') == seq![
            v@.subrange(lo as int, r.0 as int),
        ] + split_all(v@.subrange(r.0 + 1, hi as int), '\t'),
        !r.1 ==> r.0 == hi && split_all(v@.subrange(lo as int, hi as int), '\t') == seq![
            v@.subrange(lo as int, hi as int),
        ],
{
    let ghost s = v@.subrange(lo as int, hi as int);
    match find_char(v, lo, hi, '\t') {
        Some(e) => {
            assert(s.take(e - lo) =~= v@.subrange(lo as int, e as int));
            assert(s.skip(e - lo + 1) =~= v@.subrange(e + 1, hi as int));
            (e, true)
        },
        None => (hi, false),
    }
}

/// Apps from the rows of `flatpak list` output after its header line.
pub fn parse_flatpak_list(stdout: &str) -> (r: Vec<App>)
    ensures
        apps_view(r@) == flatpak_apps(after_header(lines(stdout@))),
{
    let v = chars_of(stdout);
    let n = v.len();
    let mut apps: Vec<App> = Vec::new();
    let mut pos: usize = 0;
    let ghost mut done: Seq<Seq<char>> = seq![];
    proof {
        lemma_lines_start(v@);
    }
    while pos < n
        invariant
            n == v@.len(),
            pos <= n,
            lines(v@) == done + lines(v@.subrange(pos as int, n as int)),
            apps_view(apps@) == flatpak_apps(after_header(done)),
            (pos == 0) == (done.len() == 0),
        decreases n - pos,
    {
        let (a, b, next) = next_line(&v, pos);
        let ghost line = v@.subrange(a as int, b as int);
        let ghost acc = apps_view(apps@);
        proof {
            lemma_lines_advance(
                lines(v@),
                done,
                line,
                lines(v@.subrange(pos as int, n as int)),
                lines(v@.subrange(next as int, n as int)),
            );
            lemma_after_header_push(done, line);
            assert(after_header(done).push(line).drop_last() =~= after_header(done));
        }
        if pos > 0 {
            let (e0, more0) = column_end(&v, a, b);
            if more0 {
                let (e1, more1) = column_end(&v, e0 + 1, b);
                let ghost cols = split_all(line, '\t');
                assert(cols[0] == v@.subrange(a as int, e0 as int));
                assert(cols[1] == v@.subrange(e0 + 1, e1 as int));
                assert(cols.len() >= 3 <==> more1);
                let (ia, ib) = trim_range(&v, a, e0);
                if ia < ib {
                    let (na, nb) = trim_range(&v, e0 + 1, e1);
                    let id = string_of(&v, ia, ib);
                    let name = string_of(&v, na, nb);
                    let mut app = App::new(id.as_str(), name.as_str(), "flatpak");
                    if more1 {
                        let (e2, _) = column_end(&v, e1 + 1, b);
                        assert(cols[2] == v@.subrange(e1 + 1, e2 as int));
                        let (va, vb) = trim_range(&v, e1 + 1, e2);
                        if va < vb {
                            let version = string_of(&v, va, vb);
                            app = app.with_version(version.as_str());
                        }
                    }
                    apps.push(app);
                    assert(apps_view(apps@) =~= acc.push(app@));
                }
            }
        }
        proof {
            done = done.push(line);
        }
        pos = next;
    }
    proof {
        lemma_lines_done(v@, lines(v@), done);
    }
    apps
}

/// Every app of the rows is owned by flatpak.
proof fn lemma_flatpak_apps_from(ls: Seq<Seq<char>>)
    ensures
        views_from(flatpak_apps(ls), "flatpak"@),
    decreases ls.len(),
{
    if ls.len() > 0 {
        lemma_flatpak_apps_from(ls.drop_last());
    }
}

/// Flatpak applications.
#[derive(Debug, Clone, Copy, PartialEq, Eq)]
pub struct FlatpakBackend;

impl FlatpakBackend {
    /// `flatpak`, the identifier stored on every app of this backend.
    pub fn id(&self) -> (r: &'static str)
        ensures
            r@ == "flatpak"@,
    {
        "flatpak"
    }

    /// The tools probed to detect this backend.
    pub fn tools(&self) -> (r: Vec<&'static str>)
        ensures
            texts(r@) == seq!["flatpak"@],
    {
        let v = vec!["flatpak"];
        assert(texts(v@) =~= seq!["flatpak"@]);
        v
    }

    /// Available when `flatpak` was found.
    pub fn detect(&self, present: &Vec<bool>) -> (r: bool)
        requires
            present@.len() == 1,
        ensures
            r == present@[0],
    {
        present[0]
    }

    /// `flatpak list --app --columns=application,name,version`, reported as
    /// `flatpak list` when it fails.
    pub fn listing(&self) -> (r: ToolRun)
        ensures
            r.command.argv() == seq!["flatpak"@, "list"@, "--app"@, "--columns=application,name,version"@],
            r.action@ == "flatpak list"@,
    {
        let words = vec!["flatpak", "list", "--app", "--columns=application,name,version"];
        assert(texts(words@) =~= seq!["flatpak"@, "list"@, "--app"@, "--columns=application,name,version"@]);
        tool_run(&words, own("flatpak list"))
    }

    /// The apps in the listing's output, each owned by this backend.
    pub fn apps(&self, stdout: &str) -> (r: Vec<App>)
        ensures
            apps_view(r@) == flatpak_apps(after_header(lines(stdout@))),
            all_from(r@, "flatpak"@),
    {
        let r = parse_flatpak_list(stdout);
        proof {
            lemma_flatpak_apps_from(after_header(lines(stdout@)));
            lemma_all_from_views(r@, "flatpak"@);
        }
        r
    }

    /// `flatpak uninstall -y <id>`, reported as `flatpak uninstall <id>`.
    pub fn removal(&self, app: &App) -> (r: ToolRun)
        ensures
            r.command.argv() == seq!["flatpak"@, "uninstall"@, "-y"@, app.id@],
            r.action@ == "flatpak uninstall "@ + app.id@,
    {
        let words = vec!["flatpak", "uninstall", "-y", app.id.as_str()];
        assert(texts(words@) =~= seq!["flatpak"@, "uninstall"@, "-y"@, app.id@]);
        tool_run(&words, joined("flatpak uninstall ", app.id.as_str()))
    }
}

} // verus!
