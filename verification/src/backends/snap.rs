//! Snap packages: versions from `snap list`, names and icons from the desktop
//! files that snapd exports.
use vstd::prelude::*;

use crate::backends::desktop::{
    desktop_icon, desktop_name, first_entry_value, first_value, is_visible_app, visible,
};
use crate::backend::{joined, texts, tool_run, ToolRun};
use crate::backends::distro::{has_id, map_get};
use crate::model::{all_from, apps_view, copy_opt, lemma_all_from_views, views_from, App, AppView};
use crate::path::{file_stem, path_file_stem};
use crate::sort::{lemma_sorted_all_from, sort_by_lower_name, sorted_by_lower_name};
use crate::table::TextMap;
use crate::text::{
    after_header, chars_of, find_char, lemma_after_header_push, lemma_first_word_shrinks,
    lemma_lines_advance, lemma_lines_done, lemma_lines_start, lines, next_line, next_word,
    opt_view, own, split_once_char, string_of, words,
};

verus! {

broadcast use vstd::string::group_string_axioms;

/// Snap name to version, from the rows of `snap list` after its header: the
/// first two words of a row.
pub open spec fn snap_versions_map(ls: Seq<Seq<char>>) -> Map<Seq<char>, Seq<char>>
    decreases ls.len(),
{
    if ls.len() == 0 {
        Map::empty()
    } else {
        let m = snap_versions_map(ls.drop_last());
        let w = words(ls.last());
        if w.len() >= 2 {
            m.insert(w[0], w[1])
        } else {
            m
        }
    }
}

/// Snap name -> version, parsed from `snap list` output.
pub fn versions_from_snap_list(out: &str) -> (r: TextMap)
    ensures
        r@ == snap_versions_map(after_header(lines(out@))),
{
    let v = chars_of(out);
    let n = v.len();
    let mut map = TextMap::new();
    let mut pos: usize = 0;
    let ghost mut done: Seq<Seq<char>> = seq![];
    proof {
        lemma_lines_start(v@);
    }
    while pos < n
        invariant
            n == v@.len(),
            pos <= n,
            lines(v@) == done + lines(v@.subrange(pos as int, n as int)),
            map@ == snap_versions_map(after_header(done)),
            (pos == 0) == (done.len() == 0),
        decreases n - pos,
    {
        let (a, b, next) = next_line(&v, pos);
        let ghost line = v@.subrange(a as int, b as int);
        proof {
            lemma_lines_advance(
                lines(v@),
                done,
                line,
                lines(v@.subrange(pos as int, n as int)),
                lines(v@.subrange(next as int, n as int)),
            );
            lemma_after_header_push(done, line);
            assert(after_header(done).push(line).drop_last() =~= after_header(done));
        }
        if pos > 0 {
            match next_word(&v, a, b) {
                Some((w0s, w0e)) => {
                    proof {
                        lemma_first_word_shrinks(line);
                    }
                    match next_word(&v, w0e, b) {
                        Some((w1s, w1e)) => {
                            proof {
                                lemma_first_word_shrinks(v@.subrange(w0e as int, b as int));
                                assert(words(line)[0] == v@.subrange(w0s as int, w0e as int));
                                assert(words(v@.subrange(w0e as int, b as int))[0] == v@.subrange(
                                    w1s as int,
                                    w1e as int,
                                ));
                            }
                            map.insert(string_of(&v, w0s, w0e), string_of(&v, w1s, w1e));
                        },
                        None => {
                            assert(words(v@.subrange(w0e as int, b as int)).len() == 0);
                            assert(words(line).len() == 1);
                        },
                    }
                },
                None => {
                    assert(words(line).len() == 0);
                },
            }
        }
        proof {
            done = done.push(line);
        }
        pos = next;
    }
    proof {
        lemma_lines_done(v@, lines(v@), done);
    }
    map
}

/// The snap instance name, display name and icon of an exported snap desktop
/// file; `None` when the entry is not a visible application or names no snap.
pub open spec fn snap_desktop(content: Seq<char>) -> Option<
    (Seq<char>, Seq<char>, Option<Seq<char>>),
> {
    if !visible(content) {
        None
    } else {
        match first_value(lines(content), "X-SnapInstanceName"@) {
            Some(snap) => Some((snap, desktop_name(content), desktop_icon(content))),
            None => None,
        }
    }
}

/// Extract the snap instance name, display Name, and Icon from an exported
/// snap desktop file.
pub fn parse_snap_desktop(content: &str) -> (r: Option<(String, String, Option<String>)>)
    ensures
        match r {
            Some((snap, name, icon)) => snap_desktop(content@) == Some(
                (snap@, name@, opt_view(icon)),
            ),
            None => snap_desktop(content@) is None,
        },
{
    if !is_visible_app(content) {
        return None;
    }
    let v = chars_of(content);
    let snap_key = chars_of("X-SnapInstanceName");
    let name_key = chars_of("Name");
    let icon_key = chars_of("Icon");
    let snap = first_entry_value(&v, &snap_key);
    let name = first_entry_value(&v, &name_key);
    let icon = first_entry_value(&v, &icon_key);
    match snap {
        Some(snap) => {
            let name = match name {
                Some(n) => n,
                None => String::new(),
            };
            Some((snap, name, icon))
        },
        None => None,
    }
}

/// The desktop file is the snap's main one: its stem is `<snap>_<app>` with
/// the app named like the snap.
pub open spec fn canonical_entry(path: Seq<char>, snap: Seq<char>) -> bool {
    match file_stem(path) {
        Some(stem) => match split_once_char(stem, '_') {
            Some((_, rest)) => rest == snap,
            None => false,
        },
        None => false,
    }
}

/// Whether the desktop file at `path` is the main entry of `snap`.
pub fn is_canonical_entry(path: &str, snap: &str) -> (r: bool)
    ensures
        r == canonical_entry(path@, snap@),
{
    match path_file_stem(path) {
        Some(stem) => {
            let v = chars_of(stem.as_str());
            let s = chars_of(snap);
            assert(v@.subrange(0, v@.len() as int) =~= v@);
            match find_char(&v, 0, v.len(), '_') {
                Some(u) => {
                    assert(v@.skip(u + 1) =~= v@.subrange(u + 1, v@.len() as int));
                    crate::text::range_eq(&v, u + 1, v.len(), &s)
                },
                None => false,
            }
        },
        None => false,
    }
}

/// A found snap entry: snap name, display name, icon, and whether it is canonical.
pub type SnapEntryView = (Seq<char>, Seq<char>, Option<Seq<char>>, bool);

/// The entries whose canonical flag is `flag`, without the flag, in order.
pub open spec fn pick(entries: Seq<SnapEntryView>, flag: bool) -> Seq<
    (Seq<char>, Seq<char>, Option<Seq<char>>),
>
    decreases entries.len(),
{
    if entries.len() == 0 {
        seq![]
    } else {
        let prev = pick(entries.drop_last(), flag);
        let e = entries.last();
        if e.3 == flag {
            prev.push((e.0, e.1, e.2))
        } else {
            prev
        }
    }
}

/// What a list of found snap entries says.
pub open spec fn snap_entry_views(entries: Seq<(String, String, Option<String>, bool)>) -> Seq<
    SnapEntryView,
> {
    entries.map_values(|e: (String, String, Option<String>, bool)| (e.0@, e.1@, opt_view(e.2), e.3))
}

/// What a list of snap entries says.
pub open spec fn triple_views(entries: Seq<(String, String, Option<String>)>) -> Seq<
    (Seq<char>, Seq<char>, Option<Seq<char>>),
> {
    entries.map_values(|e: (String, String, Option<String>)| (e.0@, e.1@, opt_view(e.2)))
}

fn collect_flagged(
    entries: &Vec<(String, String, Option<String>, bool)>,
    flag: bool,
    out: &mut Vec<(String, String, Option<String>)>,
)
    ensures
        triple_views(final(out)@) == triple_views(old(out)@) + pick(
            snap_entry_views(entries@),
            flag,
        ),
{
    let ghost ev = snap_entry_views(entries@);
    let ghost start = triple_views(out@);
    let mut i: usize = 0;
    while i < entries.len()
        invariant
            i <= entries@.len(),
            ev == snap_entry_views(entries@),
            triple_views(out@) == start + pick(ev.take(i as int), flag),
        decreases entries@.len() - i,
    {
        let ghost before = triple_views(out@);
        assert(ev.take(i + 1).drop_last() =~= ev.take(i as int));
        let (snap, name, icon, canonical) = &entries[i];
        if *canonical == flag {
            out.push((snap.clone(), name.clone(), copy_opt(icon)));
            assert(triple_views(out@) =~= before.push((snap@, name@, opt_view(*icon))));
            assert(start + pick(ev.take(i + 1), flag) =~= (start + pick(ev.take(i as int), flag)).push((snap@, name@, opt_view(*icon))));
        }
        i = i + 1;
    }
    assert(ev.take(entries@.len() as int) =~= ev);
}

/// What a snap entry says: snap name, display name, icon.
pub type SnapTriple = (Seq<char>, Seq<char>, Option<Seq<char>>);

/// Some entry of `es` belongs to snap `s`.
pub open spec fn has_snap(es: Seq<SnapTriple>, s: Seq<char>) -> bool {
    exists|i: int| 0 <= i < es.len() && (#[trigger] es[i]).0 == s
}

/// The first entry of each snap, in order.
pub open spec fn first_per_snap(es: Seq<SnapTriple>) -> Seq<SnapTriple>
    decreases es.len(),
{
    if es.len() == 0 {
        seq![]
    } else {
        let acc = first_per_snap(es.drop_last());
        if has_snap(acc, es.last().0) {
            acc
        } else {
            acc.push(es.last())
        }
    }
}

/// The entries kept are entries of `es`; every snap of `es` keeps one; no
/// snap keeps two.
pub proof fn lemma_first_per_snap(es: Seq<SnapTriple>)
    ensures
        forall|k: int| 0 <= k < first_per_snap(es).len() ==> es.contains(#[trigger] first_per_snap(es)[k]),
        forall|s: Seq<char>| #[trigger] has_snap(first_per_snap(es), s) == has_snap(es, s),
        forall|a: int, b: int|
            0 <= a < b < first_per_snap(es).len() ==> (#[trigger] first_per_snap(es)[a]).0
                != (#[trigger] first_per_snap(es)[b]).0,
    decreases es.len(),
{
    if es.len() > 0 {
        let prev = es.drop_last();
        lemma_first_per_snap(prev);
        let acc = first_per_snap(prev);
        let r = first_per_snap(es);
        assert forall|k: int| 0 <= k < r.len() implies es.contains(#[trigger] r[k]) by {
            if k < acc.len() {
                assert(r[k] == acc[k]);
                let i = choose|i: int| 0 <= i < prev.len() && prev[i] == acc[k];
                assert(es[i] == prev[i]);
            } else {
                assert(es[es.len() - 1] == r[k]);
            }
        }
        assert forall|s: Seq<char>| #[trigger] has_snap(r, s) == has_snap(es, s) by {
            if has_snap(es, s) {
                let i = choose|i: int| 0 <= i < es.len() && (#[trigger] es[i]).0 == s;
                if i < prev.len() {
                    assert(prev[i].0 == s);
                    assert(has_snap(acc, s));
                    let k = choose|k: int| 0 <= k < acc.len() && (#[trigger] acc[k]).0 == s;
                    assert(r[k] == acc[k]);
                } else if !has_snap(acc, es.last().0) {
                    assert(r[acc.len() as int] == es.last());
                }
            }
            if has_snap(r, s) {
                let k = choose|k: int| 0 <= k < r.len() && (#[trigger] r[k]).0 == s;
                if k < acc.len() {
                    assert(r[k] == acc[k]);
                    assert(has_snap(acc, s));
                    let i = choose|i: int| 0 <= i < prev.len() && (#[trigger] prev[i]).0 == s;
                    assert(es[i] == prev[i]);
                } else {
                    assert(es[es.len() - 1] == r[k]);
                }
            }
        }
        assert forall|a: int, b: int| 0 <= a < b < r.len() implies (#[trigger] r[a]).0
            != (#[trigger] r[b]).0 by {
            if b < acc.len() {
                assert(r[a] == acc[a] && r[b] == acc[b]);
            } else {
                assert(r[a] == acc[a]);
                assert(!has_snap(acc, es.last().0));
                assert(r[b] == es.last());
            }
        }
    }
}

/// Entries put after `front` keep only snaps that `front` lacks: what is kept
/// of `front` is kept first and unchanged.
proof fn lemma_first_per_snap_front(front: Seq<SnapTriple>, rest: Seq<SnapTriple>)
    ensures
        first_per_snap(front + rest).len() >= first_per_snap(front).len(),
        first_per_snap(front + rest).take(first_per_snap(front).len() as int) == first_per_snap(front),
        forall|k: int|
            first_per_snap(front).len() <= k < first_per_snap(front + rest).len() ==> !has_snap(
                front,
                (#[trigger] first_per_snap(front + rest)[k]).0,
            ),
    decreases rest.len(),
{
    if rest.len() == 0 {
        assert(front + rest =~= front);
    } else {
        let shorter = rest.drop_last();
        lemma_first_per_snap_front(front, shorter);
        assert((front + rest).drop_last() =~= front + shorter);
        assert((front + rest).last() == rest.last());
        let acc = first_per_snap(front + shorter);
        lemma_first_per_snap(front + shorter);
        lemma_first_per_snap(front);
        let r = first_per_snap(front + rest);
        let n = first_per_snap(front).len() as int;
        if !has_snap(acc, rest.last().0) {
            assert(r.take(n) =~= acc.take(n));
            assert forall|k: int| n <= k < r.len() implies !has_snap(front, (#[trigger] r[k]).0) by {
                if k < acc.len() {
                    assert(r[k] == acc[k]);
                } else {
                    assert(r[k] == rest.last());
                    if has_snap(front, rest.last().0) {
                        let i = choose|i: int| 0 <= i < front.len() && (#[trigger] front[i]).0 == rest.last().0;
                        assert((front + shorter)[i] == front[i]);
                        assert(has_snap(front + shorter, rest.last().0));
                    }
                }
            }
        }
    }
}

/// One entry per snap; where a snap has a canonical entry, the canonical
/// entry that comes first is the one kept; every snap with an entry keeps one.
pub proof fn law_one_entry_per_snap(entries: Seq<SnapEntryView>)
    ensures
        ({
            let r = first_per_snap(pick(entries, true) + pick(entries, false));
            &&& forall|a: int, b: int| 0 <= a < b < r.len() ==> (#[trigger] r[a]).0 != (#[trigger] r[b]).0
            &&& forall|s: Seq<char>|
                #[trigger] has_snap(r, s) == has_snap(pick(entries, true) + pick(entries, false), s)
            &&& forall|k: int|
                0 <= k < r.len() && has_snap(pick(entries, true), (#[trigger] r[k]).0)
                    ==> pick(entries, true).contains(r[k])
        }),
{
    let front = pick(entries, true);
    let rest = pick(entries, false);
    let r = first_per_snap(front + rest);
    lemma_first_per_snap(front + rest);
    lemma_first_per_snap(front);
    lemma_first_per_snap_front(front, rest);
    let n = first_per_snap(front).len() as int;
    assert forall|k: int|
        0 <= k < r.len() && has_snap(front, (#[trigger] r[k]).0) implies front.contains(r[k]) by {
        if k >= n {
        } else {
            assert(r.take(n)[k] == first_per_snap(front)[k]);
        }
    }
}

/// Whether some entry of `out` belongs to snap `s`.
fn has_snap_entry(out: &Vec<(String, String, Option<String>)>, s: &String) -> (r: bool)
    ensures
        r == has_snap(triple_views(out@), s@),
{
    let mut i: usize = 0;
    while i < out.len()
        invariant
            i <= out@.len(),
            forall|j: int| 0 <= j < i ==> out@[j].0@ != s@,
        decreases out@.len() - i,
    {
        if out[i].0 == *s {
            assert(triple_views(out@)[i as int].0 == s@);
            return true;
        }
        i = i + 1;
    }
    false
}

/// One entry per snap, canonical entries preferred: canonical entries are
/// put first (otherwise the order is kept), then only the first entry of
/// each snap is kept.
pub fn canonical_first(entries: &Vec<(String, String, Option<String>, bool)>) -> (r: Vec<
    (String, String, Option<String>),
>)
    ensures
        triple_views(r@) == first_per_snap(
            pick(snap_entry_views(entries@), true) + pick(snap_entry_views(entries@), false),
        ),
{
    let mut ordered: Vec<(String, String, Option<String>)> = Vec::new();
    assert(triple_views(ordered@) =~= Seq::<SnapTriple>::empty());
    collect_flagged(entries, true, &mut ordered);
    collect_flagged(entries, false, &mut ordered);
    assert(Seq::<SnapTriple>::empty() + pick(snap_entry_views(entries@), true) =~= pick(
        snap_entry_views(entries@),
        true,
    ));
    let ghost all = triple_views(ordered@);
    let mut out: Vec<(String, String, Option<String>)> = Vec::new();
    let mut i: usize = 0;
    while i < ordered.len()
        invariant
            i <= ordered@.len(),
            all == triple_views(ordered@),
            triple_views(out@) == first_per_snap(all.take(i as int)),
        decreases ordered@.len() - i,
    {
        assert(all.take(i + 1).drop_last() =~= all.take(i as int));
        assert(all.take(i + 1).last() == all[i as int]);
        let ghost before = triple_views(out@);
        let (snap, name, icon) = &ordered[i];
        if !has_snap_entry(&out, snap) {
            out.push((snap.clone(), name.clone(), copy_opt(icon)));
            assert(triple_views(out@) =~= before.push((snap@, name@, opt_view(*icon))));
        }
        i = i + 1;
    }
    assert(all.take(i as int) =~= all);
    out
}

/// The apps of visible snap entries: one per snap that `snap list` reports,
/// first entry winning, the snap name standing in for an empty display name.
pub open spec fn snap_rows(
    versions: Map<Seq<char>, Seq<char>>,
    entries: Seq<(Seq<char>, Seq<char>, Option<Seq<char>>)>,
) -> Seq<AppView>
    decreases entries.len(),
{
    if entries.len() == 0 {
        seq![]
    } else {
        let acc = snap_rows(versions, entries.drop_last());
        let (snap, name, icon) = entries.last();
        if !versions.contains_key(snap) || has_id(acc, snap) {
            acc
        } else {
            acc.push(
                (
                    snap,
                    if name.len() == 0 {
                        snap
                    } else {
                        name
                    },
                    map_get(versions, snap),
                    "snap"@,
                    icon,
                ),
            )
        }
    }
}


/// Every snap app is one that `snap list` reports, with its version, and no
/// snap is listed twice.
pub proof fn law_snap_rows_are_listed_once(
    versions: Map<Seq<char>, Seq<char>>,
    entries: Seq<(Seq<char>, Seq<char>, Option<Seq<char>>)>,
)
    ensures
        forall|i: int|
            0 <= i < snap_rows(versions, entries).len() ==> versions.contains_key(
                (#[trigger] snap_rows(versions, entries)[i]).0,
            ) && snap_rows(versions, entries)[i].2 == Some(
                versions[snap_rows(versions, entries)[i].0],
            ),
        forall|i: int, j: int|
            #![trigger snap_rows(versions, entries)[i], snap_rows(versions, entries)[j]]
            0 <= i < j < snap_rows(versions, entries).len() ==> snap_rows(versions, entries)[i].0
                != snap_rows(versions, entries)[j].0,
    decreases entries.len(),
{
    if entries.len() > 0 {
        law_snap_rows_are_listed_once(versions, entries.drop_last());
        let acc = snap_rows(versions, entries.drop_last());
        let r = snap_rows(versions, entries);
        if r.len() > acc.len() {
            assert forall|i: int, j: int| 0 <= i < j < r.len() implies r[i].0 != r[j].0 by {
                if j == acc.len() {
                    assert(r[i] == acc[i]);
                    assert(!has_id(acc, r[j].0));
                } else {
                    assert(r[i] == acc[i] && r[j] == acc[j]);
                }
            }
            assert forall|i: int| 0 <= i < r.len() implies versions.contains_key(
                (#[trigger] r[i]).0,
            ) && r[i].2 == Some(versions[r[i].0]) by {
                if i < acc.len() {
                    assert(r[i] == acc[i]);
                }
            }
        }
    }
}

fn contains_snap(apps: &Vec<App>, id: &String) -> (r: bool)
    ensures
        r == has_id(apps_view(apps@), id@),
{
    let mut i: usize = 0;
    while i < apps.len()
        invariant
            i <= apps@.len(),
            forall|j: int| 0 <= j < i ==> apps@[j].id@ != id@,
        decreases apps@.len() - i,
    {
        if apps[i].id == *id {
            assert(apps_view(apps@)[i as int].0 == id@);
            return true;
        }
        i = i + 1;
    }
    false
}

/// Build the App list from visible snap desktop entries, dropping snaps with
/// no visible entry (bases, runtimes, and CLI-only snaps), sorted by name.
pub fn snap_apps(entries: &Vec<(String, String, Option<String>)>, versions: &TextMap) -> (r: Vec<
    App,
>)
    ensures
        exists|found: Seq<App>|
            #![trigger sorted_by_lower_name(found, r@)]
            apps_view(found) == snap_rows(versions@, triple_views(entries@)) && sorted_by_lower_name(
                found,
                r@,
            ),
{
    let ghost ev = triple_views(entries@);
    let mut apps: Vec<App> = Vec::new();
    let mut i: usize = 0;
    while i < entries.len()
        invariant
            i <= entries@.len(),
            ev == triple_views(entries@),
            apps_view(apps@) == snap_rows(versions@, ev.take(i as int)),
        decreases entries@.len() - i,
    {
        let ghost acc = apps_view(apps@);
        assert(ev.take(i + 1).drop_last() =~= ev.take(i as int));
        let (snap, name, icon) = &entries[i];
        match versions.get(snap.as_str()) {
            Some(version) => {
                if !contains_snap(&apps, snap) {
                    let shown: &str = if name.as_str().is_empty() {
                        snap.as_str()
                    } else {
                        name.as_str()
                    };
                    let mut app = App::new(snap.as_str(), shown, "snap").with_version(
                        version.as_str(),
                    );
                    match icon {
                        Some(icon) => {
                            app = app.with_icon(icon.as_str());
                        },
                        None => {},
                    }
                    apps.push(app);
                    assert(apps_view(apps@) =~= acc.push(app@));
                }
            },
            None => {},
        }
        i = i + 1;
    }
    assert(ev.take(entries@.len() as int) =~= ev);
    let ghost found = apps@;
    let r = sort_by_lower_name(apps);
    assert(sorted_by_lower_name(found, r@));
    r
}

/// Every snap row is owned by snap.
proof fn lemma_snap_rows_from(
    versions: Map<Seq<char>, Seq<char>>,
    entries: Seq<(Seq<char>, Seq<char>, Option<Seq<char>>)>,
)
    ensures
        views_from(snap_rows(versions, entries), "snap"@),
    decreases entries.len(),
{
    if entries.len() > 0 {
        lemma_snap_rows_from(versions, entries.drop_last());
    }
}

/// Snap packages.
#[derive(Debug, Clone, Copy, PartialEq, Eq)]
pub struct SnapBackend;

impl SnapBackend {
    /// `snap`, the identifier stored on every app of this backend.
    pub fn id(&self) -> (r: &'static str)
        ensures
            r@ == "snap"@,
    {
        "snap"
    }

    /// The tools probed to detect this backend.
    pub fn tools(&self) -> (r: Vec<&'static str>)
        ensures
            texts(r@) == seq!["snap"@],
    {
        let v = vec!["snap"];
        assert(texts(v@) =~= seq!["snap"@]);
        v
    }

    /// Available when `snap` was found.
    pub fn detect(&self, present: &Vec<bool>) -> (r: bool)
        requires
            present@.len() == 1,
        ensures
            r == present@[0],
    {
        present[0]
    }

    /// `snap list`, reported as `snap list` when it fails.
    pub fn listing(&self) -> (r: ToolRun)
        ensures
            r.command.argv() == seq!["snap"@, "list"@],
            r.action@ == "snap list"@,
    {
        let words = vec!["snap", "list"];
        assert(texts(words@) =~= seq!["snap"@, "list"@]);
        tool_run(&words, own("snap list"))
    }

    /// The folder where snapd exports the snaps' desktop files.
    pub fn desktop_dir(&self) -> (r: &'static str)
        ensures
            r@ == "/var/lib/snapd/desktop/applications"@,
    {
        "/var/lib/snapd/desktop/applications"
    }

    /// The entry of the exported desktop file at `path`: snap name, display
    /// name, icon, and whether it is the snap's canonical entry; none when the
    /// file is not a visible application of a snap.
    pub fn entry(&self, path: &str, content: &str) -> (r: Option<(String, String, Option<String>, bool)>)
        ensures
            match snap_desktop(content@) {
                Some((snap, name, icon)) => r matches Some(e) && e.0@ == snap && e.1@ == name
                    && opt_view(e.2) == icon && e.3 == canonical_entry(path@, snap),
                None => r is None,
            },
    {
        match parse_snap_desktop(content) {
            Some((snap, name, icon)) => {
                let canonical = is_canonical_entry(path, snap.as_str());
                Some((snap, name, icon, canonical))
            },
            None => None,
        }
    }

    /// The apps of the visible desktop entries (canonical entries first) whose
    /// snap is in the listing's output, sorted by name; each is owned by this
    /// backend.
    pub fn apps(&self, list_output: &str, entries: &Vec<(String, String, Option<String>)>) -> (r: Vec<App>)
        ensures
            exists|found: Seq<App>|
                #![trigger sorted_by_lower_name(found, r@)]
                apps_view(found) == snap_rows(
                    snap_versions_map(after_header(lines(list_output@))),
                    triple_views(entries@),
                ) && sorted_by_lower_name(found, r@),
            all_from(r@, "snap"@),
    {
        let versions = versions_from_snap_list(list_output);
        let r = snap_apps(entries, &versions);
        proof {
            let found = choose|found: Seq<App>|
                #![trigger sorted_by_lower_name(found, r@)]
                apps_view(found) == snap_rows(versions@, triple_views(entries@))
                    && sorted_by_lower_name(found, r@);
            lemma_snap_rows_from(versions@, triple_views(entries@));
            lemma_all_from_views(found, "snap"@);
            lemma_sorted_all_from(found, r@, "snap"@);
        }
        r
    }

    /// `snap remove <id>`, reported as `snap remove <id>`.
    pub fn removal(&self, app: &App) -> (r: ToolRun)
        ensures
            r.command.argv() == seq!["snap"@, "remove"@, app.id@],
            r.action@ == "snap remove "@ + app.id@,
    {
        let words = vec!["snap", "remove", app.id.as_str()];
        assert(texts(words@) =~= seq!["snap"@, "remove"@, app.id@]);
        tool_run(&words, joined("snap remove ", app.id.as_str()))
    }
}

} // verus!
