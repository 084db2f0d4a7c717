//! What the window shows and decides: labels, counts, search, grouping, and
//! the scan and removal state. Drawing the widgets is left to the caller.
use vstd::prelude::*;

use crate::backend::{BackendFailure, ListReport};
use crate::backends::{law_registry_ids_distinct, registry_order, source_id};
use crate::model::{apps_view, App, AppView};
use crate::sort::{is_stable_sort, stable_sort};
use crate::text::{
    append_range, append_str, chars_of, decimal, find_pat, first_match, is_first_match, lowercase,
    matches_at, opt_view, own, push_char, push_decimal, same_text, to_lower, trim, trim_range,
};

verus! {

broadcast use vstd::string::group_string_axioms;

// ---------------------------------------------------------------------------
// Backend names and order
// ---------------------------------------------------------------------------

/// The name shown for a backend identifier.
pub open spec fn label_of(id: Seq<char>) -> Seq<char> {
    if id == "apt"@ {
        "APT"@
    } else if id == "dnf"@ {
        "DNF"@
    } else if id == "zypper"@ {
        "Zypper"@
    } else if id == "pacman"@ {
        "Pacman"@
    } else if id == "flatpak"@ {
        "Flatpak"@
    } else if id == "snap"@ {
        "Snap"@
    } else if id == "appimage"@ {
        "AppImage"@
    } else if id == "pip"@ {
        "Python"@
    } else if id == "npm"@ {
        "Node.js"@
    } else if id == "cargo"@ {
        "Rust"@
    } else {
        "Other"@
    }
}

/// The name shown for a backend identifier.
pub fn backend_label(id: &str) -> (r: &'static str)
    ensures
        r@ == label_of(id@),
{
    if same_text(id, "apt") {
        "APT"
    } else if same_text(id, "dnf") {
        "DNF"
    } else if same_text(id, "zypper") {
        "Zypper"
    } else if same_text(id, "pacman") {
        "Pacman"
    } else if same_text(id, "flatpak") {
        "Flatpak"
    } else if same_text(id, "snap") {
        "Snap"
    } else if same_text(id, "appimage") {
        "AppImage"
    } else if same_text(id, "pip") {
        "Python"
    } else if same_text(id, "npm") {
        "Node.js"
    } else if same_text(id, "cargo") {
        "Rust"
    } else {
        "Other"
    }
}

/// Where a backend's group is listed: system packages first, then Flatpak,
/// Snap, AppImage and the language package managers; unknown backends last.
pub open spec fn order_of(id: Seq<char>) -> usize {
    if id == "apt"@ {
        0
    } else if id == "dnf"@ {
        1
    } else if id == "zypper"@ {
        2
    } else if id == "pacman"@ {
        3
    } else if id == "flatpak"@ {
        4
    } else if id == "snap"@ {
        5
    } else if id == "appimage"@ {
        6
    } else if id == "pip"@ {
        7
    } else if id == "npm"@ {
        8
    } else if id == "cargo"@ {
        9
    } else {
        usize::MAX
    }
}

/// The groups are listed in the order the registry holds the sources: the
/// source at position `k` of the registry has its group at position `k`.
pub proof fn law_groups_follow_registry(k: int)
    requires
        0 <= k < registry_order().len(),
    ensures
        order_of(source_id(registry_order()[k])) == k,
{
    let o = registry_order();
    assert forall|j: int| 0 <= j < k implies source_id(o[j]) != source_id(o[k]) by {
        law_registry_ids_distinct(j, k);
    }
}

/// The position of a backend's group in the list.
pub fn order_index(id: &str) -> (r: usize)
    ensures
        r == order_of(id@),
{
    if same_text(id, "apt") {
        0
    } else if same_text(id, "dnf") {
        1
    } else if same_text(id, "zypper") {
        2
    } else if same_text(id, "pacman") {
        3
    } else if same_text(id, "flatpak") {
        4
    } else if same_text(id, "snap") {
        5
    } else if same_text(id, "appimage") {
        6
    } else if same_text(id, "pip") {
        7
    } else if same_text(id, "npm") {
        8
    } else if same_text(id, "cargo") {
        9
    } else {
        usize::MAX
    }
}

/// The key that tells apps apart across backends: `backend::id`.
pub open spec fn key_of(app: AppView) -> Seq<char> {
    app.3 + "::"@ + app.0
}

/// The key that tells apps apart across backends.
pub fn app_key(app: &App) -> (r: String)
    ensures
        r@ == key_of(app@),
{
    let mut key = own(app.backend);
    append_str(&mut key, "::");
    append_str(&mut key, app.id.as_str());
    key
}

// ---------------------------------------------------------------------------
// Numbers
// ---------------------------------------------------------------------------

/// Digits grouped in threes from the right, separated by commas.
pub open spec fn group_thousands(d: Seq<char>) -> Seq<char>
    decreases d.len(),
{
    if d.len() <= 3 {
        d
    } else {
        group_thousands(d.take(d.len() - 3)) + seq![','] + d.skip(d.len() - 3)
    }
}

/// `s` without its commas.
pub open spec fn strip_commas(s: Seq<char>) -> Seq<char>
    decreases s.len(),
{
    if s.len() == 0 {
        s
    } else if s.last() == ',' {
        strip_commas(s.drop_last())
    } else {
        strip_commas(s.drop_last()).push(s.last())
    }
}

proof fn lemma_strip_commas_concat(a: Seq<char>, b: Seq<char>)
    ensures
        strip_commas(a + b) == strip_commas(a) + strip_commas(b),
    decreases b.len(),
{
    if b.len() == 0 {
        assert(a + b =~= a);
        assert(strip_commas(a) + strip_commas(b) =~= strip_commas(a));
    } else {
        lemma_strip_commas_concat(a, b.drop_last());
        assert((a + b).drop_last() =~= a + b.drop_last());
        assert((a + b).last() == b.last());
        if b.last() == ',' {
        } else {
            assert(strip_commas(a) + strip_commas(b.drop_last()).push(b.last()) =~= (strip_commas(
                a,
            ) + strip_commas(b.drop_last())).push(b.last()));
        }
    }
}

proof fn lemma_strip_commas_none(s: Seq<char>)
    requires
        forall|i: int| 0 <= i < s.len() ==> s[i] != ',',
    ensures
        strip_commas(s) == s,
    decreases s.len(),
{
    if s.len() > 0 {
        lemma_strip_commas_none(s.drop_last());
        assert(s.drop_last().push(s.last()) =~= s);
    }
}

/// Grouping digits adds nothing but commas: without them the digits come back.
pub proof fn law_grouping_keeps_digits(d: Seq<char>)
    requires
        forall|i: int| 0 <= i < d.len() ==> d[i] != ',',
    ensures
        strip_commas(group_thousands(d)) == d,
    decreases d.len(),
{
    if d.len() <= 3 {
        lemma_strip_commas_none(d);
    } else {
        let head = d.take(d.len() - 3);
        let tail = d.skip(d.len() - 3);
        law_grouping_keeps_digits(head);
        lemma_strip_commas_concat(group_thousands(head) + seq![','], tail);
        lemma_strip_commas_concat(group_thousands(head), seq![',']);
        let comma_only: Seq<char> = seq![','];
        assert(comma_only.len() == 1 && comma_only.last() == ',');
        assert(comma_only.drop_last() =~= Seq::<char>::empty());
        assert(strip_commas(Seq::<char>::empty()) == Seq::<char>::empty());
        assert(strip_commas(comma_only) =~= Seq::<char>::empty());
        lemma_strip_commas_none(tail);
        assert(head + tail =~= d);
        assert(strip_commas(group_thousands(head)) + Seq::<char>::empty() =~= head);
    }
}

fn push_grouped(out: &mut String, v: &Vec<char>, end: usize)
    requires
        end <= v@.len(),
    ensures
        final(out)@ == old(out)@ + group_thousands(v@.take(end as int)),
    decreases end,
{
    if end <= 3 {
        append_range(out, v, 0, end);
    } else {
        push_grouped(out, v, end - 3);
        push_char(out, ',');
        append_range(out, v, end - 3, end);
        assert(v@.take(end as int).take(end - 3) =~= v@.take(end - 3));
        assert(v@.take(end as int).skip(end - 3) =~= v@.subrange(end - 3, end as int));
        assert(out@ =~= old(out)@ + group_thousands(v@.take(end as int)));
    }
}

/// A count written with thousands separators, such as `1,234`.
pub fn comma(n: usize) -> (r: String)
    ensures
        r@ == group_thousands(decimal(n as nat)),
{
    let mut digits = String::new();
    push_decimal(&mut digits, n);
    let v = chars_of(digits.as_str());
    let mut out = String::new();
    push_grouped(&mut out, &v, v.len());
    assert(v@.take(v@.len() as int) =~= v@);
    assert(Seq::<char>::empty() + group_thousands(v@) =~= group_thousands(v@));
    out
}

/// The line above the list: how many applications are shown and how many
/// sources could not be checked.
pub open spec fn count_line(shown: nat, failed: nat) -> Seq<char> {
    let apps = group_thousands(decimal(shown)) + if shown == 1 {
        " application"@
    } else {
        " applications"@
    };
    if failed > 0 {
        apps + ", "@ + decimal(failed) + if failed == 1 {
            " source unavailable"@
        } else {
            " sources unavailable"@
        }
    } else {
        apps
    }
}

/// The line above the list: how many applications are shown and how many
/// sources could not be checked.
pub fn count_text(shown: usize, failed: usize) -> (r: String)
    ensures
        r@ == count_line(shown as nat, failed as nat),
{
    let mut out = comma(shown);
    if shown == 1 {
        append_str(&mut out, " application");
    } else {
        append_str(&mut out, " applications");
    }
    if failed > 0 {
        append_str(&mut out, ", ");
        push_decimal(&mut out, failed);
        if failed == 1 {
            append_str(&mut out, " source unavailable");
        } else {
            append_str(&mut out, " sources unavailable");
        }
    }
    out
}

// ---------------------------------------------------------------------------
// Search
// ---------------------------------------------------------------------------

/// `p` occurs somewhere in `s`.
pub open spec fn contains_text(s: Seq<char>, p: Seq<char>) -> bool {
    exists|k: int| matches_at(s, k, p)
}

proof fn lemma_has_first_match(s: Seq<char>, p: Seq<char>, k: int)
    requires
        matches_at(s, k, p),
    ensures
        first_match(s, p) is Some,
    decreases k,
{
    if exists|j: int| 0 <= j < k && matches_at(s, j, p) {
        let j = choose|j: int| 0 <= j < k && matches_at(s, j, p);
        lemma_has_first_match(s, p, j);
    } else {
        assert(is_first_match(s, p, k));
    }
}

/// The form of a search query that apps are matched against.
pub open spec fn query_key(query: Seq<char>) -> Seq<char> {
    lowercase(trim(query))
}

/// An app matches a search key when the key is empty or occurs in its
/// lower-cased name or identifier.
pub open spec fn matches_query(app: AppView, key: Seq<char>) -> bool {
    key.len() == 0 || contains_text(lowercase(app.1), key) || contains_text(lowercase(app.0), key)
}

/// The apps that match a search key, in order.
pub open spec fn filtered(apps: Seq<AppView>, key: Seq<char>) -> Seq<AppView>
    decreases apps.len(),
{
    if apps.len() == 0 {
        seq![]
    } else {
        let prev = filtered(apps.drop_last(), key);
        if matches_query(apps.last(), key) {
            prev.push(apps.last())
        } else {
            prev
        }
    }
}

fn text_contains(hay: &str, key: &Vec<char>) -> (r: bool)
    ensures
        r == contains_text(hay@, key@),
{
    let v = chars_of(hay);
    assert(v@.subrange(0, v@.len() as int) =~= v@);
    match find_pat(&v, 0, v.len(), key) {
        Some(k) => {
            proof {
                crate::text::lemma_first_match_some(v@, key@);
            }
            true
        },
        None => {
            proof {
                if contains_text(hay@, key@) {
                    let k = choose|k: int| matches_at(hay@, k, key@);
                    lemma_has_first_match(hay@, key@, k);
                }
            }
            false
        },
    }
}

/// The apps to show for a search query.
pub fn filter_apps(apps: &Vec<App>, query: &str) -> (r: Vec<App>)
    ensures
        apps_view(r@) == filtered(apps_view(apps@), query_key(query@)),
{
    let q = chars_of(query);
    let (a, b) = trim_range(&q, 0, q.len());
    assert(q@.subrange(0, q@.len() as int) =~= q@);
    let trimmed = crate::text::string_of(&q, a, b);
    let key_text = to_lower(trimmed.as_str());
    let key = chars_of(key_text.as_str());
    let ghost all = apps_view(apps@);
    let mut out: Vec<App> = Vec::new();
    let mut i: usize = 0;
    while i < apps.len()
        invariant
            i <= apps@.len(),
            all == apps_view(apps@),
            key@ == query_key(query@),
            apps_view(out@) == filtered(all.take(i as int), key@),
        decreases apps@.len() - i,
    {
        let ghost before = apps_view(out@);
        assert(all.take(i + 1).drop_last() =~= all.take(i as int));
        let app = &apps[i];
        let keep = key.len() == 0 || text_contains(to_lower(app.name.as_str()).as_str(), &key)
            || text_contains(to_lower(app.id.as_str()).as_str(), &key);
        if keep {
            let copy = app.duplicate();
            out.push(copy);
            assert(apps_view(out@) =~= before.push(copy@));
        }
        i = i + 1;
    }
    assert(all.take(apps@.len() as int) =~= all);
    out
}

/// An empty search shows every app.
pub proof fn law_empty_search_shows_all(apps: Seq<AppView>)
    ensures
        filtered(apps, seq![]) == apps,
    decreases apps.len(),
{
    if apps.len() > 0 {
        law_empty_search_shows_all(apps.drop_last());
        assert(apps.drop_last().push(apps.last()) =~= apps);
    }
}

/// Search by name or package identifier: an app is shown exactly when it is
/// listed and the key is empty or occurs in its lower-cased display name or in
/// its lower-cased identifier.
pub proof fn law_search_by_name_or_id(apps: Seq<AppView>, key: Seq<char>, a: AppView)
    ensures
        filtered(apps, key).contains(a) <==> apps.contains(a) && (key.len() == 0 || contains_text(
            lowercase(a.1),
            key,
        ) || contains_text(lowercase(a.0), key)),
    decreases apps.len(),
{
    if apps.len() > 0 {
        let prev = apps.drop_last();
        law_search_by_name_or_id(prev, key, a);
        let f = filtered(apps, key);
        let fp = filtered(prev, key);
        let ok = key.len() == 0 || contains_text(lowercase(a.1), key) || contains_text(
            lowercase(a.0),
            key,
        );
        if f.contains(a) {
            let i = choose|i: int| 0 <= i < f.len() && f[i] == a;
            if i < fp.len() {
                assert(fp[i] == f[i]);
                assert(fp.contains(a));
                let j = choose|j: int| 0 <= j < prev.len() && prev[j] == a;
                assert(apps[j] == a);
            } else {
                assert(apps[apps.len() - 1] == a);
            }
        }
        if apps.contains(a) && ok {
            let j = choose|j: int| 0 <= j < apps.len() && apps[j] == a;
            if j < prev.len() {
                assert(prev[j] == a);
                assert(prev.contains(a));
                let i = choose|i: int| 0 <= i < fp.len() && fp[i] == a;
                if matches_query(apps.last(), key) {
                    assert(f[i] == fp[i]);
                }
                assert(f.contains(a));
            } else {
                assert(apps.last() == a);
                assert(f[f.len() - 1] == a);
            }
        }
    }
}

/// Searching never adds apps: every shown app is one of the listed ones.
pub proof fn law_search_selects(apps: Seq<AppView>, key: Seq<char>)
    ensures
        filtered(apps, key).len() <= apps.len(),
        forall|i: int| 0 <= i < filtered(apps, key).len() ==> apps.contains(
            #[trigger] filtered(apps, key)[i],
        ),
    decreases apps.len(),
{
    if apps.len() > 0 {
        law_search_selects(apps.drop_last(), key);
        let prev = filtered(apps.drop_last(), key);
        assert forall|i: int| 0 <= i < filtered(apps, key).len() implies apps.contains(
            #[trigger] filtered(apps, key)[i],
        ) by {
            if i < prev.len() {
                assert(apps.drop_last().contains(prev[i]));
                let j = choose|j: int| 0 <= j < apps.drop_last().len() && apps.drop_last()[j] == prev[i];
                assert(apps[j] == prev[i]);
            } else {
                assert(apps[apps.len() - 1] == apps.last());
            }
        }
    }
}


// ---------------------------------------------------------------------------
// Groups
// ---------------------------------------------------------------------------

/// A group: backend identifier and the apps of that backend.
pub type GroupView = (Seq<char>, Seq<AppView>);

/// `k` is the first group of backend `id`.
pub open spec fn is_group_at(groups: Seq<GroupView>, id: Seq<char>, k: int) -> bool {
    &&& 0 <= k < groups.len()
    &&& groups[k].0 == id
    &&& forall|j: int| 0 <= j < k ==> groups[j].0 != id
}

/// The group of backend `id`, if there is one.
pub open spec fn group_at(groups: Seq<GroupView>, id: Seq<char>) -> Option<int> {
    if exists|k: int| is_group_at(groups, id, k) {
        Some(choose|k: int| is_group_at(groups, id, k))
    } else {
        None
    }
}

/// Apps grouped by backend: groups in the order their backend first appears,
/// apps within a group in list order.
pub open spec fn grouped(apps: Seq<AppView>) -> Seq<GroupView>
    decreases apps.len(),
{
    if apps.len() == 0 {
        seq![]
    } else {
        let g = grouped(apps.drop_last());
        let a = apps.last();
        match group_at(g, a.3) {
            Some(k) => g.update(k, (g[k].0, g[k].1.push(a))),
            None => g.push((a.3, seq![a])),
        }
    }
}

/// What a list of groups says.
pub open spec fn groups_view(groups: Seq<(&'static str, Vec<App>)>) -> Seq<GroupView> {
    groups.map_values(|g: (&'static str, Vec<App>)| (g.0@, apps_view(g.1@)))
}

/// `result` is `groups` stably sorted by the backend order.
pub open spec fn sorted_by_order(
    groups: Seq<(&'static str, Vec<App>)>,
    result: Seq<(&'static str, Vec<App>)>,
) -> bool {
    exists|keys: Seq<usize>|
        #![trigger is_stable_sort(groups, keys, result)]
        keys.len() == groups.len() && (forall|i: int|
            0 <= i < groups.len() ==> #[trigger] keys[i] == order_of(groups[i].0@))
            && is_stable_sort(groups, keys, result)
}

proof fn lemma_group_at_is(groups: Seq<GroupView>, id: Seq<char>, k: int)
    requires
        is_group_at(groups, id, k),
    ensures
        group_at(groups, id) == Some(k),
{
    let k2 = choose|k2: int| is_group_at(groups, id, k2);
    assert(is_group_at(groups, id, k2));
    if k2 < k {
        assert(groups[k2].0 != id);
    } else if k < k2 {
        assert(groups[k].0 != id);
    }
}

/// The apps grouped by backend, groups in backend order.
pub fn group_apps(apps: Vec<App>) -> (r: Vec<(&'static str, Vec<App>)>)
    ensures
        exists|found: Seq<(&'static str, Vec<App>)>|
            #![trigger sorted_by_order(found, r@)]
            groups_view(found) == grouped(apps_view(apps@)) && sorted_by_order(found, r@),
{
    let ghost orig = apps@;
    let ghost all = apps_view(apps@);
    let n = apps.len();
    let mut rest = apps;
    let mut groups: Vec<(&'static str, Vec<App>)> = Vec::new();
    let mut i: usize = 0;
    while i < n
        invariant
            n == orig.len(),
            all == apps_view(orig),
            i <= n,
            rest@ == orig.skip(i as int),
            groups_view(groups@) == grouped(all.take(i as int)),
        decreases n - i,
    {
        assert(rest@.len() > 0);
        let app = rest.remove(0);
        assert(orig.skip(i as int).drop_first() =~= orig.skip(i + 1));
        assert(app == orig[i as int]);
        assert(all.take(i + 1).drop_last() =~= all.take(i as int));
        assert(all.take(i + 1).last() == app@);
        let ghost g0 = groups_view(groups@);
        let mut k: usize = 0;
        while k < groups.len() && !same_text(groups[k].0, app.backend)
            invariant
                k <= groups@.len(),
                g0 == groups_view(groups@),
                forall|j: int| 0 <= j < k ==> g0[j].0 != app.backend@,
            decreases groups@.len() - k,
        {
            k = k + 1;
        }
        if k < groups.len() {
            proof {
                lemma_group_at_is(g0, app@.3, k as int);
            }
            let ghost old_groups = groups@;
            let mut g = groups.remove(k);
            let ghost gv = apps_view(g.1@);
            assert(gv == g0[k as int].1);
            let ghost av = app@;
            g.1.push(app);
            assert(apps_view(g.1@) =~= gv.push(av));
            groups.insert(k, g);
            assert(groups_view(groups@) =~= g0.update(k as int, (g0[k as int].0, g0[k as int].1.push(av))));
        } else {
            proof {
                assert forall|k2: int| !is_group_at(g0, app@.3, k2) by {
                    if is_group_at(g0, app@.3, k2) {
                        assert(g0[k2].0 != app.backend@);
                    }
                }
            }
            let ghost av = app@;
            let id = app.backend;
            let mut members: Vec<App> = Vec::new();
            members.push(app);
            assert(apps_view(members@) =~= seq![av]);
            groups.push((id, members));
            assert(groups_view(groups@) =~= g0.push((av.3, seq![av])));
        }
        i = i + 1;
    }
    assert(all.take(n as int) =~= all);
    let mut keys: Vec<usize> = Vec::new();
    let mut j: usize = 0;
    while j < groups.len()
        invariant
            j <= groups@.len(),
            keys@.len() == j,
            forall|x: int| 0 <= x < j ==> #[trigger] keys@[x] == order_of(groups@[x].0@),
        decreases groups@.len() - j,
    {
        keys.push(order_index(groups[j].0));
        j = j + 1;
    }
    let ghost found = groups@;
    let ghost ks = keys@;
    let r = stable_sort(groups, keys);
    assert(is_stable_sort(found, ks, r@));
    assert(sorted_by_order(found, r@));
    r
}


// ---------------------------------------------------------------------------
// Texts
// ---------------------------------------------------------------------------

/// The version shown on the detail page.
pub open spec fn version_shown(version: Option<Seq<char>>) -> Seq<char> {
    match version {
        Some(v) => if v.len() > 0 {
            v
        } else {
            "Not available"@
        },
        None => "Not available"@,
    }
}

/// The version shown on the detail page; "Not available" when unknown.
pub fn version_text(version: &Option<String>) -> (r: String)
    ensures
        r@ == version_shown(opt_view(*version)),
{
    match version {
        Some(v) => {
            if v.as_str().is_empty() {
                own("Not available")
            } else {
                v.clone()
            }
        },
        None => own("Not available"),
    }
}

/// The subtitle of a list row: the version, when known and not empty.
pub open spec fn subtitle_shown(version: Option<Seq<char>>) -> Seq<char> {
    match version {
        Some(v) => v,
        None => seq![],
    }
}

/// The subtitle of a list row: the version, or nothing.
pub fn row_subtitle(version: &Option<String>) -> (r: String)
    ensures
        r@ == subtitle_shown(opt_view(*version)),
{
    match version {
        Some(v) => v.clone(),
        None => String::new(),
    }
}

/// The label of a row's remove button.
pub fn remove_button_label(is_removing: bool) -> (r: &'static str)
    ensures
        r@ == if is_removing {
            "Removing..."@
        } else {
            "Remove"@
        },
{
    if is_removing {
        "Removing..."
    } else {
        "Remove"
    }
}

/// The label of the detail page's remove button.
pub fn detail_button_text(busy: bool, name: &str) -> (r: String)
    ensures
        r@ == if busy {
            "Removing..."@
        } else {
            "Remove "@ + name@
        },
{
    if busy {
        own("Removing...")
    } else {
        let mut t = own("Remove ");
        append_str(&mut t, name);
        t
    }
}

/// The heading of the removal confirmation.
pub fn removal_heading(name: &str) -> (r: String)
    ensures
        r@ == "Remove "@ + name@ + "?"@,
{
    let mut t = own("Remove ");
    append_str(&mut t, name);
    append_str(&mut t, "?");
    t
}

/// The body of the removal confirmation, naming the app and its source.
pub fn removal_body(app: &App) -> (r: String)
    ensures
        r@ == "This will remove "@ + app.name@ + " from "@ + label_of(app.backend@)
            + ". This action cannot be undone."@,
{
    let mut t = own("This will remove ");
    append_str(&mut t, app.name.as_str());
    append_str(&mut t, " from ");
    append_str(&mut t, backend_label(app.backend));
    append_str(&mut t, ". This action cannot be undone.");
    t
}

/// The notice shown while an app is being removed.
pub fn removing_notice(name: &str) -> (r: String)
    ensures
        r@ == "Removing "@ + name@ + "..."@,
{
    let mut t = own("Removing ");
    append_str(&mut t, name);
    append_str(&mut t, "...");
    t
}

/// The notice shown once an app is removed.
pub fn removed_notice(name: &str) -> (r: String)
    ensures
        r@ == "Removed "@ + name@,
{
    let mut t = own("Removed ");
    append_str(&mut t, name);
    t
}

/// The notice shown when a removal failed, with the backend's message.
pub fn removal_failed_notice(name: &str, error: &str) -> (r: String)
    ensures
        r@ == "Failed to remove "@ + name@ + ": "@ + error@,
{
    let mut t = own("Failed to remove ");
    append_str(&mut t, name);
    append_str(&mut t, ": ");
    append_str(&mut t, error);
    t
}

/// The names of backends, separated by `, `.
pub open spec fn joined_labels(ids: Seq<&'static str>) -> Seq<char>
    decreases ids.len(),
{
    if ids.len() == 0 {
        seq![]
    } else if ids.len() == 1 {
        label_of(ids[0]@)
    } else {
        joined_labels(ids.drop_last()) + ", "@ + label_of(ids.last()@)
    }
}

/// The notice naming the sources that could not be checked, if any.
pub fn failure_notice(ids: &Vec<&'static str>) -> (r: Option<String>)
    ensures
        ids@.len() == 0 ==> r is None,
        ids@.len() > 0 ==> (r matches Some(t) && t@ == "Could not check: "@ + joined_labels(ids@)),
{
    if ids.len() == 0 {
        return None;
    }
    let mut labels = String::new();
    let mut i: usize = 0;
    while i < ids.len()
        invariant
            i <= ids@.len(),
            labels@ == joined_labels(ids@.take(i as int)),
        decreases ids@.len() - i,
    {
        assert(ids@.take(i + 1).drop_last() =~= ids@.take(i as int));
        if i > 0 {
            append_str(&mut labels, ", ");
        } else {
            assert(labels@ =~= Seq::<char>::empty());
        }
        append_str(&mut labels, backend_label(ids[i]));
        assert(labels@ =~= joined_labels(ids@.take(i + 1)));
        i = i + 1;
    }
    assert(ids@.take(ids@.len() as int) =~= ids@);
    let mut t = own("Could not check: ");
    append_str(&mut t, labels.as_str());
    Some(t)
}

/// The backends named by a report's failures, in order.
pub open spec fn failure_ids(failures: Seq<BackendFailure>) -> Seq<&'static str> {
    failures.map_values(|f: BackendFailure| f.backend)
}

/// Every failed source is remembered: one name per failure, in order.
pub proof fn law_every_failure_is_named(failures: Seq<BackendFailure>)
    ensures
        failure_ids(failures).len() == failures.len(),
        forall|i: int| 0 <= i < failures.len() ==> #[trigger] failure_ids(failures)[i] == failures[i].backend,
{
}

// ---------------------------------------------------------------------------
// Icons
// ---------------------------------------------------------------------------

/// An icon given as an absolute file path.
pub open spec fn icon_is_file(icon: Seq<char>) -> bool {
    icon.len() > 0 && icon[0] == '/'
}

/// The icon file to load, when the app's icon is an absolute path.
pub fn icon_file(app: &App) -> (r: Option<String>)
    ensures
        match opt_view(app.icon) {
            Some(i) => if icon_is_file(i) {
                r matches Some(f) && f@ == i
            } else {
                r is None
            },
            None => r is None,
        },
{
    match &app.icon {
        Some(icon) => {
            let v = chars_of(icon.as_str());
            if v.len() > 0 && v[0] == '/' {
                Some(icon.clone())
            } else {
                None
            }
        },
        None => None,
    }
}

/// Icon names to try in the theme, in order: the app's icon name (when it is
/// not a path), its identifier, its display name.
pub open spec fn icon_candidates(app: AppView) -> Seq<Seq<char>> {
    let first: Seq<Seq<char>> = match app.4 {
        Some(i) => if icon_is_file(i) {
            seq![]
        } else {
            seq![i]
        },
        None => seq![],
    };
    first + seq![app.0, app.1]
}

/// Each non-empty candidate, followed by its lower-case form when that differs.
pub open spec fn icon_lookups(cands: Seq<Seq<char>>) -> Seq<Seq<char>>
    decreases cands.len(),
{
    if cands.len() == 0 {
        seq![]
    } else {
        let prev = icon_lookups(cands.drop_last());
        let c = cands.last();
        if c.len() == 0 {
            prev
        } else if lowercase(c) != c {
            prev.push(c).push(lowercase(c))
        } else {
            prev.push(c)
        }
    }
}

/// The icon names to look up in the theme, in order.
pub fn icon_names(app: &App) -> (r: Vec<String>)
    ensures
        r@.map_values(|s: String| s@) == icon_lookups(icon_candidates(app@)),
{
    let mut cands: Vec<String> = Vec::new();
    match &app.icon {
        Some(icon) => {
            let v = chars_of(icon.as_str());
            if !(v.len() > 0 && v[0] == '/') {
                cands.push(icon.clone());
            }
        },
        None => {},
    }
    cands.push(app.id.clone());
    cands.push(app.name.clone());
    let ghost cv = cands@.map_values(|s: String| s@);
    assert(cv =~= icon_candidates(app@));
    let mut out: Vec<String> = Vec::new();
    let mut i: usize = 0;
    while i < cands.len()
        invariant
            i <= cands@.len(),
            cv == cands@.map_values(|s: String| s@),
            out@.map_values(|s: String| s@) == icon_lookups(cv.take(i as int)),
        decreases cands@.len() - i,
    {
        let ghost before = out@.map_values(|s: String| s@);
        assert(cv.take(i + 1).drop_last() =~= cv.take(i as int));
        let c = &cands[i];
        if !c.as_str().is_empty() {
            out.push(c.clone());
            let lower = to_lower(c.as_str());
            if lower != *c {
                out.push(lower);
                assert(out@.map_values(|s: String| s@) =~= before.push(c@).push(lowercase(c@)));
            } else {
                assert(out@.map_values(|s: String| s@) =~= before.push(c@));
            }
        }
        i = i + 1;
    }
    assert(cv.take(cands@.len() as int) =~= cv);
    out
}


// ---------------------------------------------------------------------------
// Window state
// ---------------------------------------------------------------------------

/// The apps whose key is not `key`, in order.
pub open spec fn without_key(apps: Seq<AppView>, key: Seq<char>) -> Seq<AppView>
    decreases apps.len(),
{
    if apps.len() == 0 {
        seq![]
    } else {
        let prev = without_key(apps.drop_last(), key);
        if key_of(apps.last()) == key {
            prev
        } else {
            prev.push(apps.last())
        }
    }
}

/// Once an app is removed, no listed app has its key.
pub proof fn law_removed_key_is_gone(apps: Seq<AppView>, key: Seq<char>)
    ensures
        forall|i: int| 0 <= i < without_key(apps, key).len() ==> key_of(
            #[trigger] without_key(apps, key)[i],
        ) != key,
    decreases apps.len(),
{
    if apps.len() > 0 {
        law_removed_key_is_gone(apps.drop_last(), key);
        let prev = without_key(apps.drop_last(), key);
        assert forall|i: int| 0 <= i < without_key(apps, key).len() implies key_of(
            #[trigger] without_key(apps, key)[i],
        ) != key by {
            if i < prev.len() {
                assert(without_key(apps, key)[i] == prev[i]);
            }
        }
    }
}

/// Removing one app keeps every app with another key.
pub proof fn law_removal_keeps_others(apps: Seq<AppView>, key: Seq<char>, a: AppView)
    requires
        apps.contains(a),
        key_of(a) != key,
    ensures
        without_key(apps, key).contains(a),
    decreases apps.len(),
{
    if apps.last() == a {
        assert(without_key(apps, key).last() == a);
    } else {
        let j = choose|j: int| 0 <= j < apps.len() && apps[j] == a;
        assert(apps.drop_last()[j] == a);
        law_removal_keeps_others(apps.drop_last(), key, a);
        let prev = without_key(apps.drop_last(), key);
        let k = choose|k: int| 0 <= k < prev.len() && prev[k] == a;
        assert(without_key(apps, key)[k] == a);
    }
}

/// The window's state between events: what was listed, what is searched,
/// and whether a scan or a removal is running.
pub struct WindowState {
    pub all_apps: Vec<App>,
    pub query: String,
    pub loaded: bool,
    pub scanning: bool,
    pub busy: bool,
    /// Key of the app currently being removed, if any.
    pub removing: Option<String>,
    /// App currently shown in the detail view, if any.
    pub detail: Option<App>,
    /// Backends that were present but could not be queried on the last scan.
    pub failed_backends: Vec<&'static str>,
    /// Apps whose removal waits for the user's answer, in the order asked.
    pub confirming: Vec<App>,
}

/// `k` is the first of the pending requests `pending` for the app with key `key`.
pub open spec fn is_first_request(pending: Seq<AppView>, key: Seq<char>, k: int) -> bool {
    &&& 0 <= k < pending.len()
    &&& key_of(pending[k]) == key
    &&& forall|j: int| 0 <= j < k ==> key_of(pending[j]) != key
}

/// The position of the first pending request for the app with key `key`, if any.
pub open spec fn first_request(pending: Seq<AppView>, key: Seq<char>) -> Option<int> {
    if exists|k: int| is_first_request(pending, key, k) {
        Some(choose|k: int| is_first_request(pending, key, k))
    } else {
        None
    }
}

impl WindowState {
    /// A removal is under way exactly when the window is busy, and then its
    /// key is known.
    pub open spec fn is_consistent(&self) -> bool {
        self.busy == self.removing is Some
    }
}

impl Default for WindowState {
    /// Nothing listed, nothing running.
    fn default() -> (r: Self)
        ensures
            r.all_apps@.len() == 0,
            r.query@.len() == 0,
            !r.loaded,
            !r.scanning,
            !r.busy,
            r.removing is None,
            r.detail is None,
            r.failed_backends@.len() == 0,
            r.is_consistent(),
            r.confirming@.len() == 0,
    {
        WindowState::new()
    }
}

impl WindowState {
    /// Nothing listed, nothing running.
    pub fn new() -> (r: Self)
        ensures
            r.all_apps@.len() == 0,
            r.query@.len() == 0,
            !r.loaded,
            !r.scanning,
            !r.busy,
            r.removing is None,
            r.detail is None,
            r.failed_backends@.len() == 0,
            r.is_consistent(),
            r.confirming@.len() == 0,
    {
        WindowState {
            all_apps: Vec::new(),
            query: String::new(),
            loaded: false,
            scanning: false,
            busy: false,
            removing: None,
            detail: None,
            failed_backends: Vec::new(),
            confirming: Vec::new(),
        }
    }

    /// Starts a scan unless one is running or a removal is busy. Returns
    /// whether this is the first scan, or `None` when nothing starts.
    pub fn begin_scan(&mut self) -> (r: Option<bool>)
        ensures
            old(self).scanning || old(self).busy ==> r is None && *final(self) == *old(self),
            !old(self).scanning && !old(self).busy ==> r == Some(!old(self).loaded)
                && final(self).scanning && final(self).all_apps == old(self).all_apps
                && final(self).query == old(self).query && final(self).loaded == old(self).loaded
                && final(self).busy == old(self).busy && final(self).removing == old(self).removing
                && final(self).detail == old(self).detail && final(self).failed_backends == old(
                self,
            ).failed_backends,
            old(self).is_consistent() ==> final(self).is_consistent(),
            final(self).confirming == old(self).confirming,
    {
        if self.scanning || self.busy {
            return None;
        }
        self.scanning = true;
        Some(!self.loaded)
    }

    /// Takes a finished scan: its apps, and the backends that failed.
    pub fn finish_scan(&mut self, report: ListReport)
        ensures
            final(self).all_apps@ == report.apps@,
            final(self).failed_backends@ == failure_ids(report.failures@),
            final(self).failed_backends@.len() == report.failures@.len(),
            forall|i: int|
                0 <= i < report.failures@.len() ==> #[trigger] final(self).failed_backends@[i]
                    == report.failures@[i].backend,
            final(self).loaded,
            !final(self).scanning,
            final(self).query == old(self).query,
            final(self).busy == old(self).busy,
            final(self).removing == old(self).removing,
            final(self).detail == old(self).detail,
            old(self).is_consistent() ==> final(self).is_consistent(),
            final(self).confirming == old(self).confirming,
    {
        let mut ids: Vec<&'static str> = Vec::new();
        let mut i: usize = 0;
        while i < report.failures.len()
            invariant
                i <= report.failures@.len(),
                ids@ == failure_ids(report.failures@).take(i as int),
            decreases report.failures@.len() - i,
        {
            ids.push(report.failures[i].backend);
            assert(failure_ids(report.failures@).take(i + 1) =~= ids@);
            i = i + 1;
        }
        assert(failure_ids(report.failures@).take(i as int) =~= failure_ids(report.failures@));
        self.all_apps = report.apps;
        self.failed_backends = ids;
        self.loaded = true;
        self.scanning = false;
    }

    /// Sets the search query; returns whether the list is loaded and should be redrawn.
    pub fn set_query(&mut self, query: String) -> (r: bool)
        ensures
            final(self).query == query,
            r == old(self).loaded,
            final(self).all_apps == old(self).all_apps,
            final(self).loaded == old(self).loaded,
            final(self).scanning == old(self).scanning,
            final(self).busy == old(self).busy,
            final(self).removing == old(self).removing,
            final(self).detail == old(self).detail,
            final(self).failed_backends == old(self).failed_backends,
            old(self).is_consistent() ==> final(self).is_consistent(),
            final(self).confirming == old(self).confirming,
    {
        self.query = query;
        self.loaded
    }

    /// The apps that match the current search.
    pub fn shown_apps(&self) -> (r: Vec<App>)
        ensures
            apps_view(r@) == filtered(apps_view(self.all_apps@), query_key(self.query@)),
    {
        filter_apps(&self.all_apps, self.query.as_str())
    }

    /// The line above the list for `shown` apps.
    pub fn count_line(&self, shown: usize) -> (r: String)
        ensures
            r@ == count_line(shown as nat, self.failed_backends@.len()),
    {
        count_text(shown, self.failed_backends.len())
    }

    /// Whether a removal may be asked for now.
    pub fn can_request_removal(&self) -> (r: bool)
        ensures
            r == !self.busy,
    {
        !self.busy
    }

    /// Asks for the removal of `app`: unless a removal is under way, the
    /// request waits for the user's answer and its confirmation dialog is to
    /// be shown (the result); otherwise nothing changes.
    pub fn request_removal(&mut self, app: App) -> (r: bool)
        ensures
            r == !old(self).busy,
            !r ==> *final(self) == *old(self),
            r ==> final(self).confirming@ == old(self).confirming@.push(app),
            final(self).all_apps == old(self).all_apps,
            final(self).query == old(self).query,
            final(self).loaded == old(self).loaded,
            final(self).scanning == old(self).scanning,
            final(self).busy == old(self).busy,
            final(self).removing == old(self).removing,
            final(self).detail == old(self).detail,
            final(self).failed_backends == old(self).failed_backends,
            old(self).is_consistent() ==> final(self).is_consistent(),
    {
        if self.busy {
            return false;
        }
        self.confirming.push(app);
        true
    }

    /// Takes the user's answer to the dialog asking about `app`. Every removal
    /// is confirmed before it runs: the answer settles the first pending
    /// request for `app`, and only the answer `remove` to such a request
    /// starts its removal (the result), marking `app` as being removed. With
    /// no pending request for `app` nothing changes.
    pub fn answer_removal(&mut self, app: &App, response: &str) -> (r: bool)
        ensures
            match first_request(apps_view(old(self).confirming@), key_of(app@)) {
                Some(k) => apps_view(final(self).confirming@) == apps_view(
                    old(self).confirming@,
                ).remove(k) && r == (response@ == "remove"@),
                None => final(self).confirming == old(self).confirming && !r,
            },
            r ==> final(self).busy,
            r ==> (final(self).removing matches Some(k) && k@ == key_of(app@)),
            !r ==> final(self).busy == old(self).busy,
            !r ==> final(self).removing == old(self).removing,
            final(self).all_apps == old(self).all_apps,
            final(self).query == old(self).query,
            final(self).loaded == old(self).loaded,
            final(self).scanning == old(self).scanning,
            final(self).detail == old(self).detail,
            final(self).failed_backends == old(self).failed_backends,
            old(self).is_consistent() ==> final(self).is_consistent(),
    {
        let ghost pending = apps_view(self.confirming@);
        let key = app_key(app);
        let mut i: usize = 0;
        while i < self.confirming.len()
            invariant
                *self == *old(self),
                pending == apps_view(self.confirming@),
                i <= self.confirming@.len(),
                key@ == key_of(app@),
                forall|j: int| 0 <= j < i ==> key_of(pending[j]) != key@,
            decreases self.confirming@.len() - i,
        {
            let k = app_key(&self.confirming[i]);
            if same_text(k.as_str(), key.as_str()) {
                proof {
                    assert(is_first_request(pending, key@, i as int));
                    let c = choose|c: int| is_first_request(pending, key@, c);
                    if c < i {
                        assert(key_of(pending[c]) != key@);
                    } else if c > i {
                        assert(key_of(pending[i as int]) == key@);
                    }
                }
                let ghost before = self.confirming@;
                self.confirming.remove(i);
                assert(apps_view(self.confirming@) =~= pending.remove(i as int)) by {
                    assert(self.confirming@ == before.remove(i as int));
                }
                if same_text(response, "remove") {
                    self.begin_removal(app);
                    return true;
                }
                return false;
            }
            i = i + 1;
        }
        proof {
            if exists|c: int| is_first_request(pending, key@, c) {
                let c = choose|c: int| is_first_request(pending, key@, c);
                assert(key_of(pending[c]) != key@);
            }
        }
        false
    }

    /// Marks `app` as being removed.
    fn begin_removal(&mut self, app: &App)
        ensures
            final(self).busy,
            final(self).removing matches Some(k) && k@ == key_of(app@),
            final(self).all_apps == old(self).all_apps,
            final(self).query == old(self).query,
            final(self).detail == old(self).detail,
            final(self).scanning == old(self).scanning,
            final(self).loaded == old(self).loaded,
            final(self).failed_backends == old(self).failed_backends,
            final(self).is_consistent(),
            final(self).confirming == old(self).confirming,
    {
        self.busy = true;
        self.removing = Some(app_key(app));
    }

    /// Whether `app` is the one being removed.
    pub fn is_removing(&self, app: &App) -> (r: bool)
        ensures
            r == (self.removing matches Some(k) && k@ == key_of(app@)),
    {
        match &self.removing {
            Some(k) => {
                let key = app_key(app);
                *k == key
            },
            None => false,
        }
    }

    /// Shows one app on its own page.
    pub fn open_detail(&mut self, app: App)
        ensures
            final(self).detail == Some(app),
            final(self).all_apps == old(self).all_apps,
            final(self).query == old(self).query,
            final(self).loaded == old(self).loaded,
            final(self).scanning == old(self).scanning,
            final(self).busy == old(self).busy,
            final(self).removing == old(self).removing,
            final(self).failed_backends == old(self).failed_backends,
            old(self).is_consistent() ==> final(self).is_consistent(),
            final(self).confirming == old(self).confirming,
    {
        self.detail = Some(app);
    }

    /// Goes back from the detail page to the list.
    pub fn close_detail(&mut self)
        ensures
            final(self).detail is None,
            final(self).all_apps == old(self).all_apps,
            final(self).query == old(self).query,
            final(self).loaded == old(self).loaded,
            final(self).scanning == old(self).scanning,
            final(self).busy == old(self).busy,
            final(self).removing == old(self).removing,
            final(self).failed_backends == old(self).failed_backends,
            old(self).is_consistent() ==> final(self).is_consistent(),
            final(self).confirming == old(self).confirming,
    {
        self.detail = None;
    }

    /// Ends the removal of `app`. A removed app leaves the list at once and the
    /// detail page closes; a failed removal changes neither. Returns whether
    /// the detail page was open.
    pub fn finish_removal(&mut self, app: &App, removed: bool) -> (r: bool)
        ensures
            r == old(self).detail is Some,
            !final(self).busy,
            final(self).removing is None,
            removed ==> apps_view(final(self).all_apps@) == without_key(
                apps_view(old(self).all_apps@),
                key_of(app@),
            ) && final(self).detail is None,
            !removed ==> final(self).all_apps == old(self).all_apps && final(self).detail == old(
                self,
            ).detail,
            final(self).loaded == old(self).loaded,
            final(self).scanning == old(self).scanning,
            final(self).query == old(self).query,
            final(self).failed_backends == old(self).failed_backends,
            final(self).is_consistent(),
            final(self).confirming == old(self).confirming,
    {
        let in_detail = self.detail.is_some();
        self.busy = false;
        self.removing = None;
        if removed {
            let key = app_key(app);
            let ghost all = apps_view(self.all_apps@);
            let mut kept: Vec<App> = Vec::new();
            let mut i: usize = 0;
            while i < self.all_apps.len()
                invariant
                    i <= self.all_apps@.len(),
                    all == apps_view(self.all_apps@),
                    key@ == key_of(app@),
                    apps_view(kept@) == without_key(all.take(i as int), key@),
                decreases self.all_apps@.len() - i,
            {
                let ghost before = apps_view(kept@);
                assert(all.take(i + 1).drop_last() =~= all.take(i as int));
                let k = app_key(&self.all_apps[i]);
                if k != key {
                    let copy = self.all_apps[i].duplicate();
                    kept.push(copy);
                    assert(apps_view(kept@) =~= before.push(copy@));
                }
                i = i + 1;
            }
            assert(all.take(self.all_apps@.len() as int) =~= all);
            self.all_apps = kept;
            self.detail = None;
        }
        in_detail
    }
}

} // verus!
