//! Freedesktop .desktop files: where they are, and what they say.
use vstd::prelude::*;

use crate::path::{extension, is_absolute, is_absolute_path, join, join_path, path_extension};
use crate::text::{
    chars_of, eq_ignore_ascii_case, find_char, lemma_lines_advance, lemma_lines_append, lemma_lines_done,
    lemma_lines_start, lines, next_line, opt_view, range_eq, range_eq_ignore_ascii_case,
    split_once_char, starts_with_char, string_of, trim, trim_range,
};

verus! {

broadcast use vstd::string::group_string_axioms;

// ---------------------------------------------------------------------------
// The model of a desktop file
// ---------------------------------------------------------------------------

/// For a group header line (its trimmed text starts with `[`), whether it opens
/// the `[Desktop Entry]` group; `None` for any other line.
pub open spec fn header_kind(line: Seq<char>) -> Option<bool> {
    let t = trim(line);
    if starts_with_char(t, '[') {
        Some(t == "[Desktop Entry]"@)
    } else {
        None
    }
}

/// The trimmed key and trimmed value of a `key=value` line that is not a header.
pub open spec fn pair_of(line: Seq<char>) -> Option<(Seq<char>, Seq<char>)> {
    let t = trim(line);
    if starts_with_char(t, '[') {
        None
    } else {
        match split_once_char(t, '=') {
            Some((k, v)) => Some((trim(k), trim(v))),
            None => None,
        }
    }
}

/// Whether the lines `ls` leave the reader inside the `[Desktop Entry]` group.
pub open spec fn in_entry_after(ls: Seq<Seq<char>>) -> bool
    decreases ls.len(),
{
    if ls.len() == 0 {
        false
    } else {
        match header_kind(ls.last()) {
            Some(is_entry) => is_entry,
            None => in_entry_after(ls.drop_last()),
        }
    }
}

/// The key/value pair that the last of `ls` contributes inside the entry group.
pub open spec fn entry_pair(ls: Seq<Seq<char>>) -> Option<(Seq<char>, Seq<char>)> {
    if ls.len() > 0 && in_entry_after(ls.drop_last()) {
        pair_of(ls.last())
    } else {
        None
    }
}

/// Whether `NoDisplay` or `Hidden` is `true` (in any ASCII case).
pub open spec fn hides(k: Seq<char>, v: Seq<char>) -> bool {
    (k == "NoDisplay"@ || k == "Hidden"@) && eq_ignore_ascii_case(v, "true"@)
}

/// After the lines `ls`: whether the entry has been hidden, and whether its
/// last `Type` says it is an application (true when no `Type` was seen).
pub open spec fn visibility(ls: Seq<Seq<char>>) -> (bool, bool)
    decreases ls.len(),
{
    if ls.len() == 0 {
        (false, true)
    } else {
        let prev = visibility(ls.drop_last());
        match entry_pair(ls) {
            Some((k, v)) => if hides(k, v) {
                (true, prev.1)
            } else if k == "Type"@ {
                (prev.0, eq_ignore_ascii_case(v, "Application"@))
            } else {
                prev
            },
            None => prev,
        }
    }
}

/// A desktop file describes a visible application: no `NoDisplay=true` or
/// `Hidden=true` in its entry group, and a `Type` (if any) of `Application`.
pub open spec fn visible(content: Seq<char>) -> bool {
    let st = visibility(lines(content));
    !st.0 && st.1
}

/// Only `NoDisplay`, `Hidden` and `Type` decide whether an entry is a visible
/// application: a last line that is no group header and whose key is none of
/// these (`Terminal=true`, `Exec=…`, a comment) leaves visibility as it was.
pub proof fn law_other_keys_keep_visibility(c: Seq<char>, l: Seq<char>)
    requires
        c.len() > 0,
        c.last() != '\n',
        c.last() != '\r',
        l.len() > 0,
        forall|j: int| 0 <= j < l.len() ==> l[j] != '\n',
        !starts_with_char(trim(l), '['),
        split_once_char(trim(l), '=') matches Some((k, v)) ==> trim(k) != "NoDisplay"@ && trim(k)
            != "Hidden"@ && trim(k) != "Type"@,
    ensures
        visible(c + seq!['\n'] + l) == visible(c),
{
    lemma_lines_append(c, l);
    let ls = lines(c);
    assert(ls.push(l).drop_last() =~= ls);
    assert(ls.push(l).last() == l);
    assert(visibility(ls.push(l)) == visibility(ls));
}

/// The first non-empty value of `key` in the entry group.
pub open spec fn first_value(ls: Seq<Seq<char>>, key: Seq<char>) -> Option<Seq<char>>
    decreases ls.len(),
{
    if ls.len() == 0 {
        None
    } else {
        let prev = first_value(ls.drop_last(), key);
        if prev is Some {
            prev
        } else {
            match entry_pair(ls) {
                Some((k, v)) => if k == key && v.len() > 0 {
                    Some(v)
                } else {
                    None
                },
                None => None,
            }
        }
    }
}

/// The display name of a desktop file: its first unlocalized `Name`, or empty.
pub open spec fn desktop_name(content: Seq<char>) -> Seq<char> {
    match first_value(lines(content), "Name"@) {
        Some(n) => n,
        None => seq![],
    }
}

/// The icon of a desktop file: its first `Icon`.
pub open spec fn desktop_icon(content: Seq<char>) -> Option<Seq<char>> {
    first_value(lines(content), "Icon"@)
}

// ---------------------------------------------------------------------------
// Reading one line
// ---------------------------------------------------------------------------

/// What one line of a desktop file is.
pub enum LineScan {
    /// A group header; `true` for `[Desktop Entry]`.
    Header(bool),
    /// A `key=value` line: the ranges of the trimmed key and value.
    Pair(usize, usize, usize, usize),
    /// Anything else.
    Plain,
}

/// Classifies the line `v[a..b]`; `header` holds the characters of `[Desktop Entry]`.
pub fn scan_line(v: &Vec<char>, a: usize, b: usize, header: &Vec<char>) -> (r: LineScan)
    requires
        a <= b <= v@.len(),
        header@ == "[Desktop Entry]"@,
    ensures
        match r {
            LineScan::Header(e) => header_kind(v@.subrange(a as int, b as int)) == Some(e),
            LineScan::Pair(ka, kb, va, vb) => {
                &&& ka <= kb <= v@.len()
                &&& va <= vb <= v@.len()
                &&& header_kind(v@.subrange(a as int, b as int)) is None
                &&& pair_of(v@.subrange(a as int, b as int)) == Some(
                    (v@.subrange(ka as int, kb as int), v@.subrange(va as int, vb as int)),
                )
            },
            LineScan::Plain => {
                &&& header_kind(v@.subrange(a as int, b as int)) is None
                &&& pair_of(v@.subrange(a as int, b as int)) is None
            },
        },
{
    let ghost line = v@.subrange(a as int, b as int);
    let (ta, tb) = trim_range(v, a, b);
    let ghost t = v@.subrange(ta as int, tb as int);
    if ta < tb && v[ta] == '[' {
        return LineScan::Header(range_eq(v, ta, tb, header));
    }
    assert(!starts_with_char(t, '['));
    match find_char(v, ta, tb, '=') {
        Some(e) => {
            assert(t.take(e - ta) =~= v@.subrange(ta as int, e as int));
            assert(t.skip(e - ta + 1) =~= v@.subrange(e + 1, tb as int));
            let (ka, kb) = trim_range(v, ta, e);
            let (va, vb) = trim_range(v, e + 1, tb);
            LineScan::Pair(ka, kb, va, vb)
        },
        None => LineScan::Plain,
    }
}

/// The `in_entry_after` state moves by one line.
pub proof fn lemma_in_entry_step(done: Seq<Seq<char>>, line: Seq<char>)
    ensures
        in_entry_after(done.push(line)) == match header_kind(line) {
            Some(e) => e,
            None => in_entry_after(done),
        },
        entry_pair(done.push(line)) == if in_entry_after(done) {
            pair_of(line)
        } else {
            None
        },
{
    assert(done.push(line).drop_last() =~= done);
}





// ---------------------------------------------------------------------------
// Public parsers
// ---------------------------------------------------------------------------

/// The display name and icon of a desktop entry.
pub struct DesktopEntry {
    pub name: String,
    pub icon: Option<String>,
}

/// Whether a path names a desktop file by its extension (`desktop`, exactly).
pub fn is_desktop_file(path: &str) -> (r: bool)
    ensures
        r == (extension(path@) == Some("desktop"@)),
{
    match path_extension(path) {
        Some(e) => {
            let ev = chars_of(e.as_str());
            let word = chars_of("desktop");
            assert(ev@.subrange(0, ev@.len() as int) =~= ev@);
            range_eq(&ev, 0, ev.len(), &word)
        },
        None => false,
    }
}

/// Whether a .desktop file describes a visible, launchable application.
pub fn is_visible_app(content: &str) -> (r: bool)
    ensures
        r == visible(content@),
{
    let v = chars_of(content);
    let header = chars_of("[Desktop Entry]");
    let no_display = chars_of("NoDisplay");
    let hidden_key = chars_of("Hidden");
    let type_key = chars_of("Type");
    let true_word = chars_of("true");
    let application = chars_of("Application");
    let n = v.len();
    let mut pos: usize = 0;
    let mut in_entry = false;
    let mut hidden = false;
    let mut is_application = true;
    let ghost mut done: Seq<Seq<char>> = seq![];
    proof {
        lemma_lines_start(v@);
    }
    while pos < n
        invariant
            n == v@.len(),
            v@ == content@,
            header@ == "[Desktop Entry]"@,
            no_display@ == "NoDisplay"@,
            hidden_key@ == "Hidden"@,
            type_key@ == "Type"@,
            true_word@ == "true"@,
            application@ == "Application"@,
            pos <= n,
            lines(v@) == done + lines(v@.subrange(pos as int, n as int)),
            in_entry == in_entry_after(done),
            (hidden, is_application) == visibility(done),
        decreases n - pos,
    {
        let (a, b, next) = next_line(&v, pos);
        let ghost line = v@.subrange(a as int, b as int);
        proof {
            lemma_lines_advance(
                lines(v@),
                done,
                line,
                lines(v@.subrange(pos as int, n as int)),
                lines(v@.subrange(next as int, n as int)),
            );
            lemma_in_entry_step(done, line);
            assert(done.push(line).drop_last() =~= done);
        }
        match scan_line(&v, a, b, &header) {
            LineScan::Header(e) => {
                in_entry = e;
            },
            LineScan::Pair(ka, kb, va, vb) => {
                if in_entry {
                    let is_hide_key = range_eq(&v, ka, kb, &no_display) || range_eq(
                        &v,
                        ka,
                        kb,
                        &hidden_key,
                    );
                    if is_hide_key && range_eq_ignore_ascii_case(&v, va, vb, &true_word) {
                        hidden = true;
                    } else if range_eq(&v, ka, kb, &type_key) {
                        is_application = range_eq_ignore_ascii_case(&v, va, vb, &application);
                    }
                }
            },
            LineScan::Plain => {},
        }
        proof {
            done = done.push(line);
        }
        pos = next;
    }
    proof {
        lemma_lines_done(v@, lines(v@), done);
    }
    !hidden && is_application
}

/// The first non-empty value of `key` inside the entry group of the text `v`.
pub fn first_entry_value(v: &Vec<char>, key: &Vec<char>) -> (r: Option<String>)
    ensures
        opt_view(r) == first_value(lines(v@), key@),
{
    let header = chars_of("[Desktop Entry]");
    let n = v.len();
    let mut pos: usize = 0;
    let mut in_entry = false;
    let mut found: Option<String> = None;
    let ghost mut done: Seq<Seq<char>> = seq![];
    proof {
        lemma_lines_start(v@);
    }
    while pos < n
        invariant
            n == v@.len(),
            header@ == "[Desktop Entry]"@,
            pos <= n,
            lines(v@) == done + lines(v@.subrange(pos as int, n as int)),
            in_entry == in_entry_after(done),
            opt_view(found) == first_value(done, key@),
        decreases n - pos,
    {
        let (a, b, next) = next_line(v, pos);
        let ghost line = v@.subrange(a as int, b as int);
        proof {
            lemma_lines_advance(
                lines(v@),
                done,
                line,
                lines(v@.subrange(pos as int, n as int)),
                lines(v@.subrange(next as int, n as int)),
            );
            lemma_in_entry_step(done, line);
            assert(done.push(line).drop_last() =~= done);
        }
        match scan_line(v, a, b, &header) {
            LineScan::Header(e) => {
                in_entry = e;
            },
            LineScan::Pair(ka, kb, va, vb) => {
                if in_entry && found.is_none() && va < vb && range_eq(v, ka, kb, key) {
                    found = Some(string_of(v, va, vb));
                }
            },
            LineScan::Plain => {},
        }
        proof {
            done = done.push(line);
        }
        pos = next;
    }
    proof {
        lemma_lines_done(v@, lines(v@), done);
    }
    found
}

/// Parse the display Name and Icon of a desktop entry, returning None when the
/// entry is not a visible application.
pub fn parse_entry(content: &str) -> (r: Option<DesktopEntry>)
    ensures
        r is Some <==> visible(content@),
        r matches Some(e) ==> e.name@ == desktop_name(content@) && opt_view(e.icon)
            == desktop_icon(content@),
{
    if !is_visible_app(content) {
        return None;
    }
    let v = chars_of(content);
    let name_key = chars_of("Name");
    let icon_key = chars_of("Icon");
    let name = first_entry_value(&v, &name_key);
    let icon = first_entry_value(&v, &icon_key);
    let name = match name {
        Some(n) => n,
        None => String::new(),
    };
    Some(DesktopEntry { name, icon })
}

// ---------------------------------------------------------------------------
// Where desktop files are
// ---------------------------------------------------------------------------

/// `applications` under each absolute folder of `dirs`, in order; relative
/// folders are skipped.
pub open spec fn applications_under(dirs: Seq<Seq<char>>) -> Seq<Seq<char>>
    decreases dirs.len(),
{
    if dirs.len() == 0 {
        seq![]
    } else {
        let acc = applications_under(dirs.drop_last());
        if is_absolute(dirs.last()) {
            acc.push(join(dirs.last(), "applications"@))
        } else {
            acc
        }
    }
}

/// The user's data folder: `$XDG_DATA_HOME` when it is absolute, else
/// `.local/share` under the home folder.
pub open spec fn user_data(home: Seq<char>, data_home: Option<Seq<char>>) -> Seq<char> {
    match data_home {
        Some(d) => if is_absolute(d) {
            d
        } else {
            join(home, ".local/share"@)
        },
        None => join(home, ".local/share"@),
    }
}

/// The folders searched for desktop files, in order: `applications` in the
/// user's data folder when a home folder is known, then `applications` under
/// each absolute folder of `$XDG_DATA_DIRS`, which stands for
/// `/usr/local/share` and `/usr/share` when it is unset.
pub open spec fn application_folders(
    home: Option<Seq<char>>,
    data_home: Option<Seq<char>>,
    data_dirs: Option<Seq<Seq<char>>>,
) -> Seq<Seq<char>> {
    let user = match home {
        Some(h) => seq![join(user_data(h, data_home), "applications"@)],
        None => seq![],
    };
    let system = match data_dirs {
        Some(d) => d,
        None => seq!["/usr/local/share"@, "/usr/share"@],
    };
    user + applications_under(system)
}

/// The text of each string, in order.
pub open spec fn string_views(v: Seq<String>) -> Seq<Seq<char>> {
    v.map_values(|s: String| s@)
}

/// The folders searched for desktop files, given `$HOME`, `$XDG_DATA_HOME` and
/// the folders of `$XDG_DATA_DIRS`, each when it is set.
pub fn application_dirs(home: Option<String>, data_home: Option<String>, data_dirs: Option<Vec<String>>) -> (r: Vec<String>)
    ensures
        string_views(r@) == application_folders(
            opt_view(home),
            opt_view(data_home),
            match data_dirs {
                Some(d) => Some(string_views(d@)),
                None => None,
            },
        ),
{
    let mut out: Vec<String> = Vec::new();
    match &home {
        Some(h) => {
            let data = match &data_home {
                Some(d) => if is_absolute_path(d.as_str()) {
                    d.clone()
                } else {
                    join_path(h.as_str(), ".local/share")
                },
                None => join_path(h.as_str(), ".local/share"),
            };
            out.push(join_path(data.as_str(), "applications"));
        },
        None => {},
    }
    let ghost user = string_views(out@);
    let system: Vec<String> = match data_dirs {
        Some(d) => d,
        None => vec![String::from_str("/usr/local/share"), String::from_str("/usr/share")],
    };
    proof {
        assert(string_views(system@) == match data_dirs {
            Some(d) => string_views(d@),
            None => seq!["/usr/local/share"@, "/usr/share"@],
        });
    }
    let mut i: usize = 0;
    while i < system.len()
        invariant
            i <= system@.len(),
            string_views(out@) == user + applications_under(string_views(system@).take(i as int)),
        decreases system@.len() - i,
    {
        let ghost before = string_views(out@);
        let ghost sv = string_views(system@);
        assert(sv.take(i + 1).drop_last() =~= sv.take(i as int));
        assert(sv.take(i + 1).last() == system@[i as int]@);
        let dir = system[i].as_str();
        if is_absolute_path(dir) {
            out.push(join_path(dir, "applications"));
            assert(string_views(out@) =~= before.push(join(system@[i as int]@, "applications"@)));
        }
        i = i + 1;
    }
    assert(string_views(system@).take(i as int) =~= string_views(system@));
    out
}

} // verus!
