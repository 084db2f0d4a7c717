//! AppImages: self-contained files found in a few folders of the home directory.
use vstd::prelude::*;

use crate::backend::BackendError;
use crate::model::{all_from, apps_view, lemma_all_from_views, views_from, App, AppView};
use crate::path::{extension, file_stem, path_extension, path_file_stem};
use crate::sort::{lemma_sorted_all_from, sort_by_lower_name, sorted_by_lower_name};
use crate::text::{append_str, chars_of, eq_ignore_ascii_case, own, range_eq_ignore_ascii_case};

verus! {

broadcast use vstd::string::group_string_axioms;

/// Folders under the home directory searched for AppImages, in order.
pub open spec fn appimage_folders() -> Seq<Seq<char>> {
    seq!["Applications"@, ".local/bin"@, "bin"@, "Desktop"@, "Downloads"@]
}

/// Folders under the home directory searched for AppImages, in order.
pub fn appimage_dirs() -> (r: Vec<&'static str>)
    ensures
        r@.map_values(|s: &'static str| s@) == appimage_folders(),
{
    let v = vec!["Applications", ".local/bin", "bin", "Desktop", "Downloads"];
    assert(v@.map_values(|s: &'static str| s@) =~= appimage_folders());
    v
}

/// The path's extension is `AppImage`, in any ASCII case.
pub open spec fn appimage_name(p: Seq<char>) -> bool {
    match extension(p) {
        Some(e) => eq_ignore_ascii_case(e, "AppImage"@),
        None => false,
    }
}

/// Whether the path names an AppImage by its extension.
pub fn has_appimage_extension(path: &str) -> (r: bool)
    ensures
        r == appimage_name(path@),
{
    match path_extension(path) {
        Some(e) => {
            let ev = chars_of(e.as_str());
            let word = chars_of("AppImage");
            assert(ev@.subrange(0, ev@.len() as int) =~= ev@);
            range_eq_ignore_ascii_case(&ev, 0, ev.len(), &word)
        },
        None => false,
    }
}

/// A regular file with the AppImage extension.
pub fn is_appimage(path: &str, is_file: bool) -> (r: bool)
    ensures
        r == (is_file && appimage_name(path@)),
{
    is_file && has_appimage_extension(path)
}

/// The app for an AppImage at a path: the path identifies it and the file
/// stem names it.
pub open spec fn appimage_app(p: Seq<char>) -> Option<AppView> {
    match file_stem(p) {
        Some(stem) => Some((p, stem, None, "appimage"@, None)),
        None => None,
    }
}

/// The app for an AppImage file.
pub fn app_from_path(path: &str) -> (r: Option<App>)
    ensures
        match r {
            Some(a) => appimage_app(path@) == Some(a@),
            None => appimage_app(path@) is None,
        },
{
    match path_file_stem(path) {
        Some(stem) => Some(App::new(path, stem.as_str(), "appimage")),
        None => None,
    }
}

/// The error for an AppImage that could not be deleted; `detail` says why.
pub fn delete_error(path: &str, detail: &str) -> (r: BackendError)
    ensures
        r.0@ == "failed to delete "@ + path@ + ": "@ + detail@,
{
    let mut message = own("failed to delete ");
    append_str(&mut message, path);
    append_str(&mut message, ": ");
    append_str(&mut message, detail);
    BackendError(message)
}

/// The apps for the AppImages among `files` (path, is a regular file), in order.
pub open spec fn appimage_apps(files: Seq<(Seq<char>, bool)>) -> Seq<AppView>
    decreases files.len(),
{
    if files.len() == 0 {
        seq![]
    } else {
        let acc = appimage_apps(files.drop_last());
        let (p, is_file) = files.last();
        if is_file && appimage_name(p) {
            match appimage_app(p) {
                Some(a) => acc.push(a),
                None => acc,
            }
        } else {
            acc
        }
    }
}

/// What a list of directory entries says: path and whether it is a regular file.
pub open spec fn file_views(files: Seq<(String, bool)>) -> Seq<(Seq<char>, bool)> {
    files.map_values(|f: (String, bool)| (f.0@, f.1))
}

/// The AppImages among the found files, sorted by lower-cased name.
pub fn appimages_from(files: &Vec<(String, bool)>) -> (r: Vec<App>)
    ensures
        exists|found: Seq<App>|
            #![trigger sorted_by_lower_name(found, r@)]
            apps_view(found) == appimage_apps(file_views(files@)) && sorted_by_lower_name(found, r@),
{
    let ghost fv = file_views(files@);
    let mut apps: Vec<App> = Vec::new();
    let mut i: usize = 0;
    while i < files.len()
        invariant
            i <= files@.len(),
            fv == file_views(files@),
            apps_view(apps@) == appimage_apps(fv.take(i as int)),
        decreases files@.len() - i,
    {
        let ghost acc = apps_view(apps@);
        assert(fv.take(i + 1).drop_last() =~= fv.take(i as int));
        let (path, is_file) = &files[i];
        if is_appimage(path.as_str(), *is_file) {
            match app_from_path(path.as_str()) {
                Some(app) => {
                    apps.push(app);
                    assert(apps_view(apps@) =~= acc.push(app@));
                },
                None => {},
            }
        }
        i = i + 1;
    }
    assert(fv.take(files@.len() as int) =~= fv);
    let ghost found = apps@;
    let r = sort_by_lower_name(apps);
    assert(sorted_by_lower_name(found, r@));
    r
}

/// Every AppImage app is owned by the AppImage backend.
proof fn lemma_appimage_apps_from(files: Seq<(Seq<char>, bool)>)
    ensures
        views_from(appimage_apps(files), "appimage"@),
    decreases files.len(),
{
    if files.len() > 0 {
        lemma_appimage_apps_from(files.drop_last());
    }
}

/// AppImages have no dedicated tooling: this backend works directly on the
/// filesystem, so it is always available.
#[derive(Debug, Clone, Copy, PartialEq, Eq)]
pub struct AppImageBackend;

impl AppImageBackend {
    /// `appimage`, the identifier stored on every app of this backend.
    pub fn id(&self) -> (r: &'static str)
        ensures
            r@ == "appimage"@,
    {
        "appimage"
    }

    /// No tool is probed to detect this backend.
    pub fn tools(&self) -> (r: Vec<&'static str>)
        ensures
            r@.len() == 0,
    {
        Vec::new()
    }

    /// Always available.
    pub fn detect(&self, present: &Vec<bool>) -> (r: bool)
        requires
            present@.len() == 0,
        ensures
            r,
    {
        true
    }

    /// The folders under the home directory that are searched, in order.
    pub fn folders(&self) -> (r: Vec<&'static str>)
        ensures
            r@.map_values(|s: &'static str| s@) == appimage_folders(),
    {
        appimage_dirs()
    }

    /// The AppImages among the files found there, sorted by name; each is
    /// owned by this backend.
    pub fn apps(&self, files: &Vec<(String, bool)>) -> (r: Vec<App>)
        ensures
            exists|found: Seq<App>|
                #![trigger sorted_by_lower_name(found, r@)]
                apps_view(found) == appimage_apps(file_views(files@)) && sorted_by_lower_name(found, r@),
            all_from(r@, "appimage"@),
    {
        let r = appimages_from(files);
        proof {
            let found = choose|found: Seq<App>|
                #![trigger sorted_by_lower_name(found, r@)]
                apps_view(found) == appimage_apps(file_views(files@)) && sorted_by_lower_name(found, r@);
            lemma_appimage_apps_from(file_views(files@));
            lemma_all_from_views(found, "appimage"@);
            lemma_sorted_all_from(found, r@, "appimage"@);
        }
        r
    }

    /// The file deleted to remove `app`: its identifier is its path.
    pub fn removal(&self, app: &App) -> (r: String)
        ensures
            r@ == app.id@,
    {
        app.id.clone()
    }
}

} // verus!
