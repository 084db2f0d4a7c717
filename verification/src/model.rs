//! The application record every backend produces.
use vstd::prelude::*;

use crate::text::{opt_view, own};

verus! {

/// What an [`App`] holds, as plain sequences of characters:
/// identifier, display name, version, backend identifier and icon.
pub type AppView = (Seq<char>, Seq<char>, Option<Seq<char>>, Seq<char>, Option<Seq<char>>);

/// A single installed application, owned by one backend.
#[derive(Debug, Clone, PartialEq, Eq)]
pub struct App {
    /// Stable identifier used for removal (package name, Flatpak ref, path).
    pub id: String,
    /// Human readable display name.
    pub name: String,
    /// Version string, when the backend reports one.
    pub version: Option<String>,
    /// Identifier of the backend that owns this app.
    pub backend: &'static str,
    /// Icon theme name or absolute path to the app's icon, when known.
    pub icon: Option<String>,
}

impl View for App {
    type V = AppView;

    open spec fn view(&self) -> AppView {
        (self.id@, self.name@, opt_view(self.version), self.backend@, opt_view(self.icon))
    }
}

/// The views of a sequence of apps.
pub open spec fn apps_view(apps: Seq<App>) -> Seq<AppView> {
    apps.map_values(|a: App| a@)
}

/// Every app of `apps` is owned by the backend with identifier `id`.
pub open spec fn all_from(apps: Seq<App>, id: Seq<char>) -> bool {
    forall|k: int| 0 <= k < apps.len() ==> (#[trigger] apps[k]).backend@ == id
}

/// Every app view of `apps` names the backend `id`.
pub open spec fn views_from(apps: Seq<AppView>, id: Seq<char>) -> bool {
    forall|k: int| 0 <= k < apps.len() ==> (#[trigger] apps[k]).3 == id
}

/// Apps whose views all name `id` are all owned by `id`.
pub proof fn lemma_all_from_views(apps: Seq<App>, id: Seq<char>)
    requires
        views_from(apps_view(apps), id),
    ensures
        all_from(apps, id),
{
    assert forall|k: int| 0 <= k < apps.len() implies (#[trigger] apps[k]).backend@ == id by {
        assert(apps_view(apps)[k] == apps[k]@);
    }
}

/// A copy of an optional string.
pub fn copy_opt(o: &Option<String>) -> (r: Option<String>)
    ensures
        opt_view(r) == opt_view(*o),
{
    match o {
        Some(s) => Some(s.clone()),
        None => None,
    }
}

impl App {
    /// An app with no version and no icon.
    pub fn new(id: &str, name: &str, backend: &'static str) -> (r: Self)
        ensures
            r@ == (id@, name@, None::<Seq<char>>, backend@, None::<Seq<char>>),
            r.backend == backend,
    {
        App { id: own(id), name: own(name), version: None, backend, icon: None }
    }

    /// The same app with its version set.
    pub fn with_version(self, version: &str) -> (r: Self)
        ensures
            r@ == (self@.0, self@.1, Some(version@), self@.3, self@.4),
            r.backend == self.backend,
    {
        let mut app = self;
        app.version = Some(own(version));
        app
    }

    /// The same app with its icon set.
    pub fn with_icon(self, icon: &str) -> (r: Self)
        ensures
            r@ == (self@.0, self@.1, self@.2, self@.3, Some(icon@)),
            r.backend == self.backend,
    {
        let mut app = self;
        app.icon = Some(own(icon));
        app
    }

    /// A copy of this app.
    pub fn duplicate(&self) -> (r: Self)
        ensures
            r@ == self@,
            r.backend == self.backend,
    {
        App {
            id: self.id.clone(),
            name: self.name.clone(),
            version: copy_opt(&self.version),
            backend: self.backend,
            icon: copy_opt(&self.icon),
        }
    }
}

} // verus!
