//! Parsers and decisions for each supported package source, and the list of
//! sources the registry holds.
pub mod desktop;
pub mod distro;
pub mod userspace;
pub mod appimage;
pub mod snap;
pub mod flatpak;

use vstd::prelude::*;

use crate::backend::{first_owner, is_first_owner, texts};
use crate::backends::appimage::AppImageBackend;
use crate::backends::distro::{AptBackend, DnfBackend, PacmanBackend, ZypperBackend};
use crate::backends::flatpak::FlatpakBackend;
use crate::backends::snap::SnapBackend;
use crate::backends::userspace::{CargoBackend, NpmBackend, PipBackend};

verus! {

/// One supported package source.
#[derive(Debug, Clone, Copy, PartialEq, Eq)]
pub enum Source {
    Apt(AptBackend),
    Dnf(DnfBackend),
    Zypper(ZypperBackend),
    Pacman(PacmanBackend),
    Flatpak(FlatpakBackend),
    Snap(SnapBackend),
    AppImage(AppImageBackend),
    Pip(PipBackend),
    Npm(NpmBackend),
    Cargo(CargoBackend),
}

/// The identifier of a source, stored on every app it produces.
pub open spec fn source_id(s: Source) -> Seq<char> {
    match s {
        Source::Apt(_) => "apt"@,
        Source::Dnf(_) => "dnf"@,
        Source::Zypper(_) => "zypper"@,
        Source::Pacman(_) => "pacman"@,
        Source::Flatpak(_) => "flatpak"@,
        Source::Snap(_) => "snap"@,
        Source::AppImage(_) => "appimage"@,
        Source::Pip(_) => "pip"@,
        Source::Npm(_) => "npm"@,
        Source::Cargo(_) => "cargo"@,
    }
}

/// The tools probed to detect a source.
pub open spec fn source_tools(s: Source) -> Seq<Seq<char>> {
    match s {
        Source::Apt(_) => seq!["apt-get"@, "dpkg-query"@],
        Source::Dnf(_) => seq!["dnf"@, "rpm"@],
        Source::Zypper(_) => seq!["zypper"@, "rpm"@],
        Source::Pacman(_) => seq!["pacman"@],
        Source::Flatpak(_) => seq!["flatpak"@],
        Source::Snap(_) => seq!["snap"@],
        Source::AppImage(_) => seq![],
        Source::Pip(_) => seq!["pip3"@, "pip"@],
        Source::Npm(_) => seq!["npm"@],
        Source::Cargo(_) => seq!["cargo"@],
    }
}

/// Whether a source is available, given which of its tools were found: pip
/// needs either of its two, AppImages need none, the others need all.
pub open spec fn source_available(s: Source, present: Seq<bool>) -> bool {
    match s {
        Source::Pip(_) => present[0] || present[1],
        Source::AppImage(_) => true,
        _ => forall|i: int| 0 <= i < present.len() ==> present[i],
    }
}

/// Every supported source, in the order the registry holds them.
pub open spec fn registry_order() -> Seq<Source> {
    seq![
        Source::Apt(AptBackend),
        Source::Dnf(DnfBackend),
        Source::Zypper(ZypperBackend),
        Source::Pacman(PacmanBackend),
        Source::Flatpak(FlatpakBackend),
        Source::Snap(SnapBackend),
        Source::AppImage(AppImageBackend),
        Source::Pip(PipBackend),
        Source::Npm(NpmBackend),
        Source::Cargo(CargoBackend),
    ]
}

impl Source {
    /// The identifier stored on every app this source produces.
    pub fn id(&self) -> (r: &'static str)
        ensures
            r@ == source_id(*self),
    {
        match self {
            Source::Apt(b) => b.id(),
            Source::Dnf(b) => b.id(),
            Source::Zypper(b) => b.id(),
            Source::Pacman(b) => b.id(),
            Source::Flatpak(b) => b.id(),
            Source::Snap(b) => b.id(),
            Source::AppImage(b) => b.id(),
            Source::Pip(b) => b.id(),
            Source::Npm(b) => b.id(),
            Source::Cargo(b) => b.id(),
        }
    }

    /// The tools probed to detect this source.
    pub fn tools(&self) -> (r: Vec<&'static str>)
        ensures
            texts(r@) == source_tools(*self),
    {
        match self {
            Source::Apt(b) => b.tools(),
            Source::Dnf(b) => b.tools(),
            Source::Zypper(b) => b.tools(),
            Source::Pacman(b) => b.tools(),
            Source::Flatpak(b) => b.tools(),
            Source::Snap(b) => b.tools(),
            Source::AppImage(b) => {
                let r = b.tools();
                assert(texts(r@) =~= seq![]);
                r
            },
            Source::Pip(b) => b.tools(),
            Source::Npm(b) => b.tools(),
            Source::Cargo(b) => b.tools(),
        }
    }

    /// Whether this source is available, given for each of its tools whether
    /// it was found.
    pub fn detect(&self, present: &Vec<bool>) -> (r: bool)
        requires
            present@.len() == source_tools(*self).len(),
        ensures
            r == source_available(*self, present@),
    {
        match self {
            Source::Apt(b) => b.detect(present),
            Source::Dnf(b) => b.detect(present),
            Source::Zypper(b) => b.detect(present),
            Source::Pacman(b) => b.detect(present),
            Source::Flatpak(b) => b.detect(present),
            Source::Snap(b) => b.detect(present),
            Source::AppImage(b) => b.detect(present),
            Source::Pip(b) => b.detect(present),
            Source::Npm(b) => b.detect(present),
            Source::Cargo(b) => b.detect(present),
        }
    }
}

/// Every supported source, in the order the registry holds them.
pub fn build_registry() -> (r: Vec<Source>)
    ensures
        r@ == registry_order(),
{
    let r = vec![
        Source::Apt(AptBackend),
        Source::Dnf(DnfBackend),
        Source::Zypper(ZypperBackend),
        Source::Pacman(PacmanBackend),
        Source::Flatpak(FlatpakBackend),
        Source::Snap(SnapBackend),
        Source::AppImage(AppImageBackend),
        Source::Pip(PipBackend),
        Source::Npm(NpmBackend),
        Source::Cargo(CargoBackend),
    ];
    assert(r@ =~= registry_order());
    r
}

/// No two sources of the registry share an identifier, so an app is routed
/// for removal to the one source whose identifier it carries.
pub proof fn law_registry_ids_distinct(i: int, j: int)
    requires
        0 <= i < j < registry_order().len(),
    ensures
        source_id(registry_order()[i]) != source_id(registry_order()[j]),
{
    reveal_strlit("apt");
    reveal_strlit("dnf");
    reveal_strlit("zypper");
    reveal_strlit("pacman");
    reveal_strlit("flatpak");
    reveal_strlit("snap");
    reveal_strlit("appimage");
    reveal_strlit("pip");
    reveal_strlit("npm");
    reveal_strlit("cargo");
    let o = registry_order();
    // Each identifier is told apart by its length and its first letter.
    assert(source_id(o[0]).len() == 3 && source_id(o[0])[0] == 'a');
    assert(source_id(o[1]).len() == 3 && source_id(o[1])[0] == 'd');
    assert(source_id(o[2]).len() == 6 && source_id(o[2])[0] == 'z');
    assert(source_id(o[3]).len() == 6 && source_id(o[3])[0] == 'p');
    assert(source_id(o[4]).len() == 7 && source_id(o[4])[0] == 'f');
    assert(source_id(o[5]).len() == 4 && source_id(o[5])[0] == 's');
    assert(source_id(o[6]).len() == 8 && source_id(o[6])[0] == 'a');
    assert(source_id(o[7]).len() == 3 && source_id(o[7])[0] == 'p');
    assert(source_id(o[8]).len() == 3 && source_id(o[8])[0] == 'n');
    assert(source_id(o[9]).len() == 5 && source_id(o[9])[0] == 'c');
    if source_id(o[i]) == source_id(o[j]) {
        assert(source_id(o[i]).len() == source_id(o[j]).len());
        assert(source_id(o[i])[0] == source_id(o[j])[0]);
    }
}

/// An app carries the identifier of the source that listed it; in a registry
/// holding the sources in the order of `build_registry`, the first backend
/// with that identifier, the one removal is routed to, is that same source.
pub proof fn law_apps_route_to_their_source(ids: Seq<&'static str>, k: int)
    requires
        ids.len() == registry_order().len(),
        forall|j: int| 0 <= j < ids.len() ==> (#[trigger] ids[j])@ == source_id(registry_order()[j]),
        0 <= k < ids.len(),
    ensures
        first_owner(ids, source_id(registry_order()[k])) == Some(k),
{
    let o = registry_order();
    let id = source_id(o[k]);
    assert forall|j: int| 0 <= j < k implies ids[j]@ != id by {
        law_registry_ids_distinct(j, k);
    }
    assert(is_first_owner(ids, id, k));
    let c = choose|c: int| is_first_owner(ids, id, c);
    if c < k {
        assert(ids[c]@ == id);
    } else if c > k {
        assert(ids[k]@ == id);
    }
}

} // verus!
