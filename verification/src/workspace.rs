//! The workspace snapshot: its packages, and the packages found changed.

use crate::semantic_version::{SemVer, VersionView};
use vstd::prelude::*;

verus! {

/// One package of the workspace, as the metadata provider describes it.
#[derive(Debug)]
pub struct WorkspacePackage {
    /// The identity of the package, unique in the workspace.
    pub id: String,
    pub name: String,
    /// The current version.
    pub version: SemVer,
    /// Whether the package is versioned on its own, apart from the shared version.
    pub independent: bool,
    /// Whether the package is marked as not to be published.
    pub private: bool,
    /// The identities of the workspace packages that this one depends on.
    pub dependencies: Vec<String>,
}

/// What a workspace package stands for.
pub struct PackageView {
    pub id: Seq<char>,
    pub name: Seq<char>,
    pub version: VersionView,
    pub independent: bool,
    pub private: bool,
    pub dependencies: Seq<Seq<char>>,
}

/// Why a package counts as changed.
#[derive(Clone, Copy, PartialEq, Eq, Structural, Debug)]
pub enum ChangeReason {
    /// Its own files differ from the last release.
    Direct,
    /// Something that it depends on changed.
    Propagated,
}

/// A package found changed: where it stands in the snapshot, what versioning
/// needs to know of it, and why it counts as changed.
#[derive(Debug)]
pub struct ChangedPackage {
    /// The position of the package in the workspace snapshot.
    pub index: usize,
    pub name: String,
    pub version: SemVer,
    pub independent: bool,
    pub reason: ChangeReason,
}

/// What a changed package stands for.
pub struct ChangedView {
    pub index: int,
    pub name: Seq<char>,
    pub version: VersionView,
    pub independent: bool,
    pub reason: ChangeReason,
}

/// What the version-control layer lists for one package: the tracked files of
/// the package that differ from the boundary.
#[derive(Debug)]
pub struct FileChanges {
    /// The identity of the package.
    pub package: String,
    /// The files of the package that differ.
    pub files: Vec<String>,
}

/// What the listing for one package stands for.
pub struct FileChangesView {
    pub package: Seq<char>,
    pub files: Seq<Seq<char>>,
}

/// The texts of a list of strings.
pub open spec fn texts(list: Seq<String>) -> Seq<Seq<char>> {
    list.map_values(|s: String| s@)
}

impl View for WorkspacePackage {
    type V = PackageView;

    open spec fn view(&self) -> PackageView {
        PackageView {
            id: self.id@,
            name: self.name@,
            version: self.version@,
            independent: self.independent,
            private: self.private,
            dependencies: texts(self.dependencies@),
        }
    }
}

impl View for ChangedPackage {
    type V = ChangedView;

    open spec fn view(&self) -> ChangedView {
        ChangedView {
            index: self.index as int,
            name: self.name@,
            version: self.version@,
            independent: self.independent,
            reason: self.reason,
        }
    }
}

impl View for FileChanges {
    type V = FileChangesView;

    open spec fn view(&self) -> FileChangesView {
        FileChangesView { package: self.package@, files: texts(self.files@) }
    }
}

/// What a listing of file changes stands for.
pub open spec fn listing_view(listing: Seq<FileChanges>) -> Seq<FileChangesView> {
    listing.map_values(|l: FileChanges| l@)
}

/// What a list of workspace packages stands for.
pub open spec fn workspace_view(packages: Seq<WorkspacePackage>) -> Seq<PackageView> {
    packages.map_values(|p: WorkspacePackage| p@)
}

/// What a list of changed packages stands for.
pub open spec fn changed_views(changed: Seq<ChangedPackage>) -> Seq<ChangedView> {
    changed.map_values(|c: ChangedPackage| c@)
}

impl ChangedPackage {
    /// A copy of this changed package.
    pub fn duplicate(&self) -> (copy: ChangedPackage)
        ensures
            copy@ == self@,
    {
        ChangedPackage {
            index: self.index,
            name: self.name.clone(),
            version: self.version.duplicate(),
            independent: self.independent,
            reason: self.reason,
        }
    }
}

/// Whether `list` holds the text of `id`.
pub fn contains_id(list: &Vec<String>, id: &String) -> (found: bool)
    ensures
        found == texts(list@).contains(id@),
{
    let mut i: usize = 0;
    while i < list.len()
        invariant
            i <= list.len(),
            forall|k: int| 0 <= k < i ==> texts(list@)[k] != id@,
        decreases list.len() - i,
    {
        if list[i] == *id {
            assert(texts(list@)[i as int] == id@);
            return true;
        }
        i += 1;
    }
    false
}

} // verus!
