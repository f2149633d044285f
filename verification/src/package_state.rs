//! What is installed on this machine.
use crate::name_map::{Duplicate, NameMap};
use crate::package::{PackageName, RemoteName};
use crate::repo_manager::RepoPublicKeyFile;
use crate::text::same;
use vstd::prelude::*;

verus! {

/// How a package came to be installed.
#[derive(Debug)]
pub struct InstallState {
    /// The repository that it came from.
    pub remote: RemoteName,
}

impl View for InstallState {
    type V = Seq<char>;

    open spec fn view(&self) -> Seq<char> {
        self.remote@
    }
}

impl Duplicate for InstallState {
    fn duplicate(&self) -> (r: Self) {
        InstallState { remote: self.remote.clone() }
    }
}

/// The packages of this machine, and the keys of the repositories that they came from.
#[derive(Debug)]
pub struct PackageState {
    /// The packages that must stay.
    pub protected: Vec<PackageName>,
    /// The keys, by repository.
    pub pubkeys: NameMap<RepoPublicKeyFile>,
    /// What is installed, by package.
    pub installed: NameMap<InstallState>,
}

/// What a state says.
#[verifier::ext_equal]
pub struct PackageStateView {
    pub protected: Seq<Seq<char>>,
    pub pubkeys: Map<Seq<char>, Seq<u8>>,
    pub installed: Map<Seq<char>, Seq<char>>,
}

/// The texts of a row of package names.
pub open spec fn name_texts(v: Seq<PackageName>) -> Seq<Seq<char>> {
    v.map_values(|n: PackageName| n@)
}

impl View for PackageState {
    type V = PackageStateView;

    open spec fn view(&self) -> PackageStateView {
        PackageStateView {
            protected: name_texts(self.protected@),
            pubkeys: self.pubkeys@,
            installed: self.installed@,
        }
    }
}

impl Duplicate for PackageState {
    fn duplicate(&self) -> (r: Self) {
        let mut protected: Vec<PackageName> = Vec::new();
        let mut i: usize = 0;
        while i < self.protected.len()
            invariant
                i <= self.protected.len(),
                protected@.len() == i,
                forall|k: int| 0 <= k < i ==> (#[trigger] protected@[k])@ == self.protected@[k]@,
            decreases self.protected.len() - i,
        {
            protected.push(self.protected[i].clone());
            i = i + 1;
        }
        assert(name_texts(protected@) =~= name_texts(self.protected@));
        PackageState {
            protected,
            pubkeys: self.pubkeys.duplicate(),
            installed: self.installed.duplicate(),
        }
    }
}

impl PackageState {
    /// Whether a package must stay.
    pub fn is_protected(&self, package: &PackageName) -> (r: bool)
        ensures
            r == self@.protected.contains(package@),
    {
        let mut i: usize = 0;
        while i < self.protected.len()
            invariant
                i <= self.protected.len(),
                forall|k: int| 0 <= k < i ==> (#[trigger] self.protected@[k])@ != package@,
            decreases self.protected.len() - i,
        {
            if same(self.protected[i].as_str(), package.as_str()) {
                assert(self@.protected[i as int] == package@);
                return true;
            }
            i = i + 1;
        }
        assert forall|k: int| 0 <= k < self@.protected.len() implies #[trigger] self@.protected[k]
            != package@ by {
            assert(self@.protected[k] == self.protected@[k]@);
        }
        false
    }
}

} // verus!
