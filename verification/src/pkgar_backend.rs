//! Installing, upgrading and removing packages.
//!
//! What needs the file system, the network or the contents of an archive is done by the caller.
//! It asks for the next step, carries it out, notes the result, and asks again.
use crate::commit_queue::{
    clashes, committed_count, header_blake3, law_distinct_operations_are_all_queued,
    law_queue_changes_a_file_once, merge, merged, met_clashes, one_per_target, origin_of,
    package_blake3, package_path, pending_actions, possible_conflicts, queued_actions, Clash,
    FileAction, FileConflict, QueuedAction,
};
use crate::error::{wrap_io_err, wraps_io, Error, IoError, PkgarError};
use crate::hexadecimal::small_hex;
use crate::index::{
    check_against_index, index_enforcement_applies, pinned_manifest_key, refuses_signer, signed_by,
    signed_for, vouches_for, AcceptedIndex, AcceptedIndexView,
};
use crate::key_sync::{
    key_sync_stepped, law_finished_key_sync_leaves_no_key_missing, lemma_next_to_load, with_key,
    KeyProgress, KeyStep, KeySyncMode,
};
use crate::manifest_sig::field_bytes;
use crate::name_map::{Duplicate, NameMap};
use crate::package::{
    law_package_name_is_a_path_component, valid_package_name, Package, PackageName, RemoteName,
    RemotePackage,
};
use crate::package_state::{PackageState, PackageStateView};
use crate::path::{join, path_join};
use crate::private_dir::PrivateDir;
use crate::repo_manager::{
    RemotePath, RemotePathView, RepoManager, RepoManagerView, RepoPublicKey, RepoPublicKeyFile,
};
use crate::text::optional_text;
use crate::{PACKAGES_HEAD_DIR, REPO_SIGN_PUBKEY_PATH, REPO_STATE_PATH};
use pkgar::{MergedTransaction, PackageFile, Transaction};
use vstd::prelude::*;
use vstd::string::StringExecFns;

verus! {

/// A package manager for archives of the pkgar format.
pub struct PkgarBackend {
    /// The root of the installation.
    install_path: String,
    /// What is installed there.
    packages: PackageState,
    /// Where packages come from.
    repo_manager: RepoManager,
    /// The file operations that wait to be carried out.
    commits: Option<MergedTransaction>,
    /// Whether all repositories have their keys.
    keys_synced: bool,
    /// The index that archives are compared with, once that is settled. It is settled once, to
    /// none where the index is not enforced.
    verified_index: Option<Option<AcceptedIndex>>,
}

/// The file operations that wait, and the clashes among those that came.
#[verifier::ext_equal]
pub struct QueueView {
    pub actions: Seq<QueuedAction>,
    pub clashes: Seq<Clash>,
}

/// What a backend knows.
pub struct PkgarBackendView {
    pub install_path: Seq<char>,
    pub packages: PackageStateView,
    pub repo_manager: RepoManagerView,
    pub queue: Option<QueueView>,
    pub keys_synced: bool,
    pub index: Option<Option<AcceptedIndexView>>,
}

/// A queue that may not be there.
pub open spec fn queue_view(queue: Option<MergedTransaction>) -> Option<QueueView> {
    match queue {
        Some(q) => Some(QueueView { actions: queued_actions(q), clashes: met_clashes(q) }),
        None => None,
    }
}

/// An index that may not be settled or not be enforced.
pub open spec fn cache_view(index: Option<Option<AcceptedIndex>>) -> Option<
    Option<AcceptedIndexView>,
> {
    match index {
        Some(Some(i)) => Some(Some(i@)),
        Some(None) => Some(None),
        None => None,
    }
}

impl View for PkgarBackend {
    type V = PkgarBackendView;

    closed spec fn view(&self) -> PkgarBackendView {
        PkgarBackendView {
            install_path: self.install_path@,
            packages: self.packages@,
            repo_manager: self.repo_manager@,
            queue: queue_view(self.commits),
            keys_synced: self.keys_synced,
            index: cache_view(self.verified_index),
        }
    }
}

impl PkgarBackend {
    /// Where packages come from.
    pub closed spec fn manager(&self) -> RepoManager {
        self.repo_manager
    }

    /// No two file operations that wait are on the same path; once the keys were loaded, every
    /// repository has its key; and an index that is enforced was verified with a key.
    #[verifier::type_invariant]
    pub open spec fn wf(&self) -> bool {
        &&& self@.repo_manager == self.manager()@
        &&& self.manager().remote_map.wf()
        &&& self@.queue matches Some(q) ==> one_per_target(q.actions)
        &&& self@.keys_synced ==> self.manager().keyed_before(
            self.manager().remote_map.names().len() as int,
        )
        &&& self@.index matches Some(Some(i)) ==> (i.manifest.key matches Some(k) && signed_for(
            i,
            k,
        ))
    }
}

/// What became of the preparations of the install root.
#[derive(Debug)]
pub enum RootSetup {
    /// The record of the packages could not be written.
    NotWritable(IoError),
    /// The directory of the package headers could not be made.
    NoHeadDir(IoError),
    Ready,
}

/// The directory of the package headers.
pub open spec fn head_dir(root: Seq<char>) -> Seq<char> {
    path_join(root, PACKAGES_HEAD_DIR@)
}

/// The file with the header of an installed package.
pub open spec fn head_path(root: Seq<char>, package: Seq<char>) -> Seq<char> {
    path_join(head_dir(root), package + ".pkgar_head"@)
}

/// The header of a package lies directly in the directory of the headers, and no other package has
/// its header there.
pub proof fn law_package_has_its_own_head_file(
    root: Seq<char>,
    package: Seq<char>,
    other: Seq<char>,
)
    requires
        valid_package_name(package),
        valid_package_name(other),
    ensures
        head_path(root, package) == (if root.len() == 0 {
            PACKAGES_HEAD_DIR@
        } else if root.last() == '/' {
            root + PACKAGES_HEAD_DIR@
        } else {
            root + "/"@ + PACKAGES_HEAD_DIR@
        }) + "/"@ + package + ".pkgar_head"@,
        !(package + ".pkgar_head"@).contains('/'),
        head_path(root, package) == head_path(root, other) ==> package == other,
{
    reveal_strlit("var/lib/packages");
    reveal_strlit(".pkgar_head");
    reveal_strlit("/");
    law_package_name_is_a_path_component(package);
    law_package_name_is_a_path_component(other);
    let (f1, f2) = (package + ".pkgar_head"@, other + ".pkgar_head"@);
    let dir = head_dir(root);
    assert(dir.last() == 's');
    assert(head_path(root, package) =~= dir + "/"@ + f1);
    assert(head_path(root, other) =~= dir + "/"@ + f2);
    assert(dir + "/"@ + f1 =~= dir + "/"@ + package + ".pkgar_head"@);
    assert(f1[0] == package[0] && f2[0] == other[0]);
    if f1.contains('/') {
        let i = choose|i: int| 0 <= i < f1.len() && f1[i] == '/';
        assert(i < package.len() ==> f1[i] == package[i]);
        assert(i >= package.len() ==> f1[i] == ".pkgar_head"@[i - package.len()]);
    }
    if head_path(root, package) == head_path(root, other) {
        let p = head_path(root, package);
        let skipped = dir.len() as int + 1;
        assert(p.skip(skipped) =~= f1);
        assert(p.skip(skipped) =~= f2);
        assert(f1.take(f1.len() - 11) =~= package);
        assert(f2.take(f2.len() - 11) =~= other);
    }
}

/// The key that the header of an installed package is opened with: the one of the repository that
/// the package came from.
pub open spec fn head_key(packages: PackageStateView, package: Seq<char>) -> Option<Seq<u8>> {
    if packages.installed.contains_key(package) && packages.pubkeys.contains_key(
        packages.installed[package],
    ) {
        Some(packages.pubkeys[packages.installed[package]])
    } else {
        None
    }
}

/// Whether `e` says why there is no header to open.
pub open spec fn lacks_head(e: Error, packages: PackageStateView, package: Seq<char>) -> bool {
    if packages.installed.contains_key(package) {
        e matches Error::RepoCacheNotFound(p) && p@ == package
    } else {
        e matches Error::PackageNotInstalled(p) && p@ == package
    }
}

/// The public key of a repository.
pub fn require_pubkey(repo: &RemotePath) -> (r: Result<&RepoPublicKey, Error>)
    ensures
        r is Ok <==> repo@.pubkey is Some,
        r matches Ok(k) ==> repo@.pubkey == Some(k@),
        r matches Err(e) ==> (e matches Error::RepoNotLoaded(n) && n@ == repo@.name),
{
    match &repo.pubkey {
        Some(key) => Ok(key),
        None => Err(Error::RepoNotLoaded(repo.name.clone())),
    }
}

/// The queue after the operations of an archive came in. Without a queue a new one is begun.
pub open spec fn queue_with(
    queue: Option<QueueView>,
    newer: Seq<FileAction>,
    origin: Option<Seq<char>>,
) -> QueueView {
    let before = match queue {
        Some(q) => q,
        None => QueueView { actions: Seq::empty(), clashes: Seq::empty() },
    };
    QueueView {
        actions: merged(before.actions, newer, origin),
        clashes: before.clashes + clashes(before.actions, newer, origin),
    }
}

impl PkgarBackend {
    /// The directory of the package headers, which is made at the start.
    pub fn head_directory(install_path: &str) -> (r: String)
        ensures
            r@ == head_dir(install_path@),
    {
        join(install_path, PACKAGES_HEAD_DIR)
    }

    /// A backend for an install root with these packages.
    pub fn new(
        install_path: String,
        repo_manager: RepoManager,
        packages: PackageState,
        setup: RootSetup,
    ) -> (r: Result<Self, Error>)
        ensures
            r is Ok <==> setup is Ready,
            r matches Ok(b) ==> {
                &&& b.wf()
                &&& b.manager() == repo_manager
                &&& b@ == (PkgarBackendView {
                    install_path: install_path@,
                    packages: packages@,
                    repo_manager: repo_manager@,
                    queue: Some(QueueView { actions: Seq::empty(), clashes: Seq::empty() }),
                    keys_synced: false,
                    index: None,
                })
            },
            setup matches RootSetup::NotWritable(io) ==> (r matches Err(e) && wraps_io(
                e,
                io,
                install_path@,
                "Writing"@,
            )),
            setup matches RootSetup::NoHeadDir(io) ==> (r matches Err(e) && wraps_io(
                e,
                io,
                head_dir(install_path@),
                "Creating dir"@,
            )),
    {
        match setup {
            RootSetup::NotWritable(io) => Err(wrap_io_err(io, install_path.as_str(), "Writing")),
            RootSetup::NoHeadDir(io) => Err(
                wrap_io_err(
                    io,
                    Self::head_directory(install_path.as_str()).as_str(),
                    "Creating dir",
                ),
            ),
            RootSetup::Ready => {
                proof {
                    use_type_invariant(&repo_manager.remote_map);
                }
                Ok(
                    PkgarBackend {
                        install_path,
                        packages,
                        repo_manager,
                        commits: Some(MergedTransaction::new()),
                        keys_synced: false,
                        verified_index: None,
                    },
                )
            },
        }
    }

    /// Takes the operations of an archive into the queue.
    fn add_transaction(&mut self, transaction: Transaction, src: Option<&PackageFile>)
        ensures
            final(self).wf(),
            final(self).manager() == old(self).manager(),
            final(self)@ == (PkgarBackendView {
                queue: Some(
                    queue_with(old(self)@.queue, pending_actions(transaction), origin_of(src)),
                ),
                ..old(self)@
            }),
    {
        proof {
            use_type_invariant(&*self);
        }
        let mut taken: Option<MergedTransaction> = None;
        std::mem::swap(&mut taken, &mut self.commits);
        let mut commits = match taken {
            Some(commits) => commits,
            None => MergedTransaction::new(),
        };
        proof {
            law_queue_changes_a_file_once(
                queued_actions(commits),
                pending_actions(transaction),
                origin_of(src),
            );
        }
        merge(&mut commits, transaction, src);
        self.commits = Some(commits);
    }
}

/// A repository after the keys that are known from earlier were used: one without a key gets the
/// known one.
pub open spec fn keyed_from(
    entry: RemotePathView,
    name: Seq<char>,
    known: Map<Seq<char>, Seq<u8>>,
) -> RemotePathView {
    if entry.pubkey is None && known.contains_key(name) {
        with_key(entry, known[name])
    } else {
        entry
    }
}

/// The manager after the keys that are known from earlier were used.
pub open spec fn with_known_keys(
    m: RepoManagerView,
    known: Map<Seq<char>, Seq<u8>>,
) -> RepoManagerView {
    RepoManagerView {
        remote_map: Map::new(
            |n: Seq<char>| m.remote_map.contains_key(n),
            |n: Seq<char>| keyed_from(m.remote_map[n], n, known),
        ),
        ..m
    }
}

/// Whether `after` is `before` with the keys that are known from earlier.
pub open spec fn uses_known_keys(
    before: RepoManager,
    after: RepoManager,
    known: Map<Seq<char>, Seq<u8>>,
) -> bool {
    &&& after.remote_map.names() == before.remote_map.names()
    &&& after@ == with_known_keys(before@, known)
}

impl RepoManager {
    /// Gives every repository without a key the one that is known from earlier, if any.
    fn use_keys(&mut self, known: &NameMap<RepoPublicKeyFile>)
        ensures
            final(self).remote_map.wf(),
            uses_known_keys(*old(self), *final(self), known@),
    {
        let count: usize = self.remote_map.len();
        let ghost names = self.remote_map.names();
        proof {
            self.remote_map.lemma_names();
        }
        let mut i: usize = 0;
        while i < count
            invariant
                i <= count,
                count == names.len(),
                names == old(self).remote_map.names(),
                names == self.remote_map.names(),
                names.no_duplicates(),
                self.remote_map.wf(),
                self@ == (RepoManagerView {
                    remote_map: self@.remote_map,
                    ..old(self)@
                }),
                forall|n: Seq<char>|
                    old(self)@.remote_map.contains_key(n) <==> names.contains(n),
                forall|n: Seq<char>|
                    self@.remote_map.contains_key(n) <==> names.contains(n),
                forall|k: int|
                    0 <= k < i ==> self@.remote_map[#[trigger] names[k]]
                        == keyed_from(
                        old(self)@.remote_map[names[k]],
                        names[k],
                        known@,
                    ),
                forall|k: int|
                    i <= k < count ==> self@.remote_map[#[trigger] names[k]]
                        == old(self)@.remote_map[names[k]],
            decreases count - i,
        {
            assert(names.contains(names[i as int]));
            if self.remote_map.value_at(i).pubkey.is_none() {
                let key = match known.get(self.remote_map.name_at(i)) {
                    Some(key) => Some(*key),
                    None => None,
                };
                if let Some(key) = key {
                    self.set_key(i, key);
                    proof {
                        use_type_invariant(&self.remote_map);
                    }
                }
            }
            i = i + 1;
        }
        proof {
            let wanted = with_known_keys(old(self)@, known@);
            assert(self@.remote_map =~= wanted.remote_map) by {
                assert forall|n: Seq<char>|
                    self@.remote_map.dom().contains(n)
                        <==> #[trigger] wanted.remote_map.dom().contains(n) by {
                    assert(self@.remote_map.contains_key(n) <==> names.contains(n));
                    assert(old(self)@.remote_map.contains_key(n) <==> names.contains(
                        n,
                    ));
                }
                assert forall|n: Seq<char>|
                    self@.remote_map.contains_key(n) implies #[trigger] self@.remote_map[n]
                    == wanted.remote_map[n] by {
                    assert(names.contains(n));
                    let k = choose|k: int| 0 <= k < names.len() && names[k] == n;
                    assert(names[k] == n);
                }
            }
        }
    }
}

impl PkgarBackend {
    /// Gives every repository without a key the one that is known from earlier, if any.
    pub fn use_known_keys(&mut self)
        ensures
            final(self).wf(),
            uses_known_keys(
                old(self).manager(),
                final(self).manager(),
                old(self)@.packages.pubkeys,
            ),
            final(self)@ == (PkgarBackendView {
                repo_manager: final(self).manager()@,
                ..old(self)@
            }),
    {
        proof {
            use_type_invariant(&*self);
        }
        let mut manager = self.take_manager();
        manager.use_keys(&self.packages.pubkeys);
        proof {
            lemma_known_keys_keep_keys(
                old(self).repo_manager,
                manager,
                old(self)@.packages.pubkeys,
                if old(self).keys_synced {
                    manager.remote_map.names().len() as int
                } else {
                    0
                },
            );
        }
        self.repo_manager = manager;
    }

    /// Takes the manager out, to be put back after a change.
    fn take_manager(&mut self) -> (r: RepoManager)
        ensures
            r == old(self).repo_manager,
            *final(self) == (PkgarBackend {
                repo_manager: final(self).repo_manager,
                ..*old(self)
            }),
    {
        let mut manager = RepoManager::new();
        proof {
            use_type_invariant(&*self);
            use_type_invariant(&manager.remote_map);
            manager.remote_map.lemma_names();
        }
        std::mem::swap(&mut manager, &mut self.repo_manager);
        manager
    }

    /// The next thing to do to load the keys, from a position on. `seen` is what is known of the
    /// first missing key there. Keys that are known from earlier are not loaded. Once every
    /// repository has its key, nothing is left to do.
    pub fn sync_keys(&mut self, dir: &PrivateDir, from: usize, seen: KeyProgress) -> (step: KeyStep)
        requires
            dir@ == old(self)@.repo_manager.download_path,
            from == 0 || old(self).manager().keyed_before(from as int),
        ensures
            final(self).wf(),
            final(self)@ == (PkgarBackendView {
                repo_manager: final(self).manager()@,
                keys_synced: step is Finished,
                ..old(self)@
            }),
            step matches KeyStep::Loaded { next, .. } ==> final(self).manager().keyed_before(
                next as int,
            ),
            old(self)@.keys_synced ==> step is Finished && final(self).manager() == old(
                self,
            ).manager(),
            !old(self)@.keys_synced ==> exists|known: RepoManager| #[trigger]
                uses_known_keys(old(self).manager(), known, old(self)@.packages.pubkeys)
                    && key_sync_stepped(
                    known,
                    final(self).manager(),
                    step,
                    KeySyncMode { force: false, cleanup: false },
                    from as int,
                    seen,
                ),
    {
        proof {
            use_type_invariant(&*self);
        }
        if self.keys_synced {
            return KeyStep::Finished;
        }
        self.use_known_keys();
        let ghost known = self.repo_manager;
        proof {
            assert(uses_known_keys(old(self).manager(), known, old(self)@.packages.pubkeys));
            lemma_known_keys_keep_keys(
                old(self).manager(),
                known,
                old(self)@.packages.pubkeys,
                from as int,
            );
        }
        let mut manager = self.take_manager();
        let step = manager.sync_keys(dir, from, seen);
        proof {
            use_type_invariant(&manager.remote_map);
            law_finished_key_sync_leaves_no_key_missing(
                known,
                manager,
                step,
                KeySyncMode { force: false, cleanup: false },
                from as int,
                seen,
            );
        }
        self.repo_manager = manager;
        self.keys_synced = matches!(step, KeyStep::Finished);
        step
    }
}

proof fn lemma_known_keys_keep_keys(
    before: RepoManager,
    after: RepoManager,
    known: Map<Seq<char>, Seq<u8>>,
    from: int,
)
    requires
        before.remote_map.wf(),
        uses_known_keys(before, after, known),
        0 <= from,
        from == 0 || before.keyed_before(from),
    ensures
        after.keyed_before(from),
{
    before.remote_map.lemma_names();
    assert forall|i: int|
        0 <= i < from && i < after.remote_map.names().len() implies #[trigger] after.entry_at(
        i,
    ).pubkey is Some by {
        assert(before.entry_at(i).pubkey is Some);
    }
}

/// The key that a key file pins for the index, if it could be read and pins one.
pub open spec fn pinned_bytes(key_file: Option<Seq<char>>) -> Option<Seq<u8>> {
    match key_file {
        Some(text) => match field_bytes(text, "ed25519"@) {
            Some(b) => if b.len() == 32 {
                Some(b)
            } else {
                None
            },
            None => None,
        },
        None => None,
    }
}

/// Whether a key file pins a key for the index.
pub open spec fn pins_key(key_file: Option<Seq<char>>) -> bool {
    pinned_bytes(key_file) is Some
}

/// What is settled of the index: what was settled before, or else, once the key file was looked
/// at, that the index is not enforced, or the index that was loaded, if it was verified with the
/// pinned key.
pub open spec fn settled_index(
    before: Option<Option<AcceptedIndexView>>,
    has_remotes: bool,
    key_file: Option<Option<Seq<char>>>,
    loaded: Option<Result<AcceptedIndexView, Error>>,
) -> Option<Option<AcceptedIndexView>> {
    if before is Some {
        before
    } else {
        match key_file {
            None => None,
            Some(text) => match pinned_bytes(text) {
                None => Some(None),
                Some(key) => if !has_remotes {
                    Some(None)
                } else {
                    match loaded {
                        Some(Ok(index)) => if signed_for(index, key) {
                            Some(Some(index))
                        } else {
                            None
                        },
                        _ => None,
                    }
                },
            },
        }
    }
}

/// Whether the index has to be loaded: nothing is settled, a key is pinned, and there is a
/// repository on the network.
pub open spec fn wants_index(
    before: Option<Option<AcceptedIndexView>>,
    has_remotes: bool,
    key_file: Option<Option<Seq<char>>>,
) -> bool {
    before is None && has_remotes && (key_file matches Some(text) && pins_key(text))
}

/// Whether `e` says why what was loaded is not settled: it could not be loaded, or it was not
/// verified with the pinned key.
pub open spec fn refuses_index(e: Error, loaded: Result<AcceptedIndexView, Error>) -> bool {
    match loaded {
        Ok(index) => refuses_signer(e, index.manifest.key),
        Err(cause) => e == cause,
    }
}

/// Whether an index that is settled now and was not before was verified with the key that the key
/// file pins.
pub open spec fn settled_under_pin(
    before: Option<Option<AcceptedIndexView>>,
    after: Option<Option<AcceptedIndexView>>,
    key_file: Option<Option<Seq<char>>>,
) -> bool {
    before is None ==> (after matches Some(Some(index)) ==> {
        &&& key_file matches Some(Some(text))
        &&& field_bytes(text, "ed25519"@) matches Some(key)
        &&& index.manifest.key == Some(key)
        &&& signed_by(key, index.manifest.text)
    })
}

/// Whether an archive with this header hash may be used: the index vouches for it, or it is not
/// enforced.
pub open spec fn permitted(
    index: Option<Option<AcceptedIndexView>>,
    package: Seq<char>,
    hash: Seq<u8>,
) -> bool {
    index matches Some(Some(i)) ==> vouches_for(i.repository.packages@, package, hash)
}

/// Whether `e` says why the index does not permit the archive.
pub open spec fn refuses_archive(
    e: Error,
    index: AcceptedIndexView,
    package: Seq<char>,
    hash: Seq<u8>,
) -> bool {
    let packages = index.repository.packages@;
    if packages.contains_key(package) {
        e matches Error::ManifestHashMismatch { package: p, expected, actual } && p@ == package
            && expected@ == packages[package] && actual@ == small_hex(hash)
    } else {
        e matches Error::PackageNotInManifest(p) && p@ == package
    }
}

/// The next thing to do to compare an archive with the index.
#[derive(Debug)]
pub enum IndexStep {
    /// Read the file with the pinned key.
    ReadPinnedKey { path: String },
    /// Load the index.
    LoadIndex,
    /// Whether the archive may be used.
    Answer(Result<(), Error>),
}

/// A text that may not have been looked for, or may not be there.
pub open spec fn looked_up(text: Option<Option<String>>) -> Option<Option<Seq<char>>> {
    match text {
        Some(t) => Some(optional_text(t)),
        None => None,
    }
}

/// What loading the index gave, if that was tried.
pub open spec fn loaded_index(loaded: Option<Result<AcceptedIndex, Error>>) -> Option<
    Result<AcceptedIndexView, Error>,
> {
    match loaded {
        Some(Ok(i)) => Some(Ok(i@)),
        Some(Err(e)) => Some(Err(e)),
        None => None,
    }
}

/// Whether `step` is the next thing to do to compare an archive with the index: read the file with
/// the pinned key, load the index, and answer.
pub open spec fn index_step(
    b: PkgarBackendView,
    package: Seq<char>,
    hash: Seq<u8>,
    key_file: Option<Option<Seq<char>>>,
    loaded: Option<Result<AcceptedIndexView, Error>>,
    step: IndexStep,
) -> bool {
    let after = settled_index(b.index, b.repo_manager.remotes.len() > 0, key_file, loaded);
    match after {
        Some(index) => {
            &&& step matches IndexStep::Answer(r)
            &&& r is Ok <==> permitted(after, package, hash)
            &&& r matches Err(e) ==> refuses_archive(e, index->0, package, hash)
        },
        None => match (key_file, loaded) {
            (None, _) => step matches IndexStep::ReadPinnedKey { path } && path@ == path_join(
                b.install_path,
                REPO_SIGN_PUBKEY_PATH@,
            ),
            (Some(_), None) => step is LoadIndex,
            (Some(_), Some(got)) => step matches IndexStep::Answer(Err(e)) && refuses_index(e, got),
        },
    }
}

impl PkgarBackend {
    /// Where the pinned key of the index lies.
    pub fn pinned_key_path(&self) -> (r: String)
        ensures
            r@ == path_join(self@.install_path, REPO_SIGN_PUBKEY_PATH@),
    {
        join(self.install_path.as_str(), REPO_SIGN_PUBKEY_PATH)
    }

    /// Where the highest serial that was accepted is recorded.
    pub fn state_path(&self) -> (r: String)
        ensures
            r@ == path_join(self@.install_path, REPO_STATE_PATH@),
    {
        join(self.install_path.as_str(), REPO_STATE_PATH)
    }

    /// Compares the header hash of an archive with the index, as far as one is enforced, once that
    /// is settled.
    pub fn check_hash(&self, package: &PackageName, hash: [u8; 32]) -> (r: Result<(), Error>)
        requires
            self@.index is Some,
        ensures
            r is Ok <==> permitted(self@.index, package@, hash@),
            r matches Err(e) ==> refuses_archive(e, self@.index->0->0, package@, hash@),
    {
        match &self.verified_index {
            Some(Some(index)) => check_against_index(index.repository(), package, hash),
            _ => Ok(()),
        }
    }

    /// Settles what the index is, as far as what is known allows: `key_file` is the file with the
    /// pinned key, and `loaded` what loading the index gave. An index that was not verified with
    /// the pinned key is refused. What was loaded is used up where it was asked for, and is left
    /// alone otherwise.
    pub fn settle_index(
        &mut self,
        key_file: &Option<Option<String>>,
        loaded: &mut Option<Result<AcceptedIndex, Error>>,
    ) -> (r: Result<bool, Error>)
        ensures
            final(self).wf(),
            final(self).manager() == old(self).manager(),
            final(self)@ == (PkgarBackendView {
                index: settled_index(
                    old(self)@.index,
                    old(self)@.repo_manager.remotes.len() > 0,
                    looked_up(*key_file),
                    loaded_index(*old(loaded)),
                ),
                ..old(self)@
            }),
            settled_under_pin(old(self)@.index, final(self)@.index, looked_up(*key_file)),
            final(self)@.index is Some ==> r == Ok::<bool, Error>(true),
            final(self)@.index is None ==> match loaded_index(*old(loaded)) {
                Some(got) => if *key_file is Some {
                    r matches Err(e) && refuses_index(e, got)
                } else {
                    r == Ok::<bool, Error>(false)
                },
                None => r == Ok::<bool, Error>(false),
            },
            *final(loaded) == (if wants_index(
                old(self)@.index,
                old(self)@.repo_manager.remotes.len() > 0,
                looked_up(*key_file),
            ) {
                None
            } else {
                *old(loaded)
            }),
    {
        proof {
            use_type_invariant(&*self);
        }
        if self.verified_index.is_some() {
            return Ok(true);
        }
        let text = match key_file {
            None => {
                return Ok(false);
            },
            Some(text) => text,
        };
        let pinned = pinned_manifest_key(
            match text {
                Some(t) => Some(t.as_str()),
                None => None,
            },
        );
        assert(self@.repo_manager.remotes.len() == self.repo_manager.remotes@.len());
        let has_remotes = self.repo_manager.remotes.len() > 0;
        if !index_enforcement_applies(pinned.is_some(), has_remotes) {
            self.verified_index = Some(None);
            return Ok(true);
        }
        match (pinned, loaded.take()) {
            (Some(key), Some(Ok(index))) => match index.check_signer(&key) {
                Ok(_) => {
                    self.verified_index = Some(Some(index));
                    Ok(true)
                },
                Err(e) => Err(e),
            },
            (_, Some(Err(e))) => Err(e),
            (_, _) => Ok(false),
        }
    }

    /// The next thing to do to compare an archive with the index, which is loaded until that
    /// succeeds once. The hash is taken from the opened file, so it is the one that is extracted.
    pub fn enforce_manifest_blake3(
        &mut self,
        package: &PackageName,
        pkg: &PackageFile,
        key_file: &Option<Option<String>>,
        loaded: &mut Option<Result<AcceptedIndex, Error>>,
    ) -> (step: IndexStep)
        ensures
            final(self).wf(),
            final(self).manager() == old(self).manager(),
            final(self)@ == (PkgarBackendView {
                index: settled_index(
                    old(self)@.index,
                    old(self)@.repo_manager.remotes.len() > 0,
                    looked_up(*key_file),
                    loaded_index(*old(loaded)),
                ),
                ..old(self)@
            }),
            settled_under_pin(old(self)@.index, final(self)@.index, looked_up(*key_file)),
            index_step(
                old(self)@,
                package@,
                package_blake3(*pkg),
                looked_up(*key_file),
                loaded_index(*old(loaded)),
                step,
            ),
            *final(loaded) == (if wants_index(
                old(self)@.index,
                old(self)@.repo_manager.remotes.len() > 0,
                looked_up(*key_file),
            ) {
                None
            } else {
                *old(loaded)
            }),
    {
        proof {
            use_type_invariant(&*self);
        }
        match self.settle_index(key_file, loaded) {
            Err(e) => IndexStep::Answer(Err(e)),
            Ok(true) => IndexStep::Answer(self.check_hash(package, header_blake3(pkg))),
            Ok(false) => if key_file.is_none() {
                IndexStep::ReadPinnedKey { path: self.pinned_key_path() }
            } else {
                IndexStep::LoadIndex
            },
        }
    }

    /// The file with the header of an installed package, and the key that it is opened with.
    fn get_package_head(&self, package: &PackageName) -> (r: Result<(String, RepoPublicKey), Error>)
        ensures
            r is Ok <==> head_key(self@.packages, package@) is Some,
            r matches Ok((path, key)) ==> path@ == head_path(self@.install_path, package@)
                && head_key(self@.packages, package@) == Some(key@),
            r matches Err(e) ==> lacks_head(e, self@.packages, package@),
    {
        match self.packages.installed.get(package.as_str()) {
            None => Err(Error::PackageNotInstalled(package.clone())),
            Some(state) => match self.packages.pubkeys.get(state.remote.as_str()) {
                None => Err(Error::RepoCacheNotFound(package.clone())),
                Some(file) => Ok((self.head_file(package), file.pkey)),
            },
        }
    }

    /// The file with the header of an installed package.
    pub fn head_file(&self, package: &PackageName) -> (r: String)
        ensures
            r@ == head_path(self@.install_path, package@),
    {
        let mut file = package.as_str().to_owned();
        file.append(".pkgar_head");
        join(Self::head_directory(self.install_path.as_str()).as_str(), file.as_str())
    }
}

/// What is known so far of a package that is being installed, upgraded or removed. The caller notes
/// here what each step gave.
pub struct PackageProgress {
    /// What a step failed with.
    pub failed: Option<Error>,
    /// The header of the installed package.
    pub installed: Option<PackageFile>,
    /// The archive of the package, and the name of the repository that it came from.
    pub archive: Option<(String, RemoteName)>,
    /// The archive, opened.
    pub opened: Option<PackageFile>,
    /// The file with the pinned key of the index, if it could be read, as it was last read.
    pub key_file: Option<Option<String>>,
    /// What loading the index gave.
    pub index: Option<Result<AcceptedIndex, Error>>,
    /// The file operations, with everything extracted that they need.
    pub transaction: Option<Transaction>,
    /// Whether the header of the package was written.
    pub head_written: bool,
    /// What removing the header of the package gave.
    pub head_removed: Option<Result<(), IoError>>,
}

impl PackageProgress {
    /// Nothing is known.
    pub fn new() -> (r: Self)
        ensures
            r.failed is None,
            r.installed is None,
            r.archive is None,
            r.opened is None,
            r.key_file is None,
            r.index is None,
            r.transaction is None,
            !r.head_written,
            r.head_removed is None,
    {
        PackageProgress {
            failed: None,
            installed: None,
            archive: None,
            opened: None,
            key_file: None,
            index: None,
            transaction: None,
            head_written: false,
            head_removed: None,
        }
    }

    /// Takes note of what loading the index gave. The file with the pinned key is read again for
    /// that: the key that it pins then is the one that the index is verified with. If it is gone,
    /// the key that was pinned before still counts.
    pub fn note_index(
        &mut self,
        key_file: Option<String>,
        loaded: Result<AcceptedIndex, Error>,
    )
        ensures
            *final(self) == (PackageProgress {
                key_file: if pins_key(optional_text(key_file)) {
                    Some(key_file)
                } else {
                    old(self).key_file
                },
                index: Some(loaded),
                ..*old(self)
            }),
    {
        let pinned = pinned_manifest_key(
            match &key_file {
                Some(text) => Some(text.as_str()),
                None => None,
            },
        );
        if pinned.is_some() {
            self.key_file = Some(key_file);
        }
        self.index = Some(loaded);
    }
}

/// The next thing to do about a package.
#[derive(Debug)]
pub enum PackageStep {
    /// Load the keys.
    LoadKeys,
    /// Open the header of the installed package.
    OpenInstalled { path: String, key: RepoPublicKey },
    /// Find or download the archive.
    FetchArchive { package: PackageName, size: u64 },
    /// Open the archive.
    OpenArchive { path: String, key: RepoPublicKey },
    /// Read the file with the pinned key of the index.
    ReadPinnedKey { path: String },
    /// Load the index.
    LoadIndex,
    /// Prepare the file operations. An archive that is extracted for them was compared with the
    /// index.
    Prepare,
    /// Write the header of the archive.
    WriteHead { archive: String, head: String, key: RepoPublicKey },
    /// Remove the header of the installed package.
    RemoveHead { path: String },
    /// All is done.
    Done,
    /// It cannot be done.
    Failed(Error),
}

/// The key of an archive that was fetched: the one of the repository that it came from.
pub open spec fn archive_key(b: PkgarBackendView, archive: Option<(String, RemoteName)>) -> Option<
    Seq<u8>,
> {
    match archive {
        Some((_, remote)) => if b.repo_manager.remote_map.contains_key(remote@) {
            b.repo_manager.remote_map[remote@].pubkey
        } else {
            None
        },
        None => None,
    }
}

/// Whether the archive is open, so that it can be compared with the index.
pub open spec fn archive_open(b: PkgarBackendView, seen: PackageProgress) -> bool {
    archive_key(b, seen.archive) is Some && seen.opened is Some
}

/// What is settled of the index once an archive is open.
pub open spec fn index_after(b: PkgarBackendView, seen: PackageProgress) -> Option<
    Option<AcceptedIndexView>,
> {
    if archive_open(b, seen) {
        settled_index(
            b.index,
            b.repo_manager.remotes.len() > 0,
            looked_up(seen.key_file),
            loaded_index(seen.index),
        )
    } else {
        b.index
    }
}

/// Whether an archive is open that may be used.
pub open spec fn archive_permitted(
    b: PkgarBackendView,
    package: Seq<char>,
    seen: PackageProgress,
) -> bool {
    &&& archive_open(b, seen)
    &&& index_after(b, seen) is Some
    &&& permitted(index_after(b, seen), package, package_blake3(seen.opened->0))
}

/// Whether `step` is the next thing to do to get the archive of a package, to open it with the key
/// of its repository, to compare it with the index, to prepare the file operations, and to write
/// the header, in this order.
pub open spec fn archive_step(
    b: PkgarBackendView,
    package: Seq<char>,
    size: u64,
    seen: PackageProgress,
    step: PackageStep,
) -> bool {
    match seen.archive {
        None => step matches PackageStep::FetchArchive { package: p, size: n } && p@ == package
            && n == size,
        Some((path, remote)) => if !b.repo_manager.remote_map.contains_key(remote@) {
            step matches PackageStep::Failed(Error::RepoCacheNotFound(p)) && p@ == package
        } else {
            let repo = b.repo_manager.remote_map[remote@];
            match repo.pubkey {
                None => step matches PackageStep::Failed(Error::RepoNotLoaded(n)) && n@
                    == repo.name,
                Some(key) => match seen.opened {
                    None => step matches PackageStep::OpenArchive { path: p, key: k } && p@ == path@
                        && k@ == key,
                    Some(opened) => match index_after(b, seen) {
                        None => match (seen.key_file, loaded_index(seen.index)) {
                            (None, _) => step matches PackageStep::ReadPinnedKey { path: p } && p@
                                == path_join(b.install_path, REPO_SIGN_PUBKEY_PATH@),
                            (Some(_), None) => step is LoadIndex,
                            (Some(_), Some(got)) => step matches PackageStep::Failed(e)
                                && refuses_index(e, got),
                        },
                        Some(index) => if !archive_permitted(b, package, seen) {
                            step matches PackageStep::Failed(e) && refuses_archive(
                                e,
                                index->0,
                                package,
                                package_blake3(opened),
                            )
                        } else if seen.transaction is None {
                            step is Prepare
                        } else if !seen.head_written {
                            step matches PackageStep::WriteHead { archive, head, key: k }
                                && archive@ == path@ && head@ == head_path(b.install_path, package)
                                && k@ == key
                        } else {
                            step is Done
                        },
                    },
                },
            }
        },
    }
}

/// What is left of the progress after such a step: an index that was asked for is used up, and so
/// are the file operations once they are in the queue.
pub open spec fn archive_left(
    b: PkgarBackendView,
    package: Seq<char>,
    seen: PackageProgress,
) -> PackageProgress {
    PackageProgress {
        index: if archive_open(b, seen) && wants_index(
            b.index,
            b.repo_manager.remotes.len() > 0,
            looked_up(seen.key_file),
        ) {
            None
        } else {
            seen.index
        },
        transaction: if archive_permitted(b, package, seen) && seen.head_written {
            None
        } else {
            seen.transaction
        },
        ..seen
    }
}

/// What the backend knows after such a step: the index is settled as soon as an archive is open,
/// and once the header is written the file operations are in the queue.
pub open spec fn archive_stepped(
    b: PkgarBackendView,
    package: Seq<char>,
    seen: PackageProgress,
    origin: Option<PackageFile>,
) -> PkgarBackendView {
    PkgarBackendView {
        index: index_after(b, seen),
        queue: if archive_permitted(b, package, seen) && seen.transaction is Some
            && seen.head_written {
            Some(
                queue_with(
                    b.queue,
                    pending_actions(seen.transaction->0),
                    match origin {
                        Some(p) => Some(package_path(p)),
                        None => None,
                    },
                ),
            )
        } else {
            b.queue
        },
        ..b
    }
}

impl PkgarBackend {
    /// Whatever an archive is needed for: the next thing to do. `replaces` tells whether it takes
    /// the place of what is installed.
    fn archive_steps(
        &mut self,
        package: &PackageName,
        size: u64,
        replaces: bool,
        seen: &mut PackageProgress,
    ) -> (step: PackageStep)
        ensures
            final(self).wf(),
            final(self).manager() == old(self).manager(),
            archive_step(old(self)@, package@, size, *old(seen), step),
            settled_under_pin(
                old(self)@.index,
                final(self)@.index,
                looked_up(old(seen).key_file),
            ),
            final(self)@ == archive_stepped(
                old(self)@,
                package@,
                *old(seen),
                if replaces {
                    old(seen).installed
                } else {
                    old(seen).opened
                },
            ),
            *final(seen) == archive_left(old(self)@, package@, *old(seen)),
    {
        proof {
            use_type_invariant(&*self);
        }
        let (path, key) = match &seen.archive {
            None => {
                return PackageStep::FetchArchive { package: package.clone(), size };
            },
            Some((path, remote)) => match self.repo_manager.get_remote_info(remote.as_str()) {
                None => {
                    return PackageStep::Failed(Error::RepoCacheNotFound(package.clone()));
                },
                Some(repo) => match require_pubkey(repo) {
                    Err(e) => {
                        return PackageStep::Failed(e);
                    },
                    Ok(key) => (path.clone(), *key),
                },
            },
        };
        let opened = match &seen.opened {
            None => {
                return PackageStep::OpenArchive { path, key };
            },
            Some(opened) => opened,
        };
        match self.enforce_manifest_blake3(package, opened, &seen.key_file, &mut seen.index) {
            IndexStep::ReadPinnedKey { path } => {
                return PackageStep::ReadPinnedKey { path };
            },
            IndexStep::LoadIndex => {
                return PackageStep::LoadIndex;
            },
            IndexStep::Answer(Err(e)) => {
                return PackageStep::Failed(e);
            },
            IndexStep::Answer(Ok(_)) => {},
        }
        if seen.transaction.is_none() {
            return PackageStep::Prepare;
        }
        if !seen.head_written {
            return PackageStep::WriteHead { archive: path, head: self.head_file(package), key };
        }
        if let Some(transaction) = seen.transaction.take() {
            if replaces {
                self.add_transaction(transaction, seen.installed.as_ref());
            } else {
                self.add_transaction(transaction, seen.opened.as_ref());
            }
        }
        PackageStep::Done
    }
}

/// Whether `step` is the next thing to do to install a package: load the keys, then, unless it only
/// names others, what its archive needs.
pub open spec fn install_step(
    b: PkgarBackendView,
    package: RemotePackage,
    seen: PackageProgress,
    step: PackageStep,
) -> bool {
    if let Some(e) = seen.failed {
        step == PackageStep::Failed(e)
    } else if !b.keys_synced {
        step is LoadKeys
    } else if package.package.version@.len() == 0 {
        step is Done
    } else {
        archive_step(b, package.package.name@, package.package.network_size, seen, step)
    }
}

/// What the backend knows after such a step.
pub open spec fn install_stepped(
    b: PkgarBackendView,
    package: RemotePackage,
    seen: PackageProgress,
) -> PkgarBackendView {
    if seen.failed is None && b.keys_synced && package.package.version@.len() > 0 {
        archive_stepped(b, package.package.name@, seen, seen.opened)
    } else {
        b
    }
}

/// What is left of the progress after such a step.
pub open spec fn install_left(
    b: PkgarBackendView,
    package: RemotePackage,
    seen: PackageProgress,
) -> PackageProgress {
    if seen.failed is Some {
        PackageProgress { failed: None, ..seen }
    } else if b.keys_synced && package.package.version@.len() > 0 {
        archive_left(b, package.package.name@, seen)
    } else {
        seen
    }
}

/// Whether `step` is the next thing to do to open the header of an installed package.
pub open spec fn open_installed_step(
    b: PkgarBackendView,
    package: Seq<char>,
    step: PackageStep,
) -> bool {
    match head_key(b.packages, package) {
        Some(key) => step matches PackageStep::OpenInstalled { path, key: k } && path@ == head_path(
            b.install_path,
            package,
        ) && k@ == key,
        None => step matches PackageStep::Failed(e) && lacks_head(e, b.packages, package),
    }
}

/// Whether `step` is the next thing to do to upgrade a package: load the keys, open the header of
/// what is installed, then what the archive needs.
pub open spec fn upgrade_step(
    b: PkgarBackendView,
    package: RemotePackage,
    seen: PackageProgress,
    step: PackageStep,
) -> bool {
    if let Some(e) = seen.failed {
        step == PackageStep::Failed(e)
    } else if !b.keys_synced {
        step is LoadKeys
    } else if seen.installed is None {
        open_installed_step(b, package.package.name@, step)
    } else {
        archive_step(b, package.package.name@, package.package.network_size, seen, step)
    }
}

/// What the backend knows after such a step.
pub open spec fn upgrade_stepped(
    b: PkgarBackendView,
    package: RemotePackage,
    seen: PackageProgress,
) -> PkgarBackendView {
    if seen.failed is None && b.keys_synced && seen.installed is Some {
        archive_stepped(b, package.package.name@, seen, seen.installed)
    } else {
        b
    }
}

/// What is left of the progress after such a step.
pub open spec fn upgrade_left(
    b: PkgarBackendView,
    package: RemotePackage,
    seen: PackageProgress,
) -> PackageProgress {
    if seen.failed is Some {
        PackageProgress { failed: None, ..seen }
    } else if b.keys_synced && seen.installed is Some {
        archive_left(b, package.package.name@, seen)
    } else {
        seen
    }
}

/// Whether `step` is the next thing to do to remove a package: a protected one is refused; load the
/// keys, open the header, prepare the file operations, and remove the header.
pub open spec fn uninstall_step(
    b: PkgarBackendView,
    package: Seq<char>,
    seen: PackageProgress,
    step: PackageStep,
) -> bool {
    if b.packages.protected.contains(package) {
        step matches PackageStep::Failed(Error::ProtectedPackage(p)) && p@ == package
    } else if let Some(e) = seen.failed {
        step == PackageStep::Failed(e)
    } else if !b.keys_synced {
        step is LoadKeys
    } else if seen.installed is None {
        open_installed_step(b, package, step)
    } else if let Some(removed) = seen.head_removed {
        match removed {
            Ok(_) => step is Done,
            Err(io) => step matches PackageStep::Failed(e) && wraps_io(
                e,
                io,
                head_path(b.install_path, package),
                "Removing file"@,
            ),
        }
    } else if seen.transaction is None {
        step is Prepare
    } else {
        step matches PackageStep::RemoveHead { path } && path@ == head_path(b.install_path, package)
    }
}

/// What the backend knows after such a step: the file operations are in the queue before the
/// header is removed.
pub open spec fn uninstall_stepped(
    b: PkgarBackendView,
    seen: PackageProgress,
    step: PackageStep,
) -> PkgarBackendView {
    if step is RemoveHead {
        PkgarBackendView {
            queue: Some(
                queue_with(
                    b.queue,
                    pending_actions(seen.transaction->0),
                    Some(package_path(seen.installed->0)),
                ),
            ),
            ..b
        }
    } else {
        b
    }
}

/// What is left of the progress after such a step: the file operations are used up once they are in
/// the queue.
pub open spec fn uninstall_left(
    b: PkgarBackendView,
    package: Seq<char>,
    seen: PackageProgress,
) -> PackageProgress {
    if b.packages.protected.contains(package) {
        seen
    } else if seen.failed is Some {
        PackageProgress { failed: None, ..seen }
    } else if !b.keys_synced || seen.installed is None {
        seen
    } else if seen.head_removed is Some {
        PackageProgress { head_removed: None, ..seen }
    } else {
        PackageProgress { transaction: None, ..seen }
    }
}

impl PkgarBackend {
    /// The next thing to do to install a package.
    pub fn install(&mut self, package: &RemotePackage, seen: &mut PackageProgress) -> (step:
        PackageStep)
        ensures
            final(self).wf(),
            final(self).manager() == old(self).manager(),
            install_step(old(self)@, *package, *old(seen), step),
            settled_under_pin(
                old(self)@.index,
                final(self)@.index,
                looked_up(old(seen).key_file),
            ),
            final(self)@ == install_stepped(old(self)@, *package, *old(seen)),
            *final(seen) == install_left(old(self)@, *package, *old(seen)),
    {
        proof {
            use_type_invariant(&*self);
        }
        if let Some(e) = seen.failed.take() {
            return PackageStep::Failed(e);
        }
        if !self.keys_synced {
            return PackageStep::LoadKeys;
        }
        if package.package.version.as_str().is_empty() {
            return PackageStep::Done;
        }
        self.archive_steps(&package.package.name, package.package.network_size, false, seen)
    }

    /// The next thing to do to open the header of an installed package.
    fn open_installed(&self, package: &PackageName) -> (step: PackageStep)
        ensures
            open_installed_step(self@, package@, step),
    {
        match self.get_package_head(package) {
            Ok((path, key)) => PackageStep::OpenInstalled { path, key },
            Err(e) => PackageStep::Failed(e),
        }
    }

    /// The next thing to do to upgrade a package.
    pub fn upgrade(&mut self, package: &RemotePackage, seen: &mut PackageProgress) -> (step:
        PackageStep)
        ensures
            final(self).wf(),
            final(self).manager() == old(self).manager(),
            upgrade_step(old(self)@, *package, *old(seen), step),
            settled_under_pin(
                old(self)@.index,
                final(self)@.index,
                looked_up(old(seen).key_file),
            ),
            final(self)@ == upgrade_stepped(old(self)@, *package, *old(seen)),
            *final(seen) == upgrade_left(old(self)@, *package, *old(seen)),
    {
        proof {
            use_type_invariant(&*self);
        }
        if let Some(e) = seen.failed.take() {
            return PackageStep::Failed(e);
        }
        if !self.keys_synced {
            return PackageStep::LoadKeys;
        }
        if seen.installed.is_none() {
            return self.open_installed(&package.package.name);
        }
        self.archive_steps(&package.package.name, package.package.network_size, true, seen)
    }

    /// The next thing to do to remove a package.
    pub fn uninstall(&mut self, package: &PackageName, seen: &mut PackageProgress) -> (step:
        PackageStep)
        ensures
            final(self).wf(),
            final(self).manager() == old(self).manager(),
            uninstall_step(old(self)@, package@, *old(seen), step),
            final(self)@ == uninstall_stepped(old(self)@, *old(seen), step),
            *final(seen) == uninstall_left(old(self)@, package@, *old(seen)),
    {
        proof {
            use_type_invariant(&*self);
        }
        if self.packages.is_protected(package) {
            return PackageStep::Failed(Error::ProtectedPackage(package.clone()));
        }
        if let Some(e) = seen.failed.take() {
            return PackageStep::Failed(e);
        }
        if !self.keys_synced {
            return PackageStep::LoadKeys;
        }
        if seen.installed.is_none() {
            return self.open_installed(package);
        }
        if let Some(removed) = seen.head_removed.take() {
            return self.remove_package_head(package, removed);
        }
        match seen.transaction.take() {
            None => PackageStep::Prepare,
            Some(transaction) => {
                self.add_transaction(transaction, seen.installed.as_ref());
                PackageStep::RemoveHead { path: self.head_file(package) }
            },
        }
    }

    /// What removing the header of a package comes to.
    fn remove_package_head(&self, package: &PackageName, removed: Result<(), IoError>) -> (step:
        PackageStep)
        ensures
            removed is Ok ==> step is Done,
            removed matches Err(io) ==> (step matches PackageStep::Failed(e) && wraps_io(
                e,
                io,
                head_path(self@.install_path, package@),
                "Removing file"@,
            )),
    {
        match removed {
            Ok(_) => PackageStep::Done,
            Err(io) => PackageStep::Failed(
                wrap_io_err(io, self.head_file(package).as_str(), "Removing file"),
            ),
        }
    }
}

/// Where the index is enforced, nothing is extracted, written or queued of an archive before the
/// index vouched for the hash of its header.
pub proof fn law_only_vouched_archives_are_used(
    b: PkgarBackendView,
    package: Seq<char>,
    size: u64,
    seen: PackageProgress,
    step: PackageStep,
    index: AcceptedIndexView,
)
    requires
        archive_step(b, package, size, seen, step),
        index_after(b, seen) == Some(Some(index)),
        step is Prepare || step is WriteHead || step is Done,
    ensures
        seen.opened is Some,
        vouches_for(index.repository.packages@, package, package_blake3(seen.opened->0)),
{
}

/// With a pinned key and a repository on the network, nothing is extracted, written or queued of an
/// archive before an index that was signed with this key vouched for the hash of its header. That
/// is so when the index is settled, and ever after with the index that was settled then.
pub proof fn law_only_archives_of_a_signed_index_are_used(
    b: PkgarBackendView,
    package: Seq<char>,
    size: u64,
    seen: PackageProgress,
    step: PackageStep,
    key_file: Option<Seq<char>>,
    pinned: Seq<u8>,
)
    requires
        archive_step(b, package, size, seen, step),
        pinned_bytes(key_file) == Some(pinned),
        match b.index {
            None => b.repo_manager.remotes.len() > 0 && (seen.key_file is Some ==> looked_up(
                seen.key_file,
            ) == Some(key_file)),
            Some(settled) => settled matches Some(index) && signed_for(index, pinned),
        },
        step is Prepare || step is WriteHead || step is Done,
    ensures
        seen.opened is Some,
        index_after(b, seen) matches Some(Some(index)) && signed_by(pinned, index.manifest.text)
            && vouches_for(
            index.repository.packages@,
            package,
            package_blake3(seen.opened->0),
        ),
{
}

/// With a pinned key and a repository on the network an open archive waits for the index: one that
/// was not verified with that key, or could not be loaded, ends it, and the error is told.
pub proof fn law_pinned_index_is_enforced(
    b: PkgarBackendView,
    package: Seq<char>,
    size: u64,
    seen: PackageProgress,
    step: PackageStep,
    key_file: Option<Seq<char>>,
    pinned: Seq<u8>,
)
    requires
        archive_step(b, package, size, seen, step),
        b.index is None,
        b.repo_manager.remotes.len() > 0,
        looked_up(seen.key_file) == Some(key_file),
        pinned_bytes(key_file) == Some(pinned),
        archive_open(b, seen),
    ensures
        seen.index is None ==> step is LoadIndex,
        seen.index matches Some(Err(cause)) ==> step == PackageStep::Failed(cause),
        seen.index matches Some(Ok(i)) ==> if signed_for(i@, pinned) {
            index_after(b, seen) == Some(Some(i@))
        } else {
            index_after(b, seen) is None && (step matches PackageStep::Failed(e) && refuses_signer(
                e,
                i@.manifest.key,
            ))
        },
{
}

/// What is settled of the index after a row of comparisons on one machine, where loading the index
/// would give `loads`, one for each comparison.
pub open spec fn settled_after(
    has_remotes: bool,
    key_file: Option<Seq<char>>,
    loads: Seq<Result<AcceptedIndexView, Error>>,
) -> Option<Option<AcceptedIndexView>>
    decreases loads.len(),
{
    if loads.len() == 0 {
        None
    } else {
        settled_index(
            settled_after(has_remotes, key_file, loads.drop_last()),
            has_remotes,
            Some(key_file),
            Some(loads.last()),
        )
    }
}

/// Without a pinned key, or without a repository on the network, no comparison asks for the index,
/// and every archive is permitted.
pub proof fn law_index_is_not_enforced_without_key_or_remotes(
    has_remotes: bool,
    key_file: Option<Seq<char>>,
    loads: Seq<Result<AcceptedIndexView, Error>>,
    package: Seq<char>,
    hash: Seq<u8>,
)
    requires
        !pins_key(key_file) || !has_remotes,
        loads.len() > 0,
    ensures
        !wants_index(
            settled_after(has_remotes, key_file, loads.drop_last()),
            has_remotes,
            Some(key_file),
        ),
        settled_after(has_remotes, key_file, loads) == Some(None::<AcceptedIndexView>),
        permitted(settled_after(has_remotes, key_file, loads), package, hash),
    decreases loads.len(),
{
    if loads.len() > 1 {
        law_index_is_not_enforced_without_key_or_remotes(
            has_remotes,
            key_file,
            loads.drop_last(),
            package,
            hash,
        );
    }
}

/// With a pinned key and a repository on the network, the index is loaded until that first gives
/// one that was verified with the key, and never again: before and at that comparison it is asked
/// for, after it not. From then on an archive is permitted exactly if this index vouches for it.
pub proof fn law_index_is_loaded_until_it_succeeds(
    key_file: Option<Seq<char>>,
    pinned: Seq<u8>,
    loads: Seq<Result<AcceptedIndexView, Error>>,
    first: int,
    package: Seq<char>,
    hash: Seq<u8>,
)
    requires
        pinned_bytes(key_file) == Some(pinned),
        0 <= first <= loads.len(),
        forall|i: int|
            0 <= i < first ==> !((#[trigger] loads[i]) matches Ok(index) && signed_for(
                index,
                pinned,
            )),
        first < loads.len() ==> (loads[first] matches Ok(index) && signed_for(index, pinned)),
    ensures
        wants_index(settled_after(true, key_file, loads), true, Some(key_file)) <==> first
            == loads.len(),
        first == loads.len() ==> settled_after(true, key_file, loads) is None,
        first < loads.len() ==> {
            &&& settled_after(true, key_file, loads) == Some(Some(loads[first]->Ok_0))
            &&& permitted(settled_after(true, key_file, loads), package, hash) <==> vouches_for(
                loads[first]->Ok_0.repository.packages@,
                package,
                hash,
            )
        },
    decreases loads.len(),
{
    if loads.len() > 0 {
        let shorter = loads.drop_last();
        let before = if first < loads.len() {
            first
        } else {
            first - 1
        };
        assert forall|i: int| 0 <= i < before && i < shorter.len() implies !((
        #[trigger] shorter[i]) matches Ok(index) && signed_for(index, pinned)) by {
            assert(shorter[i] == loads[i]);
        }
        law_index_is_loaded_until_it_succeeds(key_file, pinned, shorter, before, package, hash);
        assert(loads.last() == loads[loads.len() - 1]);
    }
}

/// What is settled of the index stays, whatever is installed or upgraded later.
pub proof fn law_index_is_settled_once(
    b: PkgarBackendView,
    package: Seq<char>,
    seen: PackageProgress,
    origin: Option<PackageFile>,
)
    requires
        b.index is Some,
    ensures
        archive_stepped(b, package, seen, origin).index == b.index,
{
}

/// An archive that fails on the way leaves the queue as it is.
pub proof fn law_failure_queues_nothing(
    b: PkgarBackendView,
    package: Seq<char>,
    size: u64,
    seen: PackageProgress,
    step: PackageStep,
    origin: Option<PackageFile>,
)
    requires
        archive_step(b, package, size, seen, step),
        step is Failed,
    ensures
        archive_stepped(b, package, seen, origin).queue == b.queue,
{
}

/// A package that must stay cannot be removed, whatever the caller claims to have done already.
pub proof fn law_protected_package_stays(
    b: PkgarBackendView,
    package: Seq<char>,
    seen: PackageProgress,
    step: PackageStep,
)
    requires
        b.packages.protected.contains(package),
        uninstall_step(b, package, seen, step),
    ensures
        step is Failed,
        uninstall_stepped(b, seen, step) == b,
{
}

/// What becomes of the file operations that wait.
#[derive(Clone, Copy, Debug, PartialEq, Eq, Structural)]
pub enum Fate {
    /// They are carried out.
    Commit,
    /// They are given up.
    Abort,
}

/// What the user interface is told meanwhile.
#[derive(Clone, Copy, Debug, PartialEq, Eq, Structural)]
pub enum Notice {
    /// This many file operations are about to be carried out.
    CommitStart(usize),
    /// This many file operations are about to be given up.
    AbortStart(usize),
    /// The next file operation is about to be carried out or given up.
    CommitIncrement,
    CommitEnd,
    AbortEnd,
}

/// Whether a notice is what is told before anything is done about this many file operations.
pub open spec fn is_start_notice(notice: Notice, fate: Fate, count: nat) -> bool {
    match fate {
        Fate::Commit => notice matches Notice::CommitStart(n) && n == count,
        Fate::Abort => notice matches Notice::AbortStart(n) && n == count,
    }
}

/// What is told when all is done.
pub open spec fn end_notice(fate: Fate) -> Notice {
    match fate {
        Fate::Commit => Notice::CommitEnd,
        Fate::Abort => Notice::AbortEnd,
    }
}

/// The next thing to do while the queue is carried out or given up.
pub enum CommitStep {
    /// Tell the notice, then carry out or give up one more file operation.
    TryOne { transaction: Transaction, notice: Notice },
    /// Tell the notice. All is done: this many file operations were.
    Finished { total: usize, notice: Notice },
    /// It failed. What is left is in the queue again.
    Failed(Error),
}

/// Whether `step` is the next thing to do about a transaction, after what the last file operation
/// failed with, if it did.
pub open spec fn commit_step_for(
    fate: Fate,
    transaction: Transaction,
    failure: Option<PkgarError>,
    step: CommitStep,
) -> bool {
    match failure {
        Some(e) => step == CommitStep::Failed(Error::Pkgar(e)),
        None => if pending_actions(transaction).len() > 0 {
            step == (CommitStep::TryOne { transaction, notice: Notice::CommitIncrement })
        } else {
            step matches CommitStep::Finished { total, notice } && total == committed_count(
                transaction,
            ) && notice == end_notice(fate)
        },
    }
}

/// What the backend knows once a new state was taken over: the keys of the repositories before the
/// first one without a key are recorded in it.
pub open spec fn state_committed(
    b: PkgarBackendView,
    m: RepoManager,
    new_state: PackageStateView,
) -> PkgarBackendView {
    PkgarBackendView {
        packages: PackageStateView {
            pubkeys: keys_recorded(new_state.pubkeys, m, m.next_keyless(0)),
            ..new_state
        },
        ..b
    }
}

/// The keys of the first repositories, by name, recorded over those that were known.
pub open spec fn keys_recorded(
    known: Map<Seq<char>, Seq<u8>>,
    m: RepoManager,
    count: int,
) -> Map<Seq<char>, Seq<u8>>
    decreases count,
{
    if count <= 0 {
        known
    } else {
        keys_recorded(known, m, count - 1).insert(
            m.remote_map.names()[count - 1],
            m.entry_at(count - 1).pubkey->0,
        )
    }
}

impl PkgarBackend {
    /// The clashes among the archives whose file operations wait.
    pub fn commit_check_conflict(&self) -> (r: Result<Vec<FileConflict>, Error>)
        ensures
            r is Ok <==> self@.queue is Some,
            r matches Ok(v) ==> v@.map_values(|c: FileConflict| c@) == self@.queue->0.clashes,
            r matches Err(e) ==> e == Error::Pkgar(PkgarError::DataNotInitialized),
    {
        match &self.commits {
            Some(queue) => Ok(possible_conflicts(queue)),
            None => Err(Error::Pkgar(PkgarError::DataNotInitialized)),
        }
    }

    /// Takes the file operations that wait out of the queue, to carry them out or give them up, and
    /// says what to tell before that.
    pub fn take_transaction(&mut self, fate: Fate) -> (r: Result<(Transaction, Notice), Error>)
        ensures
            final(self).wf(),
            final(self).manager() == old(self).manager(),
            final(self)@ == (PkgarBackendView { queue: None, ..old(self)@ }),
            r is Ok <==> old(self)@.queue is Some,
            r matches Ok((t, notice)) ==> {
                &&& pending_actions(t) == old(self)@.queue->0.actions.map_values(
                    |q: QueuedAction| q.action,
                )
                &&& committed_count(t) == 0
                &&& is_start_notice(notice, fate, old(self)@.queue->0.actions.len())
            },
            r matches Err(e) ==> e == Error::Pkgar(PkgarError::DataNotInitialized),
    {
        proof {
            use_type_invariant(&*self);
        }
        let mut taken: Option<MergedTransaction> = None;
        std::mem::swap(&mut taken, &mut self.commits);
        match taken {
            Some(queue) => {
                let transaction = queue.into_transaction();
                let count: usize = transaction.pending_commit();
                let notice = match fate {
                    Fate::Commit => Notice::CommitStart(count),
                    Fate::Abort => Notice::AbortStart(count),
                };
                Ok((transaction, notice))
            },
            None => Err(Error::Pkgar(PkgarError::DataNotInitialized)),
        }
    }

    /// The next thing to do about the file operations that were taken. `failure` is what the last
    /// one failed with, if it did: then those that are left go back to the queue.
    pub fn commit_step(
        &mut self,
        fate: Fate,
        transaction: Transaction,
        failure: Option<PkgarError>,
    ) -> (step: CommitStep)
        ensures
            final(self).wf(),
            final(self).manager() == old(self).manager(),
            commit_step_for(fate, transaction, failure, step),
            final(self)@ == (match failure {
                Some(_) => PkgarBackendView {
                    queue: Some(queue_with(old(self)@.queue, pending_actions(transaction), None)),
                    ..old(self)@
                },
                None => old(self)@,
            }),
    {
        proof {
            use_type_invariant(&*self);
        }
        match failure {
            Some(e) => {
                self.add_transaction(transaction, None);
                CommitStep::Failed(Error::Pkgar(e))
            },
            None => if transaction.pending_commit() > 0 {
                CommitStep::TryOne { transaction, notice: Notice::CommitIncrement }
            } else {
                let notice = match fate {
                    Fate::Commit => Notice::CommitEnd,
                    Fate::Abort => Notice::AbortEnd,
                };
                CommitStep::Finished { total: transaction.total_committed(), notice }
            },
        }
    }

    /// Takes over the new state once all file operations were carried out, and records the keys of
    /// the repositories in it, by name. One without a key ends that.
    pub fn commit_state(&mut self, new_state: PackageState) -> (r: Result<(), Error>)
        ensures
            final(self).wf(),
            final(self).manager() == old(self).manager(),
            final(self)@ == state_committed(old(self)@, old(self).manager(), new_state@),
            r is Ok <==> old(self).manager().next_keyless(0) == old(
                self,
            ).manager().remote_map.names().len(),
            r matches Err(e) ==> (e matches Error::RepoNotLoaded(n) && n@ == old(
                self,
            ).manager().remote_map.names()[old(self).manager().next_keyless(0)]),
            old(self)@.keys_synced ==> r is Ok,
    {
        proof {
            use_type_invariant(&*self);
            lemma_next_to_load(self.repo_manager, 0, false);
        }
        let mut packages = new_state;
        let count: usize = self.repo_manager.remote_map.len();
        let mut i: usize = 0;
        while i < count
            invariant
                i <= count,
                *self == *old(self),
                old(self).wf(),
                count == self.repo_manager.remote_map.names().len(),
                i <= self.repo_manager.next_keyless(0) <= count,
                packages@ == (PackageStateView {
                    pubkeys: keys_recorded(new_state@.pubkeys, self.repo_manager, i as int),
                    ..new_state@
                }),
            decreases count - i,
        {
            proof {
                lemma_next_to_load(self.repo_manager, 0, false);
            }
            let entry = self.repo_manager.remote_map.value_at(i);
            assert(entry@ == self.repo_manager.entry_at(i as int));
            match entry.pubkey {
                Some(key) => {
                    let name = self.repo_manager.remote_map.name_at(i).to_owned();
                    packages.pubkeys.insert(name, RepoPublicKeyFile::new(key));
                },
                None => {
                    let name = self.repo_manager.remote_map.name_at(i).to_owned();
                    assert(entry@.pubkey is None);
                    self.packages = packages;
                    return Err(Error::RepoNotLoaded(name));
                },
            }
            i = i + 1;
        }
        self.packages = packages;
        Ok(())
    }

    /// What a commit comes to, once the new state was written.
    pub fn state_written(&self, written: Result<(), IoError>, committed: usize) -> (r: Result<
        usize,
        Error,
    >)
        ensures
            written is Ok ==> r == Ok::<usize, Error>(committed),
            written matches Err(io) ==> (r matches Err(e) && wraps_io(
                e,
                io,
                self@.install_path,
                "Writing"@,
            )),
    {
        match written {
            Ok(_) => Ok(committed),
            Err(io) => Err(wrap_io_err(io, self.install_path.as_str(), "Writing")),
        }
    }

    /// The state of the installation.
    pub fn get_package_state(&self) -> (r: PackageState)
        ensures
            r@ == self@.packages,
    {
        self.packages.duplicate()
    }

    /// Where packages come from.
    pub fn repo_manager(&self) -> (r: &RepoManager)
        ensures
            *r == self.manager(),
    {
        &self.repo_manager
    }

    /// The root of the installation.
    pub fn install_path(&self) -> (r: &str)
        ensures
            r@ == self@.install_path,
    {
        self.install_path.as_str()
    }

    /// What a repository is.
    pub fn get_remote_detail(&self, name: &str) -> (r: Result<RemotePath, Error>)
        ensures
            r is Ok <==> self@.repo_manager.remote_map.contains_key(name@),
            r matches Ok(repo) ==> repo@ == self@.repo_manager.remote_map[name@],
            r matches Err(e) ==> e is ValidRepoNotFound,
    {
        match self.repo_manager.get_remote_info(name) {
            Some(repo) => Ok(repo.duplicate()),
            None => Err(Error::ValidRepoNotFound),
        }
    }
}

/// A package with the repository that described it, once its description was parsed.
pub fn get_package_detail(parsed: Result<Package, Error>, remote: RemoteName) -> (r: Result<
    RemotePackage,
    Error,
>)
    ensures
        parsed matches Ok(package) ==> r == Ok::<RemotePackage, Error>(
            RemotePackage { package, remote },
        ),
        parsed matches Err(e) ==> r == Err::<RemotePackage, Error>(e),
{
    match parsed {
        Ok(package) => Ok(RemotePackage { package, remote }),
        Err(e) => Err(e),
    }
}

/// A commit that fails can be resumed: of the file operations that were taken out of the queue,
/// exactly those that are left are in it again, in their order.
pub proof fn law_failed_commit_can_be_resumed(left: Seq<FileAction>)
    requires
        forall|i: int, j: int|
            0 <= i < j < left.len() ==> (#[trigger] left[i]).target != (#[trigger] left[j]).target,
    ensures
        queue_with(None, left, None).actions.map_values(|q: QueuedAction| q.action) == left,
        queue_with(None, left, None).clashes == Seq::<Clash>::empty(),
{
    law_distinct_operations_are_all_queued(left, None);
    assert(queue_with(None, left, None).actions.map_values(|q: QueuedAction| q.action) =~= left);
    assert(queue_with(None, left, None).clashes =~= Seq::<Clash>::empty());
}

/// Whether a file operation of a transaction was carried out or given up: the last one is done.
pub open spec fn one_done(before: Transaction, after: Transaction) -> bool {
    &&& pending_actions(before).len() > 0
    &&& pending_actions(after) == pending_actions(before).drop_last()
    &&& committed_count(after) == committed_count(before) + 1
}

proof fn lemma_run(ts: Seq<Transaction>, i: int)
    requires
        0 <= i < ts.len(),
        committed_count(ts[0]) == 0,
        forall|k: int| 0 <= k < ts.len() - 1 ==> one_done(#[trigger] ts[k], ts[k + 1]),
    ensures
        committed_count(ts[i]) == i,
        pending_actions(ts[i]).len() == pending_actions(ts[0]).len() - i,
    decreases i,
{
    if i > 0 {
        lemma_run(ts, i - 1);
        assert(one_done(ts[i - 1], ts[i - 1 + 1]));
    }
}

/// A commit, or the giving up, of everything that waits. `ts` is the transaction that was taken,
/// and what is left of it after each file operation, all of which succeed. Then there is exactly
/// one notice before each of them, and at the end, when nothing is left, the final notice and the
/// number of all of them.
pub proof fn law_everything_that_waits_is_done(
    fate: Fate,
    ts: Seq<Transaction>,
    steps: Seq<CommitStep>,
)
    requires
        ts.len() > 0,
        committed_count(ts[0]) == 0,
        pending_actions(ts.last()).len() == 0,
        forall|k: int| 0 <= k < ts.len() - 1 ==> one_done(#[trigger] ts[k], ts[k + 1]),
        steps.len() == ts.len(),
        forall|k: int|
            0 <= k < ts.len() ==> commit_step_for(fate, ts[k], None, #[trigger] steps[k]),
    ensures
        ts.len() == pending_actions(ts[0]).len() + 1,
        forall|k: int|
            0 <= k < ts.len() - 1 ==> #[trigger] steps[k] == (CommitStep::TryOne {
                transaction: ts[k],
                notice: Notice::CommitIncrement,
            }),
        steps.last() matches CommitStep::Finished { total, notice } && total
            == pending_actions(ts[0]).len() && notice == end_notice(fate),
{
    lemma_run(ts, ts.len() - 1);
    assert(commit_step_for(fate, ts[ts.len() - 1], None, steps[ts.len() - 1]));
    assert forall|k: int| 0 <= k < ts.len() - 1 implies #[trigger] steps[k] == (
    CommitStep::TryOne { transaction: ts[k], notice: Notice::CommitIncrement }) by {
        assert(one_done(ts[k], ts[k + 1]));
        assert(commit_step_for(fate, ts[k], None, steps[k]));
    }
}

/// After a commit of everything that waited, where every repository has its key, the state is the
/// new one with the key of every repository, and nothing waits: what is taken next fails, unless
/// something was queued in between.
pub proof fn law_committed_state_is_the_new_one(
    b: PkgarBackendView,
    m: RepoManager,
    new_state: PackageStateView,
)
    requires
        m.remote_map.wf(),
        m.next_keyless(0) == m.remote_map.names().len(),
    ensures
        ({
            let after = state_committed(PkgarBackendView { queue: None, ..b }, m, new_state);
            &&& after.queue is None
            &&& after.packages.installed == new_state.installed
            &&& after.packages.protected == new_state.protected
            &&& forall|name: Seq<char>| #[trigger]
                m@.remote_map.contains_key(name) ==> after.packages.pubkeys.contains_key(name)
                    && m@.remote_map[name].pubkey == Some(after.packages.pubkeys[name])
            &&& forall|name: Seq<char>|
                !m@.remote_map.contains_key(name) ==> (#[trigger] after.packages.pubkeys.contains_key(
                    name,
                ) <==> new_state.pubkeys.contains_key(name)) && after.packages.pubkeys[name]
                    == new_state.pubkeys[name]
        }),
{
    let pubkeys = keys_recorded(new_state.pubkeys, m, m.next_keyless(0));
    assert forall|name: Seq<char>| #[trigger] m@.remote_map.contains_key(name) implies
        pubkeys.contains_key(name) && m@.remote_map[name].pubkey == Some(pubkeys[name]) by {
        law_committed_state_knows_every_key(new_state.pubkeys, m, name);
    }
    assert forall|name: Seq<char>| !m@.remote_map.contains_key(name) implies (
    #[trigger] pubkeys.contains_key(name) <==> new_state.pubkeys.contains_key(name))
        && pubkeys[name] == new_state.pubkeys[name] by {
        lemma_other_keys_stay(new_state.pubkeys, m, m.next_keyless(0), name);
    }
}

/// What a step tells, if anything.
pub open spec fn notice_of(step: CommitStep) -> Option<Notice> {
    match step {
        CommitStep::TryOne { notice, .. } => Some(notice),
        CommitStep::Finished { notice, .. } => Some(notice),
        CommitStep::Failed(_) => None,
    }
}

/// A whole commit: what waits in `b` is taken, `ts` is what is left of it after each file
/// operation, all of which succeed, and every repository has its key. Then it is told once that it
/// starts and with how many, once before each file operation, and once that it ends; the result is
/// their number; the state is the new one with the key of every repository; and nothing waits.
pub proof fn law_whole_commit(
    b: PkgarBackendView,
    m: RepoManager,
    new_state: PackageStateView,
    first: Notice,
    ts: Seq<Transaction>,
    steps: Seq<CommitStep>,
)
    requires
        b.queue is Some,
        ts.len() > 0,
        pending_actions(ts[0]) == b.queue->0.actions.map_values(|q: QueuedAction| q.action),
        committed_count(ts[0]) == 0,
        is_start_notice(first, Fate::Commit, b.queue->0.actions.len()),
        pending_actions(ts.last()).len() == 0,
        forall|k: int| 0 <= k < ts.len() - 1 ==> one_done(#[trigger] ts[k], ts[k + 1]),
        steps.len() == ts.len(),
        forall|k: int|
            0 <= k < ts.len() ==> commit_step_for(Fate::Commit, ts[k], None, #[trigger] steps[k]),
        m.remote_map.wf(),
        m.next_keyless(0) == m.remote_map.names().len(),
    ensures
        ({
            let count = b.queue->0.actions.len();
            let after = state_committed(PkgarBackendView { queue: None, ..b }, m, new_state);
            &&& first matches Notice::CommitStart(n) && n == count
            &&& steps.len() == count + 1
            &&& forall|k: int|
                0 <= k < count ==> notice_of(#[trigger] steps[k]) == Some(Notice::CommitIncrement)
            &&& notice_of(steps[count as int]) == Some(Notice::CommitEnd)
            &&& steps[count as int] matches CommitStep::Finished { total, .. } && total == count
            &&& after.queue is None
            &&& after.packages.installed == new_state.installed
            &&& after.packages.protected == new_state.protected
            &&& forall|name: Seq<char>| #[trigger]
                m@.remote_map.contains_key(name) ==> after.packages.pubkeys.contains_key(name)
                    && m@.remote_map[name].pubkey == Some(after.packages.pubkeys[name])
        }),
{
    law_everything_that_waits_is_done(Fate::Commit, ts, steps);
    law_committed_state_is_the_new_one(b, m, new_state);
}

proof fn lemma_other_keys_stay(
    known: Map<Seq<char>, Seq<u8>>,
    m: RepoManager,
    count: int,
    name: Seq<char>,
)
    requires
        m.remote_map.wf(),
        count <= m.remote_map.names().len(),
        !m@.remote_map.contains_key(name),
    ensures
        keys_recorded(known, m, count).contains_key(name) <==> known.contains_key(name),
        keys_recorded(known, m, count)[name] == known[name],
    decreases count,
{
    if count > 0 {
        m.remote_map.lemma_names();
        assert(m@.remote_map.contains_key(m.remote_map.names()[count - 1]));
        lemma_other_keys_stay(known, m, count - 1, name);
    }
}

proof fn lemma_keys_recorded(known: Map<Seq<char>, Seq<u8>>, m: RepoManager, count: int, i: int)
    requires
        m.remote_map.wf(),
        0 <= i < count <= m.remote_map.names().len(),
    ensures
        keys_recorded(known, m, count).contains_key(m.remote_map.names()[i]),
        keys_recorded(known, m, count)[m.remote_map.names()[i]] == m.entry_at(i).pubkey->0,
    decreases count,
{
    m.remote_map.lemma_names();
    if i < count - 1 {
        lemma_keys_recorded(known, m, count - 1, i);
        assert(m.remote_map.names()[i] != m.remote_map.names()[count - 1]);
    }
}

/// A state that was committed holds the key of every repository.
pub proof fn law_committed_state_knows_every_key(
    known: Map<Seq<char>, Seq<u8>>,
    m: RepoManager,
    name: Seq<char>,
)
    requires
        m.remote_map.wf(),
        m.next_keyless(0) == m.remote_map.names().len(),
        m@.remote_map.contains_key(name),
    ensures
        keys_recorded(known, m, m.next_keyless(0)).contains_key(name),
        m@.remote_map[name].pubkey == Some(keys_recorded(known, m, m.next_keyless(0))[name]),
{
    m.remote_map.lemma_names();
    let names = m.remote_map.names();
    assert(names.contains(name));
    let i = choose|i: int| 0 <= i < names.len() && names[i] == name;
    lemma_keys_recorded(known, m, m.next_keyless(0), i);
    lemma_next_to_load(m, 0, false);
    assert(m.entry_at(i).pubkey is Some);
}

/// What a commit records spares the next run the loading of keys: a repository of the same name
/// gets the same key.
pub proof fn law_recorded_keys_are_used_again(
    known: Map<Seq<char>, Seq<u8>>,
    m: RepoManager,
    later: RepoManagerView,
    name: Seq<char>,
)
    requires
        m.remote_map.wf(),
        m.next_keyless(0) == m.remote_map.names().len(),
        m@.remote_map.contains_key(name),
        later.remote_map.contains_key(name),
        later.remote_map[name].pubkey is None,
    ensures
        with_known_keys(
            later,
            keys_recorded(known, m, m.next_keyless(0)),
        ).remote_map[name].pubkey == m@.remote_map[name].pubkey,
{
    law_committed_state_knows_every_key(known, m, name);
}

} // verus!
