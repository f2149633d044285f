//! What the operations that change something do: from what was known before a call and what the
//! call gave, to what is known after it.
use crate::backend_laws::{
    archive_failures, archive_order, cleared_archive, file_pins, file_pins_some, header_opened,
    index_clears,
    law_effect_of_a_removal, law_effect_of_an_installation, law_effect_of_an_upgrade,
    law_known_keys_are_used, law_new_state_is_taken_over, law_no_step_loses_what_waits,
    law_order_of_a_comparison, law_order_of_a_removal, law_order_of_an_installation,
    law_order_of_an_upgrade, law_queue_takes_what_comes, law_steps_keep_the_notes, lemma_file_pins,
    notes_left, queue_kept, queue_took,
};
use crate::commit_queue::{committed_count, package_blake3, package_path, pending_actions};
use crate::error::{wraps_io, Error, IoError, PkgarError};
use crate::fetch::{LocalSearch, RemoteDownload};
use crate::index::{signed_by, AcceptedIndex, AcceptedIndexView};
use crate::key_sync::{
    is_to_load, key_sync_stepped, lemma_next_to_load, KeyProgress, KeyStep, KeySyncMode,
};
use crate::net_backend::DownloadError;
use crate::package::{PackageName, RemoteName, RemotePackage};
use crate::package_state::PackageState;
use crate::path::path_join;
use crate::pkgar_backend::{
    head_path, uses_known_keys, CommitStep, Fate, IndexStep, Notice, PackageProgress, PackageStep,
    PkgarBackend, PkgarBackendView,
};
use crate::private_dir::{DirOp, DirSetup, PrivateDir};
use crate::repo_manager::{url_host, KeyLookup, RepoManager};
use crate::sources::{
    by_path, is_comment, law_every_listed_url_is_known_after_an_update, law_files_only_add,
    law_installer_stands_for_its_key, load_files, Listing,
};
use crate::text::{lines_of, trimmed, Edge};
use crate::PACKAGES_REMOTE_DIR;
use pkgar::{PackageFile, Transaction};
use vstd::prelude::*;

verus! {

/// Installing a package, step by step. Nothing that waits is lost. A step brings something to what
/// waits, or is the last one of a package with an archive, only with the header of the archive
/// written; where only that is left it is asked for. The archive is opened, and its header written,
/// with the key of the repository that it came from.
pub proof fn law_installing(
    backend: &mut PkgarBackend,
    package: &RemotePackage,
    seen: &mut PackageProgress,
    step: PackageStep,
)
    requires
        call_ensures(PkgarBackend::install, (backend, package, seen), step),
    ensures
        ({
            let (b, after) = (old(backend)@, final(backend)@);
            let s = *old(seen);
            let name = package.package.name@;
            &&& queue_kept(b.queue, after.queue)
            &&& after.queue != b.queue ==> s.head_written && step is Done
            &&& step is Done && package.package.version@.len() > 0 ==> s.head_written
                && cleared_archive(b, name, s) && queue_took(
                b.queue,
                after.queue,
                pending_actions(s.transaction->0),
                Some(package_path(s.opened->0)),
            )
            &&& s.failed is None && b.keys_synced && package.package.version@.len() > 0
                && cleared_archive(b, name, s) && s.transaction is Some && !s.head_written
                ==> step is WriteHead
            &&& step matches PackageStep::WriteHead { archive, head, key } ==> (
            s.archive matches Some((path, remote)) && archive@ == path@ && head@ == head_path(
                b.install_path,
                name,
            ) && b.repo_manager.remote_map.contains_key(remote@)
                && b.repo_manager.remote_map[remote@].pubkey == Some(key@))
            &&& step matches PackageStep::OpenArchive { path: p, key } ==> (s.archive matches Some(
                (path, remote),
            ) && p@ == path@ && b.repo_manager.remote_map.contains_key(remote@)
                && b.repo_manager.remote_map[remote@].pubkey == Some(key@))
            &&& step is LoadKeys <==> s.failed is None && !b.keys_synced
            &&& s.failed matches Some(e) ==> step == PackageStep::Failed(e)
            &&& s.failed is None && b.keys_synced && package.package.version@.len() == 0
                ==> step is Done
            &&& s.failed is None && b.keys_synced && package.package.version@.len() > 0
                ==> archive_order(b, name, package.package.network_size, s, step)
                && archive_failures(b, name, s, step)
            &&& after.install_path == b.install_path
            &&& after.packages == b.packages
            &&& after.repo_manager == b.repo_manager
            &&& after.keys_synced == b.keys_synced
            &&& b.index is Some ==> after.index == b.index
            &&& notes_left(
                b,
                name,
                s,
                s.failed is None && b.keys_synced && package.package.version@.len() > 0,
                *final(seen),
            )
        }),
{
    let b = old(backend)@;
    let s = *old(seen);
    law_order_of_an_installation(b, *package, s, step);
    law_effect_of_an_installation(b, *package, s);
    law_no_step_loses_what_waits(b, *package, s, package.package.name@, step);
    law_steps_keep_the_notes(b, *package, package.package.name@, s);
}

/// Upgrading a package, step by step: the header of what is installed is opened with the key of the
/// repository that it came from, and then all is as in an installation, whatever is installed.
pub proof fn law_upgrading(
    backend: &mut PkgarBackend,
    package: &RemotePackage,
    seen: &mut PackageProgress,
    step: PackageStep,
)
    requires
        call_ensures(PkgarBackend::upgrade, (backend, package, seen), step),
    ensures
        ({
            let (b, after) = (old(backend)@, final(backend)@);
            let s = *old(seen);
            let name = package.package.name@;
            &&& queue_kept(b.queue, after.queue)
            &&& after.queue != b.queue ==> s.head_written && step is Done
            &&& step is Done ==> s.head_written && cleared_archive(b, name, s) && queue_took(
                b.queue,
                after.queue,
                pending_actions(s.transaction->0),
                Some(package_path(s.installed->0)),
            )
            &&& s.failed is None && b.keys_synced && s.installed is Some && cleared_archive(
                b,
                name,
                s,
            ) && s.transaction is Some && !s.head_written ==> step is WriteHead
            &&& step matches PackageStep::WriteHead { archive, head, key } ==> (
            s.archive matches Some((path, remote)) && archive@ == path@ && head@ == head_path(
                b.install_path,
                name,
            ) && b.repo_manager.remote_map.contains_key(remote@)
                && b.repo_manager.remote_map[remote@].pubkey == Some(key@))
            &&& step matches PackageStep::OpenArchive { path: p, key } ==> (s.archive matches Some(
                (path, remote),
            ) && p@ == path@ && b.repo_manager.remote_map.contains_key(remote@)
                && b.repo_manager.remote_map[remote@].pubkey == Some(key@))
            &&& step is LoadKeys <==> s.failed is None && !b.keys_synced
            &&& s.failed matches Some(e) ==> step == PackageStep::Failed(e)
            &&& s.failed is None && b.keys_synced && s.installed is None ==> header_opened(
                b,
                name,
                step,
            )
            &&& s.failed is None && b.keys_synced && s.installed is Some ==> archive_order(
                b,
                name,
                package.package.network_size,
                s,
                step,
            ) && archive_failures(b, name, s, step)
            &&& after.install_path == b.install_path
            &&& after.packages == b.packages
            &&& after.repo_manager == b.repo_manager
            &&& after.keys_synced == b.keys_synced
            &&& b.index is Some ==> after.index == b.index
            &&& notes_left(
                b,
                name,
                s,
                s.failed is None && b.keys_synced && s.installed is Some,
                *final(seen),
            )
        }),
{
    let b = old(backend)@;
    let s = *old(seen);
    law_order_of_an_upgrade(b, *package, s, step);
    law_effect_of_an_upgrade(b, *package, s);
    law_no_step_loses_what_waits(b, *package, s, package.package.name@, step);
    law_steps_keep_the_notes(b, *package, package.package.name@, s);
}

/// Removing a package, step by step. A protected one is refused, and nothing changes. Nothing that
/// waits is lost, and with the step that asks for the removal of the header all file operations
/// wait, or a clash is noted for them.
pub proof fn law_removing(
    backend: &mut PkgarBackend,
    package: &PackageName,
    seen: &mut PackageProgress,
    step: PackageStep,
)
    requires
        call_ensures(PkgarBackend::uninstall, (backend, package, seen), step),
    ensures
        ({
            let (b, after) = (old(backend)@, final(backend)@);
            let s = *old(seen);
            let ready = !b.packages.protected.contains(package@) && s.failed is None
                && b.keys_synced && s.installed is Some;
            &&& queue_kept(b.queue, after.queue)
            &&& b.packages.protected.contains(package@) ==> (step matches PackageStep::Failed(
                Error::ProtectedPackage(p),
            ) && p@ == package@)
            &&& step is RemoveHead <==> ready && s.head_removed is None && s.transaction is Some
            &&& step is Prepare <==> ready && s.head_removed is None && s.transaction is None
            &&& step is Done <==> ready && (s.head_removed matches Some(r) && r is Ok)
            &&& step matches PackageStep::RemoveHead { path } ==> path@ == head_path(
                b.install_path,
                package@,
            ) && queue_took(
                b.queue,
                after.queue,
                pending_actions(s.transaction->0),
                Some(package_path(s.installed->0)),
            )
            &&& step !is RemoveHead ==> after == b
            &&& after == (PkgarBackendView { queue: after.queue, ..b })
            &&& !b.packages.protected.contains(package@) && s.failed is None && b.keys_synced
                && s.installed is None ==> header_opened(b, package@, step)
        }),
{
    let b = old(backend)@;
    let s = *old(seen);
    law_order_of_a_removal(b, package@, s, step);
    law_effect_of_a_removal(b, package@, s, step);
}

/// Comparing an archive with the index: it may be used exactly if what is known permits it, and
/// only what is settled of the index can change.
pub proof fn law_comparing(
    backend: &mut PkgarBackend,
    package: &PackageName,
    pkg: &PackageFile,
    key_file: &Option<Option<String>>,
    loaded: &mut Option<Result<AcceptedIndex, Error>>,
    step: IndexStep,
)
    requires
        call_ensures(
            PkgarBackend::enforce_manifest_blake3,
            (backend, package, pkg, key_file, loaded),
            step,
        ),
    ensures
        (step matches IndexStep::Answer(r) && r is Ok) <==> index_clears(
            old(backend)@,
            package@,
            package_blake3(*pkg),
            *key_file,
            *old(loaded),
        ),
        old(backend)@.index is Some ==> final(backend)@.index == old(backend)@.index,
        final(backend)@ == (PkgarBackendView { index: final(backend)@.index, ..old(backend)@ }),
        *final(loaded) is None || *final(loaded) == *old(loaded),
{
    law_order_of_a_comparison(
        old(backend)@,
        package@,
        package_blake3(*pkg),
        *key_file,
        *old(loaded),
        step,
    );
}

/// Using the keys that are known from earlier: a repository without a key gets the one that is
/// recorded under its name, and nothing else changes.
pub proof fn law_using_known_keys(backend: &mut PkgarBackend, name: Seq<char>)
    requires
        call_ensures(PkgarBackend::use_known_keys, (backend,), ()),
        old(backend).wf(),
    ensures
        ({
            let (b, after) = (old(backend)@, final(backend)@);
            let (m, r) = (b.repo_manager.remote_map, after.repo_manager.remote_map);
            let known = b.packages.pubkeys;
            &&& after == (PkgarBackendView { repo_manager: after.repo_manager, ..b })
            &&& after.repo_manager.remotes == b.repo_manager.remotes
            &&& after.repo_manager.locals == b.repo_manager.locals
            &&& after.repo_manager.download_path == b.repo_manager.download_path
            &&& r.contains_key(name) <==> m.contains_key(name)
            &&& m.contains_key(name) ==> {
                &&& r[name].path == m[name].path
                &&& r[name].pubpath == m[name].pubpath
                &&& r[name].name == m[name].name
                &&& r[name].pubkey == (if m[name].pubkey is None && known.contains_key(name) {
                    Some(known[name])
                } else {
                    m[name].pubkey
                })
            }
        }),
{
    law_known_keys_are_used(old(backend).manager()@, old(backend)@.packages.pubkeys, name);
}

/// Taking what waits: all of it is taken, in its order, and nothing waits any more; the start is
/// told with its number. Nothing else changes.
pub proof fn law_taking_what_waits(
    backend: &mut PkgarBackend,
    fate: Fate,
    r: Result<(Transaction, Notice), Error>,
)
    requires
        call_ensures(PkgarBackend::take_transaction, (backend, fate), r),
    ensures
        r is Ok <==> old(backend)@.queue is Some,
        final(backend)@.queue is None,
        final(backend)@ == (PkgarBackendView { queue: None, ..old(backend)@ }),
        r matches Ok((t, notice)) ==> {
            let waiting = old(backend)@.queue->0.actions;
            &&& pending_actions(t).len() == waiting.len()
            &&& forall|i: int|
                0 <= i < waiting.len() ==> #[trigger] pending_actions(t)[i] == waiting[i].action
            &&& committed_count(t) == 0
            &&& match fate {
                Fate::Commit => notice matches Notice::CommitStart(n) && n == waiting.len(),
                Fate::Abort => notice matches Notice::AbortStart(n) && n == waiting.len(),
            }
        },
{
}

/// A step of a commit: it goes on while file operations are left, and is finished with the number
/// of those that were carried out when none is. After a failure everything that is left waits
/// again, next to what waited, and the failure is told.
pub proof fn law_committing(
    backend: &mut PkgarBackend,
    fate: Fate,
    transaction: Transaction,
    failure: Option<PkgarError>,
    step: CommitStep,
)
    requires
        call_ensures(PkgarBackend::commit_step, (backend, fate, transaction, failure), step),
    ensures
        failure is None ==> final(backend)@ == old(backend)@,
        failure matches Some(e) ==> step == CommitStep::Failed(Error::Pkgar(e)) && queue_took(
            old(backend)@.queue,
            final(backend)@.queue,
            pending_actions(transaction),
            None,
        ) && final(backend)@ == (PkgarBackendView {
            queue: final(backend)@.queue,
            ..old(backend)@
        }),
        step is TryOne <==> failure is None && pending_actions(transaction).len() > 0,
        step matches CommitStep::TryOne { transaction: t, notice } ==> t == transaction && notice
            == Notice::CommitIncrement,
        step is Finished <==> failure is None && pending_actions(transaction).len() == 0,
        step matches CommitStep::Finished { total, notice } ==> total == committed_count(transaction)
            && notice == (match fate {
            Fate::Commit => Notice::CommitEnd,
            Fate::Abort => Notice::AbortEnd,
        }),
{
    law_queue_takes_what_comes(old(backend)@.queue, pending_actions(transaction), None);
}

/// Taking over a new state: what is installed and protected is what the new state says, with the
/// keys of the repositories before the first one without a key. That one is told, and nothing else
/// changes.
pub proof fn law_taking_over_a_state(
    backend: &mut PkgarBackend,
    new_state: PackageState,
    r: Result<(), Error>,
    first: int,
    name: Seq<char>,
)
    requires
        call_ensures(PkgarBackend::commit_state, (backend, new_state), r),
        old(backend).manager().remote_map.wf(),
        0 <= first <= old(backend).manager().remote_map.names().len(),
        forall|i: int|
            0 <= i < first ==> (#[trigger] old(backend).manager().entry_at(i)).pubkey is Some,
        first < old(backend).manager().remote_map.names().len() ==> old(backend).manager().entry_at(
            first,
        ).pubkey is None,
    ensures
        ({
            let (b, after) = (old(backend)@, final(backend)@);
            let m = old(backend).manager();
            &&& r is Ok <==> first == m.remote_map.names().len()
            &&& r matches Err(e) ==> (e matches Error::RepoNotLoaded(n) && n@
                == m.remote_map.names()[first])
            &&& after.packages.installed == new_state@.installed
            &&& after.packages.protected == new_state@.protected
            &&& forall|i: int|
                0 <= i < first ==> after.packages.pubkeys.contains_key(
                    #[trigger] m.remote_map.names()[i],
                ) && m.entry_at(i).pubkey == Some(after.packages.pubkeys[m.remote_map.names()[i]])
            &&& !m.remote_map.names().take(first).contains(name) ==> (
            after.packages.pubkeys.contains_key(name) <==> new_state@.pubkeys.contains_key(name))
                && after.packages.pubkeys[name] == new_state@.pubkeys[name]
            &&& after == (PkgarBackendView { packages: after.packages, ..b })
        }),
{
    law_new_state_is_taken_over(old(backend)@, old(backend).manager(), new_state@, first, name);
}

/// A look at a place: where there is nothing or no file the search goes on, where there is a file
/// it ends with that place and its repository, and any other failure ends it. The place is used up.
pub proof fn law_looking_at_a_place(
    search: &mut LocalSearch,
    probe: Result<bool, IoError>,
    r: Option<Result<(RemoteName, String), Error>>,
)
    requires
        call_ensures(LocalSearch::answer, (search, probe), r),
    ensures
        final(search)@ == old(search)@.drop_first(),
        probe matches Ok(is_file) ==> (is_file <==> r is Some),
        probe matches Ok(is_file) ==> (is_file ==> (r matches Some(Ok((remote, path))) && remote@
            == old(search)@[0].0 && path@ == old(search)@[0].1)),
        probe matches Err(io) ==> (r is None <==> io.kind is NotFound),
        probe matches Err(io) ==> (!(io.kind is NotFound) ==> (r matches Some(
            Err(Error::IO(cause, path, context)),
        ) && cause == io && path@ == old(search)@[0].1 && context@ == "Reading metadata"@)),
{
}

/// A download from a place: after every HTTP status it goes on with the next repository, after
/// success it ends with the repository that was asked, and after any other failure with that. The
/// place is used up.
pub proof fn law_downloading_from_a_place(
    download: &mut RemoteDownload,
    answer: Result<(), DownloadError>,
    r: Option<Result<RemoteName, Error>>,
)
    requires
        call_ensures(RemoteDownload::answer, (download, answer), r),
    ensures
        final(download)@ == old(download)@.drop_first(),
        answer is Ok ==> (r matches Some(Ok(remote)) && remote@ == old(download)@[0].0),
        answer matches Err(e) ==> (e is HttpStatus <==> r is None),
        answer matches Err(e) ==> (e !is HttpStatus ==> (r matches Some(Err(Error::Download(told)))
            && told == e)),
{
}

/// A step towards a private directory: one that was done is not left, one that failed still is, and
/// the failure is told with what it was to do.
pub proof fn law_securing_a_directory(
    setup: &mut DirSetup,
    done: Result<(), IoError>,
    r: Result<(), Error>,
)
    requires
        call_ensures(DirSetup::answer, (setup, done), r),
    ensures
        final(setup)@.0 == old(setup)@.0,
        r is Ok <==> done is Ok,
        done is Ok ==> final(setup)@.1 == old(setup)@.1.drop_first(),
        done matches Err(io) ==> final(setup)@.1 == old(setup)@.1 && (r matches Err(e) && wraps_io(
            e,
            io,
            old(setup)@.0,
            match old(setup)@.1[0] {
                DirOp::CreateAll => "Creating dir"@,
                DirOp::SetMode(_) => "Securing dir"@,
            },
        )),
{
}

/// Adding the repository at a URL: it is known under its host, with its packages and its key below
/// the URL, and comes last if it was not known. A URL without a host is refused, and nothing
/// changes.
pub proof fn law_adding_a_remote(
    manager: &mut RepoManager,
    url: &str,
    target: &str,
    r: Result<(), Error>,
    other: Seq<char>,
)
    requires
        call_ensures(RepoManager::add_remote, (manager, url, target), r),
    ensures
        r is Ok <==> url_host(url@) is Some,
        r matches Err(e) ==> (e matches Error::RepoPathInvalid(p) && p@ == url@) && final(manager)@
            == old(manager)@,
        url_host(url@) matches Some(host) ==> {
            let (m, after) = (old(manager)@, final(manager)@);
            &&& after.remote_map.contains_key(host)
            &&& after.remote_map[host].path == url@ + "/"@ + target@
            &&& after.remote_map[host].pubpath == url@ + "/"@ + "id_ed25519.pub.toml"@
            &&& after.remote_map[host].name == host
            &&& after.remote_map[host].pubkey is None
            &&& other != host ==> (after.remote_map.contains_key(other)
                <==> m.remote_map.contains_key(other)) && after.remote_map[other]
                == m.remote_map[other]
            &&& m.remote_map.contains_key(host) ==> after.remotes == m.remotes
            &&& !m.remote_map.contains_key(host) ==> after.remotes == m.remotes.push(host)
            &&& after.locals == m.locals
            &&& after.download_path == m.download_path
        },
{
}

/// Adding a repository of this machine: it is known under its identifier, with the key that was
/// found, and comes last if it was not known. Without a usable key it is refused, and nothing
/// changes.
pub proof fn law_adding_a_local(
    manager: &mut RepoManager,
    host: &str,
    path: &str,
    target: &str,
    pubkey_dir: &str,
    key: KeyLookup,
    r: Result<(), Error>,
    other: Seq<char>,
)
    requires
        call_ensures(RepoManager::add_local, (manager, host, path, target, pubkey_dir, key), r),
    ensures
        r is Ok <==> key is Found,
        key !is Found ==> final(manager)@ == old(manager)@,
        key matches KeyLookup::Unusable(e) ==> r == Err::<(), Error>(e),
        key is Missing ==> (r matches Err(Error::RepoPathInvalid(p)) && p@ == path_join(
            pubkey_dir@,
            "id_ed25519.pub.toml"@,
        )),
        key matches KeyLookup::Found(k) ==> {
            let (m, after) = (old(manager)@, final(manager)@);
            &&& after.remote_map.contains_key(host@)
            &&& after.remote_map[host@].pubkey == Some(k.pkey@)
            &&& path@.len() > 0 ==> after.remote_map[host@].path == path@ + "/"@ + target@
            &&& path@.len() == 0 ==> after.remote_map[host@].path.len() == 0
            &&& after.remote_map[host@].pubpath.len() == 0
            &&& after.remote_map[host@].name == host@
            &&& other != host@ ==> (after.remote_map.contains_key(other)
                <==> m.remote_map.contains_key(other)) && after.remote_map[other]
                == m.remote_map[other]
            &&& m.remote_map.contains_key(host@) ==> after.locals == m.locals
            &&& !m.remote_map.contains_key(host@) ==> after.locals == m.locals.push(host@)
            &&& after.remotes == m.remotes
            &&& after.download_path == m.download_path
        },
{
}

/// Loading the repositories anew: a directory that could not be read is told, and no repository is
/// known then. If all is well every file could be read, and each of its lines that is no comment
/// has a host that is the name of a repository.
pub proof fn law_loading_repositories(
    manager: &mut RepoManager,
    target: &str,
    install_path: &str,
    listing: Listing,
    installer: KeyLookup,
    r: Result<(), Error>,
    f: int,
    i: int,
)
    requires
        call_ensures(
            RepoManager::update_remotes,
            (manager, target, install_path, listing, installer),
            r,
        ),
    ensures
        final(manager)@.consistent(),
        final(manager)@.download_path == old(manager)@.download_path,
        listing matches Listing::Unreadable(io) ==> (r matches Err(e) && wraps_io(
            e,
            io,
            path_join(install_path@, PACKAGES_REMOTE_DIR@),
            "Reading dir"@,
        )) && final(manager)@.remotes.len() == 0 && final(manager)@.locals.len() == 0,
        listing matches Listing::BadItem(io) ==> (r matches Err(e) && wraps_io(
            e,
            io,
            path_join(install_path@, PACKAGES_REMOTE_DIR@),
            "Reading dir item"@,
        )) && final(manager)@.remotes.len() == 0 && final(manager)@.locals.len() == 0,
        ({
            let after = final(manager)@;
            listing matches Listing::Files(files) ==> (r is Ok && 0 <= f < files@.len() ==> (
            files@[f].content matches Ok(text) && (0 <= i < lines_of(text@).len() && !is_comment(
                lines_of(text@)[i],
            ) ==> (url_host(trimmed(lines_of(text@)[i], Edge::Blank)) matches Some(host)
                && after.remote_map.contains_key(host)))))
        }),
        r is Ok && installer is Found ==> final(manager)@.remote_map.contains_key("installer_key"@),
{
    if let Listing::Files(files) = listing {
        law_files_only_add(
            old(manager)@.cleared(),
            by_path(files@),
            target@,
            Seq::empty(),
        );
        law_installer_stands_for_its_key(
            load_files(old(manager)@.cleared(), by_path(files@), target@).manager,
            target@,
            installer,
            Seq::empty(),
        );
        if r is Ok && 0 <= f < files@.len() {
            law_every_listed_url_is_known_after_an_update(
                old(manager)@,
                files@,
                target@,
                installer,
                f,
                i,
            );
        }
    }
}

/// Loading the missing keys uses the files that are there, and leaves them. Forced loading
/// downloads each key anew, and leaves the file; to try it out, it leaves none.
pub proof fn law_loading_keys(
    missing: &mut RepoManager,
    forced: &mut RepoManager,
    tried: &mut RepoManager,
    dir: &PrivateDir,
    from: usize,
    seen: KeyProgress,
    a: KeyStep,
    b: KeyStep,
    c: KeyStep,
)
    requires
        call_ensures(RepoManager::sync_keys, (missing, dir, from, seen), a),
        call_ensures(RepoManager::force_sync_keys, (forced, dir, from, seen), b),
        call_ensures(RepoManager::test_sync_keys, (tried, dir, from, seen), c),
    ensures
        a is Download ==> seen.exists == Some(false),
        a matches KeyStep::Loaded { remove, .. } ==> !remove,
        b !is CheckExists,
        c !is CheckExists,
        b is Open ==> seen.downloaded is Some,
        c is Open ==> seen.downloaded is Some,
        b matches KeyStep::Loaded { remove, .. } ==> !remove,
        c matches KeyStep::Loaded { remove, .. } ==> remove,
        a is Loaded || b is Loaded || c is Loaded ==> (seen.opened matches Some(r) && r is Ok),
{
}

/// Loading keys of the backend: keys that are known from earlier are used, and only the keys of
/// repositories without one are set, to the one that is known or to the one that was read. Nothing
/// is done once all are loaded, and when that is told every repository has its key.
pub proof fn law_loading_keys_of_the_backend(
    backend: &mut PkgarBackend,
    dir: &PrivateDir,
    from: usize,
    seen: KeyProgress,
    step: KeyStep,
    name: Seq<char>,
)
    requires
        call_ensures(PkgarBackend::sync_keys, (backend, dir, from, seen), step),
        old(backend).wf(),
        from == 0 || old(backend).manager().keyed_before(from as int),
    ensures
        ({
            let (b, after) = (old(backend)@, final(backend)@);
            let (m, r) = (b.repo_manager.remote_map, after.repo_manager.remote_map);
            let known = b.packages.pubkeys;
            &&& after == (PkgarBackendView {
                repo_manager: after.repo_manager,
                keys_synced: after.keys_synced,
                ..b
            })
            &&& after.keys_synced <==> step is Finished
            &&& b.keys_synced ==> step is Finished && after == b
            &&& after.repo_manager.remotes == b.repo_manager.remotes
            &&& after.repo_manager.locals == b.repo_manager.locals
            &&& r.contains_key(name) <==> m.contains_key(name)
            &&& m.contains_key(name) ==> {
                &&& r[name].path == m[name].path
                &&& r[name].pubpath == m[name].pubpath
                &&& r[name].name == m[name].name
                &&& m[name].pubkey is Some ==> r[name].pubkey == m[name].pubkey
                &&& m[name].pubkey is None && known.contains_key(name) && !b.keys_synced
                    ==> r[name].pubkey == Some(known[name])
                &&& m[name].pubkey is None && !known.contains_key(name) ==> (
                r[name].pubkey matches Some(key) ==> (seen.opened matches Some(Ok(read))
                    && read.pkey@ == key && step is Loaded))
                &&& step is Finished ==> r[name].pubkey is Some
            }
        }),
{
    let (b, after) = (old(backend)@, final(backend)@);
    let manager = old(backend).manager();
    manager.remote_map.lemma_names();
    assert(b.repo_manager.remote_map == manager.remote_map@);
    let names = manager.remote_map.names();
    if b.keys_synced {
        if b.repo_manager.remote_map.contains_key(name) {
            assert(names.contains(name));
            let i = choose|i: int| 0 <= i < names.len() && names[i] == name;
            assert(manager.entry_at(i).pubkey is Some);
        }
    } else {
        let mode = KeySyncMode { force: false, cleanup: false };
        let known = choose|known: RepoManager| #[trigger]
            uses_known_keys(manager, known, b.packages.pubkeys) && key_sync_stepped(
                known,
                final(backend).manager(),
                step,
                mode,
                from as int,
                seen,
            );
        law_known_keys_are_used(manager@, b.packages.pubkeys, name);
        lemma_next_to_load(known, from as int, false);
        let at = known.next_to_load(from as int, false);
        if b.repo_manager.remote_map.contains_key(name) {
            assert(names.contains(name));
            let i = choose|i: int| 0 <= i < names.len() && names[i] == name;
            assert(known.remote_map.names()[i] == name);
            assert(known.entry_at(i) == known@.remote_map[name]);
            if at < names.len() {
                assert(is_to_load(known.entry_at(at), false));
                assert(names[at] == name ==> known.entry_at(at) == known@.remote_map[name]);
            } else {
                if i < from {
                    assert(manager.entry_at(i).pubkey is Some);
                } else {
                    assert(!is_to_load(known.entry_at(i), false));
                }
            }
        }
    }
}

/// Settling what the index is: what was settled stays. Nothing is settled before the key file was
/// looked at; without a pinned key or a repository on the network it is settled that there is none
/// to ask; and with both only an index that is signed with the pinned key is settled.
pub proof fn law_settling_the_index(
    backend: &mut PkgarBackend,
    key_file: &Option<Option<String>>,
    loaded: &mut Option<Result<AcceptedIndex, Error>>,
    r: Result<bool, Error>,
)
    requires
        call_ensures(PkgarBackend::settle_index, (backend, key_file, loaded), r),
    ensures
        ({
            let (b, after) = (old(backend)@, final(backend)@);
            let pins = *key_file matches Some(file) && file_pins_some(file);
            let wanted = b.index is None && pins && b.repo_manager.remotes.len() > 0;
            &&& after == (PkgarBackendView { index: after.index, ..b })
            &&& b.index is Some ==> after.index == b.index
            &&& b.index is None && *key_file is None ==> after.index is None
            &&& b.index is None && *key_file is Some && !wanted ==> after.index == Some(
                None::<AcceptedIndexView>,
            )
            &&& wanted ==> (after.index is Some <==> (*old(loaded) matches Some(Ok(index))
                && index@.manifest.key matches Some(key) && file_pins((*key_file)->0, key)
                && signed_by(key, index@.manifest.text)))
            &&& wanted && after.index is Some ==> (*old(loaded) matches Some(Ok(index)) && after.index
                == Some(Some(index@)))
            &&& wanted ==> *final(loaded) is None
            &&& !wanted ==> *final(loaded) == *old(loaded)
            &&& r is Ok ==> (r == Ok::<bool, Error>(true) <==> after.index is Some)
            &&& after.index is Some ==> r is Ok
        }),
{
    if let Some(file) = *key_file {
        lemma_file_pins(file);
    }
}

/// Taking note of an index: it is noted as what loading it gave. The key file that was read for
/// that counts from then on if it pins a key; otherwise the one that was read before still does. No
/// other note changes.
pub proof fn law_noting_an_index(
    progress: &mut PackageProgress,
    key_file: Option<String>,
    loaded: Result<AcceptedIndex, Error>,
)
    requires
        call_ensures(PackageProgress::note_index, (progress, key_file, loaded), ()),
    ensures
        ({
            let (before, after) = (*old(progress), *final(progress));
            &&& after.index == Some(loaded)
            &&& file_pins_some(key_file) ==> after.key_file == Some(key_file)
            &&& !file_pins_some(key_file) ==> after.key_file == before.key_file
            &&& after.failed == before.failed
            &&& after.installed == before.installed
            &&& after.archive == before.archive
            &&& after.opened == before.opened
            &&& after.transaction == before.transaction
            &&& after.head_written == before.head_written
            &&& after.head_removed == before.head_removed
        }),
{
    lemma_file_pins(key_file);
}

} // verus!
