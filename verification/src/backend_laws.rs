//! What installing, upgrading and removing a package promise, whatever the caller notes between the
//! steps.
use crate::commit_queue::{
    clash_noted, clashes, committed_count, law_former_operations_stay,
    law_nothing_is_lost_silently, lemma_merged_from, package_blake3, package_path, pending_actions,
    FileAction, QueuedAction,
};
use crate::error::{wraps_io, Error, PkgarError};
use crate::hexadecimal::small_hex;
use crate::index::{signed_by, vouches_for, AcceptedIndex, AcceptedIndexView};
use crate::key_sync::{is_to_load, lemma_next_to_load};
use crate::manifest_sig::field_bytes;
use crate::package::RemotePackage;
use crate::package_state::PackageStateView;
use crate::path::path_join;
use crate::pkgar_backend::{
    archive_key, archive_step, archive_stepped, commit_step_for, end_notice, head_path, index_step,
    install_left, install_step, install_stepped, is_start_notice, keys_recorded, loaded_index,
    looked_up, queue_with, state_committed, uninstall_left, uninstall_step, uninstall_stepped,
    upgrade_left, upgrade_step, upgrade_stepped, with_known_keys, CommitStep, Fate, IndexStep,
    Notice, PackageProgress, PackageStep, PkgarBackendView, QueueView,
};
use crate::repo_manager::{RepoManager, RepoManagerView};
use crate::REPO_SIGN_PUBKEY_PATH;
use pkgar::{PackageFile, Transaction};
use vstd::prelude::*;

verus! {

/// Whether the archive was fetched from a repository that is known and has its key, and is open.
pub open spec fn opened_archive(b: PkgarBackendView, seen: PackageProgress) -> bool {
    &&& seen.archive matches Some((path, remote))
    &&& b.repo_manager.remote_map.contains_key(remote@)
    &&& b.repo_manager.remote_map[remote@].pubkey is Some
    &&& seen.opened is Some
}

/// Whether a key file that was read holds this key for the index.
pub open spec fn file_pins(file: Option<String>, key: Seq<u8>) -> bool {
    file matches Some(text) && field_bytes(text@, "ed25519"@) == Some(key) && key.len() == 32
}

/// Whether a key file that was read holds a key for the index.
pub open spec fn file_pins_some(file: Option<String>) -> bool {
    exists|key: Seq<u8>| #[trigger] file_pins(file, key)
}

/// Whether the open archive may be used for the package. The index that was settled before decides,
/// or one that was loaded now and is signed with the pinned key; without a pinned key or a
/// repository on the network there is none to ask.
pub open spec fn cleared_archive(
    b: PkgarBackendView,
    package: Seq<char>,
    seen: PackageProgress,
) -> bool {
    &&& opened_archive(b, seen)
    &&& match b.index {
        Some(Some(index)) => vouches_for(
            index.repository.packages@,
            package,
            package_blake3(seen.opened->0),
        ),
        Some(None) => true,
        None => seen.key_file matches Some(file) && (b.repo_manager.remotes.len() == 0
            || !file_pins_some(file) || (seen.index matches Some(Ok(index))
            && index@.manifest.key matches Some(key) && file_pins(file, key) && signed_by(
            key,
            index@.manifest.text,
        ) && vouches_for(
            index@.repository.packages@,
            package,
            package_blake3(seen.opened->0),
        ))),
    }
}

/// What is promised of the steps about an archive: each one comes exactly when all before it is
/// done, and names what it is about.
pub open spec fn archive_order(
    b: PkgarBackendView,
    package: Seq<char>,
    size: u64,
    seen: PackageProgress,
    step: PackageStep,
) -> bool {
    &&& step is FetchArchive <==> seen.archive is None
    &&& step matches PackageStep::FetchArchive { package: p, size: n } ==> p@ == package && n
        == size
    &&& step is OpenArchive <==> (seen.opened is None && (seen.archive matches Some((path, remote))
        && b.repo_manager.remote_map.contains_key(remote@)
        && b.repo_manager.remote_map[remote@].pubkey is Some))
    &&& step matches PackageStep::OpenArchive { path: p, key } ==> (seen.archive matches Some(
        (path, remote),
    ) && p@ == path@ && b.repo_manager.remote_map[remote@].pubkey == Some(key@))
    &&& step is ReadPinnedKey <==> opened_archive(b, seen) && b.index is None
        && seen.key_file is None
    &&& step matches PackageStep::ReadPinnedKey { path } ==> path@ == path_join(
        b.install_path,
        REPO_SIGN_PUBKEY_PATH@,
    )
    &&& step is LoadIndex <==> opened_archive(b, seen) && b.index is None && seen.index is None
        && b.repo_manager.remotes.len() > 0 && (seen.key_file matches Some(file)
        && file_pins_some(file))
    &&& step is Prepare <==> cleared_archive(b, package, seen) && seen.transaction is None
    &&& step is WriteHead <==> cleared_archive(b, package, seen) && seen.transaction is Some
        && !seen.head_written
    &&& step matches PackageStep::WriteHead { archive, head, key } ==> (seen.archive matches Some(
        (path, remote),
    ) && archive@ == path@ && head@ == head_path(b.install_path, package)
        && b.repo_manager.remote_map[remote@].pubkey == Some(key@))
    &&& step is Done <==> cleared_archive(b, package, seen) && seen.transaction is Some
        && seen.head_written
    &&& step !is LoadKeys && step !is OpenInstalled && step !is RemoveHead
}

/// What is promised of the failures about an archive.
pub open spec fn archive_failures(
    b: PkgarBackendView,
    package: Seq<char>,
    seen: PackageProgress,
    step: PackageStep,
) -> bool {
    &&& seen.archive matches Some((path, remote)) ==> {
        &&& !b.repo_manager.remote_map.contains_key(remote@) ==> (step matches PackageStep::Failed(
            Error::RepoCacheNotFound(p),
        ) && p@ == package)
        &&& b.repo_manager.remote_map.contains_key(remote@)
            && b.repo_manager.remote_map[remote@].pubkey is None ==> (
        step matches PackageStep::Failed(Error::RepoNotLoaded(n)) && n@
            == b.repo_manager.remote_map[remote@].name)
    }
    &&& opened_archive(b, seen) ==> {
        let hash = package_blake3(seen.opened->0);
        &&& b.index matches Some(Some(index)) ==> {
            &&& !index.repository.packages@.contains_key(package) ==> (
            step matches PackageStep::Failed(Error::PackageNotInManifest(p)) && p@ == package)
            &&& index.repository.packages@.contains_key(package) && !vouches_for(
                index.repository.packages@,
                package,
                hash,
            ) ==> (step matches PackageStep::Failed(
                Error::ManifestHashMismatch { package: p, expected, actual },
            ) && p@ == package && expected@ == index.repository.packages@[package] && actual@
                == small_hex(hash))
        }
        &&& b.index is None && b.repo_manager.remotes.len() > 0 && (seen.key_file matches Some(file)
            && file_pins_some(file)) ==> {
            &&& seen.index matches Some(Err(cause)) ==> step == PackageStep::Failed(cause)
            &&& seen.index matches Some(Ok(index)) ==> {
                &&& index@.manifest.key is None ==> step == PackageStep::Failed(
                    Error::RepoManifestUnsigned,
                )
                &&& index@.manifest.key matches Some(key) ==> (!file_pins(seen.key_file->0, key)
                    ==> (step matches PackageStep::Failed(Error::RepoManifestSigInvalid(why))
                    && why@ == "repo.toml signature does not match the pinned key"@))
            }
        }
    }
}

pub(crate) proof fn lemma_file_pins(file: Option<String>)
    ensures
        file matches Some(text) ==> (field_bytes(text@, "ed25519"@) matches Some(key) ==> (
        key.len() == 32 ==> file_pins(file, key) && file_pins_some(file))),
        file_pins_some(file) ==> (file matches Some(text) && (field_bytes(text@, "ed25519"@)
            matches Some(key) && key.len() == 32)),
{
    if let Some(text) = file {
        if let Some(key) = field_bytes(text@, "ed25519"@) {
            if key.len() == 32 {
                assert(file_pins(file, key));
            }
        }
    }
}

proof fn lemma_archive_order(
    b: PkgarBackendView,
    package: Seq<char>,
    size: u64,
    seen: PackageProgress,
    step: PackageStep,
)
    requires
        archive_step(b, package, size, seen, step),
    ensures
        archive_order(b, package, size, seen, step),
        archive_failures(b, package, seen, step),
{
    if let Some(file) = seen.key_file {
        lemma_file_pins(file);
    }
}

/// The order of an installation. The keys are loaded first; a package that only names others is
/// done then; of any other one the archive is fetched, opened with the key of the repository that
/// it came from, compared with the index, extracted, and its header is written, in this order.
pub proof fn law_order_of_an_installation(
    b: PkgarBackendView,
    package: RemotePackage,
    seen: PackageProgress,
    step: PackageStep,
)
    requires
        install_step(b, package, seen, step),
    ensures
        seen.failed matches Some(e) ==> step == PackageStep::Failed(e),
        step is LoadKeys <==> seen.failed is None && !b.keys_synced,
        seen.failed is None && b.keys_synced && package.package.version@.len() == 0 ==> step is Done,
        seen.failed is None && b.keys_synced && package.package.version@.len() > 0 ==> {
            &&& archive_order(
                b,
                package.package.name@,
                package.package.network_size,
                seen,
                step,
            )
            &&& archive_failures(b, package.package.name@, seen, step)
        },
        step !is OpenInstalled && step !is RemoveHead,
{
    if seen.failed is None && b.keys_synced && package.package.version@.len() > 0 {
        lemma_archive_order(
            b,
            package.package.name@,
            package.package.network_size,
            seen,
            step,
        );
    }
}

/// What is promised of opening the header of what is installed: the key is the one of the
/// repository that the package came from.
pub open spec fn header_opened(b: PkgarBackendView, package: Seq<char>, step: PackageStep) -> bool {
    &&& !b.packages.installed.contains_key(package) ==> (step matches PackageStep::Failed(
        Error::PackageNotInstalled(p),
    ) && p@ == package)
    &&& b.packages.installed.contains_key(package) && !b.packages.pubkeys.contains_key(
        b.packages.installed[package],
    ) ==> (step matches PackageStep::Failed(Error::RepoCacheNotFound(p)) && p@ == package)
    &&& b.packages.installed.contains_key(package) && b.packages.pubkeys.contains_key(
        b.packages.installed[package],
    ) ==> (step matches PackageStep::OpenInstalled { path, key } && path@ == head_path(
        b.install_path,
        package,
    ) && key@ == b.packages.pubkeys[b.packages.installed[package]])
}

/// The order of an upgrade: the keys, the header of what is installed, then what the new archive
/// needs, as in an installation.
pub proof fn law_order_of_an_upgrade(
    b: PkgarBackendView,
    package: RemotePackage,
    seen: PackageProgress,
    step: PackageStep,
)
    requires
        upgrade_step(b, package, seen, step),
    ensures
        seen.failed matches Some(e) ==> step == PackageStep::Failed(e),
        step is LoadKeys <==> seen.failed is None && !b.keys_synced,
        seen.failed is None && b.keys_synced && seen.installed is None ==> header_opened(
            b,
            package.package.name@,
            step,
        ),
        seen.failed is None && b.keys_synced && seen.installed is Some ==> {
            &&& archive_order(
                b,
                package.package.name@,
                package.package.network_size,
                seen,
                step,
            )
            &&& archive_failures(b, package.package.name@, seen, step)
        },
{
    if seen.failed is None && b.keys_synced && seen.installed is Some {
        lemma_archive_order(
            b,
            package.package.name@,
            package.package.network_size,
            seen,
            step,
        );
    }
}

/// The order of a removal: a protected package is refused, the keys are loaded, the header is
/// opened, the file operations are prepared, and the header is removed.
pub proof fn law_order_of_a_removal(
    b: PkgarBackendView,
    package: Seq<char>,
    seen: PackageProgress,
    step: PackageStep,
)
    requires
        uninstall_step(b, package, seen, step),
    ensures
        b.packages.protected.contains(package) ==> (step matches PackageStep::Failed(
            Error::ProtectedPackage(p),
        ) && p@ == package),
        !b.packages.protected.contains(package) ==> {
            let ready = seen.failed is None && b.keys_synced && seen.installed is Some;
            &&& seen.failed matches Some(e) ==> step == PackageStep::Failed(e)
            &&& step is LoadKeys <==> seen.failed is None && !b.keys_synced
            &&& seen.failed is None && b.keys_synced && seen.installed is None ==> header_opened(
                b,
                package,
                step,
            )
            &&& step is Prepare <==> ready && seen.head_removed is None && seen.transaction is None
            &&& step is RemoveHead <==> ready && seen.head_removed is None
                && seen.transaction is Some
            &&& step is Done <==> ready && (seen.head_removed matches Some(r) && r is Ok)
            &&& ready ==> (seen.head_removed matches Some(Err(io)) ==> (
            step matches PackageStep::Failed(e) && wraps_io(
                e,
                io,
                head_path(b.install_path, package),
                "Removing file"@,
            )))
        },
        step matches PackageStep::RemoveHead { path } ==> path@ == head_path(
            b.install_path,
            package,
        ),
        step !is FetchArchive && step !is OpenArchive && step !is WriteHead && step !is LoadIndex
            && step !is ReadPinnedKey,
{
}

/// Every archive is opened, and its header is written, with the key of the repository that it came
/// from, in an installation and in an upgrade.
pub proof fn law_archive_is_opened_with_the_key_of_its_repository(
    b: PkgarBackendView,
    package: RemotePackage,
    seen: PackageProgress,
    step: PackageStep,
)
    requires
        install_step(b, package, seen, step) || upgrade_step(b, package, seen, step),
    ensures
        step matches PackageStep::OpenArchive { path: p, key } ==> (seen.archive matches Some(
            (path, remote),
        ) && p@ == path@ && b.repo_manager.remote_map.contains_key(remote@)
            && b.repo_manager.remote_map[remote@].pubkey == Some(key@) && archive_key(
            b,
            seen.archive,
        ) == Some(key@)),
        step matches PackageStep::WriteHead { archive, key, .. } ==> (seen.archive matches Some(
            (path, remote),
        ) && archive@ == path@ && b.repo_manager.remote_map.contains_key(remote@)
            && b.repo_manager.remote_map[remote@].pubkey == Some(key@) && archive_key(
            b,
            seen.archive,
        ) == Some(key@)),
{
}

/// Whether what waits grew: nothing that waited, and no clash that was noted, is lost or moved.
pub open spec fn queue_kept(before: Option<QueueView>, after: Option<QueueView>) -> bool {
    before matches Some(q) ==> (after matches Some(q2) && q.actions.is_prefix_of(q2.actions)
        && q.clashes.is_prefix_of(q2.clashes))
}

/// Whether exactly these operations came to what waits: each of them is there under this origin, or
/// a clash on its path was noted under it; and whatever is there now and was not before is one of
/// them.
pub open spec fn queue_took(
    before: Option<QueueView>,
    after: Option<QueueView>,
    actions: Seq<FileAction>,
    origin: Option<Seq<char>>,
) -> bool {
    &&& after matches Some(q2)
    &&& queue_kept(before, after)
    &&& forall|i: int|
        0 <= i < actions.len() ==> q2.actions.contains(
            QueuedAction { action: #[trigger] actions[i], origin },
        ) || clash_noted(q2.clashes, actions[i].target, origin)
    &&& forall|k: int|
        0 <= k < q2.actions.len() ==> (before matches Some(q) && k < q.actions.len()) || ((
        #[trigger] q2.actions[k]).origin == origin && actions.contains(q2.actions[k].action))
    &&& q2.actions.len() + q2.clashes.len() == actions.len() + (match before {
        Some(q) => q.actions.len() + q.clashes.len(),
        None => 0,
    })
}

/// What comes to what waits neither displaces anything nor is lost.
pub proof fn law_queue_takes_what_comes(
    before: Option<QueueView>,
    actions: Seq<FileAction>,
    origin: Option<Seq<char>>,
)
    ensures
        queue_took(before, Some(queue_with(before, actions, origin)), actions, origin),
{
    let start = match before {
        Some(q) => q,
        None => QueueView { actions: Seq::empty(), clashes: Seq::empty() },
    };
    let q2 = queue_with(before, actions, origin);
    let new = clashes(start.actions, actions, origin);
    law_former_operations_stay(start.actions, actions, origin);
    law_nothing_is_lost_silently(start.actions, actions, origin);
    assert(q2.clashes =~= start.clashes + new);
    assert forall|i: int| 0 <= i < actions.len() implies q2.actions.contains(
        QueuedAction { action: #[trigger] actions[i], origin },
    ) || clash_noted(q2.clashes, actions[i].target, origin) by {
        if clash_noted(new, actions[i].target, origin) {
            let k = choose|k: int|
                0 <= k < new.len() && (#[trigger] new[k]).path == actions[i].target
                    && new[k].newer == origin;
            assert(q2.clashes[start.clashes.len() + k] == new[k]);
        }
    }
    assert forall|k: int| 0 <= k < q2.actions.len() implies (before matches Some(q) && k
        < q.actions.len()) || ((#[trigger] q2.actions[k]).origin == origin && actions.contains(
        q2.actions[k].action,
    )) by {
        if k >= start.actions.len() {
            lemma_merged_from(start.actions, actions, origin, k);
        }
    }
}

/// What is promised of the backend after a step about an archive: only the index and what waits can
/// change. The file operations of the archive come to what waits exactly when the archive may be
/// used and its header is written.
pub open spec fn archive_effect(
    b: PkgarBackendView,
    package: Seq<char>,
    seen: PackageProgress,
    origin: Option<Seq<char>>,
    after: PkgarBackendView,
) -> bool {
    &&& after.install_path == b.install_path
    &&& after.packages == b.packages
    &&& after.repo_manager == b.repo_manager
    &&& after.keys_synced == b.keys_synced
    &&& b.index is Some ==> after.index == b.index
    &&& !opened_archive(b, seen) ==> after.index == b.index
    &&& b.index is None && seen.key_file is None ==> after.index is None
    &&& b.index is None && opened_archive(b, seen) ==> (seen.key_file matches Some(file) ==> {
        &&& after.index == Some(None::<AcceptedIndexView>)
            <==> b.repo_manager.remotes.len() == 0 || !file_pins_some(file)
        &&& after.index matches Some(Some(index)) ==> (seen.index matches Some(Ok(i)) && i@ == index
            && (index.manifest.key matches Some(key) && file_pins(file, key) && signed_by(
            key,
            index.manifest.text,
        )))
        &&& b.repo_manager.remotes.len() > 0 && (seen.index matches Some(Ok(i))
            && i@.manifest.key matches Some(key) && file_pins(file, key) && signed_by(
            key,
            i@.manifest.text,
        )) ==> after.index == Some(Some(seen.index->0->Ok_0@))
    })
    &&& if cleared_archive(b, package, seen) && seen.transaction is Some && seen.head_written {
        queue_took(b.queue, after.queue, pending_actions(seen.transaction->0), origin)
    } else {
        after.queue == b.queue
    }
}

proof fn lemma_archive_effect(
    b: PkgarBackendView,
    package: Seq<char>,
    seen: PackageProgress,
    origin: PackageFile,
)
    ensures
        archive_effect(
            b,
            package,
            seen,
            Some(package_path(origin)),
            archive_stepped(b, package, seen, Some(origin)),
        ),
{
    if let Some(file) = seen.key_file {
        lemma_file_pins(file);
    }
    if let Some(t) = seen.transaction {
        law_queue_takes_what_comes(b.queue, pending_actions(t), Some(package_path(origin)));
    }
}

/// What an installation does to the backend: nothing of an archive comes to what waits before the
/// archive may be used and its header is written, then all of it does, under the path of the
/// archive; and nothing else changes but what is settled of the index.
pub proof fn law_effect_of_an_installation(
    b: PkgarBackendView,
    package: RemotePackage,
    seen: PackageProgress,
)
    ensures
        seen.failed is Some || !b.keys_synced || package.package.version@.len() == 0
            ==> install_stepped(b, package, seen) == b,
        seen.failed is None && b.keys_synced && package.package.version@.len() > 0
            && seen.opened is Some ==> archive_effect(
            b,
            package.package.name@,
            seen,
            Some(package_path(seen.opened->0)),
            install_stepped(b, package, seen),
        ),
        seen.opened is None ==> install_stepped(b, package, seen) == b,
{
    if let Some(opened) = seen.opened {
        lemma_archive_effect(b, package.package.name@, seen, opened);
    }
}

/// What an upgrade does to the backend: as an installation, under the path of the header that is
/// replaced.
pub proof fn law_effect_of_an_upgrade(
    b: PkgarBackendView,
    package: RemotePackage,
    seen: PackageProgress,
)
    ensures
        seen.failed is Some || !b.keys_synced || seen.installed is None ==> upgrade_stepped(
            b,
            package,
            seen,
        ) == b,
        seen.failed is None && b.keys_synced && seen.installed is Some ==> archive_effect(
            b,
            package.package.name@,
            seen,
            Some(package_path(seen.installed->0)),
            upgrade_stepped(b, package, seen),
        ),
{
    if let Some(installed) = seen.installed {
        lemma_archive_effect(b, package.package.name@, seen, installed);
    }
}

/// What a removal does to the backend: with the step that asks for the removal of the header, and
/// with no other, all file operations come to what waits, under the path of the header.
pub proof fn law_effect_of_a_removal(
    b: PkgarBackendView,
    package: Seq<char>,
    seen: PackageProgress,
    step: PackageStep,
)
    requires
        uninstall_step(b, package, seen, step),
    ensures
        step !is RemoveHead ==> uninstall_stepped(b, seen, step) == b,
        step is RemoveHead ==> {
            let after = uninstall_stepped(b, seen, step);
            &&& seen.transaction is Some && seen.installed is Some
            &&& queue_took(
                b.queue,
                after.queue,
                pending_actions(seen.transaction->0),
                Some(package_path(seen.installed->0)),
            )
            &&& after == (PkgarBackendView { queue: after.queue, ..b })
        },
{
    if let Some(t) = seen.transaction {
        if let Some(installed) = seen.installed {
            law_queue_takes_what_comes(b.queue, pending_actions(t), Some(package_path(installed)));
        }
    }
}

/// No step of an installation, an upgrade or a removal loses what waits.
pub proof fn law_no_step_loses_what_waits(
    b: PkgarBackendView,
    package: RemotePackage,
    seen: PackageProgress,
    name: Seq<char>,
    step: PackageStep,
)
    ensures
        queue_kept(b.queue, install_stepped(b, package, seen).queue),
        queue_kept(b.queue, upgrade_stepped(b, package, seen).queue),
        uninstall_step(b, name, seen, step) ==> queue_kept(
            b.queue,
            uninstall_stepped(b, seen, step).queue,
        ),
{
    law_effect_of_an_installation(b, package, seen);
    law_effect_of_an_upgrade(b, package, seen);
    if uninstall_step(b, name, seen, step) {
        law_effect_of_a_removal(b, name, seen, step);
    }
}

/// Two removals, or any two operations, one after the other: what the first brought to what waits
/// is there after the second.
pub proof fn law_two_operations_wait_together(
    first: Option<QueueView>,
    second: Option<QueueView>,
    third: Option<QueueView>,
    a: Seq<FileAction>,
    from_a: Option<Seq<char>>,
    b: Seq<FileAction>,
    from_b: Option<Seq<char>>,
    i: int,
)
    requires
        queue_took(first, second, a, from_a),
        queue_took(second, third, b, from_b),
        0 <= i < a.len(),
    ensures
        third is Some,
        third->0.actions.contains(QueuedAction { action: a[i], origin: from_a }) || clash_noted(
            third->0.clashes,
            a[i].target,
            from_a,
        ),
{
    let (q2, q3) = (second->0, third->0);
    let item = QueuedAction { action: a[i], origin: from_a };
    if q2.actions.contains(item) {
        let k = choose|k: int| 0 <= k < q2.actions.len() && q2.actions[k] == item;
        assert(q3.actions[k] == item);
    } else {
        let k = choose|k: int|
            0 <= k < q2.clashes.len() && (#[trigger] q2.clashes[k]).path == a[i].target
                && q2.clashes[k].newer == from_a;
        assert(q3.clashes[k] == q2.clashes[k]);
    }
}

/// The header of an archive is written before anything of the archive waits, in an installation and
/// in an upgrade: a step that brings something to what waits, or that is the last one of a package
/// with an archive, comes only with the header written; and where only that is left, it is asked
/// for.
pub proof fn law_header_is_written_before_anything_waits(
    b: PkgarBackendView,
    package: RemotePackage,
    seen: PackageProgress,
    step: PackageStep,
    after: PkgarBackendView,
)
    requires
        ({
            ||| install_step(b, package, seen, step) && after == install_stepped(b, package, seen)
                && package.package.version@.len() > 0
            ||| upgrade_step(b, package, seen, step) && after == upgrade_stepped(b, package, seen)
                && seen.installed is Some
        }),
    ensures
        after.queue != b.queue ==> seen.head_written,
        step is Done ==> seen.head_written && seen.transaction is Some,
        seen.failed is None && b.keys_synced && cleared_archive(b, package.package.name@, seen)
            && seen.transaction is Some && !seen.head_written ==> {
            &&& step matches PackageStep::WriteHead { archive, head, key }
            &&& seen.archive matches Some((path, remote))
            &&& archive@ == path@
            &&& head@ == head_path(b.install_path, package.package.name@)
            &&& b.repo_manager.remote_map[remote@].pubkey == Some(key@)
        },
{
    if let Some(file) = seen.key_file {
        lemma_file_pins(file);
    }
}

/// What is left of the notes after a step of an installation or an upgrade: an index that was
/// wanted is used up, the file operations are once they wait, a failure is once it was told, and
/// nothing else changes.
pub open spec fn notes_left(
    b: PkgarBackendView,
    package: Seq<char>,
    seen: PackageProgress,
    about_archive: bool,
    left: PackageProgress,
) -> bool {
    &&& left.failed is None
    &&& left.installed == seen.installed
    &&& left.archive == seen.archive
    &&& left.opened == seen.opened
    &&& left.key_file == seen.key_file
    &&& left.head_written == seen.head_written
    &&& left.head_removed == seen.head_removed
    &&& if about_archive && opened_archive(b, seen) && b.index is None
        && b.repo_manager.remotes.len() > 0 && (seen.key_file matches Some(file) && file_pins_some(
        file,
    )) {
        left.index is None
    } else {
        left.index == seen.index
    }
    &&& if about_archive && cleared_archive(b, package, seen) && seen.head_written {
        left.transaction is None
    } else {
        left.transaction == seen.transaction
    }
}

/// No step changes what the caller noted, but for what it used up.
pub proof fn law_steps_keep_the_notes(
    b: PkgarBackendView,
    package: RemotePackage,
    name: Seq<char>,
    seen: PackageProgress,
)
    ensures
        notes_left(
            b,
            package.package.name@,
            seen,
            seen.failed is None && b.keys_synced && package.package.version@.len() > 0,
            install_left(b, package, seen),
        ),
        notes_left(
            b,
            package.package.name@,
            seen,
            seen.failed is None && b.keys_synced && seen.installed is Some,
            upgrade_left(b, package, seen),
        ),
        ({
            let left = uninstall_left(b, name, seen);
            let ready = !b.packages.protected.contains(name) && seen.failed is None
                && b.keys_synced && seen.installed is Some;
            &&& left == (PackageProgress {
                failed: left.failed,
                head_removed: left.head_removed,
                transaction: left.transaction,
                ..seen
            })
            &&& left.failed == (if b.packages.protected.contains(name) {
                seen.failed
            } else {
                None
            })
            &&& ready && seen.head_removed is Some ==> left.head_removed is None
            &&& !(ready && seen.head_removed is Some) ==> left.head_removed == seen.head_removed
            &&& ready && seen.head_removed is None ==> left.transaction is None
            &&& !(ready && seen.head_removed is None) ==> left.transaction == seen.transaction
        }),
{
    if let Some(file) = seen.key_file {
        lemma_file_pins(file);
    }
}

/// Keys that are known from earlier are used: a repository without a key gets the one that is known
/// under its name. No key is replaced, and nothing else changes.
pub proof fn law_known_keys_are_used(
    m: RepoManagerView,
    known: Map<Seq<char>, Seq<u8>>,
    name: Seq<char>,
)
    ensures
        ({
            let r = with_known_keys(m, known);
            &&& r.remotes == m.remotes
            &&& r.locals == m.locals
            &&& r.download_path == m.download_path
            &&& r.remote_map.contains_key(name) <==> m.remote_map.contains_key(name)
            &&& m.remote_map.contains_key(name) ==> {
                let (old_entry, entry) = (m.remote_map[name], r.remote_map[name]);
                &&& entry.path == old_entry.path
                &&& entry.pubpath == old_entry.pubpath
                &&& entry.name == old_entry.name
                &&& old_entry.pubkey is Some ==> entry.pubkey == old_entry.pubkey
                &&& old_entry.pubkey is None && known.contains_key(name) ==> entry.pubkey == Some(
                    known[name],
                )
                &&& old_entry.pubkey is None && !known.contains_key(name) ==> entry.pubkey is None
            }
        }),
{
}

/// Whether what is known permits an archive with this hash: the index that was settled before
/// decides, or, where none was, one that was loaded now and is signed with the pinned key; without
/// a pinned key or a repository on the network there is none to ask.
pub open spec fn index_clears(
    b: PkgarBackendView,
    package: Seq<char>,
    hash: Seq<u8>,
    key_file: Option<Option<String>>,
    loaded: Option<Result<AcceptedIndex, Error>>,
) -> bool {
    match b.index {
        Some(Some(index)) => vouches_for(index.repository.packages@, package, hash),
        Some(None) => true,
        None => key_file matches Some(file) && (b.repo_manager.remotes.len() == 0
            || !file_pins_some(file) || (loaded matches Some(Ok(index))
            && index@.manifest.key matches Some(key) && file_pins(file, key) && signed_by(
            key,
            index@.manifest.text,
        ) && vouches_for(index@.repository.packages@, package, hash))),
    }
}

/// The steps of a comparison with the index: the key file is read where nothing is settled, the
/// index is loaded where a key is pinned and there is a repository on the network, and an archive
/// may be used exactly if what is known then permits it.
pub proof fn law_order_of_a_comparison(
    b: PkgarBackendView,
    package: Seq<char>,
    hash: Seq<u8>,
    key_file: Option<Option<String>>,
    loaded: Option<Result<AcceptedIndex, Error>>,
    step: IndexStep,
)
    requires
        index_step(b, package, hash, looked_up(key_file), loaded_index(loaded), step),
    ensures
        step is ReadPinnedKey <==> b.index is None && key_file is None,
        step matches IndexStep::ReadPinnedKey { path } ==> path@ == path_join(
            b.install_path,
            REPO_SIGN_PUBKEY_PATH@,
        ),
        step is LoadIndex <==> b.index is None && loaded is None && b.repo_manager.remotes.len() > 0
            && (key_file matches Some(file) && file_pins_some(file)),
        (step matches IndexStep::Answer(r) && r is Ok) <==> index_clears(
            b,
            package,
            hash,
            key_file,
            loaded,
        ),
        b.index matches Some(Some(index)) ==> {
            &&& !index.repository.packages@.contains_key(package) ==> (step matches IndexStep::Answer(
                Err(Error::PackageNotInManifest(p)),
            ) && p@ == package)
            &&& index.repository.packages@.contains_key(package) && !vouches_for(
                index.repository.packages@,
                package,
                hash,
            ) ==> (step matches IndexStep::Answer(
                Err(Error::ManifestHashMismatch { package: p, expected, actual }),
            ) && p@ == package && expected@ == index.repository.packages@[package] && actual@
                == small_hex(hash))
        },
{
    if let Some(file) = key_file {
        lemma_file_pins(file);
    }
}

/// What is told of a commit or of giving it up: each begins with its own notice and the number of
/// file operations, and ends with its own notice.
pub proof fn law_commit_and_abort_are_told_apart(notice: Notice, count: nat)
    ensures
        is_start_notice(notice, Fate::Commit, count) <==> (notice matches Notice::CommitStart(n) && n
            == count),
        is_start_notice(notice, Fate::Abort, count) <==> (notice matches Notice::AbortStart(n) && n
            == count),
        end_notice(Fate::Commit) == Notice::CommitEnd,
        end_notice(Fate::Abort) == Notice::AbortEnd,
{
}

/// A commit goes on while file operations are left, each after its notice, and is finished with the
/// number of those that were carried out exactly when none is left. A failure ends it, and is told.
pub proof fn law_order_of_a_commit(
    fate: Fate,
    transaction: Transaction,
    failure: Option<PkgarError>,
    step: CommitStep,
)
    requires
        commit_step_for(fate, transaction, failure, step),
    ensures
        step is Failed <==> failure is Some,
        failure matches Some(e) ==> step == CommitStep::Failed(Error::Pkgar(e)),
        step is TryOne <==> failure is None && pending_actions(transaction).len() > 0,
        step matches CommitStep::TryOne { transaction: t, notice } ==> t == transaction && notice
            == Notice::CommitIncrement,
        step is Finished <==> failure is None && pending_actions(transaction).len() == 0,
        step matches CommitStep::Finished { total, notice } ==> total == committed_count(transaction)
            && match fate {
            Fate::Commit => notice == Notice::CommitEnd,
            Fate::Abort => notice == Notice::AbortEnd,
        },
{
}

proof fn lemma_recorded(known: Map<Seq<char>, Seq<u8>>, m: RepoManager, count: int, name: Seq<char>)
    requires
        m.remote_map.wf(),
        0 <= count <= m.remote_map.names().len(),
    ensures
        ({
            let r = keys_recorded(known, m, count);
            &&& forall|i: int|
                0 <= i < count ==> r.contains_key(#[trigger] m.remote_map.names()[i])
                    && r[m.remote_map.names()[i]] == m.entry_at(i).pubkey->0
            &&& !m.remote_map.names().take(count).contains(name) ==> (r.contains_key(name)
                <==> known.contains_key(name)) && r[name] == known[name]
        }),
    decreases count,
{
    m.remote_map.lemma_names();
    if count > 0 {
        lemma_recorded(known, m, count - 1, name);
        let names = m.remote_map.names();
        assert(names.take(count)[count - 1] == names[count - 1]);
        assert(names.take(count).contains(names[count - 1]));
        let fewer = names.take(count - 1);
        if fewer.contains(name) {
            let i = choose|i: int| 0 <= i < fewer.len() && fewer[i] == name;
            assert(names.take(count)[i] == name);
        }
    }
}

/// A new state is taken over with the keys of all repositories before the first one without a key,
/// each under its name; every other key is the one of the new state. Nothing else of the backend
/// changes.
pub proof fn law_new_state_is_taken_over(
    b: PkgarBackendView,
    m: RepoManager,
    new_state: PackageStateView,
    first: int,
    name: Seq<char>,
)
    requires
        m.remote_map.wf(),
        0 <= first <= m.remote_map.names().len(),
        forall|i: int| 0 <= i < first ==> (#[trigger] m.entry_at(i)).pubkey is Some,
        first < m.remote_map.names().len() ==> m.entry_at(first).pubkey is None,
    ensures
        m.next_keyless(0) == first,
        ({
            let after = state_committed(b, m, new_state);
            &&& after.packages.installed == new_state.installed
            &&& after.packages.protected == new_state.protected
            &&& forall|i: int|
                0 <= i < first ==> after.packages.pubkeys.contains_key(
                    #[trigger] m.remote_map.names()[i],
                ) && m.entry_at(i).pubkey == Some(
                    after.packages.pubkeys[m.remote_map.names()[i]],
                )
            &&& !m.remote_map.names().take(first).contains(name) ==> (
            after.packages.pubkeys.contains_key(name) <==> new_state.pubkeys.contains_key(name))
                && after.packages.pubkeys[name] == new_state.pubkeys[name]
            &&& after.install_path == b.install_path
            &&& after.repo_manager == b.repo_manager
            &&& after.queue == b.queue
            &&& after.keys_synced == b.keys_synced
            &&& after.index == b.index
        }),
{
    lemma_next_to_load(m, 0, false);
    let at = m.next_keyless(0);
    if at < first {
        assert(m.entry_at(at).pubkey is Some);
    }
    if at > first {
        assert(!is_to_load(m.entry_at(first), false));
    }
    lemma_recorded(new_state.pubkeys, m, first, name);
    assert forall|i: int| 0 <= i < first implies state_committed(
        b,
        m,
        new_state,
    ).packages.pubkeys.contains_key(#[trigger] m.remote_map.names()[i]) && m.entry_at(i).pubkey
        == Some(state_committed(b, m, new_state).packages.pubkeys[m.remote_map.names()[i]]) by {
        assert(m.entry_at(i).pubkey is Some);
    }
}

} // verus!
