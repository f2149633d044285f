//! What callers can rely on, of the functions that decide about names, files and trust.
use crate::commit_queue::FileConflict;
use crate::error::{wraps_io, Error, IoError};
use crate::fetch::{
    download_file, law_scratch_files_are_unique, ArchiveSource, FetchStep, LocalSearch, Placed,
    RemoteDownload, TextSource,
};
use crate::hexadecimal::{decoded_hex, small_hex};
use crate::index::{
    check_against_index, check_manifest_freshness, freshness_state, get_repository_detail,
    index_enforcement_applies, law_index_vouches_for_what_it_lists,
    law_written_watermark_reads_back, manifest_refusal, opt_text, pinned_manifest_key,
    record_manifest_serial, signed_by, verify_repo_manifest, watermark_of, AcceptedIndex,
    AcceptedIndexView, TrustedManifest,
};
use crate::manifest_sig::{
    ed25519_key_accepted, ed25519_strictly_accepted, field_bytes, load_pinned_ed25519,
    manifest_verdict, signature_to_check, signature_verdict, verify_manifest_ed25519,
};
use crate::net_backend::{after_download, DownloadError, PartAction};
use crate::package::{
    law_which_texts_name_a_package, Package, PackageError, PackageName, RemoteName, RemotePackage,
    Repository,
};
use crate::package_state::PackageState;
use crate::path::path_join;
use crate::pkgar_backend::{
    get_package_detail, require_pubkey, PkgarBackend, QueueView, RootSetup,
};
use crate::private_dir::{ensure_private_dir, DirMeta, DirOp, DirSetup, PrivateDir};
use crate::repo_manager::{RemotePath, RepoManager, RepoPublicKey};
use crate::{PACKAGES_HEAD_DIR, PACKAGES_REMOTE_DIR, REPO_SIGN_PUBKEY_PATH, REPO_STATE_PATH};
use vstd::prelude::*;
use vstd::utf8::{decode_utf8, encode_utf8, valid_utf8};

verus! {

/// A text is accepted as the name of a package exactly if it can be one component of a path: it is
/// not empty, holds neither a slash nor a NUL nor two dots, and no colon but the one of a leading
/// `host:`. The name is the text.
pub proof fn law_accepted_package_name(text: &str, r: Result<PackageName, PackageError>)
    requires
        call_ensures(PackageName::new, (text,), r),
    ensures
        r is Ok <==> {
            &&& text@.len() > 0
            &&& forall|i: int|
                0 <= i < text@.len() ==> #[trigger] text@[i] != '/' && text@[i] != '\0' && (text@[i]
                    == ':' ==> i == 4 && text@[0] == 'h' && text@[1] == 'o' && text@[2] == 's'
                    && text@[3] == 't')
            &&& forall|i: int, j: int|
                0 <= i < j < text@.len() ==> !(#[trigger] text@[i] == '.' && #[trigger] text@[j]
                    == '.')
        },
        r matches Ok(name) ==> name@ == text@,
        r matches Err(e) ==> (e matches PackageError::PackageNameInvalid(t) && t@ == text@),
{
    law_which_texts_name_a_package(text@);
}

/// An index with a lower serial than one that was accepted is refused as a rollback, one whose
/// expiry has passed as expired, and every other one is acted on.
pub proof fn law_stale_index_is_refused(
    serial: u64,
    expires: u64,
    watermark: u64,
    now: u64,
    r: Result<(), Error>,
)
    requires
        call_ensures(check_manifest_freshness, (serial, expires, watermark, now), r),
    ensures
        r is Ok <==> serial >= watermark && !(0 < expires < now),
        serial < watermark ==> (r matches Err(Error::RepoManifestRollback { got, seen }) && got
            == serial && seen == watermark),
        serial >= watermark && 0 < expires < now ==> (r matches Err(
            Error::RepoManifestExpired { expires: e, now: n },
        ) && e == expires && n == now),
{
}

/// The index is enforced only with a pinned key and a repository on the network.
pub proof fn law_when_the_index_is_enforced(has_pinned_key: bool, has_remotes: bool, r: bool)
    requires
        call_ensures(index_enforcement_applies, (has_pinned_key, has_remotes), r),
    ensures
        r <==> has_pinned_key && has_remotes,
{
}

/// An archive passes exactly if the index lists its package with a text that decodes to the hash of
/// its header. A package that is not listed, and a hash that differs, are told.
pub proof fn law_unlisted_archive_is_refused(
    index: &Repository,
    package: &PackageName,
    hash: [u8; 32],
    r: Result<(), Error>,
)
    requires
        call_ensures(check_against_index, (index, package, hash), r),
    ensures
        r is Ok <==> index.packages@.contains_key(package@) && decoded_hex(
            index.packages@[package@],
        ) == Some(hash@),
        !index.packages@.contains_key(package@) ==> (r matches Err(Error::PackageNotInManifest(p))
            && p@ == package@),
        index.packages@.contains_key(package@) && r is Err ==> (r matches Err(
            Error::ManifestHashMismatch { package: p, expected, actual },
        ) && p@ == package@ && expected@ == index.packages@[package@] && actual@ == small_hex(hash@)),
{
    law_index_vouches_for_what_it_lists(index.packages@, package@, hash@);
}

/// Without a state file nothing was accepted yet, and without a clock no time is known: both count
/// as zero. Otherwise they are what they say.
pub proof fn law_missing_state_and_clock_count_as_zero(
    state: Option<&str>,
    clock: Option<u64>,
    r: (u64, u64),
)
    requires
        call_ensures(freshness_state, (state, clock), r),
    ensures
        state is None ==> r.0 == 0,
        state matches Some(text) ==> r.0 == watermark_of(Some(text@)),
        clock is None ==> r.1 == 0,
        clock matches Some(now) ==> r.1 == now,
{
}

/// The state file is written exactly for a serial that is higher than the recorded one, and then it
/// records that serial.
pub proof fn law_only_a_higher_serial_is_recorded(
    serial: u64,
    state: Option<&str>,
    r: Option<String>,
)
    requires
        call_ensures(record_manifest_serial, (serial, state), r),
    ensures
        r is Some <==> serial > watermark_of(opt_text(state)),
        r matches Some(text) ==> watermark_of(Some(text@)) == serial,
{
    law_written_watermark_reads_back(serial);
}

/// A key is pinned exactly by a key file that could be read and has an ed25519 field of 32 bytes,
/// and the key is those bytes.
pub proof fn law_which_key_is_pinned(
    key_file: Option<&str>,
    text: &str,
    r: Option<[u8; 32]>,
    direct: Option<[u8; 32]>,
)
    requires
        call_ensures(pinned_manifest_key, (key_file,), r),
        call_ensures(load_pinned_ed25519, (text,), direct),
    ensures
        key_file is None ==> r is None,
        key_file matches Some(t) ==> (r is Some <==> (field_bytes(t@, "ed25519"@) matches Some(b)
            && b.len() == 32)),
        key_file matches Some(t) ==> (r matches Some(key) ==> field_bytes(t@, "ed25519"@) == Some(
            key@,
        )),
        direct is Some <==> (field_bytes(text@, "ed25519"@) matches Some(b) && b.len() == 32),
        direct matches Some(key) ==> field_bytes(text@, "ed25519"@) == Some(key@),
{
}

/// A signature file is good for a manifest exactly if the key is usable, the file has an ed25519
/// field of 64 bytes, and these are a strictly valid signature of the bytes of the manifest under
/// the key.
pub proof fn law_which_signature_is_good(
    pinned: &[u8; 32],
    manifest: &[u8],
    sig_toml: &str,
    r: Result<(), &'static str>,
)
    requires
        call_ensures(verify_manifest_ed25519, (pinned, manifest, sig_toml), r),
    ensures
        r is Ok <==> ed25519_key_accepted(pinned@) && (field_bytes(
            sig_toml@,
            "ed25519"@,
        ) matches Some(sig) && sig.len() == 64 && ed25519_strictly_accepted(
            pinned@,
            manifest@,
            sig,
        )),
{
}

/// A signature is looked for only with a usable key, and it is the ed25519 field of the file, if
/// that has 64 bytes. The verdict on it is whether it is valid.
pub proof fn law_which_signature_is_checked(
    usable: bool,
    sig_toml: &str,
    r: Result<[u8; 64], &'static str>,
    valid: bool,
    verdict: Result<(), &'static str>,
)
    requires
        call_ensures(signature_to_check, (usable, sig_toml), r),
        call_ensures(signature_verdict, (valid,), verdict),
    ensures
        r is Ok <==> usable && (field_bytes(sig_toml@, "ed25519"@) matches Some(b) && b.len() == 64),
        r matches Ok(sig) ==> field_bytes(sig_toml@, "ed25519"@) == Some(sig@),
        verdict is Ok <==> valid,
{
}

/// A manifest without a signature is refused as unsigned, and one with a bad signature with the
/// reason.
pub proof fn law_refused_manifest_is_told_why(
    verdict: Option<Result<(), &'static str>>,
    r: Result<(), Error>,
)
    requires
        call_ensures(manifest_refusal, (verdict,), r),
    ensures
        verdict is None ==> (r matches Err(e) && e is RepoManifestUnsigned),
        verdict matches Some(Err(why)) ==> (r matches Err(Error::RepoManifestSigInvalid(told)) && told
            == why),
        verdict matches Some(v) ==> (v is Ok <==> r is Ok),
{
}

/// Without a pinned key a manifest is taken as it is. With one it is trusted exactly if its
/// signature is there and is strictly valid under that key: a missing signature is never good. The
/// text that is trusted is the text of the manifest, and a key vouches for it only if it is the
/// pinned one.
pub proof fn law_which_manifest_is_trusted(
    manifest: String,
    pinned: Option<[u8; 32]>,
    signature: Option<&str>,
    r: Result<TrustedManifest, Error>,
)
    requires
        call_ensures(verify_repo_manifest, (manifest, pinned, signature), r),
    ensures
        pinned is None ==> r is Ok,
        pinned matches Some(key) ==> (r is Ok <==> (signature matches Some(sig)
            && ed25519_key_accepted(key@) && (field_bytes(sig@, "ed25519"@) matches Some(bytes)
            && bytes.len() == 64 && ed25519_strictly_accepted(
            key@,
            encode_utf8(manifest@),
            bytes,
        )))),
        pinned is Some && signature is None ==> (r matches Err(e) && e is RepoManifestUnsigned),
        pinned is Some && signature is Some && r is Err ==> (r matches Err(e)
            && e is RepoManifestSigInvalid),
        r matches Ok(trusted) ==> trusted@.text == manifest@,
        r matches Ok(trusted) ==> (trusted@.key is Some <==> pinned is Some),
        r matches Ok(trusted) ==> (pinned matches Some(key) ==> trusted@.key == Some(key@) && signed_by(
            key@,
            manifest@,
        )),
{
    if r is Ok && pinned is Some {
        assert(manifest_verdict(pinned->0@, encode_utf8(manifest@), signature->0@) is Ok);
    }
}

/// An index is accepted exactly if it could be parsed and is fresh. It is the one that was parsed,
/// from the manifest that was given; a serial that is higher than all before is to be recorded; and
/// an expiry that could not be checked for want of a clock is told.
pub proof fn law_which_index_is_accepted(
    manifest: TrustedManifest,
    parsed: Result<Repository, Error>,
    state: Option<&str>,
    clock: Option<u64>,
    r: Result<AcceptedIndex, Error>,
)
    requires
        call_ensures(get_repository_detail, (manifest, parsed, state, clock), r),
    ensures
        parsed matches Err(e) ==> r == Err::<AcceptedIndex, Error>(e),
        parsed matches Ok(repo) ==> {
            let mark = watermark_of(opt_text(state));
            &&& r is Ok <==> repo.serial >= mark && !(clock matches Some(now) && 0 < repo.expires
                < now)
            &&& repo.serial < mark ==> (r matches Err(e) && e is RepoManifestRollback)
            &&& repo.serial >= mark && r is Err ==> (r matches Err(e) && e is RepoManifestExpired)
            &&& r matches Ok(index) ==> {
                &&& index@.repository == repo
                &&& index@.manifest == manifest@
                &&& index@.record is Some <==> repo.serial > mark
                &&& index@.record matches Some(text) ==> watermark_of(Some(text)) == repo.serial
                &&& index@.expiry_skipped <==> repo.expires > 0 && (clock is None || clock == Some(
                    0u64,
                ))
            }
        },
{
    if let Ok(repo) = parsed {
        law_written_watermark_reads_back(repo.serial);
    }
}

/// An archive from this machine is used where it is. One from the network is used where it was
/// downloaded to. Where no repository has it, the package is told as missing, and any other failure
/// as it is.
pub proof fn law_where_an_archive_is(
    m: &RepoManager,
    package: &PackageName,
    dst_path: String,
    source: ArchiveSource,
    r: Result<(String, RemoteName), Error>,
)
    requires
        call_ensures(RepoManager::sync_pkgar, (m, package, dst_path, source), r),
    ensures
        source matches ArchiveSource::Local { remote, path } ==> r == Ok::<
            (String, RemoteName),
            Error,
        >((path, remote)),
        source matches ArchiveSource::Remote { outcome: Ok(remote) } ==> r == Ok::<
            (String, RemoteName),
            Error,
        >((dst_path, remote)),
        source matches ArchiveSource::Remote { outcome: Err(cause) } ==> (r matches Err(e) && if cause
            is ValidRepoNotFound {
            e matches Error::Package(PackageError::PackageNotFound(p)) && p@ == package@
        } else {
            e == cause
        }),
        source matches ArchiveSource::NoDestination(io) ==> (r matches Err(e) && wraps_io(
            e,
            io,
            dst_path@,
            "Creating"@,
        )),
{
}

/// The description of a package is the text that came from where it was found. Where no repository
/// has it, the package is told as missing, and any other failure as it is.
pub proof fn law_what_describes_a_package(
    m: &RepoManager,
    package: &PackageName,
    source: TextSource,
    r: Result<(String, RemoteName), Error>,
)
    requires
        call_ensures(RepoManager::get_package_toml, (m, package, source), r),
    ensures
        source matches TextSource::Local { remote, path, read: Ok(text) } ==> r == Ok::<
            (String, RemoteName),
            Error,
        >((text, remote)),
        source matches TextSource::Local { remote, path, read: Err(io) } ==> (r matches Err(e)
            && wraps_io(e, io, path@, "Reading"@)),
        source matches TextSource::Remote { outcome: Ok(remote), bytes } ==> if valid_utf8(bytes@) {
            r matches Ok((text, from)) && text@ == decode_utf8(bytes@) && from == remote
        } else {
            r matches Err(Error::ContentIsNotValidUnicode(file)) && file@ == package@ + ".toml"@
        },
        source matches TextSource::Remote { outcome: Err(cause), bytes } ==> (r matches Err(e) && if cause
            is ValidRepoNotFound {
            e matches Error::Package(PackageError::PackageNotFound(p)) && p@ == package@
        } else {
            e == cause
        }),
{
}

/// An archive of a repository on this machine stays where it is. One from the network ends up in
/// the download directory under the name of its repository and its package, and is renamed only
/// where it is not there already. A repository that is not known is told.
pub proof fn law_where_an_archive_ends_up(
    m: &RepoManager,
    package: &PackageName,
    local_path: String,
    remote: &str,
    r: Result<Placed<'_>, Error>,
)
    requires
        call_ensures(RepoManager::get_package_pkgar, (m, package, local_path, remote), r),
    ensures
        r is Ok <==> m@.remote_map.contains_key(remote@),
        r matches Err(e) ==> (e matches Error::RepoCacheNotFound(p) && p@ == package@),
        r matches Ok(placed) ==> {
            let entry = m@.remote_map[remote@];
            let named = download_file(m@.download_path, entry.name, package@, "pkgar"@);
            &&& placed.remote@ == entry
            &&& entry.pubpath.len() == 0 ==> placed.path == local_path && placed.rename_from is None
            &&& entry.pubpath.len() > 0 ==> {
                &&& placed.path@ == named
                &&& placed.rename_from is None <==> local_path@ == named
                &&& placed.rename_from matches Some(from) ==> from == local_path
            }
        },
{
}

/// A search begins with all repositories on this machine that have files, and a download with all
/// those on the network, each in their order and with the file below its own path.
pub proof fn law_where_a_file_is_looked_for(
    m: &RepoManager,
    file: &str,
    dir: &PrivateDir,
    search: LocalSearch,
    download: RemoteDownload,
    i: int,
)
    requires
        call_ensures(RepoManager::local_search, (m, file, dir), search),
        call_ensures(RepoManager::download, (m, file, dir), download),
    ensures
        search@.len() == m@.with_files(m@.locals).len(),
        download@.len() == m@.with_files(m@.remotes).len(),
        0 <= i < search@.len() ==> {
            let name = m@.with_files(m@.locals)[i];
            search@[i] == (name, path_join(m@.remote_map[name].path, file@))
        },
        0 <= i < download@.len() ==> {
            let name = m@.with_files(m@.remotes)[i];
            download@[i] == (name, m@.remote_map[name].path + "/"@ + file@)
        },
{
}

/// A temporary file is moved into place exactly after a download that succeeded. After any other
/// one it is deleted, and the failure is told.
pub proof fn law_failed_download_is_discarded(result: Result<(), DownloadError>, r: PartAction)
    requires
        call_ensures(after_download, (result,), r),
    ensures
        r is Publish <==> result is Ok,
        result matches Err(e) ==> r == PartAction::Discard(e),
{
}

/// A failure of the HTTP client is a timeout if it says so, otherwise the status if it comes from
/// one, otherwise what it says.
pub proof fn law_what_a_download_failed_with(
    timeout: bool,
    by_status: bool,
    status: Option<u16>,
    text: String,
    r: DownloadError,
)
    requires
        call_ensures(DownloadError::classify, (timeout, by_status, status, text), r),
    ensures
        r is Timeout <==> timeout,
        !timeout && by_status ==> (r matches DownloadError::HttpStatus(s) && (status matches Some(n)
            ==> s == n) && (status is None ==> s == 500)),
        !timeout && !by_status ==> (r matches DownloadError::Reqwest(t) && t@ == text@),
{
}

/// A download directory is accepted exactly if there is nothing there, or a directory that is no
/// link and belongs to us. A new one is created and closed to all others; one that others can write
/// into is closed to them.
pub proof fn law_which_download_dir_is_accepted(
    path: &str,
    us: u32,
    meta: Result<DirMeta, IoError>,
    r: Result<DirSetup, Error>,
)
    requires
        call_ensures(ensure_private_dir, (path, us, meta), r),
    ensures
        r is Ok <==> match meta {
            Err(e) => e.kind is NotFound,
            Ok(m) => m.is_dir && !m.is_symlink && m.uid == us,
        },
        r matches Ok(setup) ==> setup@.0 == path@ && match meta {
            Err(_) => setup@.1 == seq![DirOp::CreateAll, DirOp::SetMode(0o700)],
            Ok(m) => {
                &&& m.mode & 0o022 == 0 ==> setup@.1.len() == 0
                &&& m.mode & 0o022 != 0 ==> setup@.1 == seq![DirOp::SetMode(m.mode & !0o022u32)]
            },
        },
{
}

/// A repository is used only with its key.
pub proof fn law_repository_without_a_key_is_not_used(
    repo: &RemotePath,
    r: Result<&RepoPublicKey, Error>,
)
    requires
        call_ensures(require_pubkey, (repo,), r),
    ensures
        r is Ok <==> repo.pubkey is Some,
        r matches Ok(key) ==> (repo.pubkey matches Some(own) && key@ == own@),
        r matches Err(e) ==> (e matches Error::RepoNotLoaded(name) && name@ == repo.name@),
{
}

/// A new backend has an empty queue, loads its keys first, and has not settled what the index is.
pub proof fn law_new_backend_starts_afresh(
    install_path: String,
    repo_manager: RepoManager,
    packages: PackageState,
    setup: RootSetup,
    r: Result<PkgarBackend, Error>,
)
    requires
        call_ensures(PkgarBackend::new, (install_path, repo_manager, packages, setup), r),
    ensures
        r is Ok <==> setup is Ready,
        r matches Ok(b) ==> {
            &&& b@.install_path == install_path@
            &&& b@.packages == packages@
            &&& b@.repo_manager == repo_manager@
            &&& b@.queue matches Some(QueueView { actions, clashes })
            &&& actions.len() == 0
            &&& clashes.len() == 0
            &&& !b@.keys_synced
            &&& b@.index is None
        },
{
}

/// A commit comes to the number of file operations that were carried out, unless the new state
/// could not be written.
pub proof fn law_what_a_commit_comes_to(
    b: &PkgarBackend,
    written: Result<(), IoError>,
    committed: usize,
    r: Result<usize, Error>,
)
    requires
        call_ensures(PkgarBackend::state_written, (b, written, committed), r),
    ensures
        r is Ok <==> written is Ok,
        r matches Ok(n) ==> n == committed,
        written matches Err(io) ==> (r matches Err(e) && wraps_io(
            e,
            io,
            b@.install_path,
            "Writing"@,
        )),
{
}

/// A package is described as it was parsed, with the repository that described it.
pub proof fn law_package_keeps_its_repository(
    parsed: Result<Package, Error>,
    remote: RemoteName,
    r: Result<RemotePackage, Error>,
)
    requires
        call_ensures(get_package_detail, (parsed, remote), r),
    ensures
        r is Ok <==> parsed is Ok,
        parsed matches Ok(package) ==> (r matches Ok(p) && p.package == package && p.remote == remote),
        parsed matches Err(e) ==> r == Err::<RemotePackage, Error>(e),
{
}

/// A package must stay exactly if it is among those that must.
pub proof fn law_which_package_must_stay(state: &PackageState, package: &PackageName, r: bool)
    requires
        call_ensures(PackageState::is_protected, (state, package), r),
    ensures
        r <==> exists|i: int|
            0 <= i < state.protected@.len() && (#[trigger] state.protected@[i])@ == package@,
{
    let names = state@.protected;
    if names.contains(package@) {
        let i = choose|i: int| 0 <= i < names.len() && names[i] == package@;
        assert(state.protected@[i]@ == package@);
    }
    if exists|i: int|
        0 <= i < state.protected@.len() && (#[trigger] state.protected@[i])@ == package@ {
        let i = choose|i: int|
            0 <= i < state.protected@.len() && (#[trigger] state.protected@[i])@ == package@;
        assert(names[i] == package@);
    }
}

/// The clashes that are told are those that were noted, in their order. Without a queue that is
/// told.
pub proof fn law_all_clashes_are_told(
    b: &PkgarBackend,
    r: Result<Vec<FileConflict>, Error>,
    i: int,
)
    requires
        call_ensures(PkgarBackend::commit_check_conflict, (b,), r),
    ensures
        r is Ok <==> b@.queue is Some,
        r matches Ok(told) ==> told@.len() == b@.queue->0.clashes.len() && (0 <= i < told@.len()
            ==> told@[i]@ == b@.queue->0.clashes[i]),
        r matches Err(e) ==> (e matches Error::Pkgar(cause) && cause is DataNotInitialized),
{
    if let Ok(told) = r {
        let views = told@.map_values(|c: FileConflict| c@);
        assert(views == b@.queue->0.clashes);
        if 0 <= i < told@.len() {
            assert(views[i] == told@[i]@);
        }
    }
}

/// Where the backend has its files: below the install root, each at its own place.
pub proof fn law_where_the_backend_has_its_files(
    b: &PkgarBackend,
    package: &PackageName,
    head: String,
    key: String,
    state: String,
)
    requires
        call_ensures(PkgarBackend::head_file, (b, package), head),
        call_ensures(PkgarBackend::pinned_key_path, (b,), key),
        call_ensures(PkgarBackend::state_path, (b,), state),
    ensures
        head@ == path_join(
            path_join(b@.install_path, PACKAGES_HEAD_DIR@),
            package@ + ".pkgar_head"@,
        ),
        key@ == path_join(b@.install_path, REPO_SIGN_PUBKEY_PATH@),
        state@ == path_join(b@.install_path, REPO_STATE_PATH@),
{
}

/// Where files are looked for: the lists of repositories and the installer's key below the install
/// root, a key by its usual name, and what belongs to a package under the name of the package.
pub proof fn law_where_files_are(
    root: &str,
    package: &PackageName,
    lists: String,
    installer: String,
    key: String,
    toml: String,
    pkgar: String,
)
    requires
        call_ensures(RepoManager::sources_dir, (root,), lists),
        call_ensures(RepoManager::installer_key_dir, (root,), installer),
        call_ensures(RepoManager::local_key_path, (root,), key),
        call_ensures(RepoManager::toml_file, (package,), toml),
        call_ensures(RepoManager::pkgar_file, (package,), pkgar),
    ensures
        lists@ == path_join(root@, PACKAGES_REMOTE_DIR@),
        installer@ == path_join(root@, "pkg"@),
        key@ == path_join(root@, "id_ed25519.pub.toml"@),
        toml@ == package@ + ".toml"@,
        pkgar@ == package@ + ".pkgar"@,
{
}

/// Two downloads of a package that are under way use different files, unless they are the same one.
pub proof fn law_downloads_do_not_meet(
    m: &RepoManager,
    package: &PackageName,
    pid1: u32,
    seq1: u64,
    pid2: u32,
    seq2: u64,
    a: String,
    b: String,
)
    requires
        call_ensures(RepoManager::scratch_path, (m, package, pid1, seq1), a),
        call_ensures(RepoManager::scratch_path, (m, package, pid2, seq2), b),
        pid1 != pid2 || seq1 != seq2,
    ensures
        a@ != b@,
{
    if a@ == b@ {
        law_scratch_files_are_unique(
            m@.download_path,
            package@,
            "pkgar"@,
            pid1,
            seq1,
            pid2,
            seq2,
        );
    }
}

/// The next place is the first one that is left. Without one a search ends in a download, and a
/// download in the failure that no repository has the file.
pub proof fn law_places_are_taken_in_order(
    search: &LocalSearch,
    here: Option<&str>,
    download: &RemoteDownload,
    url: Result<&str, Error>,
    answer: Option<Result<(RemoteName, String), Error>>,
    step: FetchStep,
)
    requires
        call_ensures(LocalSearch::next, (search,), here),
        call_ensures(RemoteDownload::next, (download,), url),
        call_ensures(LocalSearch::step, (search, answer), step),
    ensures
        here is Some <==> search@.len() > 0,
        here matches Some(path) ==> path@ == search@[0].1,
        url is Ok <==> download@.len() > 0,
        url matches Ok(u) ==> u@ == download@[0].1,
        url matches Err(e) ==> e is ValidRepoNotFound,
        step is Download <==> answer is None && search@.len() == 0,
        step is Look <==> answer is None && search@.len() > 0,
        step matches FetchStep::Look { path } ==> path@ == search@[0].1,
        step matches FetchStep::Use { remote, path } ==> answer == Some(
            Ok::<(RemoteName, String), Error>((remote, path)),
        ),
        step matches FetchStep::Fail(e) ==> answer == Some(Err::<(RemoteName, String), Error>(e)),
{
}

/// A directory is private only once no step is left, and until then the next step is the first one
/// left.
pub proof fn law_no_step_is_left_out(setup: DirSetup, next: Option<DirOp>, r: Option<PrivateDir>)
    requires
        call_ensures(DirSetup::next, (&setup,), next),
        call_ensures(DirSetup::finish, (setup,), r),
    ensures
        r is Some <==> setup@.1.len() == 0,
        r matches Some(dir) ==> dir@ == setup@.0,
        next is Some <==> setup@.1.len() > 0,
        next matches Some(op) ==> op == setup@.1[0],
{
}

/// An index is trusted under a key exactly if that key vouches for its manifest.
pub proof fn law_which_index_is_trusted(
    index: &AcceptedIndex,
    key: &[u8; 32],
    r: Result<(), Error>,
)
    requires
        call_ensures(AcceptedIndex::check_signer, (index, key), r),
    ensures
        r is Ok <==> index@.manifest.key == Some(key@) && signed_by(key@, index@.manifest.text),
        index@.manifest.key is None ==> (r matches Err(e) && e is RepoManifestUnsigned),
        index@.manifest.key is Some && r is Err ==> (r matches Err(Error::RepoManifestSigInvalid(why))
            && why@ == "repo.toml signature does not match the pinned key"@),
{
}

/// Once it is settled what the index is, an archive passes exactly if none is enforced, or the one
/// that is lists the package with a text that decodes to the hash.
pub proof fn law_settled_index_decides(
    b: &PkgarBackend,
    package: &PackageName,
    hash: [u8; 32],
    r: Result<(), Error>,
)
    requires
        call_ensures(PkgarBackend::check_hash, (b, package, hash), r),
        b@.index is Some,
    ensures
        b@.index == Some(None::<AcceptedIndexView>) ==> r is Ok,
        b@.index matches Some(Some(index)) ==> (r is Ok <==> index.repository.packages@.contains_key(
            package@,
        ) && decoded_hex(index.repository.packages@[package@]) == Some(hash@)),
{
    if let Some(Some(index)) = b@.index {
        law_index_vouches_for_what_it_lists(index.repository.packages@, package@, hash@);
    }
}

} // verus!
