use ed25519_dalek::{Signer, SigningKey};
use pkg::commit_queue::FileConflict;
use pkg::error::{Error, IoError, IoErrorKind, PkgarError};
use pkg::index::{get_repository_detail, verify_repo_manifest, AcceptedIndex};
use pkg::key_sync::{KeyProgress, KeyStep};
use pkg::name_map::NameMap;
use pkg::package::{Package, PackageName, RemotePackage, Repository};
use pkg::package_state::{InstallState, PackageState};
use pkg::pkgar_backend::{
    get_package_detail, require_pubkey, CommitStep, Fate, Notice, PackageProgress, PackageStep,
    PkgarBackend, RootSetup,
};
use pkg::private_dir::{ensure_private_dir, DirMeta, PrivateDir};
use pkg::repo_manager::{KeyLookup, RemotePath, RepoManager, RepoPublicKey, RepoPublicKeyFile};
use pkgar::Transaction;
use pkgar_core::{Entry, Mode};

fn io(kind: IoErrorKind) -> IoError {
    IoError { kind, message: "m".to_string() }
}

fn name(s: &str) -> PackageName {
    PackageName::new(s).unwrap()
}

fn private(path: &str) -> PrivateDir {
    let meta = DirMeta { is_symlink: false, is_dir: true, uid: 5, mode: 0o700 };
    ensure_private_dir(path, 5, Ok(meta)).unwrap().finish().unwrap()
}

fn remote(pubkey: Option<RepoPublicKey>) -> RemotePath {
    RemotePath {
        path: "https://example.invalid/pkg".to_string(),
        pubpath: "https://example.invalid/key".to_string(),
        name: "test-remote".to_string(),
        pubkey,
    }
}

/// A remote with no loaded key must produce an error naming that remote.
#[test]
fn missing_pubkey_is_an_error_naming_the_remote() {
    let err = require_pubkey(&remote(None)).expect_err("a keyless remote must not succeed");
    match err {
        Error::RepoNotLoaded(name) => assert_eq!(name, "test-remote"),
        other => panic!("expected RepoNotLoaded, got {other:?}"),
    }
}

/// With a key present the check returns that key.
#[test]
fn present_pubkey_is_returned() {
    let r = remote(Some([7u8; 32]));
    assert!(require_pubkey(&r).is_ok(), "a remote with a key must succeed");
    assert_eq!(require_pubkey(&r).unwrap(), &[7u8; 32]);
}

fn state(installed: &[(&str, &str)], keys: &[(&str, u8)], protected: &[&str]) -> PackageState {
    let mut s = PackageState {
        protected: protected.iter().map(|p| name(p)).collect(),
        pubkeys: NameMap::new(),
        installed: NameMap::new(),
    };
    for (p, r) in installed {
        s.installed.insert(p.to_string(), InstallState { remote: r.to_string() });
    }
    for (r, k) in keys {
        s.pubkeys.insert(r.to_string(), RepoPublicKeyFile::new([*k; 32]));
    }
    s
}

fn manager(remotes: &[&str]) -> RepoManager {
    let mut m = RepoManager::new();
    m.set_download_path("/dl".to_string());
    for r in remotes {
        m.add_remote(&format!("http://{r}"), "x86").unwrap();
    }
    m
}

fn backend(remotes: &[&str], packages: PackageState) -> PkgarBackend {
    PkgarBackend::new("/".to_string(), manager(remotes), packages, RootSetup::Ready)
        .ok()
        .unwrap()
}

/// A backend with one repository, whose key is known from earlier and loaded.
fn ready(packages: PackageState) -> PkgarBackend {
    let mut b = backend(&["h"], packages);
    let step = b.sync_keys(&private("/dl"), 0, none_seen());
    assert!(matches!(step, KeyStep::Finished));
    b
}

fn none_seen() -> KeyProgress {
    KeyProgress { exists: None, downloaded: None, opened: None }
}

fn package(s: &str, version: &str) -> RemotePackage {
    RemotePackage {
        package: Package { name: name(s), version: version.to_string(), network_size: 77 },
        remote: "h".to_string(),
    }
}

/// The key that the indexes of these tests are signed with.
fn signer() -> SigningKey {
    SigningKey::from_bytes(&[12u8; 32])
}

fn repository_with(entries: &[(&str, &str)]) -> Repository {
    let mut packages = NameMap::new();
    for (k, v) in entries {
        packages.insert(k.to_string(), v.to_string());
    }
    Repository { build_id: "b".to_string(), packages, serial: 1, expires: 0 }
}

/// An index that was signed with a key.
fn signed_with(sk: &SigningKey, entries: &[(&str, &str)]) -> AcceptedIndex {
    let sig = format!("ed25519 = \"{}\"\n", hex::encode(sk.sign(b"text").to_bytes()));
    let key = sk.verifying_key().to_bytes();
    let manifest = verify_repo_manifest("text".to_string(), Some(key), Some(&sig)).unwrap();
    get_repository_detail(manifest, Ok(repository_with(entries)), None, None).unwrap()
}

fn accepted(entries: &[(&str, &str)]) -> Option<Result<AcceptedIndex, Error>> {
    Some(Ok(signed_with(&signer(), entries)))
}

/// The file that pins the key.
fn key_file() -> Option<Option<String>> {
    let key = signer().verifying_key().to_bytes();
    Some(Some(format!("ed25519 = \"{}\"\n", hex::encode(key))))
}

/// The removal of files that can be read here. It is only ever given up, which does nothing.
fn removal(files: &[&str]) -> Transaction {
    let entries = files
        .iter()
        .map(|f| Entry::new_uninit(f.as_bytes(), Mode::new(0o644, 0o100000).unwrap()).unwrap())
        .collect();
    Transaction::remove_with_entries(entries, "/proc/self", true).unwrap()
}

fn parts(conflict: &FileConflict) -> Vec<String> {
    conflict
        .conflicted_path
        .iter()
        .map(|p| String::from_utf8(p.clone()).unwrap())
        .collect()
}

#[test]
fn a_backend_needs_a_writable_root() {
    let made = |setup| {
        PkgarBackend::new("/root".to_string(), manager(&[]), state(&[], &[], &[]), setup)
    };
    match made(RootSetup::NotWritable(io(IoErrorKind::Other))) {
        Err(Error::IO(_, path, context)) => {
            assert_eq!((path.as_str(), context), ("/root", "Writing"));
        }
        _ => panic!("expected IO"),
    }
    assert!(matches!(
        made(RootSetup::NotWritable(io(IoErrorKind::PermissionDenied))),
        Err(Error::MissingPermissions)
    ));
    match made(RootSetup::NoHeadDir(io(IoErrorKind::Other))) {
        Err(Error::IO(_, path, context)) => {
            assert_eq!((path.as_str(), context), ("/root/var/lib/packages", "Creating dir"));
        }
        _ => panic!("expected IO"),
    }
    let b = made(RootSetup::Ready).ok().unwrap();
    assert_eq!(b.install_path(), "/root");
    assert_eq!(b.head_file(&name("base")), "/root/var/lib/packages/base.pkgar_head");
    assert_eq!(b.pinned_key_path(), "/root/etc/pkg/eos-repo-sign.pub.toml");
    assert_eq!(b.state_path(), "/root/etc/pkg/repo-state.toml");
    assert!(b.commit_check_conflict().unwrap().is_empty());
}

#[test]
fn known_keys_are_not_loaded_again() {
    let mut b = backend(&["x", "h"], state(&[], &[("x", 4)], &[]));
    b.use_known_keys();
    assert_eq!(b.get_remote_detail("x").unwrap().pubkey, Some([4; 32]));
    assert_eq!(b.get_remote_detail("h").unwrap().pubkey, None);
    let dir = private("/dl");
    match b.sync_keys(&dir, 0, none_seen()) {
        KeyStep::CheckExists { file } => assert_eq!(file, "/dl/pub_key_h.toml"),
        other => panic!("expected CheckExists, got {other:?}"),
    }
    assert_eq!(b.get_remote_detail("x").unwrap().pubkey, Some([4; 32]));
    let seen = KeyProgress { opened: Some(Ok(RepoPublicKeyFile::new([5; 32]))), ..none_seen() };
    let next = match b.sync_keys(&dir, 0, seen) {
        KeyStep::Loaded { next, .. } => next,
        other => panic!("expected Loaded, got {other:?}"),
    };
    assert!(matches!(b.sync_keys(&dir, next, none_seen()), KeyStep::Finished));
    assert!(matches!(b.sync_keys(&dir, 0, none_seen()), KeyStep::Finished));
    assert_eq!(b.get_remote_detail("h").unwrap().pubkey, Some([5; 32]));
    assert!(matches!(b.get_remote_detail("y"), Err(Error::ValidRepoNotFound)));
}

#[test]
fn nothing_is_installed_before_the_keys_are_loaded() {
    let mut b = backend(&["h"], state(&[], &[], &[]));
    let mut seen = PackageProgress::new();
    assert!(matches!(b.install(&package("base", "1"), &mut seen), PackageStep::LoadKeys));
    assert!(matches!(b.install(&package("meta", ""), &mut seen), PackageStep::LoadKeys));
    assert!(matches!(b.upgrade(&package("base", "1"), &mut seen), PackageStep::LoadKeys));
    assert!(matches!(b.uninstall(&name("base"), &mut seen), PackageStep::LoadKeys));
    seen.failed = Some(Error::RepoNotLoaded("h".to_string()));
    assert!(matches!(
        b.install(&package("base", "1"), &mut seen),
        PackageStep::Failed(Error::RepoNotLoaded(_))
    ));
}

#[test]
fn a_metapackage_needs_no_archive() {
    let mut b = ready(state(&[], &[("h", 4)], &[]));
    let mut seen = PackageProgress::new();
    assert!(matches!(b.install(&package("meta", ""), &mut seen), PackageStep::Done));
    assert_eq!(b.take_transaction(Fate::Commit).ok().unwrap().0.pending_commit(), 0);
}

#[test]
fn an_archive_is_fetched_and_opened_with_the_key_of_its_repository() {
    let mut b = ready(state(&[], &[("h", 4)], &[]));
    let base = package("base", "1");
    let mut seen = PackageProgress::new();
    match b.install(&base, &mut seen) {
        PackageStep::FetchArchive { package, size } => {
            assert_eq!((package.as_str(), size), ("base", 77));
        }
        other => panic!("expected FetchArchive, got {other:?}"),
    }
    seen.archive = Some(("/dl/h_base.pkgar".to_string(), "h".to_string()));
    match b.install(&base, &mut seen) {
        PackageStep::OpenArchive { path, key } => {
            assert_eq!((path.as_str(), key), ("/dl/h_base.pkgar", [4; 32]));
        }
        other => panic!("expected OpenArchive, got {other:?}"),
    }
    seen.archive = Some(("/dl/h_base.pkgar".to_string(), "gone".to_string()));
    match b.install(&base, &mut seen) {
        PackageStep::Failed(Error::RepoCacheNotFound(p)) => assert_eq!(p.as_str(), "base"),
        other => panic!("expected RepoCacheNotFound, got {other:?}"),
    }
}

#[test]
fn an_index_is_settled_once() {
    let hash = [0x11u8; 32];
    let mut b = ready(state(&[], &[("h", 4)], &[]));
    assert!(matches!(b.settle_index(&None, &mut None), Ok(false)));
    assert!(matches!(b.settle_index(&key_file(), &mut None), Ok(false)));
    // nothing was asked for, so nothing is used up
    let mut early = accepted(&[]);
    assert!(matches!(b.settle_index(&None, &mut early), Ok(false)));
    assert!(early.is_some());

    let mut loaded = accepted(&[("base", &hex::encode(hash))]);
    assert!(matches!(b.settle_index(&key_file(), &mut loaded), Ok(true)));
    assert!(loaded.is_none());
    assert!(b.check_hash(&name("base"), hash).is_ok());
    assert!(matches!(
        b.check_hash(&name("base"), [0x12u8; 32]),
        Err(Error::ManifestHashMismatch { .. })
    ));
    assert!(matches!(b.check_hash(&name("evil"), hash), Err(Error::PackageNotInManifest(_))));
    // another index does not replace it, nor does a lost key file
    let mut other = accepted(&[]);
    assert!(matches!(b.settle_index(&key_file(), &mut other), Ok(true)));
    assert!(other.is_some());
    assert!(matches!(b.settle_index(&Some(None), &mut None), Ok(true)));
    assert!(b.check_hash(&name("base"), hash).is_ok());
    assert!(b.check_hash(&name("evil"), hash).is_err());
}

/// The index is loaded until that succeeds, under the pinned key.
#[test]
fn an_index_under_another_key_is_not_settled() {
    let mut b = ready(state(&[], &[("h", 4)], &[]));
    let manifest = verify_repo_manifest("text".to_string(), None, None).unwrap();
    let unsigned = get_repository_detail(manifest, Ok(repository_with(&[])), None, None).unwrap();
    let mut loaded = Some(Ok(unsigned));
    assert!(matches!(
        b.settle_index(&key_file(), &mut loaded),
        Err(Error::RepoManifestUnsigned)
    ));
    assert!(loaded.is_none());
    let other = SigningKey::from_bytes(&[13u8; 32]);
    assert!(matches!(
        b.settle_index(&key_file(), &mut Some(Ok(signed_with(&other, &[])))),
        Err(Error::RepoManifestSigInvalid(_))
    ));
    assert!(matches!(
        b.settle_index(&key_file(), &mut Some(Err(Error::ValidRepoNotFound))),
        Err(Error::ValidRepoNotFound)
    ));
    assert!(matches!(b.settle_index(&key_file(), &mut None), Ok(false)));
    assert!(matches!(b.settle_index(&key_file(), &mut accepted(&[])), Ok(true)));
}

#[test]
fn without_pinned_key_or_remotes_no_index_is_enforced() {
    let mut b = ready(state(&[], &[("h", 4)], &[]));
    let mut loaded = accepted(&[]);
    assert!(matches!(b.settle_index(&Some(None), &mut loaded), Ok(true)));
    assert!(loaded.is_some());
    assert!(b.check_hash(&name("base"), [1; 32]).is_ok());

    let mut m = RepoManager::new();
    let key = KeyLookup::Found(RepoPublicKeyFile::new([1; 32]));
    m.add_local("disk", "/mnt", "x86", "/keys", key).unwrap();
    let packages = state(&[], &[], &[]);
    let mut b = PkgarBackend::new("/".to_string(), m, packages, RootSetup::Ready).ok().unwrap();
    assert!(matches!(b.settle_index(&key_file(), &mut None), Ok(true)));
    assert!(b.check_hash(&name("base"), [1; 32]).is_ok());
}

#[test]
fn an_upgrade_opens_what_is_installed_first() {
    let packages = state(&[("base", "h"), ("lost", "gone")], &[("h", 4)], &[]);
    let mut b = ready(packages);
    let mut seen = PackageProgress::new();
    match b.upgrade(&package("base", "2"), &mut seen) {
        PackageStep::OpenInstalled { path, key } => {
            assert_eq!((path.as_str(), key), ("/var/lib/packages/base.pkgar_head", [4; 32]));
        }
        other => panic!("expected OpenInstalled, got {other:?}"),
    }
    match b.upgrade(&package("other", "2"), &mut seen) {
        PackageStep::Failed(Error::PackageNotInstalled(p)) => assert_eq!(p.as_str(), "other"),
        other => panic!("expected PackageNotInstalled, got {other:?}"),
    }
    match b.upgrade(&package("lost", "2"), &mut seen) {
        PackageStep::Failed(Error::RepoCacheNotFound(p)) => assert_eq!(p.as_str(), "lost"),
        other => panic!("expected RepoCacheNotFound, got {other:?}"),
    }
}

#[test]
fn a_protected_package_is_not_removed() {
    let packages = state(&[("base", "h"), ("shell", "h")], &[("h", 4)], &["kernel", "base"]);
    let mut b = ready(packages);
    let mut seen = PackageProgress::new();
    match b.uninstall(&name("base"), &mut seen) {
        PackageStep::Failed(Error::ProtectedPackage(p)) => assert_eq!(p.as_str(), "base"),
        other => panic!("expected ProtectedPackage, got {other:?}"),
    }
    match b.uninstall(&name("shell"), &mut seen) {
        PackageStep::OpenInstalled { path, key } => {
            assert_eq!((path.as_str(), key), ("/var/lib/packages/shell.pkgar_head", [4; 32]));
        }
        other => panic!("expected OpenInstalled, got {other:?}"),
    }
    assert!(matches!(
        b.uninstall(&name("other"), &mut seen),
        PackageStep::Failed(Error::PackageNotInstalled(_))
    ));
}

#[test]
fn a_failed_commit_puts_back_what_is_left() {
    let mut b = ready(state(&[], &[("h", 4)], &[]));
    let (empty, notice) = b.take_transaction(Fate::Commit).ok().unwrap();
    assert_eq!(notice, Notice::CommitStart(0));
    assert!(matches!(
        b.commit_step(Fate::Commit, empty, None),
        CommitStep::Finished { total: 0, notice: Notice::CommitEnd }
    ));
    // the queue was taken
    assert!(matches!(
        b.commit_check_conflict(),
        Err(Error::Pkgar(PkgarError::DataNotInitialized))
    ));
    assert!(matches!(
        b.take_transaction(Fate::Commit),
        Err(Error::Pkgar(PkgarError::DataNotInitialized))
    ));

    let failure = PkgarError::Failed("disk".to_string());
    match b.commit_step(Fate::Commit, removal(&["stat", "status"]), Some(failure)) {
        CommitStep::Failed(Error::Pkgar(PkgarError::Failed(why))) => assert_eq!(why, "disk"),
        _ => panic!("expected Failed"),
    }
    assert!(b.commit_check_conflict().unwrap().is_empty());
    let (left, notice) = b.take_transaction(Fate::Commit).ok().unwrap();
    assert_eq!(notice, Notice::CommitStart(2));
    assert_eq!((left.pending_commit(), left.total_committed()), (2, 0));
    let targets: Vec<&str> = left
        .get_actions()
        .iter()
        .map(|a| a.target_file().to_str().unwrap())
        .collect();
    assert_eq!(targets, ["/proc/self/stat", "/proc/self/status"]);
}

#[test]
fn the_queue_is_given_up_one_by_one() {
    let mut b = ready(state(&[], &[("h", 4)], &[]));
    let failure = Some(PkgarError::DataNotInitialized);
    b.commit_step(Fate::Abort, removal(&["stat", "status"]), failure);
    let (first, notice) = b.take_transaction(Fate::Abort).ok().unwrap();
    let mut told = vec![notice];
    let mut step = b.commit_step(Fate::Abort, first, None);
    let total = loop {
        match step {
            CommitStep::TryOne { mut transaction, notice } => {
                told.push(notice);
                transaction.abort_one().unwrap();
                step = b.commit_step(Fate::Abort, transaction, None);
            }
            CommitStep::Finished { total, notice } => {
                told.push(notice);
                break total;
            }
            CommitStep::Failed(_) => panic!("giving up a removal cannot fail"),
        }
    };
    assert_eq!(total, 2);
    assert_eq!(
        told,
        [
            Notice::AbortStart(2),
            Notice::CommitIncrement,
            Notice::CommitIncrement,
            Notice::AbortEnd
        ]
    );
    assert!(b.take_transaction(Fate::Abort).is_err());
}

#[test]
fn two_operations_on_one_file_are_a_conflict() {
    let mut b = ready(state(&[], &[("h", 4)], &[]));
    let failure = || Some(PkgarError::DataNotInitialized);
    b.commit_step(Fate::Commit, removal(&["stat"]), failure());
    b.commit_step(Fate::Commit, removal(&["status", "stat", "stat"]), failure());
    let conflicts = b.commit_check_conflict().unwrap();
    assert_eq!(conflicts.len(), 2);
    for c in &conflicts {
        assert_eq!(parts(c), ["/", "proc", "self", "stat"]);
        assert_eq!((&c.former_src, &c.newer_src), (&None, &None));
    }
    // the former one stays, and each file is changed once
    assert_eq!(b.take_transaction(Fate::Commit).ok().unwrap().0.pending_commit(), 2);
}

#[test]
fn a_commit_records_the_keys_of_all_repositories() {
    let mut b = ready(state(&[], &[("h", 4)], &[]));
    let new_state = state(&[("base", "h")], &[("old", 9), ("h", 1)], &["base"]);
    b.commit_state(new_state).unwrap();
    let s = b.get_package_state();
    assert_eq!(s.installed.get("base").unwrap().remote, "h");
    assert_eq!(s.pubkeys.get("h").unwrap().pkey, [4; 32]);
    assert_eq!(s.pubkeys.get("old").unwrap().pkey, [9; 32]);
    assert_eq!(s.protected[0].as_str(), "base");

    // the next run does not have to load them
    let mut later = backend(&["h"], s);
    assert!(matches!(later.sync_keys(&private("/dl"), 0, none_seen()), KeyStep::Finished));
    assert_eq!(later.get_remote_detail("h").unwrap().pubkey, Some([4; 32]));
}

#[test]
fn a_commit_without_a_key_names_the_repository() {
    let mut b = backend(&["z", "m", "a"], state(&[], &[], &[]));
    let dir = private("/dl");
    let seen = KeyProgress { opened: Some(Ok(RepoPublicKeyFile::new([6; 32]))), ..none_seen() };
    assert!(matches!(b.sync_keys(&dir, 0, seen), KeyStep::Loaded { .. }));
    match b.commit_state(state(&[("base", "a")], &[], &[])) {
        Err(Error::RepoNotLoaded(n)) => assert_eq!(n, "m"),
        other => panic!("expected RepoNotLoaded, got {other:?}"),
    }
    // what came before it is recorded
    let s = b.get_package_state();
    assert_eq!(s.pubkeys.get("a").unwrap().pkey, [6; 32]);
    assert!(s.pubkeys.get("z").is_none());
    assert!(s.installed.get("base").is_some());
}

#[test]
fn a_state_that_cannot_be_written_fails_the_commit() {
    let b = ready(state(&[], &[("h", 4)], &[]));
    assert!(matches!(b.state_written(Ok(()), 12), Ok(12)));
    match b.state_written(Err(io(IoErrorKind::Other)), 12) {
        Err(Error::IO(_, path, context)) => {
            assert_eq!((path.as_str(), context), ("/", "Writing"));
        }
        other => panic!("expected IO, got {other:?}"),
    }
}

#[test]
fn a_description_is_told_with_its_repository() {
    let p = package("base", "1");
    let detail = get_package_detail(Ok(p.package), "h".to_string()).unwrap();
    assert_eq!((detail.package.name.as_str(), detail.remote.as_str()), ("base", "h"));
    assert!(matches!(
        get_package_detail(Err(Error::TomlRead("x".to_string())), "h".to_string()),
        Err(Error::TomlRead(_))
    ));
    let b = ready(state(&[], &[("h", 4)], &[]));
    assert_eq!(b.repo_manager().remotes, ["h"]);
}
