//! Tests with real archives. They hold no files, so the hash of their entries is known.
use ed25519_dalek::{Signer, SigningKey};
use pkg::error::Error;
use pkg::index::{get_repository_detail, verify_repo_manifest, AcceptedIndex};
use pkg::key_sync::{KeyProgress, KeyStep};
use pkg::name_map::NameMap;
use pkg::package::{Package, PackageName, RemotePackage, Repository};
use pkg::package_state::{InstallState, PackageState};
use pkg::pkgar_backend::{
    Fate, IndexStep, PackageProgress, PackageStep, PkgarBackend, RootSetup,
};
use pkg::private_dir::{ensure_private_dir, DirMeta};
use pkg::repo_manager::{RepoManager, RepoPublicKey, RepoPublicKeyFile};
use pkgar::{PackageFile, Transaction};
use pkgar_core::{Entry, Mode};
use pkgar_keys::SecretKeyFile;

/// The hash of no entries.
const NOTHING: &str = "af1349b9f5f9a1a6a0404dea36dcc9499bcb25c9adc112b7cc9a93cae41f3262";

fn name(s: &str) -> PackageName {
    PackageName::new(s).unwrap()
}

/// An archive without files.
fn archive(file: &str) -> (String, RepoPublicKey) {
    let source = ["/srv", "/mnt", "/media", "/opt", "/home", "/var/empty"]
        .into_iter()
        .find(|d| matches!(pkgar::folder_entries(d), Ok(entries) if entries.is_empty()))
        .expect("an empty directory");
    let (public, secret) = SecretKeyFile::new();
    let secret_path = format!("/tmp/{file}.secret.toml");
    let path = format!("/tmp/{file}.pkgar");
    secret.save(&secret_path).unwrap();
    pkgar::create(&secret_path, &path, source).unwrap();
    (path, public.pkey)
}

fn backend() -> PkgarBackend {
    let mut m = RepoManager::new();
    m.set_download_path("/dl".to_string());
    m.add_remote("http://h", "x86").unwrap();
    let mut packages = PackageState {
        protected: vec![],
        pubkeys: NameMap::new(),
        installed: NameMap::new(),
    };
    packages.pubkeys.insert("h".to_string(), RepoPublicKeyFile::new([4; 32]));
    packages
        .installed
        .insert("base".to_string(), InstallState { remote: "h".to_string() });
    let mut b = PkgarBackend::new("/".to_string(), m, packages, RootSetup::Ready).ok().unwrap();
    let meta = DirMeta { is_symlink: false, is_dir: true, uid: 5, mode: 0o700 };
    let dir = ensure_private_dir("/dl", 5, Ok(meta)).unwrap().finish().unwrap();
    let seen = KeyProgress { exists: None, downloaded: None, opened: None };
    assert!(matches!(b.sync_keys(&dir, 0, seen), KeyStep::Finished));
    b
}

fn package(s: &str) -> RemotePackage {
    RemotePackage {
        package: Package { name: name(s), version: "1".to_string(), network_size: 77 },
        remote: "h".to_string(),
    }
}

/// The key that the indexes of these tests are signed with.
fn signer() -> SigningKey {
    SigningKey::from_bytes(&[12u8; 32])
}

fn repository_with(entries: &[(&str, &str)]) -> Repository {
    let mut packages = NameMap::new();
    for (k, v) in entries {
        packages.insert(k.to_string(), v.to_string());
    }
    Repository { build_id: "b".to_string(), packages, serial: 1, expires: 0 }
}

/// An index that was signed with a key.
fn signed_with(sk: &SigningKey, entries: &[(&str, &str)]) -> AcceptedIndex {
    let sig = format!("ed25519 = \"{}\"\n", hex::encode(sk.sign(b"text").to_bytes()));
    let key = sk.verifying_key().to_bytes();
    let manifest = verify_repo_manifest("text".to_string(), Some(key), Some(&sig)).unwrap();
    get_repository_detail(manifest, Ok(repository_with(entries)), None, None).unwrap()
}

fn accepted(entries: &[(&str, &str)]) -> Option<Result<AcceptedIndex, Error>> {
    Some(Ok(signed_with(&signer(), entries)))
}

/// The file that pins the key.
fn key_file() -> Option<Option<String>> {
    let key = signer().verifying_key().to_bytes();
    Some(Some(format!("ed25519 = \"{}\"\n", hex::encode(key))))
}

/// The removal of a file that can be read here. It is never carried out.
fn removal() -> Transaction {
    let entry = Entry::new_uninit(b"stat", Mode::new(0o644, 0o100000).unwrap()).unwrap();
    Transaction::remove_with_entries(vec![entry], "/proc/self", true).unwrap()
}

#[test]
fn the_hash_of_the_opened_archive_is_compared() {
    let (path, key) = archive("pkg_test_compared");
    let pkg = PackageFile::new(&path, &key).unwrap();

    let mut b = backend();
    match b.enforce_manifest_blake3(&name("base"), &pkg, &None, &mut None) {
        IndexStep::ReadPinnedKey { path } => {
            assert_eq!(path, "/etc/pkg/eos-repo-sign.pub.toml");
        }
        other => panic!("expected ReadPinnedKey, got {other:?}"),
    }
    assert!(matches!(
        b.enforce_manifest_blake3(&name("base"), &pkg, &key_file(), &mut None),
        IndexStep::LoadIndex
    ));
    let mut loaded = accepted(&[("base", NOTHING), ("other", &"00".repeat(32))]);
    assert!(matches!(
        b.enforce_manifest_blake3(&name("base"), &pkg, &key_file(), &mut loaded),
        IndexStep::Answer(Ok(()))
    ));
    match b.enforce_manifest_blake3(&name("other"), &pkg, &None, &mut None) {
        IndexStep::Answer(Err(Error::ManifestHashMismatch { expected, actual, .. })) => {
            assert_eq!(expected, "00".repeat(32));
            assert_eq!(actual, NOTHING);
        }
        other => panic!("expected ManifestHashMismatch, got {other:?}"),
    }
    assert!(matches!(
        b.enforce_manifest_blake3(&name("evil"), &pkg, &None, &mut None),
        IndexStep::Answer(Err(Error::PackageNotInManifest(_)))
    ));
}

#[test]
fn an_installation_from_the_archive_to_the_queue() {
    let (path, key) = archive("pkg_test_installed");
    let base = package("base");
    let mut b = backend();
    let mut seen = PackageProgress::new();
    seen.archive = Some((path.clone(), "h".to_string()));
    assert!(matches!(b.install(&base, &mut seen), PackageStep::OpenArchive { .. }));
    seen.opened = Some(PackageFile::new(&path, &key).unwrap());
    assert!(matches!(b.install(&base, &mut seen), PackageStep::ReadPinnedKey { .. }));
    seen.key_file = key_file();
    assert!(matches!(b.install(&base, &mut seen), PackageStep::LoadIndex));
    seen.index = accepted(&[("base", NOTHING)]);
    assert!(matches!(b.install(&base, &mut seen), PackageStep::Prepare));
    assert!(seen.index.is_none());
    seen.transaction = Some(removal());
    match b.install(&base, &mut seen) {
        PackageStep::WriteHead { archive, head, key } => {
            assert_eq!(archive, path);
            assert_eq!(head, "/var/lib/packages/base.pkgar_head");
            assert_eq!(key, [4; 32]);
        }
        other => panic!("expected WriteHead, got {other:?}"),
    }
    assert_eq!(b.commit_check_conflict().unwrap().len(), 0);
    seen.head_written = true;
    assert!(matches!(b.install(&base, &mut seen), PackageStep::Done));

    // a second archive that changes the same file is a conflict, told with both archives
    let (second, key) = archive("pkg_test_installed_too");
    let mut seen = PackageProgress::new();
    seen.archive = Some((second.clone(), "h".to_string()));
    seen.opened = Some(PackageFile::new(&second, &key).unwrap());
    seen.transaction = Some(removal());
    seen.head_written = true;
    match b.install(&package("evil"), &mut seen) {
        PackageStep::Failed(Error::PackageNotInManifest(p)) => assert_eq!(p.as_str(), "evil"),
        other => panic!("expected PackageNotInManifest, got {other:?}"),
    }
    assert_eq!(b.commit_check_conflict().unwrap().len(), 0);
    assert!(matches!(b.install(&base, &mut seen), PackageStep::Done));
    let conflicts = b.commit_check_conflict().unwrap();
    assert_eq!(conflicts.len(), 1);
    assert_eq!(conflicts[0].former_src, Some(path));
    assert_eq!(conflicts[0].newer_src, Some(second));
    assert_eq!(b.take_transaction(Fate::Commit).ok().unwrap().0.pending_commit(), 1);
}

#[test]
fn an_upgrade_is_queued_under_what_it_replaces() {
    let (head, head_key) = archive("pkg_test_head");
    let (path, key) = archive("pkg_test_upgrade");
    let base = package("base");
    let mut b = backend();
    let mut seen = PackageProgress::new();
    assert!(matches!(b.upgrade(&base, &mut seen), PackageStep::OpenInstalled { .. }));
    seen.installed = Some(PackageFile::new(&head, &head_key).unwrap());
    assert!(matches!(b.upgrade(&base, &mut seen), PackageStep::FetchArchive { .. }));
    seen.archive = Some((path.clone(), "h".to_string()));
    seen.opened = Some(PackageFile::new(&path, &key).unwrap());
    // no key is pinned
    seen.key_file = Some(None);
    assert!(matches!(b.upgrade(&base, &mut seen), PackageStep::Prepare));
    for _ in 0..2 {
        seen.transaction = Some(removal());
        seen.head_written = true;
        assert!(matches!(b.upgrade(&base, &mut seen), PackageStep::Done));
    }
    let conflicts = b.commit_check_conflict().unwrap();
    assert_eq!(conflicts[0].former_src, Some(head.clone()));
    assert_eq!(conflicts[0].newer_src, Some(head));
}

#[test]
fn a_removal_is_queued_before_the_header_goes() {
    let (head, head_key) = archive("pkg_test_removed");
    let mut b = backend();
    let mut seen = PackageProgress::new();
    seen.installed = Some(PackageFile::new(&head, &head_key).unwrap());
    assert!(matches!(b.uninstall(&name("base"), &mut seen), PackageStep::Prepare));
    seen.transaction = Some(removal());
    match b.uninstall(&name("base"), &mut seen) {
        PackageStep::RemoveHead { path } => {
            assert_eq!(path, "/var/lib/packages/base.pkgar_head");
        }
        other => panic!("expected RemoveHead, got {other:?}"),
    }
    seen.head_removed = Some(Ok(()));
    assert!(matches!(b.uninstall(&name("base"), &mut seen), PackageStep::Done));
    assert_eq!(b.take_transaction(Fate::Commit).ok().unwrap().0.pending_commit(), 1);

    let gone = pkg::error::IoError {
        kind: pkg::error::IoErrorKind::NotFound,
        message: "gone".to_string(),
    };
    seen.head_removed = Some(Err(gone));
    match b.uninstall(&name("base"), &mut seen) {
        PackageStep::Failed(Error::IO(_, path, context)) => {
            assert_eq!(path, "/var/lib/packages/base.pkgar_head");
            assert_eq!(context, "Removing file");
        }
        other => panic!("expected IO, got {other:?}"),
    }
}

#[test]
fn an_archive_of_an_unsigned_index_is_not_installed() {
    let (path, key) = archive("pkg_test_unsigned");
    let base = package("base");
    let open = |seen: &mut PackageProgress| {
        seen.archive = Some((path.clone(), "h".to_string()));
        seen.opened = Some(PackageFile::new(&path, &key).unwrap());
        seen.key_file = key_file();
        // an untrusted caller may claim anything
        seen.transaction = Some(removal());
        seen.head_written = true;
    };
    let mut b = backend();

    let manifest = verify_repo_manifest("text".to_string(), None, None).unwrap();
    let repo = repository_with(&[("base", NOTHING)]);
    let unsigned = get_repository_detail(manifest, Ok(repo), None, None).unwrap();
    let mut seen = PackageProgress::new();
    open(&mut seen);
    seen.index = Some(Ok(unsigned));
    assert!(matches!(
        b.install(&base, &mut seen),
        PackageStep::Failed(Error::RepoManifestUnsigned)
    ));

    let other = SigningKey::from_bytes(&[13u8; 32]);
    seen.index = Some(Ok(signed_with(&other, &[("base", NOTHING)])));
    assert!(matches!(
        b.install(&base, &mut seen),
        PackageStep::Failed(Error::RepoManifestSigInvalid(
            "repo.toml signature does not match the pinned key"
        ))
    ));

    seen.index = Some(Err(Error::RepoManifestUnsigned));
    assert!(matches!(
        b.install(&base, &mut seen),
        PackageStep::Failed(Error::RepoManifestUnsigned)
    ));
    assert_eq!(b.take_transaction(Fate::Commit).ok().unwrap().0.pending_commit(), 0);

    // a failure is not remembered: the next one that is signed with the key is taken
    assert!(matches!(b.install(&base, &mut seen), PackageStep::LoadIndex));
    seen.index = accepted(&[("base", NOTHING)]);
    assert!(matches!(b.install(&base, &mut seen), PackageStep::Done));
}

/// The key file is read again with the index. One that was replaced meanwhile counts, one that is
/// gone does not lift the pin.
#[test]
fn the_key_is_the_one_that_the_index_was_loaded_under() {
    let (path, key) = archive("pkg_test_replaced_key");
    let base = package("base");
    let open = || {
        let mut seen = PackageProgress::new();
        seen.archive = Some((path.clone(), "h".to_string()));
        seen.opened = Some(PackageFile::new(&path, &key).unwrap());
        seen.key_file = key_file();
        seen
    };
    let other = SigningKey::from_bytes(&[13u8; 32]);
    let replaced = format!("ed25519 = \"{}\"\n", hex::encode(other.verifying_key().to_bytes()));

    let mut seen = open();
    seen.note_index(Some(replaced.clone()), Ok(signed_with(&other, &[("base", NOTHING)])));
    assert_eq!(seen.key_file, Some(Some(replaced)));
    assert!(matches!(backend().install(&base, &mut seen), PackageStep::Prepare));

    let mut seen = open();
    let manifest = verify_repo_manifest("text".to_string(), None, None).unwrap();
    let repo = repository_with(&[("base", NOTHING)]);
    seen.note_index(None, get_repository_detail(manifest, Ok(repo), None, None));
    assert_eq!(seen.key_file, key_file());
    assert!(matches!(
        backend().install(&base, &mut seen),
        PackageStep::Failed(Error::RepoManifestUnsigned)
    ));
}
