use pkg::error::{Error, IoError, IoErrorKind};
use pkg::fetch::{ArchiveSource, FetchStep, TextSource};
use pkg::key_sync::{KeyProgress, KeyStep};
use pkg::name_map::Duplicate;
use pkg::net_backend::DownloadError;
use pkg::package::{PackageError, PackageName};
use pkg::private_dir::{ensure_private_dir, DirMeta, PrivateDir};
use pkg::repo_manager::{KeyLookup, RemotePath, RepoManager, RepoPublicKeyFile};
use pkg::sources::{Listing, RepoFile};

fn io(kind: IoErrorKind) -> IoError {
    IoError { kind, message: "m".to_string() }
}

fn name(s: &str) -> PackageName {
    PackageName::new(s).unwrap()
}

fn private(path: &str) -> PrivateDir {
    let meta = DirMeta { is_symlink: false, is_dir: true, uid: 5, mode: 0o700 };
    ensure_private_dir(path, 5, Ok(meta)).unwrap().finish().unwrap()
}

fn found(byte: u8) -> KeyLookup {
    KeyLookup::Found(RepoPublicKeyFile::new([byte; 32]))
}

/// Two repositories on the network, two on this machine, and the source of the installer.
fn manager() -> RepoManager {
    let mut m = RepoManager::new();
    m.set_download_path("/dl".to_string());
    m.add_remote("https://b.example/pkg", "x86").unwrap();
    m.add_local("disk", "/mnt/repo", "x86", "/keys", found(1)).unwrap();
    m.add_local("installer_key", "", "x86", "/root/pkg", found(2)).unwrap();
    m.add_remote("https://a.example:8080/pkg", "x86").unwrap();
    m.add_local("usb", "/media/usb", "x86", "/keys", found(3)).unwrap();
    m
}

fn none_seen() -> KeyProgress {
    KeyProgress { exists: None, downloaded: None, opened: None }
}

#[test]
fn a_new_manager_knows_nothing() {
    let m = RepoManager::new();
    assert!(m.remotes.is_empty() && m.locals.is_empty());
    assert_eq!(m.remote_map.len(), 0);
    assert_eq!(m.download_path, "/tmp/pkg_download/");
}

#[test]
fn the_host_of_a_url() {
    for (url, host) in [
        ("https://static.redox-os.org/pkg", Some("static.redox-os.org")),
        ("http://h:80/x:y", Some("h")),
        ("http://h", Some("h")),
        ("://", Some("")),
        ("a://b://c", Some("b")),
        ("file:///x", Some("")),
        ("http:/x", None),
        ("", None),
    ] {
        assert_eq!(RepoManager::extract_host(url), host, "{url:?}");
    }
}

#[test]
fn a_repository_on_the_network() {
    let m = manager();
    assert_eq!(m.remotes, ["b.example", "a.example"]);
    let b = m.get_remote_info("b.example").unwrap();
    assert_eq!(b.path, "https://b.example/pkg/x86");
    assert_eq!(b.pubpath, "https://b.example/pkg/id_ed25519.pub.toml");
    assert_eq!(b.name, "b.example");
    assert_eq!(b.pubkey, None);
    assert!(!b.is_local());
    assert!(m.get_remote_info("c.example").is_none());
}

#[test]
fn a_repository_on_this_machine() {
    let m = manager();
    assert_eq!(m.locals, ["disk", "installer_key", "usb"]);
    let disk = m.get_remote_info("disk").unwrap();
    assert_eq!(disk.path, "/mnt/repo/x86");
    assert_eq!(disk.pubpath, "");
    assert_eq!(disk.pubkey, Some([1; 32]));
    assert!(disk.is_local());
    assert_eq!(m.get_remote_info("installer_key").unwrap().path, "");
}

#[test]
fn adding_again_replaces_the_entry_and_keeps_the_order() {
    let mut m = manager();
    m.add_remote("http://b.example/other", "arm").unwrap();
    assert_eq!(m.remotes, ["b.example", "a.example"]);
    assert_eq!(m.get_remote_info("b.example").unwrap().path, "http://b.example/other/arm");
    // a name that is known from the other list stays there
    m.add_remote("x://disk", "arm").unwrap();
    assert_eq!(m.remotes, ["b.example", "a.example"]);
    assert_eq!(m.locals, ["disk", "installer_key", "usb"]);
    assert!(!m.get_remote_info("disk").unwrap().is_local());
}

#[test]
fn a_text_without_a_host_is_no_repository() {
    let mut m = manager();
    match m.add_remote("no url", "x86") {
        Err(Error::RepoPathInvalid(p)) => assert_eq!(p, "no url"),
        other => panic!("expected RepoPathInvalid, got {other:?}"),
    }
    assert_eq!(m.remotes, ["b.example", "a.example"]);
}

#[test]
fn a_local_repository_needs_its_key() {
    let mut m = RepoManager::new();
    assert_eq!(RepoManager::local_key_path("/keys"), "/keys/id_ed25519.pub.toml");
    match m.add_local("disk", "/mnt", "x86", "/keys", KeyLookup::Missing) {
        Err(Error::RepoPathInvalid(p)) => assert_eq!(p, "/keys/id_ed25519.pub.toml"),
        other => panic!("expected RepoPathInvalid, got {other:?}"),
    }
    let unusable = KeyLookup::Unusable(Error::TomlRead("bad".to_string()));
    assert!(unusable.discards_file());
    assert!(!KeyLookup::Missing.discards_file());
    assert!(!found(1).discards_file());
    assert!(matches!(
        m.add_local("disk", "/mnt", "x86", "/keys", unusable),
        Err(Error::TomlRead(_))
    ));
    assert!(m.locals.is_empty());
}

#[test]
fn a_copy_is_independent() {
    let mut m = manager();
    let copy = m.duplicate();
    m.add_remote("http://c.example", "x86").unwrap();
    m.set_download_path("/other".to_string());
    assert_eq!(copy.remotes, ["b.example", "a.example"]);
    assert_eq!(copy.locals, m.locals);
    assert_eq!(copy.download_path, "/dl");
    assert!(copy.get_remote_info("c.example").is_none());
    assert_eq!(copy.get_remote_info("disk").unwrap().pubkey, Some([1; 32]));
}

fn file(path: &str, content: &str) -> RepoFile {
    RepoFile { path: path.to_string(), content: Ok(content.to_string()) }
}

#[test]
fn files_are_loaded_in_the_order_of_their_paths() {
    let mut m = manager();
    assert_eq!(RepoManager::sources_dir("/"), "/etc/pkg.d");
    assert_eq!(RepoManager::installer_key_dir("/"), "/pkg");
    let listing = Listing::Files(vec![
        file("/etc/pkg.d/20_b", "http://third.example\n"),
        file("/etc/pkg.d/10_a", "# a comment\nhttp://first.example \r\n\thttp://second.example"),
        file("/etc/pkg.d/05_empty", ""),
        file("/etc/pkg.d/30_c", "http://first.example/again"),
    ]);
    m.update_remotes("x86", "/", listing, found(9)).unwrap();
    assert_eq!(m.remotes, ["first.example", "second.example", "third.example"]);
    assert_eq!(m.locals, ["installer_key"]);
    assert_eq!(
        m.get_remote_info("first.example").unwrap().path,
        "http://first.example/again/x86"
    );
    let installer = m.get_remote_info("installer_key").unwrap();
    assert_eq!(installer.path, "");
    assert_eq!(installer.pubkey, Some([9; 32]));
    assert!(m.get_remote_info("b.example").is_none());
    assert_eq!(m.download_path, "/dl");
}

#[test]
fn the_installer_is_optional() {
    for key in [KeyLookup::Missing, KeyLookup::Unusable(Error::Interrupted)] {
        let mut m = RepoManager::new();
        let listing = Listing::Files(vec![file("/etc/pkg.d/a", "http://h")]);
        m.update_remotes("x86", "/", listing, key).unwrap();
        assert_eq!(m.remotes, ["h"]);
        assert!(m.locals.is_empty());
    }
}

#[test]
fn loading_ends_at_the_first_failure() {
    let mut m = manager();
    // a blank line is no comment, so it has to be a URL
    let listing = Listing::Files(vec![
        file("/etc/pkg.d/b", "http://late.example"),
        file("/etc/pkg.d/a", "http://early.example\n  \nhttp://middle.example"),
    ]);
    match m.update_remotes("x86", "/", listing, found(9)) {
        Err(Error::RepoPathInvalid(p)) => assert_eq!(p, ""),
        other => panic!("expected RepoPathInvalid, got {other:?}"),
    }
    assert_eq!(m.remotes, ["early.example"]);
    assert!(m.locals.is_empty());

    let listing = Listing::Files(vec![
        file("/etc/pkg.d/a", "http://early.example"),
        RepoFile { path: "/etc/pkg.d/b".to_string(), content: Err(io(IoErrorKind::Other)) },
        file("/etc/pkg.d/c", "nonsense"),
    ]);
    match m.update_remotes("x86", "/", listing, found(9)) {
        Err(Error::IO(_, path, context)) => {
            assert_eq!((path.as_str(), context), ("/etc/pkg.d/b", "Reading"));
        }
        other => panic!("expected IO, got {other:?}"),
    }
    assert_eq!(m.remotes, ["early.example"]);
}

#[test]
fn without_the_directory_no_repository_is_left() {
    for (listing, what) in [
        (Listing::Unreadable(io(IoErrorKind::NotFound)), "Reading dir"),
        (Listing::BadItem(io(IoErrorKind::Other)), "Reading dir item"),
    ] {
        let mut m = manager();
        match m.update_remotes("x86", "/sysroot", listing, found(9)) {
            Err(Error::IO(_, path, context)) => {
                assert_eq!((path.as_str(), context), ("/sysroot/etc/pkg.d", what));
            }
            other => panic!("expected IO, got {other:?}"),
        }
        assert!(m.remotes.is_empty() && m.locals.is_empty());
        assert_eq!(m.remote_map.len(), 0);
    }
    let mut m = manager();
    let listing = Listing::Unreadable(io(IoErrorKind::PermissionDenied));
    assert!(matches!(
        m.update_remotes("x86", "/", listing, found(9)),
        Err(Error::MissingPermissions)
    ));
}

#[test]
fn a_file_is_searched_in_the_local_repositories() {
    let m = manager();
    let mut search = m.local_search("base.toml", &private("/dl"));
    // the source of the installer has no files
    assert_eq!(search.next(), Some("/mnt/repo/x86/base.toml"));
    assert!(search.answer(Err(io(IoErrorKind::NotFound))).is_none());
    assert_eq!(search.next(), Some("/media/usb/x86/base.toml"));
    match search.answer(Ok(true)) {
        Some(Ok((remote, path))) => {
            assert_eq!(remote, "usb");
            assert_eq!(path, "/media/usb/x86/base.toml");
        }
        other => panic!("expected a hit, got {other:?}"),
    }
}

#[test]
fn a_search_passes_over_what_is_no_file_and_ends_at_failures() {
    let m = manager();
    let mut search = m.local_search("base.toml", &private("/dl"));
    assert!(search.answer(Ok(false)).is_none());
    match search.answer(Err(io(IoErrorKind::PermissionDenied))) {
        Some(Err(Error::IO(e, path, context))) => {
            assert_eq!(e.kind, IoErrorKind::PermissionDenied);
            assert_eq!(
                (path.as_str(), context),
                ("/media/usb/x86/base.toml", "Reading metadata")
            );
        }
        other => panic!("expected IO, got {other:?}"),
    }
    assert_eq!(search.next(), None);
}

#[test]
fn a_download_goes_on_only_after_a_status() {
    let m = manager();
    let mut download = m.download("base.toml", &private("/dl"));
    assert_eq!(download.next().unwrap(), "https://b.example/pkg/x86/base.toml");
    assert!(download.answer(Err(DownloadError::HttpStatus(404))).is_none());
    assert_eq!(download.next().unwrap(), "https://a.example:8080/pkg/x86/base.toml");
    match download.answer(Ok(())) {
        Some(Ok(remote)) => assert_eq!(remote, "a.example"),
        other => panic!("expected an answer, got {other:?}"),
    }

    let mut download = m.download("base.toml", &private("/dl"));
    assert!(matches!(
        download.answer(Err(DownloadError::Timeout)),
        Some(Err(Error::Download(DownloadError::Timeout)))
    ));

    let mut download = m.download("base.toml", &private("/dl"));
    assert!(download.answer(Err(DownloadError::HttpStatus(500))).is_none());
    assert!(download.answer(Err(DownloadError::HttpStatus(404))).is_none());
    assert!(matches!(download.next(), Err(Error::ValidRepoNotFound)));
}

#[test]
fn nothing_is_downloaded_without_remotes() {
    let mut m = RepoManager::new();
    m.set_download_path("/dl".to_string());
    m.add_local("disk", "/mnt/repo", "x86", "/keys", found(1)).unwrap();
    assert!(matches!(
        m.download("base.toml", &private("/dl")).next(),
        Err(Error::ValidRepoNotFound)
    ));
}

#[test]
fn a_text_comes_from_wherever_it_was_got() {
    let m = manager();
    let local = |read| TextSource::Local {
        remote: "disk".to_string(),
        path: "/mnt/f".to_string(),
        read,
    };
    let (text, remote) = m.download_to_string("f", local(Ok("t".to_string()))).unwrap();
    assert_eq!((text.as_str(), remote.as_str()), ("t", "disk"));
    match m.download_to_string("f", local(Err(io(IoErrorKind::Other)))) {
        Err(Error::IO(_, path, context)) => {
            assert_eq!((path.as_str(), context), ("/mnt/f", "Reading"));
        }
        other => panic!("expected IO, got {other:?}"),
    }

    let remote = |bytes: &[u8]| TextSource::Remote {
        outcome: Ok("a.example".to_string()),
        bytes: bytes.to_vec(),
    };
    let (text, from) = m
        .download_to_string("f", remote("\u{20ac}\u{1f600}x".as_bytes()))
        .unwrap();
    assert_eq!((text.as_str(), from.as_str()), ("\u{20ac}\u{1f600}x", "a.example"));
    match m.download_to_string("f", remote(&[0x61, 0xff])) {
        Err(Error::ContentIsNotValidUnicode(file)) => assert_eq!(file, "f"),
        other => panic!("expected ContentIsNotValidUnicode, got {other:?}"),
    }
    let failed = TextSource::Remote { outcome: Err(Error::ValidRepoNotFound), bytes: vec![] };
    assert!(matches!(m.download_to_string("f", failed), Err(Error::ValidRepoNotFound)));
}

#[test]
fn a_package_that_no_repository_has_is_not_found() {
    let m = manager();
    assert_eq!(RepoManager::toml_file(&name("base")), "base.toml");
    let failed = |e| TextSource::Remote { outcome: Err(e), bytes: vec![] };
    match m.get_package_toml(&name("base"), failed(Error::ValidRepoNotFound)) {
        Err(Error::Package(PackageError::PackageNotFound(p))) => assert_eq!(p.as_str(), "base"),
        other => panic!("expected PackageNotFound, got {other:?}"),
    }
    assert!(matches!(
        m.get_package_toml(&name("base"), failed(Error::Download(DownloadError::Timeout))),
        Err(Error::Download(DownloadError::Timeout))
    ));
    let bytes = TextSource::Remote { outcome: Ok("a.example".to_string()), bytes: vec![0xff] };
    match m.get_package_toml(&name("base"), bytes) {
        Err(Error::ContentIsNotValidUnicode(file)) => assert_eq!(file, "base.toml"),
        other => panic!("expected ContentIsNotValidUnicode, got {other:?}"),
    }
}

#[test]
fn an_archive_is_named_after_its_repository() {
    let m = manager();
    let base = name("base");
    assert_eq!(RepoManager::pkgar_file(&base), "base.pkgar");
    let scratch = m.scratch_path(&base, 12, 3);
    assert_eq!(scratch, "/dl/.12.3_base.pkgar");
    assert_ne!(scratch, m.scratch_path(&base, 1, 23));

    let got = ArchiveSource::Remote { outcome: Ok("a.example".to_string()) };
    let (path, remote) = m.sync_pkgar(&base, scratch.clone(), got).unwrap();
    assert_eq!((&path, remote.as_str()), (&scratch, "a.example"));
    let placed = m.get_package_pkgar(&base, path, &remote).unwrap();
    assert_eq!(placed.path, "/dl/a.example_base.pkgar");
    assert_eq!(placed.rename_from, Some(scratch.clone()));
    assert_eq!(placed.remote.name, "a.example");

    let again = m.get_package_pkgar(&base, "/dl/a.example_base.pkgar".to_string(), "a.example");
    assert_eq!(again.unwrap().rename_from, None);

    let on_disk = ArchiveSource::Local {
        remote: "disk".to_string(),
        path: "/mnt/repo/x86/base.pkgar".to_string(),
    };
    let (path, remote) = m.sync_pkgar(&base, scratch.clone(), on_disk).unwrap();
    let placed = m.get_package_pkgar(&base, path, &remote).unwrap();
    assert_eq!(placed.path, "/mnt/repo/x86/base.pkgar");
    assert_eq!(placed.rename_from, None);
}

#[test]
fn an_archive_that_cannot_be_had() {
    let m = manager();
    let base = name("base");
    match m.sync_pkgar(&base, "/dl/s".to_string(), ArchiveSource::NoDestination(io(IoErrorKind::Other))) {
        Err(Error::IO(_, path, context)) => {
            assert_eq!((path.as_str(), context), ("/dl/s", "Creating"));
        }
        other => panic!("expected IO, got {other:?}"),
    }
    let none = ArchiveSource::Remote { outcome: Err(Error::ValidRepoNotFound) };
    assert!(matches!(
        m.sync_pkgar(&base, "/dl/s".to_string(), none),
        Err(Error::Package(PackageError::PackageNotFound(_)))
    ));
    match m.get_package_pkgar(&base, "/dl/s".to_string(), "unknown") {
        Err(Error::RepoCacheNotFound(p)) => assert_eq!(p.as_str(), "base"),
        other => panic!("expected RepoCacheNotFound, got {other:?}"),
    }
}

#[test]
fn keys_are_loaded_in_the_order_of_the_names() {
    let mut m = manager();
    let dir = private("/dl");
    match m.sync_keys(&dir, 0, none_seen()) {
        KeyStep::CheckExists { file } => assert_eq!(file, "/dl/pub_key_a.example.toml"),
        other => panic!("expected CheckExists, got {other:?}"),
    }
    let seen = KeyProgress { exists: Some(false), ..none_seen() };
    match m.sync_keys(&dir, 0, seen) {
        KeyStep::Download { url, file } => {
            assert_eq!(url, "https://a.example:8080/pkg/id_ed25519.pub.toml");
            assert_eq!(file, "/dl/pub_key_a.example.toml");
        }
        other => panic!("expected Download, got {other:?}"),
    }
    let seen = KeyProgress { downloaded: Some(Ok(())), ..none_seen() };
    assert!(matches!(m.sync_keys(&dir, 0, seen), KeyStep::Open { .. }));
    let seen = KeyProgress { opened: Some(Ok(RepoPublicKeyFile::new([7; 32]))), ..none_seen() };
    let next = match m.sync_keys(&dir, 0, seen) {
        KeyStep::Loaded { file, remove, next } => {
            assert_eq!(file, "/dl/pub_key_a.example.toml");
            assert!(!remove);
            next
        }
        other => panic!("expected Loaded, got {other:?}"),
    };
    assert_eq!(m.get_remote_info("a.example").unwrap().pubkey, Some([7; 32]));

    let seen = KeyProgress { exists: Some(true), ..none_seen() };
    match m.sync_keys(&dir, next, seen) {
        KeyStep::Open { file } => assert_eq!(file, "/dl/pub_key_b.example.toml"),
        other => panic!("expected Open, got {other:?}"),
    }
    let seen = KeyProgress { opened: Some(Ok(RepoPublicKeyFile::new([8; 32]))), ..none_seen() };
    let next = match m.sync_keys(&dir, next, seen) {
        KeyStep::Loaded { next, .. } => next,
        other => panic!("expected Loaded, got {other:?}"),
    };
    assert!(matches!(m.sync_keys(&dir, next, none_seen()), KeyStep::Finished));
    // the keys that were there are kept
    assert_eq!(m.get_remote_info("disk").unwrap().pubkey, Some([1; 32]));
    for i in 0..m.remote_map.len() {
        assert!(m.remote_map.value_at(i).pubkey.is_some());
    }
}

#[test]
fn keys_can_be_forced_and_cleaned_up() {
    let mut m = manager();
    let dir = private("/dl");
    assert!(matches!(m.force_sync_keys(&dir, 0, none_seen()), KeyStep::Download { .. }));
    let seen = KeyProgress { exists: Some(true), ..none_seen() };
    assert!(matches!(m.force_sync_keys(&dir, 0, seen), KeyStep::Download { .. }));
    let seen = KeyProgress { opened: Some(Ok(RepoPublicKeyFile::new([7; 32]))), ..none_seen() };
    assert!(matches!(m.test_sync_keys(&dir, 0, seen), KeyStep::Loaded { remove: true, .. }));
}

/// Drives forced loading to its end, with a key file that holds `byte` for every repository.
fn force_all(m: &mut RepoManager, byte: u8) -> Vec<String> {
    let dir = private("/dl");
    let mut urls = Vec::new();
    let mut from = 0;
    let mut seen = none_seen();
    loop {
        match m.force_sync_keys(&dir, from, seen) {
            KeyStep::Download { url, .. } => {
                urls.push(url);
                seen = KeyProgress { downloaded: Some(Ok(())), ..none_seen() };
            }
            KeyStep::Open { .. } => {
                let key = RepoPublicKeyFile::new([byte; 32]);
                seen = KeyProgress { opened: Some(Ok(key)), ..none_seen() };
            }
            KeyStep::Loaded { next, .. } => {
                from = next;
                seen = none_seen();
            }
            KeyStep::Finished => return urls,
            other => panic!("unexpected {other:?}"),
        }
    }
}

/// A key that is loaded is downloaded again and replaced; one of this machine has no URL.
#[test]
fn forced_loading_replaces_loaded_keys() {
    let mut m = manager();
    let urls = [
        "https://a.example:8080/pkg/id_ed25519.pub.toml",
        "https://b.example/pkg/id_ed25519.pub.toml",
    ];
    assert_eq!(force_all(&mut m, 7), urls);
    assert_eq!(m.get_remote_info("a.example").unwrap().pubkey, Some([7; 32]));
    // without force there is nothing left to do
    assert!(matches!(m.sync_keys(&private("/dl"), 0, none_seen()), KeyStep::Finished));
    assert_eq!(force_all(&mut m, 8), urls);
    assert_eq!(m.get_remote_info("a.example").unwrap().pubkey, Some([8; 32]));
    assert_eq!(m.get_remote_info("b.example").unwrap().pubkey, Some([8; 32]));
    assert_eq!(m.get_remote_info("disk").unwrap().pubkey, Some([1; 32]));
}

/// This machine comes first, and what it has is not downloaded.
#[test]
fn a_file_on_this_machine_is_not_downloaded() {
    let m = manager();
    let fetch = |probe: &dyn Fn(&str) -> Result<bool, IoError>| {
        let mut search = m.local_search("f", &private("/dl"));
        let mut answer = None;
        loop {
            match search.step(answer) {
                FetchStep::Look { path } => answer = search.answer(probe(&path)),
                end => return end,
            }
        }
    };
    let missing = || Err(io(IoErrorKind::NotFound));
    assert!(matches!(fetch(&|_| missing()), FetchStep::Download));
    assert!(matches!(fetch(&|_| Ok(false)), FetchStep::Download));
    match fetch(&|p| if p.starts_with("/media") { Ok(true) } else { missing() }) {
        FetchStep::Use { remote, path } => {
            assert_eq!((remote.as_str(), path.as_str()), ("usb", "/media/usb/x86/f"));
        }
        other => panic!("expected Use, got {other:?}"),
    }
    match fetch(&|_| Ok(true)) {
        FetchStep::Use { remote, .. } => assert_eq!(remote, "disk"),
        other => panic!("expected Use, got {other:?}"),
    }
    assert!(matches!(
        fetch(&|_| Err(io(IoErrorKind::Other))),
        FetchStep::Fail(Error::IO(_, _, "Reading metadata"))
    ));
}

#[test]
fn a_key_that_cannot_be_loaded_ends_it() {
    let mut m = manager();
    let dir = private("/dl");
    let seen = KeyProgress { downloaded: Some(Err(DownloadError::Timeout)), ..none_seen() };
    assert!(matches!(
        m.sync_keys(&dir, 0, seen),
        KeyStep::Failed { remove: false, error: Error::Download(DownloadError::Timeout), .. }
    ));
    let seen = KeyProgress { opened: Some(Err(Error::TomlRead("x".to_string()))), ..none_seen() };
    match m.sync_keys(&dir, 0, seen) {
        KeyStep::Failed { file, remove, error: Error::TomlRead(_) } => {
            assert_eq!(file, "/dl/pub_key_a.example.toml");
            assert!(remove);
        }
        other => panic!("expected Failed, got {other:?}"),
    }
    assert_eq!(m.get_remote_info("a.example").unwrap().pubkey, None);
}

#[test]
fn a_repository_can_be_written_down() {
    let key = RepoPublicKeyFile::new([4; 32]);
    assert_eq!(key.pkey, [4; 32]);
    let remote = RemotePath {
        path: "p".to_string(),
        pubpath: "".to_string(),
        name: "n".to_string(),
        pubkey: Some(key.pkey),
    };
    assert!(remote.is_local());
    let copy = remote.duplicate();
    assert_eq!((copy.path, copy.name, copy.pubkey), ("p".to_string(), "n".to_string(), Some([4; 32])));
}
