use pkg::error::{Error, IoError, IoErrorKind};
use pkg::net_backend::{
    after_download, mark, part_suffix, DownloadBackendWriter, DownloadError, PartAction,
};
use pkg::private_dir::{ensure_private_dir, DirMeta, DirOp};

fn io(kind: IoErrorKind) -> IoError {
    IoError { kind, message: "m".to_string() }
}

fn dir(uid: u32, mode: u32) -> DirMeta {
    DirMeta { is_symlink: false, is_dir: true, uid, mode }
}

fn steps(us: u32, meta: Result<DirMeta, IoError>) -> Vec<DirOp> {
    let mut setup = ensure_private_dir("/d", us, meta).expect("the directory is acceptable");
    let mut ops = Vec::new();
    while let Some(op) = setup.next() {
        ops.push(op);
        setup.answer(Ok(())).unwrap();
    }
    assert_eq!(setup.finish().unwrap().path(), "/d");
    ops
}

#[test]
fn a_shared_directory_of_ours_is_tightened() {
    for mode in [0o777u32, 0o40777, 0o1772, 0o720, 0o702] {
        match steps(5, Ok(dir(5, mode))).as_slice() {
            [DirOp::SetMode(tight)] => {
                assert_eq!(tight & 0o022, 0);
                assert_eq!(*tight, mode & !0o022);
            }
            other => panic!("expected one step, got {other:?}"),
        }
    }
    assert_eq!(steps(5, Ok(dir(5, 0o40755))), []);
    assert_eq!(steps(5, Ok(dir(5, 0o700))), []);
}

#[test]
fn a_new_directory_is_closed_to_others() {
    assert_eq!(
        steps(5, Err(io(IoErrorKind::NotFound))),
        [DirOp::CreateAll, DirOp::SetMode(0o700)]
    );
}

#[test]
fn a_link_or_file_is_refused_as_directory() {
    for (is_symlink, is_dir) in [(true, false), (true, true), (false, false)] {
        let meta = DirMeta { is_symlink, is_dir, uid: 5, mode: 0o700 };
        match ensure_private_dir("/d", 5, Ok(meta)) {
            Err(Error::IO(e, path, context)) => {
                assert_eq!(e.kind, IoErrorKind::InvalidInput);
                assert_eq!(
                    e.message,
                    "download path is a symlink or not a directory; refusing to use it"
                );
                assert_eq!((path.as_str(), context), ("/d", "Checking dir"));
            }
            other => panic!("expected IO, got {other:?}"),
        }
    }
}

#[test]
fn a_directory_of_someone_else_is_refused() {
    match ensure_private_dir("/d", 5, Ok(dir(0, 0o700))) {
        Err(Error::IO(e, path, context)) => {
            // not told as a missing permission of ours
            assert_eq!(e.kind, IoErrorKind::PermissionDenied);
            assert_eq!(
                e.message,
                "download path belongs to uid 0, not to us (uid 5); refusing to use it"
            );
            assert_eq!((path.as_str(), context), ("/d", "Checking owner"));
        }
        other => panic!("expected IO, got {other:?}"),
    }
}

#[test]
fn an_unreadable_directory_is_refused() {
    match ensure_private_dir("/d", 5, Err(io(IoErrorKind::PermissionDenied))) {
        Err(Error::IO(e, path, context)) => {
            assert_eq!(e.kind, IoErrorKind::PermissionDenied);
            assert_eq!((path.as_str(), context), ("/d", "Reading metadata"));
        }
        other => panic!("expected IO, got {other:?}"),
    }
}

#[test]
fn a_step_that_fails_leaves_no_private_directory() {
    let mut setup = ensure_private_dir("/d", 5, Err(io(IoErrorKind::NotFound))).unwrap();
    match setup.answer(Err(io(IoErrorKind::Other))) {
        Err(Error::IO(_, path, context)) => {
            assert_eq!((path.as_str(), context), ("/d", "Creating dir"));
        }
        other => panic!("expected IO, got {other:?}"),
    }
    setup.answer(Ok(())).unwrap();
    match setup.answer(Err(io(IoErrorKind::Other))) {
        Err(Error::IO(_, path, context)) => {
            assert_eq!((path.as_str(), context), ("/d", "Securing dir"));
        }
        other => panic!("expected IO, got {other:?}"),
    }
    assert!(matches!(
        setup.answer(Err(io(IoErrorKind::PermissionDenied))),
        Err(Error::MissingPermissions)
    ));
    assert_eq!(setup.next(), Some(DirOp::SetMode(0o700)));
    assert!(setup.finish().is_none());
}

#[test]
fn temporary_names_carry_process_and_number() {
    assert_eq!(mark(12, 345), ".12.345");
    assert_eq!(part_suffix(0, 0), ".0.0.part");
    assert_eq!(part_suffix(u32::MAX, u64::MAX), ".4294967295.18446744073709551615.part");
    assert_ne!(part_suffix(1, 23), part_suffix(12, 3));
    assert_ne!(part_suffix(1, 2), part_suffix(2, 1));
}

#[test]
fn only_a_complete_download_is_published() {
    assert!(matches!(after_download(Ok(())), PartAction::Publish));
    assert!(matches!(
        after_download(Err(DownloadError::HttpStatus(404))),
        PartAction::Discard(DownloadError::HttpStatus(404))
    ));
}

#[test]
fn a_writer_gives_back_what_it_holds() {
    let buf: DownloadBackendWriter<u8> = DownloadBackendWriter::ToBuf(vec![1, 2, 3]);
    assert_eq!(buf.to_inner_buf(), [1, 2, 3]);
    assert_eq!(DownloadBackendWriter::ToFile(7u8).to_inner_file(), 7);
}

#[test]
fn failures_of_the_client_are_sorted() {
    let sorted = |timeout, by_status, status| {
        DownloadError::classify(timeout, by_status, status, "text".to_string())
    };
    assert!(matches!(sorted(true, true, Some(404)), DownloadError::Timeout));
    assert!(matches!(sorted(false, true, Some(404)), DownloadError::HttpStatus(404)));
    assert!(matches!(sorted(false, true, None), DownloadError::HttpStatus(500)));
    match sorted(false, false, Some(404)) {
        DownloadError::Reqwest(text) => assert_eq!(text, "text"),
        other => panic!("expected Reqwest, got {other:?}"),
    }
}

/// A request that cannot be built fails neither by timeout nor by status.
#[test]
fn a_failure_of_the_client_keeps_its_text() {
    let err = reqwest::blocking::Client::new().get("no url").build().unwrap_err();
    let text = err.to_string();
    match DownloadError::from_reqwest(&err) {
        DownloadError::Reqwest(t) => {
            assert_eq!(t, text);
            assert!(!t.is_empty());
        }
        other => panic!("expected Reqwest, got {other:?}"),
    }
}
