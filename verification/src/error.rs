//! What can go wrong.
use crate::net_backend::DownloadError;
use crate::package::{PackageError, PackageName};
use vstd::prelude::*;

verus! {

/// What the client distinguishes among the failures of the operating system.
#[derive(Clone, Copy, Debug, PartialEq, Eq, Structural)]
pub enum IoErrorKind {
    NotFound,
    PermissionDenied,
    InvalidInput,
    Other,
}

/// A failure of the operating system.
#[derive(Debug)]
pub struct IoError {
    pub kind: IoErrorKind,
    pub message: String,
}

/// A failure of the package archive library.
#[derive(Debug)]
pub enum PkgarError {
    DataNotInitialized,
    Failed(String),
}

/// Why an operation of the package manager did not succeed.
#[derive(Debug)]
pub enum Error {
    ValidRepoNotFound,
    RepoPathInvalid(String),
    RepoRecursion(Vec<PackageName>),
    RepoCacheNotFound(PackageName),
    RepoNotLoaded(String),
    PackageNotFound(PackageName),
    PackageNotInstalled(PackageName),
    PackageNameInvalid(String),
    Package(PackageError),
    PathIsNotValidUnicode(String),
    ContentIsNotValidUnicode(String),
    MissingPermissions,
    Interrupted,
    ProtectedPackage(PackageName),
    /// The failure, the path it concerns, and what was being done.
    IO(IoError, String, &'static str),
    Download(DownloadError),
    TomlRead(String),
    /// A manifest key is pinned, but the index has no signature.
    RepoManifestUnsigned,
    RepoManifestSigInvalid(&'static str),
    /// The index is older than one that this machine has already accepted.
    RepoManifestRollback { got: u64, seen: u64 },
    /// The index is past its expiry: a host may be withholding newer ones.
    RepoManifestExpired { expires: u64, now: u64 },
    /// The archive is not the one that the signed index vouches for.
    ManifestHashMismatch { package: PackageName, expected: String, actual: String },
    PackageNotInManifest(PackageName),
    Pkgar(PkgarError),
}

/// Whether `e` reports this failure of the operating system on this path.
pub open spec fn reports_io(
    e: Error,
    source: IoError,
    path: Seq<char>,
    context: Seq<char>,
) -> bool {
    e matches Error::IO(s, p, c) && s == source && p@ == path && c@ == context
}

/// Whether `e` is what such a failure becomes: a denied permission gets an error of its own.
pub open spec fn wraps_io(e: Error, source: IoError, path: Seq<char>, context: Seq<char>) -> bool {
    if source.kind == IoErrorKind::PermissionDenied {
        e is MissingPermissions
    } else {
        reports_io(e, source, path, context)
    }
}

/// A denied permission is told as such. Any other failure of the operating system is told with all
/// that is known of it: what it was, on which path, and in what context.
pub proof fn law_io_failures_are_told_in_full(
    e: Error,
    source: IoError,
    path: Seq<char>,
    context: Seq<char>,
)
    requires
        wraps_io(e, source, path, context),
    ensures
        e is MissingPermissions <==> source.kind is PermissionDenied,
        !(source.kind is PermissionDenied) ==> (e matches Error::IO(s, p, c) && s == source && p@
            == path && c@ == context),
{
}

/// A failure that is reported as it is names what it was, on which path, and in what context,
/// whatever its kind.
pub proof fn law_reported_failure_is_complete(
    e: Error,
    source: IoError,
    path: Seq<char>,
    context: Seq<char>,
)
    ensures
        reports_io(e, source, path, context) <==> (e matches Error::IO(s, p, c) && s == source && p@
            == path && c@ == context),
{
}

/// The error for a failure of the operating system.
pub fn wrap_io_err(source: IoError, path: &str, context: &'static str) -> (r: Error)
    ensures
        wraps_io(r, source, path@, context@),
{
    if source.kind == IoErrorKind::PermissionDenied {
        Error::MissingPermissions
    } else {
        Error::IO(source, path.to_owned(), context)
    }
}

} // verus!
