//! The decisions of a package manager client, separated from its I/O.
use vstd::prelude::*;

pub mod backend_laws;
pub mod commit_queue;
pub mod error;
pub mod fetch;
pub mod hexadecimal;
pub mod index;
pub mod key_sync;
pub mod manifest_sig;
pub mod name_map;
pub mod net_backend;
pub mod number;
pub mod operation_laws;
pub mod outcome_laws;
pub mod package;
pub mod package_state;
pub mod path;
pub mod pkgar_backend;
pub mod private_dir;
pub mod repo_manager;
pub mod sources;
pub mod text;
pub mod text_laws;

verus! {

/// The default download directory.
pub const DOWNLOAD_DIR: &'static str = "/tmp/pkg_download/";

/// The record of the installed packages, below the install root.
pub const PACKAGES_TOML_PATH: &'static str = "etc/pkg/packages.toml";

/// The directory of the files that list repositories, below the install root.
pub const PACKAGES_REMOTE_DIR: &'static str = "etc/pkg.d";

/// The pinned public key for the signature of the package index, below the install root.
pub const REPO_SIGN_PUBKEY_PATH: &'static str = "etc/pkg/eos-repo-sign.pub.toml";

/// The highest serial that was accepted, below the install root. A plain file: it defends against
/// the network, not against whoever administers the machine.
pub const REPO_STATE_PATH: &'static str = "etc/pkg/repo-state.toml";

/// The directory of the headers of the installed packages, below the install root.
pub const PACKAGES_HEAD_DIR: &'static str = "var/lib/packages";

} // verus!
