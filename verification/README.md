# pkg

The package manager client. It finds packages in repositories on the network and on this machine,
checks them against a signed index, and installs, upgrades and removes them.

- `src/` is the library: every decision of the client, as functions from plain values to plain
  values, with contracts that Verus proves. What needs the file system, the network or the contents
  of an archive is returned as the next step to carry out.
- `app/` carries out the steps.
- `tests/` runs the library on concrete values.

What is proved, among other things:

- An index that was accepted cannot be rolled back, and an expired one is refused
  (`src/index.rs`).
- Where a key is pinned and a repository is on the network, nothing of an archive is extracted
  before an index that was signed with that key vouched for its hash (`src/pkgar_backend.rs`).
- A file that a repository on this machine has is not downloaded (`src/fetch.rs`).
- Downloads go to a directory that only its owner can write into (`src/private_dir.rs`), under names
  that no two downloads share (`src/net_backend.rs`).
- A commit that fails can be resumed (`src/pkgar_backend.rs`), and no file is changed twice
  (`src/commit_queue.rs`).
