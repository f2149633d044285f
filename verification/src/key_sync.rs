//! Loading the public keys of the repositories.
use crate::error::Error;
use crate::net_backend::DownloadError;
use crate::path::{join, path_join};
use crate::private_dir::PrivateDir;
use crate::repo_manager::{
    RemotePath, RemotePathView, RepoManager, RepoManagerView, RepoPublicKeyFile,
};
use crate::text::joined;
use vstd::prelude::*;

verus! {

/// How keys are loaded.
#[derive(Clone, Copy, Debug, PartialEq, Eq, Structural)]
pub struct KeySyncMode {
    /// Download every key, even if it is loaded or there is a file with it.
    pub force: bool,
    /// Delete the file once the key is loaded.
    pub cleanup: bool,
}

/// What is known so far of the key that is being loaded.
#[derive(Debug)]
pub struct KeyProgress {
    /// Whether there is a file with the key.
    pub exists: Option<bool>,
    /// What the download of the file gave.
    pub downloaded: Option<Result<(), DownloadError>>,
    /// What reading the file gave.
    pub opened: Option<Result<RepoPublicKeyFile, Error>>,
}

/// The next thing to do about the keys.
#[derive(Debug)]
pub enum KeyStep {
    /// Find out whether the file exists.
    CheckExists { file: String },
    /// Download the URL to the file.
    Download { url: String, file: String },
    /// Read the key from the file.
    Open { file: String },
    /// The key is loaded. Delete the file if told so, and go on at the position.
    Loaded { file: String, remove: bool, next: usize },
    /// A key cannot be loaded. Delete the file if told so: it is probably corrupted.
    Failed { file: String, remove: bool, error: Error },
    /// Every repository has its key.
    Finished,
}

/// The file with the key of a repository.
pub open spec fn key_file(dir: Seq<char>, name: Seq<char>) -> Seq<char> {
    path_join(dir, "pub_key_"@ + name + ".toml"@)
}

/// What to do about one key, given what is known so far. A file is downloaded if that is
/// forced or if there is none, then it is read.
pub open spec fn key_step_for(
    step: KeyStep,
    mode: KeySyncMode,
    entry: RemotePathView,
    dir: Seq<char>,
    at: int,
    seen: KeyProgress,
) -> bool {
    let path = key_file(dir, entry.name);
    if let Some(opened) = seen.opened {
        match opened {
            Ok(_) => step matches KeyStep::Loaded { file, remove, next } && file@ == path && remove
                == mode.cleanup && next == at + 1,
            Err(e) => step matches KeyStep::Failed { file, remove, error } && file@ == path
                && remove && error == e,
        }
    } else if let Some(downloaded) = seen.downloaded {
        match downloaded {
            Ok(_) => step matches KeyStep::Open { file } && file@ == path,
            Err(e) => step matches KeyStep::Failed { file, remove, error } && file@ == path
                && !remove && error == Error::Download(e),
        }
    } else if mode.force || seen.exists == Some(false) {
        step matches KeyStep::Download { url, file } && url@ == entry.pubpath && file@ == path
    } else if seen.exists is None {
        step matches KeyStep::CheckExists { file } && file@ == path
    } else {
        step matches KeyStep::Open { file } && file@ == path
    }
}

/// Whether the key of a repository is to be loaded: it has none, or loading is forced and there is
/// a place to load it from.
pub open spec fn is_to_load(entry: RemotePathView, force: bool) -> bool {
    entry.pubkey is None || (force && entry.pubpath.len() > 0)
}

impl RepoManager {
    /// The repository at a position in the order of the names.
    pub open spec fn entry_at(&self, i: int) -> RemotePathView {
        self@.remote_map[self.remote_map.names()[i]]
    }

    /// Whether the repositories before a position have their keys.
    pub open spec fn keyed_before(&self, n: int) -> bool {
        forall|i: int|
            0 <= i < n && i < self.remote_map.names().len() ==> #[trigger] self.entry_at(
                i,
            ).pubkey is Some
    }

    /// The first position, from the given one on, of a repository whose key is to be loaded, or
    /// the number of repositories.
    pub open spec fn next_to_load(&self, from: int, force: bool) -> int
        decreases self.remote_map.names().len() - from,
    {
        if from >= self.remote_map.names().len() {
            self.remote_map.names().len() as int
        } else if is_to_load(self.entry_at(from), force) {
            from
        } else {
            self.next_to_load(from + 1, force)
        }
    }

    /// The first position, from the given one on, of a repository without a key, or the number of
    /// repositories.
    pub open spec fn next_keyless(&self, from: int) -> int {
        self.next_to_load(from, false)
    }
}

/// The same repository with its key.
pub open spec fn with_key(entry: RemotePathView, key: Seq<u8>) -> RemotePathView {
    RemotePathView { pubkey: Some(key), ..entry }
}

/// Whether `step` is the next thing to do for `before` and what is known, and `after` is what it
/// makes of the manager: the key that could be read, if any, is set, and nothing else changes.
pub open spec fn key_sync_stepped(
    before: RepoManager,
    after: RepoManager,
    step: KeyStep,
    mode: KeySyncMode,
    from: int,
    seen: KeyProgress,
) -> bool {
    let at = before.next_to_load(from, mode.force);
    &&& after.remote_map.names() == before.remote_map.names()
    &&& if at < before.remote_map.names().len() {
        &&& key_step_for(step, mode, before.entry_at(at), before@.download_path, at, seen)
        &&& after@ == (match seen.opened {
            Some(Ok(key)) => RepoManagerView {
                remote_map: before@.remote_map.insert(
                    before.remote_map.names()[at],
                    with_key(before.entry_at(at), key@),
                ),
                ..before@
            },
            _ => before@,
        })
    } else {
        &&& step is Finished
        &&& after@ == before@
    }
}

pub(crate) proof fn lemma_next_to_load(m: RepoManager, from: int, force: bool)
    requires
        0 <= from,
    ensures
        from < m.remote_map.names().len() ==> from <= m.next_to_load(from, force)
            <= m.remote_map.names().len(),
        from >= m.remote_map.names().len() ==> m.next_to_load(from, force)
            == m.remote_map.names().len(),
        forall|i: int|
            from <= i < m.next_to_load(from, force) ==> !is_to_load(
                #[trigger] m.entry_at(i),
                force,
            ),
        m.next_to_load(from, force) < m.remote_map.names().len() ==> is_to_load(
            m.entry_at(m.next_to_load(from, force)),
            force,
        ),
    decreases m.remote_map.names().len() - from,
{
    if from < m.remote_map.names().len() && !is_to_load(m.entry_at(from), force) {
        lemma_next_to_load(m, from + 1, force);
    }
}

/// Once a key is loaded, all repositories up to the next position have theirs; and once nothing
/// is left to do, all have.
pub proof fn law_finished_key_sync_leaves_no_key_missing(
    before: RepoManager,
    after: RepoManager,
    step: KeyStep,
    mode: KeySyncMode,
    from: int,
    seen: KeyProgress,
)
    requires
        before.remote_map.wf(),
        0 <= from,
        before.keyed_before(from),
        key_sync_stepped(before, after, step, mode, from, seen),
    ensures
        step matches KeyStep::Loaded { next, .. } ==> from < next && after.keyed_before(
            next as int,
        ),
        step is Finished ==> after.keyed_before(after.remote_map.names().len() as int),
{
    lemma_next_to_load(before, from, mode.force);
    before.remote_map.lemma_names();
    let at = before.next_to_load(from, mode.force);
    if let KeyStep::Loaded { next, .. } = step {
        assert forall|i: int|
            0 <= i < next && i < after.remote_map.names().len() implies #[trigger] after.entry_at(
            i,
        ).pubkey is Some by {
            if i < at {
                assert(before.entry_at(i).pubkey is Some);
            }
        }
    }
    if step is Finished {
        assert forall|i: int|
            0 <= i < after.remote_map.names().len() implies #[trigger] after.entry_at(
            i,
        ).pubkey is Some by {
            assert(before.entry_at(i).pubkey is Some);
        }
    }
}

/// Forced loading leaves out no repository on the network, whether or not its key is loaded: those
/// that a step passes over have no place to load a key from. The key that was read takes the place
/// of the one that was there.
pub proof fn law_forced_key_sync_reaches_every_repository(
    before: RepoManager,
    after: RepoManager,
    step: KeyStep,
    mode: KeySyncMode,
    from: int,
    seen: KeyProgress,
)
    requires
        before.remote_map.wf(),
        0 <= from,
        mode.force,
        key_sync_stepped(before, after, step, mode, from, seen),
    ensures
        step is Finished ==> forall|i: int|
            from <= i < before.remote_map.names().len() ==> (#[trigger] before.entry_at(
                i,
            )).pubpath.len() == 0,
        step matches KeyStep::Loaded { next, .. } ==> {
            &&& forall|i: int|
                from <= i < next - 1 ==> (#[trigger] before.entry_at(i)).pubpath.len() == 0
            &&& seen.opened matches Some(Ok(key)) && after.entry_at(next - 1).pubkey == Some(key@)
        },
        step !is CheckExists,
{
    lemma_next_to_load(before, from, mode.force);
    before.remote_map.lemma_names();
}

/// Unless loading is forced it never replaces a key: a repository that has its key keeps it.
pub proof fn law_key_sync_keeps_known_keys(
    before: RepoManager,
    after: RepoManager,
    step: KeyStep,
    mode: KeySyncMode,
    from: int,
    seen: KeyProgress,
    name: Seq<char>,
)
    requires
        before.remote_map.wf(),
        0 <= from,
        !mode.force,
        key_sync_stepped(before, after, step, mode, from, seen),
        before@.remote_map.contains_key(name),
        before@.remote_map[name].pubkey is Some,
    ensures
        after@.remote_map.contains_key(name),
        after@.remote_map[name] == before@.remote_map[name],
{
    lemma_next_to_load(before, from, mode.force);
    before.remote_map.lemma_names();
}

/// The key file of a repository lies in the download directory and is named after the repository,
/// so that no two repositories share one.
pub proof fn law_key_files_are_distinct(dir: Seq<char>, a: Seq<char>, b: Seq<char>)
    ensures
        dir.len() > 0 && dir.last() != '/' ==> key_file(dir, a) == dir + "/"@ + ("pub_key_"@ + a
            + ".toml"@),
        key_file(dir, a) == key_file(dir, b) ==> a == b,
{
    reveal_strlit("pub_key_");
    reveal_strlit(".toml");
    let (f, g) = ("pub_key_"@ + a + ".toml"@, "pub_key_"@ + b + ".toml"@);
    assert(f[0] == 'p' && g[0] == 'p');
    if key_file(dir, a) == key_file(dir, b) {
        let (x, y) = (key_file(dir, a), key_file(dir, b));
        assert(x.skip(x.len() - f.len()) =~= f);
        assert(y.skip(y.len() - g.len()) =~= g);
        assert(f.subrange(8, f.len() - 5) =~= a);
        assert(g.subrange(8, g.len() - 5) =~= b);
    }
}

/// What is done about the first key to load, which is the one of the first repository that has
/// none, or that has a place to load it from where loading is forced. All steps are about the key
/// file of that repository. It is downloaded from its own URL, if that is forced or there is no
/// file, and read; the key that was read becomes the key of that repository, and nothing else
/// changes. A file that could not be read is deleted, and one that was read only where it is to be
/// cleaned up.
pub proof fn law_first_key_to_load_is_loaded(
    before: RepoManager,
    after: RepoManager,
    step: KeyStep,
    mode: KeySyncMode,
    from: int,
    seen: KeyProgress,
    at: int,
    other: Seq<char>,
)
    requires
        key_sync_stepped(before, after, step, mode, from, seen),
        0 <= from <= at < before.remote_map.names().len(),
        forall|i: int|
            from <= i < at ==> (#[trigger] before.entry_at(i)).pubkey is Some && (!mode.force
                || before.entry_at(i).pubpath.len() == 0),
        before.entry_at(at).pubkey is None || (mode.force && before.entry_at(at).pubpath.len() > 0),
    ensures
        ({
            let entry = before.entry_at(at);
            let name = before.remote_map.names()[at];
            let path = path_join(before@.download_path, "pub_key_"@ + entry.name + ".toml"@);
            &&& step is Loaded <==> (seen.opened matches Some(r) && r is Ok)
            &&& step is Failed <==> (seen.opened matches Some(r) && r is Err) || (
            seen.opened is None && (seen.downloaded matches Some(r) && r is Err))
            &&& step is Download <==> seen.opened is None && seen.downloaded is None && (mode.force
                || seen.exists == Some(false))
            &&& step is CheckExists <==> seen.opened is None && seen.downloaded is None
                && !mode.force && seen.exists is None
            &&& step is Open <==> seen.opened is None && ((seen.downloaded matches Some(r)
                && r is Ok) || (seen.downloaded is None && !mode.force && (seen.exists matches Some(there)
                && there)))
            &&& step matches KeyStep::Download { url, file } ==> url@ == entry.pubpath && file@
                == path
            &&& step matches KeyStep::CheckExists { file } ==> file@ == path
            &&& step matches KeyStep::Open { file } ==> file@ == path
            &&& step matches KeyStep::Loaded { file, remove, next } ==> file@ == path && remove
                == mode.cleanup && next == at + 1
            &&& step matches KeyStep::Failed { file, remove, error } ==> {
                &&& file@ == path
                &&& remove <==> seen.opened is Some
                &&& seen.opened matches Some(Err(e)) ==> error == e
                &&& seen.opened is None ==> (seen.downloaded matches Some(Err(e)) && error
                    == Error::Download(e))
            }
            &&& step !is Loaded ==> after@ == before@
            &&& seen.opened matches Some(Ok(key)) ==> {
                &&& after@.remote_map.contains_key(name)
                &&& after@.remote_map[name].pubkey == Some(key.pkey@)
                &&& after@.remote_map[name].path == entry.path
                &&& after@.remote_map[name].pubpath == entry.pubpath
                &&& after@.remote_map[name].name == entry.name
            }
            &&& other != name ==> {
                &&& after@.remote_map.contains_key(other) <==> before@.remote_map.contains_key(
                    other,
                )
                &&& after@.remote_map[other] == before@.remote_map[other]
            }
            &&& after@.remotes == before@.remotes
            &&& after@.locals == before@.locals
            &&& after@.download_path == before@.download_path
        }),
{
    lemma_next_to_load(before, from, mode.force);
    let first = before.next_to_load(from, mode.force);
    if first < at {
        assert(before.entry_at(first).pubkey is Some);
    }
    if first > at {
        assert(!is_to_load(before.entry_at(at), mode.force));
    }
    if let Some(there) = seen.exists {
        assert(!there ==> seen.exists == Some(false));
    }
}

/// Where no key is left to load, nothing is done.
pub proof fn law_nothing_is_done_without_a_key_to_load(
    before: RepoManager,
    after: RepoManager,
    step: KeyStep,
    mode: KeySyncMode,
    from: int,
    seen: KeyProgress,
)
    requires
        key_sync_stepped(before, after, step, mode, from, seen),
        0 <= from,
        forall|i: int|
            from <= i < before.remote_map.names().len() ==> (#[trigger] before.entry_at(i)).pubkey
                is Some && (!mode.force || before.entry_at(i).pubpath.len() == 0),
    ensures
        step is Finished,
        after@ == before@,
{
    lemma_next_to_load(before, from, mode.force);
    let first = before.next_to_load(from, mode.force);
    if first < before.remote_map.names().len() {
        assert(before.entry_at(first).pubkey is Some);
    }
}

/// Loading keys keeps the lists in line with what is known.
pub proof fn law_key_sync_keeps_the_lists_consistent(
    before: RepoManager,
    after: RepoManager,
    step: KeyStep,
    mode: KeySyncMode,
    from: int,
    seen: KeyProgress,
)
    requires
        before.remote_map.wf(),
        0 <= from,
        before@.consistent(),
        key_sync_stepped(before, after, step, mode, from, seen),
    ensures
        after@.consistent(),
{
    lemma_next_to_load(before, from, mode.force);
    before.remote_map.lemma_names();
    let at = before.next_to_load(from, mode.force);
    if at < before.remote_map.names().len() {
        assert(before@.remote_map.contains_key(before.remote_map.names()[at]));
    }
    assert(after@.remote_map.dom() =~= before@.remote_map.dom());
    assert forall|n: Seq<char>|
        after@.remote_map.contains_key(n) <==> #[trigger] after@.remotes.contains(n)
            || after@.locals.contains(n) by {
        assert(before@.remote_map.contains_key(n) <==> before@.remotes.contains(n)
            || before@.locals.contains(n));
    }
    assert forall|n: Seq<char>| after@.remote_map.contains_key(n) implies (
    #[trigger] after@.remote_map[n]).name == n by {
        assert(before@.remote_map[n].name == n);
    }
}

impl RepoManager {
    /// Sets the key of the repository at a position.
    pub(crate) fn set_key(&mut self, at: usize, key: RepoPublicKeyFile)
        requires
            at < old(self).remote_map.names().len(),
        ensures
            final(self).remote_map.names() == old(self).remote_map.names(),
            final(self)@ == (RepoManagerView {
                remote_map: old(self)@.remote_map.insert(
                    old(self).remote_map.names()[at as int],
                    with_key(old(self).entry_at(at as int), key@),
                ),
                ..old(self)@
            }),
    {
        let entry = self.remote_map.value_at(at);
        let changed = RemotePath {
            path: entry.path.clone(),
            pubpath: entry.pubpath.clone(),
            name: entry.name.clone(),
            pubkey: Some(key.pkey),
        };
        self.remote_map.replace_at(at, changed);
    }

    /// Whether the key of a repository is to be loaded.
    fn loads_key_of(entry: &RemotePath, force: bool) -> (r: bool)
        ensures
            r == is_to_load(entry@, force),
    {
        entry.pubkey.is_none() || (force && !entry.is_local())
    }

    /// The next thing to do to load keys, from a position on. `seen` is what is known of the first
    /// key to load there. A key that could be read is set.
    fn sync_keys_internal(
        &mut self,
        dir: &PrivateDir,
        force: bool,
        cleanup: bool,
        from: usize,
        seen: KeyProgress,
    ) -> (step: KeyStep)
        requires
            dir@ == old(self)@.download_path,
        ensures
            key_sync_stepped(
                *old(self),
                *final(self),
                step,
                KeySyncMode { force, cleanup },
                from as int,
                seen,
            ),
    {
        let count: usize = self.remote_map.len();
        let mut at: usize = from;
        while at < count && !Self::loads_key_of(self.remote_map.value_at(at), force)
            invariant
                from <= at,
                at <= count || at == from,
                count == self.remote_map.names().len(),
                *self == *old(self),
                self.next_to_load(from as int, force) == self.next_to_load(at as int, force),
            decreases count - at,
        {
            at = at + 1;
        }
        if at >= count {
            return KeyStep::Finished;
        }
        let entry = self.remote_map.value_at(at);
        let file = join(
            self.download_path.as_str(),
            joined("pub_key_", entry.name.as_str(), ".toml").as_str(),
        );
        let url = entry.pubpath.clone();
        if let Some(opened) = seen.opened {
            match opened {
                Ok(key) => {
                    self.set_key(at, key);
                    KeyStep::Loaded { file, remove: cleanup, next: at + 1 }
                },
                Err(error) => KeyStep::Failed { file, remove: true, error },
            }
        } else if let Some(downloaded) = seen.downloaded {
            match downloaded {
                Ok(_) => KeyStep::Open { file },
                Err(e) => KeyStep::Failed { file, remove: false, error: Error::Download(e) },
            }
        } else {
            match seen.exists {
                Some(true) => if force {
                    KeyStep::Download { url, file }
                } else {
                    KeyStep::Open { file }
                },
                Some(false) => KeyStep::Download { url, file },
                None => if force {
                    KeyStep::Download { url, file }
                } else {
                    KeyStep::CheckExists { file }
                },
            }
        }
    }

    /// The next thing to do to load the missing keys, from a position on, where a key file that
    /// exists is used. `seen` is what is known of the first missing key there.
    pub fn sync_keys(&mut self, dir: &PrivateDir, from: usize, seen: KeyProgress) -> (step: KeyStep)
        requires
            dir@ == old(self)@.download_path,
        ensures
            key_sync_stepped(
                *old(self),
                *final(self),
                step,
                KeySyncMode { force: false, cleanup: false },
                from as int,
                seen,
            ),
    {
        self.sync_keys_internal(dir, false, false, from, seen)
    }

    /// The next thing to do to download all keys forcibly, from a position on. A key that is loaded
    /// or that there is a file with is downloaded again, and replaced. `seen` is what is known of
    /// the first key to load there.
    pub fn force_sync_keys(&mut self, dir: &PrivateDir, from: usize, seen: KeyProgress) -> (step:
        KeyStep)
        requires
            dir@ == old(self)@.download_path,
        ensures
            key_sync_stepped(
                *old(self),
                *final(self),
                step,
                KeySyncMode { force: true, cleanup: false },
                from as int,
                seen,
            ),
    {
        self.sync_keys_internal(dir, true, false, from, seen)
    }

    /// The same, where no file is left.
    pub fn test_sync_keys(&mut self, dir: &PrivateDir, from: usize, seen: KeyProgress) -> (step:
        KeyStep)
        requires
            dir@ == old(self)@.download_path,
        ensures
            key_sync_stepped(
                *old(self),
                *final(self),
                step,
                KeySyncMode { force: true, cleanup: true },
                from as int,
                seen,
            ),
    {
        self.sync_keys_internal(dir, true, true, from, seen)
    }
}

} // verus!
