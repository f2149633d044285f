//! The repositories that packages come from.
use crate::error::Error;
use crate::name_map::{Duplicate, NameMap};
use crate::package::RemoteName;
use crate::path::{join, path_join};
use crate::text::{find, find_text, joined, lemma_find, split_text, until};
use crate::text_laws::law_first_occurrence_is_found;
use crate::DOWNLOAD_DIR;
use vstd::prelude::*;

verus! {

/// The name of a public key file.
pub const PUB_TOML: &'static str = "id_ed25519.pub.toml";

/// The public key of a repository.
pub type RepoPublicKey = [u8; 32];

/// The content of a public key file.
#[derive(Clone, Copy, Debug)]
pub struct RepoPublicKeyFile {
    pub pkey: RepoPublicKey,
}

impl View for RepoPublicKeyFile {
    type V = Seq<u8>;

    open spec fn view(&self) -> Seq<u8> {
        self.pkey@
    }
}

impl Duplicate for RepoPublicKeyFile {
    fn duplicate(&self) -> (r: Self) {
        *self
    }
}

impl RepoPublicKeyFile {
    /// The content for a key.
    pub fn new(pubkey: RepoPublicKey) -> (r: Self)
        ensures
            r.pkey == pubkey,
            r@ == pubkey@,
    {
        RepoPublicKeyFile { pkey: pubkey }
    }
}

/// A repository.
#[derive(Debug)]
pub struct RemotePath {
    /// The URL or directory of the packages. Empty for the source of the installer.
    pub path: String,
    /// The URL of the public key. Empty for a local repository.
    pub pubpath: String,
    /// The identifier of the repository.
    pub name: RemoteName,
    /// The public key, once it is loaded.
    pub pubkey: Option<RepoPublicKey>,
}

/// What a repository is.
pub struct RemotePathView {
    pub path: Seq<char>,
    pub pubpath: Seq<char>,
    pub name: Seq<char>,
    pub pubkey: Option<Seq<u8>>,
}

/// The bytes of a key that may not be loaded.
pub open spec fn key_bytes(key: Option<RepoPublicKey>) -> Option<Seq<u8>> {
    match key {
        Some(k) => Some(k@),
        None => None,
    }
}

impl View for RemotePath {
    type V = RemotePathView;

    open spec fn view(&self) -> RemotePathView {
        RemotePathView {
            path: self.path@,
            pubpath: self.pubpath@,
            name: self.name@,
            pubkey: key_bytes(self.pubkey),
        }
    }
}

impl Duplicate for RemotePath {
    fn duplicate(&self) -> (r: Self) {
        RemotePath {
            path: self.path.clone(),
            pubpath: self.pubpath.clone(),
            name: self.name.clone(),
            pubkey: self.pubkey,
        }
    }
}

impl RemotePath {
    /// Whether the repository is a directory of this machine.
    pub fn is_local(&self) -> (r: bool)
        ensures
            r == (self@.pubpath.len() == 0),
    {
        self.pubpath.as_str().is_empty()
    }
}

/// The known repositories, and where downloads go.
#[derive(Debug)]
pub struct RepoManager {
    /// The repositories to download from, in the order in which they are asked.
    pub remotes: Vec<RemoteName>,
    /// The repositories on this machine, in the order in which they are searched.
    pub locals: Vec<RemoteName>,
    /// What each of them is.
    pub remote_map: NameMap<RemotePath>,
    /// The download directory.
    pub download_path: String,
}

/// What the manager knows.
pub struct RepoManagerView {
    pub remotes: Seq<Seq<char>>,
    pub locals: Seq<Seq<char>>,
    pub remote_map: Map<Seq<char>, RemotePathView>,
    pub download_path: Seq<char>,
}

/// The texts of a row of strings.
pub open spec fn texts(v: Seq<String>) -> Seq<Seq<char>> {
    v.map_values(|s: String| s@)
}

impl View for RepoManager {
    type V = RepoManagerView;

    open spec fn view(&self) -> RepoManagerView {
        RepoManagerView {
            remotes: texts(self.remotes@),
            locals: texts(self.locals@),
            remote_map: self.remote_map@,
            download_path: self.download_path@,
        }
    }
}

/// The host of a URL: of what stands between the first `://` and the next one, if any, the part
/// before the first slash, and of that the part before the first colon.
pub open spec fn url_host(url: Seq<char>) -> Option<Seq<char>> {
    match find_text(url, "://"@) {
        None => None,
        Some(i) => {
            let rest = url.skip(i + 3);
            let piece = match find_text(rest, "://"@) {
                Some(j) => rest.take(j),
                None => rest,
            };
            let authority = piece.take(find(piece, '/'));
            Some(authority.take(find(authority, ':')))
        },
    }
}

/// A host holds neither a slash nor a colon, so it can be part of a file name.
pub proof fn law_host_is_part_of_a_file_name(url: Seq<char>)
    ensures
        url_host(url) matches Some(h) ==> forall|i: int|
            0 <= i < h.len() ==> #[trigger] h[i] != '/' && h[i] != ':',
{
    if let Some(i) = find_text(url, "://"@) {
        let rest = url.skip(i + 3);
        let piece = match find_text(rest, "://"@) {
            Some(j) => rest.take(j),
            None => rest,
        };
        lemma_find(piece, '/');
        let authority = piece.take(find(piece, '/'));
        lemma_find(authority, ':');
        let h = authority.take(find(authority, ':'));
        assert forall|k: int| 0 <= k < h.len() implies #[trigger] h[k] != '/' && h[k] != ':' by {
            assert(h[k] == authority[k] && authority[k] == piece[k]);
        }
    }
}

/// The host of `scheme://host` is the host, whether or not a port or a path follows it. A text
/// without `://` has no host.
pub proof fn law_host_stands_between_scheme_and_path(
    scheme: Seq<char>,
    host: Seq<char>,
    tail: Seq<char>,
    other: Seq<char>,
)
    requires
        forall|i: int|
            0 <= i < scheme.len() ==> #[trigger] (scheme + "://"@).subrange(i, i + 3) != "://"@,
        !host.contains(':'),
        !host.contains('/'),
        tail.len() > 0 ==> tail[0] == '/' || tail[0] == ':',
    ensures
        url_host(scheme + "://"@ + host + tail) == Some(host),
        (forall|i: int|
            0 <= i && i + 3 <= other.len() ==> #[trigger] other.subrange(i, i + 3) != "://"@)
            ==> url_host(other) is None,
{
    reveal_strlit("://");
    let mark = "://"@;
    let url = scheme + mark + host + tail;
    let n = scheme.len() as int;
    assert(url.subrange(n, n + 3) =~= mark);
    law_first_occurrence_is_found(url, mark, n);
    let i = find_text(url, mark)->0;
    if i < n {
        assert(url.subrange(i, i + 3) =~= (scheme + mark).subrange(i, i + 3));
    }
    law_first_occurrence_is_found(url, mark, n);
    assert(i == n);
    let rest = url.skip(n + 3);
    assert(rest =~= host + tail);
    assert forall|k: int| 0 <= k < host.len() implies rest[k] == host[k] && host[k] != ':'
        && host[k] != '/' by {
        assert(host.contains(host[k]));
    }
    law_first_occurrence_is_found(rest, mark, 0);
    let piece = match find_text(rest, mark) {
        Some(j) => rest.take(j),
        None => rest,
    };
    if let Some(j) = find_text(rest, mark) {
        if j < host.len() {
            assert(rest.subrange(j, j + 3)[0] == mark[0]);
        }
    }
    lemma_find(piece, '/');
    let authority = piece.take(find(piece, '/'));
    if find(piece, '/') < host.len() {
        assert(piece[find(piece, '/')] == host[find(piece, '/')]);
    }
    lemma_find(authority, ':');
    let end = find(authority, ':');
    if end < host.len() {
        assert(authority[end] == host[end]);
    }
    if end > host.len() {
        let k = host.len() as int;
        assert(authority[k] == tail[0]);
        assert(authority[k] == piece[k]);
    }
    assert(authority.take(end) =~= host);
    if let Some(k) = find_text(other, mark) {
        law_first_occurrence_is_found(other, mark, 0);
        assert(other.subrange(k, k + 3) == mark);
    }
}

/// The repository at a URL, for a target.
pub open spec fn remote_at(url: Seq<char>, target: Seq<char>, host: Seq<char>) -> RemotePathView {
    RemotePathView {
        path: url + "/"@ + target,
        pubpath: url + "/"@ + PUB_TOML@,
        name: host,
        pubkey: None,
    }
}

/// The repository in a directory of this machine, for a target. Without a directory it only
/// stands for a key.
pub open spec fn local_at(
    host: Seq<char>,
    path: Seq<char>,
    target: Seq<char>,
    key: Seq<u8>,
) -> RemotePathView {
    RemotePathView {
        path: if path.len() == 0 {
            path
        } else {
            path + "/"@ + target
        },
        pubpath: Seq::empty(),
        name: host,
        pubkey: Some(key),
    }
}

impl RepoManagerView {
    /// The manager without repositories.
    pub open spec fn cleared(self) -> RepoManagerView {
        RepoManagerView {
            remotes: Seq::empty(),
            locals: Seq::empty(),
            remote_map: Map::empty(),
            download_path: self.download_path,
        }
    }

    /// The manager after a repository to download from was added. A name that is known keeps its
    /// place.
    pub open spec fn with_remote(self, entry: RemotePathView) -> RepoManagerView {
        RepoManagerView {
            remotes: if self.remote_map.contains_key(entry.name) {
                self.remotes
            } else {
                self.remotes.push(entry.name)
            },
            remote_map: self.remote_map.insert(entry.name, entry),
            ..self
        }
    }

    /// The manager after a repository on this machine was added. A name that is known keeps its
    /// place.
    pub open spec fn with_local(self, entry: RemotePathView) -> RepoManagerView {
        RepoManagerView {
            locals: if self.remote_map.contains_key(entry.name) {
                self.locals
            } else {
                self.locals.push(entry.name)
            },
            remote_map: self.remote_map.insert(entry.name, entry),
            ..self
        }
    }

    /// Every listed repository is known under its own name, no name is listed twice, and every
    /// known one is listed.
    pub open spec fn consistent(self) -> bool {
        &&& self.remotes.no_duplicates()
        &&& self.locals.no_duplicates()
        &&& forall|n: Seq<char>|
            self.remote_map.contains_key(n) <==> #[trigger] self.remotes.contains(n)
                || self.locals.contains(n)
        &&& forall|n: Seq<char>|
            !(#[trigger] self.remotes.contains(n) && self.locals.contains(n))
        &&& forall|n: Seq<char>|
            self.remote_map.contains_key(n) ==> (#[trigger] self.remote_map[n]).name == n
    }
}

/// A copy of a row of strings.
fn copied(v: &Vec<String>) -> (r: Vec<String>)
    ensures
        texts(r@) == texts(v@),
{
    let mut r: Vec<String> = Vec::new();
    let mut i: usize = 0;
    while i < v.len()
        invariant
            i <= v.len(),
            r@.len() == i,
            forall|k: int| 0 <= k < i ==> (#[trigger] r@[k])@ == v@[k]@,
        decreases v.len() - i,
    {
        r.push(v[i].clone());
        i = i + 1;
    }
    assert(texts(r@) =~= texts(v@));
    r
}

impl Duplicate for RepoManager {
    fn duplicate(&self) -> (r: Self) {
        RepoManager {
            remotes: copied(&self.remotes),
            locals: copied(&self.locals),
            remote_map: self.remote_map.duplicate(),
            download_path: self.download_path.clone(),
        }
    }
}

/// What a search for a public key file found.
#[derive(Debug)]
pub enum KeyLookup {
    /// There is no such file.
    Missing,
    /// The file could not be read or understood.
    Unusable(Error),
    Found(RepoPublicKeyFile),
}

impl KeyLookup {
    /// Whether the key file is to be deleted, because it is probably corrupted.
    pub fn discards_file(&self) -> (r: bool)
        ensures
            r == (self is Unusable),
    {
        matches!(self, KeyLookup::Unusable(_))
    }
}

impl RepoManager {
    /// A manager without repositories, with the default download directory.
    pub fn new() -> (r: Self)
        ensures
            r@ == (RepoManagerView {
                remotes: Seq::empty(),
                locals: Seq::empty(),
                remote_map: Map::empty(),
                download_path: DOWNLOAD_DIR@,
            }),
    {
        let r = RepoManager {
            remotes: Vec::new(),
            locals: Vec::new(),
            remote_map: NameMap::new(),
            download_path: DOWNLOAD_DIR.to_owned(),
        };
        assert(texts(r.remotes@) =~= Seq::empty());
        assert(texts(r.locals@) =~= Seq::empty());
        r
    }

    /// Overrides the download directory.
    pub fn set_download_path(&mut self, path: String)
        ensures
            final(self)@ == (RepoManagerView { download_path: path@, ..old(self)@ }),
    {
        self.download_path = path;
    }

    /// The host of a URL.
    pub fn extract_host(path: &str) -> (r: Option<&str>)
        ensures
            r is Some <==> url_host(path@) is Some,
            r matches Some(h) ==> url_host(path@) == Some(h@),
    {
        match split_text(path, "://") {
            None => None,
            Some((_, rest)) => {
                proof {
                    reveal_strlit("://");
                }
                let piece = match split_text(rest, "://") {
                    Some((piece, _)) => piece,
                    None => rest,
                };
                Some(until(until(piece, '/'), ':'))
            },
        }
    }

    /// Adds the repository at a URL. Its host is its identifier.
    pub fn add_remote(&mut self, url: &str, target: &str) -> (r: Result<(), Error>)
        ensures
            r is Ok <==> url_host(url@) is Some,
            r is Ok ==> final(self)@ == old(self)@.with_remote(
                remote_at(url@, target@, url_host(url@)->0),
            ),
            r matches Err(e) ==> (e matches Error::RepoPathInvalid(p) && p@ == url@),
            r is Err ==> final(self)@ == old(self)@,
    {
        let host = match Self::extract_host(url) {
            Some(host) => host,
            None => {
                return Err(Error::RepoPathInvalid(url.to_owned()));
            },
        };
        let entry = RemotePath {
            path: joined(url, "/", target),
            pubpath: joined(url, "/", PUB_TOML),
            name: host.to_owned(),
            pubkey: None,
        };
        if self.remote_map.insert(host.to_owned(), entry).is_none() {
            self.remotes.push(host.to_owned());
            assert(texts(self.remotes@) =~= texts(old(self).remotes@).push(host@));
        }
        Ok(())
    }

    /// Where the public key of a local repository lies.
    pub fn local_key_path(pubkey_dir: &str) -> (r: String)
        ensures
            r@ == path_join(pubkey_dir@, PUB_TOML@),
    {
        join(pubkey_dir, PUB_TOML)
    }

    /// Adds the repository in a directory of this machine under an identifier. Its key was looked
    /// for at `local_key_path(pubkey_dir)`.
    pub fn add_local(
        &mut self,
        host: &str,
        path: &str,
        target: &str,
        pubkey_dir: &str,
        key: KeyLookup,
    ) -> (r: Result<(), Error>)
        ensures
            final(self)@ == (match key {
                KeyLookup::Found(k) => old(self)@.with_local(local_at(host@, path@, target@, k@)),
                _ => old(self)@,
            }),
            r is Ok <==> key is Found,
            key is Missing ==> (r matches Err(Error::RepoPathInvalid(p)) && p@ == path_join(
                pubkey_dir@,
                PUB_TOML@,
            )),
            key matches KeyLookup::Unusable(e) ==> r == Err::<(), Error>(e),
    {
        match key {
            KeyLookup::Missing => Err(Error::RepoPathInvalid(Self::local_key_path(pubkey_dir))),
            KeyLookup::Unusable(e) => Err(e),
            KeyLookup::Found(k) => {
                let entry = RemotePath {
                    path: if path.is_empty() {
                        path.to_owned()
                    } else {
                        joined(path, "/", target)
                    },
                    pubpath: String::new(),
                    name: host.to_owned(),
                    pubkey: Some(k.pkey),
                };
                if self.remote_map.insert(host.to_owned(), entry).is_none() {
                    self.locals.push(host.to_owned());
                    assert(texts(self.locals@) =~= texts(old(self).locals@).push(host@));
                }
                Ok(())
            },
        }
    }
}

/// Adding a repository keeps the lists in line with what is known.
pub proof fn law_adding_keeps_the_lists_consistent(m: RepoManagerView, entry: RemotePathView)
    requires
        m.consistent(),
    ensures
        m.with_remote(entry).consistent(),
        m.with_local(entry).consistent(),
{
    let n = entry.name;
    assert(m.remote_map.contains_key(n) <==> m.remotes.contains(n) || m.locals.contains(n));
    if !m.remote_map.contains_key(n) {
        let a = m.with_remote(entry);
        assert(a.remotes == m.remotes.push(n));
        assert(a.remotes[m.remotes.len() as int] == n);
        assert forall|k: Seq<char>| #[trigger]
            a.remotes.contains(k) <==> m.remotes.contains(k) || k == n by {
            lemma_push_contains(m.remotes, n, k);
        }
        let b = m.with_local(entry);
        assert(b.locals == m.locals.push(n));
        assert forall|k: Seq<char>| #[trigger]
            b.locals.contains(k) <==> m.locals.contains(k) || k == n by {
            lemma_push_contains(m.locals, n, k);
        }
        assert forall|k: Seq<char>| #[trigger]
            b.remotes.contains(k) implies !b.locals.contains(k) by {
            assert(m.remotes.contains(k));
        }
        assert forall|k: Seq<char>|
            b.remote_map.contains_key(k) <==> #[trigger] b.remotes.contains(k)
                || b.locals.contains(k) by {
            assert(m.remotes.contains(k) <==> b.remotes.contains(k));
        }
        assert forall|k: Seq<char>|
            a.remote_map.contains_key(k) <==> #[trigger] a.remotes.contains(k)
                || a.locals.contains(k) by {
            assert(m.remote_map.contains_key(k) <==> m.remotes.contains(k) || m.locals.contains(k));
        }
        assert forall|k: Seq<char>| #[trigger]
            a.remotes.contains(k) implies !a.locals.contains(k) by {
            assert(m.remotes.contains(k) || k == n);
        }
    } else {
        assert(m.with_remote(entry).remote_map.dom() =~= m.remote_map.dom());
        assert(m.with_local(entry).remote_map.dom() =~= m.remote_map.dom());
        assert forall|k: Seq<char>| #[trigger] m.remote_map.contains_key(k) <==> m.with_remote(
            entry,
        ).remote_map.contains_key(k) by {
            assert(m.remote_map.dom().contains(k) <==> m.with_remote(entry).remote_map.dom().contains(k));
        }
    }
}

proof fn lemma_push_contains(s: Seq<Seq<char>>, n: Seq<char>, k: Seq<char>)
    ensures
        s.push(n).contains(k) <==> s.contains(k) || k == n,
{
    if s.contains(k) {
        let i = choose|i: int| 0 <= i < s.len() && s[i] == k;
        assert(s.push(n)[i] == k);
    }
    if k == n {
        assert(s.push(n)[s.len() as int] == k);
    }
    if s.push(n).contains(k) && k != n {
        let i = choose|i: int| 0 <= i < s.push(n).len() && s.push(n)[i] == k;
        assert(s[i] == k);
    }
}

/// Adding a repository sets what is known under its name, and nothing else. A name that was not
/// known comes last in its list, and the other list stays as it is.
pub proof fn law_adding_changes_one_repository(
    m: RepoManagerView,
    entry: RemotePathView,
    other: Seq<char>,
)
    ensures
        m.with_remote(entry).remote_map[entry.name] == entry,
        m.with_local(entry).remote_map[entry.name] == entry,
        m.with_remote(entry).remote_map.contains_key(entry.name),
        m.with_local(entry).remote_map.contains_key(entry.name),
        other != entry.name ==> {
            &&& m.with_remote(entry).remote_map.contains_key(other) <==> m.remote_map.contains_key(
                other,
            )
            &&& m.with_local(entry).remote_map.contains_key(other) <==> m.remote_map.contains_key(
                other,
            )
            &&& m.with_remote(entry).remote_map[other] == m.remote_map[other]
            &&& m.with_local(entry).remote_map[other] == m.remote_map[other]
        },
        m.remote_map.contains_key(entry.name) ==> m.with_remote(entry).remotes == m.remotes
            && m.with_local(entry).locals == m.locals,
        !m.remote_map.contains_key(entry.name) ==> m.with_remote(entry).remotes == m.remotes.push(
            entry.name,
        ) && m.with_local(entry).locals == m.locals.push(entry.name),
        m.with_remote(entry).locals == m.locals,
        m.with_local(entry).remotes == m.remotes,
        m.with_remote(entry).download_path == m.download_path,
        m.with_local(entry).download_path == m.download_path,
{
}

/// A repository at a URL has its packages below the target and its key next to the targets, and
/// its key is not known yet. One in a directory has its packages below the target too, and its key,
/// so it has no place to load one from; without a directory it has no packages.
pub proof fn law_where_a_repository_has_its_files(
    url: Seq<char>,
    target: Seq<char>,
    host: Seq<char>,
    key: Seq<u8>,
)
    ensures
        remote_at(url, target, host).path == url + "/"@ + target,
        remote_at(url, target, host).pubpath == url + "/"@ + "id_ed25519.pub.toml"@,
        remote_at(url, target, host).name == host,
        remote_at(url, target, host).pubkey is None,
        url.len() > 0 ==> local_at(host, url, target, key).path == url + "/"@ + target,
        url.len() == 0 ==> local_at(host, url, target, key).path.len() == 0,
        local_at(host, url, target, key).pubpath.len() == 0,
        local_at(host, url, target, key).name == host,
        local_at(host, url, target, key).pubkey == Some(key),
{
}

/// In consistent lists every name stands once, in one of them, and is the name of what is known
/// under it.
pub proof fn law_consistent_lists_name_every_repository_once(
    m: RepoManagerView,
    name: Seq<char>,
    i: int,
    j: int,
)
    requires
        m.consistent(),
    ensures
        0 <= i < j < m.remotes.len() ==> m.remotes[i] != m.remotes[j],
        0 <= i < j < m.locals.len() ==> m.locals[i] != m.locals[j],
        m.remote_map.contains_key(name) <==> m.remotes.contains(name) || m.locals.contains(name),
        !(m.remotes.contains(name) && m.locals.contains(name)),
        m.remote_map.contains_key(name) ==> m.remote_map[name].name == name,
{
}

/// A manager without repositories is consistent.
pub proof fn law_cleared_is_consistent(m: RepoManagerView)
    ensures
        m.cleared().consistent(),
{
}

/// Loading repositories starts afresh: nothing of what was known before matters.
pub proof fn law_loading_starts_afresh(a: RepoManagerView, b: RepoManagerView)
    requires
        a.download_path == b.download_path,
    ensures
        a.cleared() == b.cleared(),
{
}

/// Adding the same repository again does not change the order in which repositories are asked.
pub proof fn law_adding_again_keeps_the_order(m: RepoManagerView, a: RemotePathView, b: RemotePathView)
    requires
        a.name == b.name,
    ensures
        m.with_remote(a).with_remote(b).remotes == m.with_remote(a).remotes,
        m.with_remote(a).with_remote(b).locals == m.locals,
        m.with_remote(a).with_remote(b).remote_map[b.name] == b,
{
}

} // verus!
