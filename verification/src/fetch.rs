//! Getting files: from the repositories on this machine first, then from those on the network.
//!
//! The manager says what to look at or to download next, and what the answers come to. The caller
//! looks and downloads.
use crate::error::{reports_io, wrap_io_err, wraps_io, Error, IoError, IoErrorKind};
use crate::net_backend::{law_marks_are_unique, mark, unique_mark, DownloadError};
use crate::package::{PackageError, PackageName, RemoteName};
use crate::path::{join, path_join};
use crate::private_dir::PrivateDir;
use crate::repo_manager::{texts, RemotePath, RepoManager, RepoManagerView};
use crate::text::{joined, same};
use vstd::prelude::*;
use vstd::string::StringExecFns;
use vstd::utf8::{decode_utf8, valid_utf8};

verus! {

impl RepoManagerView {
    /// Whether files can be had from a repository: it is known, and it is more than the key of
    /// the installer.
    pub open spec fn has_files(self, name: Seq<char>) -> bool {
        self.remote_map.contains_key(name) && self.remote_map[name].path.len() > 0
    }

    /// Those of the repositories from which files can be had.
    pub open spec fn with_files(self, names: Seq<Seq<char>>) -> Seq<Seq<char>>
        decreases names.len(),
    {
        if names.len() == 0 {
            Seq::empty()
        } else {
            let before = self.with_files(names.drop_last());
            if self.has_files(names.last()) {
                before.push(names.last())
            } else {
                before
            }
        }
    }

    /// The repositories to search for a file, in order.
    pub open spec fn search_order(self) -> Seq<Seq<char>> {
        self.with_files(self.locals)
    }

    /// The repositories to download a file from, in order.
    pub open spec fn download_order(self) -> Seq<Seq<char>> {
        self.with_files(self.remotes)
    }

    /// Where a local repository would hold a file.
    pub open spec fn local_file(self, name: Seq<char>, file: Seq<char>) -> Seq<char> {
        path_join(self.remote_map[name].path, file)
    }

    /// Where a repository on the network would hold a file.
    pub open spec fn file_url(self, name: Seq<char>, file: Seq<char>) -> Seq<char> {
        self.remote_map[name].path + "/"@ + file
    }
}

/// A repository that may have a file, and the path or URL where it would have it.
#[derive(Debug)]
pub struct Candidate {
    pub remote: RemoteName,
    pub place: String,
}

impl View for Candidate {
    type V = (Seq<char>, Seq<char>);

    open spec fn view(&self) -> (Seq<char>, Seq<char>) {
        (self.remote@, self.place@)
    }
}

/// Candidates by name and place.
pub open spec fn candidates(v: Seq<Candidate>) -> Seq<(Seq<char>, Seq<char>)> {
    v.map_values(|c: Candidate| c@)
}

/// A search for a file on this machine: where to look, the next place first.
#[derive(Debug)]
pub struct LocalSearch {
    left: Vec<Candidate>,
}

impl View for LocalSearch {
    type V = Seq<(Seq<char>, Seq<char>)>;

    closed spec fn view(&self) -> Seq<(Seq<char>, Seq<char>)> {
        candidates(self.left@)
    }
}

/// A download of a file: from where to try it, the next URL first.
#[derive(Debug)]
pub struct RemoteDownload {
    left: Vec<Candidate>,
}

impl View for RemoteDownload {
    type V = Seq<(Seq<char>, Seq<char>)>;

    closed spec fn view(&self) -> Seq<(Seq<char>, Seq<char>)> {
        candidates(self.left@)
    }
}

impl RepoManagerView {
    /// Where to look for a file on this machine, in order.
    pub open spec fn local_candidates(self, file: Seq<char>) -> Seq<(Seq<char>, Seq<char>)> {
        self.search_order().map_values(|n: Seq<char>| (n, self.local_file(n, file)))
    }

    /// From where to try to download a file, in order.
    pub open spec fn remote_candidates(self, file: Seq<char>) -> Seq<(Seq<char>, Seq<char>)> {
        self.download_order().map_values(|n: Seq<char>| (n, self.file_url(n, file)))
    }
}

/// Whether a search goes on after looking at a path: there is nothing there, or no file.
pub open spec fn search_goes_on(probe: Result<bool, IoError>) -> bool {
    match probe {
        Ok(is_file) => !is_file,
        Err(e) => e.kind == IoErrorKind::NotFound,
    }
}

/// Whether a download goes on with the next repository: the host answered with a status.
pub open spec fn download_goes_on(answer: Result<(), DownloadError>) -> bool {
    answer matches Err(DownloadError::HttpStatus(_))
}

/// How many candidates a search passes over before it ends, on a file system that answers `fs`.
pub open spec fn search_passes(
    left: Seq<(Seq<char>, Seq<char>)>,
    fs: spec_fn(Seq<char>) -> Result<bool, IoError>,
) -> nat
    decreases left.len(),
{
    if left.len() > 0 && search_goes_on(fs(left[0].1)) {
        1 + search_passes(left.drop_first(), fs)
    } else {
        0
    }
}

/// How many candidates a download passes over before it ends, on a network that answers `net`.
pub open spec fn download_passes(
    left: Seq<(Seq<char>, Seq<char>)>,
    net: spec_fn(Seq<char>) -> Result<(), DownloadError>,
) -> nat
    decreases left.len(),
{
    if left.len() > 0 && download_goes_on(net(left[0].1)) {
        1 + download_passes(left.drop_first(), net)
    } else {
        0
    }
}

/// A search ends at the first candidate that does not let it go on: all before it let it go on,
/// and it is left as the next place after as many answers.
pub proof fn law_search_ends_at_the_first_hit(
    left: Seq<(Seq<char>, Seq<char>)>,
    fs: spec_fn(Seq<char>) -> Result<bool, IoError>,
)
    ensures
        search_passes(left, fs) <= left.len(),
        forall|i: int|
            0 <= i < search_passes(left, fs) ==> search_goes_on(fs((#[trigger] left[i]).1)),
        search_passes(left, fs) < left.len() ==> !search_goes_on(
            fs(left[search_passes(left, fs) as int].1),
        ),
    decreases left.len(),
{
    if left.len() > 0 && search_goes_on(fs(left[0].1)) {
        let rest = left.drop_first();
        law_search_ends_at_the_first_hit(rest, fs);
        assert forall|i: int| 0 <= i < search_passes(left, fs) implies search_goes_on(
            fs((#[trigger] left[i]).1),
        ) by {
            if i > 0 {
                assert(left[i] == rest[i - 1]);
            }
        }
    }
}

/// A download ends at the first repository that does not answer with a status, and fails to find
/// a repository exactly if all of them answer with a status.
pub proof fn law_download_ends_at_the_first_answer(
    left: Seq<(Seq<char>, Seq<char>)>,
    net: spec_fn(Seq<char>) -> Result<(), DownloadError>,
)
    ensures
        download_passes(left, net) <= left.len(),
        forall|i: int|
            0 <= i < download_passes(left, net) ==> download_goes_on(net((#[trigger] left[i]).1)),
        download_passes(left, net) < left.len() ==> !download_goes_on(
            net(left[download_passes(left, net) as int].1),
        ),
    decreases left.len(),
{
    if left.len() > 0 && download_goes_on(net(left[0].1)) {
        let rest = left.drop_first();
        law_download_ends_at_the_first_answer(rest, net);
        assert forall|i: int| 0 <= i < download_passes(left, net) implies download_goes_on(
            net((#[trigger] left[i]).1),
        ) by {
            if i > 0 {
                assert(left[i] == rest[i - 1]);
            }
        }
    }
}

/// A download goes on after every HTTP status, whichever, and after no other answer.
pub proof fn law_download_goes_on_after_any_status(
    answer: Result<(), DownloadError>,
    status: u16,
)
    ensures
        download_goes_on(Err(DownloadError::HttpStatus(status))),
        download_goes_on(answer) <==> (answer matches Err(e) && e is HttpStatus),
        !download_goes_on(Ok(())),
{
}

/// A file comes from the first repository that gives it: if all repositories before it answer with
/// some HTTP status, whichever, the download passes over them and over no other. The same holds of
/// the first repository at which it fails in another way; and if all answer with a status, none is
/// left.
pub proof fn law_download_comes_from_the_first_that_has_the_file(
    left: Seq<(Seq<char>, Seq<char>)>,
    net: spec_fn(Seq<char>) -> Result<(), DownloadError>,
    k: int,
)
    requires
        0 <= k <= left.len(),
        forall|i: int|
            0 <= i < k ==> (net((#[trigger] left[i]).1) matches Err(e) && e is HttpStatus),
        k < left.len() ==> (net(left[k].1) matches Err(e) ==> e !is HttpStatus),
    ensures
        download_passes(left, net) == k,
        k < left.len() ==> left.skip(download_passes(left, net) as int)[0] == left[k],
    decreases left.len(),
{
    if k > 0 {
        assert(net(left[0].1) is Err);
        let rest = left.drop_first();
        assert forall|i: int| 0 <= i < k - 1 implies (net((#[trigger] rest[i]).1) matches Err(e)
            && e is HttpStatus) by {
            assert(rest[i] == left[i + 1]);
        }
        if k < left.len() {
            assert(rest[k - 1] == left[k]);
        }
        law_download_comes_from_the_first_that_has_the_file(rest, net, k - 1);
    }
}

/// A search goes on exactly where there is nothing, or no file.
pub proof fn law_search_goes_on_where_there_is_no_file(probe: Result<bool, IoError>)
    ensures
        search_goes_on(probe) <==> (probe == Ok::<bool, IoError>(false) || (probe matches Err(e)
            && e.kind is NotFound)),
{
}

/// A file is taken from the first place that has it: places where there is nothing or no file are
/// passed over, and no other.
pub proof fn law_search_comes_to_the_first_file(
    left: Seq<(Seq<char>, Seq<char>)>,
    fs: spec_fn(Seq<char>) -> Result<bool, IoError>,
    k: int,
)
    requires
        0 <= k <= left.len(),
        forall|i: int|
            0 <= i < k ==> match fs((#[trigger] left[i]).1) {
                Ok(is_file) => !is_file,
                Err(e) => e.kind is NotFound,
            },
        k < left.len() ==> match fs(left[k].1) {
            Ok(is_file) => is_file,
            Err(e) => !(e.kind is NotFound),
        },
    ensures
        search_passes(left, fs) == k,
        k < left.len() && fs(left[k].1) is Ok ==> look_end(left, fs) == LookEnd::Found(
            left[k].0,
            left[k].1,
        ),
        k < left.len() && fs(left[k].1) is Err ==> look_end(left, fs) == LookEnd::Failed(
            left[k].1,
        ),
        k == left.len() ==> look_end(left, fs) is Download,
    decreases left.len(),
{
    if k > 0 {
        assert(search_goes_on(fs(left[0].1)));
        let rest = left.drop_first();
        assert forall|i: int| 0 <= i < k - 1 implies match fs((#[trigger] rest[i]).1) {
            Ok(is_file) => !is_file,
            Err(e) => e.kind is NotFound,
        } by {
            assert(rest[i] == left[i + 1]);
        }
        if k < left.len() {
            assert(rest[k - 1] == left[k]);
        }
        law_search_comes_to_the_first_file(rest, fs, k - 1);
    }
}

/// Those of a row of repositories that have files are asked in the order of the row.
pub proof fn law_orders_follow_the_row(
    m: RepoManagerView,
    before: Seq<Seq<char>>,
    after: Seq<Seq<char>>,
    name: Seq<char>,
)
    ensures
        m.with_files(before + after) == m.with_files(before) + m.with_files(after),
        m.with_files(seq![name]) == (if m.remote_map.contains_key(name)
            && m.remote_map[name].path.len() > 0 {
            seq![name]
        } else {
            Seq::empty()
        }),
    decreases after.len(),
{
    reveal_with_fuel(RepoManagerView::with_files, 2);
    assert(seq![name].drop_last() =~= Seq::<Seq<char>>::empty());
    assert(m.with_files(seq![name]) =~= (if m.remote_map.contains_key(name)
        && m.remote_map[name].path.len() > 0 {
        seq![name]
    } else {
        Seq::empty()
    }));
    if after.len() == 0 {
        assert(before + after =~= before);
        assert(m.with_files(before) + m.with_files(after) =~= m.with_files(before));
    } else {
        law_orders_follow_the_row(m, before, after.drop_last(), name);
        assert((before + after).drop_last() =~= before + after.drop_last());
        assert(m.with_files(before + after) =~= m.with_files(before) + m.with_files(after));
    }
}

/// A search asks the repositories of this machine, and a download those on the network. Each is
/// asked for the file below its own path.
pub proof fn law_every_repository_is_asked_for_its_own_file(
    m: RepoManagerView,
    file: Seq<char>,
    i: int,
)
    ensures
        m.local_candidates(file).len() == m.with_files(m.locals).len(),
        m.remote_candidates(file).len() == m.with_files(m.remotes).len(),
        0 <= i < m.with_files(m.locals).len() ==> {
            let name = m.with_files(m.locals)[i];
            m.local_candidates(file)[i] == (name, path_join(m.remote_map[name].path, file))
        },
        0 <= i < m.with_files(m.remotes).len() ==> {
            let name = m.with_files(m.remotes)[i];
            m.remote_candidates(file)[i] == (name, m.remote_map[name].path + "/"@ + file)
        },
{
}

/// A repository that has files and that is listed for downloads is asked, whichever it is.
pub proof fn law_no_repository_is_left_out(m: RepoManagerView, file: Seq<char>, name: Seq<char>)
    requires
        m.remote_map.contains_key(name),
        m.remote_map[name].path.len() > 0,
    ensures
        m.remotes.contains(name) ==> m.remote_candidates(file).contains(
            (name, m.remote_map[name].path + "/"@ + file),
        ),
        m.locals.contains(name) ==> m.local_candidates(file).contains(
            (name, path_join(m.remote_map[name].path, file)),
        ),
{
    law_orders_hold_the_repositories_with_files(m, m.remotes, name);
    law_orders_hold_the_repositories_with_files(m, m.locals, name);
    if m.remotes.contains(name) {
        let order = m.with_files(m.remotes);
        let i = choose|i: int| 0 <= i < order.len() && order[i] == name;
        law_every_repository_is_asked_for_its_own_file(m, file, i);
        assert(m.remote_candidates(file)[i] == (name, m.remote_map[name].path + "/"@ + file));
    }
    if m.locals.contains(name) {
        let order = m.with_files(m.locals);
        let i = choose|i: int| 0 <= i < order.len() && order[i] == name;
        law_every_repository_is_asked_for_its_own_file(m, file, i);
        assert(m.local_candidates(file)[i] == (name, path_join(m.remote_map[name].path, file)));
    }
}

/// While no look ended the search, the next place is looked at, and only without one left the file
/// is downloaded. What ended it is passed on.
pub proof fn law_machine_is_searched_before_a_download(
    left: Seq<(Seq<char>, Seq<char>)>,
    answer: Option<Result<(RemoteName, String), Error>>,
    step: FetchStep,
)
    requires
        fetch_step(left, answer, step),
    ensures
        step is Download <==> answer is None && left.len() == 0,
        step is Look <==> answer is None && left.len() > 0,
        step matches FetchStep::Look { path } ==> path@ == left[0].1,
        step matches FetchStep::Use { remote, path } ==> answer == Some(
            Ok::<(RemoteName, String), Error>((remote, path)),
        ),
        step matches FetchStep::Fail(e) ==> answer == Some(Err::<(RemoteName, String), Error>(e)),
{
}

/// Every listed repository with files is in the order, and no other.
pub proof fn law_orders_hold_the_repositories_with_files(
    m: RepoManagerView,
    names: Seq<Seq<char>>,
    n: Seq<char>,
)
    ensures
        m.with_files(names).contains(n) <==> names.contains(n) && m.has_files(n),
    decreases names.len(),
{
    if names.len() > 0 {
        law_orders_hold_the_repositories_with_files(m, names.drop_last(), n);
        let before = m.with_files(names.drop_last());
        assert(names =~= names.drop_last().push(names.last()));
        if names.contains(n) && !names.drop_last().contains(n) {
            let i = choose|i: int| 0 <= i < names.len() && names[i] == n;
            if i < names.len() - 1 {
                assert(names.drop_last()[i] == n);
            }
        }
        if names.drop_last().contains(n) {
            let i = choose|i: int| 0 <= i < names.drop_last().len() && names.drop_last()[i] == n;
            assert(names[i] == n);
        }
        if m.has_files(names.last()) {
            if before.contains(n) {
                let i = choose|i: int| 0 <= i < before.len() && before[i] == n;
                assert(before.push(names.last())[i] == n);
            }
            if before.push(names.last()).contains(n) && n != names.last() {
                let i = choose|i: int|
                    0 <= i < before.push(names.last()).len() && before.push(names.last())[i] == n;
                assert(before[i] == n);
            }
            assert(before.push(names.last())[before.len() as int] == names.last());
            assert(names[names.len() - 1] == names.last());
        }
    }
}

/// The next thing to do to get a file.
#[derive(Debug)]
pub enum FetchStep {
    /// Look whether there is a file at the path.
    Look { path: String },
    /// Use the file, which a repository on this machine has.
    Use { remote: RemoteName, path: String },
    /// It cannot be got.
    Fail(Error),
    /// Download it: no repository on this machine has it.
    Download,
}

/// Whether `step` is the next thing to do, with these places left to look at and this answer to the
/// last look, if it ended the search.
pub open spec fn fetch_step(
    left: Seq<(Seq<char>, Seq<char>)>,
    answer: Option<Result<(RemoteName, String), Error>>,
    step: FetchStep,
) -> bool {
    match answer {
        Some(Ok((remote, path))) => step == (FetchStep::Use { remote, path }),
        Some(Err(e)) => step == FetchStep::Fail(e),
        None => if left.len() > 0 {
            step matches FetchStep::Look { path } && path@ == left[0].1
        } else {
            step is Download
        },
    }
}

/// How looking for a file on this machine ends.
pub enum LookEnd {
    /// A repository on this machine has it at a path.
    Found(Seq<char>, Seq<char>),
    /// A path cannot be looked at.
    Failed(Seq<char>),
    /// It has to be downloaded.
    Download,
}

/// How it ends with these places to look at, on a file system that answers `fs`.
pub open spec fn look_end(
    left: Seq<(Seq<char>, Seq<char>)>,
    fs: spec_fn(Seq<char>) -> Result<bool, IoError>,
) -> LookEnd {
    let passed = search_passes(left, fs);
    if passed >= left.len() {
        LookEnd::Download
    } else {
        let here = left[passed as int];
        match fs(here.1) {
            Ok(_) => LookEnd::Found(here.0, here.1),
            Err(_) => LookEnd::Failed(here.1),
        }
    }
}

/// This machine comes first: a file that one of its repositories has is not downloaded. It is
/// taken from the first that has it, unless a place before it cannot be looked at. And a file is
/// downloaded only if all places on this machine were looked at and none has it.
pub proof fn law_file_on_this_machine_is_not_downloaded(
    left: Seq<(Seq<char>, Seq<char>)>,
    fs: spec_fn(Seq<char>) -> Result<bool, IoError>,
    k: int,
)
    requires
        0 <= k < left.len(),
        fs(left[k].1) == Ok::<bool, IoError>(true),
    ensures
        !(look_end(left, fs) is Download),
        (forall|i: int| 0 <= i < k ==> search_goes_on(fs((#[trigger] left[i]).1))) ==> look_end(
            left,
            fs,
        ) == LookEnd::Found(left[k].0, left[k].1),
{
    law_search_ends_at_the_first_hit(left, fs);
    let passed = search_passes(left, fs) as int;
    if passed > k {
        assert(search_goes_on(fs(left[k].1)));
    }
    if passed < k && (forall|i: int| 0 <= i < k ==> search_goes_on(fs((#[trigger] left[i]).1))) {
        assert(search_goes_on(fs(left[passed].1)));
    }
}

/// Each step brings the end of the search nearer: a look that lets it go on leaves the same end
/// for the other places, any other one is the end.
pub proof fn law_look_ends_as_the_steps_say(
    left: Seq<(Seq<char>, Seq<char>)>,
    fs: spec_fn(Seq<char>) -> Result<bool, IoError>,
)
    ensures
        left.len() == 0 ==> look_end(left, fs) is Download,
        left.len() > 0 && search_goes_on(fs(left[0].1)) ==> look_end(left, fs) == look_end(
            left.drop_first(),
            fs,
        ),
        left.len() > 0 && fs(left[0].1) == Ok::<bool, IoError>(true) ==> look_end(left, fs)
            == LookEnd::Found(left[0].0, left[0].1),
        left.len() > 0 && fs(left[0].1) is Err && !search_goes_on(fs(left[0].1)) ==> look_end(
            left,
            fs,
        ) == LookEnd::Failed(left[0].1),
{
    if left.len() > 0 && search_goes_on(fs(left[0].1)) {
        let rest = left.drop_first();
        law_search_ends_at_the_first_hit(rest, fs);
        if search_passes(rest, fs) < rest.len() {
            assert(left[search_passes(left, fs) as int] == rest[search_passes(rest, fs) as int]);
        }
    }
}

impl LocalSearch {
    /// The next thing to do to get the file, after the answer to the last look, if any.
    pub fn step(&self, answer: Option<Result<(RemoteName, String), Error>>) -> (step: FetchStep)
        ensures
            fetch_step(self@, answer, step),
    {
        match answer {
            Some(Ok((remote, path))) => FetchStep::Use { remote, path },
            Some(Err(e)) => FetchStep::Fail(e),
            None => match self.next() {
                Some(path) => FetchStep::Look { path: path.to_owned() },
                None => FetchStep::Download,
            },
        }
    }

    /// The next path to look at. Without one the file is not on this machine.
    pub fn next(&self) -> (r: Option<&str>)
        ensures
            r is Some <==> self@.len() > 0,
            r matches Some(path) ==> path@ == self@[0].1,
    {
        if self.left.len() > 0 {
            Some(self.left[0].place.as_str())
        } else {
            None
        }
    }

    /// Takes what looking at the path gave: whether there is a file. The search is over with the
    /// repository and the path, or with an error, or it goes on.
    pub fn answer(&mut self, probe: Result<bool, IoError>) -> (r: Option<
        Result<(RemoteName, String), Error>,
    >)
        requires
            old(self)@.len() > 0,
        ensures
            final(self)@ == old(self)@.drop_first(),
            r is None <==> search_goes_on(probe),
            r is None <==> (probe == Ok::<bool, IoError>(false) || (probe matches Err(io)
                && io.kind is NotFound)),
            probe == Ok::<bool, IoError>(true) ==> (r matches Some(Ok((remote, path))) && remote@
                == old(self)@[0].0 && path@ == old(self)@[0].1),
            probe matches Err(io) ==> !search_goes_on(probe) ==> (r matches Some(Err(e))
                && reports_io(e, io, old(self)@[0].1, "Reading metadata"@)),
    {
        let ghost all = self.left@;
        let here = self.left.remove(0);
        assert(candidates(self.left@) =~= candidates(all).drop_first());
        match probe {
            Ok(is_file) => if is_file {
                Some(Ok((here.remote, here.place)))
            } else {
                None
            },
            Err(io) => if io.kind == IoErrorKind::NotFound {
                None
            } else {
                Some(Err(Error::IO(io, here.place, "Reading metadata")))
            },
        }
    }
}

impl RemoteDownload {
    /// The next URL to download from. Without one there is no repository that has the file.
    pub fn next(&self) -> (r: Result<&str, Error>)
        ensures
            r is Ok <==> self@.len() > 0,
            r matches Ok(url) ==> url@ == self@[0].1,
            r matches Err(e) ==> e is ValidRepoNotFound,
    {
        if self.left.len() > 0 {
            Ok(self.left[0].place.as_str())
        } else {
            Err(Error::ValidRepoNotFound)
        }
    }

    /// Takes what the download gave. It is over with the repository that had the file, or with an
    /// error, or it goes on.
    pub fn answer(&mut self, answer: Result<(), DownloadError>) -> (r: Option<
        Result<RemoteName, Error>,
    >)
        requires
            old(self)@.len() > 0,
        ensures
            final(self)@ == old(self)@.drop_first(),
            r is None <==> download_goes_on(answer),
            r is None <==> (answer matches Err(DownloadError::HttpStatus(_))),
            answer is Ok ==> (r matches Some(Ok(remote)) && remote@ == old(self)@[0].0),
            answer matches Err(e) ==> !download_goes_on(answer) ==> r == Some(
                Err::<RemoteName, Error>(Error::Download(e)),
            ),
    {
        let ghost all = self.left@;
        let here = self.left.remove(0);
        assert(candidates(self.left@) =~= candidates(all).drop_first());
        match answer {
            Ok(_) => Some(Ok(here.remote)),
            Err(DownloadError::HttpStatus(_)) => None,
            Err(e) => Some(Err(Error::Download(e))),
        }
    }
}

impl RepoManager {
    /// The places where repositories would hold a file.
    fn places(&self, names: &Vec<RemoteName>, file: &str, on_this_machine: bool) -> (r: Vec<
        Candidate,
    >)
        ensures
            candidates(r@) =~= self@.with_files(texts(names@)).map_values(
                |n: Seq<char>|
                    (
                        n,
                        if on_this_machine {
                            self@.local_file(n, file@)
                        } else {
                            self@.file_url(n, file@)
                        },
                    ),
            ),
    {
        let ghost place = |n: Seq<char>|
            (
                n,
                if on_this_machine {
                    self@.local_file(n, file@)
                } else {
                    self@.file_url(n, file@)
                },
            );
        let mut r: Vec<Candidate> = Vec::new();
        let mut i: usize = 0;
        assert(texts(names@).take(0) =~= Seq::<Seq<char>>::empty());
        while i < names.len()
            invariant
                i <= names.len(),
                place == (|n: Seq<char>|
                    (
                        n,
                        if on_this_machine {
                            self@.local_file(n, file@)
                        } else {
                            self@.file_url(n, file@)
                        },
                    )),
                candidates(r@) =~= self@.with_files(texts(names@).take(i as int)).map_values(place),
            decreases names.len() - i,
        {
            let name = names[i].as_str();
            let ghost seen = texts(names@).take(i as int);
            let ghost more = texts(names@).take(i + 1);
            assert(more.drop_last() =~= seen);
            assert(more.last() == name@);
            let ghost before = r@;
            if let Some(remote) = self.remote_map.get(name) {
                if !remote.path.as_str().is_empty() {
                    let place = if on_this_machine {
                        join(remote.path.as_str(), file)
                    } else {
                        joined(remote.path.as_str(), "/", file)
                    };
                    r.push(Candidate { remote: name.to_owned(), place });
                    assert(candidates(r@) =~= candidates(before).push(r@.last()@));
                }
            }
            i = i + 1;
        }
        assert(texts(names@).take(i as int) =~= texts(names@));
        r
    }

    /// Starts to search for a file in the repositories on this machine.
    pub fn local_search(&self, file: &str, dir: &PrivateDir) -> (r: LocalSearch)
        requires
            dir@ == self@.download_path,
        ensures
            r@ == self@.local_candidates(file@),
    {
        let r = LocalSearch { left: self.places(&self.locals, file, true) };
        assert(r@ =~= self@.local_candidates(file@));
        r
    }

    /// Starts to download a file from the repositories on the network.
    pub fn download(&self, file: &str, dir: &PrivateDir) -> (r: RemoteDownload)
        requires
            dir@ == self@.download_path,
        ensures
            r@ == self@.remote_candidates(file@),
    {
        let r = RemoteDownload { left: self.places(&self.remotes, file, false) };
        assert(r@ =~= self@.remote_candidates(file@));
        r
    }
}

/// Without repositories on the network there is no URL to download from.
pub proof fn law_without_remotes_nothing_is_downloaded(m: RepoManagerView, file: Seq<char>)
    requires
        m.remotes.len() == 0,
    ensures
        m.remote_candidates(file).len() == 0,
{
}

/// What became of the attempt to get a text file.
#[derive(Debug)]
pub enum TextSource {
    /// A repository on this machine has it at the path, and this is what reading it gave.
    Local { remote: RemoteName, path: String, read: Result<String, IoError> },
    /// It was tried to download it, and these bytes came.
    Remote { outcome: Result<RemoteName, Error>, bytes: Vec<u8> },
}

/// What became of the attempt to get an archive.
#[derive(Debug)]
pub enum ArchiveSource {
    /// A repository on this machine has it at the path.
    Local { remote: RemoteName, path: String },
    /// The file to download into could not be created.
    NoDestination(IoError),
    /// It was tried to download it.
    Remote { outcome: Result<RemoteName, Error> },
}

/// `String::from_utf8`: the text that the bytes encode, where they are valid UTF-8.
#[verifier::external_body]
fn text_from_utf8(bytes: Vec<u8>) -> (r: Option<String>)
    ensures
        r is Some <==> valid_utf8(bytes@),
        r matches Some(s) ==> s@ == decode_utf8(bytes@),
{
    String::from_utf8(bytes).ok()
}

/// The result of having got a text file from somewhere.
pub open spec fn text_result(
    r: Result<(String, RemoteName), Error>,
    file: Seq<char>,
    source: TextSource,
) -> bool {
    match source {
        TextSource::Local { remote, path, read } => match read {
            Ok(text) => r == Ok::<(String, RemoteName), Error>((text, remote)),
            Err(io) => r matches Err(e) && wraps_io(e, io, path@, "Reading"@),
        },
        TextSource::Remote { outcome, bytes } => match outcome {
            Ok(remote) => if valid_utf8(bytes@) {
                r matches Ok((text, from)) && text@ == decode_utf8(bytes@) && from == remote
            } else {
                r matches Err(Error::ContentIsNotValidUnicode(f)) && f@ == file
            },
            Err(e) => r == Err::<(String, RemoteName), Error>(e),
        },
    }
}

/// Whether `e` is `cause`, with a missing repository told as a missing package.
pub open spec fn names_missing_package(e: Error, package: Seq<char>, cause: Error) -> bool {
    if cause is ValidRepoNotFound {
        e matches Error::Package(PackageError::PackageNotFound(p)) && p@ == package
    } else {
        e == cause
    }
}

/// What a text is: what a repository on this machine has, or what came from the network, where it
/// is valid UTF-8. Any failure is told, and no other text is made up.
pub proof fn law_text_is_what_came(
    r: Result<(String, RemoteName), Error>,
    file: Seq<char>,
    source: TextSource,
)
    requires
        text_result(r, file, source),
    ensures
        r is Ok <==> match source {
            TextSource::Local { read, .. } => read is Ok,
            TextSource::Remote { outcome, bytes } => outcome is Ok && valid_utf8(bytes@),
        },
        r matches Ok((text, from)) ==> match source {
            TextSource::Local { remote, path, read } => from == remote && read == Ok::<
                String,
                IoError,
            >(text),
            TextSource::Remote { outcome, bytes } => outcome == Ok::<RemoteName, Error>(from)
                && text@ == decode_utf8(bytes@),
        },
        source matches TextSource::Remote { outcome: Err(e), bytes } ==> r == Err::<
            (String, RemoteName),
            Error,
        >(e),
        source matches TextSource::Remote { outcome: Ok(_), bytes } ==> (!valid_utf8(bytes@) ==> (
        r matches Err(Error::ContentIsNotValidUnicode(f)) && f@ == file)),
        source matches TextSource::Local { remote, path, read: Err(io) } ==> (r matches Err(e)
            && wraps_io(e, io, path@, "Reading"@)),
{
}

/// Where no repository has the file of a package, the package is told as missing; any other failure
/// is told as it is.
pub proof fn law_missing_package_is_named(e: Error, package: Seq<char>, cause: Error)
    requires
        names_missing_package(e, package, cause),
    ensures
        cause is ValidRepoNotFound ==> (e matches Error::Package(PackageError::PackageNotFound(p))
            && p@ == package),
        cause !is ValidRepoNotFound ==> e == cause,
{
}

/// A download is named after its repository, the package and the extension, and lies in the
/// download directory. A name that does not begin with a slash is never taken for a path of its
/// own.
pub proof fn law_downloads_are_named_after_their_repository(
    dir: Seq<char>,
    remote: Seq<char>,
    file: Seq<char>,
    ext: Seq<char>,
)
    requires
        dir.len() > 0,
        dir.last() != '/',
        remote.len() > 0,
        remote[0] != '/',
    ensures
        download_file(dir, remote, file, ext) == dir + "/"@ + (remote + "_"@ + file + "."@ + ext),
{
}

fn name_missing_package(package: &PackageName, cause: Error) -> (r: Error)
    ensures
        names_missing_package(r, package@, cause),
{
    match cause {
        Error::ValidRepoNotFound => Error::Package(PackageError::PackageNotFound(package.clone())),
        e => e,
    }
}

/// What has to happen to an archive that was got.
#[derive(Debug)]
pub struct Placed<'a> {
    /// Where the archive has to end up.
    pub path: String,
    /// Where it is, if it has to be renamed.
    pub rename_from: Option<String>,
    /// The repository that it came from.
    pub remote: &'a RemotePath,
}

/// The file in the download directory for a repository, a name and an extension.
pub open spec fn download_file(
    dir: Seq<char>,
    remote: Seq<char>,
    file: Seq<char>,
    ext: Seq<char>,
) -> Seq<char> {
    path_join(dir, remote + "_"@ + file + "."@ + ext)
}

/// Two downloads of a package use the same scratch file only if they are the same download.
pub proof fn law_scratch_files_are_unique(
    dir: Seq<char>,
    package: Seq<char>,
    ext: Seq<char>,
    pid1: u32,
    seq1: u64,
    pid2: u32,
    seq2: u64,
)
    requires
        download_file(dir, unique_mark(pid1, seq1), package, ext) == download_file(
            dir,
            unique_mark(pid2, seq2),
            package,
            ext,
        ),
    ensures
        pid1 == pid2,
        seq1 == seq2,
{
    reveal_strlit(".");
    let (m1, m2) = (unique_mark(pid1, seq1), unique_mark(pid2, seq2));
    let (f1, f2) = (m1 + "_"@ + package + "."@ + ext, m2 + "_"@ + package + "."@ + ext);
    assert(f1[0] == '.' && f2[0] == '.');
    let (j1, j2) = (path_join(dir, f1), path_join(dir, f2));
    assert(f1 =~= j1.skip(j1.len() - f1.len()));
    assert(f2 =~= j2.skip(j2.len() - f2.len()));
    assert(m1 =~= f1.take(m1.len() as int));
    assert(m2 =~= f2.take(m2.len() as int));
    law_marks_are_unique(pid1, seq1, pid2, seq2);
}

/// A file for a repository whose name holds no slash, and for a package, lies directly in the
/// download directory: what follows the directory is one path component.
pub proof fn law_downloads_stay_in_the_download_dir(
    dir: Seq<char>,
    remote: Seq<char>,
    package: Seq<char>,
)
    requires
        !remote.contains('/'),
        crate::package::valid_package_name(package),
    ensures
        ({
            let file = remote + "_"@ + package + "."@ + "pkgar"@;
            &&& forall|i: int| 0 <= i < file.len() ==> #[trigger] file[i] != '/'
            &&& download_file(dir, remote, package, "pkgar"@) == (if dir.len() == 0 || dir.last()
                == '/' {
                dir + file
            } else {
                dir + "/"@ + file
            })
        }),
{
    reveal_strlit("_");
    reveal_strlit(".");
    reveal_strlit("pkgar");
    crate::package::law_package_name_is_a_path_component(package);
    let file = remote + "_"@ + package + "."@ + "pkgar"@;
    let (a, b) = (remote.len() as int, package.len() as int);
    assert forall|i: int| 0 <= i < file.len() implies #[trigger] file[i] != '/' by {
        if i < a {
            assert(file[i] == remote[i]);
            assert(remote.contains(remote[i]));
        } else if i == a {
            assert(file[i] == '_');
        } else if i < a + 1 + b {
            assert(file[i] == package[i - a - 1]);
        } else if i == a + 1 + b {
            assert(file[i] == '.');
        } else {
            assert(file[i] == "pkgar"@[i - a - b - 2]);
        }
    }
}

impl RepoManager {
    /// The name of the file that describes a package.
    pub fn toml_file(package: &PackageName) -> (r: String)
        ensures
            r@ == package@ + ".toml"@,
    {
        let mut r = package.as_str().to_owned();
        r.append(".toml");
        r
    }

    /// The name of the archive of a package.
    pub fn pkgar_file(package: &PackageName) -> (r: String)
        ensures
            r@ == package@ + ".pkgar"@,
    {
        let mut r = package.as_str().to_owned();
        r.append(".pkgar");
        r
    }

    /// The text of a file, from wherever it was got, and the repository that it came from.
    pub fn download_to_string(&self, file: &str, source: TextSource) -> (r: Result<
        (String, RemoteName),
        Error,
    >)
        ensures
            text_result(r, file@, source),
    {
        match source {
            TextSource::Local { remote, path, read } => match read {
                Ok(text) => Ok((text, remote)),
                Err(io) => Err(wrap_io_err(io, path.as_str(), "Reading")),
            },
            TextSource::Remote { outcome, bytes } => match outcome {
                Ok(remote) => match text_from_utf8(bytes) {
                    Some(text) => Ok((text, remote)),
                    None => Err(Error::ContentIsNotValidUnicode(file.to_owned())),
                },
                Err(e) => Err(e),
            },
        }
    }

    /// The description of a package, from wherever `toml_file(package)` was got.
    pub fn get_package_toml(&self, package: &PackageName, source: TextSource) -> (r: Result<
        (String, RemoteName),
        Error,
    >)
        ensures
            match source {
                TextSource::Remote { outcome: Err(cause), bytes } => r matches Err(e)
                    && names_missing_package(e, package@, cause),
                _ => text_result(r, package@ + ".toml"@, source),
            },
    {
        match source {
            TextSource::Remote { outcome: Err(cause), bytes: _ } => Err(
                name_missing_package(package, cause),
            ),
            source => self.download_to_string(Self::toml_file(package).as_str(), source),
        }
    }

    /// Where the archive of a package is and which repository it came from, once it was tried to
    /// get `pkgar_file(package)` into `dst_path`.
    pub fn sync_pkgar(&self, package: &PackageName, dst_path: String, source: ArchiveSource) -> (r:
        Result<(String, RemoteName), Error>)
        ensures
            match source {
                ArchiveSource::Local { remote, path } => r == Ok::<(String, RemoteName), Error>(
                    (path, remote),
                ),
                ArchiveSource::NoDestination(io) => r matches Err(e) && wraps_io(
                    e,
                    io,
                    dst_path@,
                    "Creating"@,
                ),
                ArchiveSource::Remote { outcome } => match outcome {
                    Ok(remote) => r == Ok::<(String, RemoteName), Error>((dst_path, remote)),
                    Err(cause) => r matches Err(e) && names_missing_package(e, package@, cause),
                },
            },
    {
        match source {
            ArchiveSource::Local { remote, path } => Ok((path, remote)),
            ArchiveSource::NoDestination(io) => Err(wrap_io_err(io, dst_path.as_str(), "Creating")),
            ArchiveSource::Remote { outcome } => match outcome {
                Ok(remote) => Ok((dst_path, remote)),
                Err(cause) => Err(name_missing_package(package, cause)),
            },
        }
    }

    /// A file in the download directory.
    pub fn get_local_path(&self, remote: &str, file: &str, ext: &str) -> (r: String)
        ensures
            r@ == download_file(self@.download_path, remote@, file@, ext@),
    {
        let mut name = joined(remote, "_", file);
        name.append(".");
        name.append(ext);
        join(self.download_path.as_str(), name.as_str())
    }

    /// Where an archive is downloaded to before it is known which repository has it. No other
    /// download uses the name, so that two of the same package do not meet.
    pub fn scratch_path(&self, package: &PackageName, pid: u32, seq: u64) -> (r: String)
        ensures
            r@ == download_file(
                self@.download_path,
                unique_mark(pid, seq),
                package@,
                "pkgar"@,
            ),
    {
        self.get_local_path(mark(pid, seq).as_str(), package.as_str(), "pkgar")
    }

    /// What has to happen to an archive that `sync_pkgar` got: one from this machine stays where
    /// it is, one from the network is named after its repository.
    pub fn get_package_pkgar(&self, package: &PackageName, local_path: String, remote: &str) -> (r:
        Result<Placed<'_>, Error>)
        ensures
            r is Ok <==> self@.remote_map.contains_key(remote@),
            r matches Ok(placed) ==> {
                let entry = self@.remote_map[remote@];
                let named = download_file(
                    self@.download_path,
                    entry.name,
                    package@,
                    "pkgar"@,
                );
                &&& placed.remote@ == entry
                &&& entry.pubpath.len() == 0 ==> placed.path == local_path
                    && placed.rename_from is None
                &&& entry.pubpath.len() > 0 ==> {
                    &&& placed.path@ == named
                    &&& placed.rename_from is Some <==> named != local_path@
                    &&& placed.rename_from matches Some(from) ==> from == local_path
                }
            },
            r matches Err(e) ==> (e matches Error::RepoCacheNotFound(p) && p@ == package@),
    {
        match self.remote_map.get(remote) {
            None => Err(Error::RepoCacheNotFound(package.clone())),
            Some(entry) => {
                if entry.is_local() {
                    Ok(Placed { path: local_path, rename_from: None, remote: entry })
                } else {
                    let named = self.get_local_path(
                        entry.name.as_str(),
                        package.as_str(),
                        "pkgar",
                    );
                    let rename_from = if same(named.as_str(), local_path.as_str()) {
                        None
                    } else {
                        Some(local_path)
                    };
                    Ok(Placed { path: named, rename_from, remote: entry })
                }
            },
        }
    }

    /// What is known of a repository.
    pub fn get_remote_info(&self, remote: &str) -> (r: Option<&RemotePath>)
        ensures
            r is Some <==> self@.remote_map.contains_key(remote@),
            r matches Some(entry) ==> entry@ == self@.remote_map[remote@],
    {
        self.remote_map.get(remote)
    }
}

} // verus!
