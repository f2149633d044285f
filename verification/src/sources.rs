//! The files that list the repositories.
use crate::error::{wrap_io_err, wraps_io, Error, IoError};
use crate::name_map::NameMap;
use crate::path::{join, path_join};
use crate::repo_manager::{
    law_adding_keeps_the_lists_consistent, local_at, remote_at, texts, url_host, KeyLookup,
    RepoManager, RepoManagerView, PUB_TOML,
};
use crate::text::{
    comes_before, lemma_comes_before_irreflexive, lemma_comes_before_transitive, lines, lines_of,
    place, starts_with, trim, trimmed, Edge, Place,
};
use crate::PACKAGES_REMOTE_DIR;
use vstd::prelude::*;

verus! {

/// A file that lists repositories, and what reading it gave.
#[derive(Debug)]
pub struct RepoFile {
    pub path: String,
    pub content: Result<String, IoError>,
}

/// What reading the directory of these files gave.
#[derive(Debug)]
pub enum Listing {
    /// The directory could not be read.
    Unreadable(IoError),
    /// An item of the directory could not be read.
    BadItem(IoError),
    /// The files, in any order.
    Files(Vec<RepoFile>),
}

/// A row of files with one more, after all whose path does not come later.
pub open spec fn insert_by_path(files: Seq<RepoFile>, file: RepoFile) -> Seq<RepoFile>
    decreases files.len(),
{
    if files.len() == 0 || !comes_before(file.path@, files.last().path@) {
        files.push(file)
    } else {
        insert_by_path(files.drop_last(), file).push(files.last())
    }
}

/// The files in the order of their paths.
pub open spec fn by_path(files: Seq<RepoFile>) -> Seq<RepoFile>
    decreases files.len(),
{
    if files.len() == 0 {
        files
    } else {
        insert_by_path(by_path(files.drop_last()), files.last())
    }
}

/// Whether no file comes after one with a later path.
pub open spec fn ordered(files: Seq<RepoFile>) -> bool {
    forall|i: int, j: int|
        0 <= i < j < files.len() ==> !comes_before(
            (#[trigger] files[j]).path@,
            (#[trigger] files[i]).path@,
        )
}

/// Of two texts one comes before the other, or they are the same.
proof fn lemma_total(a: Seq<char>, b: Seq<char>)
    ensures
        comes_before(a, b) || a == b || comes_before(b, a),
    decreases a.len(),
{
    if a.len() == 0 && b.len() == 0 {
        assert(a =~= b);
    } else if a.len() > 0 && b.len() > 0 && a[0] == b[0] {
        lemma_total(a.drop_first(), b.drop_first());
        if a.drop_first() == b.drop_first() {
            assert(a =~= seq![a[0]] + a.drop_first());
            assert(b =~= seq![b[0]] + b.drop_first());
        }
    }
}

/// Not coming before is transitive.
proof fn lemma_not_before(a: Seq<char>, b: Seq<char>, c: Seq<char>)
    requires
        !comes_before(b, a),
        !comes_before(c, b),
    ensures
        !comes_before(c, a),
{
    lemma_total(a, b);
    lemma_total(b, c);
    if comes_before(c, a) {
        if comes_before(a, b) {
            lemma_comes_before_transitive(c, a, b);
        }
    }
}

proof fn lemma_insert_by_path(files: Seq<RepoFile>, file: RepoFile)
    requires
        ordered(files),
    ensures
        ordered(insert_by_path(files, file)),
        insert_by_path(files, file).to_multiset() == files.to_multiset().insert(file),
    decreases files.len(),
{
    broadcast use vstd::seq_lib::group_to_multiset_ensures;

    let r = insert_by_path(files, file);
    if files.len() == 0 || !comes_before(file.path@, files.last().path@) {
        assert forall|i: int, j: int| 0 <= i < j < r.len() implies !comes_before(
            (#[trigger] r[j]).path@,
            (#[trigger] r[i]).path@,
        ) by {
            if j == files.len() {
                if i < files.len() - 1 {
                    assert(!comes_before(files.last().path@, files[i].path@));
                    lemma_not_before(files[i].path@, files.last().path@, file.path@);
                }
            } else {
                assert(r[i] == files[i] && r[j] == files[j]);
            }
        }
    } else {
        let shorter = files.drop_last();
        let s = insert_by_path(shorter, file);
        lemma_insert_by_path(shorter, file);
        assert(files =~= shorter.push(files.last()));
        assert(r.to_multiset() =~= files.to_multiset().insert(file));
        assert forall|i: int, j: int| 0 <= i < j < r.len() implies !comes_before(
            (#[trigger] r[j]).path@,
            (#[trigger] r[i]).path@,
        ) by {
            if j == s.len() {
                assert(s.to_multiset().contains(s[i]));
                if s[i] != file {
                    assert(shorter.to_multiset().contains(s[i]));
                    assert(shorter.contains(s[i]));
                    let k = choose|k: int| 0 <= k < shorter.len() && shorter[k] == s[i];
                    assert(files[k] == s[i]);
                    assert(!comes_before(files.last().path@, files[k].path@));
                } else if comes_before(files.last().path@, file.path@) {
                    lemma_comes_before_transitive(file.path@, files.last().path@, file.path@);
                    lemma_comes_before_irreflexive(file.path@);
                }
            } else {
                assert(r[i] == s[i] && r[j] == s[j]);
            }
        }
    }
}

/// Putting the files in order neither loses nor adds one.
pub proof fn law_by_path_sorts(files: Seq<RepoFile>)
    ensures
        ordered(by_path(files)),
        by_path(files).to_multiset() == files.to_multiset(),
    decreases files.len(),
{
    broadcast use vstd::seq_lib::group_to_multiset_ensures;

    if files.len() > 0 {
        law_by_path_sorts(files.drop_last());
        lemma_insert_by_path(by_path(files.drop_last()), files.last());
        assert(files =~= files.drop_last().push(files.last()));
    }
}

/// Why the repositories could not be loaded.
pub enum LoadFailure {
    BadUrl(Seq<char>),
    Unreadable(IoError, Seq<char>),
}

/// What loading gave. After a failure the repositories before it are there.
pub struct Loaded {
    pub manager: RepoManagerView,
    pub failure: Option<LoadFailure>,
}

/// What the lines of a file add. A line that starts with `#` adds nothing, and any other one, a
/// blank one too, has to be a URL.
pub open spec fn load_lines(m: RepoManagerView, lines: Seq<Seq<char>>, target: Seq<char>) -> Loaded
    decreases lines.len(),
{
    if lines.len() == 0 {
        Loaded { manager: m, failure: None }
    } else if lines[0].len() > 0 && lines[0][0] == '#' {
        load_lines(m, lines.drop_first(), target)
    } else {
        let url = trimmed(lines[0], Edge::Blank);
        match url_host(url) {
            Some(host) => load_lines(
                m.with_remote(remote_at(url, target, host)),
                lines.drop_first(),
                target,
            ),
            None => Loaded { manager: m, failure: Some(LoadFailure::BadUrl(url)) },
        }
    }
}

/// What files add, one after the other, up to the first failure.
pub open spec fn load_files(m: RepoManagerView, files: Seq<RepoFile>, target: Seq<char>) -> Loaded
    decreases files.len(),
{
    if files.len() == 0 {
        Loaded { manager: m, failure: None }
    } else {
        match files[0].content {
            Err(e) => Loaded {
                manager: m,
                failure: Some(LoadFailure::Unreadable(e, files[0].path@)),
            },
            Ok(text) => {
                let first = load_lines(m, lines_of(text@), target);
                if first.failure is Some {
                    first
                } else {
                    load_files(first.manager, files.drop_first(), target)
                }
            },
        }
    }
}

/// Whether `e` reports the failure.
pub open spec fn reports_failure(e: Error, failure: LoadFailure) -> bool {
    match failure {
        LoadFailure::BadUrl(url) => e matches Error::RepoPathInvalid(p) && p@ == url,
        LoadFailure::Unreadable(io, path) => wraps_io(e, io, path, "Reading"@),
    }
}

/// The manager after the installer's key, where there is one, was added to what was loaded.
pub open spec fn with_installer(
    m: RepoManagerView,
    target: Seq<char>,
    key: KeyLookup,
) -> RepoManagerView {
    match key {
        KeyLookup::Found(k) => m.with_local(
            local_at("installer_key"@, Seq::empty(), target, k@),
        ),
        _ => m,
    }
}

/// Whether a line adds nothing.
pub open spec fn is_comment(line: Seq<char>) -> bool {
    line.len() > 0 && line[0] == '#'
}

/// Lines are taken one after the other: what more lines add, they add to what the ones before left,
/// and after a failure nothing is added.
pub proof fn law_lines_add_one_after_the_other(
    m: RepoManagerView,
    before: Seq<Seq<char>>,
    after: Seq<Seq<char>>,
    target: Seq<char>,
)
    ensures
        load_lines(m, before, target).failure is None ==> load_lines(m, before + after, target)
            == load_lines(load_lines(m, before, target).manager, after, target),
        load_lines(m, before, target).failure is Some ==> load_lines(m, before + after, target)
            == load_lines(m, before, target),
    decreases before.len(),
{
    let all = before + after;
    if before.len() == 0 {
        assert(all =~= after);
    } else {
        assert(all[0] == before[0]);
        assert(all.drop_first() =~= before.drop_first() + after);
        let url = trimmed(before[0], Edge::Blank);
        if before[0].len() > 0 && before[0][0] == '#' {
            law_lines_add_one_after_the_other(m, before.drop_first(), after, target);
        } else if let Some(host) = url_host(url) {
            law_lines_add_one_after_the_other(
                m.with_remote(remote_at(url, target, host)),
                before.drop_first(),
                after,
                target,
            );
        }
    }
}

/// A line that starts with `#` adds nothing. Any other one adds one repository: its URL is the line
/// without the blanks at its ends, and its name is the host of the URL. A repository that was not
/// known comes last. A line without a host is a failure, and adds nothing.
pub proof fn law_what_a_line_adds(m: RepoManagerView, line: Seq<char>, target: Seq<char>)
    ensures
        ({
            let r = load_lines(m, seq![line], target);
            let url = trimmed(line, Edge::Blank);
            &&& is_comment(line) ==> r.failure is None && r.manager == m
            &&& !is_comment(line) && url_host(url) is None ==> r.failure == Some(
                LoadFailure::BadUrl(url),
            ) && r.manager == m
            &&& !is_comment(line) ==> (url_host(url) matches Some(host) ==> {
                &&& r.failure is None
                &&& r.manager.remote_map.contains_key(host)
                &&& r.manager.remote_map[host].path == url + "/"@ + target
                &&& r.manager.remote_map[host].pubpath == url + "/id_ed25519.pub.toml"@
                &&& r.manager.remote_map[host].name == host
                &&& r.manager.remote_map[host].pubkey is None
                &&& r.manager.remote_map.remove(host) =~= m.remote_map.remove(host)
                &&& m.remote_map.contains_key(host) ==> r.manager.remotes == m.remotes
                &&& !m.remote_map.contains_key(host) ==> r.manager.remotes == m.remotes.push(host)
                &&& r.manager.locals == m.locals
                &&& r.manager.download_path == m.download_path
            })
        }),
{
    reveal_with_fuel(load_lines, 3);
    let one = seq![line];
    let url = trimmed(line, Edge::Blank);
    assert(one[0] == line);
    assert(one.drop_first().len() == 0);
    reveal_strlit("/");
    reveal_strlit("id_ed25519.pub.toml");
    reveal_strlit("/id_ed25519.pub.toml");
    assert("/id_ed25519.pub.toml"@ =~= "/"@ + PUB_TOML@);
    assert(url + "/id_ed25519.pub.toml"@ =~= url + "/"@ + PUB_TOML@);
}

/// Comments do not matter: with a line that starts with `#` anywhere, a file adds the same as
/// without it.
pub proof fn law_comments_do_not_matter(
    m: RepoManagerView,
    before: Seq<Seq<char>>,
    line: Seq<char>,
    after: Seq<Seq<char>>,
    target: Seq<char>,
)
    requires
        line.len() > 0,
        line[0] == '#',
    ensures
        load_lines(m, before.push(line) + after, target) == load_lines(m, before + after, target),
{
    let first = load_lines(m, before, target);
    assert(before.push(line) =~= before + seq![line]);
    law_lines_add_one_after_the_other(m, before, seq![line], target);
    law_what_a_line_adds(first.manager, line, target);
    law_lines_add_one_after_the_other(m, before.push(line), after, target);
    law_lines_add_one_after_the_other(m, before, after, target);
}

/// Every listed URL is loaded, or a failure is told. Without a failure every line that is no
/// comment has a host, and the repository of that name is known; of lines with the same host the
/// last one counts.
pub proof fn law_every_listed_repository_is_loaded(
    m: RepoManagerView,
    lines: Seq<Seq<char>>,
    target: Seq<char>,
    i: int,
)
    requires
        load_lines(m, lines, target).failure is None,
        0 <= i < lines.len(),
        !is_comment(lines[i]),
    ensures
        ({
            let after = load_lines(m, lines, target).manager;
            let url = trimmed(lines[i], Edge::Blank);
            &&& url_host(url) matches Some(host)
            &&& after.remote_map.contains_key(host)
            &&& !m.remote_map.contains_key(host) ==> after.remotes.contains(host)
            &&& (forall|k: int|
                i < k < lines.len() && !is_comment(#[trigger] lines[k]) ==> url_host(
                    trimmed(lines[k], Edge::Blank),
                ) != Some(host)) ==> after.remote_map[host].path == url + "/"@ + target
                && after.remote_map[host].pubpath == url + "/id_ed25519.pub.toml"@
                && after.remote_map[host].pubkey is None
        }),
{
    let before = lines.take(i);
    let rest = lines.skip(i + 1);
    let url = trimmed(lines[i], Edge::Blank);
    let with = lines.take(i + 1);
    assert(lines =~= with + rest);
    assert(with =~= before + seq![lines[i]]);
    law_lines_add_one_after_the_other(m, with, rest, target);
    law_lines_add_one_after_the_other(m, before, seq![lines[i]], target);
    let m1 = load_lines(m, before, target).manager;
    let m2 = load_lines(m, with, target).manager;
    law_what_a_line_adds(m1, lines[i], target);
    if let Some(host) = url_host(url) {
        law_lines_only_add(m, before, target, host);
        law_lines_only_add(m2, rest, target, host);
        if !m.remote_map.contains_key(host) {
            if m1.remote_map.contains_key(host) {
                assert(m1.remotes.contains(host));
            } else {
                assert(m2.remotes.last() == host);
            }
            assert(m2.remotes.contains(host));
            let k = choose|k: int| 0 <= k < m2.remotes.len() && m2.remotes[k] == host;
            assert(load_lines(m2, rest, target).manager.remotes[k] == host);
        }
        if forall|k: int|
            i < k < lines.len() && !is_comment(#[trigger] lines[k]) ==> url_host(
                trimmed(lines[k], Edge::Blank),
            ) != Some(host) {
            assert forall|k: int| 0 <= k < rest.len() && !is_comment(
                #[trigger] rest[k],
            ) implies url_host(trimmed(rest[k], Edge::Blank)) != Some(host) by {
                assert(rest[k] == lines[i + 1 + k]);
            }
        }
    }
}

/// Lines take nothing away, add no repository that none of them names, and change no other one.
pub proof fn law_lines_only_add(
    m: RepoManagerView,
    lines: Seq<Seq<char>>,
    target: Seq<char>,
    name: Seq<char>,
)
    ensures
        ({
            let after = load_lines(m, lines, target).manager;
            &&& after.locals == m.locals
            &&& after.download_path == m.download_path
            &&& m.remotes.is_prefix_of(after.remotes)
            &&& m.remote_map.contains_key(name) ==> after.remote_map.contains_key(name)
            &&& !m.remote_map.contains_key(name) && after.remote_map.contains_key(name)
                ==> after.remotes.contains(name)
            &&& (forall|k: int|
                0 <= k < lines.len() && !is_comment(#[trigger] lines[k]) ==> url_host(
                    trimmed(lines[k], Edge::Blank),
                ) != Some(name)) ==> {
                &&& after.remote_map.contains_key(name) <==> m.remote_map.contains_key(name)
                &&& m.remote_map.contains_key(name) ==> after.remote_map[name]
                    == m.remote_map[name]
            }
        }),
    decreases lines.len(),
{
    if lines.len() > 0 {
        let last = lines.last();
        let before = lines.drop_last();
        let m1 = load_lines(m, before, target).manager;
        assert(lines =~= before + seq![last]);
        law_lines_only_add(m, before, target, name);
        law_lines_add_one_after_the_other(m, before, seq![last], target);
        law_what_a_line_adds(m1, last, target);
        let after = load_lines(m, lines, target).manager;
        assert(m1.remotes.is_prefix_of(after.remotes));
        if !m.remote_map.contains_key(name) && after.remote_map.contains_key(name) {
            if m1.remotes.contains(name) {
                let k = choose|k: int| 0 <= k < m1.remotes.len() && m1.remotes[k] == name;
                assert(after.remotes[k] == name);
            } else {
                let host = url_host(trimmed(last, Edge::Blank))->0;
                if name != host {
                    assert(m1.remote_map.remove(host).contains_key(name));
                }
                assert(after.remotes.last() == name);
                assert(after.remotes[after.remotes.len() - 1] == name);
            }
        }
        if forall|k: int|
            0 <= k < lines.len() && !is_comment(#[trigger] lines[k]) ==> url_host(
                trimmed(lines[k], Edge::Blank),
            ) != Some(name) {
            assert forall|k: int| 0 <= k < before.len() && !is_comment(
                #[trigger] before[k],
            ) implies url_host(trimmed(before[k], Edge::Blank)) != Some(name) by {
                assert(before[k] == lines[k]);
            }
            assert(lines[lines.len() - 1] == last);
            if !is_comment(last) {
                if let Some(host) = url_host(trimmed(last, Edge::Blank)) {
                    assert(after.remote_map.remove(host).contains_key(name)
                        == m1.remote_map.remove(host).contains_key(name));
                    if m.remote_map.contains_key(name) {
                        assert(after.remote_map.remove(host)[name] == m1.remote_map.remove(
                            host,
                        )[name]);
                    }
                }
            }
        } else if m.remote_map.contains_key(name) && !is_comment(last) {
            if let Some(host) = url_host(trimmed(last, Edge::Blank)) {
                if host != name {
                    assert(m1.remote_map.remove(host).contains_key(name));
                }
            }
        }
    }
}

/// Loading lines fails exactly at the first line that is no comment and has no host. That URL is
/// told, and what the lines before it list is loaded.
pub proof fn law_first_bad_line_is_told(
    m: RepoManagerView,
    lines: Seq<Seq<char>>,
    target: Seq<char>,
)
    ensures
        load_lines(m, lines, target).failure is Some <==> exists|i: int|
            0 <= i < lines.len() && !is_comment(#[trigger] lines[i]) && url_host(
                trimmed(lines[i], Edge::Blank),
            ) is None,
        forall|i: int|
            0 <= i < lines.len() && !is_comment(#[trigger] lines[i]) && url_host(
                trimmed(lines[i], Edge::Blank),
            ) is None && load_lines(m, lines.take(i), target).failure is None ==> load_lines(
                m,
                lines,
                target,
            ) == (Loaded {
                manager: load_lines(m, lines.take(i), target).manager,
                failure: Some(LoadFailure::BadUrl(trimmed(lines[i], Edge::Blank))),
            }),
    decreases lines.len(),
{
    assert forall|i: int|
        0 <= i < lines.len() && !is_comment(#[trigger] lines[i]) && url_host(
            trimmed(lines[i], Edge::Blank),
        ) is None && load_lines(m, lines.take(i), target).failure is None implies load_lines(
        m,
        lines,
        target,
    ) == (Loaded {
        manager: load_lines(m, lines.take(i), target).manager,
        failure: Some(LoadFailure::BadUrl(trimmed(lines[i], Edge::Blank))),
    }) by {
        let before = lines.take(i);
        let with = lines.take(i + 1);
        assert(with =~= before + seq![lines[i]]);
        assert(lines =~= with + lines.skip(i + 1));
        law_lines_add_one_after_the_other(m, before, seq![lines[i]], target);
        law_what_a_line_adds(load_lines(m, before, target).manager, lines[i], target);
        law_lines_add_one_after_the_other(m, with, lines.skip(i + 1), target);
    }
    if lines.len() > 0 {
        let before = lines.drop_last();
        let last = lines.last();
        law_first_bad_line_is_told(m, before, target);
        assert(lines =~= before + seq![last]);
        assert(lines[lines.len() - 1] == last);
        law_lines_add_one_after_the_other(m, before, seq![last], target);
        law_what_a_line_adds(load_lines(m, before, target).manager, last, target);
        if load_lines(m, before, target).failure is Some {
            let i = choose|i: int|
                0 <= i < before.len() && !is_comment(#[trigger] before[i]) && url_host(
                    trimmed(before[i], Edge::Blank),
                ) is None;
            assert(lines[i] == before[i]);
        } else {
            assert forall|i: int| 0 <= i < lines.len() && !is_comment(#[trigger] lines[i])
                && url_host(trimmed(lines[i], Edge::Blank)) is None implies i == lines.len()
                - 1 by {
                if i < before.len() {
                    assert(before[i] == lines[i]);
                }
            }
        }
    }
}

/// Files are taken one after the other, and after a failure nothing is added. A file adds what its
/// lines add; one that could not be read is a failure.
pub proof fn law_files_add_one_after_the_other(
    m: RepoManagerView,
    before: Seq<RepoFile>,
    file: RepoFile,
    target: Seq<char>,
)
    ensures
        load_files(m, Seq::empty(), target) == (Loaded { manager: m, failure: None }),
        load_files(m, before, target).failure is Some ==> load_files(m, before.push(file), target)
            == load_files(m, before, target),
        load_files(m, before, target).failure is None ==> match file.content {
            Ok(text) => load_files(m, before.push(file), target) == load_lines(
                load_files(m, before, target).manager,
                lines_of(text@),
                target,
            ),
            Err(io) => load_files(m, before.push(file), target) == (Loaded {
                manager: load_files(m, before, target).manager,
                failure: Some(LoadFailure::Unreadable(io, file.path@)),
            }),
        },
    decreases before.len(),
{
    let all = before.push(file);
    reveal_with_fuel(load_files, 2);
    if before.len() == 0 {
        assert(all.drop_first().len() == 0);
        if let Ok(text) = file.content {
            let one = load_lines(m, lines_of(text@), target);
            assert(one.failure is None ==> one == (Loaded { manager: one.manager, failure: None }));
        }
    } else {
        assert(all[0] == before[0]);
        assert(all.drop_first() =~= before.drop_first().push(file));
        if let Ok(text) = before[0].content {
            let first = load_lines(m, lines_of(text@), target);
            if first.failure is None {
                law_files_add_one_after_the_other(
                    first.manager,
                    before.drop_first(),
                    file,
                    target,
                );
            }
        }
    }
}

/// Every URL of every file is loaded, or a failure is told: without a failure all files could be
/// read, and each of their lines that is no comment has a host that is the name of a repository.
pub proof fn law_every_file_is_loaded(
    m: RepoManagerView,
    files: Seq<RepoFile>,
    target: Seq<char>,
    f: int,
    i: int,
)
    requires
        load_files(m, files, target).failure is None,
        0 <= f < files.len(),
    ensures
        files[f].content matches Ok(text) && (0 <= i < lines_of(text@).len() && !is_comment(
            lines_of(text@)[i],
        ) ==> (url_host(trimmed(lines_of(text@)[i], Edge::Blank)) matches Some(host) && load_files(
            m,
            files,
            target,
        ).manager.remote_map.contains_key(host))),
    decreases files.len(),
{
    let before = files.drop_last();
    let last = files.last();
    assert(files =~= before.push(last));
    law_files_add_one_after_the_other(m, before, last, target);
    let m1 = load_files(m, before, target).manager;
    if let Ok(text) = last.content {
        let lines = lines_of(text@);
        if f == before.len() {
            if 0 <= i < lines.len() && !is_comment(lines[i]) {
                law_every_listed_repository_is_loaded(m1, lines, target, i);
            }
        } else {
            law_every_file_is_loaded(m, before, target, f, i);
            assert(before[f] == files[f]);
            if let Ok(t) = files[f].content {
                if let Some(host) = url_host(trimmed(lines_of(t@)[i], Edge::Blank)) {
                    law_lines_only_add(m1, lines, target, host);
                }
            }
        }
    }
}

/// Files take nothing away, and leave the repositories of this machine as they are.
pub proof fn law_files_only_add(
    m: RepoManagerView,
    files: Seq<RepoFile>,
    target: Seq<char>,
    name: Seq<char>,
)
    ensures
        ({
            let after = load_files(m, files, target).manager;
            &&& after.locals == m.locals
            &&& after.download_path == m.download_path
            &&& m.remotes.is_prefix_of(after.remotes)
            &&& m.remote_map.contains_key(name) ==> after.remote_map.contains_key(name)
            &&& !m.remote_map.contains_key(name) && after.remote_map.contains_key(name) ==> {
                &&& after.remotes.contains(name)
                &&& exists|f: int, i: int|
                    #![trigger listed_at(files, f, i)]
                    url_host(trimmed(listed_at(files, f, i), Edge::Blank)) == Some(name)
                        && !is_comment(listed_at(files, f, i)) && 0 <= f < files.len() && (
                    files[f].content matches Ok(text) && 0 <= i < lines_of(text@).len())
            }
        }),
    decreases files.len(),
{
    if files.len() == 0 {
        assert(files =~= Seq::empty());
        law_files_add_one_after_the_other(m, files, files[0], target);
    } else {
        let before = files.drop_last();
        let last = files.last();
        assert(files =~= before.push(last));
        law_files_only_add(m, before, target, name);
        law_files_add_one_after_the_other(m, before, last, target);
        let m1 = load_files(m, before, target).manager;
        let after = load_files(m, files, target).manager;
        if let Ok(text) = last.content {
            law_lines_only_add(m1, lines_of(text@), target, name);
        }
        assert(m1.remotes.is_prefix_of(after.remotes));
        if !m.remote_map.contains_key(name) && after.remote_map.contains_key(name) {
            if m1.remote_map.contains_key(name) {
                let k = choose|k: int| 0 <= k < m1.remotes.len() && m1.remotes[k] == name;
                assert(after.remotes[k] == name);
                let (f, i) = choose|f: int, i: int|
                    #![trigger listed_at(before, f, i)]
                    url_host(trimmed(listed_at(before, f, i), Edge::Blank)) == Some(name)
                        && !is_comment(listed_at(before, f, i)) && 0 <= f < before.len() && (
                    before[f].content matches Ok(text) && 0 <= i < lines_of(text@).len());
                assert(before[f] == files[f]);
                assert(listed_at(files, f, i) == listed_at(before, f, i));
            } else {
                let lines = lines_of(last.content->Ok_0@);
                let i = choose|i: int|
                    0 <= i < lines.len() && !is_comment(#[trigger] lines[i]) && url_host(
                        trimmed(lines[i], Edge::Blank),
                    ) == Some(name);
                assert(files[files.len() - 1] == last);
                assert(listed_at(files, files.len() - 1, i) == lines[i]);
            }
        }
    }
}

/// A line of a file that could be read.
pub open spec fn listed_at(files: Seq<RepoFile>, f: int, i: int) -> Seq<char> {
    lines_of(files[f].content->Ok_0@)[i]
}

/// The files are taken in the order of their paths: of two files the one with the earlier path
/// comes first, whatever the order in which the directory was read.
pub proof fn law_files_are_taken_by_path(files: Seq<RepoFile>, i: int, j: int)
    requires
        0 <= i < j < files.len(),
    ensures
        by_path(files).len() == files.len(),
        !comes_before(by_path(files)[j].path@, by_path(files)[i].path@),
        files.contains(by_path(files)[i]),
        by_path(files).contains(files[i]),
{
    broadcast use vstd::seq_lib::group_to_multiset_ensures;

    let sorted = by_path(files);
    law_by_path_sorts(files);
    assert(sorted.len() == sorted.to_multiset().len());
    assert(files.len() == files.to_multiset().len());
    assert(sorted.contains(sorted[i]));
    assert(files.contains(files[i]));
    assert(sorted.to_multiset().contains(sorted[i]));
    assert(files.to_multiset().contains(files[i]));
}

/// A manager that was cleared knows nothing but the download directory.
pub proof fn law_cleared_manager_knows_nothing(m: RepoManagerView, name: Seq<char>)
    ensures
        m.cleared().remotes.len() == 0,
        m.cleared().locals.len() == 0,
        !m.cleared().remote_map.contains_key(name),
        m.cleared().download_path == m.download_path,
{
}

/// The installer is a source exactly when a key was found for it. It only stands for that key, and
/// every other repository stays what it is.
pub proof fn law_installer_stands_for_its_key(
    m: RepoManagerView,
    target: Seq<char>,
    key: KeyLookup,
    name: Seq<char>,
)
    ensures
        ({
            let r = with_installer(m, target, key);
            let installer = "installer_key"@;
            &&& r.remotes == m.remotes
            &&& r.download_path == m.download_path
            &&& key !is Found ==> r == m
            &&& key matches KeyLookup::Found(k) ==> {
                &&& r.remote_map.contains_key(installer)
                &&& r.remote_map[installer].pubkey == Some(k.pkey@)
                &&& r.remote_map[installer].path.len() == 0
                &&& r.remote_map[installer].pubpath.len() == 0
                &&& r.remote_map[installer].name == installer
                &&& m.remote_map.contains_key(installer) ==> r.locals == m.locals
                &&& !m.remote_map.contains_key(installer) ==> r.locals == m.locals.push(installer)
            }
            &&& name != installer ==> {
                &&& r.remote_map.contains_key(name) <==> m.remote_map.contains_key(name)
                &&& m.remote_map.contains_key(name) ==> r.remote_map[name] == m.remote_map[name]
            }
        }),
{
}

/// After an update without a failure every URL of every file is known, whatever the order in which
/// the files were found and whether or not the installer is a source.
pub proof fn law_every_listed_url_is_known_after_an_update(
    m: RepoManagerView,
    files: Seq<RepoFile>,
    target: Seq<char>,
    installer: KeyLookup,
    f: int,
    i: int,
)
    requires
        load_files(m.cleared(), by_path(files), target).failure is None,
        0 <= f < files.len(),
    ensures
        files[f].content matches Ok(text) && (0 <= i < lines_of(text@).len() && !is_comment(
            lines_of(text@)[i],
        ) ==> (url_host(trimmed(lines_of(text@)[i], Edge::Blank)) matches Some(host)
            && with_installer(
            load_files(m.cleared(), by_path(files), target).manager,
            target,
            installer,
        ).remote_map.contains_key(host))),
{
    broadcast use vstd::seq_lib::group_to_multiset_ensures;

    let sorted = by_path(files);
    law_by_path_sorts(files);
    assert(files.contains(files[f]));
    assert(files.to_multiset().contains(files[f]));
    let k = choose|k: int| 0 <= k < sorted.len() && sorted[k] == files[f];
    law_every_file_is_loaded(m.cleared(), sorted, target, k, i);
    if let Ok(text) = files[f].content {
        if let Some(host) = url_host(trimmed(lines_of(text@)[i], Edge::Blank)) {
            law_installer_stands_for_its_key(
                load_files(m.cleared(), sorted, target).manager,
                target,
                installer,
                host,
            );
        }
    }
}

/// A failure is told as what it is: a URL without a host as an invalid one, and a file that could
/// not be read as the failure of the system, with its path.
pub proof fn law_failures_are_told_as_they_are(e: Error, failure: LoadFailure)
    requires
        reports_failure(e, failure),
    ensures
        failure matches LoadFailure::BadUrl(url) ==> (e matches Error::RepoPathInvalid(p) && p@
            == url),
        failure matches LoadFailure::Unreadable(io, path) ==> wraps_io(e, io, path, "Reading"@),
{
}

/// Loading keeps the lists in line with what is known.
pub proof fn law_loading_keeps_the_lists_consistent(
    m: RepoManagerView,
    files: Seq<RepoFile>,
    target: Seq<char>,
)
    requires
        m.consistent(),
    ensures
        load_files(m, files, target).manager.consistent(),
    decreases files.len(),
{
    if files.len() > 0 {
        if let Ok(text) = files[0].content {
            lemma_lines_keep_consistent(m, lines_of(text@), target);
            let first = load_lines(m, lines_of(text@), target);
            if first.failure is None {
                law_loading_keeps_the_lists_consistent(first.manager, files.drop_first(), target);
            }
        }
    }
}

proof fn lemma_lines_keep_consistent(
    m: RepoManagerView,
    lines: Seq<Seq<char>>,
    target: Seq<char>,
)
    requires
        m.consistent(),
    ensures
        load_lines(m, lines, target).manager.consistent(),
    decreases lines.len(),
{
    if lines.len() > 0 {
        if lines[0].len() > 0 && lines[0][0] == '#' {
            lemma_lines_keep_consistent(m, lines.drop_first(), target);
        } else {
            let url = trimmed(lines[0], Edge::Blank);
            if let Some(host) = url_host(url) {
                let entry = remote_at(url, target, host);
                law_adding_keeps_the_lists_consistent(m, entry);
                lemma_lines_keep_consistent(m.with_remote(entry), lines.drop_first(), target);
            }
        }
    }
}

proof fn lemma_update_keeps_consistent(
    m: RepoManagerView,
    listing: Listing,
    target: Seq<char>,
    installer: KeyLookup,
)
    requires
        m.consistent(),
    ensures
        listing matches Listing::Files(files) ==> {
            let loaded = load_files(m, by_path(files@), target).manager;
            loaded.consistent() && with_installer(loaded, target, installer).consistent()
        },
{
    if let Listing::Files(files) = listing {
        law_loading_keeps_the_lists_consistent(m, by_path(files@), target);
        if let KeyLookup::Found(k) = installer {
            law_adding_keeps_the_lists_consistent(
                load_files(m, by_path(files@), target).manager,
                local_at("installer_key"@, Seq::empty(), target, k@),
            );
        }
    }
}

/// Puts files in the order of their paths.
fn sort_by_path(files: Vec<RepoFile>) -> (r: Vec<RepoFile>)
    ensures
        r@ == by_path(files@),
{
    let mut rest = files;
    let mut sorted: Vec<RepoFile> = Vec::new();
    let ghost mut done: Seq<RepoFile> = Seq::empty();
    assert(files@ =~= done + rest@);
    while rest.len() > 0
        invariant
            files@ =~= done + rest@,
            sorted@ == by_path(done),
        decreases rest.len(),
    {
        let file = rest.remove(0);
        let ghost before = sorted@;
        let mut i: usize = sorted.len();
        assert(before.take(i as int) =~= before);
        assert(before.skip(i as int) =~= Seq::<RepoFile>::empty());
        assert(insert_by_path(before, file) =~= insert_by_path(before.take(i as int), file)
            + before.skip(i as int));
        while i > 0 && place(file.path.as_str(), sorted[i - 1].path.as_str()) == Place::Before
            invariant
                i <= sorted.len(),
                sorted@ == before,
                insert_by_path(before, file) =~= insert_by_path(before.take(i as int), file)
                    + before.skip(i as int),
            decreases i,
        {
            let ghost head = before.take(i as int);
            assert(head.last() == before[i - 1]);
            assert(head.drop_last() =~= before.take(i - 1));
            assert(before.skip(i - 1) =~= seq![before[i - 1]] + before.skip(i as int));
            i = i - 1;
        }
        proof {
            let head = before.take(i as int);
            if i > 0 {
                assert(head.last() == before[i - 1]);
            }
            assert(insert_by_path(head, file) == head.push(file));
            assert((done.push(file)).drop_last() =~= done);
            done = done.push(file);
        }
        sorted.insert(i, file);
        assert(sorted@ =~= insert_by_path(before, file));
    }
    assert(done =~= files@);
    sorted
}

impl RepoManager {
    /// The directory of the files that list repositories.
    pub fn sources_dir(install_path: &str) -> (r: String)
        ensures
            r@ == path_join(install_path@, PACKAGES_REMOTE_DIR@),
    {
        join(install_path, PACKAGES_REMOTE_DIR)
    }

    /// The directory that may hold the installer's public key.
    pub fn installer_key_dir(install_path: &str) -> (r: String)
        ensures
            r@ == path_join(install_path@, "pkg"@),
    {
        join(install_path, "pkg")
    }

    fn add_lines(&mut self, text: &str, target: &str) -> (r: Result<(), Error>)
        ensures
            final(self)@ == load_lines(old(self)@, lines_of(text@), target@).manager,
            r is Ok <==> load_lines(old(self)@, lines_of(text@), target@).failure is None,
            r matches Err(e) ==> reports_failure(
                e,
                load_lines(old(self)@, lines_of(text@), target@).failure->0,
            ),
    {
        let all = lines(text);
        let ghost seqs = lines_of(text@);
        let mut i: usize = 0;
        assert(seqs.skip(0) =~= seqs);
        while i < all.len()
            invariant
                i <= all.len(),
                all@.map_values(|l: &str| l@) == seqs,
                load_lines(old(self)@, seqs, target@) == load_lines(
                    self@,
                    seqs.skip(i as int),
                    target@,
                ),
                seqs == lines_of(text@),
            decreases all.len() - i,
        {
            assert(seqs[i as int] == all@[i as int]@);
            assert(seqs.skip(i as int)[0] == seqs[i as int]);
            assert(seqs.skip(i as int).drop_first() =~= seqs.skip(i + 1));
            let line = all[i];
            if !starts_with(line, '#') {
                match self.add_remote(trim(line, Edge::Blank), target) {
                    Ok(_) => {},
                    Err(e) => {
                        return Err(e);
                    },
                }
            }
            i = i + 1;
        }
        Ok(())
    }

    fn add_files(&mut self, files: Vec<RepoFile>, target: &str) -> (r: Result<(), Error>)
        ensures
            final(self)@ == load_files(old(self)@, by_path(files@), target@).manager,
            r is Ok <==> load_files(old(self)@, by_path(files@), target@).failure is None,
            r matches Err(e) ==> reports_failure(
                e,
                load_files(old(self)@, by_path(files@), target@).failure->0,
            ),
    {
        let mut rest = sort_by_path(files);
        while rest.len() > 0
            invariant
                load_files(old(self)@, by_path(files@), target@) == load_files(self@, rest@, target@),
            decreases rest.len(),
        {
            let ghost all = rest@;
            let file = rest.remove(0);
            assert(all[0] == file);
            assert(all.drop_first() =~= rest@);
            match file.content {
                Err(io) => {
                    return Err(wrap_io_err(io, file.path.as_str(), "Reading"));
                },
                Ok(text) => match self.add_lines(text.as_str(), target) {
                    Ok(_) => {},
                    Err(e) => {
                        return Err(e);
                    },
                },
            }
        }
        Ok(())
    }

    /// Forgets all repositories, and loads those that the files below the install root list for
    /// the target. `installer` is what a search in `installer_key_dir` found; without a usable key
    /// there the installer is not a source.
    pub fn update_remotes(
        &mut self,
        target: &str,
        install_path: &str,
        listing: Listing,
        installer: KeyLookup,
    ) -> (r: Result<(), Error>)
        ensures
            final(self)@.consistent(),
            match listing {
                Listing::Unreadable(io) => {
                    &&& final(self)@ == old(self)@.cleared()
                    &&& r matches Err(e) && wraps_io(
                        e,
                        io,
                        path_join(install_path@, PACKAGES_REMOTE_DIR@),
                        "Reading dir"@,
                    )
                },
                Listing::BadItem(io) => {
                    &&& final(self)@ == old(self)@.cleared()
                    &&& r matches Err(e) && wraps_io(
                        e,
                        io,
                        path_join(install_path@, PACKAGES_REMOTE_DIR@),
                        "Reading dir item"@,
                    )
                },
                Listing::Files(files) => {
                    let loaded = load_files(old(self)@.cleared(), by_path(files@), target@);
                    match loaded.failure {
                        Some(failure) => {
                            &&& final(self)@ == loaded.manager
                            &&& r matches Err(e) && reports_failure(e, failure)
                        },
                        None => {
                            &&& final(self)@ == with_installer(loaded.manager, target@, installer)
                            &&& r is Ok
                        },
                    }
                },
            },
    {
        self.remotes = Vec::new();
        self.locals = Vec::new();
        self.remote_map = NameMap::new();
        assert(texts(self.remotes@) =~= Seq::empty());
        assert(texts(self.locals@) =~= Seq::empty());
        proof {
            lemma_update_keeps_consistent(self@, listing, target@, installer);
        }
        let dir = Self::sources_dir(install_path);
        let files = match listing {
            Listing::Unreadable(io) => {
                return Err(wrap_io_err(io, dir.as_str(), "Reading dir"));
            },
            Listing::BadItem(io) => {
                return Err(wrap_io_err(io, dir.as_str(), "Reading dir item"));
            },
            Listing::Files(files) => files,
        };
        match self.add_files(files, target) {
            Ok(_) => {},
            Err(e) => {
                return Err(e);
            },
        }
        let key_dir = Self::installer_key_dir(install_path);
        let _ = self.add_local("installer_key", "", target, key_dir.as_str(), installer);
        proof {
            reveal_strlit("");
            assert(""@ =~= Seq::<char>::empty());
        }
        Ok(())
    }
}

} // verus!
