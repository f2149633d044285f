//! Packages: their names, what a repository says of them, and its index.
use crate::name_map::NameMap;
use crate::text::{chars_of, has_prefix, strip_prefix};
use vstd::prelude::*;

verus! {

/// The identifier of a repository.
pub type RemoteName = String;

/// How often `c` occurs in `s`.
pub open spec fn occurrences(s: Seq<char>, c: char) -> nat
    decreases s.len(),
{
    if s.len() == 0 {
        0
    } else {
        occurrences(s.drop_last(), c) + (if s.last() == c {
            1nat
        } else {
            0nat
        })
    }
}

/// Whether a text can name a package. A name is not empty and holds neither a slash nor a NUL. It
/// has at most one dot, as in `name.target`. It has at most one colon, and only to end the
/// leading `host:`.
pub open spec fn valid_package_name(s: Seq<char>) -> bool {
    &&& s.len() > 0
    &&& !s.contains('/')
    &&& !s.contains('\0')
    &&& occurrences(s, '.') <= 1
    &&& occurrences(s, ':') <= 1
    &&& s.contains(':') ==> has_prefix(s, "host:"@)
}

/// Why a package could not be had.
#[derive(Debug)]
pub enum PackageError {
    PackageNotFound(PackageName),
    PackageNameInvalid(String),
}

/// The name of a package, which can stand as one component of a path or URL.
#[derive(Debug)]
pub struct PackageName {
    name: String,
}

impl View for PackageName {
    type V = Seq<char>;

    closed spec fn view(&self) -> Seq<char> {
        self.name@
    }
}

/// A character occurs in a text exactly if it is counted there.
proof fn lemma_occurrences(s: Seq<char>, c: char)
    ensures
        s.contains(c) <==> occurrences(s, c) > 0,
    decreases s.len(),
{
    if s.len() > 0 {
        lemma_occurrences(s.drop_last(), c);
        if s.contains(c) && s.last() != c {
            let i = choose|i: int| 0 <= i < s.len() && s[i] == c;
            assert(s.drop_last()[i] == c);
        }
        if s.drop_last().contains(c) {
            let i = choose|i: int| 0 <= i < s.drop_last().len() && s.drop_last()[i] == c;
            assert(s[i] == c);
        }
    }
}

/// An accepted name is safe as a component of a path: it is not empty, holds no separator and no
/// NUL, does not lead upward, and has at most one dot.
pub proof fn law_package_name_is_a_path_component(s: Seq<char>)
    requires
        valid_package_name(s),
    ensures
        s.len() > 0,
        forall|i: int| 0 <= i < s.len() ==> #[trigger] s[i] != '/' && s[i] != '\0',
        s != ".."@,
        occurrences(s, '.') <= 1,
{
    assert forall|i: int| 0 <= i < s.len() implies #[trigger] s[i] != '/' && s[i] != '\0' by {
        assert(s.contains(s[i]));
    }
    if s == ".."@ {
        reveal_strlit("..");
        reveal_with_fuel(occurrences, 3);
        assert(s.drop_last().last() == '.');
    }
}

proof fn lemma_at_most_one(s: Seq<char>, c: char)
    ensures
        occurrences(s, c) <= 1 <==> forall|i: int, j: int|
            0 <= i < j < s.len() ==> !(#[trigger] s[i] == c && #[trigger] s[j] == c),
    decreases s.len(),
{
    if s.len() > 0 {
        let shorter = s.drop_last();
        let last = s.len() - 1;
        lemma_at_most_one(shorter, c);
        lemma_occurrences(shorter, c);
        if forall|i: int, j: int|
            0 <= i < j < s.len() ==> !(#[trigger] s[i] == c && #[trigger] s[j] == c) {
            assert forall|i: int, j: int|
                0 <= i < j < shorter.len() implies !(#[trigger] shorter[i] == c
                && #[trigger] shorter[j] == c) by {
                assert(s[i] == shorter[i] && s[j] == shorter[j]);
            }
            if s.last() == c && shorter.contains(c) {
                let i = choose|i: int| 0 <= i < shorter.len() && shorter[i] == c;
                assert(s[i] == c && s[last] == c);
            }
        }
        if occurrences(s, c) <= 1 {
            assert forall|i: int, j: int| 0 <= i < j < s.len() implies !(#[trigger] s[i] == c
                && #[trigger] s[j] == c) by {
                assert(s[i] == shorter[i]);
                if j < last {
                    assert(s[j] == shorter[j]);
                } else if s[i] == c {
                    assert(shorter.contains(shorter[i]));
                }
            }
        }
    }
}

/// Which texts name a package: those that are not empty, hold neither a slash nor a NUL nor two
/// dots, and hold no colon but the one that ends a leading `host:`.
pub proof fn law_which_texts_name_a_package(s: Seq<char>)
    ensures
        valid_package_name(s) <==> {
            &&& s.len() > 0
            &&& forall|i: int|
                0 <= i < s.len() ==> #[trigger] s[i] != '/' && s[i] != '\0' && (s[i] == ':' ==> i == 4
                    && s[0] == 'h' && s[1] == 'o' && s[2] == 's' && s[3] == 't')
            &&& forall|i: int, j: int|
                0 <= i < j < s.len() ==> !(#[trigger] s[i] == '.' && #[trigger] s[j] == '.')
        },
{
    reveal_strlit("host:");
    lemma_at_most_one(s, '.');
    lemma_at_most_one(s, ':');
    let host = "host:"@;
    if valid_package_name(s) {
        assert forall|i: int| 0 <= i < s.len() implies #[trigger] s[i] != '/' && s[i] != '\0' && (
        s[i] == ':' ==> i == 4 && s[0] == 'h' && s[1] == 'o' && s[2] == 's' && s[3] == 't') by {
            assert(s.contains(s[i]));
            if s[i] == ':' {
                let front = s.take(5);
                assert(front == host);
                assert(front[0] == s[0] && front[1] == s[1] && front[2] == s[2] && front[3] == s[3]
                    && front[4] == s[4]);
                assert(s[4] == ':');
            }
        }
    }
    if s.len() > 0 && (forall|i: int|
        0 <= i < s.len() ==> #[trigger] s[i] != '/' && s[i] != '\0' && (s[i] == ':' ==> i == 4 && s[0]
            == 'h' && s[1] == 'o' && s[2] == 's' && s[3] == 't')) {
        if s.contains(':') {
            let i = choose|i: int| 0 <= i < s.len() && s[i] == ':';
            assert(i == 4);
            assert(s.take(5) =~= host);
        }
        assert forall|i: int, j: int| 0 <= i < j < s.len() implies !(#[trigger] s[i] == ':'
            && #[trigger] s[j] == ':') by {}
    }
}

impl PackageName {
    #[verifier::type_invariant]
    spec fn wf(self) -> bool {
        valid_package_name(self.name@)
    }

    /// Accepts a text as the name of a package.
    pub fn new(name: &str) -> (r: Result<PackageName, PackageError>)
        ensures
            r is Ok <==> valid_package_name(name@),
            r matches Ok(p) ==> p@ == name@,
            r matches Err(e) ==> (e matches PackageError::PackageNameInvalid(s) && s@ == name@),
    {
        let cs = chars_of(name);
        let mut i: usize = 0;
        let mut dots: usize = 0;
        let mut colons: usize = 0;
        let mut bad = cs.len() == 0;
        assert(cs@.take(0) =~= Seq::<char>::empty());
        while i < cs.len()
            invariant
                i <= cs.len(),
                dots <= i,
                colons <= i,
                dots == occurrences(cs@.take(i as int), '.'),
                colons == occurrences(cs@.take(i as int), ':'),
                bad <==> (cs@.len() == 0 || cs@.take(i as int).contains('/') || cs@.take(
                    i as int,
                ).contains('\0')),
            decreases cs.len() - i,
        {
            let c = cs[i];
            let ghost shorter = cs@.take(i as int);
            let ghost longer = cs@.take(i + 1);
            proof {
                assert(longer.drop_last() =~= shorter);
                assert(longer.last() == c);
                lemma_occurrences(shorter, '/');
                lemma_occurrences(longer, '/');
                lemma_occurrences(shorter, '\0');
                lemma_occurrences(longer, '\0');
            }
            if c == '/' || c == '\0' {
                bad = true;
            }
            if c == '.' {
                dots = dots + 1;
            }
            if c == ':' {
                colons = colons + 1;
            }
            i = i + 1;
        }
        assert(cs@.take(i as int) =~= name@);
        proof {
            lemma_occurrences(name@, ':');
        }
        if bad || dots > 1 || colons > 1 || (colons == 1 && strip_prefix(name, "host:").is_none()) {
            Err(PackageError::PackageNameInvalid(name.to_owned()))
        } else {
            Ok(PackageName { name: name.to_owned() })
        }
    }

    /// The name as text.
    pub fn as_str(&self) -> (r: &str)
        ensures
            r@ == self@,
            valid_package_name(r@),
    {
        proof {
            use_type_invariant(self);
        }
        self.name.as_str()
    }
}

impl Clone for PackageName {
    fn clone(&self) -> (r: Self)
        ensures
            r == *self,
    {
        proof {
            use_type_invariant(self);
        }
        PackageName { name: self.name.clone() }
    }
}

/// What the client reads of a package description.
#[derive(Clone, Debug)]
pub struct Package {
    pub name: PackageName,
    /// Empty for a package that only names others.
    pub version: String,
    /// The size of the archive to download, in bytes.
    pub network_size: u64,
}

/// A package together with the repository that described it.
#[derive(Clone, Debug)]
pub struct RemotePackage {
    pub package: Package,
    pub remote: RemoteName,
}

/// The index of a repository.
#[derive(Debug)]
pub struct Repository {
    pub build_id: String,
    /// The hash of every package, by name.
    pub packages: NameMap<String>,
    /// Grows with every published index. Zero where the index has none.
    pub serial: u64,
    /// When the index ends to be valid, in seconds since the epoch. Zero for never.
    pub expires: u64,
}

} // verus!
