//! Unix paths as text.
use crate::text::{ends_with, joined, starts_with};
use vstd::prelude::*;

verus! {

/// `part` below `base`: an absolute `part` stands for itself, any other follows `base` and, where
/// `base` is not empty and does not end in one, a slash.
pub open spec fn path_join(base: Seq<char>, part: Seq<char>) -> Seq<char> {
    if part.len() > 0 && part[0] == '/' {
        part
    } else if base.len() == 0 || base.last() == '/' {
        base + part
    } else {
        base + "/"@ + part
    }
}

/// An absolute part stands for itself. Any other one is what follows the base, with one slash
/// between them, and with none where the base is empty or ends in one already.
pub proof fn law_joined_path_is_below_the_base(base: Seq<char>, part: Seq<char>)
    ensures
        part.len() > 0 && part[0] == '/' ==> path_join(base, part) == part,
        part.len() == 0 || part[0] != '/' ==> {
            let r = path_join(base, part);
            &&& base.is_prefix_of(r)
            &&& r.skip(r.len() - part.len()) == part
            &&& base.len() > 0 && base.last() != '/' ==> r.len() == base.len() + 1 + part.len()
                && r[base.len() as int] == '/'
            &&& base.len() == 0 || base.last() == '/' ==> r.len() == base.len() + part.len()
        },
        base.len() > 0 && base.last() != '/' && (part.len() == 0 || part[0] != '/') ==> path_join(
            base.push('/'),
            part,
        ) == path_join(base, part),
{
    reveal_strlit("/");
    let r = path_join(base, part);
    if part.len() == 0 || part[0] != '/' {
        assert(r.skip(r.len() - part.len()) =~= part);
        assert(base.push('/') =~= base + "/"@);
    }
}

/// Joins two paths.
pub fn join(base: &str, part: &str) -> (r: String)
    ensures
        r@ == path_join(base@, part@),
{
    if starts_with(part, '/') {
        part.to_owned()
    } else if base.is_empty() || ends_with(base, '/') {
        let r = joined(base, part, "");
        proof {
            reveal_strlit("");
        }
        assert(r@ =~= base@ + part@);
        r
    } else {
        joined(base, "/", part)
    }
}

} // verus!
