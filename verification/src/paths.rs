//! The slash-path router: every managed resource path is a slash-separated
//! string whose first segment (the "prefix") selects an effector and whose
//! remainder (the "subpath") is opaque to the router.

use vstd::prelude::*;
use vstd::string::StrSliceExecFns;

use crate::strutil::find_char;
use crate::strutil::rfind_char;

verus! {

/// Whether a path has at least one slash, so that it can be split into a
/// `(prefix, subpath)` pair.
pub open spec fn has_slash(s: Seq<char>) -> bool {
    s.contains('/')
}

/// What it means for `(prefix, subpath)` to be the split of `path` at its
/// first slash: rejoining with `/` reproduces the path, and the prefix holds
/// no slash of its own.
pub open spec fn is_first_slash_split(path: Seq<char>, prefix: Seq<char>, subpath: Seq<char>) -> bool {
    &&& path == prefix + seq!['/'] + subpath
    &&& !prefix.contains('/')
}

/// Split a slash-path at its first slash into `(prefix, subpath)`.
///
/// The returned pair rejoined with `/` reproduces the argument, so the split
/// loses nothing and is uniquely determined.
pub fn split_effector_path(path: &str) -> (r: (&str, &str))
    requires
        has_slash(path@),
    ensures
        is_first_slash_split(path@, r.0@, r.1@),
{
    let len = path.unicode_len();
    let found = find_char(path, '/');
    match found {
        Some(idx) => {
            let prefix = path.substring_char(0, idx);
            let subpath = path.substring_char(idx + 1, len);
            proof {
                assert(path@ =~= prefix@ + seq!['/'] + subpath@);
                assert(forall|j: int| 0 <= j < prefix@.len() ==> prefix@[j] != '/');
                assert(!prefix@.contains('/'));
            }
            (prefix, subpath)
        },
        None => {
            proof {
                let i = choose|i: int| 0 <= i < path@.len() && path@[i] == '/';
                assert(path@[i] == '/');
                assert(false);
            }
            ("", "")
        },
    }
}

/// The split at the first slash is a round trip: for any prefix without a
/// slash, splitting `prefix + "/" + subpath` gives back exactly that prefix
/// and subpath.
pub proof fn lemma_split_roundtrip(path: Seq<char>, prefix: Seq<char>, subpath: Seq<char>)
    requires
        is_first_slash_split(path, prefix, subpath),
    ensures
        has_slash(path),
        forall|p2: Seq<char>, s2: Seq<char>|
            is_first_slash_split(path, p2, s2) ==> p2 == prefix && s2 == subpath,
{
    assert(path[prefix.len() as int] == '/');
    assert(path.contains('/'));
    assert forall|p2: Seq<char>, s2: Seq<char>|
        is_first_slash_split(path, p2, s2) implies p2 == prefix && s2 == subpath by {
        if p2.len() < prefix.len() {
            assert(prefix[p2.len() as int] == path[p2.len() as int]);
            assert(path[p2.len() as int] == '/');
            assert(prefix.contains(prefix[p2.len() as int]));
            assert(false);
        }
        if p2.len() > prefix.len() {
            assert(p2[prefix.len() as int] == path[prefix.len() as int]);
            assert(p2.contains(p2[prefix.len() as int]));
            assert(false);
        }
        assert(p2 =~= prefix) by {
            assert(forall|j: int| 0 <= j < p2.len() ==> p2[j] == path[j] && prefix[j] == path[j]);
        }
        assert(s2 =~= subpath) by {
            assert(forall|j: int|
                0 <= j < s2.len()
                    ==> s2[j] == path[j + p2.len() + 1] && subpath[j] == path[j + prefix.len() + 1]);
        }
    }
}

/// The shape problems a desired-state key can have, in the order they are
/// looked for.
#[derive(Clone, Copy, PartialEq, Eq, Structural, Debug)]
pub enum PathProblem {
    /// The key ends with `/`.
    TrailingSlash,
    /// The key contains `//`.
    DoubleSlash,
    /// The key contains `/../`.
    DoubleDot,
}

/// The key ends with a slash.
pub open spec fn ends_with_slash(p: Seq<char>) -> bool {
    p.len() > 0 && p.last() == '/'
}

/// The key holds two adjacent slashes somewhere.
pub open spec fn has_double_slash(p: Seq<char>) -> bool {
    exists|i: int| 0 <= i && i + 1 < p.len() && #[trigger] p[i] == '/' && p[i + 1] == '/'
}

/// The key holds a `/../` segment somewhere.
pub open spec fn has_dot_dot(p: Seq<char>) -> bool {
    exists|i: int|
        0 <= i && i + 3 < p.len() && #[trigger] p[i] == '/' && p[i + 1] == '.' && p[i + 2] == '.'
            && p[i + 3] == '/'
}

/// The first problem a key has, if any: a trailing slash is reported before
/// a double slash, and that before a `/../` segment.
pub open spec fn path_problem(p: Seq<char>) -> Option<PathProblem> {
    if ends_with_slash(p) {
        Some(PathProblem::TrailingSlash)
    } else if has_double_slash(p) {
        Some(PathProblem::DoubleSlash)
    } else if has_dot_dot(p) {
        Some(PathProblem::DoubleDot)
    } else {
        None
    }
}

/// The parent directory of a well-shaped slash-path: everything before the
/// last slash, or nothing when the path has no slash (a bare file name
/// needs no parent directory created for it).
///
/// The domain is restricted to paths without a leading slash, a trailing
/// slash, or an empty segment: on those, "everything before the last
/// slash" is exactly what the platform path library's parent-directory
/// rule gives once an empty parent is filtered away; outside them the two
/// notions diverge, so such paths are left out.
pub fn parent_dir(path: &str) -> (r: Option<&str>)
    requires
        path@.len() == 0 || path@[0] != '/',
        !ends_with_slash(path@),
        !has_double_slash(path@),
    ensures
        match r {
            Some(p) => {
                &&& p@.len() < path@.len()
                &&& path@[p@.len() as int] == '/'
                &&& p@ == path@.subrange(0, p@.len() as int)
                &&& forall|j: int| p@.len() < j < path@.len() ==> path@[j] != '/'
            },
            None => !has_slash(path@),
        },
{
    let found = rfind_char(path, '/');
    match found {
        Some(idx) => {
            let p = path.substring_char(0, idx);
            Some(p)
        },
        None => None,
    }
}

} // verus!
