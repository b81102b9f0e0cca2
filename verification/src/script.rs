//! The desired-state script: a shadow directory, an ignore list, an
//! effector binding per path prefix, and a mapping from slash-paths to
//! desired content. The script is built once per run from the evaluated
//! configuration and is immutable afterwards; this module holds its model,
//! its eager path validation, and its ignore semantics.

use vstd::prelude::*;
use vstd::string::StrSliceExecFns;

use crate::strutil::lex_lt;
use crate::strutil::str_eq;
use crate::strutil::first_token;
use crate::paths::PathProblem;
use crate::paths::path_problem;
use crate::paths::ends_with_slash;
use crate::paths::has_double_slash;
use crate::paths::has_dot_dot;
use crate::strutil::take_first_token;
use vstd::string::StringExecFns;

verus! {

/// The effector bindings of a script: one command per path prefix, ordered
/// by prefix. The sequence is strictly sorted, so it is a mapping.
pub type Effectors = Vec<(String, Vec<String>)>;

/// The desired-state tree of a script: desired content per slash-path,
/// ordered by path. The sequence is strictly sorted, so it is a mapping.
pub type PathContentMap = Vec<(String, String)>;

/// A parsed desired-state script.
#[derive(Debug)]
pub struct Script {
    /// Root of the version-controlled shadow working tree.
    pub shadow_dir: String,
    /// Path prefixes excluded from reconciliation.
    pub ignores: Vec<String>,
    /// Effector command per managed path prefix, strictly sorted by prefix.
    pub effectors: Effectors,
    /// Desired content per managed slash-path, strictly sorted by path.
    pub paths: PathContentMap,
}

/// Keys strictly sorted in lexicographic order; in particular, no key
/// appears twice.
pub open spec fn strict_sorted(keys: Seq<Seq<char>>) -> bool {
    forall|i: int, j: int| 0 <= i < j < keys.len() ==> lex_lt(#[trigger] keys[i], #[trigger] keys[j])
}

impl Script {
    /// The keys of the desired-state mapping, in stored order.
    pub open spec fn paths_keys(&self) -> Seq<Seq<char>> {
        self.paths@.map_values(|p: (String, String)| p.0@)
    }

    /// The keys of the effector bindings, in stored order.
    pub open spec fn effector_keys(&self) -> Seq<Seq<char>> {
        self.effectors@.map_values(|p: (String, Vec<String>)| p.0@)
    }

    /// The ignore list as character sequences.
    pub open spec fn ignores_view(&self) -> Seq<Seq<char>> {
        self.ignores@.map_values(|s: String| s@)
    }

    /// A well-formed script: both mappings are strictly sorted by key.
    pub open spec fn wf(&self) -> bool {
        strict_sorted(self.paths_keys()) && strict_sorted(self.effector_keys())
    }

    /// Validate every key of the desired-state mapping eagerly: report the
    /// first key that ends with `/`, contains `//`, or contains `/../`,
    /// and accept a script whose keys have none of these shapes. Only
    /// these three shapes are rejected here; a key without any slash, or
    /// one whose first segment is empty, passes validation and fails
    /// later at the router, which refuses to split such a path.
    pub fn validate(&self) -> (r: Result<(), ValidationError>)
        ensures
            match r {
                Ok(_) => forall|i: int|
                    0 <= i < self.paths_keys().len()
                        ==> path_problem(#[trigger] self.paths_keys()[i]) is None,
                Err(e) => exists|i: int|
                    {
                        &&& 0 <= i < self.paths_keys().len()
                        &&& path_problem(#[trigger] self.paths_keys()[i]) == Some(e.kind())
                        &&& e.path_view() == self.paths_keys()[i]
                        &&& forall|j: int| 0 <= j < i ==> path_problem(#[trigger] self.paths_keys()[j]) is None
                    },
            },
    {
        let n = self.paths.len();
        let mut i: usize = 0;
        while i < n
            invariant
                n == self.paths.len(),
                i <= n,
                forall|j: int| 0 <= j < i ==> path_problem(#[trigger] self.paths_keys()[j]) is None,
            decreases n - i,
        {
            let key: &String = &self.paths[i].0;
            assert(key@ == self.paths_keys()[i as int]);
            if path_ends_with_slash(key.as_str()) {
                return Err(ValidationError::TrailingSlashInPath(key.clone()));
            }
            if path_has_double_slash(key.as_str()) {
                return Err(ValidationError::DoubleSlashInPath(key.clone()));
            }
            if path_has_dot_dot(key.as_str()) {
                return Err(ValidationError::DoubleDotInPath(key.clone()));
            }
            i = i + 1;
        }
        Ok(())
    }

    /// Whether the ignore list covers `path`: exactly when the path's first
    /// slash-separated segment equals one of the configured ignore strings.
    pub fn ignores_path(&self, path: &str) -> (r: bool)
        ensures
            r == spec_ignores(self.ignores_view(), path@),
    {
        let (seg, _) = take_first_token(path, '/');
        let n = self.ignores.len();
        let mut i: usize = 0;
        while i < n
            invariant
                n == self.ignores.len(),
                seg@ == first_token(path@, '/'),
                i <= n,
                forall|j: int| 0 <= j < i ==> #[trigger] self.ignores_view()[j] != first_token(path@, '/'),
            decreases n - i,
        {
            let ign: &String = &self.ignores[i];
            assert(ign@ == self.ignores_view()[i as int]);
            if str_eq(ign.as_str(), seg) {
                assert(spec_ignores(self.ignores_view(), path@));
                return true;
            }
            i = i + 1;
        }
        false
    }
}

impl Default for Script {
    /// An empty script: no shadow directory, nothing ignored, no bindings,
    /// no desired paths.
    fn default() -> (r: Self)
        ensures
            r.shadow_dir@ == Seq::<char>::empty(),
            r.ignores@ == Seq::<String>::empty(),
            r.effectors@ == Seq::<(String, Vec<String>)>::empty(),
            r.paths@ == Seq::<(String, String)>::empty(),
            r.wf(),
    {
        let r = Script { shadow_dir: String::new(), ignores: Vec::new(), effectors: Vec::new(), paths: Vec::new() };
        proof {
            assert(r.paths_keys() =~= Seq::<Seq<char>>::empty());
            assert(r.effector_keys() =~= Seq::<Seq<char>>::empty());
        }
        r
    }
}

/// Whether the ignore list `ignores` covers `path`: its first
/// slash-separated segment equals one of the ignore strings.
pub open spec fn spec_ignores(ignores: Seq<Seq<char>>, path: Seq<char>) -> bool {
    exists|i: int| 0 <= i < ignores.len() && ignores[i] == first_token(path, '/')
}

/// Whether `p` ends with a slash.
fn path_ends_with_slash(p: &str) -> (r: bool)
    ensures
        r == ends_with_slash(p@),
{
    let len = p.unicode_len();
    if len == 0 {
        return false;
    }
    p.get_char(len - 1) == '/'
}

/// Whether `p` holds two adjacent slashes.
fn path_has_double_slash(p: &str) -> (r: bool)
    ensures
        r == has_double_slash(p@),
{
    let len = p.unicode_len();
    if len < 2 {
        return false;
    }
    let mut i: usize = 0;
    while i + 1 < len
        invariant
            len == p@.len(),
            i + 1 <= len,
            forall|j: int| 0 <= j && j < i ==> !(#[trigger] p@[j] == '/' && p@[j + 1] == '/'),
        decreases len - i,
    {
        if p.get_char(i) == '/' && p.get_char(i + 1) == '/' {
            return true;
        }
        i = i + 1;
    }
    false
}

/// Whether `p` holds a `/../` segment.
fn path_has_dot_dot(p: &str) -> (r: bool)
    ensures
        r == has_dot_dot(p@),
{
    let len = p.unicode_len();
    if len < 4 {
        return false;
    }
    let mut i: usize = 0;
    while i + 3 < len
        invariant
            len == p@.len(),
            i + 3 <= len,
            forall|j: int|
                0 <= j && j < i ==> !(#[trigger] p@[j] == '/' && p@[j + 1] == '.' && p@[j + 2] == '.'
                    && p@[j + 3] == '/'),
        decreases len - i,
    {
        if p.get_char(i) == '/' && p.get_char(i + 1) == '.' && p.get_char(i + 2) == '.'
            && p.get_char(i + 3) == '/' {
            return true;
        }
        i = i + 1;
    }
    false
}

/// The message a key-shape problem is reported with.
pub open spec fn problem_message(k: PathProblem) -> Seq<char> {
    match k {
        PathProblem::TrailingSlash => "path ends with a slash: "@,
        PathProblem::DoubleSlash => "path contains double slash: "@,
        PathProblem::DoubleDot => "path contains double dot: "@,
    }
}

/// Why a desired-state key was rejected, carrying the offending key.
#[derive(Debug)]
pub enum ValidationError {
    /// The key contains a double slash `//`.
    DoubleSlashInPath(String),
    /// The key ends with a slash `/`.
    TrailingSlashInPath(String),
    /// The key contains a double dot `/../`.
    DoubleDotInPath(String),
}

impl ValidationError {
    /// The offending key.
    pub open spec fn path_view(&self) -> Seq<char> {
        match self {
            ValidationError::DoubleSlashInPath(p) => p@,
            ValidationError::TrailingSlashInPath(p) => p@,
            ValidationError::DoubleDotInPath(p) => p@,
        }
    }

    /// The problem this error reports.
    pub open spec fn kind(&self) -> PathProblem {
        match self {
            ValidationError::DoubleSlashInPath(_) => PathProblem::DoubleSlash,
            ValidationError::TrailingSlashInPath(_) => PathProblem::TrailingSlash,
            ValidationError::DoubleDotInPath(_) => PathProblem::DoubleDot,
        }
    }

    /// A human-readable rendering of the error: the problem's message
    /// followed by the offending key.
    pub fn describe(&self) -> (r: String)
        ensures
            r@ == problem_message(self.kind()) + self.path_view(),
    {
        proof {
            reveal_strlit("path contains double slash: ");
            reveal_strlit("path ends with a slash: ");
            reveal_strlit("path contains double dot: ");
        }
        let mut s = match self {
            ValidationError::DoubleSlashInPath(_) => {
                String::from_str("path contains double slash: ")
            },
            ValidationError::TrailingSlashInPath(_) => {
                String::from_str("path ends with a slash: ")
            },
            ValidationError::DoubleDotInPath(_) => {
                String::from_str("path contains double dot: ")
            },
        };
        let p = match self {
            ValidationError::DoubleSlashInPath(p) => p,
            ValidationError::TrailingSlashInPath(p) => p,
            ValidationError::DoubleDotInPath(p) => p,
        };
        s.append(p.as_str());
        s
    }
}

impl PartialEq for ValidationError {
    /// Two validation errors are equal when they report the same problem
    /// for the same key.
    fn eq(&self, other: &Self) -> (r: bool) {
        match (self, other) {
            (ValidationError::DoubleSlashInPath(a), ValidationError::DoubleSlashInPath(b)) => {
                str_eq(a.as_str(), b.as_str())
            },
            (ValidationError::TrailingSlashInPath(a), ValidationError::TrailingSlashInPath(b)) => {
                str_eq(a.as_str(), b.as_str())
            },
            (ValidationError::DoubleDotInPath(a), ValidationError::DoubleDotInPath(b)) => {
                str_eq(a.as_str(), b.as_str())
            },
            _ => false,
        }
    }
}

impl vstd::std_specs::cmp::PartialEqSpecImpl for ValidationError {
    open spec fn obeys_eq_spec() -> bool {
        true
    }

    open spec fn eq_spec(&self, other: &Self) -> bool {
        self.kind() == other.kind() && self.path_view() == other.path_view()
    }
}

} // verus!
