//! The optional-feature handler: one managed path per installed feature of
//! the host system. The feature inventory is queried from the system's
//! management interface by the caller, which hands the feature names in as
//! plain values; the handler itself only answers membership questions.

use vstd::prelude::*;
use vstd::string::StringExecFns;

use crate::engine::contains_str;
use crate::engine::insert_sorted_str;
use crate::script::strict_sorted;
use crate::strutil::str_eq;
use crate::manaprotocol::callee;
use crate::manaprotocol::callee::AffectAction;

verus! {

/// One row of the system's feature inventory: the feature's name.
pub struct Win32OptFeat {
    pub name: String,
}

/// The handler over one feature inventory.
pub struct Handler {
    /// The installed features' names, sorted and without duplicates.
    feats: Vec<String>,
}

impl Handler {
    /// The feature names this handler knows.
    pub closed spec fn feats_view(&self) -> Seq<Seq<char>> {
        self.feats.deep_view()
    }

    /// Build the handler from a queried feature inventory. The inventory
    /// rows arrive as plain values because only the system's management
    /// interface can produce them.
    pub fn new(feats: Vec<Win32OptFeat>) -> (r: Handler)
        ensures
            forall|x: Seq<char>|
                contains_str(r.feats_view(), x) <==> exists|i: int|
                    0 <= i < feats@.len() && (#[trigger] feats@[i]).name@ == x,
    {
        let n = feats.len();
        let mut sorted: Vec<String> = Vec::new();
        let mut i: usize = 0;
        proof {
            assert(strict_sorted(sorted.deep_view()));
        }
        while i < n
            invariant
                n == feats@.len(),
                i <= n,
                strict_sorted(sorted.deep_view()),
                forall|x: Seq<char>|
                    contains_str(sorted.deep_view(), x) <==> exists|j: int|
                        0 <= j < i && (#[trigger] feats@[j]).name@ == x,
            decreases n - i,
        {
            let ghost pre = sorted.deep_view();
            insert_sorted_str(&mut sorted, feats[i].name.clone());
            proof {
                assert forall|x: Seq<char>|
                    contains_str(sorted.deep_view(), x) <==> exists|j: int|
                        0 <= j < i + 1 && (#[trigger] feats@[j]).name@ == x by {
                    if contains_str(sorted.deep_view(), x) {
                        if x == feats@[i as int].name@ {
                            assert(exists|j: int|
                                0 <= j < i + 1 && (#[trigger] feats@[j]).name@ == x);
                        } else {
                            assert(contains_str(pre, x));
                        }
                    }
                    if exists|j: int| 0 <= j < i + 1 && (#[trigger] feats@[j]).name@ == x {
                        let j = choose|j: int|
                            0 <= j < i + 1 && (#[trigger] feats@[j]).name@ == x;
                        if j < i {
                            assert(contains_str(pre, x));
                        }
                    }
                }
            }
            i = i + 1;
        }
        Handler { feats: sorted }
    }

    /// Whether the inventory holds the feature named by `path`.
    pub fn detect_feat(&self, path: &str) -> (r: bool)
        ensures
            r == contains_str(self.feats_view(), path@),
    {
        let n = self.feats.len();
        let mut i: usize = 0;
        while i < n
            invariant
                n == self.feats@.len(),
                i <= n,
                forall|j: int| 0 <= j < i ==> #[trigger] self.feats.deep_view()[j] != path@,
            decreases n - i,
        {
            proof {
                assert(self.feats.deep_view()[i as int] == self.feats@[i as int]@);
            }
            if str_eq(self.feats[i].as_str(), path) {
                assert(contains_str(self.feats_view(), path@)) by {
                    assert(self.feats.deep_view()[i as int] == path@);
                }
                return true;
            }
            i = i + 1;
        }
        false
    }
}

impl callee::Handler for Handler {
    /// A feature exists exactly when the inventory holds its name.
    fn detect(&mut self, path: &str) -> (r: Result<bool, String>) {
        Ok(self.detect_feat(path))
    }

    /// A feature's shadow mirror carries no content of its own: the file's
    /// existence is the state.
    fn gather(&mut self, _path: &str) -> (r: Result<String, String>) {
        Ok(String::new())
    }

    /// Pushing feature state back onto the system is not implemented.
    fn affect(&mut self, _path: &str, _shadow_content: Option<&String>) -> (r: Result<
        AffectAction,
        String,
    >) {
        Err(String::from_str("affecting optional features is not implemented"))
    }
}

} // verus!
