//! The reconciliation engine's decisions: building Check's path union,
//! planning Draft's writes and deletions, and planning Apply's ordered
//! effector invocations. The engine decides; performing the decided actions
//! against the repository, the filesystem and the effector backends is the
//! caller's business, which hands the outcomes back as plain values.

use vstd::prelude::*;
use vstd::string::StrSliceExecFns;
use vstd::string::StringExecFns;

use crate::strutil::str_eq;
use crate::strutil::str_lex_lt;
use crate::strutil::lex_lt;
use crate::strutil::lemma_lex_total;
use crate::strutil::lemma_lex_irrefl;
use crate::strutil::lemma_lex_trans;
use crate::script::Script;
use crate::script::strict_sorted;
use crate::script::spec_ignores;
use crate::config::assoc_map;
use crate::config::path_keys;
use crate::casefold::fold_of;
use crate::casefold::folded_case;
use crate::paths::has_slash;
use crate::paths::is_first_slash_split;
use crate::paths::split_effector_path;

verus! {

/// What the repository reports of one pending path.
#[derive(Clone, Copy, PartialEq, Eq, Structural, Debug)]
pub enum StatusKind {
    /// The path is new in the working tree.
    Added,
    /// The path's content changed in the working tree.
    Modified,
    /// The path is gone from the working tree.
    Deleted,
    /// Any other status; Apply does not support it.
    Other,
}

/// How one applied path is recorded in the repository index.
#[derive(Clone, Copy, PartialEq, Eq, Structural, Debug)]
pub enum StageOp {
    /// Stage the path (it was added or modified).
    Add,
    /// Unstage the path (it was deleted).
    Remove,
}

/// What Check does with one path after its `detect` outcome.
#[derive(Clone, Copy, PartialEq, Eq, Structural, Debug)]
pub enum CheckAction {
    /// The resource exists: gather its content into the shadow tree.
    Gather,
    /// The resource is absent: remove the shadow-side file, where a file
    /// already missing is not an error.
    RemoveShadowFile,
}

/// Why a reconciliation run aborts before or while processing paths.
#[derive(Debug)]
pub enum EngineError {
    /// A desired-state path falls under an ignored prefix.
    IgnoredScriptPath(String),
    /// A repository path and a desired-state path differ only by letter
    /// case; carried in that order.
    CaseCollision(String, String),
    /// Apply saw a status it does not support for the carried path.
    UnsupportedStatus(String),
}

/// Whether `x` is among the character sequences of `s`.
pub open spec fn contains_str(s: Seq<Seq<char>>, x: Seq<char>) -> bool {
    exists|i: int| 0 <= i < s.len() && s[i] == x
}

/// The set of character sequences in `s`.
pub open spec fn seq_to_set(s: Seq<Seq<char>>) -> Set<Seq<char>> {
    Set::new(|x: Seq<char>| contains_str(s, x))
}

/// After `detect`, Check gathers a present resource and removes the shadow
/// file of an absent one.
pub fn check_decide(found: bool) -> (r: CheckAction)
    ensures
        (r == CheckAction::Gather) == found,
{
    if found {
        CheckAction::Gather
    } else {
        CheckAction::RemoveShadowFile
    }
}

/// Insert a path into a sorted path set, keeping it sorted; inserting a
/// path already present changes nothing.
#[verifier::loop_isolation(false)]
pub fn insert_sorted_str(out: &mut Vec<String>, s: String)
    requires
        strict_sorted(old(out).deep_view()),
    ensures
        strict_sorted(final(out).deep_view()),
        forall|x: Seq<char>|
            contains_str(final(out).deep_view(), x) <==> (contains_str(old(out).deep_view(), x)
                || x == s@),
{
    let n = out.len();
    let mut pos: usize = 0;
    proof {
        assert(forall|m: int| 0 <= m < out@.len() ==> #[trigger] out.deep_view()[m] == out@[m]@);
    }
    while pos < n && str_lex_lt(out[pos].as_str(), s.as_str())
        invariant
            pos <= n,
            forall|j: int| 0 <= j < pos ==> lex_lt(#[trigger] out.deep_view()[j], s@),
        decreases n - pos,
    {
        pos = pos + 1;
    }
    if pos < n && str_eq(out[pos].as_str(), s.as_str()) {
        proof {
            assert forall|x: Seq<char>|
                contains_str(out.deep_view(), x) <==> (contains_str(out.deep_view(), x) || x
                    == s@) by {
                if x == s@ {
                    assert(out.deep_view()[pos as int] == s@);
                }
            }
        }
        return ;
    }
    proof {
        if pos < n {
            lemma_lex_total(out@[pos as int]@, s@);
            assert(lex_lt(s@, out.deep_view()[pos as int]));
        }
    }
    let ghost pre = out.deep_view();
    out.insert(pos, s);
    proof {
        assert(out.deep_view() =~= pre.insert(pos as int, s@)) by {
            assert(forall|m: int| 0 <= m < out@.len() ==> #[trigger] out.deep_view()[m] == out@[m]@);
        }
        let dv = out.deep_view();
        assert forall|a: int, b: int| 0 <= a < b < dv.len() implies lex_lt(
            #[trigger] dv[a],
            #[trigger] dv[b],
        ) by {
            if a < pos && b < pos {
                assert(lex_lt(pre[a], pre[b]));
            } else if a < pos && b == pos {
                assert(lex_lt(pre[a], s@));
            } else if a < pos && b > pos {
                assert(lex_lt(pre[a], pre[b - 1]));
            } else if a == pos && b > pos {
                if b - 1 == pos {
                    assert(lex_lt(s@, pre[pos as int]));
                } else {
                    assert(lex_lt(pre[pos as int], pre[b - 1]));
                    lemma_lex_trans(s@, pre[pos as int], pre[b - 1]);
                }
            } else {
                assert(a > pos && b > pos);
                assert(lex_lt(pre[a - 1], pre[b - 1]));
            }
        }
        assert forall|x: Seq<char>|
            contains_str(dv, x) <==> (contains_str(pre, x) || x == s@) by {
            if contains_str(dv, x) {
                let i = choose|i: int| 0 <= i < dv.len() && dv[i] == x;
                if i == pos {
                } else if i < pos {
                    assert(pre[i] == x);
                } else {
                    assert(pre[i - 1] == x);
                }
            }
            if x == s@ {
                assert(dv[pos as int] == x);
            }
            if contains_str(pre, x) {
                let i = choose|i: int| 0 <= i < pre.len() && pre[i] == x;
                if i < pos {
                    assert(dv[i] == x);
                } else {
                    assert(dv[i + 1] == x);
                }
            }
        }
    }
}

/// Whether the desired-state mapping binds `p`.
pub fn script_has_key(script: &Script, p: &str) -> (r: bool)
    ensures
        r == contains_str(script.paths_keys(), p@),
{
    let n = script.paths.len();
    let mut i: usize = 0;
    while i < n
        invariant
            n == script.paths@.len(),
            i <= n,
            forall|j: int| 0 <= j < i ==> #[trigger] script.paths_keys()[j] != p@,
        decreases n - i,
    {
        proof {
            assert(script.paths_keys()[i as int] == script.paths@[i as int].0@);
        }
        if str_eq(script.paths[i].0.as_str(), p) {
            assert(contains_str(script.paths_keys(), p@)) by {
                assert(script.paths_keys()[i as int] == p@);
            }
            return true;
        }
        i = i + 1;
    }
    false
}

/// Build Check's path union: every non-ignored repository path and every
/// desired-state path, sorted and without duplicates. A desired-state path
/// under an ignored prefix is a configuration error, and any two of the
/// paths in play — two repository paths, two desired-state paths, or one
/// of each — that differ only by letter case are a fatal inconsistency (a
/// case-insensitive filesystem can silently alias them).
#[verifier::loop_isolation(false)]
pub fn check_union_paths(git_paths: &Vec<String>, script: &Script) -> (r: Result<
    Vec<String>,
    EngineError,
>)
    requires
        script.wf(),
    ensures
        match r {
            Ok(paths) => {
                &&& strict_sorted(paths.deep_view())
                &&& forall|x: Seq<char>|
                    contains_str(paths.deep_view(), x) <==> ((contains_str(
                        git_paths.deep_view(),
                        x,
                    ) && !spec_ignores(script.ignores_view(), x)) || contains_str(
                        script.paths_keys(),
                        x,
                    ))
                &&& forall|i: int|
                    0 <= i < script.paths_keys().len() ==> !spec_ignores(
                        script.ignores_view(),
                        #[trigger] script.paths_keys()[i],
                    )
                &&& forall|g: Seq<char>, p: Seq<char>|
                    contains_str(git_paths.deep_view(), g) && !spec_ignores(
                        script.ignores_view(),
                        g,
                    ) && contains_str(script.paths_keys(), p) && fold_of(g) == fold_of(p) ==> g
                        == p
                &&& forall|g1: Seq<char>, g2: Seq<char>|
                    #![trigger fold_of(g1), fold_of(g2)]
                    contains_str(git_paths.deep_view(), g1) && !spec_ignores(
                        script.ignores_view(),
                        g1,
                    ) && contains_str(git_paths.deep_view(), g2) && !spec_ignores(
                        script.ignores_view(),
                        g2,
                    ) && fold_of(g1) == fold_of(g2) ==> g1 == g2
                &&& forall|p1: Seq<char>, p2: Seq<char>|
                    #![trigger fold_of(p1), fold_of(p2)]
                    contains_str(script.paths_keys(), p1) && contains_str(
                        script.paths_keys(),
                        p2,
                    ) && fold_of(p1) == fold_of(p2) ==> p1 == p2
            },
            Err(EngineError::IgnoredScriptPath(p)) => contains_str(script.paths_keys(), p@)
                && spec_ignores(script.ignores_view(), p@),
            Err(EngineError::CaseCollision(a, b)) => {
                &&& fold_of(a@) == fold_of(b@)
                &&& a@ != b@
                &&& ({
                    ||| (contains_str(git_paths.deep_view(), a@) && !spec_ignores(
                        script.ignores_view(),
                        a@,
                    ) && contains_str(git_paths.deep_view(), b@) && !spec_ignores(
                        script.ignores_view(),
                        b@,
                    ))
                    ||| (contains_str(git_paths.deep_view(), a@) && !spec_ignores(
                        script.ignores_view(),
                        a@,
                    ) && contains_str(script.paths_keys(), b@))
                    ||| (contains_str(script.paths_keys(), a@) && contains_str(
                        script.paths_keys(),
                        b@,
                    ))
                })
            },
            Err(EngineError::UnsupportedStatus(_)) => false,
        },
{
    let gn = git_paths.len();
    let mut out: Vec<String> = Vec::new();
    proof {
        assert(forall|m: int|
            0 <= m < git_paths@.len() ==> #[trigger] git_paths.deep_view()[m] == git_paths@[m]@);
        assert(strict_sorted(out.deep_view()));
    }
    let mut i: usize = 0;
    while i < gn
        invariant
            i <= gn,
            strict_sorted(out.deep_view()),
            forall|x: Seq<char>|
                contains_str(out.deep_view(), x) <==> (contains_str(
                    git_paths.deep_view().take(i as int),
                    x,
                ) && !spec_ignores(script.ignores_view(), x)),
        decreases gn - i,
    {
        let g = &git_paths[i];
        let ghost pre = out.deep_view();
        if !script.ignores_path(g.as_str()) {
            insert_sorted_str(&mut out, g.clone());
        }
        proof {
            let tk = git_paths.deep_view().take(i as int);
            let tk1 = git_paths.deep_view().take(i as int + 1);
            assert(tk1.drop_last() =~= tk);
            assert(tk1.last() == g@);
            assert forall|x: Seq<char>|
                contains_str(out.deep_view(), x) <==> (contains_str(tk1, x) && !spec_ignores(
                    script.ignores_view(),
                    x,
                )) by {
                if contains_str(tk1, x) {
                    let k = choose|k: int| 0 <= k < tk1.len() && tk1[k] == x;
                    if k < i {
                        assert(tk[k] == x);
                    }
                }
                if contains_str(tk, x) {
                    let k = choose|k: int| 0 <= k < tk.len() && tk[k] == x;
                    assert(tk1[k] == x);
                }
            }
        }
        i = i + 1;
    }
    proof {
        assert(git_paths.deep_view().take(gn as int) =~= git_paths.deep_view());
    }
    // No two distinct non-ignored repository paths may differ only by
    // letter case.
    let mut gi_idx: usize = 0;
    while gi_idx < gn
        invariant
            gi_idx <= gn,
            forall|g1: Seq<char>, g2: Seq<char>|
                #![trigger fold_of(g1), fold_of(g2)]
                contains_str(git_paths.deep_view().take(gi_idx as int), g1) && !spec_ignores(
                    script.ignores_view(),
                    g1,
                ) && contains_str(git_paths.deep_view().take(gi_idx as int), g2) && !spec_ignores(
                    script.ignores_view(),
                    g2,
                ) && fold_of(g1) == fold_of(g2) ==> g1 == g2,
        decreases gn - gi_idx,
    {
        let gi = &git_paths[gi_idx];
        if !script.ignores_path(gi.as_str()) {
            let fold_i = folded_case(gi.as_str());
            let mut gj_idx: usize = 0;
            while gj_idx < gi_idx
                invariant
                    gj_idx <= gi_idx,
                    forall|g: Seq<char>|
                        contains_str(git_paths.deep_view().take(gj_idx as int), g)
                            && !spec_ignores(script.ignores_view(), g) && fold_of(g) == fold_of(
                            gi@,
                        ) ==> g == gi@,
                decreases gi_idx - gj_idx,
            {
                let gj = &git_paths[gj_idx];
                if !script.ignores_path(gj.as_str()) {
                    let fold_j = folded_case(gj.as_str());
                    if str_eq(fold_j.as_str(), fold_i.as_str()) && !str_eq(
                        gj.as_str(),
                        gi.as_str(),
                    ) {
                        proof {
                            assert(contains_str(git_paths.deep_view(), gj@)) by {
                                assert(git_paths.deep_view()[gj_idx as int] == gj@);
                            }
                            assert(contains_str(git_paths.deep_view(), gi@)) by {
                                assert(git_paths.deep_view()[gi_idx as int] == gi@);
                            }
                        }
                        return Err(EngineError::CaseCollision(gj.clone(), gi.clone()));
                    }
                }
                proof {
                    let tk = git_paths.deep_view().take(gj_idx as int);
                    let tk1 = git_paths.deep_view().take(gj_idx as int + 1);
                    assert(tk1.drop_last() =~= tk);
                    assert(tk1.last() == gj@);
                    assert forall|g: Seq<char>|
                        contains_str(tk1, g) && !spec_ignores(script.ignores_view(), g) && fold_of(
                            g,
                        ) == fold_of(gi@) implies g == gi@ by {
                        let m = choose|m: int| 0 <= m < tk1.len() && tk1[m] == g;
                        if m < gj_idx {
                            assert(tk[m] == g);
                        }
                    }
                }
                gj_idx = gj_idx + 1;
            }
        }
        proof {
            let tk = git_paths.deep_view().take(gi_idx as int);
            let tk1 = git_paths.deep_view().take(gi_idx as int + 1);
            assert(tk1.drop_last() =~= tk);
            assert(tk1.last() == gi@);
            assert(git_paths.deep_view().take(gi_idx as int)
                =~= git_paths.deep_view().take(gi_idx as int));
            assert forall|g1: Seq<char>, g2: Seq<char>|
                #![trigger fold_of(g1), fold_of(g2)]
                contains_str(tk1, g1) && !spec_ignores(script.ignores_view(), g1) && contains_str(
                    tk1,
                    g2,
                ) && !spec_ignores(script.ignores_view(), g2) && fold_of(g1) == fold_of(g2)
                implies g1 == g2 by {
                let m1 = choose|m: int| 0 <= m < tk1.len() && tk1[m] == g1;
                let m2 = choose|m: int| 0 <= m < tk1.len() && tk1[m] == g2;
                if m1 < gi_idx {
                    assert(tk[m1] == g1);
                }
                if m2 < gi_idx {
                    assert(tk[m2] == g2);
                }
            }
        }
        gi_idx = gi_idx + 1;
    }
    proof {
        assert(git_paths.deep_view().take(gn as int) =~= git_paths.deep_view());
    }
    let pn = script.paths.len();
    let mut k: usize = 0;
    while k < pn
        invariant
            k <= pn,
            strict_sorted(out.deep_view()),
            forall|x: Seq<char>|
                contains_str(out.deep_view(), x) <==> ((contains_str(git_paths.deep_view(), x)
                    && !spec_ignores(script.ignores_view(), x)) || contains_str(
                    script.paths_keys().take(k as int),
                    x,
                )),
            forall|j: int|
                0 <= j < k ==> !spec_ignores(
                    script.ignores_view(),
                    #[trigger] script.paths_keys()[j],
                ),
            forall|g: Seq<char>, j: int|
                #![trigger fold_of(g), script.paths_keys()[j]]
                contains_str(git_paths.deep_view(), g) && !spec_ignores(script.ignores_view(), g)
                    && 0 <= j < k && fold_of(g) == fold_of(script.paths_keys()[j]) ==> g
                    == script.paths_keys()[j],
            forall|p1: Seq<char>, p2: Seq<char>|
                #![trigger fold_of(p1), fold_of(p2)]
                contains_str(script.paths_keys().take(k as int), p1) && contains_str(
                    script.paths_keys().take(k as int),
                    p2,
                ) && fold_of(p1) == fold_of(p2) ==> p1 == p2,
        decreases pn - k,
    {
        let key = &script.paths[k].0;
        proof {
            assert(script.paths_keys()[k as int] == script.paths@[k as int].0@);
        }
        if script.ignores_path(key.as_str()) {
            return Err(EngineError::IgnoredScriptPath(key.clone()));
        }
        let fold_p = folded_case(key.as_str());
        let mut j: usize = 0;
        while j < gn
            invariant
                j <= gn,
                forall|g: Seq<char>|
                    contains_str(git_paths.deep_view().take(j as int), g) && !spec_ignores(
                        script.ignores_view(),
                        g,
                    ) && fold_of(g) == fold_of(key@) ==> g == key@,
            decreases gn - j,
        {
            let g = &git_paths[j];
            if !script.ignores_path(g.as_str()) {
                let fold_g = folded_case(g.as_str());
                if str_eq(fold_g.as_str(), fold_p.as_str()) && !str_eq(g.as_str(), key.as_str()) {
                    proof {
                        assert(contains_str(git_paths.deep_view(), g@)) by {
                            assert(git_paths.deep_view()[j as int] == g@);
                        }
                        assert(contains_str(script.paths_keys(), key@)) by {
                            assert(script.paths_keys()[k as int] == key@);
                        }
                    }
                    return Err(EngineError::CaseCollision(g.clone(), key.clone()));
                }
            }
            proof {
                let tk = git_paths.deep_view().take(j as int);
                let tk1 = git_paths.deep_view().take(j as int + 1);
                assert(tk1.drop_last() =~= tk);
                assert(tk1.last() == g@);
                assert forall|x: Seq<char>|
                    contains_str(tk1, x) && !spec_ignores(script.ignores_view(), x) && fold_of(x)
                        == fold_of(key@) implies x == key@ by {
                    let m = choose|m: int| 0 <= m < tk1.len() && tk1[m] == x;
                    if m < j {
                        assert(tk[m] == x);
                    }
                }
            }
            j = j + 1;
        }
        proof {
            assert(git_paths.deep_view().take(gn as int) =~= git_paths.deep_view());
        }
        // Nor may two desired-state paths differ only by letter case.
        let mut j3: usize = 0;
        while j3 < k
            invariant
                j3 <= k,
                forall|p: Seq<char>|
                    contains_str(script.paths_keys().take(j3 as int), p) && fold_of(p) == fold_of(
                        key@,
                    ) ==> p == key@,
            decreases k - j3,
        {
            let kj = &script.paths[j3].0;
            proof {
                assert(script.paths_keys()[j3 as int] == script.paths@[j3 as int].0@);
            }
            let fold_kj = folded_case(kj.as_str());
            if str_eq(fold_kj.as_str(), fold_p.as_str()) {
                proof {
                    assert(lex_lt(script.paths_keys()[j3 as int], script.paths_keys()[k as int]));
                    if kj@ == key@ {
                        lemma_lex_irrefl(key@);
                    }
                    assert(contains_str(script.paths_keys(), kj@)) by {
                        assert(script.paths_keys()[j3 as int] == kj@);
                    }
                    assert(contains_str(script.paths_keys(), key@)) by {
                        assert(script.paths_keys()[k as int] == key@);
                    }
                }
                return Err(EngineError::CaseCollision(kj.clone(), key.clone()));
            }
            proof {
                let tk = script.paths_keys().take(j3 as int);
                let tk1 = script.paths_keys().take(j3 as int + 1);
                assert(tk1.drop_last() =~= tk);
                assert(tk1.last() == kj@);
                assert forall|p: Seq<char>|
                    contains_str(tk1, p) && fold_of(p) == fold_of(key@) implies p == key@ by {
                    let m = choose|m: int| 0 <= m < tk1.len() && tk1[m] == p;
                    if m < j3 {
                        assert(tk[m] == p);
                        assert(contains_str(tk, p));
                    } else {
                        assert(p == kj@);
                        assert(fold_of(kj@) != fold_of(key@));
                    }
                }
            }
            j3 = j3 + 1;
        }
        let ghost pre = out.deep_view();
        insert_sorted_str(&mut out, key.clone());
        proof {
            let tk = script.paths_keys().take(k as int);
            let tk1 = script.paths_keys().take(k as int + 1);
            assert(tk1.drop_last() =~= tk);
            assert(tk1.last() == key@);
            assert forall|x: Seq<char>|
                contains_str(out.deep_view(), x) <==> ((contains_str(git_paths.deep_view(), x)
                    && !spec_ignores(script.ignores_view(), x)) || contains_str(tk1, x)) by {
                if contains_str(tk1, x) {
                    let m = choose|m: int| 0 <= m < tk1.len() && tk1[m] == x;
                    if m < k {
                        assert(tk[m] == x);
                    }
                }
                if contains_str(tk, x) {
                    let m = choose|m: int| 0 <= m < tk.len() && tk[m] == x;
                    assert(tk1[m] == x);
                }
            }
            assert forall|p1: Seq<char>, p2: Seq<char>|
                #![trigger fold_of(p1), fold_of(p2)]
                contains_str(tk1, p1) && contains_str(tk1, p2) && fold_of(p1) == fold_of(p2)
                implies p1 == p2 by {
                let m1 = choose|m: int| 0 <= m < tk1.len() && tk1[m] == p1;
                let m2 = choose|m: int| 0 <= m < tk1.len() && tk1[m] == p2;
                if m1 < k {
                    assert(tk[m1] == p1);
                }
                if m2 < k {
                    assert(tk[m2] == p2);
                }
            }
        }
        k = k + 1;
    }
    proof {
        assert(script.paths_keys().take(pn as int) =~= script.paths_keys());
    }
    Ok(out)
}

/// Draft's plan: write every desired path's content into the shadow tree,
/// then delete every tracked path that the desired state does not mention.
#[derive(Debug)]
pub struct DraftPlan {
    /// Every desired path with its content, in the script's own order.
    pub writes: Vec<(String, String)>,
    /// The tracked, non-ignored paths to delete, sorted, each absent from
    /// the desired state.
    pub deletes: Vec<String>,
}

/// Plan a Draft run over the given tracked paths: the writes are exactly
/// the desired mapping, the deletions are exactly the non-ignored tracked
/// paths that the desired state does not bind, and a desired path under an
/// ignored prefix aborts the run.
#[verifier::loop_isolation(false)]
pub fn draft_plan(git_paths: &Vec<String>, script: &Script) -> (r: Result<DraftPlan, EngineError>)
    requires
        script.wf(),
    ensures
        match r {
            Ok(plan) => {
                &&& plan.writes@ == script.paths@
                &&& strict_sorted(plan.deletes.deep_view())
                &&& forall|x: Seq<char>|
                    contains_str(plan.deletes.deep_view(), x) <==> (contains_str(
                        git_paths.deep_view(),
                        x,
                    ) && !spec_ignores(script.ignores_view(), x) && !contains_str(
                        script.paths_keys(),
                        x,
                    ))
                &&& forall|i: int|
                    0 <= i < script.paths_keys().len() ==> !spec_ignores(
                        script.ignores_view(),
                        #[trigger] script.paths_keys()[i],
                    )
            },
            Err(EngineError::IgnoredScriptPath(p)) => contains_str(script.paths_keys(), p@)
                && spec_ignores(script.ignores_view(), p@),
            Err(_) => false,
        },
{
    let pn = script.paths.len();
    let mut writes: Vec<(String, String)> = Vec::new();
    let mut k: usize = 0;
    while k < pn
        invariant
            k <= pn,
            writes@ == script.paths@.take(k as int),
            forall|j: int|
                0 <= j < k ==> !spec_ignores(
                    script.ignores_view(),
                    #[trigger] script.paths_keys()[j],
                ),
        decreases pn - k,
    {
        let key = &script.paths[k].0;
        proof {
            assert(script.paths_keys()[k as int] == script.paths@[k as int].0@);
        }
        if script.ignores_path(key.as_str()) {
            return Err(EngineError::IgnoredScriptPath(key.clone()));
        }
        let val = script.paths[k].1.clone();
        writes.push((key.clone(), val));
        proof {
            assert(writes@ =~= script.paths@.take(k as int + 1));
        }
        k = k + 1;
    }
    proof {
        assert(script.paths@.take(pn as int) =~= script.paths@);
    }
    let gn = git_paths.len();
    let mut deletes: Vec<String> = Vec::new();
    proof {
        assert(forall|m: int|
            0 <= m < git_paths@.len() ==> #[trigger] git_paths.deep_view()[m] == git_paths@[m]@);
        assert(strict_sorted(deletes.deep_view()));
    }
    let mut i: usize = 0;
    while i < gn
        invariant
            i <= gn,
            strict_sorted(deletes.deep_view()),
            forall|x: Seq<char>|
                contains_str(deletes.deep_view(), x) <==> (contains_str(
                    git_paths.deep_view().take(i as int),
                    x,
                ) && !spec_ignores(script.ignores_view(), x) && !contains_str(
                    script.paths_keys(),
                    x,
                )),
        decreases gn - i,
    {
        let g = &git_paths[i];
        if !script.ignores_path(g.as_str()) && !script_has_key(script, g.as_str()) {
            insert_sorted_str(&mut deletes, g.clone());
        }
        proof {
            let tk = git_paths.deep_view().take(i as int);
            let tk1 = git_paths.deep_view().take(i as int + 1);
            assert(tk1.drop_last() =~= tk);
            assert(tk1.last() == g@);
            assert forall|x: Seq<char>|
                contains_str(deletes.deep_view(), x) <==> (contains_str(tk1, x) && !spec_ignores(
                    script.ignores_view(),
                    x,
                ) && !contains_str(script.paths_keys(), x)) by {
                if contains_str(tk1, x) {
                    let m = choose|m: int| 0 <= m < tk1.len() && tk1[m] == x;
                    if m < i {
                        assert(tk[m] == x);
                    }
                }
                if contains_str(tk, x) {
                    let m = choose|m: int| 0 <= m < tk.len() && tk[m] == x;
                    assert(tk1[m] == x);
                }
            }
        }
        i = i + 1;
    }
    proof {
        assert(git_paths.deep_view().take(gn as int) =~= git_paths.deep_view());
    }
    Ok(DraftPlan { writes, deletes })
}

/// The paths Draft deletes: tracked, not ignored, not bound by the desired
/// state.
pub open spec fn draft_deletes_set(git: Seq<Seq<char>>, script: &Script) -> Set<Seq<char>> {
    Set::new(
        |x: Seq<char>|
            contains_str(git, x) && !spec_ignores(script.ignores_view(), x) && !contains_str(
                script.paths_keys(),
                x,
            ),
    )
}

/// The shadow tree after one Draft run over tracked paths `git`: the
/// planned deletions removed, the desired mapping written over the rest.
pub open spec fn draft_result(
    tree: Map<Seq<char>, Seq<char>>,
    git: Seq<Seq<char>>,
    script: &Script,
) -> Map<Seq<char>, Seq<char>> {
    tree.remove_keys(draft_deletes_set(git, script)).union_prefer_right(assoc_map(script.paths@))
}

/// The mapping of a sorted path/content sequence binds exactly its keys.
pub proof fn lemma_assoc_dom(s: Seq<(String, String)>)
    ensures
        assoc_map(s).dom() =~= seq_to_set(path_keys(s)),
    decreases s.len(),
{
    if s.len() == 0 {
        assert forall|x: Seq<char>| !contains_str(path_keys(s), x) by {}
    } else {
        lemma_assoc_dom(s.drop_last());
        assert(assoc_map(s).dom() =~= assoc_map(s.drop_last()).dom().insert(s.last().0@));
        assert forall|x: Seq<char>|
            contains_str(path_keys(s), x) <==> (contains_str(path_keys(s.drop_last()), x) || x
                == s.last().0@) by {
            let pk = path_keys(s);
            let pk0 = path_keys(s.drop_last());
            assert(pk0 =~= pk.drop_last());
            if contains_str(pk, x) {
                let m = choose|m: int| 0 <= m < pk.len() && pk[m] == x;
                if m < pk.len() - 1 {
                    assert(pk0[m] == x);
                } else {
                    assert(pk[m] == s[s.len() - 1].0@);
                }
            }
            if contains_str(pk0, x) {
                let m = choose|m: int| 0 <= m < pk0.len() && pk0[m] == x;
                assert(pk[m] == x);
            }
            if x == s.last().0@ {
                assert(pk[s.len() - 1] == x);
            }
        }
    }
}

/// Law: Draft is idempotent. With no ignored path in play, one Draft run
/// makes the shadow tree exactly the desired mapping — so a second run with
/// the same script reproduces the identical tree, and its deletion set is
/// empty.
pub proof fn lemma_draft_idempotent(
    tree: Map<Seq<char>, Seq<char>>,
    git: Seq<Seq<char>>,
    script: &Script,
)
    requires
        tree.dom() == seq_to_set(git),
        forall|x: Seq<char>|
            #[trigger] contains_str(git, x) ==> !spec_ignores(script.ignores_view(), x),
        forall|i: int|
            0 <= i < script.paths_keys().len() ==> !spec_ignores(
                script.ignores_view(),
                #[trigger] script.paths_keys()[i],
            ),
    ensures
        draft_result(tree, git, script) == assoc_map(script.paths@),
        draft_result(assoc_map(script.paths@), script.paths_keys(), script) == assoc_map(
            script.paths@,
        ),
        draft_deletes_set(script.paths_keys(), script) == Set::<Seq<char>>::empty(),
{
    lemma_assoc_dom(script.paths@);
    assert(path_keys(script.paths@) =~= script.paths_keys());
    let m = assoc_map(script.paths@);
    assert(draft_result(tree, git, script) =~= m) by {
        assert forall|x: Seq<char>| #[trigger]
            draft_result(tree, git, script).dom().contains(x) implies m.dom().contains(x) && (
        draft_result(tree, git, script)[x] == m[x]) by {
            if !m.dom().contains(x) {
                assert(!contains_str(script.paths_keys(), x));
                assert(tree.dom().contains(x));
                assert(contains_str(git, x));
                assert(draft_deletes_set(git, script).contains(x));
                assert(false);
            }
        }
        assert forall|x: Seq<char>| #[trigger] m.dom().contains(x) implies draft_result(
            tree,
            git,
            script,
        ).dom().contains(x) by {}
    }
    assert(draft_deletes_set(script.paths_keys(), script) =~= Set::<Seq<char>>::empty());
    assert(draft_result(m, script.paths_keys(), script) =~= m) by {
        assert(m.remove_keys(draft_deletes_set(script.paths_keys(), script)) =~= m);
        assert(m.union_prefer_right(m) =~= m);
    }
}

/// One planned Apply step: the pending path, its routing, and the status
/// the repository reported for it. How the index is updated — or whether
/// the run aborts on an unsupported status — is decided per step by
/// [`stage_decision`], when the step is reached.
#[derive(Debug)]
pub struct ApplyStep {
    /// The pending slash-path, as the repository reported it.
    pub path: String,
    /// The path's first segment: the effector that owns it.
    pub prefix: String,
    /// The rest of the path, opaque to the router.
    pub subpath: String,
    /// The status the repository reported for the path.
    pub status: StatusKind,
}

/// The view of one Apply step.
pub struct StepV {
    pub path: Seq<char>,
    pub prefix: Seq<char>,
    pub subpath: Seq<char>,
    pub status: StatusKind,
}

impl View for ApplyStep {
    type V = StepV;

    open spec fn view(&self) -> StepV {
        StepV {
            path: self.path@,
            prefix: self.prefix@,
            subpath: self.subpath@,
            status: self.status,
        }
    }
}

/// The views of a step sequence.
pub open spec fn step_views(s: Seq<ApplyStep>) -> Seq<StepV> {
    s.map_values(|st: ApplyStep| st@)
}

/// How a status is recorded in the index, if Apply supports it at all.
pub open spec fn stage_of(k: StatusKind) -> Option<StageOp> {
    match k {
        StatusKind::Added => Some(StageOp::Add),
        StatusKind::Modified => Some(StageOp::Add),
        StatusKind::Deleted => Some(StageOp::Remove),
        StatusKind::Other => None,
    }
}

/// Whether `v` is the step planned for one pending entry: same path, the
/// routing split of that path, and the status the repository reported.
pub open spec fn step_for(path: Seq<char>, kind: StatusKind, v: StepV) -> bool {
    &&& v.path == path
    &&& is_first_slash_split(path, v.prefix, v.subpath)
    &&& v.status == kind
}

/// Insert a step into a step sequence sorted by path.
#[verifier::loop_isolation(false)]
fn insert_step(steps: &mut Vec<ApplyStep>, st: ApplyStep)
    requires
        forall|a: int, b: int|
            0 <= a < b < old(steps)@.len() ==> lex_lt(
                (#[trigger] old(steps)@[a])@.path,
                (#[trigger] old(steps)@[b])@.path,
            ),
        forall|a: int| 0 <= a < old(steps)@.len() ==> (#[trigger] old(steps)@[a])@.path != st@.path,
    ensures
        forall|a: int, b: int|
            0 <= a < b < final(steps)@.len() ==> lex_lt(
                (#[trigger] final(steps)@[a])@.path,
                (#[trigger] final(steps)@[b])@.path,
            ),
        forall|v: StepV|
            step_views(final(steps)@).contains(v) <==> (step_views(old(steps)@).contains(v) || v
                == st@),
        final(steps)@.len() == old(steps)@.len() + 1,
{
    let n = steps.len();
    let mut pos: usize = 0;
    while pos < n && str_lex_lt(steps[pos].path.as_str(), st.path.as_str())
        invariant
            pos <= n,
            forall|j: int| 0 <= j < pos ==> lex_lt((#[trigger] steps@[j])@.path, st@.path),
        decreases n - pos,
    {
        pos = pos + 1;
    }
    proof {
        if pos < n {
            lemma_lex_total(steps@[pos as int]@.path, st@.path);
            assert(lex_lt(st@.path, steps@[pos as int]@.path));
        }
    }
    let ghost pre = steps@;
    steps.insert(pos, st);
    proof {
        assert(steps@ =~= pre.insert(pos as int, st));
        assert forall|a: int, b: int| 0 <= a < b < steps@.len() implies lex_lt(
            (#[trigger] steps@[a])@.path,
            (#[trigger] steps@[b])@.path,
        ) by {
            if a < pos && b < pos {
                assert(lex_lt(pre[a]@.path, pre[b]@.path));
            } else if a < pos && b == pos {
                assert(lex_lt(pre[a]@.path, st@.path));
            } else if a < pos && b > pos {
                assert(lex_lt(pre[a]@.path, pre[b - 1]@.path));
            } else if a == pos && b > pos {
                if b - 1 == pos {
                    assert(lex_lt(st@.path, pre[pos as int]@.path));
                } else {
                    assert(lex_lt(pre[pos as int]@.path, pre[b - 1]@.path));
                    lemma_lex_trans(st@.path, pre[pos as int]@.path, pre[b - 1]@.path);
                }
            } else {
                assert(a > pos && b > pos);
                assert(lex_lt(pre[a - 1]@.path, pre[b - 1]@.path));
            }
        }
        assert forall|v: StepV|
            step_views(steps@).contains(v) <==> (step_views(pre).contains(v) || v == st@) by {
            if step_views(steps@).contains(v) {
                let m = choose|m: int| 0 <= m < steps@.len() && step_views(steps@)[m] == v;
                assert(step_views(steps@)[m] == steps@[m]@);
                if m == pos {
                } else if m < pos {
                    assert(step_views(pre)[m] == pre[m]@);
                    assert(step_views(pre).contains(v));
                } else {
                    assert(step_views(pre)[m - 1] == pre[m - 1]@);
                    assert(step_views(pre).contains(v));
                }
            }
            if v == st@ {
                assert(step_views(steps@)[pos as int] == steps@[pos as int]@);
                assert(step_views(steps@).contains(v));
            }
            if step_views(pre).contains(v) {
                let m = choose|m: int| 0 <= m < pre.len() && step_views(pre)[m] == v;
                assert(step_views(pre)[m] == pre[m]@);
                if m < pos {
                    assert(step_views(steps@)[m] == steps@[m]@);
                    assert(step_views(steps@).contains(v));
                } else {
                    assert(step_views(steps@)[m + 1] == steps@[m + 1]@);
                    assert(step_views(steps@).contains(v));
                }
            }
        }
    }
}

/// Plan an Apply run over the repository's pending paths: ignored paths
/// are skipped; every other path is routed to its effector and carries its
/// reported status, in deterministic lexicographic path order. The caller
/// processes the steps in that order, deciding each one's index update
/// with [`stage_decision`] as it is reached — so an unsupported status
/// aborts the run midway, with the earlier paths already applied and
/// staged.
#[verifier::loop_isolation(false)]
pub fn apply_plan(pending: &Vec<(String, StatusKind)>, script: &Script) -> (steps: Vec<ApplyStep>)
    requires
        forall|i: int|
            0 <= i < pending@.len() && !spec_ignores(
                script.ignores_view(),
                (#[trigger] pending@[i]).0@,
            ) ==> has_slash(pending@[i].0@),
        forall|i: int, j: int|
            0 <= i < j < pending@.len() ==> (#[trigger] pending@[i]).0@ != (
            #[trigger] pending@[j]).0@,
    ensures
        forall|a: int, b: int|
            0 <= a < b < steps@.len() ==> lex_lt(
                (#[trigger] steps@[a])@.path,
                (#[trigger] steps@[b])@.path,
            ),
        forall|v: StepV|
            step_views(steps@).contains(v) <==> exists|i: int|
                0 <= i < pending@.len() && !spec_ignores(
                    script.ignores_view(),
                    (#[trigger] pending@[i]).0@,
                ) && step_for(pending@[i].0@, pending@[i].1, v),
{
    let n = pending.len();
    let mut steps: Vec<ApplyStep> = Vec::new();
    let mut i: usize = 0;
    while i < n
        invariant
            i <= n,
            forall|a: int, b: int|
                0 <= a < b < steps@.len() ==> lex_lt(
                    (#[trigger] steps@[a])@.path,
                    (#[trigger] steps@[b])@.path,
                ),
            forall|v: StepV|
                step_views(steps@).contains(v) <==> exists|i2: int|
                    0 <= i2 < i && !spec_ignores(
                        script.ignores_view(),
                        (#[trigger] pending@[i2]).0@,
                    ) && step_for(pending@[i2].0@, pending@[i2].1, v),
            forall|a: int|
                0 <= a < steps@.len() ==> exists|i2: int|
                    0 <= i2 < i && (#[trigger] steps@[a])@.path == pending@[i2].0@,
        decreases n - i,
    {
        let path = &pending[i].0;
        if !script.ignores_path(path.as_str()) {
            let (prefix, subpath) = split_effector_path(path.as_str());
            let st = ApplyStep {
                path: path.clone(),
                prefix: String::from_str(prefix),
                subpath: String::from_str(subpath),
                status: pending[i].1,
            };
            proof {
                assert(step_for(pending@[i as int].0@, pending@[i as int].1, st@));
                assert forall|a: int| 0 <= a < steps@.len() implies (#[trigger] steps@[a])@.path
                    != st@.path by {
                    let i2 = choose|i2: int|
                        0 <= i2 < i && (#[trigger] steps@[a])@.path == pending@[i2].0@;
                    assert(pending@[i2].0@ != pending@[i as int].0@);
                }
            }
            let ghost pre = steps@;
            insert_step(&mut steps, st);
            proof {
                assert forall|v: StepV|
                    step_views(steps@).contains(v) <==> exists|i2: int|
                        0 <= i2 < i + 1 && !spec_ignores(
                            script.ignores_view(),
                            (#[trigger] pending@[i2]).0@,
                        ) && step_for(pending@[i2].0@, pending@[i2].1, v) by {
                    if step_views(steps@).contains(v) {
                        if v == st@ {
                            assert(!spec_ignores(
                                script.ignores_view(),
                                pending@[i as int].0@,
                            ));
                            assert(step_for(pending@[i as int].0@, pending@[i as int].1, v));
                        } else {
                            assert(step_views(pre).contains(v));
                        }
                    }
                    if exists|i2: int|
                        0 <= i2 < i + 1 && !spec_ignores(
                            script.ignores_view(),
                            (#[trigger] pending@[i2]).0@,
                        ) && step_for(pending@[i2].0@, pending@[i2].1, v) {
                        let i2 = choose|i2: int|
                            0 <= i2 < i + 1 && !spec_ignores(
                                script.ignores_view(),
                                (#[trigger] pending@[i2]).0@,
                            ) && step_for(pending@[i2].0@, pending@[i2].1, v);
                        if i2 == i {
                            crate::paths::lemma_split_roundtrip(
                                pending@[i as int].0@,
                                st@.prefix,
                                st@.subpath,
                            );
                            assert(v == st@);
                        } else {
                            assert(step_views(pre).contains(v));
                        }
                    }
                }
                assert forall|a: int| 0 <= a < steps@.len() implies exists|i2: int|
                    0 <= i2 < i + 1 && (#[trigger] steps@[a])@.path == pending@[i2].0@ by {
                    let v = steps@[a]@;
                    assert(step_views(steps@)[a] == v);
                    assert(step_views(steps@).contains(v));
                    if v == st@ {
                        assert(v.path == pending@[i as int].0@);
                    } else {
                        assert(step_views(pre).contains(v));
                        let m = choose|m: int| 0 <= m < pre.len() && step_views(pre)[m] == v;
                        assert(pre[m]@ == v);
                        let i2 = choose|i2: int|
                            0 <= i2 < i && (#[trigger] pre[m])@.path == pending@[i2].0@;
                        assert(v.path == pending@[i2].0@);
                    }
                }
            }
        } else {
            proof {
                assert forall|v: StepV|
                    step_views(steps@).contains(v) <==> exists|i2: int|
                        0 <= i2 < i + 1 && !spec_ignores(
                            script.ignores_view(),
                            (#[trigger] pending@[i2]).0@,
                        ) && step_for(pending@[i2].0@, pending@[i2].1, v) by {
                    if exists|i2: int|
                        0 <= i2 < i + 1 && !spec_ignores(
                            script.ignores_view(),
                            (#[trigger] pending@[i2]).0@,
                        ) && step_for(pending@[i2].0@, pending@[i2].1, v) {
                        let i2 = choose|i2: int|
                            0 <= i2 < i + 1 && !spec_ignores(
                                script.ignores_view(),
                                (#[trigger] pending@[i2]).0@,
                            ) && step_for(pending@[i2].0@, pending@[i2].1, v);
                        assert(i2 < i);
                    }
                }
            }
        }
        i = i + 1;
    }
    steps
}

/// Decide how one reached Apply step updates the index: an added or
/// modified path is staged, a deleted one unstaged, and any other status
/// aborts the run at this step — the steps before it have already been
/// applied and staged.
pub fn stage_decision(step: &ApplyStep) -> (r: Result<StageOp, EngineError>)
    ensures
        match r {
            Ok(op) => stage_of(step.status) == Some(op),
            Err(EngineError::UnsupportedStatus(p)) => stage_of(step.status) is None && p@
                == step.path@,
            Err(_) => false,
        },
{
    match step.status {
        StatusKind::Added => Ok(StageOp::Add),
        StatusKind::Modified => Ok(StageOp::Add),
        StatusKind::Deleted => Ok(StageOp::Remove),
        StatusKind::Other => Err(EngineError::UnsupportedStatus(step.path.clone())),
    }
}

/// The shadow tree after Check processed one path: a present resource's
/// gathered content written at the path, an absent resource's shadow file
/// removed.
pub open spec fn check_tree_step(
    tree: Map<Seq<char>, Seq<char>>,
    path: Seq<char>,
    found: bool,
    gathered: Seq<char>,
) -> Map<Seq<char>, Seq<char>> {
    if found {
        tree.insert(path, gathered)
    } else {
        tree.remove(path)
    }
}

/// The shadow tree after Check's gather pass over a path list, with the
/// `detect` outcome and the gathered content given per path.
pub open spec fn check_tree_after(
    tree: Map<Seq<char>, Seq<char>>,
    paths: Seq<Seq<char>>,
    found: spec_fn(Seq<char>) -> bool,
    gathered: spec_fn(Seq<char>) -> Seq<char>,
) -> Map<Seq<char>, Seq<char>>
    decreases paths.len(),
{
    if paths.len() == 0 {
        tree
    } else {
        check_tree_after(
            check_tree_step(tree, paths[0], found(paths[0]), gathered(paths[0])),
            paths.drop_first(),
            found,
            gathered,
        )
    }
}

/// What the gather pass leaves at each path: a processed path holds the
/// gathered content when the resource was present and nothing when it was
/// absent; an unprocessed path is untouched.
pub proof fn lemma_check_tree_at(
    tree: Map<Seq<char>, Seq<char>>,
    paths: Seq<Seq<char>>,
    found: spec_fn(Seq<char>) -> bool,
    gathered: spec_fn(Seq<char>) -> Seq<char>,
)
    ensures
        forall|x: Seq<char>|
            contains_str(paths, x) ==> {
                let after = check_tree_after(tree, paths, found, gathered);
                &&& (found(x) ==> after.dom().contains(x) && after[x] == gathered(x))
                &&& (!found(x) ==> !after.dom().contains(x))
            },
        forall|x: Seq<char>|
            !contains_str(paths, x) ==> {
                let after = check_tree_after(tree, paths, found, gathered);
                &&& (after.dom().contains(x) <==> tree.dom().contains(x))
                &&& (tree.dom().contains(x) ==> after[x] == tree[x])
            },
    decreases paths.len(),
{
    if paths.len() > 0 {
        let t1 = check_tree_step(tree, paths[0], found(paths[0]), gathered(paths[0]));
        lemma_check_tree_at(t1, paths.drop_first(), found, gathered);
        assert forall|x: Seq<char>| contains_str(paths, x) implies {
            let after = check_tree_after(tree, paths, found, gathered);
            &&& (found(x) ==> after.dom().contains(x) && after[x] == gathered(x))
            &&& (!found(x) ==> !after.dom().contains(x))
        } by {
            if contains_str(paths.drop_first(), x) {
            } else {
                let m = choose|m: int| 0 <= m < paths.len() && paths[m] == x;
                if m > 0 {
                    assert(paths.drop_first()[m - 1] == x);
                    assert(contains_str(paths.drop_first(), x));
                }
                assert(x == paths[0]);
            }
        }
        assert forall|x: Seq<char>| !contains_str(paths, x) implies {
            let after = check_tree_after(tree, paths, found, gathered);
            &&& (after.dom().contains(x) <==> tree.dom().contains(x))
            &&& (tree.dom().contains(x) ==> after[x] == tree[x])
        } by {
            assert(paths[0] != x);
            assert(!contains_str(paths.drop_first(), x)) by {
                if contains_str(paths.drop_first(), x) {
                    let m = choose|m: int|
                        0 <= m < paths.drop_first().len() && paths.drop_first()[m] == x;
                    assert(paths[m + 1] == x);
                }
            }
        }
    }
}

/// Law: Check's gather pass is idempotent at the shadow-tree model. With
/// the same `detect` outcomes and the same gathered contents, running the
/// pass a second time over the same paths leaves the tree exactly as the
/// first run left it — the second run's diff is empty.
pub proof fn lemma_check_idempotent(
    tree: Map<Seq<char>, Seq<char>>,
    paths: Seq<Seq<char>>,
    found: spec_fn(Seq<char>) -> bool,
    gathered: spec_fn(Seq<char>) -> Seq<char>,
)
    ensures
        check_tree_after(check_tree_after(tree, paths, found, gathered), paths, found, gathered)
            == check_tree_after(tree, paths, found, gathered),
{
    let once = check_tree_after(tree, paths, found, gathered);
    let twice = check_tree_after(once, paths, found, gathered);
    lemma_check_tree_at(tree, paths, found, gathered);
    lemma_check_tree_at(once, paths, found, gathered);
    assert forall|x: Seq<char>| twice.dom().contains(x) <==> once.dom().contains(x) by {
        if contains_str(paths, x) {
        }
    }
    assert forall|x: Seq<char>| #[trigger] once.dom().contains(x) implies twice[x] == once[x] by {
        if contains_str(paths, x) {
        }
    }
    assert(twice =~= once);
}

} // verus!
