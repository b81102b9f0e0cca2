//! Case folding, for detecting paths that differ only by letter case: a
//! case-insensitive filesystem can silently alias two such paths, so the
//! engine treats them as a fatal inconsistency. The folding itself is
//! Unicode case folding, done by the `unicase` crate behind a trusted
//! wrapper.

use vstd::prelude::*;

verus! {

pub uninterp spec fn fold_of(s: Seq<char>) -> Seq<char>;

/// A copy of the string with every character mapped to its Unicode
/// case-folded form; two strings that differ only by letter case have
/// equal folded forms.
///
/// Relies on `unicase::UniCase::to_folded_case`: the result depends on the
/// characters alone.
#[verifier::external_body]
pub fn folded_case(s: &str) -> (r: String)
    ensures
        r@ == fold_of(s@),
{
    unicase::UniCase::new(s).to_folded_case()
}

} // verus!
