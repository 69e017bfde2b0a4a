//! When the power series ends.
//!
//! The series for F_m(t) is summed term by term. Near the threshold its
//! terms grow before they shrink, so a small term alone does not end it.

use vstd::prelude::*;
use crate::binary64::Binary64;

verus! {

/// Whether the series goes on after `term` was added: the term is still
/// above `bound`, the sum so far times a tenth of the tolerance, or it is
/// still above the term before it. The series ends when neither holds.
pub open spec fn continues_spec(term: Binary64, bound: Binary64, old_term: Binary64) -> bool {
    bound.lt_spec(term) || old_term.lt_spec(term)
}

/// Whether the series goes on after `term` was added. Among numbers it ends
/// exactly when the term is at most `bound` and at most the term before it.
pub fn continues(term: Binary64, bound: Binary64, old_term: Binary64) -> (r: bool)
    ensures
        r == continues_spec(term, bound, old_term),
        !term.is_nan() && !bound.is_nan() && !old_term.is_nan() ==> (!r <==> term.le_spec(bound)
            && term.le_spec(old_term)),
{
    bound.lt(term) || old_term.lt(term)
}

} // verus!
