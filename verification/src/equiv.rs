//! The notion of value equivalence used by containers.
//!
//! Containers deduplicate by equivalence rather than plain structural
//! equality, so that values differing only in their source locations still
//! count as the same argument.

use vstd::prelude::*;

verus! {

/// Values that can be checked for equivalence.
///
/// Equivalence is the container's notion of "the same value": for tokens and
/// names it compares the text and ignores the source locations.
pub trait Equiv: Sized {
    /// Whether `self` and `other` are equivalent, as seen by specifications.
    spec fn equiv_spec(&self, other: &Self) -> bool;

    /// Returns whether `self` and `other` are equivalent.
    fn equiv(&self, other: &Self) -> (r: bool)
        ensures
            r == self.equiv_spec(other),
    ;
}

/// Whether the sequence holds a value equivalent to `v`.
pub open spec fn seq_has_equiv<V: Equiv>(s: Seq<V>, v: V) -> bool {
    exists|i: int| 0 <= i < s.len() && s[i].equiv_spec(&v)
}

/// Position of the first value equivalent to `v` in the sequence, or the
/// sequence's length when there is none.
pub open spec fn first_equiv_idx<V: Equiv>(s: Seq<V>, v: V) -> int
    decreases s.len(),
{
    if s.len() == 0 {
        0
    } else if s[0].equiv_spec(&v) {
        0
    } else {
        1 + first_equiv_idx(s.drop_first(), v)
    }
}

/// What [`first_equiv_idx`] finds: the first equivalent position when one
/// exists, and the sequence's length otherwise.
pub proof fn lemma_first_equiv_idx<V: Equiv>(s: Seq<V>, v: V)
    ensures
        seq_has_equiv(s, v) ==> {
            let i = first_equiv_idx(s, v);
            &&& 0 <= i < s.len()
            &&& s[i].equiv_spec(&v)
            &&& forall|j: int| 0 <= j < i ==> !s[j].equiv_spec(&v)
        },
        !seq_has_equiv(s, v) ==> first_equiv_idx(s, v) == s.len(),
    decreases s.len(),
{
    if s.len() == 0 {
    } else if s[0].equiv_spec(&v) {
    } else {
        let rest = s.drop_first();
        lemma_first_equiv_idx(rest, v);
        assert(forall|i: int| 1 <= i < s.len() ==> s[i] == rest[i - 1]);
        if seq_has_equiv(s, v) {
            let w = choose|i: int| 0 <= i < s.len() && s[i].equiv_spec(&v);
            assert(rest[w - 1].equiv_spec(&v));
            assert(seq_has_equiv(rest, v));
        }
        if seq_has_equiv(rest, v) {
            let w = choose|i: int| 0 <= i < rest.len() && rest[i].equiv_spec(&v);
            assert(s[w + 1].equiv_spec(&v));
            assert(seq_has_equiv(s, v));
        }
    }
}

} // verus!
