//! An insertion-ordered key-value mapping backed by a vector.
//!
//! It stands in for a hash or tree mapping: lookups and replacements go by
//! key equivalence, iteration follows insertion order, and as long as values
//! only enter through [`Container::replace`] the keys stay pairwise
//! distinct.

use vstd::prelude::*;

use crate::container::Container;
use crate::equiv::Equiv;

verus! {

/// Whether the sequence of entries holds one whose key is equivalent to `k`.
pub open spec fn entries_have_key<K: Equiv, V>(s: Seq<(K, V)>, k: K) -> bool {
    exists|i: int| 0 <= i < s.len() && s[i].0.equiv_spec(&k)
}

/// Position of the first entry whose key is equivalent to `k`, or the length
/// of the sequence when there is none.
pub open spec fn first_key_idx<K: Equiv, V>(s: Seq<(K, V)>, k: K) -> int
    decreases s.len(),
{
    if s.len() == 0 {
        0
    } else if s[0].0.equiv_spec(&k) {
        0
    } else {
        1 + first_key_idx(s.drop_first(), k)
    }
}

/// What [`first_key_idx`] finds: the first matching position when one
/// exists, and the sequence's length otherwise.
pub proof fn lemma_first_key_idx<K: Equiv, V>(s: Seq<(K, V)>, k: K)
    ensures
        entries_have_key(s, k) ==> {
            let i = first_key_idx(s, k);
            &&& 0 <= i < s.len()
            &&& s[i].0.equiv_spec(&k)
            &&& forall|j: int| 0 <= j < i ==> !s[j].0.equiv_spec(&k)
        },
        !entries_have_key(s, k) ==> first_key_idx(s, k) == s.len(),
    decreases s.len(),
{
    if s.len() == 0 {
    } else if s[0].0.equiv_spec(&k) {
    } else {
        let rest = s.drop_first();
        lemma_first_key_idx(rest, k);
        assert(forall|i: int| 1 <= i < s.len() ==> s[i] == rest[i - 1]);
        if entries_have_key(s, k) {
            let w = choose|i: int| 0 <= i < s.len() && s[i].0.equiv_spec(&k);
            assert(rest[w - 1].0.equiv_spec(&k));
            assert(entries_have_key(rest, k));
        }
        if entries_have_key(rest, k) {
            let w = choose|i: int| 0 <= i < rest.len() && rest[i].0.equiv_spec(&k);
            assert(s[w + 1].0.equiv_spec(&k));
            assert(entries_have_key(s, k));
        }
    }
}

/// Whether no two entries of the sequence have equivalent keys.
pub open spec fn keys_distinct<K: Equiv, V>(s: Seq<(K, V)>) -> bool {
    forall|i: int, j: int|
        0 <= i < j < s.len() ==> !(#[trigger] s[i]).0.equiv_spec(&(#[trigger] s[j]).0)
}

/// An insertion-ordered mapping from keys to values.
#[derive(Debug)]
pub struct OrdMap<K, V> {
    entries: Vec<(K, V)>,
}

impl<K, V> OrdMap<K, V> {
    /// The entries of this mapping in insertion order, as seen by
    /// specifications.
    pub closed spec fn entries_spec(&self) -> Seq<(K, V)> {
        self.entries@
    }

    /// Creates an empty mapping.
    pub fn new() -> (r: OrdMap<K, V>)
        ensures
            r.entries_spec() == Seq::<(K, V)>::empty(),
    {
        OrdMap { entries: Vec::new() }
    }

    /// Number of entries in this mapping.
    pub fn len(&self) -> (r: usize)
        ensures
            r == self.entries_spec().len(),
    {
        self.entries.len()
    }

    /// Consumes this mapping, returning its entries in insertion order.
    pub fn into_entries(self) -> (r: Vec<(K, V)>)
        ensures
            r@ == self.entries_spec(),
    {
        self.entries
    }

    /// The entries of this mapping in insertion order.
    pub fn entries(&self) -> (r: &Vec<(K, V)>)
        ensures
            r@ == self.entries_spec(),
    {
        &self.entries
    }
}

impl<K: Equiv, V> OrdMap<K, V> {
    /// Returns the value of the first entry whose key is equivalent to `k`,
    /// if any.
    pub fn get(&self, k: &K) -> (r: Option<&V>)
        ensures
            entries_have_key(self.entries_spec(), *k) ==> r == Some(
                &self.entries_spec()[first_key_idx(self.entries_spec(), *k)].1,
            ),
            !entries_have_key(self.entries_spec(), *k) ==> r is None,
    {
        let n = self.entries.len();
        let mut i: usize = 0;
        while i < n
            invariant
                n == self.entries@.len(),
                i <= n,
                forall|j: int| 0 <= j < i ==> !self.entries@[j].0.equiv_spec(k),
            decreases n - i,
        {
            if self.entries[i].0.equiv(k) {
                proof {
                    assert(entries_have_key(self.entries@, *k));
                    lemma_first_key_idx(self.entries@, *k);
                }
                return Some(&self.entries[i].1);
            }
            i += 1;
        }
        None
    }
}

impl<K: Equiv, V> Container<(K, V)> for OrdMap<K, V> {
    type Model = Seq<(K, V)>;

    open spec fn model(&self) -> Seq<(K, V)> {
        self.entries_spec()
    }

    open spec fn is_empty_spec(&self) -> bool {
        self.entries_spec().len() == 0
    }

    open spec fn has_spec(&self, v: &(K, V)) -> bool {
        entries_have_key(self.entries_spec(), v.0)
    }

    open spec fn replaced_model(&self, v: (K, V)) -> Seq<(K, V)> {
        if entries_have_key(self.entries_spec(), v.0) {
            self.entries_spec().update(first_key_idx(self.entries_spec(), v.0), v)
        } else {
            self.entries_spec().push(v)
        }
    }

    open spec fn replaced_prev(&self, v: &(K, V)) -> Option<(K, V)> {
        if entries_have_key(self.entries_spec(), v.0) {
            Some(self.entries_spec()[first_key_idx(self.entries_spec(), v.0)])
        } else {
            None
        }
    }

    fn is_empty(&self) -> bool {
        self.entries.len() == 0
    }

    fn has(&self, v: &(K, V)) -> (r: bool) {
        let n = self.entries.len();
        let mut i: usize = 0;
        while i < n
            invariant
                n == self.entries@.len(),
                i <= n,
                forall|j: int| 0 <= j < i ==> !self.entries@[j].0.equiv_spec(&v.0),
            decreases n - i,
        {
            if self.entries[i].0.equiv(&v.0) {
                assert(entries_have_key(self.entries@, v.0));
                return true;
            }
            i += 1;
        }
        false
    }

    fn replace(&mut self, v: (K, V)) -> (prev: Option<(K, V)>) {
        let n = self.entries.len();
        let mut i: usize = 0;
        while i < n
            invariant
                n == self.entries@.len(),
                i <= n,
                *self == *old(self),
                forall|j: int| 0 <= j < i ==> !self.entries@[j].0.equiv_spec(&v.0),
            decreases n - i,
        {
            if self.entries[i].0.equiv(&v.0) {
                proof {
                    assert(entries_have_key(self.entries@, v.0));
                    lemma_first_key_idx(self.entries@, v.0);
                    assert(first_key_idx(self.entries@, v.0) == i);
                }
                let prev = self.entries.remove(i);
                self.entries.insert(i, v);
                proof {
                    assert(self.entries@ =~= old(self).entries@.update(i as int, v));
                }
                return Some(prev);
            }
            i += 1;
        }
        assert(!entries_have_key(self.entries@, v.0));
        self.entries.push(v);
        None
    }

    fn set(&mut self, v: (K, V)) {
        let _prev = self.replace(v);
    }
}

} // verus!
