//! The uniform interface over the shapes a field's values may be kept in.

use vstd::prelude::*;

use crate::equiv::{first_equiv_idx, lemma_first_equiv_idx, seq_has_equiv, Equiv};
use crate::required::Required;

verus! {

/// Container holding a field's values.
///
/// The same interface is implemented over an optional cell ([`Option`]), a
/// mandatory cell ([`Required`]), an ordered sequence ([`Vec`]) and an
/// ordered key-value mapping ([`crate::ordmap::OrdMap`]), so the parsing
/// machinery deposits values the same way whatever the field's cardinality.
pub trait Container<V>: Sized {
    /// Mathematical model of this container's contents.
    type Model;

    /// This container's contents, as seen by specifications.
    spec fn model(&self) -> Self::Model;

    /// Whether this container holds no value, as seen by specifications.
    spec fn is_empty_spec(&self) -> bool;

    /// Whether this container holds a value equivalent to `v`, as seen by
    /// specifications. Cells count any held value; sequences compare
    /// elements; mappings compare keys.
    spec fn has_spec(&self, v: &V) -> bool;

    /// The model this container takes after `replace(v)`.
    spec fn replaced_model(&self, v: V) -> Self::Model;

    /// What `replace(v)` hands back: the previously stored equivalent, if
    /// any.
    spec fn replaced_prev(&self, v: &V) -> Option<V>;

    /// Indicates whether this container is empty (holds no values).
    fn is_empty(&self) -> (r: bool)
        ensures
            r == self.is_empty_spec(),
    ;

    /// Indicates whether a value equivalent to `v` is present in this
    /// container.
    fn has(&self, v: &V) -> (r: bool)
        ensures
            r == self.has_spec(v),
    ;

    /// Replaces the equivalent value contained in this container with the
    /// provided one, and returns the replaced one, if any. Sequences replace
    /// the first equal element or append; mappings replace by key.
    fn replace(&mut self, v: V) -> (prev: Option<V>)
        ensures
            final(self).model() == old(self).replaced_model(v),
            prev == old(self).replaced_prev(&v),
    ;

    /// Sets the provided value into this container, dropping the previous
    /// equivalent one, if any.
    fn set(&mut self, v: V)
        ensures
            final(self).model() == old(self).replaced_model(v),
    ;
}

impl<V> Container<V> for Option<V> {
    type Model = Option<V>;

    open spec fn model(&self) -> Option<V> {
        *self
    }

    open spec fn is_empty_spec(&self) -> bool {
        *self is None
    }

    open spec fn has_spec(&self, v: &V) -> bool {
        *self is Some
    }

    open spec fn replaced_model(&self, v: V) -> Option<V> {
        Some(v)
    }

    open spec fn replaced_prev(&self, v: &V) -> Option<V> {
        *self
    }

    fn is_empty(&self) -> bool {
        self.is_none()
    }

    fn has(&self, v: &V) -> bool {
        self.is_some()
    }

    fn replace(&mut self, v: V) -> (prev: Option<V>) {
        let prev = self.take();
        *self = Some(v);
        prev
    }

    fn set(&mut self, v: V) {
        *self = Some(v);
    }
}

impl<V> Container<V> for Required<V> {
    type Model = Option<V>;

    open spec fn model(&self) -> Option<V> {
        self.value_spec()
    }

    open spec fn is_empty_spec(&self) -> bool {
        !self.is_present_spec()
    }

    open spec fn has_spec(&self, v: &V) -> bool {
        self.is_present_spec()
    }

    open spec fn replaced_model(&self, v: V) -> Option<V> {
        Some(v)
    }

    open spec fn replaced_prev(&self, v: &V) -> Option<V> {
        self.value_spec()
    }

    fn is_empty(&self) -> bool {
        !self.is_present()
    }

    fn has(&self, v: &V) -> bool {
        self.is_present()
    }

    fn replace(&mut self, v: V) -> (prev: Option<V>) {
        self.replace_with(v)
    }

    fn set(&mut self, v: V) {
        let _prev = self.replace_with(v);
    }
}

impl<V: Equiv> Container<V> for Vec<V> {
    type Model = Seq<V>;

    open spec fn model(&self) -> Seq<V> {
        self@
    }

    open spec fn is_empty_spec(&self) -> bool {
        self@.len() == 0
    }

    open spec fn has_spec(&self, v: &V) -> bool {
        seq_has_equiv(self@, *v)
    }

    open spec fn replaced_model(&self, v: V) -> Seq<V> {
        if seq_has_equiv(self@, v) {
            self@.update(first_equiv_idx(self@, v), v)
        } else {
            self@.push(v)
        }
    }

    open spec fn replaced_prev(&self, v: &V) -> Option<V> {
        if seq_has_equiv(self@, *v) {
            Some(self@[first_equiv_idx(self@, *v)])
        } else {
            None
        }
    }

    fn is_empty(&self) -> bool {
        self.len() == 0
    }

    fn has(&self, v: &V) -> (r: bool) {
        let n = self.len();
        let mut i: usize = 0;
        while i < n
            invariant
                n == self@.len(),
                i <= n,
                forall|j: int| 0 <= j < i ==> !self@[j].equiv_spec(v),
            decreases n - i,
        {
            if self[i].equiv(v) {
                assert(seq_has_equiv(self@, *v));
                return true;
            }
            i += 1;
        }
        false
    }

    fn replace(&mut self, v: V) -> (prev: Option<V>) {
        let n = self.len();
        let mut i: usize = 0;
        while i < n
            invariant
                n == self@.len(),
                i <= n,
                *self == *old(self),
                forall|j: int| 0 <= j < i ==> !self@[j].equiv_spec(&v),
            decreases n - i,
        {
            if self[i].equiv(&v) {
                proof {
                    assert(seq_has_equiv(self@, v));
                    lemma_first_equiv_idx(self@, v);
                    assert(first_equiv_idx(self@, v) == i);
                }
                let prev = self.remove(i);
                self.insert(i, v);
                proof {
                    assert(self@ =~= old(self)@.update(i as int, v));
                }
                return Some(prev);
            }
            i += 1;
        }
        assert(!seq_has_equiv(self@, v));
        self.push(v);
        None
    }

    fn set(&mut self, v: V) {
        let _prev = self.replace(v);
    }
}

} // verus!
