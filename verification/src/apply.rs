//! The apply matrix: for each (container shape, parse kind, deduplication
//! strategy) triple, the rule deciding whether a freshly parsed value is
//! accepted, ignored, replaces the held one, or is rejected as a duplicate —
//! and its counterpart merging one container into another.

use vstd::prelude::*;

use crate::container::Container;
use crate::dedup::{Dedup, Strategy};
use crate::equiv::{first_equiv_idx, seq_has_equiv, Equiv};
use crate::err::{dup_attr_arg, dup_attr_arg_text, Error};
use crate::kind::{self, Kind, Single};
use crate::ordmap::{entries_have_key, first_key_idx, OrdMap};
use crate::required::Required;
use crate::spanned::{IntoSpan, Span};

verus! {

/// Whether applying a value under the given strategy succeeds, for a
/// container that currently answers `has` with `already_there`.
///
/// Only `Strategy::Unique` ever refuses, and it refuses exactly when an
/// equivalent value is already held.
pub open spec fn apply_accepts(strat: Strategy, already_there: bool) -> bool {
    !(strat == Strategy::Unique && already_there)
}

/// Whether applying a value under the given strategy changes the container,
/// given that it succeeds.
pub open spec fn apply_stores(strat: Strategy, already_there: bool) -> bool {
    !(strat == Strategy::First && already_there)
}

/// Applying a value to a [`Container`] according to a parsing [`Kind`] and a
/// [`Dedup`]lication strategy.
pub trait TryApply<V: IntoSpan, K: Kind + ?Sized, D: Dedup + ?Sized>: Container<V> {
    /// Applies the provided `value` to this container.
    ///
    /// Under `Strategy::Unique` a value equivalent to one already held is
    /// refused with a "duplicated attribute's argument" diagnostic pointing
    /// at the new value; under `Strategy::First` it is silently dropped;
    /// under `Strategy::Last` it replaces the held one.
    fn try_apply(&mut self, value: V) -> (r: Result<(), Error>)
        ensures
            apply_accepts(D::strategy_spec(), old(self).has_spec(&value)) ==> (r is Ok
                && if apply_stores(D::strategy_spec(), old(self).has_spec(&value)) {
                final(self).model() == old(self).replaced_model(value)
            } else {
                *final(self) == *old(self)
            }),
            !apply_accepts(D::strategy_spec(), old(self).has_spec(&value)) ==> (*final(self) == *old(self) && (r matches Err(e) && e.span == value.span_of_spec() && e.message@
                == dup_attr_arg_text())),
    ;
}

/// Applying all values extracted from another [`Container`] to this one, in
/// the other's natural order, according to a parsing [`Kind`] and a
/// [`Dedup`]lication strategy.
pub trait TryApplySelf<V: IntoSpan, K: Kind + ?Sized, D: Dedup + ?Sized>: TryApply<V, K, D> {
    /// The outcome of merging `another` into this container, as seen by
    /// specifications: the model the merge leaves behind, or the location of
    /// the first refused value.
    spec fn merged_model(&self, another: Self) -> Result<Self::Model, Span>;

    /// Applies every value held by `another` to this container; the first
    /// refusal aborts the merge and is returned as a "duplicated attribute's
    /// argument" diagnostic.
    fn try_apply_self(&mut self, another: Self) -> (r: Result<(), Error>)
        ensures
            old(self).merged_model(another) matches Ok(m) ==> (r is Ok && final(self).model()
                == m),
            old(self).merged_model(another) matches Err(sp) ==> (r matches Err(e) && e.span == sp
                && e.message@ == dup_attr_arg_text()),
    ;
}

/// Shared body of the single-value applications: the kind marker only
/// restricts which combinations exist, while the behaviour depends on the
/// strategy alone.
fn apply_value<V: IntoSpan, C: Container<V>, D: Dedup + ?Sized>(c: &mut C, value: V) -> (r: Result<
    (),
    Error,
>)
    ensures
        apply_accepts(D::strategy_spec(), old(c).has_spec(&value)) ==> (r is Ok && if apply_stores(
            D::strategy_spec(),
            old(c).has_spec(&value),
        ) {
            final(c).model() == old(c).replaced_model(value)
        } else {
            *final(c) == *old(c)
        }),
        !apply_accepts(D::strategy_spec(), old(c).has_spec(&value)) ==> (*final(c) == *old(c) && (r
            matches Err(e) && e.span == value.span_of_spec() && e.message@ == dup_attr_arg_text())),
{
    match D::strategy() {
        Strategy::Unique => {
            if c.has(&value) {
                Err(dup_attr_arg(value.into_span()))
            } else {
                c.set(value);
                Ok(())
            }
        },
        Strategy::First => {
            if !c.has(&value) {
                c.set(value);
            }
            Ok(())
        },
        Strategy::Last => {
            c.set(value);
            Ok(())
        },
    }
}

/// The outcome of merging one cell's contents into another, shared by the
/// optional and the mandatory cell: an empty source is a no-op, a filled one
/// applies its single value.
pub open spec fn cell_merged_model<V: IntoSpan>(
    held: Option<V>,
    another: Option<V>,
    strat: Strategy,
) -> Result<Option<V>, Span> {
    match another {
        Option::None => Ok(held),
        Option::Some(v) => if !apply_accepts(strat, held is Some) {
            Err(v.span_of_spec())
        } else if apply_stores(strat, held is Some) {
            Ok(Some(v))
        } else {
            Ok(held)
        },
    }
}

impl<V: IntoSpan, K: Single + ?Sized, D: Dedup + ?Sized> TryApply<V, K, D> for Option<V> {
    fn try_apply(&mut self, value: V) -> Result<(), Error> {
        apply_value::<_, _, D>(self, value)
    }
}

impl<V: IntoSpan, K: Single + ?Sized, D: Dedup + ?Sized> TryApplySelf<V, K, D> for Option<V> {
    open spec fn merged_model(&self, another: Self) -> Result<Option<V>, Span> {
        cell_merged_model(*self, another, D::strategy_spec())
    }

    fn try_apply_self(&mut self, another: Self) -> Result<(), Error> {
        if let Some(value) = another {
            <Self as TryApply<V, K, D>>::try_apply(self, value)
        } else {
            Ok(())
        }
    }
}

impl<V: IntoSpan, K: Single + ?Sized, D: Dedup + ?Sized> TryApply<V, K, D> for Required<V> {
    fn try_apply(&mut self, value: V) -> Result<(), Error> {
        apply_value::<_, _, D>(self, value)
    }
}

impl<V: IntoSpan, K: Single + ?Sized, D: Dedup + ?Sized> TryApplySelf<V, K, D> for Required<V> {
    open spec fn merged_model(&self, another: Self) -> Result<Option<V>, Span> {
        cell_merged_model(self.value_spec(), another.value_spec(), D::strategy_spec())
    }

    fn try_apply_self(&mut self, another: Self) -> Result<(), Error> {
        let mut another = another;
        if let Some(value) = another.take() {
            <Self as TryApply<V, K, D>>::try_apply(self, value)
        } else {
            Ok(())
        }
    }
}

/// One step of the sequence-level merge: what applying `value` to contents
/// `s` yields, an error being reported as the offending value's location.
pub open spec fn seq_apply_step<V: IntoSpan + Equiv>(s: Seq<V>, value: V, strat: Strategy) -> Result<
    Seq<V>,
    Span,
> {
    if !apply_accepts(strat, seq_has_equiv(s, value)) {
        Err(value.span_of_spec())
    } else if !apply_stores(strat, seq_has_equiv(s, value)) {
        Ok(s)
    } else if seq_has_equiv(s, value) {
        Ok(s.update(first_equiv_idx(s, value), value))
    } else {
        Ok(s.push(value))
    }
}

/// The sequence-level merge: values of `vs` applied to contents `s` in
/// order, the first refusal aborting.
pub open spec fn seq_apply_all<V: IntoSpan + Equiv>(s: Seq<V>, vs: Seq<V>, strat: Strategy) -> Result<
    Seq<V>,
    Span,
>
    decreases vs.len(),
{
    if vs.len() == 0 {
        Ok(s)
    } else {
        match seq_apply_step(s, vs[0], strat) {
            Ok(s2) => seq_apply_all(s2, vs.drop_first(), strat),
            Err(sp) => Err(sp),
        }
    }
}

impl<V: IntoSpan + Equiv, D: Dedup + ?Sized> TryApply<V, kind::Nested, D> for Vec<V> {
    fn try_apply(&mut self, value: V) -> Result<(), Error> {
        apply_value::<_, _, D>(self, value)
    }
}

impl<V: IntoSpan + Equiv, D: Dedup + ?Sized> TryApply<V, kind::Value, D> for Vec<V> {
    fn try_apply(&mut self, value: V) -> Result<(), Error> {
        apply_value::<_, _, D>(self, value)
    }
}

impl<V: IntoSpan + Equiv, D: Dedup + ?Sized> TryApplySelf<V, kind::Nested, D> for Vec<V> {
    open spec fn merged_model(&self, another: Self) -> Result<Seq<V>, Span> {
        seq_apply_all(self@, another@, D::strategy_spec())
    }

    fn try_apply_self(&mut self, another: Self) -> Result<(), Error> {
        vec_apply_all::<V, kind::Nested, D>(self, another)
    }
}

impl<V: IntoSpan + Equiv, D: Dedup + ?Sized> TryApplySelf<V, kind::Value, D> for Vec<V> {
    open spec fn merged_model(&self, another: Self) -> Result<Seq<V>, Span> {
        seq_apply_all(self@, another@, D::strategy_spec())
    }

    fn try_apply_self(&mut self, another: Self) -> Result<(), Error> {
        vec_apply_all::<V, kind::Value, D>(self, another)
    }
}

/// Shared body of the sequence merges: applies `another`'s elements to
/// `this` in order, aborting on the first refusal.
fn vec_apply_all<V: IntoSpan + Equiv, K: Kind + ?Sized, D: Dedup + ?Sized>(
    this: &mut Vec<V>,
    another: Vec<V>,
) -> (r: Result<(), Error>) where Vec<V>: TryApply<V, K, D>
    ensures
        seq_apply_all(old(this)@, another@, D::strategy_spec()) matches Ok(m) ==> (r is Ok && final(this)@ == m),
        seq_apply_all(old(this)@, another@, D::strategy_spec()) matches Err(sp) ==> (r matches Err(e) && e.span == sp && e.message@ == dup_attr_arg_text()),
{
    let mut rest = another;
    loop
        invariant
            seq_apply_all(old(this)@, another@, D::strategy_spec()) == seq_apply_all(
                this@,
                rest@,
                D::strategy_spec(),
            ),
        decreases rest.len(),
    {
        if rest.len() == 0 {
            return Ok(());
        }
        let ghost prest = rest@;
        let value = rest.remove(0);
        proof {
            assert(rest@ =~= prest.drop_first());
        }
        let ghost pre = this@;
        match <Vec<V> as TryApply<V, K, D>>::try_apply(this, value) {
            Ok(()) => {
                proof {
                    assert(seq_apply_step(pre, value, D::strategy_spec()) == Ok::<Seq<V>, Span>(
                        this@,
                    ));
                }
            },
            Err(e) => {
                return Err(e);
            },
        }
    }
}

/// One step of the mapping-level merge: what applying the pair `v` to
/// entries `s` yields, an error being reported at the offending key.
pub open spec fn map_apply_step<K: Equiv + IntoSpan, Val>(
    s: Seq<(K, Val)>,
    v: (K, Val),
    strat: Strategy,
) -> Result<Seq<(K, Val)>, Span> {
    if !apply_accepts(strat, entries_have_key(s, v.0)) {
        Err(v.0.span_of_spec())
    } else if !apply_stores(strat, entries_have_key(s, v.0)) {
        Ok(s)
    } else if entries_have_key(s, v.0) {
        Ok(s.update(first_key_idx(s, v.0), v))
    } else {
        Ok(s.push(v))
    }
}

/// The mapping-level merge: entries of `vs` applied to entries `s` in
/// order, the first refusal aborting.
pub open spec fn map_apply_all<K: Equiv + IntoSpan, Val>(
    s: Seq<(K, Val)>,
    vs: Seq<(K, Val)>,
    strat: Strategy,
) -> Result<Seq<(K, Val)>, Span>
    decreases vs.len(),
{
    if vs.len() == 0 {
        Ok(s)
    } else {
        match map_apply_step(s, vs[0], strat) {
            Ok(s2) => map_apply_all(s2, vs.drop_first(), strat),
            Err(sp) => Err(sp),
        }
    }
}

impl<K: Equiv + IntoSpan, Val, D: Dedup + ?Sized> TryApply<(K, Val), kind::Pairs, D> for OrdMap<
    K,
    Val,
> {
    fn try_apply(&mut self, value: (K, Val)) -> Result<(), Error> {
        apply_value::<_, _, D>(self, value)
    }
}

impl<K: Equiv + IntoSpan, Val, D: Dedup + ?Sized> TryApplySelf<(K, Val), kind::Pairs, D> for OrdMap<
    K,
    Val,
> {
    open spec fn merged_model(&self, another: Self) -> Result<Seq<(K, Val)>, Span> {
        map_apply_all(self.entries_spec(), another.entries_spec(), D::strategy_spec())
    }

    fn try_apply_self(&mut self, another: Self) -> Result<(), Error> {
        map_apply_entries::<K, Val, D>(self, another.into_entries())
    }
}

/// Shared body of the mapping merge: applies the given entries to `this` in
/// order, aborting on the first refusal.
fn map_apply_entries<K: Equiv + IntoSpan, Val, D: Dedup + ?Sized>(
    this: &mut OrdMap<K, Val>,
    entries: Vec<(K, Val)>,
) -> (r: Result<(), Error>)
    ensures
        map_apply_all(old(this).entries_spec(), entries@, D::strategy_spec()) matches Ok(m) ==> (r
            is Ok && final(this).entries_spec() == m),
        map_apply_all(old(this).entries_spec(), entries@, D::strategy_spec()) matches Err(sp) ==> (
        r matches Err(e) && e.span == sp && e.message@ == dup_attr_arg_text()),
{
    let mut rest = entries;
    loop
        invariant
            map_apply_all(old(this).entries_spec(), entries@, D::strategy_spec()) == map_apply_all(
                this.entries_spec(),
                rest@,
                D::strategy_spec(),
            ),
        decreases rest.len(),
    {
        if rest.len() == 0 {
            return Ok(());
        }
        let ghost prest = rest@;
        let value = rest.remove(0);
        proof {
            assert(rest@ =~= prest.drop_first());
        }
        let ghost pre = this.entries_spec();
        match <OrdMap<K, Val> as TryApply<(K, Val), kind::Pairs, D>>::try_apply(this, value) {
            Ok(()) => {
                proof {
                    assert(map_apply_step(pre, value, D::strategy_spec()) == Ok::<
                        Seq<(K, Val)>,
                        Span,
                    >(this.entries_spec()));
                }
            },
            Err(e) => {
                return Err(e);
            },
        }
    }
}

} // verus!
