//! The schema-driven machinery: building the default record, applying
//! parsed values, and merging the records parsed from several attribute
//! occurrences.

use vstd::prelude::*;
use vstd::string::StringExecFns;

use crate::apply::{
    apply_accepts, apply_stores, map_apply_all, map_apply_step, seq_apply_all, seq_apply_step,
    TryApply, TryApplySelf,
};
use crate::dedup::{self, Strategy};
use crate::equiv::{first_equiv_idx, seq_has_equiv, Equiv};
use crate::err::{dup_attr_arg_text, ErrView, Error};
use crate::kind;
use crate::ordmap::{entries_have_key, first_key_idx, OrdMap};
use crate::attr::{
    attrs_view, doc_entries, doc_not_namevalue_text, doc_not_strlit_text, doc_string, doc_text,
    entry_texts, Attribute,
};
use crate::record::{
    arg_view, args_view, av_equiv, fs_view, fss_view, lemma_args_view, lemma_fss_view,
    lemma_pairs_view, pairs_view, rec_view, ArgValue, ArgView, FieldState, FsView, Record,
};
use crate::required::Required;
use crate::schema::{strings_view, ArgKind, FieldSchema, FieldSchemaView, Schema, SchemaView, Shape};
use crate::spanned::{IntoSpan, Span, Spanning};
use crate::tokens::{nv_equiv, Name, NameView, TokView, TokenTree};

verus! {

/// The location an argument-value view carries.
pub open spec fn av_span(v: ArgView) -> Span {
    match v {
        ArgView::Ident(n) => n.span,
        ArgView::Tok(t) => tv_span(t),
        ArgView::Nested { span, .. } => span,
    }
}

/// The location a token view carries.
pub open spec fn tv_span(t: TokView) -> Span {
    match t {
        TokView::Ident(n) => n.span,
        TokView::Punct { span, .. } => span,
        TokView::Lit { span, .. } => span,
        TokView::Group { span, .. } => span,
    }
}

/// Whether the sequence of argument views holds one equivalent to `v`.
pub open spec fn avs_has(s: Seq<ArgView>, v: ArgView) -> bool {
    exists|i: int| 0 <= i < s.len() && av_equiv(#[trigger] s[i], v)
}

/// Position of the first view equivalent to `v`, or the length when there
/// is none.
pub open spec fn avs_first_idx(s: Seq<ArgView>, v: ArgView) -> int
    decreases s.len(),
{
    if s.len() == 0 {
        0
    } else if av_equiv(s[0], v) {
        0
    } else {
        1 + avs_first_idx(s.drop_first(), v)
    }
}

/// Whether the entry views hold one whose key is equivalent to `k`.
pub open spec fn dict_has(s: Seq<(NameView, TokView)>, k: NameView) -> bool {
    exists|i: int| 0 <= i < s.len() && nv_equiv((#[trigger] s[i]).0, k)
}

/// Position of the first entry view whose key is equivalent to `k`, or the
/// length when there is none.
pub open spec fn dict_first_idx(s: Seq<(NameView, TokView)>, k: NameView) -> int
    decreases s.len(),
{
    if s.len() == 0 {
        0
    } else if nv_equiv(s[0].0, k) {
        0
    } else {
        1 + dict_first_idx(s.drop_first(), k)
    }
}

/// One application step at the view level, for cell and sequence fields:
/// what depositing `v` into the field leaves behind, or the location of the
/// refused duplicate.
pub open spec fn fsv_apply(fs: FsView, v: ArgView, strat: Strategy) -> Result<FsView, Span> {
    match fs {
        FsView::Cell(o) => {
            if !apply_accepts(strat, o is Some) {
                Err(av_span(v))
            } else if !apply_stores(strat, o is Some) {
                Ok(fs)
            } else {
                Ok(FsView::Cell(Some(v)))
            }
        },
        FsView::Mand(o) => {
            if !apply_accepts(strat, o is Some) {
                Err(av_span(v))
            } else if !apply_stores(strat, o is Some) {
                Ok(fs)
            } else {
                Ok(FsView::Mand(Some(v)))
            }
        },
        FsView::Many(s) => {
            if !apply_accepts(strat, avs_has(s, v)) {
                Err(av_span(v))
            } else if !apply_stores(strat, avs_has(s, v)) {
                Ok(fs)
            } else if avs_has(s, v) {
                Ok(FsView::Many(s.update(avs_first_idx(s, v), v)))
            } else {
                Ok(FsView::Many(s.push(v)))
            }
        },
        FsView::Dict(_) => Err(av_span(v)),
    }
}

/// One application step at the view level, for mapping fields: what
/// depositing the pair into the field leaves behind, or the location of the
/// refused duplicate key.
pub open spec fn dictv_apply(fs: FsView, k: NameView, t: TokView, strat: Strategy) -> Result<
    FsView,
    Span,
> {
    match fs {
        FsView::Dict(s) => {
            if !apply_accepts(strat, dict_has(s, k)) {
                Err(k.span)
            } else if !apply_stores(strat, dict_has(s, k)) {
                Ok(fs)
            } else if dict_has(s, k) {
                Ok(FsView::Dict(s.update(dict_first_idx(s, k), (k, t))))
            } else {
                Ok(FsView::Dict(s.push((k, t))))
            }
        },
        _ => Err(k.span),
    }
}

/// Mapping a sequence of values to views commutes with `update`.
pub proof fn lemma_args_view_update(s: Seq<ArgValue>, i: int, v: ArgValue)
    requires
        0 <= i < s.len(),
    ensures
        args_view(s.update(i, v)) == args_view(s).update(i, arg_view(v)),
{
    lemma_args_view(s);
    lemma_args_view(s.update(i, v));
    assert forall|k: int| 0 <= k < s.len() implies args_view(s.update(i, v))[k] == args_view(
        s,
    ).update(i, arg_view(v))[k] by {
        assert(s.update(i, v)[k] == if k == i {
            v
        } else {
            s[k]
        });
    }
    assert(args_view(s.update(i, v)) =~= args_view(s).update(i, arg_view(v)));
}

/// Mapping a sequence of values to views commutes with `push`.
pub proof fn lemma_args_view_push(s: Seq<ArgValue>, v: ArgValue)
    ensures
        args_view(s.push(v)) == args_view(s).push(arg_view(v)),
{
    lemma_args_view(s);
    lemma_args_view(s.push(v));
    assert forall|k: int| 0 <= k < s.len() + 1 implies args_view(s.push(v))[k] == args_view(
        s,
    ).push(arg_view(v))[k] by {
        assert(s.push(v)[k] == if k == s.len() as int {
            v
        } else {
            s[k]
        });
    }
    assert(args_view(s.push(v)) =~= args_view(s).push(arg_view(v)));
}

/// Mapping mapping entries to views commutes with `update`.
pub proof fn lemma_pairs_view_update(s: Seq<(Name, TokenTree)>, i: int, p: (Name, TokenTree))
    requires
        0 <= i < s.len(),
    ensures
        pairs_view(s.update(i, p)) == pairs_view(s).update(i, (p.0@, p.1@)),
{
    lemma_pairs_view(s);
    lemma_pairs_view(s.update(i, p));
    assert forall|k: int| 0 <= k < s.len() implies pairs_view(s.update(i, p))[k] == pairs_view(
        s,
    ).update(i, (p.0@, p.1@))[k] by {
        assert(s.update(i, p)[k] == if k == i {
            p
        } else {
            s[k]
        });
    }
    assert(pairs_view(s.update(i, p)) =~= pairs_view(s).update(i, (p.0@, p.1@)));
}

/// Mapping mapping entries to views commutes with `push`.
pub proof fn lemma_pairs_view_push(s: Seq<(Name, TokenTree)>, p: (Name, TokenTree))
    ensures
        pairs_view(s.push(p)) == pairs_view(s).push((p.0@, p.1@)),
{
    lemma_pairs_view(s);
    lemma_pairs_view(s.push(p));
    assert forall|k: int| 0 <= k < s.len() + 1 implies pairs_view(s.push(p))[k] == pairs_view(
        s,
    ).push((p.0@, p.1@))[k] by {
        assert(s.push(p)[k] == if k == s.len() as int {
            p
        } else {
            s[k]
        });
    }
    assert(pairs_view(s.push(p)) =~= pairs_view(s).push((p.0@, p.1@)));
}

/// Presence and first position of an equivalent value agree between a
/// sequence of values and the sequence of their views.
pub proof fn lemma_avs_bridge(s: Seq<ArgValue>, v: ArgValue)
    ensures
        seq_has_equiv(s, v) == avs_has(args_view(s), arg_view(v)),
        first_equiv_idx(s, v) == avs_first_idx(args_view(s), arg_view(v)),
    decreases s.len(),
{
    lemma_args_view(s);
    if s.len() > 0 {
        lemma_avs_bridge(s.drop_first(), v);
        lemma_args_view(s.drop_first());
        assert(args_view(s).drop_first() =~= args_view(s.drop_first()));
        if seq_has_equiv(s, v) {
            let w = choose|i: int| 0 <= i < s.len() && s[i].equiv_spec(&v);
            assert(av_equiv(args_view(s)[w], arg_view(v)));
            assert(avs_has(args_view(s), arg_view(v)));
        }
        if avs_has(args_view(s), arg_view(v)) {
            let w = choose|i: int|
                0 <= i < args_view(s).len() && av_equiv(#[trigger] args_view(s)[i], arg_view(v));
            assert(s[w].equiv_spec(&v));
            assert(seq_has_equiv(s, v));
        }
        if !s[0].equiv_spec(&v) {
            if seq_has_equiv(s, v) {
                let w = choose|i: int| 0 <= i < s.len() && s[i].equiv_spec(&v);
                assert(s.drop_first()[w - 1].equiv_spec(&v));
                assert(seq_has_equiv(s.drop_first(), v));
            }
            if seq_has_equiv(s.drop_first(), v) {
                let w = choose|i: int|
                    0 <= i < s.drop_first().len() && s.drop_first()[i].equiv_spec(&v);
                assert(s[w + 1].equiv_spec(&v));
                assert(seq_has_equiv(s, v));
            }
        }
    }
}

/// Presence and first position of an equivalent key agree between mapping
/// entries and their views.
pub proof fn lemma_dict_bridge(s: Seq<(Name, TokenTree)>, k: Name)
    ensures
        entries_have_key(s, k) == dict_has(pairs_view(s), k@),
        first_key_idx(s, k) == dict_first_idx(pairs_view(s), k@),
    decreases s.len(),
{
    lemma_pairs_view(s);
    if s.len() > 0 {
        lemma_dict_bridge(s.drop_first(), k);
        lemma_pairs_view(s.drop_first());
        assert(pairs_view(s).drop_first() =~= pairs_view(s.drop_first()));
        if entries_have_key(s, k) {
            let w = choose|i: int| 0 <= i < s.len() && s[i].0.equiv_spec(&k);
            assert(nv_equiv(pairs_view(s)[w].0, k@));
            assert(dict_has(pairs_view(s), k@));
        }
        if dict_has(pairs_view(s), k@) {
            let w = choose|i: int|
                0 <= i < pairs_view(s).len() && nv_equiv((#[trigger] pairs_view(s)[i]).0, k@);
            assert(s[w].0.equiv_spec(&k));
            assert(entries_have_key(s, k));
        }
        if !s[0].0.equiv_spec(&k) {
            if entries_have_key(s, k) {
                let w = choose|i: int| 0 <= i < s.len() && s[i].0.equiv_spec(&k);
                assert(s.drop_first()[w - 1].0.equiv_spec(&k));
                assert(entries_have_key(s.drop_first(), k));
            }
            if entries_have_key(s.drop_first(), k) {
                let w = choose|i: int|
                    0 <= i < s.drop_first().len() && s.drop_first()[i].0.equiv_spec(&k);
                assert(s[w + 1].0.equiv_spec(&k));
                assert(entries_have_key(s, k));
            }
        }
    }
}

/// Deposits one parsed value into a cell or sequence field according to the
/// deduplication strategy.
pub fn apply_value_to_field(fs: &mut FieldState, v: ArgValue, strat: Strategy) -> (r: Result<
    (),
    Error,
>)
    requires
        !(*old(fs) is Dict),
    ensures
        fsv_apply(fs_view(*old(fs)), arg_view(v), strat) matches Ok(m) ==> (r is Ok && fs_view(
            *final(fs),
        ) == m),
        fsv_apply(fs_view(*old(fs)), arg_view(v), strat) matches Err(sp) ==> (r matches Err(e)
            && e@.span == sp && e@.message == dup_attr_arg_text() && *final(fs) == *old(fs)),
{
    let ghost pre = *fs;
    match fs {
        FieldState::Cell(o) => {
            let r = match strat {
                Strategy::Unique => <Option<ArgValue> as TryApply<
                    ArgValue,
                    kind::Value,
                    dedup::Unique,
                >>::try_apply(o, v),
                Strategy::First => <Option<ArgValue> as TryApply<
                    ArgValue,
                    kind::Value,
                    dedup::First,
                >>::try_apply(o, v),
                Strategy::Last => <Option<ArgValue> as TryApply<
                    ArgValue,
                    kind::Value,
                    dedup::Last,
                >>::try_apply(o, v),
            };
            r
        },
        FieldState::Mand(m) => {
            let r = match strat {
                Strategy::Unique => <Required<ArgValue> as TryApply<
                    ArgValue,
                    kind::Value,
                    dedup::Unique,
                >>::try_apply(m, v),
                Strategy::First => <Required<ArgValue> as TryApply<
                    ArgValue,
                    kind::Value,
                    dedup::First,
                >>::try_apply(m, v),
                Strategy::Last => <Required<ArgValue> as TryApply<
                    ArgValue,
                    kind::Value,
                    dedup::Last,
                >>::try_apply(m, v),
            };
            r
        },
        FieldState::Many(s) => {
            let ghost olds = s@;
            let ghost vg = v;
            let r = match strat {
                Strategy::Unique => <Vec<ArgValue> as TryApply<
                    ArgValue,
                    kind::Value,
                    dedup::Unique,
                >>::try_apply(s, v),
                Strategy::First => <Vec<ArgValue> as TryApply<
                    ArgValue,
                    kind::Value,
                    dedup::First,
                >>::try_apply(s, v),
                Strategy::Last => <Vec<ArgValue> as TryApply<
                    ArgValue,
                    kind::Value,
                    dedup::Last,
                >>::try_apply(s, v),
            };
            proof {
                lemma_avs_bridge(olds, vg);
                if seq_has_equiv(olds, vg) {
                    crate::equiv::lemma_first_equiv_idx(olds, vg);
                    lemma_args_view_update(olds, first_equiv_idx(olds, vg), vg);
                } else {
                    lemma_args_view_push(olds, vg);
                }
            }
            r
        },
        FieldState::Dict(_) => {
            proof {
                assert(false);
            }
            Ok(())
        },
    }
}

/// Deposits one parsed `key = value` pair into a mapping field according to
/// the deduplication strategy.
pub fn apply_pair_to_field(fs: &mut FieldState, k: Name, t: TokenTree, strat: Strategy) -> (r:
    Result<(), Error>)
    requires
        *old(fs) is Dict,
    ensures
        dictv_apply(fs_view(*old(fs)), k@, t@, strat) matches Ok(m) ==> (r is Ok && fs_view(
            *final(fs),
        ) == m),
        dictv_apply(fs_view(*old(fs)), k@, t@, strat) matches Err(sp) ==> (r matches Err(e)
            && e@.span == sp && e@.message == dup_attr_arg_text() && *final(fs) == *old(fs)),
{
    match fs {
        FieldState::Dict(m) => {
            let ghost olds = m.entries_spec();
            let ghost kg = k;
            let ghost tg = t;
            let r = match strat {
                Strategy::Unique => <OrdMap<Name, TokenTree> as TryApply<
                    (Name, TokenTree),
                    kind::Pairs,
                    dedup::Unique,
                >>::try_apply(m, (k, t)),
                Strategy::First => <OrdMap<Name, TokenTree> as TryApply<
                    (Name, TokenTree),
                    kind::Pairs,
                    dedup::First,
                >>::try_apply(m, (k, t)),
                Strategy::Last => <OrdMap<Name, TokenTree> as TryApply<
                    (Name, TokenTree),
                    kind::Pairs,
                    dedup::Last,
                >>::try_apply(m, (k, t)),
            };
            proof {
                lemma_dict_bridge(olds, kg);
                if entries_have_key(olds, kg) {
                    crate::ordmap::lemma_first_key_idx(olds, kg);
                    lemma_pairs_view_update(olds, first_key_idx(olds, kg), (kg, tg));
                } else {
                    lemma_pairs_view_push(olds, (kg, tg));
                }
            }
            r
        },
        _ => {
            proof {
                assert(false);
            }
            Ok(())
        },
    }
}

/// The empty state of one field: the container its shape calls for, with
/// nothing in it.
pub open spec fn empty_fs_view(shape: Shape) -> FsView {
    match shape {
        Shape::Optional => FsView::Cell(None),
        Shape::Mandatory => FsView::Mand(None),
        Shape::Sequence => FsView::Many(Seq::empty()),
        Shape::Mapping => FsView::Dict(Seq::empty()),
    }
}

/// The default record for a description: every field's container empty.
pub open spec fn default_rec_view(s: SchemaView) -> Seq<FsView> {
    Seq::new(s.fields.len(), |i: int| empty_fs_view(s.fields[i].shape))
}

impl Record {
    /// Builds the record every parse starts from: one container per
    /// described field, every container empty.
    #[verifier::loop_isolation(false)]
    pub fn default_for(schema: &Schema) -> (r: Record)
        ensures
            rec_view(r) == default_rec_view(schema@),
    {
        proof {
            crate::schema::lemma_fields_view(schema.fields@);
        }
        let n = schema.fields.len();
        let mut fields: Vec<FieldState> = Vec::new();
        let mut i: usize = 0;
        while i < n
            invariant
                i <= n,
                n == schema.fields@.len(),
                fields@.len() == i,
                forall|j: int|
                    0 <= j < i ==> fs_view(#[trigger] fields@[j]) == empty_fs_view(
                        schema@.fields[j].shape,
                    ),
            decreases n - i,
        {
            let fs = match schema.fields[i].shape {
                Shape::Optional => FieldState::Cell(None),
                Shape::Mandatory => FieldState::Mand(Required::absent()),
                Shape::Sequence => FieldState::Many(Vec::new()),
                Shape::Mapping => FieldState::Dict(OrdMap::new()),
            };
            proof {
                crate::schema::lemma_fields_view(schema.fields@);
            }
            fields.push(fs);
            i += 1;
        }
        let r = Record { fields };
        proof {
            lemma_fss_view(r.fields@);
            crate::schema::lemma_fields_view(schema.fields@);
            assert forall|j: int| 0 <= j < n implies rec_view(r)[j] == default_rec_view(
                schema@,
            )[j] by {
                assert(rec_view(r)[j] == fs_view(r.fields@[j]));
            }
            assert(rec_view(r) =~= default_rec_view(schema@));
        }
        r
    }
}


/// One application step at the view level on bare sequence contents.
pub open spec fn avs_step(s: Seq<ArgView>, v: ArgView, strat: Strategy) -> Result<
    Seq<ArgView>,
    Span,
> {
    if !apply_accepts(strat, avs_has(s, v)) {
        Err(av_span(v))
    } else if !apply_stores(strat, avs_has(s, v)) {
        Ok(s)
    } else if avs_has(s, v) {
        Ok(s.update(avs_first_idx(s, v), v))
    } else {
        Ok(s.push(v))
    }
}

/// The view-level sequence merge: values of `vs` applied in order, the
/// first refusal aborting.
pub open spec fn avs_apply_all(s: Seq<ArgView>, vs: Seq<ArgView>, strat: Strategy) -> Result<
    Seq<ArgView>,
    Span,
>
    decreases vs.len(),
{
    if vs.len() == 0 {
        Ok(s)
    } else {
        match avs_step(s, vs[0], strat) {
            Ok(s2) => avs_apply_all(s2, vs.drop_first(), strat),
            Err(sp) => Err(sp),
        }
    }
}

/// One application step at the view level on bare mapping entries.
pub open spec fn dict_step(
    s: Seq<(NameView, TokView)>,
    p: (NameView, TokView),
    strat: Strategy,
) -> Result<Seq<(NameView, TokView)>, Span> {
    if !apply_accepts(strat, dict_has(s, p.0)) {
        Err(p.0.span)
    } else if !apply_stores(strat, dict_has(s, p.0)) {
        Ok(s)
    } else if dict_has(s, p.0) {
        Ok(s.update(dict_first_idx(s, p.0), p))
    } else {
        Ok(s.push(p))
    }
}

/// The view-level mapping merge: entries of `vs` applied in order, the
/// first refusal aborting.
pub open spec fn dict_apply_all(
    s: Seq<(NameView, TokView)>,
    vs: Seq<(NameView, TokView)>,
    strat: Strategy,
) -> Result<Seq<(NameView, TokView)>, Span>
    decreases vs.len(),
{
    if vs.len() == 0 {
        Ok(s)
    } else {
        match dict_step(s, vs[0], strat) {
            Ok(s2) => dict_apply_all(s2, vs.drop_first(), strat),
            Err(sp) => Err(sp),
        }
    }
}

/// The sequence merge over values agrees with the one over their views.
pub proof fn lemma_seq_fold_bridge(s: Seq<ArgValue>, vs: Seq<ArgValue>, strat: Strategy)
    ensures
        seq_apply_all(s, vs, strat) matches Ok(m) ==> avs_apply_all(
            args_view(s),
            args_view(vs),
            strat,
        ) == Ok::<_, Span>(args_view(m)),
        seq_apply_all(s, vs, strat) matches Err(sp) ==> avs_apply_all(
            args_view(s),
            args_view(vs),
            strat,
        ) == Err::<Seq<ArgView>, _>(sp),
    decreases vs.len(),
{
    lemma_args_view(vs);
    if vs.len() > 0 {
        lemma_args_view(vs.drop_first());
        assert(args_view(vs).drop_first() =~= args_view(vs.drop_first()));
        lemma_avs_bridge(s, vs[0]);
        match seq_apply_step(s, vs[0], strat) {
            Ok(s2) => {
                if seq_has_equiv(s, vs[0]) && apply_accepts(strat, true) && apply_stores(
                    strat,
                    true,
                ) {
                    crate::equiv::lemma_first_equiv_idx(s, vs[0]);
                    lemma_args_view_update(s, first_equiv_idx(s, vs[0]), vs[0]);
                } else if !seq_has_equiv(s, vs[0]) {
                    lemma_args_view_push(s, vs[0]);
                }
                assert(avs_step(args_view(s), args_view(vs)[0], strat) == Ok::<_, Span>(
                    args_view(s2),
                ));
                lemma_seq_fold_bridge(s2, vs.drop_first(), strat);
            },
            Err(sp) => {
                assert(avs_step(args_view(s), args_view(vs)[0], strat) == Err::<Seq<ArgView>, _>(
                    sp,
                ));
            },
        }
    }
}

/// The mapping merge over entries agrees with the one over their views.
pub proof fn lemma_dict_fold_bridge(
    s: Seq<(Name, TokenTree)>,
    vs: Seq<(Name, TokenTree)>,
    strat: Strategy,
)
    ensures
        map_apply_all(s, vs, strat) matches Ok(m) ==> dict_apply_all(
            pairs_view(s),
            pairs_view(vs),
            strat,
        ) == Ok::<_, Span>(pairs_view(m)),
        map_apply_all(s, vs, strat) matches Err(sp) ==> dict_apply_all(
            pairs_view(s),
            pairs_view(vs),
            strat,
        ) == Err::<Seq<(NameView, TokView)>, _>(sp),
    decreases vs.len(),
{
    lemma_pairs_view(vs);
    if vs.len() > 0 {
        lemma_pairs_view(vs.drop_first());
        assert(pairs_view(vs).drop_first() =~= pairs_view(vs.drop_first()));
        lemma_dict_bridge(s, vs[0].0);
        match map_apply_step(s, vs[0], strat) {
            Ok(s2) => {
                if entries_have_key(s, vs[0].0) && apply_accepts(strat, true) && apply_stores(
                    strat,
                    true,
                ) {
                    crate::ordmap::lemma_first_key_idx(s, vs[0].0);
                    lemma_pairs_view_update(s, first_key_idx(s, vs[0].0), vs[0]);
                } else if !entries_have_key(s, vs[0].0) {
                    lemma_pairs_view_push(s, vs[0]);
                }
                assert(dict_step(pairs_view(s), pairs_view(vs)[0], strat) == Ok::<_, Span>(
                    pairs_view(s2),
                ));
                lemma_dict_fold_bridge(s2, vs.drop_first(), strat);
            },
            Err(sp) => {
                assert(dict_step(pairs_view(s), pairs_view(vs)[0], strat) == Err::<
                    Seq<(NameView, TokView)>,
                    _,
                >(sp));
            },
        }
    }
}

/// The view-level merge of one cell's contents into another.
pub open spec fn cell_view_merge(
    held: Option<ArgView>,
    other: Option<ArgView>,
    strat: Strategy,
) -> Result<Option<ArgView>, Span> {
    match other {
        Option::None => Ok(held),
        Option::Some(v) => if !apply_accepts(strat, held is Some) {
            Err(av_span(v))
        } else if apply_stores(strat, held is Some) {
            Ok(Some(v))
        } else {
            Ok(held)
        },
    }
}

/// Whether two field states keep the same container variant.
pub open spec fn fsv_same_shape(a: FsView, b: FsView) -> bool {
    &&& (a is Cell <==> b is Cell)
    &&& (a is Mand <==> b is Mand)
    &&& (a is Many <==> b is Many)
    &&& (a is Dict <==> b is Dict)
}

/// Applying a value never changes a field's container variant.
pub proof fn lemma_fsv_apply_shape(fs: FsView, v: ArgView, strat: Strategy)
    ensures
        fsv_apply(fs, v, strat) matches Ok(o) ==> fsv_same_shape(fs, o),
{
}

/// Applying a pair never changes a field's container variant.
pub proof fn lemma_dictv_apply_shape(fs: FsView, k: NameView, t: TokView, strat: Strategy)
    ensures
        dictv_apply(fs, k, t, strat) matches Ok(o) ==> fsv_same_shape(fs, o),
{
}

/// Whether a field state has the container its described shape calls for.
pub open spec fn fsv_shape_ok(fs: FsView, shape: Shape) -> bool {
    match (fs, shape) {
        (FsView::Cell(_), Shape::Optional) => true,
        (FsView::Mand(_), Shape::Mandatory) => true,
        (FsView::Many(_), Shape::Sequence) => true,
        (FsView::Dict(_), Shape::Mapping) => true,
        _ => false,
    }
}

/// Whether a record's containers are the ones its description calls for.
pub open spec fn rec_shapes_ok(r: Seq<FsView>, s: SchemaView) -> bool {
    r.len() == s.fields.len() && (forall|i: int|
        0 <= i < r.len() ==> fsv_shape_ok(#[trigger] r[i], s.fields[i].shape))
}

/// The view-level merge of two field states of the same shape.
pub open spec fn fsv_merge(a: FsView, b: FsView, strat: Strategy) -> Result<FsView, Span> {
    match (a, b) {
        (FsView::Cell(x), FsView::Cell(y)) => match cell_view_merge(x, y, strat) {
            Ok(o) => Ok(FsView::Cell(o)),
            Err(sp) => Err(sp),
        },
        (FsView::Mand(x), FsView::Mand(y)) => match cell_view_merge(x, y, strat) {
            Ok(o) => Ok(FsView::Mand(o)),
            Err(sp) => Err(sp),
        },
        (FsView::Many(x), FsView::Many(y)) => match avs_apply_all(x, y, strat) {
            Ok(m) => Ok(FsView::Many(m)),
            Err(sp) => Err(sp),
        },
        (FsView::Dict(x), FsView::Dict(y)) => match dict_apply_all(x, y, strat) {
            Ok(m) => Ok(FsView::Dict(m)),
            Err(sp) => Err(sp),
        },
        _ => Err(Span { lo: 0, hi: 0 }),
    }
}

/// The view-level merge of two records, field by field from position `i`
/// on; the first refusal aborts.
pub open spec fn recv_merge(
    a: Seq<FsView>,
    b: Seq<FsView>,
    fields: Seq<FieldSchemaView>,
    i: int,
) -> Result<Seq<FsView>, Span>
    decreases a.len() - i,
{
    if i < 0 || i >= a.len() {
        Ok(a)
    } else {
        match fsv_merge(a[i], b[i], fields[i].dedup) {
            Ok(m) => recv_merge(a.update(i, m), b, fields, i + 1),
            Err(sp) => Err(sp),
        }
    }
}

/// Merges one field state of `another` record into the matching state of
/// this one, according to the field's deduplication strategy.
fn merge_field(fa: &mut FieldState, fb: FieldState, strat: Strategy) -> (r: Result<(), Error>)
    requires
        fsv_shape_ok(fs_view(*old(fa)), Shape::Optional) == fsv_shape_ok(
            fs_view(fb),
            Shape::Optional,
        ),
        fsv_shape_ok(fs_view(*old(fa)), Shape::Mandatory) == fsv_shape_ok(
            fs_view(fb),
            Shape::Mandatory,
        ),
        fsv_shape_ok(fs_view(*old(fa)), Shape::Sequence) == fsv_shape_ok(
            fs_view(fb),
            Shape::Sequence,
        ),
        fsv_shape_ok(fs_view(*old(fa)), Shape::Mapping) == fsv_shape_ok(
            fs_view(fb),
            Shape::Mapping,
        ),
    ensures
        fsv_merge(fs_view(*old(fa)), fs_view(fb), strat) matches Ok(m) ==> (r is Ok && fs_view(
            *final(fa),
        ) == m),
        fsv_merge(fs_view(*old(fa)), fs_view(fb), strat) matches Err(sp) ==> (r matches Err(e)
            && e@.span == sp && e@.message == dup_attr_arg_text()),
{
    match (fa, fb) {
        (FieldState::Cell(x), FieldState::Cell(y)) => {
            match strat {
                Strategy::Unique => <Option<ArgValue> as TryApplySelf<
                    ArgValue,
                    kind::Value,
                    dedup::Unique,
                >>::try_apply_self(x, y),
                Strategy::First => <Option<ArgValue> as TryApplySelf<
                    ArgValue,
                    kind::Value,
                    dedup::First,
                >>::try_apply_self(x, y),
                Strategy::Last => <Option<ArgValue> as TryApplySelf<
                    ArgValue,
                    kind::Value,
                    dedup::Last,
                >>::try_apply_self(x, y),
            }
        },
        (FieldState::Mand(x), FieldState::Mand(y)) => {
            match strat {
                Strategy::Unique => <Required<ArgValue> as TryApplySelf<
                    ArgValue,
                    kind::Value,
                    dedup::Unique,
                >>::try_apply_self(x, y),
                Strategy::First => <Required<ArgValue> as TryApplySelf<
                    ArgValue,
                    kind::Value,
                    dedup::First,
                >>::try_apply_self(x, y),
                Strategy::Last => <Required<ArgValue> as TryApplySelf<
                    ArgValue,
                    kind::Value,
                    dedup::Last,
                >>::try_apply_self(x, y),
            }
        },
        (FieldState::Many(x), FieldState::Many(y)) => {
            let ghost xs = x@;
            let ghost ys = y@;
            let r = match strat {
                Strategy::Unique => <Vec<ArgValue> as TryApplySelf<
                    ArgValue,
                    kind::Value,
                    dedup::Unique,
                >>::try_apply_self(x, y),
                Strategy::First => <Vec<ArgValue> as TryApplySelf<
                    ArgValue,
                    kind::Value,
                    dedup::First,
                >>::try_apply_self(x, y),
                Strategy::Last => <Vec<ArgValue> as TryApplySelf<
                    ArgValue,
                    kind::Value,
                    dedup::Last,
                >>::try_apply_self(x, y),
            };
            proof {
                lemma_seq_fold_bridge(xs, ys, strat);
            }
            r
        },
        (FieldState::Dict(x), FieldState::Dict(y)) => {
            let ghost xs = x.entries_spec();
            let ghost ys = y.entries_spec();
            let r = match strat {
                Strategy::Unique => <OrdMap<Name, TokenTree> as TryApplySelf<
                    (Name, TokenTree),
                    kind::Pairs,
                    dedup::Unique,
                >>::try_apply_self(x, y),
                Strategy::First => <OrdMap<Name, TokenTree> as TryApplySelf<
                    (Name, TokenTree),
                    kind::Pairs,
                    dedup::First,
                >>::try_apply_self(x, y),
                Strategy::Last => <OrdMap<Name, TokenTree> as TryApplySelf<
                    (Name, TokenTree),
                    kind::Pairs,
                    dedup::Last,
                >>::try_apply_self(x, y),
            };
            proof {
                lemma_dict_fold_bridge(xs, ys, strat);
            }
            r
        },
        _ => {
            proof {
                assert(false);
            }
            Ok(())
        },
    }
}

impl Record {
    /// Merges `another` record, parsed from a later attribute occurrence,
    /// into this one: each field merges per the schema's deduplication
    /// strategy, and the first refusal aborts the merge with a "duplicated
    /// attribute's argument" diagnostic.
    #[verifier::loop_isolation(false)]
    pub fn try_merge(self, schema: &Schema, another: Record) -> (r: Result<Record, Error>)
        requires
            rec_shapes_ok(rec_view(self), schema@),
            rec_shapes_ok(rec_view(another), schema@),
        ensures
            recv_merge(rec_view(self), rec_view(another), schema@.fields, 0) matches Ok(m) ==> (r
                matches Ok(rec) && rec_view(rec) == m),
            recv_merge(rec_view(self), rec_view(another), schema@.fields, 0) matches Err(sp) ==> (
            r matches Err(e) && e@.span == sp && e@.message == dup_attr_arg_text()),
    {
        let ghost va = rec_view(self);
        let ghost vb = rec_view(another);
        let ghost fields = schema@.fields;
        proof {
            lemma_fss_view(self.fields@);
            lemma_fss_view(another.fields@);
            crate::schema::lemma_fields_view(schema.fields@);
        }
        let mut af = self.fields;
        let mut bf = another.fields;
        let n = af.len();
        let mut outf: Vec<FieldState> = Vec::new();
        let mut i: usize = 0;
        while i < n
            invariant
                i <= n,
                outf@.len() == i,
                af@.len() == n - i,
                bf@.len() == n - i,
                forall|j: int| 0 <= j < n - i ==> fs_view(#[trigger] af@[j]) == va[i + j],
                forall|j: int| 0 <= j < n - i ==> fs_view(#[trigger] bf@[j]) == vb[i + j],
                recv_merge(va, vb, fields, 0) == recv_merge(
                    fss_view(outf@) + fss_view(af@),
                    vb,
                    fields,
                    i as int,
                ),
                fss_view(outf@).len() == i,
                fss_view(af@).len() == n - i,
            decreases n - i,
        {
            let ghost mid = fss_view(outf@) + fss_view(af@);
            let ghost afpre = af@;
            let ghost outpre = outf@;
            let mut fa = af.remove(0);
            let fb = bf.remove(0);
            proof {
                lemma_fss_view(outf@);
                lemma_fss_view(af@);
                assert(fs_view(fa) == va[i as int]);
                assert(fs_view(fb) == vb[i as int]);
                assert(mid[i as int] == fs_view(fa));
                assert(fsv_shape_ok(va[i as int], fields[i as int].shape));
                assert(fsv_shape_ok(vb[i as int], fields[i as int].shape));
            }
            let strat = schema.fields[i].dedup;
            match merge_field(&mut fa, fb, strat) {
                Ok(()) => {
                    outf.push(fa);
                    i += 1;
                    proof {
                        let oldi = i - 1;
                        lemma_fss_view(outf@);
                        lemma_fss_view(af@);
                        lemma_fss_view(afpre);
                        lemma_fss_view(outpre);
                        assert(af@ =~= afpre.drop_first());
                        assert forall|k: int| 0 <= k < n implies (fss_view(outf@) + fss_view(
                            af@,
                        ))[k] == mid.update(oldi, fs_view(fa))[k] by {
                            if k < oldi {
                                assert(outf@[k] == outpre[k]);
                                assert(mid[k] == fss_view(outpre)[k]);
                            } else if k == oldi {
                                assert(outf@[k] == fa);
                            } else {
                                assert(af@[k - oldi - 1] == afpre[k - oldi]);
                                assert(mid[k] == fss_view(afpre)[k - oldi]);
                            }
                        }
                        assert(fss_view(outf@) + fss_view(af@) =~= mid.update(
                            oldi,
                            fs_view(fa),
                        ));
                    }
                },
                Err(e) => {
                    return Err(e);
                },
            }
        }
        proof {
            lemma_fss_view(outf@);
            assert(fss_view(outf@) + fss_view(af@) =~= fss_view(outf@));
        }
        let out = Record { fields: outf };
        Ok(out)
    }
}



/// The argument name wrapped in backticks, as diagnostics quote it.
pub open spec fn backticked(n: Seq<char>) -> Seq<char> {
    "`"@ + n + "`"@
}

/// The names quoted and joined with commas.
pub open spec fn comma_names(names: Seq<Seq<char>>) -> Seq<char>
    decreases names.len(),
{
    if names.len() == 0 {
        Seq::empty()
    } else if names.len() == 1 {
        backticked(names[0])
    } else {
        comma_names(names.drop_last()) + ", "@ + backticked(names.last())
    }
}

/// The human-readable listing of a field's recognized names: one name
/// quoted, or several as "either .., .. or ..".
pub open spec fn names_label(names: Seq<Seq<char>>) -> Seq<char> {
    if names.len() <= 1 {
        backticked(names[0])
    } else {
        "either "@ + comma_names(names.drop_last()) + " or "@ + backticked(names.last())
    }
}

/// The presence diagnostic for a field whose mandatory cell stayed absent.
pub open spec fn presence_msg(names: Seq<Seq<char>>, attr: Seq<char>) -> Seq<char> {
    names_label(names) + " argument of `#["@ + attr + "]` attribute is expected, but is absent"@
}

/// The attribute name a nested record is validated under: the outer name
/// with the nested argument's first recognized name in parentheses.
pub open spec fn nested_attr_name(attr: Seq<char>, sub: Seq<char>) -> Seq<char> {
    attr + "("@ + sub + ")"@
}

/// The presence pass: the first field, from position `i` on, whose
/// mandatory cell stayed absent yields the presence diagnostic at the
/// item's location.
pub open spec fn validate_provided(
    ms: Seq<FsView>,
    fields: Seq<FieldSchemaView>,
    attr: Seq<char>,
    span: Span,
    i: int,
) -> Option<ErrView>
    decreases ms, 1nat, ms.len() - i,
{
    if i < 0 || i >= ms.len() {
        None
    } else if i < fields.len() && (ms[i] matches FsView::Mand(o) && o is None) {
        Some(ErrView { span, message: presence_msg(fields[i].names, attr) })
    } else {
        validate_provided(ms, fields, attr, span, i + 1)
    }
}

/// Validation of one value of a nested field: a nested record is validated
/// against the nested description, anchored at the value's location; any
/// other value is left alone.
pub open spec fn validate_nested_value(v: ArgView, sub: SchemaView, attr: Seq<char>) -> Option<
    ErrView,
>
    decreases v, 3nat, 0nat,
{
    match v {
        ArgView::Nested { span, fields } => recv_validate(fields, sub, attr, span),
        _ => None,
    }
}

/// Validation of the values of a nested field, in order; the first
/// diagnostic wins.
pub open spec fn validate_nested_values(vs: Seq<ArgView>, sub: SchemaView, attr: Seq<char>) -> Option<
    ErrView,
>
    decreases vs, 3nat, 0nat,
{
    if vs.len() == 0 {
        None
    } else {
        match validate_nested_value(vs[0], sub, attr) {
            Some(e) => Some(e),
            None => validate_nested_values(vs.drop_first(), sub, attr),
        }
    }
}

/// The nested pass: each nested field's values are validated against the
/// nested description, fields in order, values in order.
pub open spec fn validate_nested_fields(
    ms: Seq<FsView>,
    fields: Seq<FieldSchemaView>,
    attr: Seq<char>,
    i: int,
) -> Option<ErrView>
    decreases ms, 2nat, ms.len() - i,
{
    if i < 0 || i >= ms.len() {
        None
    } else {
        let head = if i < fields.len() && fields[i].kind == ArgKind::Nested && fields[i].nested
            is Some {
            let sub = fields[i].nested->0;
            let attr2 = nested_attr_name(attr, fields[i].names[0]);
            match ms[i] {
                FsView::Cell(o) => match o {
                    Option::Some(v) => validate_nested_value(v, sub, attr2),
                    Option::None => None,
                },
                FsView::Mand(o) => match o {
                    Option::Some(v) => validate_nested_value(v, sub, attr2),
                    Option::None => None,
                },
                FsView::Many(vs) => validate_nested_values(vs, sub, attr2),
                FsView::Dict(_) => None,
            }
        } else {
            None
        };
        match head {
            Some(e) => Some(e),
            None => validate_nested_fields(ms, fields, attr, i + 1),
        }
    }
}

/// What validating a record yields: the presence pass first, then the
/// nested walk; the first diagnostic wins.
pub open spec fn recv_validate(ms: Seq<FsView>, s: SchemaView, attr: Seq<char>, span: Span) -> Option<
    ErrView,
>
    decreases ms, 3nat, 0nat,
{
    match validate_provided(ms, s.fields, attr, span, 0) {
        Some(e) => Some(e),
        None => validate_nested_fields(ms, s.fields, attr, 0),
    }
}

/// Builds the human-readable listing of a field's recognized names.
#[verifier::loop_isolation(false)]
fn names_label_exec(names: &Vec<String>) -> (r: String)
    requires
        names@.len() > 0,
    ensures
        r@ == names_label(strings_view(names@)),
{
    proof {
        crate::schema::lemma_strings_view(names@);
    }
    let ghost nv = strings_view(names@);
    let n = names.len();
    if n == 1 {
        let r = String::from_str("`").concat(names[0].as_str()).concat("`");
        return r;
    }
    let mut acc = String::from_str("either ");
    let ghost base = acc@;
    let mut i: usize = 0;
    while i < n - 1
        invariant
            i <= n - 1,
            acc@ == base + comma_names(nv.take(i as int)),
        decreases n - i,
    {
        let ghost pre = acc@;
        if i > 0 {
            acc = acc.concat(", ");
        }
        acc = acc.concat("`").concat(names[i].as_str()).concat("`");
        proof {
            assert(nv.take(i as int + 1).drop_last() =~= nv.take(i as int));
            assert(nv.take(i as int + 1).last() == nv[i as int]);
            if i == 0 {
                assert(nv.take(1).len() == 1);
                assert(nv.take(1)[0] == nv[0]);
                assert(acc@ =~= base + comma_names(nv.take(1)));
            } else {
                assert(comma_names(nv.take(i as int + 1)) == comma_names(nv.take(i as int))
                    + ", "@ + backticked(nv[i as int]));
                assert(acc@ =~= base + comma_names(nv.take(i as int + 1)));
            }
        }
        i += 1;
    }
    let r = acc.concat(" or ").concat("`").concat(names[n - 1].as_str()).concat("`");
    proof {
        assert(nv.take(n - 1 as int) =~= nv.drop_last());
        assert(nv.last() == nv[n - 1]);
        assert(r@ =~= names_label(nv));
    }
    r
}

impl Record {
    /// Validates this record against its description: every mandatory cell
    /// must have been filled, and every nested record is validated in turn
    /// under its argument's name. Diagnostics quote the attribute's `name`
    /// and point at the annotated item's location.
    #[verifier::loop_isolation(false)]
    pub fn validate(&self, schema: &Schema, attr_name: &str, item_span: Span) -> (r: Result<
        (),
        Error,
    >)
        requires
            crate::schema::schema_wf(schema@),
        ensures
            recv_validate(rec_view(*self), schema@, attr_name@, item_span) matches Some(e) ==> (r
                matches Err(err) && err@ == e),
            recv_validate(rec_view(*self), schema@, attr_name@, item_span) is None ==> r is Ok,
        decreases *self,
    {
        let ghost ms = rec_view(*self);
        let ghost fields = schema@.fields;
        proof {
            lemma_fss_view(self.fields@);
            crate::schema::lemma_fields_view(schema.fields@);
        }
        let n = self.fields.len();
        let nf = schema.fields.len();
        let mut i: usize = 0;
        while i < n
            invariant
                i <= n,
                validate_provided(ms, fields, attr_name@, item_span, 0) == validate_provided(
                    ms,
                    fields,
                    attr_name@,
                    item_span,
                    i as int,
                ),
            decreases n - i,
        {
            if i < nf {
                if let FieldState::Mand(m) = &self.fields[i] {
                    if m.value.is_none() {
                        proof {
                            crate::schema::lemma_strings_view(schema.fields@[i as int].names@);
                            assert(crate::schema::field_wf_shallow(fields[i as int]));
                        }
                        let label = names_label_exec(&schema.fields[i].names);
                        let msg = label.concat(" argument of `#[").concat(attr_name).concat(
                            "]` attribute is expected, but is absent",
                        );
                        return Err(Error { span: item_span, message: msg });
                    }
                }
            }
            i += 1;
        }
        let mut i: usize = 0;
        while i < n
            invariant
                i <= n,
                validate_provided(ms, fields, attr_name@, item_span, 0) is None,
                validate_nested_fields(ms, fields, attr_name@, 0) == validate_nested_fields(
                    ms,
                    fields,
                    attr_name@,
                    i as int,
                ),
            decreases n - i,
        {
            if i < nf {
                let fsch = &schema.fields[i];
                if let (ArgKind::Nested, Some(sub)) = (fsch.kind, &fsch.nested) {
                    proof {
                        crate::schema::lemma_strings_view(fsch.names@);
                        assert(crate::schema::field_wf_shallow(fields[i as int]));
                        assert(fields[i as int].kind == ArgKind::Nested);
                        assert(fields[i as int].nested is Some);
                        assert(crate::schema::schema_wf(fields[i as int].nested->0));
                    }
                    let attr2 = String::from_str(attr_name).concat("(").concat(
                        fsch.names[0].as_str(),
                    ).concat(")");
                    proof {
                        assert(attr2@ == nested_attr_name(attr_name@, fields[i as int].names[0]));
                    }
                    match &self.fields[i] {
                        FieldState::Cell(o) => {
                            if let Some(v) = o {
                                proof {
                                    assert(decreases_to!(*self => *v));
                                }
                                if let Err(e) = validate_value(v, sub, attr2.as_str()) {
                                    return Err(e);
                                }
                            }
                        },
                        FieldState::Mand(m) => {
                            if let Some(v) = &m.value {
                                proof {
                                    assert(decreases_to!(*self => *v));
                                }
                                if let Err(e) = validate_value(v, sub, attr2.as_str()) {
                                    return Err(e);
                                }
                            }
                        },
                        FieldState::Many(vs) => {
                            let m = vs.len();
                            let mut j: usize = 0;
                            proof {
                                lemma_args_view(vs@);
                                assert(args_view(vs@).subrange(
                                    0,
                                    args_view(vs@).len() as int,
                                ) =~= args_view(vs@));
                            }
                            while j < m
                                invariant
                                    j <= m,
                                    validate_nested_values(
                                        args_view(vs@),
                                        field_sub(fields, i as int),
                                        attr2@,
                                    ) == validate_nested_values(
                                        args_view(vs@).subrange(
                                            j as int,
                                            args_view(vs@).len() as int,
                                        ),
                                        field_sub(fields, i as int),
                                        attr2@,
                                    ),
                                decreases m - j,
                            {
                                proof {
                                    assert(args_view(vs@).subrange(
                                        j as int,
                                        args_view(vs@).len() as int,
                                    ).drop_first() =~= args_view(vs@).subrange(
                                        j as int + 1,
                                        args_view(vs@).len() as int,
                                    ));
                                    assert(decreases_to!(*self => vs@[j as int]));
                                }
                                if let Err(e) = validate_value(&vs[j], sub, attr2.as_str()) {
                                    return Err(e);
                                }
                                j += 1;
                            }
                            proof {
                                assert(args_view(vs@).subrange(
                                    m as int,
                                    args_view(vs@).len() as int,
                                ) =~= Seq::<ArgView>::empty());
                            }
                        },
                        FieldState::Dict(_) => {},
                    }
                }
            }
            i += 1;
        }
        Ok(())
    }
}

/// The nested description of field `i`, for stating loop invariants.
pub open spec fn field_sub(fields: Seq<FieldSchemaView>, i: int) -> SchemaView
    recommends
        0 <= i < fields.len(),
        fields[i].nested is Some,
{
    fields[i].nested->0
}

/// Validates one value of a nested field: a nested record is validated
/// against the nested description; any other value passes.
#[verifier::loop_isolation(false)]
fn validate_value(v: &ArgValue, sub: &Schema, attr2: &str) -> (r: Result<(), Error>)
    requires
        crate::schema::schema_wf(sub@),
    ensures
        validate_nested_value(arg_view(*v), sub@, attr2@) matches Some(e) ==> (r matches Err(err)
            && err@ == e),
        validate_nested_value(arg_view(*v), sub@, attr2@) is None ==> r is Ok,
    decreases *v,
{
    match v {
        ArgValue::Nested(sp) => {
            proof {
                assert(decreases_to!(*v => sp.item));
            }
            sp.item.validate(sub, attr2, sp.span)
        },
        _ => Ok(()),
    }
}



/// What the item's `doc` attributes offer a falling-back field: the
/// normalized text and the first literal's location, if any text is there.
pub open spec fn doc_opt(entries: Seq<(Seq<char>, Span)>) -> Option<(Seq<char>, Span)> {
    if entries.len() == 0 {
        None
    } else {
        Some((doc_text(entry_texts(entries)), entries[0].1))
    }
}

/// The string-literal token the doc fallback deposits: the text quoted,
/// carried at the first contributing literal's location.
pub open spec fn doc_lit_view(text: Seq<char>, span: Span) -> TokView {
    TokView::Lit { text: seq!['"'] + text + seq!['"'], span }
}

/// Whether a field state holds no value.
pub open spec fn fsv_empty(fs: FsView) -> bool {
    match fs {
        FsView::Cell(o) => o is None,
        FsView::Mand(o) => o is None,
        FsView::Many(s) => s.len() == 0,
        FsView::Dict(s) => s.len() == 0,
    }
}

/// Whether a value of a nested field still has an empty field with the doc
/// fallback somewhere inside.
pub open spec fn value_needs_doc(v: ArgView, sub: SchemaView) -> bool
    decreases v,
{
    match v {
        ArgView::Nested { fields, .. } => needs_doc(fields, sub),
        _ => false,
    }
}

/// Whether one field still wants the `doc` text: it is empty with the doc
/// fallback itself, or a nested record reached by the fallback walk has
/// such a field.
pub open spec fn field_needs_doc(fs: FsView, f: FieldSchemaView) -> bool
    decreases fs,
{
    if f.doc_fallback && fsv_empty(fs) {
        true
    } else if f.kind == ArgKind::Nested && f.nested is Some && !fsv_empty(fs) {
        match fs {
            FsView::Cell(o) => match o {
                Option::Some(v) => value_needs_doc(v, f.nested->0),
                Option::None => false,
            },
            FsView::Mand(o) => match o {
                Option::Some(v) => value_needs_doc(v, f.nested->0),
                Option::None => false,
            },
            FsView::Many(vs) => exists|j: int|
                0 <= j < vs.len() && value_needs_doc(#[trigger] vs[j], f.nested->0),
            FsView::Dict(_) => false,
        }
    } else {
        false
    }
}

/// Whether the record still wants the `doc` text anywhere the fallback
/// walk reaches.
pub open spec fn needs_doc(ms: Seq<FsView>, s: SchemaView) -> bool
    decreases ms,
{
    exists|i: int|
        0 <= i < ms.len() && i < s.fields.len() && field_needs_doc(
            #[trigger] ms[i],
            s.fields[i],
        )
}

/// How one value of a nested field comes out of the fallback walk: a
/// nested record is walked recursively at its place, anything else stays.
pub open spec fn value_fb_rel(
    ov: ArgView,
    nv: ArgView,
    sub: SchemaView,
    doc: Option<(Seq<char>, Span)>,
) -> bool
    decreases ov,
{
    match ov {
        ArgView::Nested { span, fields } => nv matches ArgView::Nested {
            span: nspan,
            fields: nfields,
        } && nspan == span && rec_fb_rel(fields, nfields, sub, doc),
        _ => nv == ov,
    }
}

/// How one field comes out of the fallback pass: an empty field with the
/// doc fallback takes the offered text as a string-literal value; a
/// non-empty nested field has its records walked; every other field stays.
pub open spec fn field_fb_rel(
    o: FsView,
    n: FsView,
    f: FieldSchemaView,
    doc: Option<(Seq<char>, Span)>,
) -> bool
    decreases o,
{
    if f.doc_fallback && fsv_empty(o) {
        match doc {
            Option::None => n == o,
            Option::Some((text, span)) => match o {
                FsView::Cell(_) => n == FsView::Cell(Some(ArgView::Tok(doc_lit_view(text, span)))),
                FsView::Mand(_) => n == FsView::Mand(Some(ArgView::Tok(doc_lit_view(text, span)))),
                FsView::Many(_) => n == FsView::Many(seq![ArgView::Tok(doc_lit_view(text, span))]),
                FsView::Dict(_) => n == o,
            },
        }
    } else if f.kind == ArgKind::Nested && f.nested is Some && !fsv_empty(o) {
        match o {
            FsView::Cell(x) => match x {
                Option::Some(v) => n matches FsView::Cell(y) && (y matches Some(w)
                    && value_fb_rel(v, w, f.nested->0, doc)),
                Option::None => n == o,
            },
            FsView::Mand(x) => match x {
                Option::Some(v) => n matches FsView::Mand(y) && (y matches Some(w)
                    && value_fb_rel(v, w, f.nested->0, doc)),
                Option::None => n == o,
            },
            FsView::Many(vs) => n matches FsView::Many(ws) && ws.len() == vs.len() && (forall|
                j: int,
            |
                0 <= j < vs.len() ==> value_fb_rel(#[trigger] vs[j], ws[j], f.nested->0, doc)),
            FsView::Dict(_) => n == o,
        }
    } else {
        n == o
    }
}

/// How a whole record comes out of the fallback pass, field by field.
pub open spec fn rec_fb_rel(
    oms: Seq<FsView>,
    nms: Seq<FsView>,
    s: SchemaView,
    doc: Option<(Seq<char>, Span)>,
) -> bool
    decreases oms,
{
    nms.len() == oms.len() && (forall|i: int|
        0 <= i < oms.len() ==> if i < s.fields.len() {
            field_fb_rel(#[trigger] oms[i], nms[i], s.fields[i], doc)
        } else {
            nms[i] == oms[i]
        })
}

/// Returns whether the field state holds no value.
pub fn fs_is_empty(fs: &FieldState) -> (r: bool)
    ensures
        r == fsv_empty(fs_view(*fs)),
{
    match fs {
        FieldState::Cell(o) => o.is_none(),
        FieldState::Mand(m) => m.value.is_none(),
        FieldState::Many(v) => {
            proof {
                lemma_args_view(v@);
            }
            v.len() == 0
        },
        FieldState::Dict(m) => {
            proof {
                lemma_pairs_view(m.entries_spec());
            }
            m.len() == 0
        },
    }
}

/// Builds the string-literal token the doc fallback deposits.
fn doc_lit(text: &Spanning<String>) -> (r: TokenTree)
    ensures
        r@ == doc_lit_view(text.item@, text.span),
{
    let quoted = String::from_str("\"").concat(text.item.as_str()).concat("\"");
    let r = TokenTree::Lit { text: quoted, span: text.span };
    proof {
        reveal_strlit("\"");
        assert(r@ matches TokView::Lit { text: t, span } && t =~= seq!['"'] + text.item@
            + seq!['"']);
    }
    r
}

/// Walks one value of a nested field: a nested record is walked
/// recursively, anything else passes through.
fn fallback_value(v: ArgValue, sub: &Schema, attrs: &Vec<Attribute>) -> (r: Result<
    ArgValue,
    Error,
>)
    ensures
        doc_entries(attrs_view(attrs@)) matches Ok(entries) ==> (r matches Ok(nv) && value_fb_rel(
            arg_view(v),
            arg_view(nv),
            sub@,
            doc_opt(entries),
        )),
        doc_entries(attrs_view(attrs@)) matches Err(bad) ==> (if value_needs_doc(
            arg_view(v),
            sub@,
        ) {
            r matches Err(e) && e@.span == bad.0 && e@.message == (if bad.1 {
                doc_not_strlit_text()
            } else {
                doc_not_namevalue_text()
            })
        } else {
            r matches Ok(nv) && value_fb_rel(arg_view(v), arg_view(nv), sub@, None)
        }),
    decreases v,
{
    match v {
        ArgValue::Nested(sp) => {
            proof {
                assert(decreases_to!(v => sp.item));
            }
            let crate::spanned::Spanning { span, item } = sp;
            match item.fallback(sub, attrs) {
                Ok(rec) => Ok(ArgValue::Nested(crate::spanned::Spanning { span, item: rec })),
                Err(e) => Err(e),
            }
        },
        other => Ok(other),
    }
}

/// Walks the values of a nested sequence field, in order; the first
/// refusal aborts.
#[verifier::loop_isolation(false)]
fn fallback_values(
    vs: Vec<ArgValue>,
    Ghost(vsg): Ghost<Seq<ArgValue>>,
    sub: &Schema,
    attrs: &Vec<Attribute>,
) -> (r: Result<Vec<ArgValue>, Error>)
    requires
        vs@ == vsg,
    ensures
        doc_entries(attrs_view(attrs@)) matches Ok(entries) ==> (r matches Ok(nvs) && nvs@.len()
            == vsg.len() && (forall|k: int|
            0 <= k < vsg.len() ==> value_fb_rel(
                args_view(vsg)[k],
                arg_view(#[trigger] nvs@[k]),
                sub@,
                doc_opt(entries),
            ))),
        doc_entries(attrs_view(attrs@)) matches Err(bad) ==> (if (exists|k: int|
            0 <= k < vsg.len() && value_needs_doc(#[trigger] args_view(vsg)[k], sub@)) {
            r matches Err(e) && e@.span == bad.0 && e@.message == (if bad.1 {
                doc_not_strlit_text()
            } else {
                doc_not_namevalue_text()
            })
        } else {
            r matches Ok(nvs) && nvs@.len() == vsg.len() && (forall|k: int|
                0 <= k < vsg.len() ==> value_fb_rel(
                    args_view(vsg)[k],
                    arg_view(#[trigger] nvs@[k]),
                    sub@,
                    None,
                ))
        }),
    decreases vs,
{
    let ghost vsv = args_view(vsg);
    let ghost vso = vsg;
    proof {
        lemma_args_view(vs@);
    }
    let mut rest = vs;
    let m = rest.len();
    let mut nvs: Vec<ArgValue> = Vec::new();
    let mut j: usize = 0;
    while j < m
        invariant
            j <= m,
            rest@.len() == m - j,
            nvs@.len() == j,
            rest@ == vso.subrange(j as int, m as int),
            forall|k: int|
                0 <= k < j ==> (doc_entries(attrs_view(attrs@)) matches Ok(entries)
                    ==> value_fb_rel(
                    vsv[k],
                    arg_view(#[trigger] nvs@[k]),
                    sub@,
                    doc_opt(entries),
                )),
            forall|k: int|
                0 <= k < j ==> (doc_entries(attrs_view(attrs@)) is Err ==> value_fb_rel(
                    vsv[k],
                    arg_view(#[trigger] nvs@[k]),
                    sub@,
                    None,
                )),
            doc_entries(attrs_view(attrs@)) is Err ==> (forall|k: int|
                0 <= k < j ==> !value_needs_doc(#[trigger] vsv[k], sub@)),
        decreases m - j,
    {
        let ghost rpre = rest@;
        let v = rest.remove(0);
        proof {
            lemma_args_view(rpre);
            assert(rest@ =~= rpre.drop_first());
            assert(v == vso[j as int]);
            assert(arg_view(v) == vsv[j as int]);
            assert(decreases_to!(vs => vso[j as int]));
        }
        match fallback_value(v, sub, attrs) {
            Ok(nv) => {
                nvs.push(nv);
                j += 1;
            },
            Err(e) => {
                proof {
                    assert(value_needs_doc(vsv[j as int], sub@));
                }
                return Err(e);
            },
        }
    }
    Ok(nvs)
}

/// Runs the fallback pass over one field: an empty field with the doc
/// fallback takes the item's `doc` text as a string-literal value; a
/// non-empty nested field has its records walked; every other field stays.
#[verifier::loop_isolation(false)]
fn fallback_field(fs: FieldState, fsch: &FieldSchema, attrs: &Vec<Attribute>) -> (r: Result<
    FieldState,
    Error,
>)
    ensures
        doc_entries(attrs_view(attrs@)) matches Ok(entries) ==> (r matches Ok(nfs)
            && field_fb_rel(fs_view(fs), fs_view(nfs), fsch@, doc_opt(entries))),
        doc_entries(attrs_view(attrs@)) matches Err(bad) ==> (if field_needs_doc(
            fs_view(fs),
            fsch@,
        ) {
            r matches Err(e) && e@.span == bad.0 && e@.message == (if bad.1 {
                doc_not_strlit_text()
            } else {
                doc_not_namevalue_text()
            })
        } else {
            r matches Ok(nfs) && field_fb_rel(fs_view(fs), fs_view(nfs), fsch@, None)
        }),
    decreases fs,
{
    if fsch.doc_fallback && fs_is_empty(&fs) {
        match doc_string(attrs) {
            Ok(Some(text)) => {
                let lit = doc_lit(&text);
                let v = ArgValue::Tok(lit);
                let nfs = match fs {
                    FieldState::Cell(_) => FieldState::Cell(Some(v)),
                    FieldState::Mand(_) => FieldState::Mand(Required { value: Some(v) }),
                    FieldState::Many(_) => {
                        let mut one: Vec<ArgValue> = Vec::new();
                        one.push(v);
                        proof {
                            lemma_args_view(one@);
                            assert(args_view(one@) =~= seq![
                                ArgView::Tok(doc_lit_view(text.item@, text.span)),
                            ]);
                        }
                        FieldState::Many(one)
                    },
                    other => other,
                };
                proof {
                    if let Ok(entries) = doc_entries(attrs_view(attrs@)) {
                        assert(doc_opt(entries) == Some((text.item@, text.span)));
                        assert(field_fb_rel(fs_view(fs), fs_view(nfs), fsch@, doc_opt(entries)));
                    }
                }
                Ok(nfs)
            },
            Ok(None) => {
                proof {
                    if let Ok(entries) = doc_entries(attrs_view(attrs@)) {
                        assert(field_fb_rel(fs_view(fs), fs_view(fs), fsch@, doc_opt(entries)));
                    }
                }
                Ok(fs)
            },
            Err(e) => {
                proof {
                    assert(field_needs_doc(fs_view(fs), fsch@));
                }
                Err(e)
            },
        }
    } else if matches!(fsch.kind, ArgKind::Nested) && fsch.nested.is_some() && !fs_is_empty(&fs) {
        let sub: &Schema = match &fsch.nested {
            Some(b) => b,
            None => {
                proof {
                    assert(false);
                }
                return Ok(fs);
            },
        };
        proof {
            assert(sub@ == fsch@.nested->0);
        }
        match fs {
            FieldState::Cell(Some(v)) => {
                proof {
                    assert(decreases_to!(fs => v));
                }
                match fallback_value(v, sub, attrs) {
                    Ok(nv) => {
                        let nfs = FieldState::Cell(Some(nv));
                        proof {
                            assert(fs_view(fs) == FsView::Cell(Some(arg_view(v))));
                            assert(fs_view(nfs) == FsView::Cell(Some(arg_view(nv))));
                            if let Ok(entries) = doc_entries(attrs_view(attrs@)) {
                                assert(field_fb_rel(
                                    fs_view(fs),
                                    fs_view(nfs),
                                    fsch@,
                                    doc_opt(entries),
                                ));
                            }
                            if doc_entries(attrs_view(attrs@)) is Err {
                                assert(!field_needs_doc(fs_view(fs), fsch@));
                                assert(field_fb_rel(fs_view(fs), fs_view(nfs), fsch@, None));
                            }
                        }
                        Ok(nfs)
                    },
                    Err(e) => {
                        proof {
                            assert(value_needs_doc(arg_view(v), sub@));
                            assert(field_needs_doc(fs_view(fs), fsch@));
                        }
                        Err(e)
                    },
                }
            },
            FieldState::Mand(m) => {
                match m.value {
                    Some(v) => {
                        proof {
                            assert(decreases_to!(fs => fs->Mand_0.value->Some_0));
                            assert(v == fs->Mand_0.value->Some_0);
                        }
                        match fallback_value(v, sub, attrs) {
                            Ok(nv) => {
                                let nfs = FieldState::Mand(Required { value: Some(nv) });
                                proof {
                                    assert(fs_view(fs) == FsView::Mand(Some(arg_view(v))));
                                    assert(fs_view(nfs) == FsView::Mand(Some(arg_view(nv))));
                                    if let Ok(entries) = doc_entries(attrs_view(attrs@)) {
                                        assert(field_fb_rel(
                                            fs_view(fs),
                                            fs_view(nfs),
                                            fsch@,
                                            doc_opt(entries),
                                        ));
                                    }
                                    if doc_entries(attrs_view(attrs@)) is Err {
                                        assert(!field_needs_doc(fs_view(fs), fsch@));
                                        assert(field_fb_rel(
                                            fs_view(fs),
                                            fs_view(nfs),
                                            fsch@,
                                            None,
                                        ));
                                    }
                                }
                                Ok(nfs)
                            },
                            Err(e) => {
                                proof {
                                    assert(value_needs_doc(arg_view(v), sub@));
                                    assert(field_needs_doc(fs_view(fs), fsch@));
                                }
                                Err(e)
                            },
                        }
                    },
                    None => {
                        proof {
                            assert(false);
                        }
                        Ok(FieldState::Mand(Required { value: None }))
                    },
                }
            },
            FieldState::Many(vs) => {
                let ghost vgs = vs@;
                let ghost vsv = args_view(vgs);
                proof {
                    assert(fs is Many);
                    assert(fs_view(fs) == FsView::Many(vsv));
                    assert(decreases_to!(fs => fs->Many_0));
                }
                match fallback_values(vs, Ghost(vgs), sub, attrs) {
                    Ok(nvs) => {
                        let ghost nvsg = nvs@;
                        proof {
                            assert(doc_entries(attrs_view(attrs@)) matches Ok(e2) ==> nvs@.len()
                                == vgs.len());
                        }
                        let nfs = FieldState::Many(nvs);
                        proof {
                            lemma_args_view(nvsg);
                            lemma_args_view(vgs);
                            assert(nfs is Many);
                            assert(nfs->Many_0@ == nvsg);
                            assert(fs_view(nfs) == FsView::Many(args_view(nvsg)));
                            if let Ok(entries) = doc_entries(attrs_view(attrs@)) {
                                assert forall|k: int| 0 <= k < vsv.len() implies value_fb_rel(
                                    vsv[k],
                                    args_view(nvsg)[k],
                                    fsch@.nested->0,
                                    doc_opt(entries),
                                ) by {
                                    assert(args_view(nvsg)[k] == arg_view(nvsg[k]));
                                    assert(value_fb_rel(
                                        args_view(vgs)[k],
                                        arg_view(nvsg[k]),
                                        sub@,
                                        doc_opt(entries),
                                    ));
                                }
                                assert(field_fb_rel(
                                    fs_view(fs),
                                    fs_view(nfs),
                                    fsch@,
                                    doc_opt(entries),
                                ));
                            }
                            if doc_entries(attrs_view(attrs@)) is Err {
                                assert forall|k: int| 0 <= k < vsv.len() implies value_fb_rel(
                                    vsv[k],
                                    args_view(nvsg)[k],
                                    fsch@.nested->0,
                                    None,
                                ) by {
                                    assert(args_view(nvsg)[k] == arg_view(nvsg[k]));
                                    assert(value_fb_rel(
                                        args_view(vgs)[k],
                                        arg_view(nvsg[k]),
                                        sub@,
                                        None,
                                    ));
                                }
                                assert forall|k: int| 0 <= k < vsv.len() implies !value_needs_doc(
                                    #[trigger] vsv[k],
                                    fsch@.nested->0,
                                ) by {
                                    assert(!value_needs_doc(args_view(vgs)[k], sub@));
                                }
                                assert(!field_needs_doc(fs_view(fs), fsch@));
                                assert(field_fb_rel(fs_view(fs), fs_view(nfs), fsch@, None));
                            }
                        }
                        Ok(nfs)
                    },
                    Err(e) => {
                        proof {
                            lemma_args_view(vgs);
                            if doc_entries(attrs_view(attrs@)) is Err {
                                let w = choose|k: int|
                                    0 <= k < vgs.len() && value_needs_doc(
                                        #[trigger] args_view(vgs)[k],
                                        sub@,
                                    );
                                assert(value_needs_doc(vsv[w], fsch@.nested->0));
                                assert(field_needs_doc(fs_view(fs), fsch@));
                            }
                        }
                        Err(e)
                    },
                }
            },
            other => Ok(other),
        }
    } else {
        proof {
            assert(!(fsch@.doc_fallback && fsv_empty(fs_view(fs))));
            assert(!(fsch@.kind == ArgKind::Nested && fsch@.nested is Some && !fsv_empty(
                fs_view(fs),
            )));
            assert(field_fb_rel(fs_view(fs), fs_view(fs), fsch@, None));
        }
        Ok(fs)
    }
}

impl Record {
    /// Runs the fallback pass: every field that is empty at this point and
    /// carries the doc fallback takes the text of the item's `doc`
    /// attributes, and every non-empty nested field has its records walked
    /// the same way. Other fields stay as they are.
    #[verifier::loop_isolation(false)]
    pub fn fallback(self, schema: &Schema, attrs: &Vec<Attribute>) -> (r: Result<Record, Error>)
        ensures
            doc_entries(attrs_view(attrs@)) matches Ok(entries) ==> (r matches Ok(rec)
                && rec_fb_rel(rec_view(self), rec_view(rec), schema@, doc_opt(entries))),
            doc_entries(attrs_view(attrs@)) matches Err(bad) ==> (if needs_doc(
                rec_view(self),
                schema@,
            ) {
                r matches Err(e) && e@.span == bad.0 && e@.message == (if bad.1 {
                    doc_not_strlit_text()
                } else {
                    doc_not_namevalue_text()
                })
            } else {
                r matches Ok(rec) && rec_fb_rel(rec_view(self), rec_view(rec), schema@, None)
            }),
        decreases self,
    {
        let ghost va = rec_view(self);
        let ghost sv = schema@;
        proof {
            lemma_fss_view(self.fields@);
            crate::schema::lemma_fields_view(schema.fields@);
        }
        let mut af = self.fields;
        let n = af.len();
        let nf = schema.fields.len();
        proof {
            assert(af@ =~= self.fields@.subrange(0, n as int));
        }
        let mut outf: Vec<FieldState> = Vec::new();
        let mut i: usize = 0;
        while i < n
            invariant
                i <= n,
                outf@.len() == i,
                af@.len() == n - i,
                af@ == self.fields@.subrange(i as int, n as int),
                doc_entries(attrs_view(attrs@)) is Err ==> (forall|j: int|
                    0 <= j < i && j < sv.fields.len() ==> !field_needs_doc(
                        va[j],
                        #[trigger] sv.fields[j],
                    )),
                forall|j: int|
                    0 <= j < i ==> if j < sv.fields.len() {
                        doc_entries(attrs_view(attrs@)) matches Ok(entries) ==> field_fb_rel(
                            va[j],
                            fs_view(#[trigger] outf@[j]),
                            sv.fields[j],
                            doc_opt(entries),
                        )
                    } else {
                        fs_view(#[trigger] outf@[j]) == va[j]
                    },
                forall|j: int|
                    0 <= j < i && j < sv.fields.len() ==> (doc_entries(attrs_view(attrs@)) is Err
                        ==> field_fb_rel(va[j], fs_view(#[trigger] outf@[j]), sv.fields[j], None)),
            decreases n - i,
        {
            let ghost afpre = af@;
            let fs = af.remove(0);
            proof {
                lemma_fss_view(afpre);
                assert(af@ =~= afpre.drop_first());
                assert(fs == self.fields@[i as int]);
                assert(fs_view(fs) == va[i as int]);
                assert(af@ =~= self.fields@.subrange(i + 1, n as int));
                assert(decreases_to!(self => self.fields@[i as int]));
            }
            let processed: FieldState = if i < nf {
                match fallback_field(fs, &schema.fields[i], attrs) {
                    Ok(nfs) => nfs,
                    Err(e) => {
                        proof {
                            if doc_entries(attrs_view(attrs@)) is Err {
                                assert(field_needs_doc(va[i as int], sv.fields[i as int]));
                                assert(needs_doc(va, sv));
                            }
                        }
                        return Err(e);
                    },
                }
            } else {
                fs
            };
            proof {
                if i < nf && doc_entries(attrs_view(attrs@)) is Err {
                    assert(!field_needs_doc(va[i as int], sv.fields[i as int]));
                }
            }
            outf.push(processed);
            i += 1;
            proof {
                lemma_fss_view(outf@);
            }
        }
        let out = Record { fields: outf };
        proof {
            lemma_fss_view(out.fields@);
            if let Ok(entries) = doc_entries(attrs_view(attrs@)) {
                assert forall|j: int| 0 <= j < n implies (if j < sv.fields.len() {
                    field_fb_rel(va[j], rec_view(out)[j], sv.fields[j], doc_opt(entries))
                } else {
                    rec_view(out)[j] == va[j]
                }) by {
                    assert(rec_view(out)[j] == fs_view(outf@[j]));
                }
                assert(rec_fb_rel(va, rec_view(out), sv, doc_opt(entries)));
            }
            if doc_entries(attrs_view(attrs@)) is Err {
                assert(!needs_doc(va, sv));
                assert forall|j: int| 0 <= j < n implies (if j < sv.fields.len() {
                    field_fb_rel(va[j], rec_view(out)[j], sv.fields[j], None)
                } else {
                    rec_view(out)[j] == va[j]
                }) by {
                    assert(rec_view(out)[j] == fs_view(outf@[j]));
                }
                assert(rec_fb_rel(va, rec_view(out), sv, None));
            }
        }
        Ok(out)
    }
}

} // verus!
