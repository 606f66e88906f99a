//! The general laws the machinery obeys, stated and proved once for every
//! record description.

use vstd::prelude::*;

use crate::attr::{path_is_single, Attribute};
use crate::dedup::Strategy;
use crate::engine::{
    avs_apply_all, avs_has, avs_step, default_rec_view, dict_apply_all, dict_has, dict_step,
    empty_fs_view, fsv_apply, fsv_empty, fsv_merge, recv_merge, recv_validate,
    validate_nested_fields, validate_provided,
};
use crate::err::ErrView;
use crate::record::{av_equiv, ArgView, FsView};
use crate::schema::{FieldSchemaView, SchemaView, Shape};
use crate::spanned::Span;
use crate::tokens::nv_equiv;

verus! {

/// Default emptiness: the record every parse starts from has one container
/// per described field, and every one of them is empty.
pub proof fn lemma_default_record_empty(s: SchemaView)
    ensures
        default_rec_view(s).len() == s.fields.len(),
        forall|i: int| 0 <= i < s.fields.len() ==> fsv_empty(#[trigger] default_rec_view(s)[i]),
{
    assert forall|i: int| 0 <= i < s.fields.len() implies fsv_empty(
        #[trigger] default_rec_view(s)[i],
    ) by {
        assert(default_rec_view(s)[i] == empty_fs_view(s.fields[i].shape));
    }
}

/// Parsing an item without matching attributes: the parse-and-merge phase
/// leaves the accumulator untouched, so the pipeline continues from the
/// default record.
pub proof fn lemma_no_occurrences(
    s: SchemaView,
    name: Seq<char>,
    attrs: Seq<Attribute>,
    i: int,
    acc: Seq<FsView>,
)
    requires
        0 <= i,
        forall|j: int| 0 <= j < attrs.len() ==> !path_is_single((#[trigger] attrs[j])@, name),
    ensures
        crate::driver::fold_occurrences(s, name, attrs, i, acc) == Ok::<_, ErrView>(acc),
    decreases attrs.len() - i,
{
    if i < attrs.len() {
        lemma_no_occurrences(s, name, attrs, i + 1, acc);
    }
}

/// Parsing an item without matching attributes succeeds up to validation:
/// with no mandatory field, the presence pass accepts the default record,
/// and since every default container is empty, the nested walk finds
/// nothing to visit either.
pub proof fn lemma_default_record_validates(s: SchemaView, name: Seq<char>, span: Span)
    requires
        forall|i: int| 0 <= i < s.fields.len() ==> (#[trigger] s.fields[i]).shape
            != Shape::Mandatory,
    ensures
        recv_validate(default_rec_view(s), s, name, span) is None,
{
    lemma_default_record_empty(s);
    lemma_provided_passes(default_rec_view(s), s.fields, name, span, 0);
    lemma_nested_walk_passes(default_rec_view(s), s.fields, name, 0);
}

/// The presence pass accepts a record without an absent mandatory cell.
proof fn lemma_provided_passes(
    ms: Seq<FsView>,
    fields: Seq<FieldSchemaView>,
    name: Seq<char>,
    span: Span,
    i: int,
)
    requires
        0 <= i,
        forall|j: int| 0 <= j < ms.len() ==> !((#[trigger] ms[j]) matches FsView::Mand(o) && o
            is None),
    ensures
        validate_provided(ms, fields, name, span, i) is None,
    decreases ms.len() - i,
{
    if 0 <= i < ms.len() {
        lemma_provided_passes(ms, fields, name, span, i + 1);
    }
}

/// The nested walk accepts a record whose containers are all empty.
proof fn lemma_nested_walk_passes(
    ms: Seq<FsView>,
    fields: Seq<FieldSchemaView>,
    name: Seq<char>,
    i: int,
)
    requires
        0 <= i,
        forall|j: int| 0 <= j < ms.len() ==> fsv_empty(#[trigger] ms[j]),
    ensures
        validate_nested_fields(ms, fields, name, i) is None,
    decreases ms.len() - i,
{
    if 0 <= i < ms.len() {
        lemma_nested_walk_passes(ms, fields, name, i + 1);
        if i < fields.len() && fields[i].kind == crate::schema::ArgKind::Nested
            && fields[i].nested is Some {
            match ms[i] {
                FsView::Many(vs) => {
                    assert(vs.len() == 0);
                    assert(crate::engine::validate_nested_values(
                        vs,
                        fields[i].nested->0,
                        crate::engine::nested_attr_name(name, fields[i].names[0]),
                    ) is None);
                },
                _ => {},
            }
        }
    }
}

/// The unique strategy fails exactly on the second equivalent value,
/// whether the two values arrive in the same occurrence (through the
/// apply step) or in different ones (through the merge, which repeats the
/// same step value by value): one application step under
/// `Strategy::Unique` is refused precisely when the field already holds an
/// equivalent value.
pub proof fn lemma_unique_refuses_exactly_duplicates(fs: FsView, v: ArgView)
    ensures
        (fsv_apply(fs, v, Strategy::Unique) is Err) <==> fsv_holds_equiv(fs, v),
        !(fs is Dict) ==> (fsv_apply(fs, v, Strategy::First) is Err) == false,
        !(fs is Dict) ==> (fsv_apply(fs, v, Strategy::Last) is Err) == false,
{
}

/// Whether the field already holds a value equivalent to `v`, under the
/// container's own notion of equivalence; a mapping never holds a plain
/// value.
pub open spec fn fsv_holds_equiv(fs: FsView, v: ArgView) -> bool {
    match fs {
        FsView::Cell(o) => o is Some,
        FsView::Mand(o) => o is Some,
        FsView::Many(s) => avs_has(s, v),
        FsView::Dict(_) => true,
    }
}

/// Whether a sequence field's contents are pairwise non-equivalent, so a
/// unique-strategy merge can take them all.
pub open spec fn avs_distinct(s: Seq<ArgView>) -> bool {
    forall|i: int, j: int|
        0 <= i < j < s.len() ==> !av_equiv(#[trigger] s[i], #[trigger] s[j])
}

/// Whether a mapping field's keys are pairwise non-equivalent.
pub open spec fn dict_distinct(s: Seq<(crate::tokens::NameView, crate::tokens::TokView)>) -> bool {
    forall|i: int, j: int|
        0 <= i < j < s.len() ==> !nv_equiv((#[trigger] s[i]).0, (#[trigger] s[j]).0)
}

/// Merging a field into an empty one hands over its contents, provided
/// they are internally distinct; merging an empty field into another is a
/// no-op. So for two records that never populate the same field, the merge
/// is the same in either order.
pub proof fn lemma_merge_empty_sides(a: FsView, b: FsView, strat: Strategy)
    requires
        crate::engine::fsv_same_shape(a, b),
        fsv_empty(a) || fsv_empty(b),
        a matches FsView::Many(s) ==> avs_distinct(s),
        b matches FsView::Many(s) ==> avs_distinct(s),
        a matches FsView::Dict(s) ==> dict_distinct(s),
        b matches FsView::Dict(s) ==> dict_distinct(s),
    ensures
        fsv_empty(b) ==> fsv_merge(a, b, strat) == Ok::<_, Span>(a),
        fsv_empty(a) ==> fsv_merge(a, b, strat) == Ok::<_, Span>(b),
{
    match (a, b) {
        (FsView::Many(x), FsView::Many(y)) => {
            if fsv_empty(b) {
                assert(avs_apply_all(x, y, strat) == Ok::<_, Span>(x));
            }
            if fsv_empty(a) {
                lemma_avs_all_into_empty(x, y, strat, 0);
                assert(y.skip(0) =~= y);
                assert(x + y =~= y);
            }
        },
        (FsView::Dict(x), FsView::Dict(y)) => {
            if fsv_empty(b) {
                assert(dict_apply_all(x, y, strat) == Ok::<_, Span>(x));
            }
            if fsv_empty(a) {
                lemma_dict_all_into_empty(x, y, strat, 0);
                assert(y.skip(0) =~= y);
                assert(x + y =~= y);
            }
        },
        _ => {},
    }
}

/// Applying distinct values one after another onto a prefix of them
/// appends them all.
proof fn lemma_avs_all_into_empty(acc: Seq<ArgView>, y: Seq<ArgView>, strat: Strategy, i: int)
    requires
        0 <= i <= y.len(),
        acc =~= y.subrange(0, i),
        avs_distinct(y),
    ensures
        avs_apply_all(acc, y.skip(i), strat) == Ok::<_, Span>(y.subrange(0, y.len() as int)),
    decreases y.len() - i,
{
    if i == y.len() {
        assert(y.skip(i) =~= Seq::<ArgView>::empty());
        assert(acc =~= y.subrange(0, y.len() as int));
    } else {
        let v = y[i];
        assert(y.skip(i)[0] == v);
        assert(!avs_has(acc, v)) by {
            if avs_has(acc, v) {
                let w = choose|k: int| 0 <= k < acc.len() && av_equiv(#[trigger] acc[k], v);
                assert(av_equiv(y[w], y[i]));
            }
        }
        assert(avs_step(acc, v, strat) == Ok::<_, Span>(acc.push(v)));
        assert(acc.push(v) =~= y.subrange(0, i + 1));
        assert(y.skip(i).drop_first() =~= y.skip(i + 1));
        lemma_avs_all_into_empty(acc.push(v), y, strat, i + 1);
    }
}

/// Applying distinct entries one after another onto a prefix of them
/// appends them all.
proof fn lemma_dict_all_into_empty(
    acc: Seq<(crate::tokens::NameView, crate::tokens::TokView)>,
    y: Seq<(crate::tokens::NameView, crate::tokens::TokView)>,
    strat: Strategy,
    i: int,
)
    requires
        0 <= i <= y.len(),
        acc =~= y.subrange(0, i),
        dict_distinct(y),
    ensures
        dict_apply_all(acc, y.skip(i), strat) == Ok::<_, Span>(y.subrange(0, y.len() as int)),
    decreases y.len() - i,
{
    if i == y.len() {
        assert(y.skip(i) =~= Seq::<(crate::tokens::NameView, crate::tokens::TokView)>::empty());
        assert(acc =~= y.subrange(0, y.len() as int));
    } else {
        let v = y[i];
        assert(y.skip(i)[0] == v);
        assert(!dict_has(acc, v.0)) by {
            if dict_has(acc, v.0) {
                let w = choose|k: int| 0 <= k < acc.len() && nv_equiv((#[trigger] acc[k]).0, v.0);
                assert(nv_equiv(y[w].0, y[i].0));
            }
        }
        assert(dict_step(acc, v, strat) == Ok::<_, Span>(acc.push(v)));
        assert(acc.push(v) =~= y.subrange(0, i + 1));
        assert(y.skip(i).drop_first() =~= y.skip(i + 1));
        lemma_dict_all_into_empty(acc.push(v), y, strat, i + 1);
    }
}

/// When every field's merge goes through, the record merge goes through,
/// and field by field the result is the per-field merge.
pub proof fn lemma_recv_merge_all_ok(
    a: Seq<FsView>,
    b: Seq<FsView>,
    fields: Seq<FieldSchemaView>,
    i: int,
)
    requires
        0 <= i,
        a.len() == b.len(),
        forall|j: int|
            i <= j < a.len() ==> fsv_merge(#[trigger] a[j], b[j], fields[j].dedup) is Ok,
    ensures
        recv_merge(a, b, fields, i) matches Ok(m) && m.len() == a.len() && (forall|j: int|
            0 <= j < a.len() ==> m[j] == (if i <= j {
                fsv_merge(a[j], b[j], fields[j].dedup)->Ok_0
            } else {
                a[j]
            })),
    decreases a.len() - i,
{
    if 0 <= i < a.len() {
        let m_i = fsv_merge(a[i], b[i], fields[i].dedup)->Ok_0;
        let a2 = a.update(i, m_i);
        assert forall|j: int| i + 1 <= j < a2.len() implies fsv_merge(
            #[trigger] a2[j],
            b[j],
            fields[j].dedup,
        ) is Ok by {
            assert(a2[j] == a[j]);
        }
        lemma_recv_merge_all_ok(a2, b, fields, i + 1);
    }
}

/// Merge order does not matter for records that populate disjoint fields:
/// as long as, field by field, one of the two records is empty and the
/// populated contents are internally distinct, merging in either order
/// yields the same record.
pub proof fn lemma_merge_disjoint_commutes(
    a: Seq<FsView>,
    b: Seq<FsView>,
    fields: Seq<FieldSchemaView>,
)
    requires
        a.len() == b.len(),
        forall|j: int| 0 <= j < a.len() ==> crate::engine::fsv_same_shape(
            #[trigger] a[j],
            b[j],
        ),
        forall|j: int| 0 <= j < a.len() ==> (fsv_empty(#[trigger] a[j]) || fsv_empty(b[j])),
        forall|j: int| 0 <= j < a.len() ==> ((#[trigger] a[j]) matches FsView::Many(s)
            ==> avs_distinct(s)),
        forall|j: int| 0 <= j < b.len() ==> ((#[trigger] b[j]) matches FsView::Many(s)
            ==> avs_distinct(s)),
        forall|j: int| 0 <= j < a.len() ==> ((#[trigger] a[j]) matches FsView::Dict(s)
            ==> dict_distinct(s)),
        forall|j: int| 0 <= j < b.len() ==> ((#[trigger] b[j]) matches FsView::Dict(s)
            ==> dict_distinct(s)),
    ensures
        recv_merge(a, b, fields, 0) == recv_merge(b, a, fields, 0),
{
    assert forall|j: int| 0 <= j < a.len() implies fsv_merge(
        #[trigger] a[j],
        b[j],
        fields[j].dedup,
    ) is Ok && fsv_merge(b[j], a[j], fields[j].dedup) is Ok && fsv_merge(
        a[j],
        b[j],
        fields[j].dedup,
    ) == fsv_merge(b[j], a[j], fields[j].dedup) by {
        lemma_merge_empty_sides(a[j], b[j], fields[j].dedup);
        lemma_merge_empty_sides(b[j], a[j], fields[j].dedup);
    }
    lemma_recv_merge_all_ok(a, b, fields, 0);
    lemma_recv_merge_all_ok(b, a, fields, 0);
    if let (Ok(m1), Ok(m2)) = (recv_merge(a, b, fields, 0), recv_merge(b, a, fields, 0)) {
        assert(m1 =~= m2);
    }
}

} // verus!
