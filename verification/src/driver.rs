//! The whole pipeline: filter the item's attributes by name, parse each
//! matching occurrence, fold the records with the merge, run the fallback
//! pass, and validate the result.

use vstd::prelude::*;

use crate::attr::{attrs_view, doc_entries, doc_not_namevalue_text, doc_not_strlit_text,
    path_is_single, AttrBody, Attribute};
use crate::engine::{
    default_rec_view, doc_opt, needs_doc, rec_fb_rel, rec_shapes_ok, recv_merge, recv_validate,
};
use crate::err::{dup_attr_arg_text, ErrView, Error};
use crate::parse::{occ_parse, parse_occurrence};
use crate::record::{rec_view, FsView, Record};
use crate::schema::{schema_wf, Schema, SchemaView};
use crate::spanned::Span;

verus! {

/// Text of the diagnostic for a matching attribute whose body is not a
/// parenthesized argument list.
pub open spec fn expected_args_text() -> Seq<char> {
    "expected attribute arguments in parentheses"@
}

/// Where a diagnostic about a whole attribute points: at its path's first
/// segment.
pub open spec fn attr_span(a: Attribute) -> Span {
    if a.path@.len() > 0 {
        a.path@[0].span
    } else {
        Span { lo: 0, hi: 0 }
    }
}

/// The parse-and-merge phase: every attribute whose path is the single
/// segment `name` is parsed as one occurrence and merged into the
/// accumulator, occurrences in order; the first diagnostic aborts.
pub open spec fn fold_occurrences(
    s: SchemaView,
    name: Seq<char>,
    attrs: Seq<Attribute>,
    i: int,
    acc: Seq<FsView>,
) -> Result<Seq<FsView>, ErrView>
    decreases attrs.len() - i,
{
    if i < 0 || i >= attrs.len() {
        Ok(acc)
    } else if path_is_single(attrs[i]@, name) {
        match attrs[i].body {
            AttrBody::List(toks) => match occ_parse(s, toks@, 0, default_rec_view(s)) {
                Ok(occ) => match recv_merge(acc, occ, s.fields, 0) {
                    Ok(merged) => fold_occurrences(s, name, attrs, i + 1, merged),
                    Err(sp) => Err(ErrView { span: sp, message: dup_attr_arg_text() }),
                },
                Err(e) => Err(e),
            },
            _ => Err(ErrView { span: attr_span(attrs[i]), message: expected_args_text() }),
        }
    } else {
        fold_occurrences(s, name, attrs, i + 1, acc)
    }
}

/// Parses the configuration record described by `schema` from the
/// attributes named `name` among `attrs`, the full pipeline: parse each
/// occurrence, merge, fall back, validate.
///
/// With no matching occurrence the result is the default record, modulo the
/// fallback and the validation: if no field is mandatory and no fallback
/// diagnostic arises, it is returned as is.
#[verifier::loop_isolation(false)]
pub fn parse_attrs(schema: &Schema, name: &str, attrs: &Vec<Attribute>, item_span: Span) -> (r:
    Result<Record, Error>)
    requires
        schema_wf(schema@),
    ensures
        fold_occurrences(schema@, name@, attrs@, 0, default_rec_view(schema@)) matches Err(ev)
            ==> (r matches Err(e) && e@ == ev),
        fold_occurrences(schema@, name@, attrs@, 0, default_rec_view(schema@)) matches Ok(m) ==> {
            let doc = doc_entries(attrs_view(attrs@));
            &&& (doc matches Ok(entries) ==> pipeline_tail(
                m,
                schema@,
                name@,
                item_span,
                doc_opt(entries),
                r,
            ))
            &&& (doc matches Err(bad) ==> (if needs_doc(m, schema@) {
                r matches Err(e) && e@.span == bad.0 && e@.message == (if bad.1 {
                    doc_not_strlit_text()
                } else {
                    doc_not_namevalue_text()
                })
            } else {
                pipeline_tail(m, schema@, name@, item_span, None, r)
            }))
        },
{
    let ghost dflt = default_rec_view(schema@);
    let n = attrs.len();
    let mut acc = Record::default_for(schema);
    proof {
        assert forall|j: int| 0 <= j < dflt.len() implies crate::engine::fsv_shape_ok(
            dflt[j],
            schema@.fields[j].shape,
        ) by {
            assert(dflt[j] == crate::engine::empty_fs_view(schema@.fields[j].shape));
        }
    }
    let mut i: usize = 0;
    while i < n
        invariant
            i <= n,
            n == attrs@.len(),
            rec_shapes_ok(rec_view(acc), schema@),
            fold_occurrences(schema@, name@, attrs@, 0, dflt) == fold_occurrences(
                schema@,
                name@,
                attrs@,
                i as int,
                rec_view(acc),
            ),
        decreases n - i,
    {
        let a = &attrs[i];
        if a.path_eq_single(name) {
            match &a.body {
                AttrBody::List(toks) => {
                    let occ = match parse_occurrence(schema, toks) {
                        Ok(occ) => occ,
                        Err(e) => {
                            return Err(e);
                        },
                    };
                    let ghost accv = rec_view(acc);
                    let ghost occv = rec_view(occ);
                    acc = match acc.try_merge(schema, occ) {
                        Ok(merged) => merged,
                        Err(e) => {
                            return Err(e);
                        },
                    };
                    proof {
                        lemma_recv_merge_keeps_shape(accv, occv, schema@.fields, 0);
                        assert forall|j: int|
                            0 <= j < rec_view(acc).len() implies crate::engine::fsv_shape_ok(
                            #[trigger] rec_view(acc)[j],
                            schema@.fields[j].shape,
                        ) by {
                            assert(crate::engine::fsv_same_shape(accv[j], rec_view(acc)[j]));
                            assert(crate::engine::fsv_shape_ok(accv[j], schema@.fields[j].shape));
                        }
                    }

                },
                AttrBody::Path => {
                    proof {
                        crate::attr::lemma_names_view(a.path@);
                    }
                    return Err(
                        Error {
                            span: attr_err_span(a),
                            message: <String as vstd::string::StringExecFns>::from_str(
                                "expected attribute arguments in parentheses",
                            ),
                        },
                    );
                },
                AttrBody::NameValue(_) => {
                    proof {
                        crate::attr::lemma_names_view(a.path@);
                    }
                    return Err(
                        Error {
                            span: attr_err_span(a),
                            message: <String as vstd::string::StringExecFns>::from_str(
                                "expected attribute arguments in parentheses",
                            ),
                        },
                    );
                },
            }
        }
        i += 1;
    }
    let merged = acc;
    let ghost m = rec_view(merged);
    let rec = match merged.fallback(schema, attrs) {
        Ok(rec) => rec,
        Err(e) => {
            return Err(e);
        },
    };
    match rec.validate(schema, name, item_span) {
        Ok(()) => Ok(rec),
        Err(e) => Err(e),
    }
}

/// What holds of the pipeline's outcome once the merged record `m` is
/// known and the `doc` text is settled: the fallback pass relates `m` to an
/// intermediate record, and validation decides between that record and its
/// first diagnostic.
pub open spec fn pipeline_tail(
    m: Seq<FsView>,
    s: SchemaView,
    name: Seq<char>,
    item_span: Span,
    doc: Option<(Seq<char>, Span)>,
    r: Result<Record, Error>,
) -> bool {
    ||| (r matches Ok(rec) && rec_fb_rel(m, rec_view(rec), s, doc) && recv_validate(
        rec_view(rec),
        s,
        name,
        item_span,
    ) is None)
    ||| (r matches Err(e) && exists|mid: Seq<FsView>|
        rec_fb_rel(m, mid, s, doc) && recv_validate(mid, s, name, item_span) == Some(e@))
}

/// Where a diagnostic about a whole attribute points, executably.
fn attr_err_span(a: &Attribute) -> (r: Span)
    ensures
        r == attr_span(*a),
{
    if a.path.len() > 0 {
        a.path[0].span
    } else {
        Span::call_site()
    }
}

/// Merging records keeps every field's container variant.
pub proof fn lemma_recv_merge_keeps_shape(
    a: Seq<FsView>,
    b: Seq<FsView>,
    fields: Seq<crate::schema::FieldSchemaView>,
    i: int,
)
    requires
        0 <= i,
    ensures
        recv_merge(a, b, fields, i) matches Ok(m) ==> m.len() == a.len() && (forall|j: int|
            0 <= j < a.len() ==> crate::engine::fsv_same_shape(#[trigger] a[j], m[j])),
    decreases a.len() - i,
{
    if 0 <= i < a.len() {
        if let Ok(fs2) = crate::engine::fsv_merge(a[i], b[i], fields[i].dedup) {
            assert(crate::engine::fsv_same_shape(a[i], fs2));
            lemma_recv_merge_keeps_shape(a.update(i, fs2), b, fields, i + 1);
            if let Ok(m) = recv_merge(a, b, fields, i) {
                assert(recv_merge(a.update(i, fs2), b, fields, i + 1) == Ok::<_, Span>(m));
                assert forall|j: int|
                    0 <= j < a.len() implies crate::engine::fsv_same_shape(
                    #[trigger] a[j],
                    m[j],
                ) by {
                    assert(crate::engine::fsv_same_shape(a.update(i, fs2)[j], m[j]));
                    if j != i {
                        assert(a.update(i, fs2)[j] == a[j]);
                    }
                }
            }
        }
    }
}

} // verus!
