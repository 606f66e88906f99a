//! Parsing one attribute occurrence's body into a record, as the record's
//! description directs: a loop of "read an argument name, route it to the
//! field that recognizes it, parse the argument's body by the field's kind,
//! deposit the value, expect a comma before the next argument".

use vstd::prelude::*;

use crate::cursor::{
    expected_eq_text, expected_ident_text, expected_parentheses_text, ident_err_span, is_comma,
    is_next_group, next_is_group, next_is_ident, next_is_punct, parse_any_ident, parse_eq,
    parse_punctuated, punct_elems, try_parse_punct,
};
use crate::dedup::Strategy;
use crate::engine::{
    apply_pair_to_field, apply_value_to_field, default_rec_view, dictv_apply, fsv_apply,
};
use crate::err::{dup_attr_arg_text, expected_followed_by_comma_text, unknown_attr_arg_text,
    ErrView, Error};
use crate::record::{
    arg_view, fs_view, fss_view, lemma_fss_view, rec_view, ArgValue, ArgView, FieldState, FsView,
    Record,
};
use crate::schema::{field_for_name, schema_wf, ArgKind, Schema, SchemaView};
use crate::spanned::{Span, Spanning};
use crate::tokens::{name_display, tt_view, Delim, Name, TokenTree};

verus! {

/// The size of one token tree: the tree itself and everything inside its
/// groups.
pub open spec fn tt_size(t: TokenTree) -> nat
    decreases t,
{
    match t {
        TokenTree::Group { tokens, .. } => 1 + tts_size(tokens@),
        _ => 1,
    }
}

/// The total size of a sequence of token trees.
pub open spec fn tts_size(s: Seq<TokenTree>) -> nat
    decreases s,
{
    if s.len() == 0 {
        0
    } else {
        tt_size(s[0]) + tts_size(s.drop_first())
    }
}

/// Sizes add over splitting off the first `i` trees, and every tree counts
/// at least one.
pub proof fn lemma_tts_size_split(s: Seq<TokenTree>, i: int)
    requires
        0 <= i <= s.len(),
    ensures
        tts_size(s) == tts_size(s.subrange(0, i)) + tts_size(s.subrange(i, s.len() as int)),
        tts_size(s.subrange(0, i)) >= i,
    decreases i,
{
    if i == 0 {
        assert(s.subrange(0, 0) =~= Seq::<TokenTree>::empty());
        assert(s.subrange(0, s.len() as int) =~= s);
    } else {
        lemma_tts_size_split(s.drop_first(), i - 1);
        assert(s.subrange(0, i).drop_first() =~= s.drop_first().subrange(0, i - 1));
        assert(s.subrange(0, i)[0] == s[0]);
        assert(s.subrange(i, s.len() as int) =~= s.drop_first().subrange(
            i - 1,
            s.drop_first().len() as int,
        ));
        assert(tt_size(s[0]) >= 1);
    }
}

/// The size of the suffix from `pos` on, the measure the parser's
/// recursion decreases.
pub open spec fn suffix_size(toks: Seq<TokenTree>, pos: int) -> nat {
    tts_size(toks.subrange(pos, toks.len() as int))
}

/// Moving the position forward strictly shrinks the suffix.
pub proof fn lemma_suffix_shrinks(toks: Seq<TokenTree>, pos: int, pos2: int)
    requires
        0 <= pos < pos2 <= toks.len(),
    ensures
        suffix_size(toks, pos2) < suffix_size(toks, pos),
{
    let tail = toks.subrange(pos, toks.len() as int);
    lemma_tts_size_split(tail, pos2 - pos);
    assert(tail.subrange(pos2 - pos, tail.len() as int) =~= toks.subrange(
        pos2,
        toks.len() as int,
    ));
}

/// A group's contents are smaller than the suffix its group token starts.
pub proof fn lemma_group_smaller(toks: Seq<TokenTree>, pos: int)
    requires
        0 <= pos < toks.len(),
        toks[pos] is Group,
    ensures
        tts_size(toks[pos]->Group_tokens@) < suffix_size(toks, pos),
{
    let tail = toks.subrange(pos, toks.len() as int);
    lemma_tts_size_split(tail, 1);
    assert(tail.subrange(0, 1)[0] == toks[pos]);
    assert(tts_size(tail.subrange(0, 1)) == tt_size(toks[pos]) + tts_size(
        tail.subrange(0, 1).drop_first(),
    ));
    assert(tail.subrange(0, 1).drop_first() =~= Seq::<TokenTree>::empty());
}

/// The key an argument name is routed by: the identifier as written, its
/// raw-form prefix included.
pub open spec fn route_key(n: Name) -> Seq<char> {
    name_display(n)
}

/// Depositing a list of parsed value elements into a field, in order; the
/// first refusal aborts with the offending element's location.
pub open spec fn apply_elems(fs: FsView, elems: Seq<TokenTree>, i: int, strat: Strategy) -> Result<
    FsView,
    Span,
>
    decreases elems.len() - i,
{
    if i < 0 || i >= elems.len() {
        Ok(fs)
    } else {
        match fsv_apply(fs, ArgView::Tok(tt_view(elems[i])), strat) {
            Ok(fs2) => apply_elems(fs2, elems, i + 1, strat),
            Err(sp) => Err(sp),
        }
    }
}


/// Depositing a list of elements never changes a field's container
/// variant.
pub proof fn lemma_apply_elems_shape(fs: FsView, elems: Seq<TokenTree>, i: int, strat: Strategy)
    ensures
        apply_elems(fs, elems, i, strat) matches Ok(o) ==> crate::engine::fsv_same_shape(fs, o),
    decreases elems.len() - i,
{
    if 0 <= i < elems.len() {
        if let Ok(fs2) = fsv_apply(fs, ArgView::Tok(tt_view(elems[i])), strat) {
            crate::engine::lemma_fsv_apply_shape(fs, ArgView::Tok(tt_view(elems[i])), strat);
            lemma_apply_elems_shape(fs2, elems, i + 1, strat);
        }
    }
}

/// One "value deposited, continue" step: after field `f` took its value
/// and the cursor stands at `newpos`, a comma is consumed before the next
/// argument; a missing comma before more input is refused at the argument
/// name's location.
pub open spec fn after_arg(
    toks: Seq<TokenTree>,
    name: crate::tokens::Name,
    newpos: int,
) -> Result<int, ErrView> {
    if newpos < toks.len() {
        if is_comma(toks[newpos]) {
            Ok(newpos + 1)
        } else {
            Err(ErrView { span: name.span, message: expected_followed_by_comma_text() })
        }
    } else {
        Ok(newpos)
    }
}

/// What parsing one occurrence's body from position `pos` on, into the
/// record state `rec`, yields: the filled record, or the first diagnostic.
/// One argument is handled per step: read a name, route it, parse the
/// body by the field's kind, deposit, expect a comma.
pub open spec fn occ_parse(
    s: SchemaView,
    toks: Seq<TokenTree>,
    pos: int,
    rec: Seq<FsView>,
) -> Result<Seq<FsView>, ErrView>
    decreases suffix_size(toks, pos),
    when 0 <= pos
    via occ_parse_dec
{
    if pos >= toks.len() {
        Ok(rec)
    } else if !next_is_ident(toks, pos) {
        Err(ErrView { span: ident_err_span(toks, pos), message: expected_ident_text(false) })
    } else {
        let name = toks[pos]->Ident_0;
        match field_for_name(s, route_key(name)) {
            Option::None => Err(
                ErrView { span: name.span, message: unknown_attr_arg_text(route_key(name)) },
            ),
            Option::Some(f) => {
                let fld = s.fields[f];
                let strat = fld.dedup;
                match fld.kind {
                    ArgKind::Ident => {
                        match fsv_apply(rec[f], ArgView::Ident(name@), strat) {
                            Ok(fs2) => match after_arg(toks, name, pos + 1) {
                                Ok(np) => occ_parse(s, toks, np, rec.update(f, fs2)),
                                Err(e) => Err(e),
                            },
                            Err(sp) => Err(ErrView { span: sp, message: dup_attr_arg_text() }),
                        }
                    },
                    ArgKind::Nested => {
                        if !next_is_group(toks, pos + 1, Delim::Paren) {
                            Err(
                                ErrView {
                                    span: ident_err_span(toks, pos + 1),
                                    message: expected_parentheses_text(pos + 1 >= toks.len()),
                                },
                            )
                        } else {
                            let inner = toks[pos + 1]->Group_tokens@;
                            let sub = fld.nested->0;
                            match occ_parse(sub, inner, 0, default_rec_view(sub)) {
                                Ok(fields) => {
                                    let v = ArgView::Nested { span: name.span, fields };
                                    match fsv_apply(rec[f], v, strat) {
                                        Ok(fs2) => match after_arg(toks, name, pos + 2) {
                                            Ok(np) => occ_parse(s, toks, np, rec.update(f, fs2)),
                                            Err(e) => Err(e),
                                        },
                                        Err(sp) => Err(
                                            ErrView { span: sp, message: dup_attr_arg_text() },
                                        ),
                                    }
                                },
                                Err(e) => Err(e),
                            }
                        }
                    },
                    ArgKind::Value { spaced } => {
                        if next_is_group(toks, pos + 1, Delim::Paren) {
                            let inner = toks[pos + 1]->Group_tokens@;
                            match punct_elems(inner, 0) {
                                Ok(elems) => {
                                    match apply_elems(rec[f], elems, 0, strat) {
                                        Ok(fs2) => match after_arg(toks, name, pos + 2) {
                                            Ok(np) => occ_parse(s, toks, np, rec.update(f, fs2)),
                                            Err(e) => Err(e),
                                        },
                                        Err(sp) => Err(
                                            ErrView { span: sp, message: dup_attr_arg_text() },
                                        ),
                                    }
                                },
                                Err(e) => Err(e),
                            }
                        } else if spaced {
                            if pos + 1 >= toks.len() {
                                Err(
                                    ErrView {
                                        span: Span { lo: 0, hi: 0 },
                                        message: unexpected_end_text(),
                                    },
                                )
                            } else {
                                match fsv_apply(
                                    rec[f],
                                    ArgView::Tok(tt_view(toks[pos + 1])),
                                    strat,
                                ) {
                                    Ok(fs2) => match after_arg(toks, name, pos + 2) {
                                        Ok(np) => occ_parse(s, toks, np, rec.update(f, fs2)),
                                        Err(e) => Err(e),
                                    },
                                    Err(sp) => Err(
                                        ErrView { span: sp, message: dup_attr_arg_text() },
                                    ),
                                }
                            }
                        } else {
                            if !next_is_punct(toks, pos + 1, '=') {
                                Err(
                                    ErrView {
                                        span: ident_err_span(toks, pos + 1),
                                        message: expected_eq_text(),
                                    },
                                )
                            } else if pos + 2 >= toks.len() {
                                Err(
                                    ErrView {
                                        span: Span { lo: 0, hi: 0 },
                                        message: unexpected_end_text(),
                                    },
                                )
                            } else {
                                match fsv_apply(
                                    rec[f],
                                    ArgView::Tok(tt_view(toks[pos + 2])),
                                    strat,
                                ) {
                                    Ok(fs2) => match after_arg(toks, name, pos + 3) {
                                        Ok(np) => occ_parse(s, toks, np, rec.update(f, fs2)),
                                        Err(e) => Err(e),
                                    },
                                    Err(sp) => Err(
                                        ErrView { span: sp, message: dup_attr_arg_text() },
                                    ),
                                }
                            }
                        }
                    },
                    ArgKind::Pairs => {
                        if !next_is_ident(toks, pos + 1) {
                            Err(
                                ErrView {
                                    span: ident_err_span(toks, pos + 1),
                                    message: expected_ident_text(pos + 1 >= toks.len()),
                                },
                            )
                        } else {
                            let key = toks[pos + 1]->Ident_0;
                            if !next_is_punct(toks, pos + 2, '=') {
                                Err(
                                    ErrView {
                                        span: ident_err_span(toks, pos + 2),
                                        message: expected_eq_text(),
                                    },
                                )
                            } else if pos + 3 >= toks.len() {
                                Err(
                                    ErrView {
                                        span: Span { lo: 0, hi: 0 },
                                        message: unexpected_end_text(),
                                    },
                                )
                            } else {
                                match dictv_apply(rec[f], key@, tt_view(toks[pos + 3]), strat) {
                                    Ok(fs2) => match after_arg(toks, name, pos + 4) {
                                        Ok(np) => occ_parse(s, toks, np, rec.update(f, fs2)),
                                        Err(e) => Err(e),
                                    },
                                    Err(sp) => Err(
                                        ErrView { span: sp, message: dup_attr_arg_text() },
                                    ),
                                }
                            }
                        }
                    },
                }
            },
        }
    }
}

/// Text of the diagnostic for a value missing at the end of the input.
pub open spec fn unexpected_end_text() -> Seq<char> {
    "unexpected end of input"@
}

#[via_fn]
proof fn occ_parse_dec(s: SchemaView, toks: Seq<TokenTree>, pos: int, rec: Seq<FsView>) {
    if 0 <= pos < toks.len() {
        assert forall|np: int| pos < np <= toks.len() implies suffix_size(toks, np)
            < suffix_size(toks, pos) by {
            lemma_suffix_shrinks(toks, pos, np);
        }
        if next_is_group(toks, pos + 1, Delim::Paren) {
            lemma_group_smaller(toks, pos + 1);
            lemma_suffix_shrinks(toks, pos, pos + 1);
            let inner = toks[pos + 1]->Group_tokens@;
            assert(inner.subrange(0, inner.len() as int) =~= inner);
            assert(suffix_size(inner, 0) == tts_size(inner));
        }
    }
}


/// Removes field `f`'s state for in-place update and hands it back.
#[verifier::loop_isolation(false)]
fn take_field(rec: &mut Record, f: usize) -> (fs: FieldState)
    requires
        f < old(rec)@.len(),
        old(rec)@.len() == old(rec).fields@.len(),
    ensures
        fs_view(fs) == rec_view(*old(rec))[f as int],
        fs == old(rec).fields@[f as int],
        final(rec).fields@.len() == old(rec).fields@.len() - 1,
        final(rec).fields@ == old(rec).fields@.remove(f as int),
{
    proof {
        lemma_fss_view(rec.fields@);
    }
    rec.fields.remove(f)
}

/// Puts field `f`'s updated state back; the record's view is the old one
/// with position `f` updated.
#[verifier::loop_isolation(false)]
fn put_field(rec: &mut Record, f: usize, fs: FieldState, Ghost(orig): Ghost<Seq<FieldState>>)
    requires
        f < old(rec).fields@.len() + 1,
        old(rec).fields@ == orig.remove(f as int),
        f < orig.len(),
    ensures
        rec_view(*final(rec)) == fss_view(orig).update(f as int, fs_view(fs)),
        final(rec).fields@.len() == orig.len(),
{
    proof {
        lemma_fss_view(orig);
        lemma_fss_view(rec.fields@);
    }
    rec.fields.insert(f, fs);
    proof {
        lemma_fss_view(rec.fields@);
        assert(rec.fields@ =~= orig.update(f as int, fs));
        assert forall|j: int| 0 <= j < orig.len() implies fss_view(rec.fields@)[j] == fss_view(
            orig,
        ).update(f as int, fs_view(fs))[j] by {
            assert(rec.fields@[j] == if j == f as int {
                fs
            } else {
                orig[j]
            });
        }
        assert(fss_view(rec.fields@) =~= fss_view(orig).update(f as int, fs_view(fs)));
    }
}

/// Parses one attribute occurrence's body into a fresh record, as the
/// description directs: every recognized argument is routed to its field
/// and deposited under the field's kind and deduplication strategy.
#[verifier::loop_isolation(false)]
pub fn parse_occurrence(schema: &Schema, tokens: &Vec<TokenTree>) -> (r: Result<Record, Error>)
    requires
        schema_wf(schema@),
    ensures
        occ_parse(schema@, tokens@, 0, default_rec_view(schema@)) matches Ok(m) ==> (r matches Ok(
            rec,
        ) && rec_view(rec) == m),
        occ_parse(schema@, tokens@, 0, default_rec_view(schema@)) matches Err(ev) ==> (r matches
            Err(e) && e@ == ev),
        r matches Ok(out) ==> crate::engine::rec_shapes_ok(rec_view(out), schema@),
    decreases tts_size(tokens@), 3nat,
{
    let rec = Record::default_for(schema);
    proof {
        assert(tokens@.subrange(0, tokens@.len() as int) =~= tokens@);
        assert forall|j: int|
            0 <= j < default_rec_view(schema@).len() implies crate::engine::fsv_shape_ok(
            default_rec_view(schema@)[j],
            schema@.fields[j].shape,
        ) by {
            assert(default_rec_view(schema@)[j] == crate::engine::empty_fs_view(
                schema@.fields[j].shape,
            ));
        }
    }
    parse_args(schema, tokens, 0, rec)
}

/// The argument loop: parses arguments from position `pos` on into `rec`.
#[verifier::loop_isolation(false)]
#[verifier::rlimit(100)]
fn parse_args(schema: &Schema, tokens: &Vec<TokenTree>, pos: usize, rec: Record) -> (r: Result<
    Record,
    Error,
>)
    requires
        schema_wf(schema@),
        pos <= tokens@.len(),
        crate::engine::rec_shapes_ok(rec_view(rec), schema@),
    ensures
        occ_parse(schema@, tokens@, pos as int, rec_view(rec)) matches Ok(m) ==> (r matches Ok(
            out,
        ) && rec_view(out) == m),
        occ_parse(schema@, tokens@, pos as int, rec_view(rec)) matches Err(ev) ==> (r matches Err(
            e,
        ) && e@ == ev),
        r matches Ok(out) ==> crate::engine::rec_shapes_ok(rec_view(out), schema@),
    decreases suffix_size(tokens@, pos as int), 2nat,
{
    let ghost rv = rec_view(rec);
    let n = tokens.len();
    if pos >= n {
        return Ok(rec);
    }
    let (name, p1) = match parse_any_ident(tokens, pos) {
        Ok(p) => p,
        Err(e) => {
            return Err(e);
        },
    };
    let ghost orig_name = tokens@[pos as int]->Ident_0;
    proof {
        assert(name@ == orig_name@);
        assert(name.span == orig_name.span);
        assert(name_display(name) == name_display(orig_name));
    }
    let key = name.display_text();
    let f = match schema.field_for(&key) {
        Some(f) => f,
        None => {
            return Err(crate::err::unknown_attr_arg(name.span, key.as_str()));
        },
    };
    proof {
        crate::schema::lemma_field_for_range(schema@.fields, name_display(orig_name), 0);
        assert(0 <= f < schema@.fields.len());
        assert(crate::schema::field_wf_shallow(schema@.fields[f as int]));
        lemma_fss_view(rec.fields@);
        crate::schema::lemma_fields_view(schema.fields@);
        assert(rec_view(rec).len() == schema@.fields.len());
        assert(f < rec.fields@.len());
        assert(f < schema.fields@.len());
    }
    let fsch = &schema.fields[f];
    let strat = fsch.dedup;
    let nspan = name.span;
    let mut rec = rec;
    let ghost fview = rv[f as int];
    match fsch.kind {
        ArgKind::Ident => parse_ident_arg(schema, tokens, pos, f, name, nspan, Ghost(orig_name), rec),
        ArgKind::Nested => parse_nested_arg(schema, tokens, pos, f, nspan, Ghost(orig_name), rec),
        ArgKind::Value { spaced } => parse_value_arg(
            schema,
            tokens,
            pos,
            f,
            spaced,
            nspan,
            Ghost(orig_name),
            rec,
        ),
        ArgKind::Pairs => parse_pairs_arg(schema, tokens, pos, f, nspan, Ghost(orig_name), rec),
    }
}

/// Parses a bare-name argument: the name token itself is the value.
#[verifier::loop_isolation(false)]
#[verifier::rlimit(100)]
fn parse_ident_arg(
    schema: &Schema,
    tokens: &Vec<TokenTree>,
    pos: usize,
    f: usize,
    name: Name,
    nspan: Span,
    Ghost(orig_name): Ghost<Name>,
    rec: Record,
) -> (r: Result<Record, Error>)
    requires
        schema_wf(schema@),
        pos < tokens@.len(),
        next_is_ident(tokens@, pos as int),
        orig_name == tokens@[pos as int]->Ident_0,
        nspan == orig_name.span,
        0 <= f < schema@.fields.len(),
        f < schema.fields@.len(),
        field_for_name(schema@, route_key(orig_name)) == Some(f as int),
        crate::engine::rec_shapes_ok(rec_view(rec), schema@),
        rec@.len() == rec.fields@.len(),
        f < rec.fields@.len(),
        name@ == orig_name@,
        schema@.fields[f as int].kind == ArgKind::Ident,
    ensures
        occ_parse(schema@, tokens@, pos as int, rec_view(rec)) matches Ok(m) ==> (r matches Ok(
            out,
        ) && rec_view(out) == m),
        occ_parse(schema@, tokens@, pos as int, rec_view(rec)) matches Err(ev) ==> (r matches Err(
            e,
        ) && e@ == ev),
        r matches Ok(out) ==> crate::engine::rec_shapes_ok(rec_view(out), schema@),
    decreases suffix_size(tokens@, pos as int), 1nat,
{
    proof {
        crate::schema::lemma_fields_view(schema.fields@);
        assert(schema@.fields[f as int] == crate::schema::field_schema_view(
            schema.fields@[f as int],
        ));
        assert(crate::schema::field_wf_shallow(schema@.fields[f as int]));
        lemma_fss_view(rec.fields@);
    }
    let ghost rv = rec_view(rec);
    let ghost fview = rv[f as int];
    let strat = schema.fields[f].dedup;
    let n = tokens.len();
    let mut rec = rec;
    let ghost orig_fields = rec.fields@;
    let mut fs = take_field(&mut rec, f);
    proof {
        assert(fss_view(orig_fields) == rv);
    }
    proof {
        assert(!(fs is Dict));
    }
    match apply_value_to_field(&mut fs, ArgValue::Ident(name), strat) {
        Ok(()) => {
            proof {
                crate::engine::lemma_fsv_apply_shape(
                    fview,
                    ArgView::Ident(orig_name@),
                    strat,
                );
            }
        },
        Err(e) => {
            return Err(e);
        },
    }
    let ghost nfsv = fs_view(fs);
    put_field(&mut rec, f, fs, Ghost(orig_fields));
    proof {
        assert forall|j: int|
            0 <= j < rec_view(rec).len() implies crate::engine::fsv_shape_ok(
            #[trigger] rec_view(rec)[j],
            schema@.fields[j].shape,
        ) by {
            if j != f as int {
                assert(rec_view(rec)[j] == rv[j]);
            } else {
                assert(rec_view(rec)[j] == nfsv);
            }
        }
    }
    continue_args(schema, tokens, pos, pos + 1, nspan, Ghost(orig_name), rec)
}

/// Parses a nested argument: the parenthesized body after the name is
/// parsed as the nested record.
#[verifier::loop_isolation(false)]
#[verifier::rlimit(100)]
fn parse_nested_arg(
    schema: &Schema,
    tokens: &Vec<TokenTree>,
    pos: usize,
    f: usize,
    nspan: Span,
    Ghost(orig_name): Ghost<Name>,
    rec: Record,
) -> (r: Result<Record, Error>)
    requires
        schema_wf(schema@),
        pos < tokens@.len(),
        next_is_ident(tokens@, pos as int),
        orig_name == tokens@[pos as int]->Ident_0,
        nspan == orig_name.span,
        0 <= f < schema@.fields.len(),
        f < schema.fields@.len(),
        field_for_name(schema@, route_key(orig_name)) == Some(f as int),
        crate::engine::rec_shapes_ok(rec_view(rec), schema@),
        rec@.len() == rec.fields@.len(),
        f < rec.fields@.len(),
        schema@.fields[f as int].kind == ArgKind::Nested,
    ensures
        occ_parse(schema@, tokens@, pos as int, rec_view(rec)) matches Ok(m) ==> (r matches Ok(
            out,
        ) && rec_view(out) == m),
        occ_parse(schema@, tokens@, pos as int, rec_view(rec)) matches Err(ev) ==> (r matches Err(
            e,
        ) && e@ == ev),
        r matches Ok(out) ==> crate::engine::rec_shapes_ok(rec_view(out), schema@),
    decreases suffix_size(tokens@, pos as int), 1nat,
{
    proof {
        crate::schema::lemma_fields_view(schema.fields@);
        assert(schema@.fields[f as int] == crate::schema::field_schema_view(
            schema.fields@[f as int],
        ));
        assert(crate::schema::field_wf_shallow(schema@.fields[f as int]));
        lemma_fss_view(rec.fields@);
    }
    let ghost rv = rec_view(rec);
    let ghost fview = rv[f as int];
    let strat = schema.fields[f].dedup;
    let fsch = &schema.fields[f];
    let n = tokens.len();
    let mut rec = rec;
    if !is_next_group(tokens, pos + 1, Delim::Paren) {
        if pos + 1 < n {
            return Err(
                Error {
                    span: crate::spanned::IntoSpan::into_span(&tokens[pos + 1]),
                    message: <String as vstd::string::StringExecFns>::from_str("expected parentheses"),
                },
            );
        } else {
            return Err(
                Error {
                    span: Span::call_site(),
                    message: <String as vstd::string::StringExecFns>::from_str(
                        "unexpected end of input, expected parentheses",
                    ),
                },
            );
        }
    }
    let sub: &Schema = match &fsch.nested {
        Some(b) => b,
        None => {
            proof {
                assert(false);
            }
            return Ok(rec);
        },
    };
    proof {
        assert(sub@ == schema@.fields[f as int].nested->0);
        assert(schema_wf(sub@));
        lemma_group_smaller(tokens@, pos + 1);
        lemma_suffix_shrinks(tokens@, pos as int, pos + 1);
    }
    let inner_rec = match &tokens[pos + 1] {
        TokenTree::Group { tokens: inner, .. } => {
            proof {
                assert(decreases_to!(tokens@ => tokens@[pos + 1]));
            }
            match parse_occurrence(sub, inner) {
                Ok(rec2) => rec2,
                Err(e) => {
                    return Err(e);
                },
            }
        },
        _ => {
            proof {
                assert(false);
            }
            return Ok(rec);
        },
    };
    let value = ArgValue::Nested(Spanning { span: nspan, item: inner_rec });
    let ghost orig_fields = rec.fields@;
    let mut fs = take_field(&mut rec, f);
    proof {
        assert(fss_view(orig_fields) == rv);
        assert(!(fs is Dict));
    }
    let ghost valv = arg_view(value);
    match apply_value_to_field(&mut fs, value, strat) {
        Ok(()) => {
            proof {
                crate::engine::lemma_fsv_apply_shape(fview, valv, strat);
            }
        },
        Err(e) => {
            return Err(e);
        },
    }
    let ghost nfsv = fs_view(fs);
    put_field(&mut rec, f, fs, Ghost(orig_fields));
    proof {
        assert forall|j: int|
            0 <= j < rec_view(rec).len() implies crate::engine::fsv_shape_ok(
            #[trigger] rec_view(rec)[j],
            schema@.fields[j].shape,
        ) by {
            if j != f as int {
                assert(rec_view(rec)[j] == rv[j]);
            } else {
                assert(rec_view(rec)[j] == nfsv);
            }
        }
    }
    continue_args(schema, tokens, pos, pos + 2, nspan, Ghost(orig_name), rec)
}

/// Parses a value argument: `= value`, a parenthesized value list, or — in
/// the spaced sub-mode — one value standing right after the name.
#[verifier::loop_isolation(false)]
#[verifier::rlimit(100)]
fn parse_value_arg(
    schema: &Schema,
    tokens: &Vec<TokenTree>,
    pos: usize,
    f: usize,
    spaced: bool,
    nspan: Span,
    Ghost(orig_name): Ghost<Name>,
    rec: Record,
) -> (r: Result<Record, Error>)
    requires
        schema_wf(schema@),
        pos < tokens@.len(),
        next_is_ident(tokens@, pos as int),
        orig_name == tokens@[pos as int]->Ident_0,
        nspan == orig_name.span,
        0 <= f < schema@.fields.len(),
        f < schema.fields@.len(),
        field_for_name(schema@, route_key(orig_name)) == Some(f as int),
        crate::engine::rec_shapes_ok(rec_view(rec), schema@),
        rec@.len() == rec.fields@.len(),
        f < rec.fields@.len(),
        schema@.fields[f as int].kind == (ArgKind::Value { spaced }),
    ensures
        occ_parse(schema@, tokens@, pos as int, rec_view(rec)) matches Ok(m) ==> (r matches Ok(
            out,
        ) && rec_view(out) == m),
        occ_parse(schema@, tokens@, pos as int, rec_view(rec)) matches Err(ev) ==> (r matches Err(
            e,
        ) && e@ == ev),
        r matches Ok(out) ==> crate::engine::rec_shapes_ok(rec_view(out), schema@),
    decreases suffix_size(tokens@, pos as int), 1nat,
{
    proof {
        crate::schema::lemma_fields_view(schema.fields@);
        assert(schema@.fields[f as int] == crate::schema::field_schema_view(
            schema.fields@[f as int],
        ));
        assert(crate::schema::field_wf_shallow(schema@.fields[f as int]));
        lemma_fss_view(rec.fields@);
    }
    let ghost rv = rec_view(rec);
    let ghost fview = rv[f as int];
    let strat = schema.fields[f].dedup;
    let n = tokens.len();
    let mut rec = rec;
    if is_next_group(tokens, pos + 1, Delim::Paren) {
        let ghost inner_toks = tokens@[pos + 1]->Group_tokens@;
        let elems = match &tokens[pos + 1] {
            TokenTree::Group { tokens: inner, .. } => {
                match parse_punctuated(inner) {
                    Ok(v) => v,
                    Err(e) => {
                        return Err(e);
                    },
                }
            },
            _ => {
                proof {
                    assert(false);
                }
                return Ok(rec);
            },
        };
        let ghost selems = match punct_elems(inner_toks, 0) {
            Ok(es) => es,
            Err(_) => Seq::empty(),
        };
        let ghost orig_fields = rec.fields@;
        let mut fs = take_field(&mut rec, f);
        proof {
            assert(fss_view(orig_fields) == rv);
            assert(!(fs is Dict));
        }
        let m = elems.len();
        let mut rest = elems;
        let mut j: usize = 0;
        while j < m
            invariant
                j <= m,
                rest@.len() == m - j,
                m == selems.len(),
                forall|k: int| 0 <= k < m - j ==> (#[trigger] rest@[k])@ == selems[j + k]@,
                !(fs is Dict),
                apply_elems(fview, selems, 0, strat) == apply_elems(
                    fs_view(fs),
                    selems,
                    j as int,
                    strat,
                ),
            decreases m - j,
        {
            let ghost rpre = rest@;
            let v = rest.remove(0);
            proof {
                assert(rest@ =~= rpre.drop_first());
                assert(v@ == selems[j as int]@);
                assert(ArgView::Tok(v@) == ArgView::Tok(tt_view(selems[j as int])));
            }
            let ghost pre_fs = fs_view(fs);
            match apply_value_to_field(&mut fs, ArgValue::Tok(v), strat) {
                Ok(()) => {
                    proof {
                        if let Ok(fs2) = fsv_apply(
                            pre_fs,
                            ArgView::Tok(tt_view(selems[j as int])),
                            strat,
                        ) {
                            assert(fs_view(fs) == fs2);
                            assert(!(fs is Dict));
                        }
                    }
                    j += 1;
                },
                Err(e) => {
                    return Err(e);
                },
            }
        }
        let ghost nfsv = fs_view(fs);
        proof {
            lemma_apply_elems_shape(fview, selems, 0, strat);
        }
        put_field(&mut rec, f, fs, Ghost(orig_fields));
        proof {
            assert forall|j: int|
                0 <= j < rec_view(rec).len() implies crate::engine::fsv_shape_ok(
                #[trigger] rec_view(rec)[j],
                schema@.fields[j].shape,
            ) by {
                if j != f as int {
                    assert(rec_view(rec)[j] == rv[j]);
                } else {
                    assert(rec_view(rec)[j] == nfsv);
                }
            }
        }
        continue_args(schema, tokens, pos, pos + 2, nspan, Ghost(orig_name), rec)
    } else if spaced {
        if pos + 1 >= n {
            return Err(
                Error {
                    span: Span::call_site(),
                    message: <String as vstd::string::StringExecFns>::from_str("unexpected end of input"),
                },
            );
        }
        let v = tokens[pos + 1].clone();
        let ghost orig_fields = rec.fields@;
        let mut fs = take_field(&mut rec, f);
        proof {
            assert(fss_view(orig_fields) == rv);
            assert(!(fs is Dict));
            assert(ArgView::Tok(v@) == ArgView::Tok(tt_view(tokens@[pos + 1])));
        }
        let ghost vv = ArgView::Tok(v@);
        match apply_value_to_field(&mut fs, ArgValue::Tok(v), strat) {
            Ok(()) => {
                proof {
                    crate::engine::lemma_fsv_apply_shape(fview, vv, strat);
                }
            },
            Err(e) => {
                return Err(e);
            },
        }
        let ghost nfsv = fs_view(fs);
        put_field(&mut rec, f, fs, Ghost(orig_fields));
        proof {
            assert forall|j: int|
                0 <= j < rec_view(rec).len() implies crate::engine::fsv_shape_ok(
                #[trigger] rec_view(rec)[j],
                schema@.fields[j].shape,
            ) by {
                if j != f as int {
                    assert(rec_view(rec)[j] == rv[j]);
                } else {
                    assert(rec_view(rec)[j] == nfsv);
                }
            }
        }
        continue_args(schema, tokens, pos, pos + 2, nspan, Ghost(orig_name), rec)
    } else {
        match parse_eq(tokens, pos + 1) {
            Ok(_) => {},
            Err(e) => {
                return Err(e);
            },
        }
        if pos + 2 >= n {
            return Err(
                Error {
                    span: Span::call_site(),
                    message: <String as vstd::string::StringExecFns>::from_str("unexpected end of input"),
                },
            );
        }
        let v = tokens[pos + 2].clone();
        let ghost orig_fields = rec.fields@;
        let mut fs = take_field(&mut rec, f);
        proof {
            assert(fss_view(orig_fields) == rv);
            assert(!(fs is Dict));
            assert(ArgView::Tok(v@) == ArgView::Tok(tt_view(tokens@[pos + 2])));
        }
        let ghost vv = ArgView::Tok(v@);
        match apply_value_to_field(&mut fs, ArgValue::Tok(v), strat) {
            Ok(()) => {
                proof {
                    crate::engine::lemma_fsv_apply_shape(fview, vv, strat);
                }
            },
            Err(e) => {
                return Err(e);
            },
        }
        let ghost nfsv = fs_view(fs);
        put_field(&mut rec, f, fs, Ghost(orig_fields));
        proof {
            assert forall|j: int|
                0 <= j < rec_view(rec).len() implies crate::engine::fsv_shape_ok(
                #[trigger] rec_view(rec)[j],
                schema@.fields[j].shape,
            ) by {
                if j != f as int {
                    assert(rec_view(rec)[j] == rv[j]);
                } else {
                    assert(rec_view(rec)[j] == nfsv);
                }
            }
        }
        continue_args(schema, tokens, pos, pos + 3, nspan, Ghost(orig_name), rec)
    }
}

/// Parses a `key = value` argument of a mapping field.
#[verifier::loop_isolation(false)]
#[verifier::rlimit(100)]
fn parse_pairs_arg(
    schema: &Schema,
    tokens: &Vec<TokenTree>,
    pos: usize,
    f: usize,
    nspan: Span,
    Ghost(orig_name): Ghost<Name>,
    rec: Record,
) -> (r: Result<Record, Error>)
    requires
        schema_wf(schema@),
        pos < tokens@.len(),
        next_is_ident(tokens@, pos as int),
        orig_name == tokens@[pos as int]->Ident_0,
        nspan == orig_name.span,
        0 <= f < schema@.fields.len(),
        f < schema.fields@.len(),
        field_for_name(schema@, route_key(orig_name)) == Some(f as int),
        crate::engine::rec_shapes_ok(rec_view(rec), schema@),
        rec@.len() == rec.fields@.len(),
        f < rec.fields@.len(),
        schema@.fields[f as int].kind == ArgKind::Pairs,
    ensures
        occ_parse(schema@, tokens@, pos as int, rec_view(rec)) matches Ok(m) ==> (r matches Ok(
            out,
        ) && rec_view(out) == m),
        occ_parse(schema@, tokens@, pos as int, rec_view(rec)) matches Err(ev) ==> (r matches Err(
            e,
        ) && e@ == ev),
        r matches Ok(out) ==> crate::engine::rec_shapes_ok(rec_view(out), schema@),
    decreases suffix_size(tokens@, pos as int), 1nat,
{
    proof {
        crate::schema::lemma_fields_view(schema.fields@);
        assert(schema@.fields[f as int] == crate::schema::field_schema_view(
            schema.fields@[f as int],
        ));
        assert(crate::schema::field_wf_shallow(schema@.fields[f as int]));
        lemma_fss_view(rec.fields@);
    }
    let ghost rv = rec_view(rec);
    let ghost fview = rv[f as int];
    let strat = schema.fields[f].dedup;
    let n = tokens.len();
    let mut rec = rec;
    let (keyname, _p2) = match parse_any_ident(tokens, pos + 1) {
        Ok(p) => p,
        Err(e) => {
            return Err(e);
        },
    };
    proof {
        assert(keyname@ == tokens@[pos + 1]->Ident_0@);
        assert(keyname.span == tokens@[pos + 1]->Ident_0.span);
    }
    match parse_eq(tokens, pos + 2) {
        Ok(_) => {},
        Err(e) => {
            return Err(e);
        },
    }
    if pos + 3 >= n {
        return Err(
            Error {
                span: Span::call_site(),
                message: <String as vstd::string::StringExecFns>::from_str("unexpected end of input"),
            },
        );
    }
    let v = tokens[pos + 3].clone();
    let ghost orig_fields = rec.fields@;
    let mut fs = take_field(&mut rec, f);
    proof {
        assert(fss_view(orig_fields) == rv);
        assert(fs is Dict);
    }
    let ghost kv = keyname@;
    let ghost vv = v@;
    match apply_pair_to_field(&mut fs, keyname, v, strat) {
        Ok(()) => {
            proof {
                crate::engine::lemma_dictv_apply_shape(fview, kv, vv, strat);
            }
        },
        Err(e) => {
            return Err(e);
        },
    }
    let ghost nfsv = fs_view(fs);
    put_field(&mut rec, f, fs, Ghost(orig_fields));
    proof {
        assert forall|j: int|
            0 <= j < rec_view(rec).len() implies crate::engine::fsv_shape_ok(
            #[trigger] rec_view(rec)[j],
            schema@.fields[j].shape,
        ) by {
            if j != f as int {
                assert(rec_view(rec)[j] == rv[j]);
            } else {
                assert(rec_view(rec)[j] == nfsv);
            }
        }
    }
    continue_args(schema, tokens, pos, pos + 4, nspan, Ghost(orig_name), rec)
}

/// After one argument was deposited: consumes the comma separating it from
/// the next one, or finishes at the end of the body; more input without a
/// comma is refused at the argument name's location.
#[verifier::loop_isolation(false)]
fn continue_args(
    schema: &Schema,
    tokens: &Vec<TokenTree>,
    pos: usize,
    newpos: usize,
    name_span: Span,
    Ghost(orig_name): Ghost<Name>,
    rec: Record,
) -> (r: Result<Record, Error>)
    requires
        schema_wf(schema@),
        pos < newpos <= tokens@.len(),
        name_span == orig_name.span,
        crate::engine::rec_shapes_ok(rec_view(rec), schema@),
    ensures
        ({
            let cont = match after_arg(tokens@, orig_name, newpos as int) {
                Ok(np) => occ_parse(schema@, tokens@, np, rec_view(rec)),
                Err(e) => Err(e),
            };
            &&& cont matches Ok(m) ==> (r matches Ok(out) && rec_view(out) == m)
            &&& cont matches Err(ev) ==> (r matches Err(e) && e@ == ev)
        }),
        r matches Ok(out) ==> crate::engine::rec_shapes_ok(rec_view(out), schema@),
    decreases suffix_size(tokens@, pos as int), 0nat,
{
    let n = tokens.len();
    if newpos < n {
        match try_parse_punct(tokens, newpos, ',') {
            Some(np2) => {
                proof {
                    lemma_suffix_shrinks(tokens@, pos as int, np2 as int);
                }
                parse_args(schema, tokens, np2, rec)
            },
            None => Err(crate::err::expected_followed_by_comma(name_span)),
        }
    } else {
        Ok(rec)
    }
}

} // verus!
