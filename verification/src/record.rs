//! The dynamic configuration record the parsing machinery fills: one
//! container per field, as described by a [`crate::schema::Schema`].

use vstd::prelude::*;

use crate::equiv::Equiv;
use crate::ordmap::OrdMap;
use crate::required::Required;
use crate::spanned::{IntoSpan, Span, Spanning};
use crate::tokens::{nv_equiv, tt_eq, tv_equiv, NameView, TokView, TokenTree};
use crate::tokens::Name;

verus! {

/// One parsed argument value, as a field's container stores it.
#[derive(Debug)]
pub enum ArgValue {
    /// A bare name argument.
    Ident(Name),
    /// A value argument: one token tree.
    Tok(TokenTree),
    /// A nested record, carrying the location of the argument name it was
    /// written behind.
    Nested(Spanning<Record>),
}

/// The state of one field of a dynamic record.
#[derive(Debug)]
pub enum FieldState {
    /// An optional cell.
    Cell(Option<ArgValue>),
    /// A mandatory cell.
    Mand(Required<ArgValue>),
    /// An ordered sequence.
    Many(Vec<ArgValue>),
    /// A key-value mapping.
    Dict(OrdMap<Name, TokenTree>),
}

/// A dynamic configuration record: one container per field, in the order of
/// the describing schema's fields.
#[derive(Debug)]
pub struct Record {
    /// The fields' states, in schema order.
    pub fields: Vec<FieldState>,
}

/// What an [`ArgValue`] holds, for specifications.
pub enum ArgView {
    /// A bare name argument.
    Ident(NameView),
    /// A value argument: one token tree.
    Tok(TokView),
    /// A nested record and the location of the argument name it was written
    /// behind.
    Nested {
        /// The location of the argument name.
        span: Span,
        /// The nested record's fields.
        fields: Seq<FsView>,
    },
}

/// What a [`FieldState`] holds, for specifications.
pub enum FsView {
    /// An optional cell.
    Cell(Option<ArgView>),
    /// A mandatory cell.
    Mand(Option<ArgView>),
    /// An ordered sequence.
    Many(Seq<ArgView>),
    /// A key-value mapping.
    Dict(Seq<(NameView, TokView)>),
}

/// The view of one parsed argument value.
pub open spec fn arg_view(v: ArgValue) -> ArgView
    decreases v,
{
    match v {
        ArgValue::Ident(n) => ArgView::Ident(n@),
        ArgValue::Tok(t) => ArgView::Tok(t@),
        ArgValue::Nested(sp) => ArgView::Nested {
            span: sp.span,
            fields: fss_view(sp.item.fields@),
        },
    }
}

/// The views of a sequence of argument values, in order.
pub open spec fn args_view(s: Seq<ArgValue>) -> Seq<ArgView>
    decreases s,
{
    if s.len() == 0 {
        Seq::empty()
    } else {
        seq![arg_view(s[0])] + args_view(s.drop_first())
    }
}

/// The views of a sequence of mapping entries, in order.
pub open spec fn pairs_view(s: Seq<(Name, TokenTree)>) -> Seq<(NameView, TokView)>
    decreases s,
{
    if s.len() == 0 {
        Seq::empty()
    } else {
        seq![(s[0].0@, s[0].1@)] + pairs_view(s.drop_first())
    }
}

/// The view of one field state.
pub open spec fn fs_view(fs: FieldState) -> FsView
    decreases fs,
{
    match fs {
        FieldState::Cell(o) => FsView::Cell(
            match o {
                Option::Some(v) => Some(arg_view(v)),
                Option::None => None,
            },
        ),
        FieldState::Mand(r) => FsView::Mand(
            match r.value {
                Option::Some(v) => Some(arg_view(v)),
                Option::None => None,
            },
        ),
        FieldState::Many(v) => FsView::Many(args_view(v@)),
        FieldState::Dict(m) => FsView::Dict(pairs_view(m.entries_spec())),
    }
}

/// The views of a sequence of field states, in order.
pub open spec fn fss_view(s: Seq<FieldState>) -> Seq<FsView>
    decreases s,
{
    if s.len() == 0 {
        Seq::empty()
    } else {
        seq![fs_view(s[0])] + fss_view(s.drop_first())
    }
}

/// The view of a whole record: its fields' views in order.
pub open spec fn rec_view(r: Record) -> Seq<FsView> {
    fss_view(r.fields@)
}

impl View for Record {
    type V = Seq<FsView>;

    open spec fn view(&self) -> Seq<FsView> {
        rec_view(*self)
    }
}

/// [`args_view`] maps the sequence element by element.
pub proof fn lemma_args_view(s: Seq<ArgValue>)
    ensures
        args_view(s).len() == s.len(),
        forall|i: int| 0 <= i < s.len() ==> args_view(s)[i] == arg_view(#[trigger] s[i]),
    decreases s,
{
    if s.len() > 0 {
        lemma_args_view(s.drop_first());
        assert(forall|i: int| 1 <= i < s.len() ==> s.drop_first()[i - 1] == #[trigger] s[i]);
    }
}

/// [`pairs_view`] maps the sequence element by element.
pub proof fn lemma_pairs_view(s: Seq<(Name, TokenTree)>)
    ensures
        pairs_view(s).len() == s.len(),
        forall|i: int|
            0 <= i < s.len() ==> pairs_view(s)[i] == ((#[trigger] s[i]).0@, s[i].1@),
    decreases s,
{
    if s.len() > 0 {
        lemma_pairs_view(s.drop_first());
        assert(forall|i: int| 1 <= i < s.len() ==> s.drop_first()[i - 1] == #[trigger] s[i]);
    }
}

/// [`fss_view`] maps the sequence element by element.
pub proof fn lemma_fss_view(s: Seq<FieldState>)
    ensures
        fss_view(s).len() == s.len(),
        forall|i: int| 0 <= i < s.len() ==> fss_view(s)[i] == fs_view(#[trigger] s[i]),
    decreases s,
{
    if s.len() > 0 {
        lemma_fss_view(s.drop_first());
        assert(forall|i: int| 1 <= i < s.len() ==> s.drop_first()[i - 1] == #[trigger] s[i]);
    }
}

/// Whether two argument-value views are equivalent: the same argument,
/// locations ignored.
pub open spec fn av_equiv(a: ArgView, b: ArgView) -> bool
    decreases a,
{
    match (a, b) {
        (ArgView::Ident(x), ArgView::Ident(y)) => nv_equiv(x, y),
        (ArgView::Tok(t), ArgView::Tok(u)) => tv_equiv(t, u),
        (ArgView::Nested { fields: f1, .. }, ArgView::Nested { fields: f2, .. }) => f1.len()
            == f2.len() && (forall|i: int| 0 <= i < f1.len() ==> fsv_equiv(#[trigger] f1[i], f2[i])),
        _ => false,
    }
}

/// Whether two field-state views are equivalent: the same contents,
/// locations ignored.
pub open spec fn fsv_equiv(a: FsView, b: FsView) -> bool
    decreases a,
{
    match (a, b) {
        (FsView::Cell(x), FsView::Cell(y)) => match (x, y) {
            (Option::Some(u), Option::Some(v)) => av_equiv(u, v),
            (Option::None, Option::None) => true,
            _ => false,
        },
        (FsView::Mand(x), FsView::Mand(y)) => match (x, y) {
            (Option::Some(u), Option::Some(v)) => av_equiv(u, v),
            (Option::None, Option::None) => true,
            _ => false,
        },
        (FsView::Many(x), FsView::Many(y)) => x.len() == y.len() && (forall|i: int|
            0 <= i < x.len() ==> av_equiv(#[trigger] x[i], y[i])),
        (FsView::Dict(x), FsView::Dict(y)) => x.len() == y.len() && (forall|i: int|
            0 <= i < x.len() ==> nv_equiv((#[trigger] x[i]).0, y[i].0) && tv_equiv(x[i].1, y[i].1)),
        _ => false,
    }
}

/// Returns whether two argument values are equivalent.
#[verifier::loop_isolation(false)]
pub fn av_eq(a: &ArgValue, b: &ArgValue) -> (r: bool)
    ensures
        r == av_equiv(arg_view(*a), arg_view(*b)),
    decreases *a,
{
    match (a, b) {
        (ArgValue::Ident(x), ArgValue::Ident(y)) => x.equiv(y),
        (ArgValue::Tok(t), ArgValue::Tok(u)) => tt_eq(t, u),
        (ArgValue::Nested(s1), ArgValue::Nested(s2)) => rec_eq(&s1.item, &s2.item),
        _ => false,
    }
}

/// Returns whether two records are equivalent: the same parsed contents,
/// field by field, locations ignored.
#[verifier::loop_isolation(false)]
pub fn rec_eq(a: &Record, b: &Record) -> (r: bool)
    ensures
        r == (rec_view(*a).len() == rec_view(*b).len() && (forall|i: int|
            0 <= i < rec_view(*a).len() ==> fsv_equiv(#[trigger] rec_view(*a)[i], rec_view(*b)[i]))),
    decreases *a,
{
    proof {
        lemma_fss_view(a.fields@);
        lemma_fss_view(b.fields@);
    }
    if a.fields.len() != b.fields.len() {
        return false;
    }
    let n = a.fields.len();
    let mut i: usize = 0;
    while i < n
        invariant
            i <= n,
            forall|j: int| 0 <= j < i ==> fsv_equiv(#[trigger] rec_view(*a)[j], rec_view(*b)[j]),
        decreases n - i,
    {
        proof {
            assert(decreases_to!(*a => a.fields@[i as int]));
        }
        if !fs_eq(&a.fields[i], &b.fields[i]) {
            return false;
        }
        i += 1;
    }
    true
}

/// Returns whether two field states are equivalent.
#[verifier::loop_isolation(false)]
pub fn fs_eq(a: &FieldState, b: &FieldState) -> (r: bool)
    ensures
        r == fsv_equiv(fs_view(*a), fs_view(*b)),
    decreases *a,
{
    match (a, b) {
        (FieldState::Cell(x), FieldState::Cell(y)) => match (x, y) {
            (Some(u), Some(v)) => av_eq(u, v),
            (None, None) => true,
            _ => false,
        },
        (FieldState::Mand(x), FieldState::Mand(y)) => match (&x.value, &y.value) {
            (Some(u), Some(v)) => av_eq(u, v),
            (None, None) => true,
            _ => false,
        },
        (FieldState::Many(x), FieldState::Many(y)) => {
            proof {
                lemma_args_view(x@);
                lemma_args_view(y@);
            }
            if x.len() != y.len() {
                return false;
            }
            let n = x.len();
            let mut i: usize = 0;
            while i < n
                invariant
                    i <= n,
                    forall|j: int|
                        0 <= j < i ==> av_equiv(
                            #[trigger] args_view(x@)[j],
                            args_view(y@)[j],
                        ),
                decreases n - i,
            {
                proof {
                    assert(decreases_to!(*a => x@[i as int]));
                }
                if !av_eq(&x[i], &y[i]) {
                    return false;
                }
                i += 1;
            }
            true
        },
        (FieldState::Dict(x), FieldState::Dict(y)) => {
            proof {
                lemma_pairs_view(x.entries_spec());
                lemma_pairs_view(y.entries_spec());
            }
            let xe = x.entries();
            let ye = y.entries();
            if xe.len() != ye.len() {
                return false;
            }
            let n = xe.len();
            let mut i: usize = 0;
            while i < n
                invariant
                    i <= n,
                    forall|j: int|
                        0 <= j < i ==> nv_equiv(
                            (#[trigger] pairs_view(x.entries_spec())[j]).0,
                            pairs_view(y.entries_spec())[j].0,
                        ) && tv_equiv(
                            pairs_view(x.entries_spec())[j].1,
                            pairs_view(y.entries_spec())[j].1,
                        ),
                decreases n - i,
            {
                if !(xe[i].0.equiv(&ye[i].0) && tt_eq(&xe[i].1, &ye[i].1)) {
                    return false;
                }
                i += 1;
            }
            true
        },
        _ => false,
    }
}

impl Equiv for ArgValue {
    open spec fn equiv_spec(&self, other: &Self) -> bool {
        av_equiv(arg_view(*self), arg_view(*other))
    }

    fn equiv(&self, other: &Self) -> bool {
        av_eq(self, other)
    }
}

impl IntoSpan for ArgValue {
    open spec fn span_of_spec(&self) -> Span {
        match *self {
            ArgValue::Ident(n) => n.span,
            ArgValue::Tok(t) => t.span_of_spec(),
            ArgValue::Nested(sp) => sp.span,
        }
    }

    fn into_span(&self) -> Span {
        match self {
            ArgValue::Ident(n) => n.span,
            ArgValue::Tok(t) => t.into_span(),
            ArgValue::Nested(sp) => sp.span,
        }
    }
}

} // verus!
