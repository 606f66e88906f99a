//! The crate's model of the token trees an attribute's body is made of.
//!
//! Attribute arguments are handed to the parsing machinery as plain token
//! trees: name tokens, punctuation, literals, and delimited groups. Values
//! compare by their text; the carried locations serve diagnostics only.

use vstd::prelude::*;
use vstd::string::StringExecFns;

use crate::equiv::Equiv;
use crate::spanned::{IntoSpan, Span};

verus! {

/// A name token: an identifier, keywords admitted, possibly written in its
/// raw form.
#[derive(Debug)]
pub struct Name {
    /// The identifier's text, without the raw-form prefix.
    pub text: String,
    /// Whether the identifier was written in raw form (`r#text`).
    pub raw: bool,
    /// Where the identifier was written.
    pub span: Span,
}

/// How a name token renders back to text: its raw-form prefix, if any,
/// followed by its text.
pub open spec fn name_display(n: Name) -> Seq<char> {
    if n.raw {
        "r#"@ + n.text@
    } else {
        n.text@
    }
}

impl Name {
    /// Creates a non-raw name token.
    pub fn new(text: String, span: Span) -> (n: Name)
        ensures
            n.text == text,
            !n.raw,
            n.span == span,
    {
        Name { text, raw: false, span }
    }

    /// This name with any raw-form prefix stripped.
    pub fn unraw(self) -> (n: Name)
        ensures
            n.text == self.text,
            !n.raw,
            n.span == self.span,
    {
        Name { raw: false, ..self }
    }

    /// The name as written: its raw-form prefix, if any, followed by its
    /// text.
    pub fn display_text(&self) -> (r: String)
        ensures
            r@ == name_display(*self),
    {
        if self.raw {
            String::from_str("r#").concat(self.text.as_str())
        } else {
            self.text.clone()
        }
    }
}

impl Clone for Name {
    /// A clone of a name token is the very same value.
    fn clone(&self) -> (r: Self)
        ensures
            r == *self,
    {
        Name { text: self.text.clone(), raw: self.raw, span: self.span }
    }
}

/// What a name token holds, for specifications: its text, rawness and
/// location.
pub struct NameView {
    /// The identifier's text.
    pub text: Seq<char>,
    /// Whether the identifier was written in raw form.
    pub raw: bool,
    /// Where the identifier was written.
    pub span: Span,
}

impl View for Name {
    type V = NameView;

    open spec fn view(&self) -> NameView {
        NameView { text: self.text@, raw: self.raw, span: self.span }
    }
}

/// Whether two name views are the same identifier: same text and same
/// rawness, locations ignored.
pub open spec fn nv_equiv(a: NameView, b: NameView) -> bool {
    a.text == b.text && a.raw == b.raw
}

/// Whether two name tokens are the same identifier: same text and same
/// rawness, locations ignored.
pub open spec fn name_equiv(a: Name, b: Name) -> bool {
    nv_equiv(a@, b@)
}

impl Equiv for Name {
    open spec fn equiv_spec(&self, other: &Self) -> bool {
        name_equiv(*self, *other)
    }

    fn equiv(&self, other: &Self) -> bool {
        self.text == other.text && self.raw == other.raw
    }
}

impl IntoSpan for Name {
    open spec fn span_of_spec(&self) -> Span {
        self.span
    }

    fn into_span(&self) -> Span {
        self.span
    }
}

/// The delimiter wrapping a token group.
#[derive(Clone, Copy, Debug, PartialEq, Eq, Structural)]
pub enum Delim {
    /// `( ... )`
    Paren,
    /// `[ ... ]`
    Bracket,
    /// `{ ... }`
    Brace,
}

/// One tree of the token stream an attribute's body is made of.
#[derive(Debug)]
#[verifier::ext_equal]
pub enum TokenTree {
    /// A name token (an identifier, keywords admitted).
    Ident(Name),
    /// A punctuation character, such as `=` or `,`.
    Punct {
        /// The punctuation character itself.
        ch: char,
        /// Where it was written.
        span: Span,
    },
    /// A literal token, carried as its source text.
    Lit {
        /// The literal's source text, quotes and suffixes included.
        text: String,
        /// Where it was written.
        span: Span,
    },
    /// A delimited group of token trees.
    Group {
        /// The wrapping delimiter.
        delim: Delim,
        /// The token trees inside the delimiters.
        tokens: Vec<TokenTree>,
        /// Where the group was written.
        span: Span,
    },
}

/// What a token tree holds, for specifications. It mirrors [`TokenTree`]
/// with mathematical contents, so that two trees carrying the same text at
/// the same locations have equal views.
pub enum TokView {
    /// A name token.
    Ident(NameView),
    /// A punctuation character.
    Punct {
        /// The punctuation character itself.
        ch: char,
        /// Where it was written.
        span: Span,
    },
    /// A literal token.
    Lit {
        /// The literal's source text.
        text: Seq<char>,
        /// Where it was written.
        span: Span,
    },
    /// A delimited group of token trees.
    Group {
        /// The wrapping delimiter.
        delim: Delim,
        /// The views of the token trees inside the delimiters.
        tokens: Seq<TokView>,
        /// Where the group was written.
        span: Span,
    },
}

/// The view of one token tree.
pub open spec fn tt_view(t: TokenTree) -> TokView
    decreases t,
{
    match t {
        TokenTree::Ident(n) => TokView::Ident(n@),
        TokenTree::Punct { ch, span } => TokView::Punct { ch, span },
        TokenTree::Lit { text, span } => TokView::Lit { text: text@, span },
        TokenTree::Group { delim, tokens, span } => TokView::Group {
            delim,
            tokens: tts_view(tokens@),
            span,
        },
    }
}

/// The views of a sequence of token trees, in order.
pub open spec fn tts_view(s: Seq<TokenTree>) -> Seq<TokView>
    decreases s,
{
    if s.len() == 0 {
        Seq::empty()
    } else {
        seq![tt_view(s[0])] + tts_view(s.drop_first())
    }
}

/// [`tts_view`] maps the sequence element by element.
pub proof fn lemma_tts_view(s: Seq<TokenTree>)
    ensures
        tts_view(s).len() == s.len(),
        forall|i: int| 0 <= i < s.len() ==> tts_view(s)[i] == tt_view(#[trigger] s[i]),
    decreases s,
{
    if s.len() > 0 {
        lemma_tts_view(s.drop_first());
        assert(forall|i: int| 1 <= i < s.len() ==> s.drop_first()[i - 1] == #[trigger] s[i]);
    }
}

impl View for TokenTree {
    type V = TokView;

    open spec fn view(&self) -> TokView {
        tt_view(*self)
    }
}

impl Clone for TokenTree {
    /// A clone of a token tree carries the same text at the same locations:
    /// the views coincide.
    #[verifier::loop_isolation(false)]
    fn clone(&self) -> (r: Self)
        ensures
            r@ == self@,
        decreases *self,
    {
        match self {
            TokenTree::Ident(n) => TokenTree::Ident(n.clone()),
            TokenTree::Punct { ch, span } => TokenTree::Punct { ch: *ch, span: *span },
            TokenTree::Lit { text, span } => TokenTree::Lit { text: text.clone(), span: *span },
            TokenTree::Group { delim, tokens, span } => {
                let n = tokens.len();
                let mut inner: Vec<TokenTree> = Vec::new();
                let mut i: usize = 0;
                while i < n
                    invariant
                        n == tokens@.len(),
                        i <= n,
                        inner@.len() == i,
                        forall|j: int| 0 <= j < i ==> (#[trigger] inner@[j])@ == tokens@[j]@,
                    decreases n - i,
                {
                    proof {
                        assert(decreases_to!(*self => (*self)->tokens@[i as int]));
                        assert((*self)->tokens@[i as int] == tokens@[i as int]);
                    }
                    inner.push(tokens[i].clone());
                    i += 1;
                }
                let out = TokenTree::Group { delim: *delim, tokens: inner, span: *span };
                proof {
                    lemma_tts_view(inner@);
                    lemma_tts_view(tokens@);
                    assert forall|k: int| 0 <= k < tts_view(inner@).len() implies tts_view(
                        inner@,
                    )[k] == tts_view(tokens@)[k] by {
                        assert(inner@[k]@ == tokens@[k]@);
                    }
                    assert(tts_view(inner@) =~= tts_view(tokens@));
                }
                out
            },
        }
    }
}

/// Whether two token views carry the same text, locations ignored.
pub open spec fn tv_equiv(a: TokView, b: TokView) -> bool
    decreases a,
{
    match (a, b) {
        (TokView::Ident(x), TokView::Ident(y)) => nv_equiv(x, y),
        (TokView::Punct { ch: c1, .. }, TokView::Punct { ch: c2, .. }) => c1 == c2,
        (TokView::Lit { text: t1, .. }, TokView::Lit { text: t2, .. }) => t1 == t2,
        (
            TokView::Group { delim: d1, tokens: t1, .. },
            TokView::Group { delim: d2, tokens: t2, .. },
        ) => d1 == d2 && t1.len() == t2.len() && (forall|i: int|
            0 <= i < t1.len() ==> tv_equiv(#[trigger] t1[i], t2[i])),
        _ => false,
    }
}

/// Whether two token trees carry the same text, locations ignored.
pub open spec fn tt_equiv(a: TokenTree, b: TokenTree) -> bool {
    tv_equiv(a@, b@)
}

/// Returns whether two token trees carry the same text, locations ignored.
#[verifier::loop_isolation(false)]
pub fn tt_eq(a: &TokenTree, b: &TokenTree) -> (r: bool)
    ensures
        r == tt_equiv(*a, *b),
    decreases *a,
{
    match (a, b) {
        (TokenTree::Ident(x), TokenTree::Ident(y)) => x.equiv(y),
        (TokenTree::Punct { ch: c1, .. }, TokenTree::Punct { ch: c2, .. }) => *c1 == *c2,
        (TokenTree::Lit { text: t1, .. }, TokenTree::Lit { text: t2, .. }) => *t1 == *t2,
        (
            TokenTree::Group { delim: d1, tokens: t1, .. },
            TokenTree::Group { delim: d2, tokens: t2, .. },
        ) => {
            proof {
                lemma_tts_view(t1@);
                lemma_tts_view(t2@);
            }
            if *d1 != *d2 {
                return false;
            }
            if t1.len() != t2.len() {
                return false;
            }
            let n = t1.len();
            let mut i: usize = 0;
            while i < n
                invariant
                    n == t1@.len(),
                    n == t2@.len(),
                    i <= n,
                    forall|j: int| 0 <= j < i ==> tt_equiv(#[trigger] t1@[j], t2@[j]),
                decreases n - i,
            {
                proof {
                    assert(decreases_to!(*a => (*a)->tokens@[i as int]));
                    assert((*a)->tokens@[i as int] == t1@[i as int]);
                }
                if !tt_eq(&t1[i], &t2[i]) {
                    proof {
                        assert(!tv_equiv(tts_view(t1@)[i as int], tts_view(t2@)[i as int]));
                    }
                    return false;
                }
                i += 1;
            }
            proof {
                assert forall|k: int| 0 <= k < tts_view(t1@).len() implies tv_equiv(
                    tts_view(t1@)[k],
                    tts_view(t2@)[k],
                ) by {
                    assert(tt_equiv(t1@[k], t2@[k]));
                }
            }
            true
        },
        _ => false,
    }
}

impl Equiv for TokenTree {
    open spec fn equiv_spec(&self, other: &Self) -> bool {
        tt_equiv(*self, *other)
    }

    fn equiv(&self, other: &Self) -> bool {
        tt_eq(self, other)
    }
}

impl IntoSpan for TokenTree {
    open spec fn span_of_spec(&self) -> Span {
        match *self {
            TokenTree::Ident(n) => n.span,
            TokenTree::Punct { span, .. } => span,
            TokenTree::Lit { span, .. } => span,
            TokenTree::Group { span, .. } => span,
        }
    }

    fn into_span(&self) -> Span {
        match self {
            TokenTree::Ident(n) => n.span,
            TokenTree::Punct { span, .. } => *span,
            TokenTree::Lit { span, .. } => *span,
            TokenTree::Group { span, .. } => *span,
        }
    }
}

} // verus!
