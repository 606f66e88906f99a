//! The crate's model of attributes attached to a declaration, and the stock
//! extraction of documentation text from the well-known `doc` attributes.

use vstd::prelude::*;
use vstd::string::{StrSliceExecFns, StringExecFns};

use crate::err::Error;
use crate::spanned::{Span, Spanning};
use crate::tokens::{tts_view, Name, NameView, TokView, TokenTree};

verus! {

/// The expression standing to the right of `=` in a `name = value`
/// attribute, as far as this crate looks at it.
#[derive(Debug)]
pub enum AttrExpr {
    /// A string literal, carried as its decoded contents.
    Str {
        /// The literal's decoded contents, quotes stripped and escapes
        /// resolved.
        text: String,
        /// Where the literal was written.
        span: Span,
    },
    /// A literal of any other sort.
    OtherLit {
        /// Where the literal was written.
        span: Span,
    },
    /// Any other expression.
    Other {
        /// Where the expression was written.
        span: Span,
    },
}

/// The body of one attribute occurrence.
#[derive(Debug)]
pub enum AttrBody {
    /// A bare `#[name]`.
    Path,
    /// A delimited argument list: `#[name(...)]`.
    List(Vec<TokenTree>),
    /// A `#[name = value]` binding.
    NameValue(AttrExpr),
}

/// One attribute occurrence attached to a declaration.
#[derive(Debug)]
pub struct Attribute {
    /// The attribute's path, one name per segment.
    pub path: Vec<Name>,
    /// The attribute's body.
    pub body: AttrBody,
}


/// What an [`AttrExpr`] holds, for specifications.
pub enum AttrExprView {
    /// A string literal and its location.
    Str {
        /// The literal's decoded contents.
        text: Seq<char>,
        /// Where the literal was written.
        span: Span,
    },
    /// A literal of any other sort.
    OtherLit {
        /// Where the literal was written.
        span: Span,
    },
    /// Any other expression.
    Other {
        /// Where the expression was written.
        span: Span,
    },
}

/// What an [`AttrBody`] holds, for specifications.
pub enum AttrBodyView {
    /// A bare path.
    Path,
    /// A delimited argument list.
    List(Seq<TokView>),
    /// A `name = value` binding.
    NameValue(AttrExprView),
}

/// What an [`Attribute`] holds, for specifications.
pub struct AttrView {
    /// The attribute's path, one name per segment.
    pub path: Seq<NameView>,
    /// The attribute's body.
    pub body: AttrBodyView,
}

impl View for AttrExpr {
    type V = AttrExprView;

    open spec fn view(&self) -> AttrExprView {
        match *self {
            AttrExpr::Str { text, span } => AttrExprView::Str { text: text@, span },
            AttrExpr::OtherLit { span } => AttrExprView::OtherLit { span },
            AttrExpr::Other { span } => AttrExprView::Other { span },
        }
    }
}

impl View for AttrBody {
    type V = AttrBodyView;

    open spec fn view(&self) -> AttrBodyView {
        match *self {
            AttrBody::Path => AttrBodyView::Path,
            AttrBody::List(tokens) => AttrBodyView::List(tts_view(tokens@)),
            AttrBody::NameValue(e) => AttrBodyView::NameValue(e@),
        }
    }
}

/// The views of a sequence of names, in order.
pub open spec fn names_view(s: Seq<Name>) -> Seq<NameView>
    decreases s,
{
    if s.len() == 0 {
        Seq::empty()
    } else {
        seq![s[0]@] + names_view(s.drop_first())
    }
}

/// [`names_view`] maps the sequence element by element.
pub proof fn lemma_names_view(s: Seq<Name>)
    ensures
        names_view(s).len() == s.len(),
        forall|i: int| 0 <= i < s.len() ==> names_view(s)[i] == (#[trigger] s[i])@,
    decreases s,
{
    if s.len() > 0 {
        lemma_names_view(s.drop_first());
        assert(forall|i: int| 1 <= i < s.len() ==> s.drop_first()[i - 1] == #[trigger] s[i]);
    }
}

impl View for Attribute {
    type V = AttrView;

    open spec fn view(&self) -> AttrView {
        AttrView { path: names_view(self.path@), body: self.body@ }
    }
}

/// The views of a sequence of attributes, in order.
pub open spec fn attrs_view(s: Seq<Attribute>) -> Seq<AttrView>
    decreases s,
{
    if s.len() == 0 {
        Seq::empty()
    } else {
        seq![s[0]@] + attrs_view(s.drop_first())
    }
}

/// [`attrs_view`] maps the sequence element by element.
pub proof fn lemma_attrs_view(s: Seq<Attribute>)
    ensures
        attrs_view(s).len() == s.len(),
        forall|i: int| 0 <= i < s.len() ==> attrs_view(s)[i] == (#[trigger] s[i])@,
    decreases s,
{
    if s.len() > 0 {
        lemma_attrs_view(s.drop_first());
        assert(forall|i: int| 1 <= i < s.len() ==> s.drop_first()[i - 1] == #[trigger] s[i]);
    }
}

/// Whether an attribute's path is the single segment `name`, written
/// plainly.
pub open spec fn path_is_single(a: AttrView, name: Seq<char>) -> bool {
    a.path.len() == 1 && a.path[0].text == name && !a.path[0].raw
}

impl Attribute {
    /// Whether this attribute's path is the single plain segment `name`.
    pub fn path_eq_single(&self, name: &str) -> (r: bool)
        ensures
            r == path_is_single(self@, name@),
    {
        proof {
            lemma_names_view(self.path@);
        }
        if self.path.len() != 1 {
            return false;
        }
        let owned = String::from_str(name);
        let seg = &self.path[0];
        !seg.raw && seg.text == owned
    }
}

/// Text of the diagnostic reported when a `doc` attribute's value is a
/// literal other than a string literal.
pub open spec fn doc_not_strlit_text() -> Seq<char> {
    "`#[doc]` attribute can contain string literals only"@
}

/// Text of the diagnostic reported when a `doc` attribute's value is not a
/// literal at all.
pub open spec fn doc_not_namevalue_text() -> Seq<char> {
    "`#[doc]` attribute should be in `#[doc = value] format`"@
}

/// Whether the character counts as trailing whitespace for the
/// documentation-text normalization.
pub open spec fn is_doc_ws(c: char) -> bool {
    c == ' ' || c == '\t' || c == '\r' || c == '\n'
}

/// Returns whether the character counts as trailing whitespace.
fn is_doc_ws_exec(c: char) -> (r: bool)
    ensures
        r == is_doc_ws(c),
{
    c == ' ' || c == '\t' || c == '\r' || c == '\n'
}

/// The sequence with its trailing whitespace removed.
pub open spec fn trim_end_ws(s: Seq<char>) -> Seq<char>
    decreases s.len(),
{
    if s.len() == 0 {
        s
    } else if is_doc_ws(s.last()) {
        trim_end_ws(s.drop_last())
    } else {
        s
    }
}

/// The sequence with its trailing backslashes removed.
pub open spec fn trim_end_backslashes(s: Seq<char>) -> Seq<char>
    decreases s.len(),
{
    if s.len() == 0 {
        s
    } else if s.last() == '\\' {
        trim_end_backslashes(s.drop_last())
    } else {
        s
    }
}

/// One line of documentation text, normalized: one leading space is
/// stripped if present and the end is right-trimmed; a line ending with a
/// backslash has the backslashes replaced by a single space (continuation),
/// any other line gets a newline appended.
pub open spec fn norm_doc_line(s: Seq<char>) -> Seq<char> {
    let stripped = if s.len() > 0 && s[0] == ' ' {
        s.drop_first()
    } else {
        s
    };
    let trimmed = trim_end_ws(stripped);
    if trimmed.len() > 0 && trimmed.last() == '\\' {
        trim_end_backslashes(trimmed) + seq![' ']
    } else {
        trimmed + seq!['\n']
    }
}

/// The concatenation of the normalized lines.
pub open spec fn concat_norm_lines(lines: Seq<Seq<char>>) -> Seq<char>
    decreases lines.len(),
{
    if lines.len() == 0 {
        Seq::empty()
    } else {
        concat_norm_lines(lines.drop_last()) + norm_doc_line(lines.last())
    }
}

/// The documentation text produced from the given lines: the normalized
/// lines concatenated, with the end right-trimmed.
pub open spec fn doc_text(lines: Seq<Seq<char>>) -> Seq<char> {
    trim_end_ws(concat_norm_lines(lines))
}

/// Appending one line extends the concatenation on the right.
pub proof fn lemma_concat_norm_lines_push(lines: Seq<Seq<char>>, line: Seq<char>)
    ensures
        concat_norm_lines(lines.push(line)) == concat_norm_lines(lines) + norm_doc_line(line),
{
    assert(lines.push(line).drop_last() =~= lines);
    assert(lines.push(line).last() == line);
}

/// What scanning the attribute list for `doc` text finds: the string
/// literals' contents and locations in order, or the location of the first
/// ill-formed `doc` attribute together with whether its value was at least
/// a literal.
pub open spec fn doc_entries(attrs: Seq<AttrView>) -> Result<Seq<(Seq<char>, Span)>, (Span, bool)>
    decreases attrs.len(),
{
    if attrs.len() == 0 {
        Ok(Seq::empty())
    } else {
        let a = attrs[0];
        if path_is_single(a, "doc"@) && a.body is NameValue {
            match a.body->NameValue_0 {
                AttrExprView::Str { text, span } => match doc_entries(attrs.drop_first()) {
                    Ok(rest) => Ok(seq![(text, span)] + rest),
                    Err(e) => Err(e),
                },
                AttrExprView::OtherLit { span } => Err((span, true)),
                AttrExprView::Other { span } => Err((span, false)),
            }
        } else {
            doc_entries(attrs.drop_first())
        }
    }
}

/// The texts of the entries, in order.
pub open spec fn entry_texts(entries: Seq<(Seq<char>, Span)>) -> Seq<Seq<char>> {
    entries.map_values(|e: (Seq<char>, Span)| e.0)
}

/// The part of [`doc_entries`] still to be scanned from position `i` on.
pub open spec fn doc_entries_from(attrs: Seq<AttrView>, i: int) -> Result<
    Seq<(Seq<char>, Span)>,
    (Span, bool),
>
    recommends
        0 <= i <= attrs.len(),
{
    doc_entries(attrs.subrange(i, attrs.len() as int))
}

/// The entries contributed by the attributes before position `i`, given
/// that none of them was ill-formed.
pub open spec fn seen_entries(attrs: Seq<AttrView>, i: int) -> Seq<(Seq<char>, Span)>
    decreases i,
{
    if i <= 0 {
        Seq::empty()
    } else {
        let a = attrs[i - 1];
        if path_is_single(a, "doc"@) && a.body is NameValue && a.body->NameValue_0 is Str {
            seen_entries(attrs, i - 1).push(
                (a.body->NameValue_0->Str_text, a.body->NameValue_0->Str_span),
            )
        } else {
            seen_entries(attrs, i - 1)
        }
    }
}

/// How the scan advances over position `i`: the still-to-scan part at `i`
/// starts with attribute `i`, and the rest follows at `i + 1`.
pub proof fn lemma_doc_scan_step(attrs: Seq<AttrView>, i: int)
    requires
        0 <= i < attrs.len(),
    ensures
        ({
            let a = attrs[i];
            let tail = attrs.subrange(i, attrs.len() as int);
            let next = attrs.subrange(i + 1, attrs.len() as int);
            if path_is_single(a, "doc"@) && a.body is NameValue {
                match a.body->NameValue_0 {
                    AttrExprView::Str { text, span } => doc_entries(tail) == (match doc_entries(
                        next,
                    ) {
                        Ok(rest) => Ok::<_, (Span, bool)>(seq![(text, span)] + rest),
                        Err(e) => Err(e),
                    }),
                    AttrExprView::OtherLit { span } => doc_entries(tail) == Err::<
                        Seq<(Seq<char>, Span)>,
                        _,
                    >((span, true)),
                    AttrExprView::Other { span } => doc_entries(tail) == Err::<
                        Seq<(Seq<char>, Span)>,
                        _,
                    >((span, false)),
                }
            } else {
                doc_entries(tail) == doc_entries(next)
            }
        }),
{
    let tail = attrs.subrange(i, attrs.len() as int);
    let next = attrs.subrange(i + 1, attrs.len() as int);
    assert(tail.len() > 0);
    assert(tail[0] == attrs[i]);
    assert(tail.drop_first() =~= next);
}

/// Trims trailing whitespace off the string.
fn trim_end_ws_exec(s: &str) -> (r: String)
    ensures
        r@ == trim_end_ws(s@),
{
    let n = s.unicode_len();
    let mut e = n;
    proof {
        assert(s@.subrange(0, n as int) =~= s@);
    }
    while e > 0 && is_doc_ws_exec(s.get_char(e - 1))
        invariant
            e <= n,
            n == s@.len(),
            trim_end_ws(s@) == trim_end_ws(s@.subrange(0, e as int)),
        decreases e,
    {
        proof {
            assert(s@.subrange(0, e as int).last() == s@[e - 1]);
            assert(s@.subrange(0, e as int).drop_last() =~= s@.subrange(0, e - 1));
        }
        e = e - 1;
    }
    proof {
        if e > 0 {
            assert(s@.subrange(0, e as int).last() == s@[e - 1]);
        }
        assert(trim_end_ws(s@.subrange(0, e as int)) == s@.subrange(0, e as int));
    }
    String::from_str(s.substring_char(0, e))
}

/// Trims trailing backslashes off the string.
fn trim_end_backslashes_exec(s: &str) -> (r: String)
    ensures
        r@ == trim_end_backslashes(s@),
{
    let n = s.unicode_len();
    let mut e = n;
    proof {
        assert(s@.subrange(0, n as int) =~= s@);
    }
    while e > 0 && s.get_char(e - 1) == '\\'
        invariant
            e <= n,
            n == s@.len(),
            trim_end_backslashes(s@) == trim_end_backslashes(s@.subrange(0, e as int)),
        decreases e,
    {
        proof {
            assert(s@.subrange(0, e as int).last() == s@[e - 1]);
            assert(s@.subrange(0, e as int).drop_last() =~= s@.subrange(0, e - 1));
        }
        e = e - 1;
    }
    proof {
        if e > 0 {
            assert(s@.subrange(0, e as int).last() == s@[e - 1]);
        }
        assert(trim_end_backslashes(s@.subrange(0, e as int)) == s@.subrange(0, e as int));
    }
    String::from_str(s.substring_char(0, e))
}

/// Normalizes one line of documentation text.
fn norm_doc_line_exec(s: &str) -> (r: String)
    ensures
        r@ == norm_doc_line(s@),
{
    let n = s.unicode_len();
    let stripped: &str = if n > 0 && s.get_char(0) == ' ' {
        let t = s.substring_char(1, n);
        proof {
            assert(t@ =~= s@.drop_first());
        }
        t
    } else {
        s
    };
    let trimmed = trim_end_ws_exec(stripped);
    let tn = trimmed.as_str().unicode_len();
    if tn > 0 && trimmed.as_str().get_char(tn - 1) == '\\' {
        proof {
            assert(trimmed@.last() == '\\');
        }
        let mut out = trim_end_backslashes_exec(trimmed.as_str());
        out.append(" ");
        proof {
            reveal_strlit(" ");
            assert(out@ =~= norm_doc_line(s@));
        }
        out
    } else {
        let mut out = trimmed;
        out.append("\n");
        proof {
            reveal_strlit("\n");
            assert(out@ =~= norm_doc_line(s@));
        }
        out
    }
}

/// Looks up the well-known `doc` attributes in the given list and collects
/// their text as one [`String`], with a little normalization: one leading
/// space per line is dropped, line ends are right-trimmed, and a line
/// ending with a backslash continues on the same output line.
///
/// The text is carried in a [`Spanning`] whose location is the first
/// contributing literal's; with no contributing `doc` attribute there is no
/// text to return. A `doc` attribute bound to anything but a string literal
/// is an error.
#[verifier::loop_isolation(false)]
pub fn doc_string(attrs: &Vec<Attribute>) -> (r: Result<Option<Spanning<String>>, Error>)
    ensures
        doc_entries(attrs_view(attrs@)) matches Ok(entries) ==> {
            if entries.len() == 0 {
                r matches Ok(o) && o is None
            } else {
                r matches Ok(o) && (o matches Some(sp) && sp.item_spec()@ == doc_text(
                    entry_texts(entries),
                ) && sp.span_spec() == entries[0].1)
            }
        },
        doc_entries(attrs_view(attrs@)) matches Err(bad) ==> (r matches Err(e) && e.span == bad.0
            && e.message@ == if bad.1 {
            doc_not_strlit_text()
        } else {
            doc_not_namevalue_text()
        }),
{
    let ghost av = attrs_view(attrs@);
    proof {
        lemma_attrs_view(attrs@);
    }
    let n = attrs.len();
    let mut out = String::new();
    let mut span: Option<Span> = None;
    let ghost mut seen: Seq<(Seq<char>, Span)> = Seq::empty();
    proof {
        assert(av.subrange(0, av.len() as int) =~= av);
        assert(entry_texts(seen) =~= Seq::<Seq<char>>::empty());
    }
    let mut i: usize = 0;
    while i < n
        invariant
            i <= n,
            n == attrs@.len(),
            seen == seen_entries(av, i as int),
            doc_entries(av) == (match doc_entries_from(av, i as int) {
                Ok(rest) => Ok::<_, (Span, bool)>(seen_entries(av, i as int) + rest),
                Err(e) => Err(e),
            }),
            out@ == concat_norm_lines(entry_texts(seen)),
            span is None <==> seen.len() == 0,
            span matches Some(sp) ==> seen.len() > 0 && sp == seen[0].1,
        decreases n - i,
    {
        proof {
            lemma_doc_scan_step(av, i as int);
        }
        let a = &attrs[i];
        let ghost aview = av[i as int];
        if a.path_eq_single("doc") {
            if let AttrBody::NameValue(e) = &a.body {
                match e {
                    AttrExpr::Str { text, span: litspan } => {
                        if span.is_none() {
                            span = Some(*litspan);
                        }
                        let line = norm_doc_line_exec(text.as_str());
                        out.append(line.as_str());
                        proof {
                            let entry = (text@, *litspan);
                            lemma_concat_norm_lines_push(entry_texts(seen), text@);
                            assert(entry_texts(seen.push(entry)) =~= entry_texts(seen).push(
                                text@,
                            ));
                            seen = seen.push(entry);
                            assert(seen == seen_entries(av, i as int + 1));
                            if let Ok(rest2) = doc_entries_from(av, i as int + 1) {
                                assert(seen_entries(av, i as int) + (seq![entry] + rest2) =~= seen
                                    + rest2);
                            }
                        }
                    },
                    AttrExpr::OtherLit { span: litspan } => {
                        return Err(
                            Error {
                                span: *litspan,
                                message: String::from_str(
                                    "`#[doc]` attribute can contain string literals only",
                                ),
                            },
                        );
                    },
                    AttrExpr::Other { span: exprspan } => {
                        return Err(
                            Error {
                                span: *exprspan,
                                message: String::from_str(
                                    "`#[doc]` attribute should be in `#[doc = value] format`",
                                ),
                            },
                        );
                    },
                }
            }
        }
        i += 1;
    }
    proof {
        assert(av.subrange(n as int, av.len() as int) =~= Seq::<AttrView>::empty());
        if let Ok(rest) = doc_entries_from(av, n as int) {
            assert(seen + rest =~= seen);
        }
    }
    match span {
        Some(sp) => {
            let text = trim_end_ws_exec(out.as_str());
            Ok(Some(Spanning::new(text, sp)))
        },
        None => Ok(None),
    }
}

} // verus!
