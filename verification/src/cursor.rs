//! Helpers for walking the token trees of an attribute's body.
//!
//! A cursor is a plain position into a token list. Each helper consumes
//! tokens from that position and reports how far it got, or a diagnostic in
//! the style of the host grammar's parser.

use vstd::prelude::*;
use vstd::string::StringExecFns;

use crate::err::{ErrView, Error};
use crate::spanned::{IntoSpan, Span};
use crate::tokens::{lemma_tts_view, tts_view, Delim, Name, TokenTree};

verus! {

/// Text of the diagnostic for a missing identifier.
pub open spec fn expected_ident_text(at_end: bool) -> Seq<char> {
    if at_end {
        "unexpected end of input, expected identifier"@
    } else {
        "expected identifier"@
    }
}

/// Text of the diagnostic for a missing `=` token.
pub open spec fn expected_eq_text() -> Seq<char> {
    "expected `=`"@
}

/// Text of the diagnostic for missing parentheses.
pub open spec fn expected_parentheses_text(at_end: bool) -> Seq<char> {
    if at_end {
        "unexpected end of input, expected parentheses"@
    } else {
        "expected parentheses"@
    }
}

/// Text of the diagnostic for a missing `,` separator inside a delimited
/// list.
pub open spec fn expected_comma_text() -> Seq<char> {
    "expected `,`"@
}

/// Whether the token at `pos` exists and is the punctuation character `c`.
pub open spec fn next_is_punct(toks: Seq<TokenTree>, pos: int, c: char) -> bool {
    pos < toks.len() && (toks[pos] matches TokenTree::Punct { ch, .. } && ch == c)
}

/// Whether the token at `pos` exists and is a group wrapped in `d`.
pub open spec fn next_is_group(toks: Seq<TokenTree>, pos: int, d: Delim) -> bool {
    pos < toks.len() && (toks[pos] matches TokenTree::Group { delim, .. } && delim == d)
}

/// Whether the token at `pos` exists and is a name token.
pub open spec fn next_is_ident(toks: Seq<TokenTree>, pos: int) -> bool {
    pos < toks.len() && toks[pos] is Ident
}

/// Checks whether the next token is the punctuation character `c`, without
/// moving the cursor.
pub fn is_next_punct(tokens: &Vec<TokenTree>, pos: usize, c: char) -> (r: bool)
    ensures
        r == next_is_punct(tokens@, pos as int, c),
{
    if pos < tokens.len() {
        match &tokens[pos] {
            TokenTree::Punct { ch, .. } => *ch == c,
            _ => false,
        }
    } else {
        false
    }
}

/// Checks whether the next token is a group wrapped in `d`, without moving
/// the cursor.
pub fn is_next_group(tokens: &Vec<TokenTree>, pos: usize, d: Delim) -> (r: bool)
    ensures
        r == next_is_group(tokens@, pos as int, d),
{
    if pos < tokens.len() {
        match &tokens[pos] {
            TokenTree::Group { delim, .. } => *delim == d,
            _ => false,
        }
    } else {
        false
    }
}

/// Tries to consume the punctuation character `c` as the next token: the
/// cursor moves past it exactly when it is there.
pub fn try_parse_punct(tokens: &Vec<TokenTree>, pos: usize, c: char) -> (r: Option<usize>)
    requires
        pos <= tokens@.len(),
    ensures
        next_is_punct(tokens@, pos as int, c) ==> r == Some((pos + 1) as usize),
        !next_is_punct(tokens@, pos as int, c) ==> r is None,
{
    let n = tokens.len();
    if is_next_punct(tokens, pos, c) {
        Some(pos + 1)
    } else {
        None
    }
}

/// Parses the next token as a name token, keywords admitted. The cursor
/// always moves on success.
pub fn parse_any_ident(tokens: &Vec<TokenTree>, pos: usize) -> (r: Result<(Name, usize), Error>)
    requires
        pos <= tokens@.len(),
    ensures
        next_is_ident(tokens@, pos as int) ==> (r matches Ok(p) && p.0@ == tokens@[pos as int]->Ident_0@
            && p.1 == pos + 1),
        !next_is_ident(tokens@, pos as int) ==> (r matches Err(e) && e@.message
            == expected_ident_text(pos == tokens@.len()) && e@.span == ident_err_span(
            tokens@,
            pos as int,
        )),
{
    if pos < tokens.len() {
        match &tokens[pos] {
            TokenTree::Ident(n) => Ok((n.clone(), pos + 1)),
            other => Err(
                Error {
                    span: other.into_span(),
                    message: String::from_str("expected identifier"),
                },
            ),
        }
    } else {
        Err(
            Error {
                span: Span::call_site(),
                message: String::from_str("unexpected end of input, expected identifier"),
            },
        )
    }
}

/// Where a missing-identifier diagnostic points: at the offending token, or
/// at the calling site when the input ended.
pub open spec fn ident_err_span(toks: Seq<TokenTree>, pos: int) -> Span {
    if pos < toks.len() {
        toks[pos].span_of_spec()
    } else {
        Span { lo: 0, hi: 0 }
    }
}

/// Parses the next token as `=`. Any other next token, or the end of the
/// input, is reported as a missing `=`.
pub fn parse_eq(tokens: &Vec<TokenTree>, pos: usize) -> (r: Result<usize, Error>)
    requires
        pos <= tokens@.len(),
    ensures
        next_is_punct(tokens@, pos as int, '=') ==> r == Ok::<usize, Error>((pos + 1) as usize),
        !next_is_punct(tokens@, pos as int, '=') ==> (r matches Err(e) && e@.message
            == expected_eq_text() && e@.span == ident_err_span(tokens@, pos as int)),
{
    let n = tokens.len();
    if is_next_punct(tokens, pos, '=') {
        Ok(pos + 1)
    } else if pos < n {
        Err(
            Error {
                span: tokens[pos].into_span(),
                message: String::from_str("expected `=`"),
            },
        )
    } else {
        Err(Error { span: Span::call_site(), message: String::from_str("expected `=`") })
    }
}

/// Consumes the next token, which must be a parenthesized group, and hands
/// out the tokens inside together with the group's location.
pub fn parse_paren_group(tokens: &Vec<TokenTree>, pos: usize) -> (r: Result<
    (Vec<TokenTree>, Span, usize),
    Error,
>)
    requires
        pos <= tokens@.len(),
    ensures
        next_is_group(tokens@, pos as int, Delim::Paren) ==> (r matches Ok(p) && tts_view(p.0@)
            == tts_view(tokens@[pos as int]->Group_tokens@) && p.1 == tokens@[pos as int]->Group_span
            && p.2 == pos + 1),
        !next_is_group(tokens@, pos as int, Delim::Paren) ==> (r matches Err(e) && e@.message
            == expected_parentheses_text(pos == tokens@.len()) && e@.span == ident_err_span(
            tokens@,
            pos as int,
        )),
{
    if pos < tokens.len() {
        match &tokens[pos] {
            TokenTree::Group { delim: Delim::Paren, tokens: inner, span } => {
                let cloned = clone_tokens(inner);
                Ok((cloned, *span, pos + 1))
            },
            other => Err(
                Error {
                    span: other.into_span(),
                    message: String::from_str("expected parentheses"),
                },
            ),
        }
    } else {
        Err(
            Error {
                span: Span::call_site(),
                message: String::from_str("unexpected end of input, expected parentheses"),
            },
        )
    }
}


/// Clones a token list; the clone carries the same text at the same
/// locations.
pub fn clone_tokens(tokens: &Vec<TokenTree>) -> (r: Vec<TokenTree>)
    ensures
        tts_view(r@) == tts_view(tokens@),
        r@.len() == tokens@.len(),
{
    let n = tokens.len();
    let mut out: Vec<TokenTree> = Vec::new();
    let mut i: usize = 0;
    while i < n
        invariant
            n == tokens@.len(),
            i <= n,
            out@.len() == i,
            forall|j: int| 0 <= j < i ==> (#[trigger] out@[j])@ == tokens@[j]@,
        decreases n - i,
    {
        out.push(tokens[i].clone());
        i += 1;
    }
    proof {
        lemma_tts_view(out@);
        lemma_tts_view(tokens@);
        assert forall|k: int| 0 <= k < tts_view(out@).len() implies tts_view(out@)[k] == tts_view(
            tokens@,
        )[k] by {
            assert(out@[k]@ == tokens@[k]@);
        }
        assert(tts_view(out@) =~= tts_view(tokens@));
    }
    out
}

/// Whether a token tree is a bare comma.
pub open spec fn is_comma(t: TokenTree) -> bool {
    t matches TokenTree::Punct { ch, .. } && ch == ','
}

/// What splitting a delimited body into comma-separated elements yields:
/// one token tree per element, a comma between two elements, a trailing
/// comma admitted.
pub open spec fn punct_elems(toks: Seq<TokenTree>, pos: int) -> Result<Seq<TokenTree>, ErrView>
    decreases toks.len() - pos,
{
    if pos >= toks.len() {
        Ok(Seq::empty())
    } else if is_comma(toks[pos]) {
        Err(ErrView { span: toks[pos].span_of_spec(), message: unexpected_token_text() })
    } else if pos + 1 >= toks.len() {
        Ok(seq![toks[pos]])
    } else if is_comma(toks[pos + 1]) {
        match punct_elems(toks, pos + 2) {
            Ok(rest) => Ok(seq![toks[pos]] + rest),
            Err(e) => Err(e),
        }
    } else {
        Err(ErrView { span: toks[pos + 1].span_of_spec(), message: expected_comma_text() })
    }
}


/// Text of the diagnostic for a token where an element was expected.
pub open spec fn unexpected_token_text() -> Seq<char> {
    "unexpected token"@
}

/// Splits a delimited body into its comma-separated elements: one token
/// tree per element, a comma between two elements, a trailing comma
/// admitted.
pub fn parse_punctuated(tokens: &Vec<TokenTree>) -> (r: Result<Vec<TokenTree>, Error>)
    ensures
        punct_elems(tokens@, 0) matches Ok(elems) ==> (r matches Ok(v) && v@.len() == elems.len()
            && (forall|j: int| 0 <= j < elems.len() ==> (#[trigger] v@[j])@ == elems[j]@)),
        punct_elems(tokens@, 0) matches Err(ev) ==> (r matches Err(e) && e@ == ev),
{
    let n = tokens.len();
    let mut out: Vec<TokenTree> = Vec::new();
    let ghost mut prefix: Seq<TokenTree> = Seq::empty();
    let mut pos: usize = 0;
    loop
        invariant
            pos <= n,
            n == tokens@.len(),
            punct_elems(tokens@, 0) == (match punct_elems(tokens@, pos as int) {
                Ok(rest) => Ok::<Seq<TokenTree>, ErrView>(prefix + rest),
                Err(e) => Err(e),
            }),
            out@.len() == prefix.len(),
            forall|j: int| 0 <= j < prefix.len() ==> (#[trigger] out@[j])@ == prefix[j]@,
        decreases n - pos,
    {
        if pos >= n {
            proof {
                assert(prefix + Seq::<TokenTree>::empty() =~= prefix);
            }
            return Ok(out);
        }
        let first = &tokens[pos];
        if let TokenTree::Punct { ch, span } = first {
            if *ch == ',' {
                return Err(Error { span: *span, message: String::from_str("unexpected token") });
            }
        }
        out.push(first.clone());
        let ghost oldp = prefix;
        proof {
            prefix = oldp.push(tokens@[pos as int]);
        }
        if pos + 1 >= n {
            proof {
                assert(punct_elems(tokens@, pos as int) == Ok::<Seq<TokenTree>, ErrView>(
                    seq![tokens@[pos as int]],
                ));
                assert(oldp + seq![tokens@[pos as int]] =~= prefix);
            }
            return Ok(out);
        }
        match &tokens[pos + 1] {
            TokenTree::Punct { ch: c, .. } if *c == ',' => {
                proof {
                    let t = tokens@[pos as int];
                    assert(is_comma(tokens@[pos as int + 1]));
                    assert(punct_elems(tokens@, pos as int) == (match punct_elems(
                        tokens@,
                        pos as int + 2,
                    ) {
                        Ok(rest) => Ok::<Seq<TokenTree>, ErrView>(seq![t] + rest),
                        Err(e) => Err(e),
                    }));
                    if let Ok(rest) = punct_elems(tokens@, pos as int + 2) {
                        assert(oldp + (seq![t] + rest) =~= prefix + rest);
                    }
                }
                pos = pos + 2;
            },
            other => {
                return Err(
                    Error { span: other.into_span(), message: String::from_str("expected `,`") },
                );
            },
        }
    }
}

} // verus!
