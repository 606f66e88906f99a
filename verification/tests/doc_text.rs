use synthez::attr::{doc_string, AttrBody, AttrExpr, Attribute};
use synthez::spanned::Span;
use synthez::tokens::Name;

fn sp(n: u32) -> Span {
    Span { lo: n, hi: n + 1 }
}

fn doc_attr(text: &str, n: u32) -> Attribute {
    Attribute {
        path: vec![Name { text: "doc".to_string(), raw: false, span: sp(n) }],
        body: AttrBody::NameValue(AttrExpr::Str { text: text.to_string(), span: sp(n) }),
    }
}

fn other_attr(name: &str, n: u32) -> Attribute {
    Attribute {
        path: vec![Name { text: name.to_string(), raw: false, span: sp(n) }],
        body: AttrBody::Path,
    }
}

#[test]
fn doc_text_single_line() {
    let attrs = vec![doc_attr(" bar", 1)];
    let out = doc_string(&attrs).unwrap().unwrap();
    assert_eq!(out.item, "bar");
    assert_eq!(out.span, sp(1));
}

#[test]
fn doc_text_joins_lines_with_newlines() {
    let attrs = vec![doc_attr(" first", 1), doc_attr(" second", 2)];
    let out = doc_string(&attrs).unwrap().unwrap();
    assert_eq!(out.item, "first\nsecond");
}

#[test]
fn doc_text_backslash_continues_the_line() {
    // The normalization round trip: a trailing backslash joins the lines
    // with one space, and the end is right-trimmed.
    let attrs = vec![doc_attr(" line1", 1), doc_attr(" line2\\", 2), doc_attr(" line3", 3)];
    let out = doc_string(&attrs).unwrap().unwrap();
    assert_eq!(out.item, "line1\nline2 line3");
}

#[test]
fn doc_text_strips_one_leading_space_only() {
    let attrs = vec![doc_attr("  indented", 1)];
    let out = doc_string(&attrs).unwrap().unwrap();
    assert_eq!(out.item, " indented");
}

#[test]
fn doc_text_right_trims_each_line() {
    let attrs = vec![doc_attr(" spaced \t", 1), doc_attr(" next", 2)];
    let out = doc_string(&attrs).unwrap().unwrap();
    assert_eq!(out.item, "spaced\nnext");
}

#[test]
fn doc_text_none_without_doc_attributes() {
    let attrs = vec![other_attr("attr", 1)];
    assert!(doc_string(&attrs).unwrap().is_none());
}

#[test]
fn doc_text_skips_non_doc_attributes() {
    let attrs = vec![other_attr("attr", 1), doc_attr(" bar", 2)];
    let out = doc_string(&attrs).unwrap().unwrap();
    assert_eq!(out.item, "bar");
}

#[test]
fn doc_text_rejects_non_string_literal() {
    let attrs = vec![Attribute {
        path: vec![Name { text: "doc".to_string(), raw: false, span: sp(1) }],
        body: AttrBody::NameValue(AttrExpr::OtherLit { span: sp(2) }),
    }];
    let err = doc_string(&attrs).unwrap_err();
    assert_eq!(err.message, "`#[doc]` attribute can contain string literals only");
    assert_eq!(err.span, sp(2));
}

#[test]
fn doc_text_rejects_non_literal_value() {
    let attrs = vec![Attribute {
        path: vec![Name { text: "doc".to_string(), raw: false, span: sp(1) }],
        body: AttrBody::NameValue(AttrExpr::Other { span: sp(3) }),
    }];
    let err = doc_string(&attrs).unwrap_err();
    assert_eq!(err.message, "`#[doc]` attribute should be in `#[doc = value] format`");
    assert_eq!(err.span, sp(3));
}
