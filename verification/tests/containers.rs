use synthez::apply::{TryApply, TryApplySelf};
use synthez::attr::{AttrBody, AttrExpr, Attribute};
use synthez::container::Container;
use synthez::dedup;
use synthez::field::if_empty;
use synthez::kind;
use synthez::ordmap::OrdMap;
use synthez::record::{av_eq, ArgValue};
use synthez::required::Required;
use synthez::validate::{Provided, Validation};
use synthez::spanned::{Span, Spanning};
use synthez::tokens::{tt_eq, Delim, Name, TokenTree};

fn sp(n: u32) -> Span {
    Span { lo: n, hi: n + 1 }
}

fn name(text: &str, n: u32) -> Name {
    Name { text: text.to_string(), raw: false, span: sp(n) }
}

fn ident(text: &str, n: u32) -> TokenTree {
    TokenTree::Ident(name(text, n))
}

#[test]
fn required_starts_absent_and_fills() {
    let mut r: Required<Name> = Required::absent();
    assert!(!r.is_present());
    assert!(r.replace(name("a", 1)).is_none());
    assert!(r.is_present());
    let prev = r.replace(name("b", 2));
    assert_eq!(prev.unwrap().text, "a");
    assert_eq!(r.into_inner().text, "b");
}

#[test]
fn required_take_empties_the_cell() {
    let mut r: Required<Name> = Required::absent();
    let _ = r.replace(name("a", 1));
    let taken = r.take();
    assert_eq!(taken.unwrap().text, "a");
    assert!(!r.is_present());
}

#[test]
fn option_container_has_means_presence() {
    let mut c: Option<Name> = None;
    assert!(Container::is_empty(&c));
    assert!(!Container::has(&c, &name("x", 1)));
    Container::set(&mut c, name("a", 1));
    assert!(Container::has(&c, &name("completely", 2)));
    let prev = Container::replace(&mut c, name("b", 3));
    assert_eq!(prev.unwrap().text, "a");
}

#[test]
fn vec_container_replaces_first_equivalent_or_appends() {
    let mut c: Vec<ArgValue> = Vec::new();
    let a1 = ArgValue::Ident(name("a", 1));
    let b = ArgValue::Ident(name("b", 2));
    let a2 = ArgValue::Ident(name("a", 3));
    assert!(Container::replace(&mut c, a1).is_none());
    assert!(Container::replace(&mut c, b).is_none());
    let prev = Container::replace(&mut c, a2);
    match prev {
        Some(ArgValue::Ident(n)) => {
            assert_eq!(n.text, "a");
            assert_eq!(n.span, sp(1));
        },
        _ => panic!("expected the first equivalent element back"),
    }
    assert_eq!(c.len(), 2);
    match &c[0] {
        ArgValue::Ident(n) => assert_eq!(n.span, sp(3)),
        _ => panic!("wrong element"),
    }
}

#[test]
fn ordmap_replaces_by_key_keeping_position() {
    let mut m: OrdMap<Name, TokenTree> = OrdMap::new();
    assert!(Container::is_empty(&m));
    let _ = Container::replace(&mut m, (name("k1", 1), ident("v1", 2)));
    let _ = Container::replace(&mut m, (name("k2", 3), ident("v2", 4)));
    let prev = Container::replace(&mut m, (name("k1", 5), ident("v3", 6)));
    assert!(prev.is_some());
    assert_eq!(m.len(), 2);
    let entries = m.entries();
    assert_eq!(entries[0].0.text, "k1");
    assert!(tt_eq(&entries[0].1, &ident("v3", 9)));
    assert_eq!(entries[1].0.text, "k2");
    let got = m.get(&name("k2", 7)).unwrap();
    assert!(tt_eq(got, &ident("v2", 9)));
    assert!(m.get(&name("k3", 8)).is_none());
}

#[test]
fn try_apply_unique_rejects_second_value_in_cell() {
    let mut c: Option<ArgValue> = None;
    let first = ArgValue::Ident(name("a", 1));
    let second = ArgValue::Ident(name("b", 2));
    let ok = <Option<ArgValue> as TryApply<ArgValue, kind::Value, dedup::Unique>>::try_apply(
        &mut c, first,
    );
    assert!(ok.is_ok());
    let err = <Option<ArgValue> as TryApply<ArgValue, kind::Value, dedup::Unique>>::try_apply(
        &mut c, second,
    )
    .unwrap_err();
    assert_eq!(err.message, "duplicated attribute's argument found");
    assert_eq!(err.span, sp(2));
}

#[test]
fn try_apply_first_keeps_the_held_value() {
    let mut c: Option<ArgValue> = None;
    let _ = <Option<ArgValue> as TryApply<ArgValue, kind::Value, dedup::First>>::try_apply(
        &mut c,
        ArgValue::Ident(name("a", 1)),
    );
    let _ = <Option<ArgValue> as TryApply<ArgValue, kind::Value, dedup::First>>::try_apply(
        &mut c,
        ArgValue::Ident(name("b", 2)),
    );
    match &c {
        Some(ArgValue::Ident(n)) => assert_eq!(n.text, "a"),
        _ => panic!("cell empty"),
    }
}

#[test]
fn try_apply_last_replaces_the_held_value() {
    let mut c: Required<ArgValue> = Required::absent();
    let _ = <Required<ArgValue> as TryApply<ArgValue, kind::Value, dedup::Last>>::try_apply(
        &mut c,
        ArgValue::Ident(name("a", 1)),
    );
    let _ = <Required<ArgValue> as TryApply<ArgValue, kind::Value, dedup::Last>>::try_apply(
        &mut c,
        ArgValue::Ident(name("b", 2)),
    );
    match c.into_inner() {
        ArgValue::Ident(n) => assert_eq!(n.text, "b"),
        _ => panic!("not a name"),
    }
}

#[test]
fn try_apply_self_merges_sequences_in_order() {
    let mut a: Vec<ArgValue> = Vec::new();
    let _ = <Vec<ArgValue> as TryApply<ArgValue, kind::Value, dedup::Unique>>::try_apply(
        &mut a,
        ArgValue::Ident(name("x", 1)),
    );
    let mut b: Vec<ArgValue> = Vec::new();
    let _ = <Vec<ArgValue> as TryApply<ArgValue, kind::Value, dedup::Unique>>::try_apply(
        &mut b,
        ArgValue::Ident(name("y", 2)),
    );
    let r = <Vec<ArgValue> as TryApplySelf<ArgValue, kind::Value, dedup::Unique>>::try_apply_self(
        &mut a, b,
    );
    assert!(r.is_ok());
    assert_eq!(a.len(), 2);
    assert!(av_eq(&a[0], &ArgValue::Ident(name("x", 9))));
    assert!(av_eq(&a[1], &ArgValue::Ident(name("y", 9))));
}

#[test]
fn equivalence_ignores_spans_but_not_text() {
    assert!(tt_eq(&ident("a", 1), &ident("a", 7)));
    assert!(!tt_eq(&ident("a", 1), &ident("b", 1)));
    let g1 = TokenTree::Group { delim: Delim::Paren, tokens: vec![ident("a", 1)], span: sp(2) };
    let g2 = TokenTree::Group { delim: Delim::Paren, tokens: vec![ident("a", 5)], span: sp(6) };
    let g3 = TokenTree::Group { delim: Delim::Bracket, tokens: vec![ident("a", 5)], span: sp(6) };
    assert!(tt_eq(&g1, &g2));
    assert!(!tt_eq(&g1, &g3));
}

#[test]
fn raw_names_differ_from_plain_ones() {
    let plain = name("extra", 1);
    let raw = Name { text: "extra".to_string(), raw: true, span: sp(2) };
    assert!(!synthez::equiv::Equiv::equiv(&plain, &raw));
    assert_eq!(raw.display_text(), "r#extra");
    assert_eq!(plain.display_text(), "extra");
    assert_eq!(raw.unraw().display_text(), "extra");
}

#[test]
fn spanning_carries_item_and_span() {
    let s = Spanning::new(name("x", 1), sp(5));
    assert_eq!(s.span(), sp(5));
    assert_eq!(s.into_inner().text, "x");
}

#[test]
fn if_empty_runs_only_on_empty_containers() {
    let attrs: Vec<Attribute> = Vec::new();
    let mut c: Option<Name> = Some(name("kept", 1));
    let r = if_empty(&mut c, &attrs, |_attrs| Ok(Some(name("fallen", 2))));
    assert!(r.is_ok());
    assert_eq!(c.as_ref().unwrap().text, "kept");

    let mut c: Option<Name> = None;
    let r = if_empty(&mut c, &attrs, |_attrs| Ok(Some(name("fallen", 2))));
    assert!(r.is_ok());
    assert_eq!(c.as_ref().unwrap().text, "fallen");

    let mut c: Option<Name> = None;
    let r = if_empty(&mut c, &attrs, |_attrs| Ok(None));
    assert!(r.is_ok());
    assert!(c.is_none());
}

#[test]
fn attribute_path_matching_is_exact() {
    let a = Attribute {
        path: vec![name("attr", 1)],
        body: AttrBody::NameValue(AttrExpr::Other { span: sp(2) }),
    };
    assert!(a.path_eq_single("attr"));
    assert!(!a.path_eq_single("other"));
    let two = Attribute { path: vec![name("a", 1), name("b", 2)], body: AttrBody::Path };
    assert!(!two.path_eq_single("a"));
}

#[test]
fn cursor_parses_idents_eq_and_groups() {
    let toks = vec![
        ident("name", 1),
        TokenTree::Punct { ch: '=', span: sp(2) },
        paren_group(vec![ident("a", 3), TokenTree::Punct { ch: ',', span: sp(4) }, ident("b", 5)], 6),
    ];
    let (n, pos) = synthez::cursor::parse_any_ident(&toks, 0).unwrap();
    assert_eq!(n.text, "name");
    assert_eq!(pos, 1);
    let pos = synthez::cursor::parse_eq(&toks, 1).unwrap();
    assert_eq!(pos, 2);
    let (inner, span, pos) = synthez::cursor::parse_paren_group(&toks, 2).unwrap();
    assert_eq!(span, sp(6));
    assert_eq!(pos, 3);
    let elems = synthez::cursor::parse_punctuated(&inner).unwrap();
    assert_eq!(elems.len(), 2);
    assert!(tt_eq(&elems[0], &ident("a", 9)));
    assert!(tt_eq(&elems[1], &ident("b", 9)));
    let err = synthez::cursor::parse_any_ident(&toks, 3).unwrap_err();
    assert_eq!(err.message, "unexpected end of input, expected identifier");
    let err = synthez::cursor::parse_eq(&toks, 0).unwrap_err();
    assert_eq!(err.message, "expected `=`");
}

fn paren_group(tokens: Vec<TokenTree>, n: u32) -> TokenTree {
    TokenTree::Group { delim: Delim::Paren, tokens, span: sp(n) }
}

#[test]
fn flatten_spaced_collapses_the_marker() {
    let toks = vec![
        ident("value", 1),
        paren_group(vec![ident("spaced", 2)], 3),
        TokenTree::Punct { ch: ',', span: sp(4) },
        ident("alias", 5),
    ];
    let (out, spaced) = synthez::directive::flatten_spaced(toks);
    assert!(spaced);
    assert_eq!(out.len(), 3);
    assert!(tt_eq(&out[0], &ident("value", 9)));

    let toks = vec![ident("ident", 1)];
    let (out, spaced) = synthez::directive::flatten_spaced(toks);
    assert!(!spaced);
    assert_eq!(out.len(), 1);
}

#[test]
fn recognized_names_defaults_and_merges() {
    // No overrides: the field's own name, raw form stripped.
    let field_name = Name { text: "kind".to_string(), raw: true, span: sp(1) };
    let names = synthez::directive::recognized_names(field_name, vec![], vec![name("alias1", 2)]).unwrap();
    assert_eq!(names.len(), 2);
    assert_eq!(names[0].text, "kind");
    assert!(!names[0].raw);
    assert_eq!(names[1].text, "alias1");
    // Overrides replace the default entirely.
    let names =
        synthez::directive::recognized_names(name("kind", 1), vec![name("k", 2)], vec![name("kk", 3)]).unwrap();
    assert_eq!(names.iter().map(|n| n.text.clone()).collect::<Vec<_>>(), vec!["k", "kk"]);
    // An alias repeating a recognized name is a duplicate.
    let err = synthez::directive::recognized_names(name("kind", 1), vec![], vec![name("kind", 2)]).unwrap_err();
    assert_eq!(err.message, "duplicated attribute's argument found");
}

#[test]
fn provided_rule_accepts_filled_and_refuses_absent() {
    let absent: Required<Name> = Required::absent();
    let err = <Required<Name> as Validation<Provided>>::validation(&absent)
        .unwrap_err();
    assert_eq!(err.message, "is expected, but is absent");
    let mut filled: Required<Name> = Required::absent();
    let _ = filled.replace(name("x", 1));
    assert!(
        <Required<Name> as Validation<Provided>>::validation(&filled).is_ok()
    );
    let none: Option<Name> = None;
    assert!(<Option<Name> as Validation<Provided>>::validation(&none).is_ok());
}

#[test]
fn schema_well_formedness_is_checkable() {
    let good = synthez::schema::Schema {
        fields: vec![synthez::schema::FieldSchema {
            names: vec!["ignore".to_string()],
            kind: synthez::schema::ArgKind::Ident,
            shape: synthez::schema::Shape::Optional,
            dedup: synthez::dedup::Strategy::Unique,
            nested: None,
            doc_fallback: false,
        }],
    };
    assert!(good.is_wf());
    let nameless = synthez::schema::Schema {
        fields: vec![synthez::schema::FieldSchema {
            names: vec![],
            kind: synthez::schema::ArgKind::Ident,
            shape: synthez::schema::Shape::Optional,
            dedup: synthez::dedup::Strategy::Unique,
            nested: None,
            doc_fallback: false,
        }],
    };
    assert!(!nameless.is_wf());
    let ident_in_sequence = synthez::schema::Schema {
        fields: vec![synthez::schema::FieldSchema {
            names: vec!["ignore".to_string()],
            kind: synthez::schema::ArgKind::Ident,
            shape: synthez::schema::Shape::Sequence,
            dedup: synthez::dedup::Strategy::Unique,
            nested: None,
            doc_fallback: false,
        }],
    };
    assert!(!ident_in_sequence.is_wf());
}
