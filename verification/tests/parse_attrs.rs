use synthez::attr::{AttrBody, AttrExpr, Attribute};
use synthez::dedup::Strategy;
use synthez::driver::parse_attrs;
use synthez::record::{ArgValue, FieldState, Record};
use synthez::schema::{ArgKind, FieldSchema, Schema, Shape};
use synthez::spanned::Span;
use synthez::tokens::{Delim, Name, TokenTree};

fn sp(n: u32) -> Span {
    Span { lo: n, hi: n + 1 }
}

fn ident(text: &str, n: u32) -> TokenTree {
    TokenTree::Ident(Name { text: text.to_string(), raw: false, span: sp(n) })
}

fn punct(ch: char, n: u32) -> TokenTree {
    TokenTree::Punct { ch, span: sp(n) }
}

fn lit(text: &str, n: u32) -> TokenTree {
    TokenTree::Lit { text: text.to_string(), span: sp(n) }
}

fn paren(tokens: Vec<TokenTree>, n: u32) -> TokenTree {
    TokenTree::Group { delim: Delim::Paren, tokens, span: sp(n) }
}

fn attr(name: &str, tokens: Vec<TokenTree>) -> Attribute {
    Attribute {
        path: vec![Name { text: name.to_string(), raw: false, span: sp(0) }],
        body: AttrBody::List(tokens),
    }
}

fn doc_attr(text: &str, n: u32) -> Attribute {
    Attribute {
        path: vec![Name { text: "doc".to_string(), raw: false, span: sp(n) }],
        body: AttrBody::NameValue(AttrExpr::Str { text: text.to_string(), span: sp(n) }),
    }
}

fn field(
    names: &[&str],
    kind: ArgKind,
    shape: Shape,
    dedup: Strategy,
    nested: Option<Schema>,
) -> FieldSchema {
    FieldSchema {
        names: names.iter().map(|n| n.to_string()).collect(),
        kind,
        shape,
        dedup,
        nested: nested.map(Box::new),
        doc_fallback: false,
    }
}

fn one_field_schema(
    names: &[&str],
    kind: ArgKind,
    shape: Shape,
    dedup: Strategy,
) -> Schema {
    Schema { fields: vec![field(names, kind, shape, dedup, None)] }
}

fn cell_ident_text(rec: &Record, f: usize) -> Option<String> {
    match &rec.fields[f] {
        FieldState::Cell(Some(ArgValue::Ident(n))) => Some(n.text.clone()),
        FieldState::Mand(m) => match &m.value {
            Some(ArgValue::Ident(n)) => Some(n.text.clone()),
            _ => None,
        },
        _ => None,
    }
}

fn cell_tok_ident_text(rec: &Record, f: usize) -> Option<String> {
    match &rec.fields[f] {
        FieldState::Cell(Some(ArgValue::Tok(TokenTree::Ident(n)))) => Some(n.text.clone()),
        FieldState::Mand(m) => match &m.value {
            Some(ArgValue::Tok(TokenTree::Ident(n))) => Some(n.text.clone()),
            _ => None,
        },
        _ => None,
    }
}

fn seq_tok_ident_texts(rec: &Record, f: usize) -> Vec<String> {
    match &rec.fields[f] {
        FieldState::Many(vs) => vs
            .iter()
            .map(|v| match v {
                ArgValue::Tok(TokenTree::Ident(n)) => n.text.clone(),
                ArgValue::Ident(n) => n.text.clone(),
                _ => panic!("unexpected value"),
            })
            .collect(),
        _ => panic!("not a sequence field"),
    }
}

// --- ident kind, optional cell ---

#[test]
fn ident_option_allows_present() {
    let schema = one_field_schema(&["ignore"], ArgKind::Ident, Shape::Optional, Strategy::Unique);
    let attrs = vec![attr("attr", vec![ident("ignore", 1)])];
    let res = parse_attrs(&schema, "attr", &attrs, sp(9));
    let rec = res.unwrap();
    assert_eq!(cell_ident_text(&rec, 0).as_deref(), Some("ignore"));
}

#[test]
fn ident_option_allows_absent() {
    let schema = one_field_schema(&["ignore"], ArgKind::Ident, Shape::Optional, Strategy::Unique);
    let attrs: Vec<Attribute> = Vec::new();
    let res = parse_attrs(&schema, "attr", &attrs, sp(9));
    let rec = res.unwrap();
    assert!(matches!(rec.fields[0], FieldState::Cell(None)));
}

// --- ident kind, mandatory cell ---

#[test]
fn ident_required_allows_present() {
    let schema = one_field_schema(&["required"], ArgKind::Ident, Shape::Mandatory, Strategy::Unique);
    let attrs = vec![attr("attr", vec![ident("required", 1)])];
    let rec = parse_attrs(&schema, "attr", &attrs, sp(9)).unwrap();
    assert_eq!(cell_ident_text(&rec, 0).as_deref(), Some("required"));
}

#[test]
fn ident_required_forbids_absent() {
    let schema = one_field_schema(&["required"], ArgKind::Ident, Shape::Mandatory, Strategy::Unique);
    let attrs: Vec<Attribute> = Vec::new();
    let err = parse_attrs(&schema, "attr", &attrs, sp(9)).unwrap_err();
    assert!(
        err.message.contains("`required` argument of `#[attr]` attribute is expected"),
        "wrong err: {}",
        err.message,
    );
    assert_eq!(
        err.message,
        "`required` argument of `#[attr]` attribute is expected, but is absent",
    );
}

#[test]
fn ident_required_aliased_absent_message_lists_names() {
    let schema =
        one_field_schema(&["name", "named"], ArgKind::Ident, Shape::Mandatory, Strategy::Unique);
    let attrs: Vec<Attribute> = Vec::new();
    let err = parse_attrs(&schema, "attr", &attrs, sp(9)).unwrap_err();
    assert_eq!(
        err.message,
        "either `name` or `named` argument of `#[attr]` attribute is expected, but is absent",
    );
}

// --- renames and aliases ---

#[test]
fn ident_renamed_accepts_new_arg_name() {
    let schema = one_field_schema(&["skip"], ArgKind::Ident, Shape::Optional, Strategy::Unique);
    let attrs = vec![attr("attr", vec![ident("skip", 1)])];
    let rec = parse_attrs(&schema, "attr", &attrs, sp(9)).unwrap();
    assert_eq!(cell_ident_text(&rec, 0).as_deref(), Some("skip"));
}

#[test]
fn ident_renamed_errs_on_old_arg_name() {
    let schema = one_field_schema(&["skip"], ArgKind::Ident, Shape::Optional, Strategy::Unique);
    let attrs = vec![attr("attr", vec![ident("ignore", 1)])];
    let err = parse_attrs(&schema, "attr", &attrs, sp(9)).unwrap_err();
    assert_eq!(err.message, "unknown `ignore` attribute argument");
}

#[test]
fn ident_aliased_accepts_both_names() {
    let schema =
        one_field_schema(&["ignore", "skip"], ArgKind::Ident, Shape::Optional, Strategy::Unique);
    let attrs = vec![attr("attr", vec![ident("skip", 1)])];
    let rec = parse_attrs(&schema, "attr", &attrs, sp(9)).unwrap();
    assert_eq!(cell_ident_text(&rec, 0).as_deref(), Some("skip"));
    let attrs = vec![attr("attr", vec![ident("ignore", 1)])];
    let rec = parse_attrs(&schema, "attr", &attrs, sp(9)).unwrap();
    assert_eq!(cell_ident_text(&rec, 0).as_deref(), Some("ignore"));
}

// --- deduplication on cells ---

#[test]
fn ident_dedup_unique_forbids_repeated_arg() {
    let schema =
        one_field_schema(&["ignore", "skip"], ArgKind::Ident, Shape::Optional, Strategy::Unique);
    let attrs = vec![attr("attr", vec![ident("ignore", 1), punct(',', 2), ident("skip", 3)])];
    let err = parse_attrs(&schema, "attr", &attrs, sp(9)).unwrap_err();
    assert_eq!(err.message, "duplicated attribute's argument found");
}

#[test]
fn ident_dedup_unique_forbids_repeat_across_occurrences() {
    let schema =
        one_field_schema(&["ignore", "skip"], ArgKind::Ident, Shape::Optional, Strategy::Unique);
    let attrs = vec![
        attr("attr", vec![ident("ignore", 1)]),
        attr("attr", vec![ident("skip", 3)]),
    ];
    let err = parse_attrs(&schema, "attr", &attrs, sp(9)).unwrap_err();
    assert_eq!(err.message, "duplicated attribute's argument found");
}

#[test]
fn ident_dedup_picks_first_arg() {
    let schema =
        one_field_schema(&["ignore", "skip"], ArgKind::Ident, Shape::Optional, Strategy::First);
    let attrs = vec![attr("attr", vec![ident("ignore", 1), punct(',', 2), ident("skip", 3)])];
    let rec = parse_attrs(&schema, "attr", &attrs, sp(9)).unwrap();
    assert_eq!(cell_ident_text(&rec, 0).as_deref(), Some("ignore"));
}

#[test]
fn ident_dedup_picks_last_arg() {
    let schema =
        one_field_schema(&["ignore", "skip"], ArgKind::Ident, Shape::Optional, Strategy::Last);
    let attrs = vec![attr("attr", vec![ident("ignore", 1), punct(',', 2), ident("skip", 3)])];
    let rec = parse_attrs(&schema, "attr", &attrs, sp(9)).unwrap();
    assert_eq!(cell_ident_text(&rec, 0).as_deref(), Some("skip"));
}

// --- value kind ---

#[test]
fn value_option_allows_present() {
    let schema = one_field_schema(
        &["name"],
        ArgKind::Value { spaced: false },
        Shape::Optional,
        Strategy::Unique,
    );
    let attrs = vec![attr("attr", vec![ident("name", 1), punct('=', 2), ident("minas", 3)])];
    let rec = parse_attrs(&schema, "attr", &attrs, sp(9)).unwrap();
    assert_eq!(cell_tok_ident_text(&rec, 0).as_deref(), Some("minas"));
}

#[test]
fn value_allows_parenthesized() {
    let schema = one_field_schema(
        &["name"],
        ArgKind::Value { spaced: false },
        Shape::Optional,
        Strategy::Unique,
    );
    let attrs = vec![attr("attr", vec![ident("name", 1), paren(vec![ident("minas", 2)], 3)])];
    let rec = parse_attrs(&schema, "attr", &attrs, sp(9)).unwrap();
    assert_eq!(cell_tok_ident_text(&rec, 0).as_deref(), Some("minas"));
}

#[test]
fn value_spaced_allows_adjacent_value() {
    let schema = one_field_schema(
        &["name"],
        ArgKind::Value { spaced: true },
        Shape::Optional,
        Strategy::Unique,
    );
    let attrs = vec![attr("attr", vec![ident("name", 1), ident("minas", 2)])];
    let rec = parse_attrs(&schema, "attr", &attrs, sp(9)).unwrap();
    assert_eq!(cell_tok_ident_text(&rec, 0).as_deref(), Some("minas"));
}

#[test]
fn value_forbids_no_value() {
    let schema = one_field_schema(
        &["name"],
        ArgKind::Value { spaced: false },
        Shape::Optional,
        Strategy::Unique,
    );
    let attrs = vec![attr("attr", vec![ident("name", 1)])];
    let err = parse_attrs(&schema, "attr", &attrs, sp(9)).unwrap_err();
    assert_eq!(err.message, "expected `=`");
}

#[test]
fn value_forbids_not_eq_ident_before_value() {
    let schema = one_field_schema(
        &["name"],
        ArgKind::Value { spaced: false },
        Shape::Optional,
        Strategy::Unique,
    );
    let bracket = TokenTree::Group {
        delim: Delim::Bracket,
        tokens: vec![ident("here", 2)],
        span: sp(3),
    };
    let attrs = vec![attr("attr", vec![ident("name", 1), bracket])];
    let err = parse_attrs(&schema, "attr", &attrs, sp(9)).unwrap_err();
    assert_eq!(err.message, "expected `=`");
}

#[test]
fn value_sequence_allows_present() {
    let schema = one_field_schema(
        &["names"],
        ArgKind::Value { spaced: false },
        Shape::Sequence,
        Strategy::Unique,
    );
    let attrs = vec![attr(
        "attr",
        vec![ident("names", 1), paren(vec![ident("minas", 2), punct(',', 3), ident("tirith", 4)], 5)],
    )];
    let rec = parse_attrs(&schema, "attr", &attrs, sp(9)).unwrap();
    assert_eq!(seq_tok_ident_texts(&rec, 0), vec!["minas".to_string(), "tirith".to_string()]);
}

#[test]
fn value_sequence_empty_when_absent() {
    let schema = one_field_schema(
        &["names"],
        ArgKind::Value { spaced: false },
        Shape::Sequence,
        Strategy::Unique,
    );
    let attrs: Vec<Attribute> = Vec::new();
    let rec = parse_attrs(&schema, "attr", &attrs, sp(9)).unwrap();
    assert_eq!(seq_tok_ident_texts(&rec, 0), Vec::<String>::new());
}

#[test]
fn value_sequence_is_unique() {
    let schema = one_field_schema(
        &["names"],
        ArgKind::Value { spaced: false },
        Shape::Sequence,
        Strategy::Unique,
    );
    let attrs = vec![attr(
        "attr",
        vec![ident("names", 1), paren(vec![ident("minas", 2), punct(',', 3), ident("minas", 4)], 5)],
    )];
    let err = parse_attrs(&schema, "attr", &attrs, sp(9)).unwrap_err();
    assert_eq!(err.message, "duplicated attribute's argument found");
}

#[test]
fn value_sequence_picks_first_arg_across_occurrences() {
    let schema = one_field_schema(
        &["name"],
        ArgKind::Value { spaced: false },
        Shape::Optional,
        Strategy::First,
    );
    let attrs = vec![
        attr("attr", vec![ident("name", 1), punct('=', 2), ident("minas", 3)]),
        attr("attr", vec![ident("name", 4), punct('=', 5), ident("tirith", 6)]),
    ];
    let rec = parse_attrs(&schema, "attr", &attrs, sp(9)).unwrap();
    assert_eq!(cell_tok_ident_text(&rec, 0).as_deref(), Some("minas"));
}

#[test]
fn value_is_unrawed_name_routes_by_display() {
    // A raw identifier routes under its written form, prefix included.
    let schema = one_field_schema(
        &["type"],
        ArgKind::Value { spaced: false },
        Shape::Optional,
        Strategy::Unique,
    );
    let attrs = vec![attr("attr", vec![ident("type", 1), punct('=', 2), ident("minas", 3)])];
    let rec = parse_attrs(&schema, "attr", &attrs, sp(9)).unwrap();
    assert_eq!(cell_tok_ident_text(&rec, 0).as_deref(), Some("minas"));
}

// --- map kind ---

fn map_entries(rec: &Record, f: usize) -> Vec<(String, String)> {
    match &rec.fields[f] {
        FieldState::Dict(m) => m
            .entries()
            .iter()
            .map(|(k, v)| {
                let val = match v {
                    TokenTree::Ident(n) => n.text.clone(),
                    TokenTree::Lit { text, .. } => text.clone(),
                    _ => panic!("unexpected value"),
                };
                (k.text.clone(), val)
            })
            .collect(),
        _ => panic!("not a mapping field"),
    }
}

#[test]
fn map_allows_present() {
    let schema = one_field_schema(&["on"], ArgKind::Pairs, Shape::Mapping, Strategy::Unique);
    let attrs = vec![
        attr("attr", vec![ident("on", 1), ident("minas", 2), punct('=', 3), lit("\"tirith\"", 4)]),
        attr("attr", vec![ident("on", 5), ident("loth", 6), punct('=', 7), lit("\"lorien\"", 8)]),
    ];
    let rec = parse_attrs(&schema, "attr", &attrs, sp(9)).unwrap();
    let out = map_entries(&rec, 0);
    assert_eq!(out.len(), 2, "wrong length of {out:?}");
    assert_eq!(out[0], ("minas".to_string(), "\"tirith\"".to_string()));
    assert_eq!(out[1], ("loth".to_string(), "\"lorien\"".to_string()));
}

#[test]
fn map_empty_on_absent() {
    let schema = one_field_schema(&["on"], ArgKind::Pairs, Shape::Mapping, Strategy::Unique);
    let attrs: Vec<Attribute> = Vec::new();
    let rec = parse_attrs(&schema, "attr", &attrs, sp(9)).unwrap();
    assert_eq!(map_entries(&rec, 0).len(), 0);
}

#[test]
fn map_forbids_no_key_value() {
    let schema = one_field_schema(&["on"], ArgKind::Pairs, Shape::Mapping, Strategy::Unique);
    let attrs = vec![attr("attr", vec![ident("on", 1)])];
    let err = parse_attrs(&schema, "attr", &attrs, sp(9)).unwrap_err();
    assert_eq!(err.message, "unexpected end of input, expected identifier");
}

#[test]
fn map_forbids_no_key() {
    let schema = one_field_schema(&["on"], ArgKind::Pairs, Shape::Mapping, Strategy::Unique);
    let attrs = vec![attr("attr", vec![ident("on", 1), punct('=', 2), lit("\"tirith\"", 3)])];
    let err = parse_attrs(&schema, "attr", &attrs, sp(9)).unwrap_err();
    assert_eq!(err.message, "expected identifier");
}

#[test]
fn map_forbids_no_value() {
    let schema = one_field_schema(&["on"], ArgKind::Pairs, Shape::Mapping, Strategy::Unique);
    let attrs = vec![attr("attr", vec![ident("on", 1), ident("minas", 2)])];
    let err = parse_attrs(&schema, "attr", &attrs, sp(9)).unwrap_err();
    assert_eq!(err.message, "expected `=`");
}

#[test]
fn map_forbids_parenthesized_key() {
    let schema = one_field_schema(&["on"], ArgKind::Pairs, Shape::Mapping, Strategy::Unique);
    let attrs = vec![attr(
        "attr",
        vec![ident("on", 1), paren(vec![ident("minas", 2), punct('=', 3), lit("\"tirith\"", 4)], 5)],
    )];
    let err = parse_attrs(&schema, "attr", &attrs, sp(9)).unwrap_err();
    assert_eq!(err.message, "expected identifier");
}

#[test]
fn map_is_unique_on_repeated_key() {
    let schema = one_field_schema(&["on"], ArgKind::Pairs, Shape::Mapping, Strategy::Unique);
    let attrs = vec![
        attr("attr", vec![ident("on", 1), ident("minas", 2), punct('=', 3), lit("\"tirith\"", 4)]),
        attr("attr", vec![ident("on", 5), ident("minas", 6), punct('=', 7), lit("\"morgul\"", 8)]),
    ];
    let err = parse_attrs(&schema, "attr", &attrs, sp(9)).unwrap_err();
    assert_eq!(err.message, "duplicated attribute's argument found");
}

#[test]
fn map_picks_last_on_repeated_key() {
    let schema = one_field_schema(&["on"], ArgKind::Pairs, Shape::Mapping, Strategy::Last);
    let attrs = vec![
        attr("attr", vec![ident("on", 1), ident("minas", 2), punct('=', 3), lit("\"tirith\"", 4)]),
        attr("attr", vec![ident("on", 5), ident("minas", 6), punct('=', 7), lit("\"morgul\"", 8)]),
    ];
    let rec = parse_attrs(&schema, "attr", &attrs, sp(9)).unwrap();
    let out = map_entries(&rec, 0);
    assert_eq!(out.len(), 1);
    assert_eq!(out[0], ("minas".to_string(), "\"morgul\"".to_string()));
}

// --- nested kind ---

fn nested_schema(outer_names: &[&str], shape: Shape, dedup: Strategy, inner: Schema) -> Schema {
    Schema { fields: vec![field(outer_names, ArgKind::Nested, shape, dedup, Some(inner))] }
}

fn inner_cell(rec: &Record, f: usize) -> Option<&Record> {
    match &rec.fields[f] {
        FieldState::Cell(Some(ArgValue::Nested(sp))) => Some(&sp.item),
        FieldState::Mand(m) => match &m.value {
            Some(ArgValue::Nested(sp)) => Some(&sp.item),
            _ => None,
        },
        _ => None,
    }
}

#[test]
fn nested_allows_present() {
    let inner = one_field_schema(&["ignore"], ArgKind::Ident, Shape::Optional, Strategy::Unique);
    let schema = nested_schema(&["sub"], Shape::Optional, Strategy::Unique, inner);
    let attrs = vec![attr("attr", vec![ident("sub", 1), paren(vec![ident("ignore", 2)], 3)])];
    let rec = parse_attrs(&schema, "attr", &attrs, sp(9)).unwrap();
    let sub = inner_cell(&rec, 0).expect("outer absent, but shouldn't");
    assert_eq!(cell_ident_text(sub, 0).as_deref(), Some("ignore"));
}

#[test]
fn nested_empty_on_absent_inner() {
    let inner = one_field_schema(&["ignore"], ArgKind::Ident, Shape::Optional, Strategy::Unique);
    let schema = nested_schema(&["sub"], Shape::Optional, Strategy::Unique, inner);
    let attrs = vec![attr("attr", vec![ident("sub", 1), paren(vec![], 3)])];
    let rec = parse_attrs(&schema, "attr", &attrs, sp(9)).unwrap();
    let sub = inner_cell(&rec, 0).expect("outer absent, but shouldn't");
    assert!(matches!(sub.fields[0], FieldState::Cell(None)));
}

#[test]
fn nested_empty_on_absent_outer() {
    let inner = one_field_schema(&["ignore"], ArgKind::Ident, Shape::Optional, Strategy::Unique);
    let schema = nested_schema(&["sub"], Shape::Optional, Strategy::Unique, inner);
    let attrs: Vec<Attribute> = Vec::new();
    let rec = parse_attrs(&schema, "attr", &attrs, sp(9)).unwrap();
    assert!(inner_cell(&rec, 0).is_none());
}

#[test]
fn nested_forbids_absent_inner() {
    let inner = one_field_schema(&["ignore"], ArgKind::Ident, Shape::Mandatory, Strategy::Unique);
    let schema = nested_schema(&["sub"], Shape::Mandatory, Strategy::Unique, inner);
    let attrs = vec![attr("attr", vec![ident("sub", 1), paren(vec![], 3)])];
    let err = parse_attrs(&schema, "attr", &attrs, sp(9)).unwrap_err();
    assert!(
        err.message.contains("`ignore` argument of `#[attr(sub)]` attribute is expected"),
        "wrong err: {}",
        err.message,
    );
}

#[test]
fn nested_forbids_absent_outer() {
    let inner = one_field_schema(&["ignore"], ArgKind::Ident, Shape::Mandatory, Strategy::Unique);
    let schema = nested_schema(&["sub"], Shape::Mandatory, Strategy::Unique, inner);
    let attrs: Vec<Attribute> = Vec::new();
    let err = parse_attrs(&schema, "attr", &attrs, sp(9)).unwrap_err();
    assert!(
        err.message.contains("`sub` argument of `#[attr]` attribute is expected"),
        "wrong err: {}",
        err.message,
    );
}

#[test]
fn nested_sequence_allows_present() {
    let inner =
        one_field_schema(&["ignore", "skip"], ArgKind::Ident, Shape::Optional, Strategy::Unique);
    let schema = nested_schema(&["sub"], Shape::Sequence, Strategy::Unique, inner);
    let attrs = vec![attr(
        "attr",
        vec![
            ident("sub", 1),
            paren(vec![ident("ignore", 2)], 3),
            punct(',', 4),
            ident("sub", 5),
            paren(vec![ident("skip", 6)], 7),
        ],
    )];
    let rec = parse_attrs(&schema, "attr", &attrs, sp(9)).unwrap();
    match &rec.fields[0] {
        FieldState::Many(vs) => {
            assert_eq!(vs.len(), 2, "wrong length");
            match (&vs[0], &vs[1]) {
                (ArgValue::Nested(a), ArgValue::Nested(b)) => {
                    assert_eq!(cell_ident_text(&a.item, 0).as_deref(), Some("ignore"));
                    assert_eq!(cell_ident_text(&b.item, 0).as_deref(), Some("skip"));
                },
                _ => panic!("wrong items"),
            }
        },
        _ => panic!("not a sequence"),
    }
}

#[test]
fn nested_dedup_unique_rejects_equivalent_records() {
    // Two occurrences whose nested records parse to equivalent contents.
    let inner = one_field_schema(&["ignore"], ArgKind::Ident, Shape::Optional, Strategy::Unique);
    let schema = nested_schema(&["sub"], Shape::Optional, Strategy::Unique, inner);
    let attrs = vec![
        attr("attr", vec![ident("sub", 1), paren(vec![ident("ignore", 2)], 3)]),
        attr("attr", vec![ident("sub", 4), paren(vec![ident("ignore", 5)], 6)]),
    ];
    let err = parse_attrs(&schema, "attr", &attrs, sp(9)).unwrap_err();
    assert_eq!(err.message, "duplicated attribute's argument found");
}

#[test]
fn nested_dedup_picks_first_across_occurrences() {
    let inner =
        one_field_schema(&["ignore", "skip"], ArgKind::Ident, Shape::Optional, Strategy::Unique);
    let schema = nested_schema(&["sub", "child"], Shape::Optional, Strategy::First, inner);
    let attrs = vec![
        attr("attr", vec![ident("child", 1), paren(vec![ident("skip", 2)], 3)]),
        attr("attr", vec![ident("sub", 4), paren(vec![ident("ignore", 5)], 6)]),
    ];
    let rec = parse_attrs(&schema, "attr", &attrs, sp(9)).unwrap();
    let sub = inner_cell(&rec, 0).expect("outer absent");
    assert_eq!(cell_ident_text(sub, 0).as_deref(), Some("skip"));
}

#[test]
fn nested_forbids_no_parentheses() {
    let inner = one_field_schema(&["ignore"], ArgKind::Ident, Shape::Optional, Strategy::Unique);
    let schema = nested_schema(&["sub"], Shape::Optional, Strategy::Unique, inner);
    let attrs = vec![attr("attr", vec![ident("sub", 1)])];
    let err = parse_attrs(&schema, "attr", &attrs, sp(9)).unwrap_err();
    assert_eq!(err.message, "unexpected end of input, expected parentheses");
}

// --- separators and unknown arguments ---

#[test]
fn missing_comma_between_arguments_is_refused() {
    let schema = Schema {
        fields: vec![
            field(&["a"], ArgKind::Ident, Shape::Optional, Strategy::Unique, None),
            field(&["b"], ArgKind::Ident, Shape::Optional, Strategy::Unique, None),
        ],
    };
    let attrs = vec![attr("attr", vec![ident("a", 1), ident("b", 2)])];
    let err = parse_attrs(&schema, "attr", &attrs, sp(9)).unwrap_err();
    assert_eq!(err.message, "expected followed by `,`");
}

#[test]
fn trailing_comma_is_admitted() {
    let schema = one_field_schema(&["a"], ArgKind::Ident, Shape::Optional, Strategy::Unique);
    let attrs = vec![attr("attr", vec![ident("a", 1), punct(',', 2)])];
    let rec = parse_attrs(&schema, "attr", &attrs, sp(9)).unwrap();
    assert_eq!(cell_ident_text(&rec, 0).as_deref(), Some("a"));
}

#[test]
fn two_fields_fill_independently() {
    let schema = Schema {
        fields: vec![
            field(&["a"], ArgKind::Ident, Shape::Optional, Strategy::Unique, None),
            field(&["b"], ArgKind::Ident, Shape::Optional, Strategy::Unique, None),
        ],
    };
    let attrs = vec![attr("attr", vec![ident("b", 1), punct(',', 2), ident("a", 3)])];
    let rec = parse_attrs(&schema, "attr", &attrs, sp(9)).unwrap();
    assert_eq!(cell_ident_text(&rec, 0).as_deref(), Some("a"));
    assert_eq!(cell_ident_text(&rec, 1).as_deref(), Some("b"));
}

#[test]
fn disjoint_occurrences_merge_the_same_in_either_order() {
    let schema = Schema {
        fields: vec![
            field(&["a"], ArgKind::Ident, Shape::Optional, Strategy::Unique, None),
            field(&["b"], ArgKind::Ident, Shape::Optional, Strategy::Unique, None),
        ],
    };
    let one = attr("attr", vec![ident("a", 1)]);
    let two = attr("attr", vec![ident("b", 2)]);
    let rec1 = parse_attrs(&schema, "attr", &vec![clone_attr(&one), clone_attr(&two)], sp(9));
    let rec2 = parse_attrs(&schema, "attr", &vec![two, one], sp(9));
    let rec1 = rec1.unwrap();
    let rec2 = rec2.unwrap();
    assert_eq!(cell_ident_text(&rec1, 0), cell_ident_text(&rec2, 0));
    assert_eq!(cell_ident_text(&rec1, 1), cell_ident_text(&rec2, 1));
}

fn clone_attr(a: &Attribute) -> Attribute {
    {
        let body = match &a.body {
            AttrBody::Path => AttrBody::Path,
            AttrBody::List(toks) => AttrBody::List(toks.clone()),
            AttrBody::NameValue(AttrExpr::Str { text, span }) => {
                AttrBody::NameValue(AttrExpr::Str { text: text.clone(), span: *span })
            },
            AttrBody::NameValue(AttrExpr::OtherLit { span }) => {
                AttrBody::NameValue(AttrExpr::OtherLit { span: *span })
            },
            AttrBody::NameValue(AttrExpr::Other { span }) => {
                AttrBody::NameValue(AttrExpr::Other { span: *span })
            },
        };
        Attribute { path: a.path.clone(), body }
    }
}

// --- doc fallback through the pipeline ---

#[test]
fn doc_fallback_uses_if_empty() {
    let mut f = field(
        &["desc"],
        ArgKind::Value { spaced: false },
        Shape::Optional,
        Strategy::Unique,
        None,
    );
    f.doc_fallback = true;
    let schema = Schema { fields: vec![f] };
    let attrs = vec![doc_attr(" bar", 1)];
    let rec = parse_attrs(&schema, "attr", &attrs, sp(9)).unwrap();
    match &rec.fields[0] {
        FieldState::Cell(Some(ArgValue::Tok(TokenTree::Lit { text, .. }))) => {
            assert_eq!(text, "\"bar\"");
        },
        other => panic!("wrong field state: {other:?}"),
    }
}

#[test]
fn doc_fallback_omits_not_empty() {
    let mut f = field(
        &["desc"],
        ArgKind::Value { spaced: false },
        Shape::Optional,
        Strategy::Unique,
        None,
    );
    f.doc_fallback = true;
    let schema = Schema { fields: vec![f] };
    let attrs = vec![
        doc_attr(" bar", 1),
        attr("attr", vec![ident("desc", 2), punct('=', 3), lit("\"foo\"", 4)]),
    ];
    let rec = parse_attrs(&schema, "attr", &attrs, sp(9)).unwrap();
    match &rec.fields[0] {
        FieldState::Cell(Some(ArgValue::Tok(TokenTree::Lit { text, .. }))) => {
            assert_eq!(text, "\"foo\"");
        },
        other => panic!("wrong field state: {other:?}"),
    }
}

#[test]
fn raw_argument_name_is_not_the_plain_one() {
    let schema = one_field_schema(&["extra"], ArgKind::Ident, Shape::Optional, Strategy::Unique);
    let raw = TokenTree::Ident(Name { text: "extra".to_string(), raw: true, span: sp(1) });
    let attrs = vec![attr("attr", vec![raw])];
    let err = parse_attrs(&schema, "attr", &attrs, sp(9)).unwrap_err();
    assert_eq!(err.message, "unknown `r#extra` attribute argument");
}

#[test]
fn bare_matching_attribute_is_refused() {
    let schema = one_field_schema(&["ignore"], ArgKind::Ident, Shape::Optional, Strategy::Unique);
    let attrs = vec![Attribute {
        path: vec![Name { text: "attr".to_string(), raw: false, span: sp(1) }],
        body: AttrBody::Path,
    }];
    let err = parse_attrs(&schema, "attr", &attrs, sp(9)).unwrap_err();
    assert_eq!(err.message, "expected attribute arguments in parentheses");
}

#[test]
fn doc_fallback_propagates_a_malformed_doc_attribute() {
    let mut f = field(
        &["desc"],
        ArgKind::Value { spaced: false },
        Shape::Optional,
        Strategy::Unique,
        None,
    );
    f.doc_fallback = true;
    let schema = Schema { fields: vec![f] };
    let attrs = vec![Attribute {
        path: vec![Name { text: "doc".to_string(), raw: false, span: sp(1) }],
        body: AttrBody::NameValue(AttrExpr::OtherLit { span: sp(2) }),
    }];
    let err = parse_attrs(&schema, "attr", &attrs, sp(9)).unwrap_err();
    assert_eq!(err.message, "`#[doc]` attribute can contain string literals only");
}

#[test]
fn unknown_argument_on_nested_inner_record() {
    let inner = one_field_schema(&["i"], ArgKind::Ident, Shape::Optional, Strategy::Unique);
    let schema = nested_schema(&["s"], Shape::Optional, Strategy::Unique, inner);
    let attrs = vec![attr("attr", vec![ident("s", 1), paren(vec![ident("ignore", 2)], 3)])];
    let err = parse_attrs(&schema, "attr", &attrs, sp(9)).unwrap_err();
    assert_eq!(err.message, "unknown `ignore` attribute argument");
}
