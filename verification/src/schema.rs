//! The description of a configuration record that drives the parsing
//! machinery: one entry per field, carrying the recognized argument names,
//! the parse kind, the container shape and the deduplication strategy.

use vstd::prelude::*;

use crate::dedup::Strategy;

verus! {

/// The kind of an argument's body, as data: how the tokens following a
/// recognized name are shaped.
#[derive(Clone, Copy, Debug, PartialEq, Eq, Structural)]
pub enum ArgKind {
    /// The argument is the bare name token itself.
    Ident,
    /// The name is followed by a parenthesized sub-attribute body parsed as
    /// a nested record.
    Nested,
    /// The name is followed by `=` and one value, or by a parenthesized
    /// list of values; the spaced sub-mode also admits one value standing
    /// right after the name.
    Value {
        /// Whether a single value may stand right after the name, with no
        /// `=` in between.
        spaced: bool,
    },
    /// The name is followed by one `key = value` pair per occurrence.
    Pairs,
}

/// The shape of the container a field keeps its values in.
#[derive(Clone, Copy, Debug, PartialEq, Eq, Structural)]
pub enum Shape {
    /// An optional cell: at most one value, allowed to stay absent.
    Optional,
    /// A mandatory cell: at most one value, required to be present once
    /// parsing is over.
    Mandatory,
    /// An ordered sequence of values.
    Sequence,
    /// A key-value mapping.
    Mapping,
}

/// The description of one field of a configuration record.
#[derive(Debug)]
pub struct FieldSchema {
    /// The argument names recognized for this field, in order; never empty.
    pub names: Vec<String>,
    /// How an argument's body for this field is shaped.
    pub kind: ArgKind,
    /// The shape of the container the field keeps its values in.
    pub shape: Shape,
    /// How repeated values of this field are treated.
    pub dedup: Strategy,
    /// For a nested field, the description of the nested record.
    pub nested: Option<Box<Schema>>,
    /// Whether an empty field falls back to the text of the item's `doc`
    /// attributes.
    pub doc_fallback: bool,
}

/// The description of a whole configuration record.
#[derive(Debug)]
pub struct Schema {
    /// The descriptions of the record's fields, in declaration order.
    pub fields: Vec<FieldSchema>,
}

/// What a [`FieldSchema`] holds, for specifications.
pub struct FieldSchemaView {
    /// The recognized argument names, in order.
    pub names: Seq<Seq<char>>,
    /// How an argument's body is shaped.
    pub kind: ArgKind,
    /// The shape of the field's container.
    pub shape: Shape,
    /// How repeated values are treated.
    pub dedup: Strategy,
    /// For a nested field, the description of the nested record.
    pub nested: Option<SchemaView>,
    /// Whether an empty field falls back to the item's `doc` text.
    pub doc_fallback: bool,
}

/// What a [`Schema`] holds, for specifications.
pub struct SchemaView {
    /// The descriptions of the record's fields, in order.
    pub fields: Seq<FieldSchemaView>,
}

/// The views of a sequence of strings, in order.
pub open spec fn strings_view(s: Seq<String>) -> Seq<Seq<char>>
    decreases s,
{
    if s.len() == 0 {
        Seq::empty()
    } else {
        seq![s[0]@] + strings_view(s.drop_first())
    }
}

/// [`strings_view`] maps the sequence element by element.
pub proof fn lemma_strings_view(s: Seq<String>)
    ensures
        strings_view(s).len() == s.len(),
        forall|i: int| 0 <= i < s.len() ==> strings_view(s)[i] == (#[trigger] s[i])@,
    decreases s,
{
    if s.len() > 0 {
        lemma_strings_view(s.drop_first());
        assert(forall|i: int| 1 <= i < s.len() ==> s.drop_first()[i - 1] == #[trigger] s[i]);
    }
}

/// The view of one field description.
pub open spec fn field_schema_view(f: FieldSchema) -> FieldSchemaView
    decreases f,
{
    FieldSchemaView {
        names: strings_view(f.names@),
        kind: f.kind,
        shape: f.shape,
        dedup: f.dedup,
        nested: match f.nested {
            Option::Some(b) => Some(schema_view(*b)),
            Option::None => None,
        },
        doc_fallback: f.doc_fallback,
    }
}

/// The view of a whole record description.
pub open spec fn schema_view(s: Schema) -> SchemaView
    decreases s,
{
    SchemaView { fields: fields_view(s.fields@) }
}

/// The views of a sequence of field descriptions, in order.
pub open spec fn fields_view(s: Seq<FieldSchema>) -> Seq<FieldSchemaView>
    decreases s,
{
    if s.len() == 0 {
        Seq::empty()
    } else {
        seq![field_schema_view(s[0])] + fields_view(s.drop_first())
    }
}

/// [`fields_view`] maps the sequence element by element.
pub proof fn lemma_fields_view(s: Seq<FieldSchema>)
    ensures
        fields_view(s).len() == s.len(),
        forall|i: int| 0 <= i < s.len() ==> fields_view(s)[i] == field_schema_view(
            #[trigger] s[i],
        ),
    decreases s,
{
    if s.len() > 0 {
        lemma_fields_view(s.drop_first());
        assert(forall|i: int| 1 <= i < s.len() ==> s.drop_first()[i - 1] == #[trigger] s[i]);
    }
}

impl View for FieldSchema {
    type V = FieldSchemaView;

    open spec fn view(&self) -> FieldSchemaView {
        field_schema_view(*self)
    }
}

impl View for Schema {
    type V = SchemaView;

    open spec fn view(&self) -> SchemaView {
        schema_view(*self)
    }
}

/// Whether one field description is well-formed, its nested description
/// aside: it recognizes at least one name, its kind fits its container
/// shape, and exactly the nested kind carries a nested description.
pub open spec fn field_wf_shallow(f: FieldSchemaView) -> bool {
    &&& f.names.len() > 0
    &&& match f.kind {
        ArgKind::Ident => f.shape == Shape::Optional || f.shape == Shape::Mandatory,
        ArgKind::Nested => f.shape != Shape::Mapping,
        ArgKind::Value { .. } => f.shape != Shape::Mapping,
        ArgKind::Pairs => f.shape == Shape::Mapping,
    }
    &&& (f.kind == ArgKind::Nested <==> f.nested is Some)
    &&& (f.doc_fallback ==> f.kind matches ArgKind::Value { .. })
}

/// Whether a record description is well-formed: every field is, nested
/// descriptions included.
pub open spec fn schema_wf(s: SchemaView) -> bool
    decreases s,
{
    forall|i: int|
        0 <= i < s.fields.len() ==> {
            let f = #[trigger] s.fields[i];
            field_wf_shallow(f) && (f.nested matches Some(n) ==> schema_wf(n))
        }
}

/// The position of the first field at or after `i` whose name set contains
/// `name`, if any.
pub open spec fn field_for_from(fields: Seq<FieldSchemaView>, name: Seq<char>, i: int) -> Option<
    int,
>
    decreases fields.len() - i,
{
    if i < 0 || i >= fields.len() {
        None
    } else if fields[i].names.contains(name) {
        Some(i)
    } else {
        field_for_from(fields, name, i + 1)
    }
}

/// The position of the first field whose name set contains `name`, if any:
/// how an argument name found in an attribute body is routed to a field.
pub open spec fn field_for_name(s: SchemaView, name: Seq<char>) -> Option<int> {
    field_for_from(s.fields, name, 0)
}

/// A found position lies within the field list.
pub proof fn lemma_field_for_range(fields: Seq<FieldSchemaView>, name: Seq<char>, i: int)
    requires
        0 <= i,
    ensures
        field_for_from(fields, name, i) matches Some(j) ==> i <= j < fields.len(),
    decreases fields.len() - i,
{
    if i < fields.len() && !fields[i].names.contains(name) {
        lemma_field_for_range(fields, name, i + 1);
    }
}

impl Schema {
    /// Returns the position of the first field recognizing the argument
    /// name, if any.
    #[verifier::loop_isolation(false)]
    pub fn field_for(&self, name: &String) -> (r: Option<usize>)
        ensures
            field_for_name(self@, name@) matches Some(i) ==> (r matches Some(u) && u == i),
            field_for_name(self@, name@) is None ==> r is None,
    {
        proof {
            lemma_fields_view(self.fields@);
        }
        let n = self.fields.len();
        let mut i: usize = 0;
        while i < n
            invariant
                i <= n,
                field_for_name(self@, name@) == field_for_from(self@.fields, name@, i as int),
            decreases n - i,
        {
            if field_has_name(&self.fields[i], name) {
                return Some(i);
            }
            i += 1;
        }
        None
    }
}


impl FieldSchema {
    /// Checks the shallow well-formedness of this field description.
    pub fn is_wf_shallow(&self) -> (r: bool)
        ensures
            r == field_wf_shallow(self@),
    {
        proof {
            lemma_strings_view(self.names@);
        }
        if self.names.len() == 0 {
            return false;
        }
        let shape_ok = match self.kind {
            ArgKind::Ident => matches!(self.shape, Shape::Optional | Shape::Mandatory),
            ArgKind::Nested => !matches!(self.shape, Shape::Mapping),
            ArgKind::Value { .. } => !matches!(self.shape, Shape::Mapping),
            ArgKind::Pairs => matches!(self.shape, Shape::Mapping),
        };
        if !shape_ok {
            return false;
        }
        let nested_ok = matches!(self.kind, ArgKind::Nested) == self.nested.is_some();
        if !nested_ok {
            return false;
        }
        if self.doc_fallback && !matches!(self.kind, ArgKind::Value { .. }) {
            return false;
        }
        true
    }
}

impl Schema {
    /// Checks whether this description is well-formed, nested descriptions
    /// included: what the parsing machinery requires of the description it
    /// is driven by. An unverified caller tests this before handing the
    /// description to the machinery.
    #[verifier::loop_isolation(false)]
    pub fn is_wf(&self) -> (r: bool)
        ensures
            r == schema_wf(self@),
        decreases *self,
    {
        proof {
            lemma_fields_view(self.fields@);
        }
        let n = self.fields.len();
        let mut i: usize = 0;
        while i < n
            invariant
                i <= n,
                forall|j: int|
                    0 <= j < i ==> {
                        let f = #[trigger] self@.fields[j];
                        field_wf_shallow(f) && (f.nested matches Some(sub) ==> schema_wf(sub))
                    },
            decreases n - i,
        {
            let fld = &self.fields[i];
            if !fld.is_wf_shallow() {
                return false;
            }
            if let Some(sub) = &fld.nested {
                proof {
                    assert(decreases_to!(*self => self.fields@[i as int]));
                    assert(self.fields@[i as int].nested == Option::Some(*sub));
                }
                if !sub.is_wf() {
                    proof {
                        assert(self@.fields[i as int].nested matches Some(sv) && !schema_wf(sv));
                    }
                    return false;
                }
            }
            i += 1;
        }
        true
    }
}

/// Returns whether the field recognizes the argument name.
#[verifier::loop_isolation(false)]
pub fn field_has_name(f: &FieldSchema, name: &String) -> (r: bool)
    ensures
        r == f@.names.contains(name@),
{
    proof {
        lemma_strings_view(f.names@);
    }
    let n = f.names.len();
    let mut i: usize = 0;
    while i < n
        invariant
            i <= n,
            n == f.names@.len(),
            forall|j: int| 0 <= j < i ==> f@.names[j] != name@,
        decreases n - i,
    {
        if f.names[i].eq(name) {
            assert(f@.names[i as int] == name@);
            return true;
        }
        i += 1;
    }
    proof {
        assert(forall|j: int| 0 <= j < f@.names.len() ==> f@.names[j] != name@);
        assert(!f@.names.contains(name@));
    }
    false
}

} // verus!
