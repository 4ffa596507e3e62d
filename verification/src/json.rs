//! JSON documents, as deep as the library reads and writes them.
use vstd::prelude::*;
use serde_json::Value;
use crate::model;
use crate::model::Plain;
use crate::ordered;
use crate::text;

verus! {

/// An item of a row: a string, or none where it is anything else.
pub type Cell = Option<String>;

/// An item of an array: its items where it is an array, or none.
pub type Row = Option<Vec<Cell>>;

/// A document: its fields in the order of their names where it is an object,
/// or none.
pub type Doc = Option<Vec<(String, Field)>>;

/// The model of [`Cell`].
pub type CellV = Option<Seq<char>>;

/// The model of [`Row`].
pub type RowV = Option<Seq<CellV>>;

/// The model of [`Doc`].
pub type DocV = Option<Seq<(Seq<char>, FieldV)>>;

/// The value of a field.
#[derive(Debug, PartialEq, Eq)]
pub enum Field {
    /// A string.
    Text(String),
    /// A number, which is kept where it is whole and fits.
    Number(Option<u64>),
    /// An array, by its items.
    Rows(Vec<Row>),
    /// Anything else.
    Other,
}

/// The model of [`Field`].
#[verifier::ext_equal]
pub enum FieldV {
    Text(Seq<char>),
    Number(Option<u64>),
    Rows(Seq<RowV>),
    Other,
}

impl View for Field {
    type V = FieldV;

    open spec fn view(&self) -> FieldV {
        match self {
            Field::Text(s) => FieldV::Text(s@),
            Field::Number(n) => FieldV::Number(*n),
            Field::Rows(rows) => FieldV::Rows(rows.deep_view()),
            Field::Other => FieldV::Other,
        }
    }
}

impl DeepView for Field {
    type V = FieldV;

    open spec fn deep_view(&self) -> FieldV {
        self@
    }
}

impl Clone for Field {
    fn clone(&self) -> (r: Self)
        ensures
            r@ == self@,
    {
        self.copied()
    }
}

impl Plain for Field {
    fn copied(&self) -> (r: Self) {
        match self {
            Field::Text(s) => Field::Text(s.clone()),
            Field::Number(n) => Field::Number(*n),
            Field::Rows(rows) => Field::Rows(rows.copied()),
            Field::Other => Field::Other,
        }
    }

    fn same(&self, other: &Self) -> (r: bool) {
        match (self, other) {
            (Field::Text(a), Field::Text(b)) => text::same(a.as_str(), b.as_str()),
            (Field::Number(a), Field::Number(b)) => a.same(b),
            (Field::Rows(a), Field::Rows(b)) => a.same(b),
            (Field::Other, Field::Other) => true,
            _ => false,
        }
    }
}

/// What `serde_json::from_slice` reads from bytes, to the depth of [`Doc`]:
/// the document, or what the error says.
pub uninterp spec fn json_doc(bytes: Seq<u8>) -> Result<DocV, Seq<char>>;

/// What `serde_json::to_string` writes for a document, an item that is not
/// kept as a null.
pub uninterp spec fn json_text(doc: DocV) -> Seq<char>;

/// What `serde_json::to_string` writes for an object of objects of strings,
/// the later of two entries under one key counting.
pub uninterp spec fn json_table(rows: Seq<(Seq<char>, Seq<(Seq<char>, Seq<char>)>)>) -> Seq<char>;

/// All of the row is kept.
pub open spec fn row_whole(row: RowV) -> bool {
    row matches Some(cells) && forall|i: int|
        0 <= i < cells.len() ==> (#[trigger] cells[i]) is Some
}

/// Each of the rows is kept, all of it.
pub open spec fn rows_whole(rows: Seq<RowV>) -> bool {
    forall|i: int| 0 <= i < rows.len() ==> row_whole(#[trigger] rows[i])
}

impl FieldV {
    /// All of the field is kept.
    pub open spec fn whole(self) -> bool {
        match self {
            FieldV::Text(_) => true,
            FieldV::Number(n) => n is Some,
            FieldV::Rows(rows) => rows_whole(rows),
            FieldV::Other => false,
        }
    }
}

/// All of the fields are kept, and they stand in order.
pub open spec fn fields_whole(fields: Seq<(Seq<char>, FieldV)>) -> bool {
    &&& text::sorted(ordered::keys(fields))
    &&& forall|i: int| 0 <= i < fields.len() ==> (#[trigger] fields[i]).1.whole()
}

/// All of the document is kept, and its fields stand in order.
pub open spec fn doc_whole(doc: DocV) -> bool {
    doc matches Some(fields) && fields_whole(fields)
}

/// The field of that name.
pub open spec fn field_of(doc: DocV, name: Seq<char>) -> Option<FieldV> {
    match doc {
        Some(fields) => ordered::find(fields, name),
        None => None,
    }
}

/// A document all of which is kept is read from this text.
pub open spec fn reads_back(t: Seq<char>, doc: DocV) -> bool {
    doc_whole(doc) ==> json_doc(text::utf8(t)) == Ok::<DocV, Seq<char>>(doc)
}

/// `serde_json::from_slice` into a `serde_json::Value`, which is then taken
/// as a [`Doc`]. Claims only that the outcome is a function of the bytes.
#[verifier::external_body]
pub(crate) fn read_doc(bytes: &Vec<u8>) -> (r: Result<Doc, String>)
    ensures
        model::outcome(r) == json_doc(bytes@),
{
    let cell = |c: &Value| c.as_str().map(String::from);
    let value: Value = serde_json::from_slice(bytes).map_err(|e| e.to_string())?;
    Ok(value.as_object().map(|o| o.iter().map(|(k, f)| (k.into(), match f {
        Value::String(s) => Field::Text(s.into()),
        Value::Number(n) => Field::Number(n.as_u64()),
        Value::Array(a) => Field::Rows(
            a.iter().map(|r| r.as_array().map(|c| c.iter().map(cell).collect())).collect(),
        ),
        _ => Field::Other,
    })).collect()))
}

/// `serde_json::to_string` of the `serde_json::Value` that a [`Doc`] stands
/// for. Claims that the text is a function of the document, and that a
/// document all of which is kept is read back from its text.
#[verifier::external_body]
pub(crate) fn print_doc(doc: &Doc) -> (r: String)
    ensures
        r@ == json_text(doc.deep_view()),
        reads_back(r@, doc.deep_view()),
{
    let field = |f: &Field| match f {
        Field::Text(s) => Value::from(s.as_str()),
        Field::Number(n) => Value::from(*n),
        Field::Rows(rows) => Value::from(rows.clone()),
        Field::Other => Value::Null,
    };
    match doc {
        Some(f) => Value::Object(f.iter().map(|(k, x)| (k.clone(), field(x))).collect()),
        None => Value::Null,
    }.to_string()
}

/// The text of a `serde_json::Value` that is an object of objects of strings.
/// Claims only that the text is a function of the entries.
#[verifier::external_body]
pub(crate) fn print_table(rows: &Vec<(String, Vec<(String, String)>)>) -> (r: String)
    ensures
        r@ == json_table(rows.deep_view()),
{
    let inner = |f: &Vec<(String, String)>| {
        Value::Object(f.iter().map(|(a, b)| (a.clone(), Value::from(b.as_str()))).collect())
    };
    Value::Object(rows.iter().map(|(k, f)| (k.clone(), inner(f))).collect()).to_string()
}

/// The field of that name.
pub fn field<'a>(doc: &'a Doc, name: &str) -> (r: Option<&'a Field>)
    ensures
        match r {
            Some(f) => field_of(doc.deep_view(), name@) == Some(f@),
            None => field_of(doc.deep_view(), name@) is None,
        },
{
    let Some(fields) = doc else {
        return None;
    };
    let ghost all = fields.deep_view();
    let mut i: usize = 0;
    assert(all.skip(0) =~= all);
    while i < fields.len()
        invariant
            i <= fields.len(),
            all == fields.deep_view(),
            doc.deep_view() == Some(all),
            ordered::find(all, name@) == ordered::find(all.skip(i as int), name@),
        decreases fields.len() - i,
    {
        proof {
            assert(all.skip(i as int).drop_first() =~= all.skip(i + 1));
            assert(all.skip(i as int)[0] == fields@[i as int].deep_view());
        }
        if text::same(fields[i].0.as_str(), name) {
            return Some(&fields[i].1);
        }
        i += 1;
    }
    None
}

} // verus!
