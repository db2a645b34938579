use vstd::prelude::*;
use crate::managers::assoc::{
    find_key, key_absent, keys_distinct, lemma_pairs_absent, lemma_pairs_len, lemma_pairs_push,
    lemma_pairs_remove,
    lemma_pairs_update, lemma_pairs_value, pairs_distinct, pairs_map,
};

verus! {

/// A JSON number, carried as the JSON crate holds it. Verus sees nothing
/// inside it: what the library needs of a number it asks through
/// [`number_i64`] and [`number_u64`].
#[verifier::external_type_specification]
#[verifier::external_body]
pub struct ExNumber(serde_json::Number);

/// What `serde_json::Number::as_i64` returns for a number: the number as an
/// `i64`, where it is an integer in that range.
pub uninterp spec fn number_i64(n: serde_json::Number) -> Option<i64>;

/// What `serde_json::Number::as_u64` returns for a number: the number as a
/// `u64`, where it is an integer in that range.
pub uninterp spec fn number_u64(n: serde_json::Number) -> Option<u64>;

/// `serde_json::Number::as_i64` reads the number and returns what
/// [`number_i64`] names.
pub assume_specification[ serde_json::Number::as_i64 ](n: &serde_json::Number) -> (r: Option<i64>)
    ensures
        r == number_i64(*n),
;

/// `serde_json::Number::as_u64` reads the number and returns what
/// [`number_u64`] names.
pub assume_specification[ serde_json::Number::as_u64 ](n: &serde_json::Number) -> (r: Option<u64>)
    ensures
        r == number_u64(*n),
;

/// The derived `Clone` of `serde_json::Number` copies the number as it is.
pub assume_specification[ <serde_json::Number as Clone>::clone ](n: &serde_json::Number) -> (r:
    serde_json::Number)
    ensures
        r == *n,
;

/// The tag of a document. The three kinds of number are tags of their own:
/// an integer that fits `i64` is `Int64`, a larger one that fits `u64` is
/// `UInt64`, and every other number is `Float64`.
#[derive(Clone, Copy, Debug, PartialEq, Eq, Structural)]
pub enum Tag {
    Null,
    Bool,
    Int64,
    UInt64,
    Float64,
    String,
    Array,
    Object,
}

/// A JSON-like value. An object is a list of fields, each a key and a value,
/// in which no key occurs twice (see [`Document::wf`]); the order of the
/// fields carries no meaning.
#[derive(Debug)]
pub enum Document {
    Null,
    Bool(bool),
    Number(serde_json::Number),
    String(String),
    Array(Vec<Document>),
    Object(Vec<(String, Document)>),
}

/// The mathematical value of a [`Document`]: an object is a finite map from
/// keys to values.
pub enum DocumentView {
    Null,
    Bool(bool),
    Number(serde_json::Number),
    String(Seq<char>),
    Array(Seq<DocumentView>),
    Object(Map<Seq<char>, DocumentView>),
}

/// The tag of a number.
pub open spec fn number_tag(n: serde_json::Number) -> Tag {
    if number_i64(n) is Some {
        Tag::Int64
    } else if number_u64(n) is Some {
        Tag::UInt64
    } else {
        Tag::Float64
    }
}

impl DocumentView {
    pub open spec fn tag(self) -> Tag {
        match self {
            DocumentView::Null => Tag::Null,
            DocumentView::Bool(_) => Tag::Bool,
            DocumentView::Number(n) => number_tag(n),
            DocumentView::String(_) => Tag::String,
            DocumentView::Array(_) => Tag::Array,
            DocumentView::Object(_) => Tag::Object,
        }
    }

    /// The value of field `key`, if this is an object that has such a field.
    pub open spec fn field(self, key: Seq<char>) -> Option<DocumentView> {
        match self {
            DocumentView::Object(fields) => if fields.contains_key(key) {
                Some(fields[key])
            } else {
                None
            },
            _ => None,
        }
    }
}

/// Whether a value tagged `new_tag` may replace one tagged `old_tag`: the two
/// tags are the same, and they are not `Null`.
pub open spec fn tags_compatible(old_tag: Tag, new_tag: Tag) -> bool {
    old_tag == new_tag && old_tag != Tag::Null
}

/// Whether `new_value` may replace `old_value` under the store's overwrite
/// rule.
pub open spec fn compatible(old_value: DocumentView, new_value: DocumentView) -> bool {
    tags_compatible(old_value.tag(), new_value.tag())
}

/// The views of a list of documents, in order.
pub open spec fn items_view(items: Seq<Document>) -> Seq<DocumentView>
    decreases items,
{
    Seq::new(
        items.len(),
        |i: int|
            if 0 <= i < items.len() {
                items[i].view()
            } else {
                DocumentView::Null
            },
    )
}

/// The fields of an object as pairs of views, in order.
pub open spec fn field_pairs(fields: Seq<(String, Document)>) -> Seq<(Seq<char>, DocumentView)>
    decreases fields,
{
    Seq::new(
        fields.len(),
        |i: int|
            if 0 <= i < fields.len() {
                (fields[i].0@, fields[i].1.view())
            } else {
                (Seq::empty(), DocumentView::Null)
            },
    )
}

/// The map that the fields of an object stand for.
pub open spec fn fields_view(fields: Seq<(String, Document)>) -> Map<Seq<char>, DocumentView> {
    pairs_map(field_pairs(fields))
}

impl Document {
    pub open spec fn view(&self) -> DocumentView
        decreases self,
    {
        match self {
            Document::Null => DocumentView::Null,
            Document::Bool(b) => DocumentView::Bool(*b),
            Document::Number(n) => DocumentView::Number(*n),
            Document::String(s) => DocumentView::String(s@),
            Document::Array(items) => DocumentView::Array(items_view(items@)),
            Document::Object(fields) => DocumentView::Object(pairs_map(field_pairs(fields@))),
        }
    }

    /// In every object of the document, at any depth, no key occurs twice.
    pub open spec fn wf(&self) -> bool
        decreases self,
    {
        match self {
            Document::Array(items) => forall|i: int|
                0 <= i < items@.len() ==> (#[trigger] items@[i]).wf(),
            Document::Object(fields) => {
                &&& keys_distinct(fields@)
                &&& forall|i: int| 0 <= i < fields@.len() ==> (#[trigger] fields@[i]).1.wf()
            },
            _ => true,
        }
    }

    /// Returns the tag of the document.
    pub fn tag(&self) -> (t: Tag)
        ensures
            t == self@.tag(),
    {
        match self {
            Document::Null => Tag::Null,
            Document::Bool(_) => Tag::Bool,
            Document::Number(n) => {
                if n.as_i64().is_some() {
                    Tag::Int64
                } else if n.as_u64().is_some() {
                    Tag::UInt64
                } else {
                    Tag::Float64
                }
            },
            Document::String(_) => Tag::String,
            Document::Array(_) => Tag::Array,
            Document::Object(_) => Tag::Object,
        }
    }

    /// Says whether `new_value` may replace this document under the store's
    /// overwrite rule.
    pub fn accepts(&self, new_value: &Document) -> (b: bool)
        ensures
            b == compatible(self@, new_value@),
    {
        let old_tag = self.tag();
        old_tag == new_value.tag() && old_tag != Tag::Null
    }

    /// Returns the value of field `key`, if this document is an object that
    /// has such a field.
    pub fn get(&self, key: &String) -> (r: Option<&Document>)
        requires
            self.wf(),
        ensures
            match r {
                Some(value) => self@.field(key@) == Some(value@) && value.wf(),
                None => self@.field(key@) is None,
            },
    {
        match self {
            Document::Object(fields) => {
                match find_key(fields, key) {
                    Some(i) => {
                        proof {
                            lemma_field_at(fields@, i as int);
                        }
                        Some(&fields[i].1)
                    },
                    None => {
                        proof {
                            lemma_field_absent(fields@, key@);
                        }
                        None
                    },
                }
            },
            _ => None,
        }
    }
}

/// The pairs of a list of fields have its keys, so none occurs twice among
/// them where none does among the fields.
pub proof fn lemma_field_pairs(fields: Seq<(String, Document)>)
    ensures
        field_pairs(fields).len() == fields.len(),
        forall|i: int|
            0 <= i < fields.len() ==> #[trigger] field_pairs(fields)[i] == (
                fields[i].0@,
                fields[i].1@,
            ),
        keys_distinct(fields) ==> pairs_distinct(field_pairs(fields)),
{
}

/// A list of fields without a repeated key stands for a map of as many keys.
pub proof fn lemma_fields_len(fields: Seq<(String, Document)>)
    requires
        keys_distinct(fields),
    ensures
        fields_view(fields).len() == fields.len(),
{
    lemma_field_pairs(fields);
    lemma_pairs_len(field_pairs(fields));
}

/// In a list of fields without a repeated key, the map holds the value of
/// field `i` under its key.
pub proof fn lemma_field_at(fields: Seq<(String, Document)>, i: int)
    requires
        keys_distinct(fields),
        0 <= i < fields.len(),
    ensures
        fields_view(fields).contains_key(fields[i].0@),
        fields_view(fields)[fields[i].0@] == fields[i].1@,
{
    lemma_field_pairs(fields);
    lemma_pairs_value(field_pairs(fields), i);
}

/// A key that no field has is not in the map.
pub proof fn lemma_field_absent(fields: Seq<(String, Document)>, key: Seq<char>)
    requires
        key_absent(fields, key),
    ensures
        !fields_view(fields).contains_key(key),
{
    lemma_field_pairs(fields);
    assert forall|j: int| 0 <= j < field_pairs(fields).len() implies (#[trigger] field_pairs(
        fields,
    )[j]).0 != key by {
        assert(fields[j].0@ != key);
    }
    lemma_pairs_absent(field_pairs(fields), key);
}

/// Replacing the value of field `i` replaces the value under its key.
pub proof fn lemma_field_update(fields: Seq<(String, Document)>, i: int, value: Document)
    requires
        keys_distinct(fields),
        0 <= i < fields.len(),
    ensures
        keys_distinct(fields.update(i, (fields[i].0, value))),
        fields_view(fields.update(i, (fields[i].0, value))) == fields_view(fields).insert(
            fields[i].0@,
            value@,
        ),
{
    let after = fields.update(i, (fields[i].0, value));
    lemma_field_pairs(fields);
    lemma_field_pairs(after);
    assert(field_pairs(after) =~= field_pairs(fields).update(i, (fields[i].0@, value@)));
    lemma_pairs_update(field_pairs(fields), i, value@);
    assert forall|a: int, b: int| 0 <= a < b < after.len() implies after[a].0@ != after[b].0@ by {
        assert(after[a].0 == fields[a].0);
        assert(after[b].0 == fields[b].0);
    }
}

/// Where the value of field `i` alone has changed, the map holds the new
/// value under that field's key and is otherwise what it was.
pub proof fn lemma_field_changed(
    before: Seq<(String, Document)>,
    after: Seq<(String, Document)>,
    i: int,
)
    requires
        keys_distinct(before),
        0 <= i < before.len(),
        after == before.update(i, (before[i].0, after[i].1)),
    ensures
        keys_distinct(after),
        fields_view(after) == fields_view(before).insert(before[i].0@, after[i].1@),
        after[i].1@ == before[i].1@ ==> fields_view(after) == fields_view(before),
{
    lemma_field_update(before, i, after[i].1);
    lemma_field_at(before, i);
    if after[i].1@ == before[i].1@ {
        assert(fields_view(before).insert(before[i].0@, before[i].1@) =~= fields_view(before));
    }
}

/// Adding a field under a new key adds it to the map.
pub proof fn lemma_field_push(fields: Seq<(String, Document)>, key: String, value: Document)
    requires
        keys_distinct(fields),
        key_absent(fields, key@),
    ensures
        keys_distinct(fields.push((key, value))),
        fields_view(fields.push((key, value))) == fields_view(fields).insert(key@, value@),
{
    let after = fields.push((key, value));
    lemma_field_pairs(fields);
    lemma_field_pairs(after);
    assert(field_pairs(after) =~= field_pairs(fields).push((key@, value@)));
    lemma_pairs_push(field_pairs(fields), key@, value@);
    assert forall|a: int, b: int| 0 <= a < b < after.len() implies after[a].0@ != after[b].0@ by {
        if b == fields.len() {
            assert(fields[a].0@ != key@);
        } else {
            assert(after[a] == fields[a]);
            assert(after[b] == fields[b]);
        }
    }
}

/// Taking field `i` out takes its key out of the map.
pub proof fn lemma_field_remove(fields: Seq<(String, Document)>, i: int)
    requires
        keys_distinct(fields),
        0 <= i < fields.len(),
    ensures
        keys_distinct(fields.remove(i)),
        fields_view(fields.remove(i)) == fields_view(fields).remove(fields[i].0@),
{
    let after = fields.remove(i);
    lemma_field_pairs(fields);
    lemma_field_pairs(after);
    assert(field_pairs(after) =~= field_pairs(fields).remove(i));
    lemma_pairs_remove(field_pairs(fields), i);
    assert forall|a: int, b: int| 0 <= a < b < after.len() implies after[a].0@ != after[b].0@ by {
        let a0 = if a < i { a } else { a + 1 };
        let b0 = if b < i { b } else { b + 1 };
        assert(after[a] == fields[a0]);
        assert(after[b] == fields[b0]);
    }
}

} // verus!
