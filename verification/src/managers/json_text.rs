//! Documents as JSON text. Reading and writing the text is the work of
//! `serde_json`; this module turns its values into documents and back, one
//! level at a time.

use vstd::prelude::*;
use crate::managers::assoc::{
    keys_distinct, keys_ordered, lemma_ordered_distinct, lemma_pairs_dom, lemma_pairs_value,
    pairs_map,
};
use crate::managers::json::{field_pairs, items_view, Document, DocumentView};
use crate::managers::text::text_before;

verus! {

/// A JSON value as `serde_json` holds it.
#[verifier::external_type_specification]
#[verifier::external_body]
pub struct ExValue(serde_json::Value);

/// The error of `serde_json`'s parser.
#[verifier::external_type_specification]
#[verifier::external_body]
pub struct ExJsonError(serde_json::Error);

/// What a `serde_json::Value` holds: null, a boolean, a number, a string, the
/// items of an array in order, or the members of an object by key.
pub uninterp spec fn value_view(v: serde_json::Value) -> DocumentView;

/// What `serde_json::from_str` makes of a text: the value it parses to, or
/// `None` where the parser rejects the text.
pub uninterp spec fn json_parse(text: Seq<char>) -> Option<DocumentView>;

/// The compact JSON text that `serde_json` writes for a value.
pub uninterp spec fn json_text(d: DocumentView) -> Seq<char>;

/// One level of a `serde_json::Value`: what the value holds itself, with the
/// items of an array and the members of an object still as `serde_json` has
/// them.
pub enum Node {
    Null,
    Bool(bool),
    Number(serde_json::Number),
    String(String),
    Array(Vec<serde_json::Value>),
    Object(Vec<(String, serde_json::Value)>),
}

/// What each of the values holds, in order.
pub open spec fn values_view(values: Seq<serde_json::Value>) -> Seq<DocumentView> {
    Seq::new(values.len(), |i: int| value_view(values[i]))
}

/// The members of an object as pairs of a key and what the value holds.
pub open spec fn member_pairs(members: Seq<(String, serde_json::Value)>) -> Seq<
    (Seq<char>, DocumentView),
> {
    Seq::new(members.len(), |i: int| (members[i].0@, value_view(members[i].1)))
}

impl Node {
    pub open spec fn view(self) -> DocumentView {
        match self {
            Node::Null => DocumentView::Null,
            Node::Bool(b) => DocumentView::Bool(b),
            Node::Number(n) => DocumentView::Number(n),
            Node::String(s) => DocumentView::String(s@),
            Node::Array(items) => DocumentView::Array(values_view(items@)),
            Node::Object(members) => DocumentView::Object(pairs_map(member_pairs(members@))),
        }
    }

    /// Among the members of an object no key occurs twice.
    pub open spec fn wf(self) -> bool {
        self matches Node::Object(members) ==> keys_distinct(members@)
    }

    /// The members of an object come in the order of their keys.
    pub open spec fn ordered(self) -> bool {
        self matches Node::Object(members) ==> keys_ordered(members@)
    }
}

/// `serde_json::from_str`, for a `serde_json::Value`: the parser accepts the
/// text exactly where [`json_parse`] has a value for it, and the value it
/// returns holds that.
#[verifier::external_body]
fn parse_value(text: &str) -> (r: Result<serde_json::Value, serde_json::Error>)
    ensures
        match r {
            Ok(v) => json_parse(text@) == Some(value_view(v)),
            Err(_) => json_parse(text@) is None,
        },
{
    serde_json::from_str::<serde_json::Value>(text)
}

/// `to_string` of a `serde_json::Value`, which writes the value through its
/// `Display` as compact JSON: the text depends on nothing but what the value
/// holds.
#[verifier::external_body]
fn value_text(v: &serde_json::Value) -> (s: String)
    ensures
        s@ == json_text(value_view(*v)),
{
    v.to_string()
}

/// Takes a `serde_json::Value` apart by its variant. The members of an
/// object come out of a `serde_json::Map`, which keeps them in a `BTreeMap`
/// and so hands them out in the order of their keys, each key once.
#[verifier::external_body]
fn node_of(v: serde_json::Value) -> (node: Node)
    ensures
        node.view() == value_view(v),
        node.ordered(),
{
    match v {
        serde_json::Value::Null => Node::Null,
        serde_json::Value::Bool(b) => Node::Bool(b),
        serde_json::Value::Number(n) => Node::Number(n),
        serde_json::Value::String(s) => Node::String(s),
        serde_json::Value::Array(items) => Node::Array(items),
        serde_json::Value::Object(members) => Node::Object(members.into_iter().collect()),
    }
}

/// Puts a `serde_json::Value` together from one level: the variant of
/// `serde_json::Value` that the node names, with the node's content. The
/// members of an object are collected into a `serde_json::Map`; no key may
/// occur twice among them.
#[verifier::external_body]
fn value_of(node: Node) -> (v: serde_json::Value)
    requires
        node.wf(),
    ensures
        value_view(v) == node.view(),
{
    match node {
        Node::Null => serde_json::Value::Null,
        Node::Bool(b) => serde_json::Value::Bool(b),
        Node::Number(n) => serde_json::Value::Number(n),
        Node::String(s) => serde_json::Value::String(s),
        Node::Array(items) => serde_json::Value::Array(items),
        Node::Object(members) => serde_json::Value::Object(members.into_iter().collect()),
    }
}

/// Builds the document that a `serde_json::Value` holds. The fields of an
/// object keep the order of their keys.
fn document_of(v: serde_json::Value) -> (d: Document)
    ensures
        d@ == value_view(v),
        d.wf(),
        d matches Document::Object(fields) ==> keys_ordered(fields@),
    decreases value_view(v),
{
    match node_of(v) {
        Node::Null => Document::Null,
        Node::Bool(b) => Document::Bool(b),
        Node::Number(n) => Document::Number(n),
        Node::String(s) => Document::String(s),
        Node::Array(items) => {
            let ghost all = items@;
            let mut out: Vec<Document> = Vec::new();
            for item in it: items
                invariant
                    it.seq() == all,
                    value_view(v) == DocumentView::Array(values_view(all)),
                    out@.len() == it.index(),
                    forall|i: int|
                        0 <= i < out@.len() ==> (#[trigger] out@[i]).wf() && out@[i]@
                            == value_view(all[i]),
            {
                assert(decreases_to!(value_view(v) => value_view(v)->Array_0[out@.len() as int]));
                let d = document_of(item);
                out.push(d);
            }
            assert(items_view(out@) =~= values_view(all));
            Document::Array(out)
        },
        Node::Object(members) => {
            let ghost all = members@;
            proof {
                lemma_ordered_distinct(all);
            }
            let mut out: Vec<(String, Document)> = Vec::new();
            for member in it: members
                invariant
                    it.seq() == all,
                    value_view(v) == DocumentView::Object(pairs_map(member_pairs(all))),
                    keys_distinct(all),
                    out@.len() == it.index(),
                    forall|i: int|
                        0 <= i < out@.len() ==> (#[trigger] out@[i]).1.wf() && out@[i].1@
                            == value_view(all[i].1) && out@[i].0@ == all[i].0@,
            {
                let ghost at = out@.len() as int;
                proof {
                    let members_map = pairs_map(member_pairs(all));
                    lemma_pairs_value(member_pairs(all), at);
                    lemma_pairs_dom(member_pairs(all), all[at].0@);
                    assert(members_map[all[at].0@] == value_view(all[at].1));
                    assert(decreases_to!(value_view(v) => value_view(v)->Object_0[all[at].0@]));
                }
                let (key, value) = member;
                let d = document_of(value);
                out.push((key, d));
            }
            assert(field_pairs(out@) =~= member_pairs(all));
            assert(keys_ordered(out@)) by {
                assert forall|a: int, b: int| 0 <= a < b < out@.len() implies text_before(
                    out@[a].0@,
                    out@[b].0@,
                ) by {
                    assert(text_before(all[a].0@, all[b].0@));
                }
            }
            assert(keys_distinct(out@)) by {
                lemma_ordered_distinct(out@);
            }
            Document::Object(out)
        },
    }
}

/// Builds the `serde_json::Value` that holds what a document holds.
fn value_from(d: &Document) -> (v: serde_json::Value)
    requires
        d.wf(),
    ensures
        value_view(v) == d@,
    decreases d,
{
    match d {
        Document::Null => value_of(Node::Null),
        Document::Bool(b) => value_of(Node::Bool(*b)),
        Document::Number(n) => value_of(Node::Number(n.clone())),
        Document::String(s) => value_of(Node::String(s.clone())),
        Document::Array(items) => {
            let mut out: Vec<serde_json::Value> = Vec::new();
            let mut i: usize = 0;
            while i < items.len()
                invariant
                    d is Array,
                    d->Array_0 == *items,
                    forall|j: int| 0 <= j < items@.len() ==> (#[trigger] items@[j]).wf(),
                    i <= items@.len(),
                    out@.len() == i,
                    forall|j: int| 0 <= j < i ==> value_view(#[trigger] out@[j]) == items@[j]@,
                decreases items@.len() - i,
            {
                let v = value_from(&items[i]);
                out.push(v);
                i += 1;
            }
            assert(values_view(out@) =~= items_view(items@));
            value_of(Node::Array(out))
        },
        Document::Object(fields) => {
            let mut out: Vec<(String, serde_json::Value)> = Vec::new();
            let mut i: usize = 0;
            while i < fields.len()
                invariant
                    d is Object,
                    d->Object_0 == *fields,
                    forall|j: int| 0 <= j < fields@.len() ==> (#[trigger] fields@[j]).1.wf(),
                    i <= fields@.len(),
                    out@.len() == i,
                    forall|j: int|
                        0 <= j < i ==> (#[trigger] out@[j]).0@ == fields@[j].0@ && value_view(
                            out@[j].1,
                        ) == fields@[j].1@,
                decreases fields@.len() - i,
            {
                let key = fields[i].0.clone();
                let v = value_from(&fields[i].1);
                out.push((key, v));
                i += 1;
            }
            assert(member_pairs(out@) =~= field_pairs(fields@));
            assert(keys_distinct(out@)) by {
                assert forall|a: int, b: int| 0 <= a < b < out@.len() implies out@[a].0@
                    != out@[b].0@ by {
                    assert(fields@[a].0@ != fields@[b].0@);
                }
            }
            value_of(Node::Object(out))
        },
    }
}

/// Parses a text as JSON. Returns the document that the text stands for, or
/// `None` where the text is not JSON. Where the document is an object, its
/// fields come in the order of their keys.
pub fn to_value_from_str(text: &str) -> (r: Option<Document>)
    ensures
        match r {
            Some(d) => json_parse(text@) == Some(d@) && d.wf() && (d matches Document::Object(
                fields,
            ) ==> keys_ordered(fields@)),
            None => json_parse(text@) is None,
        },
{
    match parse_value(text) {
        Ok(v) => Some(document_of(v)),
        Err(_) => None,
    }
}

impl Document {
    /// Writes the document as compact JSON text.
    pub fn to_string(&self) -> (text: String)
        requires
            self.wf(),
        ensures
            text@ == json_text(self@),
    {
        let v = value_from(self);
        value_text(&v)
    }
}

} // verus!
