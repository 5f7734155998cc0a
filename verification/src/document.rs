//! The document, held by `lopdf`.
//!
//! The functions of this module that are marked `external_body` call `lopdf`
//! or `std`; what each says of its call is stated and not proved. All that is
//! proved elsewhere about a document rests on them.
//!
//! A document is seen as three things: its table of objects, the identifiers
//! of its pages in page order, and the highest object number it has handed
//! out.

use vstd::prelude::*;
use lopdf::{Dictionary, Document, Object, StringFormat};
use crate::object::{Entry, ObjectId, Value, ValueModel};

verus! {

/// `lopdf::Document`, of which nothing is seen but through the calls below.
#[verifier::external_type_specification]
#[verifier::external_body]
pub struct ExDocument(lopdf::Document);

/// `lopdf::Object`, turned into a `Value` wherever it is handed out.
#[verifier::external_type_specification]
#[verifier::external_body]
pub struct ExObject(lopdf::Object);

/// `lopdf::Dictionary`, turned into entries wherever it is handed out.
#[verifier::external_type_specification]
#[verifier::external_body]
pub struct ExDictionary(lopdf::Dictionary);

/// The table of objects of a document: the field `objects`, each object by
/// the value that stands for it.
pub uninterp spec fn doc_objects(doc: Document) -> Map<ObjectId, ValueModel>;

/// The identifiers of a document's pages in page order: what
/// `Document::get_pages` finds under the page numbers 1, 2, 3 and so on.
pub uninterp spec fn doc_pages(doc: Document) -> Seq<ObjectId>;

/// The field `max_id` of a document.
pub uninterp spec fn doc_max_id(doc: Document) -> u32;

/// The decimal text of the real number that `text` is read as: `text` parsed
/// by `str::parse` as the number that `lopdf::Object::Real` holds (zero where
/// it does not parse), then printed by `Display`.
pub uninterp spec fn kept_real(text: Seq<u8>) -> Seq<u8>;

/// Whether a value is stored as it is: each real number in it is written as
/// `lopdf` keeps it, and no stream is in it.
pub open spec fn storable(value: ValueModel) -> bool
    decreases value,
{
    match value {
        ValueModel::Real(text) => kept_real(text) == text,
        ValueModel::Array(items) => forall|i: int|
            0 <= i < items.len() ==> storable(#[trigger] items[i]),
        ValueModel::Dict(entries) => forall|k: Seq<u8>|
            entries.dom().contains(k) ==> storable(#[trigger] entries[k]),
        ValueModel::Stream => false,
        _ => true,
    }
}

/// The value that stands for an object of `lopdf`, variant by variant. A
/// real number becomes its text as `Display` prints it; a stream becomes the
/// bare mark.
#[verifier::external_body]
fn value_of(object: &Object) -> Value {
    match object {
        Object::Null => Value::Null,
        Object::Boolean(b) => Value::Boolean(*b),
        Object::Integer(i) => Value::Integer(*i),
        Object::Real(r) => Value::Real(r.to_string().into_bytes()),
        Object::Name(n) => Value::Name(n.clone()),
        Object::String(s, _) => Value::Str(s.clone()),
        Object::Array(a) => Value::Array(a.iter().map(value_of).collect()),
        Object::Dictionary(d) => Value::Dict(entries_of(d)),
        Object::Stream(_) => Value::Stream,
        Object::Reference(id) => Value::Reference(*id),
    }
}

/// The entries of a dictionary of `lopdf`, in the order of `Dictionary::iter`.
#[verifier::external_body]
fn entries_of(dict: &Dictionary) -> Vec<Entry> {
    dict.iter().map(|(k, v)| Entry { key: k.clone(), value: value_of(v) }).collect()
}

/// The object of `lopdf` for a value, variant by variant. The text of a real
/// number is parsed by `str::parse`, and is zero where it does not parse. A
/// string is a literal string. A stream mark becomes null.
#[verifier::external_body]
fn object_of(value: &Value) -> Object {
    match value {
        Value::Null | Value::Stream => Object::Null,
        Value::Boolean(b) => Object::Boolean(*b),
        Value::Integer(i) => Object::Integer(*i),
        Value::Real(t) => Object::Real(String::from_utf8_lossy(t).parse().unwrap_or_default()),
        Value::Name(n) => Object::Name(n.clone()),
        Value::Str(s) => Object::String(s.clone(), StringFormat::Literal),
        Value::Array(a) => Object::Array(a.iter().map(object_of).collect()),
        Value::Dict(d) => Object::Dictionary(dictionary_of(d)),
        Value::Reference(id) => Object::Reference(*id),
    }
}

/// The dictionary of `lopdf` with these entries, set one after the other by
/// `Dictionary::set`.
#[verifier::external_body]
fn dictionary_of(entries: &Vec<Entry>) -> Dictionary {
    entries.iter().map(|e| (e.key.clone(), object_of(&e.value))).collect()
}

/// The text under which `lopdf` keeps the real number written as `text`: the
/// text is parsed by `str::parse` as the number that `Object::Real` holds
/// (zero where it does not parse), and that number is printed by
/// `ToString::to_string`. Printing such a number and parsing the text again
/// gives the same number, so the text returned is kept as it is.
#[verifier::external_body]
pub(crate) fn kept_text(text: &[u8]) -> (kept: Vec<u8>)
    ensures
        kept@ == kept_real(text@),
        kept_real(kept@) == kept@,
{
    match Object::Real(String::from_utf8_lossy(text).parse().unwrap_or_default()) {
        Object::Real(number) => number.to_string().into_bytes(),
        _ => Vec::new(),
    }
}

/// `Document::get_pages`: the page identifiers by ascending page number.
#[verifier::external_body]
pub(crate) fn page_ids(doc: &Document) -> (ids: Vec<ObjectId>)
    ensures
        ids@ == doc_pages(*doc),
{
    doc.get_pages().into_values().collect()
}

/// The field `max_id`.
#[verifier::external_body]
pub(crate) fn max_id(doc: &Document) -> (n: u32)
    ensures
        n == doc_max_id(*doc),
{
    doc.max_id
}

/// `BTreeMap::get` on the field `objects`: the object under `id`, if there
/// is one. A reference found there is handed out as a reference.
#[verifier::external_body]
pub(crate) fn lookup(doc: &Document, id: ObjectId) -> (found: Option<Value>)
    ensures
        match found {
            Some(v) => doc_objects(*doc).dom().contains(id) && doc_objects(*doc)[id] == v@,
            None => !doc_objects(*doc).dom().contains(id),
        },
{
    doc.objects.get(&id).map(value_of)
}

/// `Document::add_object`: the object goes into the table under the next
/// object number and generation 0, and that number becomes `max_id`. The
/// call panics where `max_id` is `u32::MAX`.
#[verifier::external_body]
pub(crate) fn add_object(doc: &mut Document, value: &Value) -> (id: ObjectId)
    requires
        doc_max_id(*old(doc)) < u32::MAX,
        storable(value@),
    ensures
        id == ((doc_max_id(*old(doc)) + 1) as u32, 0u16),
        doc_max_id(*final(doc)) == doc_max_id(*old(doc)) + 1,
        doc_objects(*final(doc)) == doc_objects(*old(doc)).insert(id, value@),
{
    doc.add_object(object_of(value))
}

/// `Dictionary::set` on the dictionary that `Document::get_dictionary_mut`
/// finds under `id`: the key gets the value, all else stays.
#[verifier::external_body]
pub(crate) fn set_entry(doc: &mut Document, id: ObjectId, key: &[u8], value: &Value)
    requires
        doc_objects(*old(doc)).dom().contains(id),
        doc_objects(*old(doc))[id] is Dict,
        storable(value@),
    ensures
        doc_max_id(*final(doc)) == doc_max_id(*old(doc)),
        doc_objects(*final(doc)) == doc_objects(*old(doc)).insert(
            id,
            ValueModel::Dict(doc_objects(*old(doc))[id]->Dict_0.insert(key@, value@)),
        ),
{
    if let Ok(dict) = doc.get_dictionary_mut(id) {
        dict.set(key, object_of(value));
    }
}

/// `Dictionary::remove` on the dictionary that `Document::get_dictionary_mut`
/// finds under `id`: the key goes, all else stays.
#[verifier::external_body]
pub(crate) fn remove_entry(doc: &mut Document, id: ObjectId, key: &[u8])
    requires
        doc_objects(*old(doc)).dom().contains(id),
        doc_objects(*old(doc))[id] is Dict,
    ensures
        doc_max_id(*final(doc)) == doc_max_id(*old(doc)),
        doc_objects(*final(doc)) == doc_objects(*old(doc)).insert(
            id,
            ValueModel::Dict(doc_objects(*old(doc))[id]->Dict_0.remove(key@)),
        ),
{
    if let Ok(dict) = doc.get_dictionary_mut(id) {
        dict.remove(key);
    }
}

} // verus!
