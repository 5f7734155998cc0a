//! Reaching a value through the document: a value is itself, or a reference
//! to an object of the table.

use vstd::prelude::*;
use lopdf::Document;
use crate::document::{doc_objects, lookup};
use crate::object::{ObjectId, Value, ValueModel};

verus! {

/// A reference names an object that the document does not hold.
#[derive(Debug, Clone, Copy, PartialEq, Eq, Structural)]
pub struct Unresolved {
    pub number: u32,
    pub generation: u16,
}

/// A value reached: the value given, or the object that it referred to.
pub enum Resolved<'a> {
    Direct(&'a Value),
    Fetched(Value),
}

impl<'a> Resolved<'a> {
    /// What the value reached stands for.
    pub open spec fn model(self) -> ValueModel {
        match self {
            Resolved::Direct(v) => v@,
            Resolved::Fetched(v) => v@,
        }
    }

    /// The value reached.
    pub fn value(&self) -> (v: &Value)
        ensures
            v@ == self.model(),
    {
        match self {
            Resolved::Direct(v) => v,
            Resolved::Fetched(v) => v,
        }
    }
}

/// What a value stands for in a table of objects: the object under its
/// identifier where it is a reference, itself where it is not. One step only:
/// a reference to a reference gives that reference.
pub open spec fn resolved(objects: Map<ObjectId, ValueModel>, value: ValueModel) -> Option<
    ValueModel,
> {
    match value {
        ValueModel::Reference(id) => if objects.dom().contains(id) {
            Some(objects[id])
        } else {
            None
        },
        other => Some(other),
    }
}

/// The value under `key` of a dictionary, reached through the table.
pub open spec fn resolved_entry(
    objects: Map<ObjectId, ValueModel>,
    dict: ValueModel,
    key: Seq<u8>,
) -> Option<ValueModel> {
    match dict.entry(key) {
        Some(value) => resolved(objects, value),
        None => None,
    }
}

/// Follows a reference into the document; hands any other value back.
pub fn resolve<'a>(doc: &Document, value: &'a Value) -> (r: Result<Resolved<'a>, Unresolved>)
    ensures
        match r {
            Ok(found) => resolved(doc_objects(*doc), value@) == Some(found.model()),
            Err(e) => resolved(doc_objects(*doc), value@) is None && value@
                == ValueModel::Reference((e.number, e.generation)),
        },
{
    match value {
        Value::Reference(id) => match lookup(doc, *id) {
            Some(found) => Ok(Resolved::Fetched(found)),
            None => Err(Unresolved { number: id.0, generation: id.1 }),
        },
        _ => Ok(Resolved::Direct(value)),
    }
}

} // verus!
