//! The object model: a tagged union of the values that an object graph holds,
//! and its mathematical counterpart.

use vstd::prelude::*;
use crate::decimal::{decimal_value, parse_decimal};
use crate::fixed::{clamp, from_units};

verus! {

/// Identifier of an indirect object: object number and generation number.
pub type ObjectId = (u32, u16);

/// One key of a dictionary with its value.
#[derive(Debug, PartialEq, Eq)]
pub struct Entry {
    pub key: Vec<u8>,
    pub value: Value,
}

/// A value of the object graph.
///
/// A real number is held as its decimal text (`12.5`), an integer as itself.
/// A stream is kept as a mark only: nothing here reads what it holds.
#[derive(Debug, PartialEq, Eq)]
pub enum Value {
    Null,
    Boolean(bool),
    Integer(i64),
    Real(Vec<u8>),
    Name(Vec<u8>),
    Str(Vec<u8>),
    Array(Vec<Value>),
    Dict(Vec<Entry>),
    Stream,
    Reference(ObjectId),
}

/// What a `Value` stands for: sequences for vectors, a map for a dictionary.
pub enum ValueModel {
    Null,
    Boolean(bool),
    Integer(int),
    Real(Seq<u8>),
    Name(Seq<u8>),
    Str(Seq<u8>),
    Array(Seq<ValueModel>),
    Dict(Map<Seq<u8>, ValueModel>),
    Stream,
    Reference(ObjectId),
}

/// The models of a sequence of values, in order.
pub open spec fn models_of(items: Seq<Value>) -> Seq<ValueModel>
    decreases items, 0nat,
{
    if items.len() == 0 {
        Seq::empty()
    } else {
        models_of(items.drop_last()).push(model_of(items.last()))
    }
}

/// The map that a list of entries stands for. Where a key occurs twice, the
/// last entry counts.
pub open spec fn entries_model(entries: Seq<Entry>) -> Map<Seq<u8>, ValueModel>
    decreases entries, 0nat,
{
    if entries.len() == 0 {
        Map::empty()
    } else {
        entries_model(entries.drop_last()).insert(
            entries.last().key@,
            model_of(entries.last().value),
        )
    }
}

/// The model of one value.
pub open spec fn model_of(value: Value) -> ValueModel
    decreases value, 1nat,
{
    match value {
        Value::Null => ValueModel::Null,
        Value::Boolean(b) => ValueModel::Boolean(b),
        Value::Integer(i) => ValueModel::Integer(i as int),
        Value::Real(text) => ValueModel::Real(text@),
        Value::Name(name) => ValueModel::Name(name@),
        Value::Str(bytes) => ValueModel::Str(bytes@),
        Value::Array(items) => ValueModel::Array(models_of(items@)),
        Value::Dict(entries) => ValueModel::Dict(entries_model(entries@)),
        Value::Stream => ValueModel::Stream,
        Value::Reference(id) => ValueModel::Reference(id),
    }
}

impl View for Value {
    type V = ValueModel;

    open spec fn view(&self) -> ValueModel {
        model_of(*self)
    }
}

/// A value is not of the shape that was asked for.
#[derive(Debug, Clone, Copy, PartialEq, Eq, Structural)]
pub struct TypeMismatch;

impl ValueModel {
    /// The value under `key`, where this is a dictionary that has the key.
    pub open spec fn entry(self, key: Seq<u8>) -> Option<ValueModel> {
        match self {
            ValueModel::Dict(entries) => if entries.dom().contains(key) {
                Some(entries[key])
            } else {
                None
            },
            _ => None,
        }
    }

    /// The number that this value writes, in thousandths: an integer or a
    /// real number alike.
    pub open spec fn number(self) -> Option<int> {
        match self {
            ValueModel::Integer(i) => Some(clamp(i * 1000)),
            ValueModel::Real(text) => decimal_value(text),
            _ => None,
        }
    }

    /// The item at place `i`, where this is an array that long.
    pub open spec fn item(self, i: int) -> Option<ValueModel> {
        match self {
            ValueModel::Array(items) => if 0 <= i < items.len() {
                Some(items[i])
            } else {
                None
            },
            _ => None,
        }
    }
}

/// The models of a sequence of values stand place by place.
pub proof fn lemma_models_of(items: Seq<Value>)
    ensures
        models_of(items).len() == items.len(),
        forall|i: int| 0 <= i < items.len() ==> #[trigger] models_of(items)[i] == model_of(items[i]),
    decreases items.len(),
{
    if items.len() > 0 {
        lemma_models_of(items.drop_last());
        assert forall|i: int| 0 <= i < items.len() implies #[trigger] models_of(items)[i]
            == model_of(items[i]) by {
            if i < items.len() - 1 {
                assert(items.drop_last()[i] == items[i]);
            }
        }
    }
}

/// A key that no entry has is not in the map.
pub proof fn lemma_entries_model_absent(entries: Seq<Entry>, key: Seq<u8>)
    requires
        forall|j: int| 0 <= j < entries.len() ==> (#[trigger] entries[j]).key@ != key,
    ensures
        !entries_model(entries).dom().contains(key),
    decreases entries.len(),
{
    if entries.len() > 0 {
        let rest = entries.drop_last();
        assert forall|j: int| 0 <= j < rest.len() implies (#[trigger] rest[j]).key@ != key by {
            assert(rest[j] == entries[j]);
        }
        lemma_entries_model_absent(rest, key);
        assert(entries.last() == entries[entries.len() - 1]);
    }
}

/// The last entry with a key gives the map's value under it.
pub proof fn lemma_entries_model_last(entries: Seq<Entry>, key: Seq<u8>, i: int)
    requires
        0 <= i < entries.len(),
        entries[i].key@ == key,
        forall|j: int| i < j < entries.len() ==> (#[trigger] entries[j]).key@ != key,
    ensures
        entries_model(entries).dom().contains(key),
        entries_model(entries)[key] == model_of(entries[i].value),
    decreases entries.len(),
{
    assert(entries.last() == entries[entries.len() - 1]);
    if i < entries.len() - 1 {
        let rest = entries.drop_last();
        assert forall|j: int| i < j < rest.len() implies (#[trigger] rest[j]).key@ != key by {
            assert(rest[j] == entries[j]);
        }
        assert(rest[i] == entries[i]);
        lemma_entries_model_last(rest, key, i);
    }
}

/// Whether two byte strings are the same.
pub fn bytes_eq(a: &[u8], b: &[u8]) -> (same: bool)
    ensures
        same == (a@ == b@),
{
    if a.len() != b.len() {
        return false;
    }
    let mut i: usize = 0;
    while i < a.len()
        invariant
            i <= a.len(),
            a.len() == b.len(),
            forall|j: int| 0 <= j < i ==> a@[j] == b@[j],
        decreases a.len() - i,
    {
        if a[i] != b[i] {
            return false;
        }
        i += 1;
    }
    assert(a@ =~= b@);
    true
}

/// The value under `key` in a list of entries.
pub fn find_entry<'a>(entries: &'a Vec<Entry>, key: &[u8]) -> (found: Option<&'a Value>)
    ensures
        match found {
            Some(v) => ValueModel::Dict(entries_model(entries@)).entry(key@) == Some(v@),
            None => ValueModel::Dict(entries_model(entries@)).entry(key@) is None,
        },
{
    let mut i: usize = entries.len();
    while i > 0
        invariant
            i <= entries.len(),
            forall|j: int| i <= j < entries.len() ==> (#[trigger] entries@[j]).key@ != key@,
        decreases i,
    {
        i -= 1;
        if bytes_eq(entries[i].key.as_slice(), key) {
            proof {
                lemma_entries_model_last(entries@, key@, i as int);
            }
            return Some(&entries[i].value);
        }
    }
    proof {
        lemma_entries_model_absent(entries@, key@);
    }
    None
}

impl Value {
    /// The entries, where this is a dictionary.
    pub fn as_dict(&self) -> (r: Result<&Vec<Entry>, TypeMismatch>)
        ensures
            match r {
                Ok(entries) => *self == Value::Dict(*entries),
                Err(_) => !(self@ is Dict),
            },
    {
        match self {
            Value::Dict(entries) => Ok(entries),
            _ => Err(TypeMismatch),
        }
    }

    /// The items, where this is an array.
    pub fn as_array(&self) -> (r: Result<&Vec<Value>, TypeMismatch>)
        ensures
            match r {
                Ok(items) => *self == Value::Array(*items),
                Err(_) => !(self@ is Array),
            },
    {
        match self {
            Value::Array(items) => Ok(items),
            _ => Err(TypeMismatch),
        }
    }

    /// The bytes of the name, where this is a name.
    pub fn as_name(&self) -> (r: Result<&Vec<u8>, TypeMismatch>)
        ensures
            match r {
                Ok(name) => self@ == ValueModel::Name(name@),
                Err(_) => !(self@ is Name),
            },
    {
        match self {
            Value::Name(name) => Ok(name),
            _ => Err(TypeMismatch),
        }
    }

    /// The bytes of the string, where this is a string.
    pub fn as_string(&self) -> (r: Result<&Vec<u8>, TypeMismatch>)
        ensures
            match r {
                Ok(bytes) => self@ == ValueModel::Str(bytes@),
                Err(_) => !(self@ is Str),
            },
    {
        match self {
            Value::Str(bytes) => Ok(bytes),
            _ => Err(TypeMismatch),
        }
    }

    /// The number in thousandths, where this is an integer or the decimal
    /// text of a real number.
    pub fn as_number(&self) -> (r: Result<i64, TypeMismatch>)
        ensures
            match r {
                Ok(v) => self@.number() == Some(v as int),
                Err(_) => self@.number() is None,
            },
    {
        match self {
            Value::Integer(i) => Ok(from_units(*i)),
            Value::Real(text) => match parse_decimal(text.as_slice()) {
                Some(v) => Ok(v),
                None => Err(TypeMismatch),
            },
            _ => Err(TypeMismatch),
        }
    }
}

} // verus!
