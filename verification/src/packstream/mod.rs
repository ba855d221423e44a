pub mod de;
pub mod round_trip;
pub mod ser;

use vstd::prelude::*;

verus! {

/// A value of the wire format, as mathematics.
pub enum Packed {
    Null,
    Boolean(bool),
    Integer(i64),
    /// A double, as its bit pattern.
    Float(u64),
    Bytes(Seq<u8>),
    Text(Seq<char>),
    List(Seq<Packed>),
    /// The entries in the order in which they are written.
    Dictionary(Seq<(Seq<char>, Packed)>),
    /// A tagged tuple of fields.
    Structure(u8, Seq<Packed>),
}

/// A value of the wire format.
#[derive(Debug, PartialEq, Eq)]
pub enum Value {
    Null,
    Boolean(bool),
    Integer(i64),
    /// A double, as its bit pattern.
    Float(u64),
    Bytes(Vec<u8>),
    Text(String),
    List(Vec<Value>),
    /// The entries in the order in which they are written.
    Dictionary(Vec<(String, Value)>),
    /// A tagged tuple of fields.
    Structure(u8, Vec<Value>),
}

/// The mathematical value that `value` stands for.
pub open spec fn packed(value: Value) -> Packed
    decreases value,
{
    match value {
        Value::Null => Packed::Null,
        Value::Boolean(b) => Packed::Boolean(b),
        Value::Integer(i) => Packed::Integer(i),
        Value::Float(bits) => Packed::Float(bits),
        Value::Bytes(bytes) => Packed::Bytes(bytes@),
        Value::Text(text) => Packed::Text(text@),
        Value::List(items) => Packed::List(
            Seq::new(
                items@.len(),
                |i: int|
                    if 0 <= i < items@.len() {
                        packed(items@[i])
                    } else {
                        Packed::Null
                    },
            ),
        ),
        Value::Dictionary(entries) => Packed::Dictionary(
            Seq::new(
                entries@.len(),
                |i: int|
                    if 0 <= i < entries@.len() {
                        (entries@[i].0@, packed(entries@[i].1))
                    } else {
                        (Seq::empty(), Packed::Null)
                    },
            ),
        ),
        Value::Structure(tag, fields) => Packed::Structure(
            tag,
            Seq::new(
                fields@.len(),
                |i: int|
                    if 0 <= i < fields@.len() {
                        packed(fields@[i])
                    } else {
                        Packed::Null
                    },
            ),
        ),
    }
}

impl View for Value {
    type V = Packed;

    open spec fn view(&self) -> Packed {
        packed(*self)
    }
}

/// The views of `items`.
pub open spec fn views(items: Seq<Value>) -> Seq<Packed> {
    Seq::new(items.len(), |i: int| items[i]@)
}

/// The views of `entries`.
pub open spec fn entry_views(entries: Seq<(String, Value)>) -> Seq<(Seq<char>, Packed)> {
    Seq::new(entries.len(), |i: int| (entries[i].0@, entries[i].1@))
}

/// The view of a value that holds others is made of their views.
pub proof fn lemma_view(value: &Value)
    ensures
        match value {
            Value::List(items) => value@ == Packed::List(views(items@)),
            Value::Dictionary(entries) => value@ == Packed::Dictionary(entry_views(entries@)),
            Value::Structure(tag, fields) => value@ == Packed::Structure(*tag, views(fields@)),
            _ => true,
        },
{
    reveal_with_fuel(packed, 2);
    match value {
        Value::List(items) => {
            assert(value@->List_0 =~= views(items@));
        },
        Value::Dictionary(entries) => {
            assert(value@->Dictionary_0 =~= entry_views(entries@));
        },
        Value::Structure(tag, fields) => {
            assert(value@->Structure_1 =~= views(fields@));
        },
        _ => {},
    }
}

} // verus!
