//! Self-describing values: what a caller hands to the encoder and what the
//! decoder hands back. A value is a pure tree. Its view is the same tree over
//! mathematical integers and sequences, and the contracts speak of that view.

use vstd::prelude::*;
use vstd::slice::slice_to_vec;

verus! {

/// The view of a [`DynamicValue`].
pub enum Value {
    Bool(bool),
    UInt(nat),
    Int(int),
    Bytes(Seq<u8>),
    Composite(Fields),
    Variant(Seq<char>, Fields),
    Sequence(Seq<Value>),
}

/// The view of a [`Composite`]: fields that all carry a name, or none of which does.
pub enum Fields {
    Named(Seq<(Seq<char>, Value)>),
    Unnamed(Seq<Value>),
}

/// A tagged tree of values whose types are only known from metadata.
#[derive(Debug, PartialEq, Eq)]
pub enum DynamicValue {
    /// A boolean.
    Bool(bool),
    /// An unsigned integer; the rule it is encoded against fixes its width.
    UInt(u128),
    /// A signed integer; the rule it is encoded against fixes its width.
    Int(i128),
    /// A sequence of bytes.
    Bytes(Vec<u8>),
    /// An ordered list of fields.
    Composite(Composite),
    /// The name of one variant of a type, with the fields of that variant.
    Variant(String, Composite),
    /// A homogeneous list of values.
    Sequence(Vec<DynamicValue>),
}

/// The fields of a composite value or of a variant.
#[derive(Debug, PartialEq, Eq)]
pub enum Composite {
    /// Fields that are matched to the declared ones by name.
    Named(Vec<(String, DynamicValue)>),
    /// Fields that are matched to the declared ones by position.
    Unnamed(Vec<DynamicValue>),
}

impl DynamicValue {
    /// The mathematical tree that this value stands for.
    pub open spec fn model(&self) -> Value
        decreases self,
    {
        match self {
            DynamicValue::Bool(b) => Value::Bool(*b),
            DynamicValue::UInt(n) => Value::UInt(*n as nat),
            DynamicValue::Int(i) => Value::Int(*i as int),
            DynamicValue::Bytes(bytes) => Value::Bytes(bytes@),
            DynamicValue::Composite(fields) => Value::Composite(fields.model()),
            DynamicValue::Variant(name, fields) => Value::Variant(name@, fields.model()),
            DynamicValue::Sequence(items) => Value::Sequence(
                Seq::new(
                    items@.len(),
                    |i: int|
                        if 0 <= i < items@.len() {
                            items@[i].model()
                        } else {
                            arbitrary()
                        },
                ),
            ),
        }
    }

    /// An unsigned integer value.
    pub fn u128(n: u128) -> (value: DynamicValue)
        ensures
            value@ == Value::UInt(n as nat),
    {
        DynamicValue::UInt(n)
    }

    /// A signed integer value.
    pub fn i128(i: i128) -> (value: DynamicValue)
        ensures
            value@ == Value::Int(i as int),
    {
        DynamicValue::Int(i)
    }

    /// A boolean value.
    pub fn bool(b: bool) -> (value: DynamicValue)
        ensures
            value@ == Value::Bool(b),
    {
        DynamicValue::Bool(b)
    }

    /// A byte sequence value.
    pub fn from_bytes(bytes: Vec<u8>) -> (value: DynamicValue)
        ensures
            value@ == Value::Bytes(bytes@),
    {
        DynamicValue::Bytes(bytes)
    }

    /// The variant `name` with the given fields.
    pub fn variant(name: &str, fields: Composite) -> (value: DynamicValue)
        ensures
            value@ == Value::Variant(name@, fields@),
    {
        DynamicValue::Variant(name.to_owned(), fields)
    }

    /// A composite value with the given fields.
    pub fn composite(fields: Composite) -> (value: DynamicValue)
        ensures
            value@ == Value::Composite(fields@),
    {
        DynamicValue::Composite(fields)
    }

    /// A copy of the value: the same tree, in storage of its own.
    pub fn duplicate(&self) -> (copy: DynamicValue)
        ensures
            copy@ == self@,
        decreases self,
    {
        match self {
            DynamicValue::Bool(b) => DynamicValue::Bool(*b),
            DynamicValue::UInt(n) => DynamicValue::UInt(*n),
            DynamicValue::Int(i) => DynamicValue::Int(*i),
            DynamicValue::Bytes(bytes) => DynamicValue::Bytes(slice_to_vec(bytes.as_slice())),
            DynamicValue::Composite(fields) => DynamicValue::Composite(fields.duplicate()),
            DynamicValue::Variant(name, fields) => DynamicValue::Variant(
                name.clone(),
                fields.duplicate(),
            ),
            DynamicValue::Sequence(items) => {
                let copies = duplicate_all(items);
                let copy = DynamicValue::Sequence(copies);
                assert(copy@->Sequence_0 =~= values_of(copies@));
                assert(self@->Sequence_0 =~= values_of(items@));
                copy
            },
        }
    }

    /// A homogeneous list of values.
    pub fn sequence(items: Vec<DynamicValue>) -> (value: DynamicValue)
        ensures
            value@ == Value::Sequence(values_of(items@)),
    {
        let value = DynamicValue::Sequence(items);
        assert(value@->Sequence_0 =~= values_of(items@));
        value
    }
}

impl Composite {
    /// The mathematical fields that these fields stand for.
    pub open spec fn model(&self) -> Fields
        decreases self,
    {
        match self {
            Composite::Named(fields) => Fields::Named(
                Seq::new(
                    fields@.len(),
                    |i: int|
                        if 0 <= i < fields@.len() {
                            (fields@[i].0@, fields@[i].1.model())
                        } else {
                            arbitrary()
                        },
                ),
            ),
            Composite::Unnamed(items) => Fields::Unnamed(
                Seq::new(
                    items@.len(),
                    |i: int|
                        if 0 <= i < items@.len() {
                            items@[i].model()
                        } else {
                            arbitrary()
                        },
                ),
            ),
        }
    }

    /// A copy of the fields: the same names and trees, in storage of their own.
    pub fn duplicate(&self) -> (copy: Composite)
        ensures
            copy@ == self@,
        decreases self,
    {
        match self {
            Composite::Named(fields) => {
                let copies = duplicate_named(fields);
                let copy = Composite::Named(copies);
                assert(copy@->Named_0 =~= named_values_of(copies@));
                assert(self@->Named_0 =~= named_values_of(fields@));
                copy
            },
            Composite::Unnamed(items) => {
                let copies = duplicate_all(items);
                let copy = Composite::Unnamed(copies);
                assert(copy@->Unnamed_0 =~= values_of(copies@));
                assert(self@->Unnamed_0 =~= values_of(items@));
                copy
            },
        }
    }

    /// Fields without names, in the given order.
    pub fn unnamed(items: Vec<DynamicValue>) -> (fields: Composite)
        ensures
            fields@ == Fields::Unnamed(values_of(items@)),
    {
        let fields = Composite::Unnamed(items);
        assert(fields@->Unnamed_0 =~= values_of(items@));
        fields
    }

    /// Fields with names, in the given order.
    pub fn named(fields: Vec<(String, DynamicValue)>) -> (made: Composite)
        ensures
            made@ == Fields::Named(named_values_of(fields@)),
    {
        let made = Composite::Named(fields);
        assert(made@->Named_0 =~= named_values_of(fields@));
        made
    }
}

impl View for DynamicValue {
    type V = Value;

    open spec fn view(&self) -> Value {
        self.model()
    }
}

impl View for Composite {
    type V = Fields;

    open spec fn view(&self) -> Fields {
        self.model()
    }
}

/// Copies of the named values, in order.
fn duplicate_named(fields: &Vec<(String, DynamicValue)>) -> (copies: Vec<(String, DynamicValue)>)
    ensures
        named_values_of(copies@) == named_values_of(fields@),
    decreases fields,
{
    let mut copies: Vec<(String, DynamicValue)> = Vec::new();
    let mut i: usize = 0;
    while i < fields.len()
        invariant
            i <= fields@.len(),
            copies@.len() == i,
            forall|k: int|
                0 <= k < i ==> (#[trigger] copies@[k]).0@ == fields@[k].0@ && copies@[k].1@
                    == fields@[k].1@,
        decreases fields@.len() - i,
    {
        copies.push((fields[i].0.clone(), fields[i].1.duplicate()));
        i = i + 1;
    }
    assert(named_values_of(copies@) =~= named_values_of(fields@));
    copies
}

/// Copies of the values, in order.
fn duplicate_all(items: &Vec<DynamicValue>) -> (copies: Vec<DynamicValue>)
    ensures
        values_of(copies@) == values_of(items@),
    decreases items,
{
    let mut copies: Vec<DynamicValue> = Vec::new();
    let mut i: usize = 0;
    while i < items.len()
        invariant
            i <= items@.len(),
            copies@.len() == i,
            forall|k: int| 0 <= k < i ==> (#[trigger] copies@[k])@ == items@[k]@,
        decreases items@.len() - i,
    {
        copies.push(items[i].duplicate());
        i = i + 1;
    }
    assert(values_of(copies@) =~= values_of(items@));
    copies
}

/// The views of a list of values, in order.
pub open spec fn values_of(items: Seq<DynamicValue>) -> Seq<Value> {
    Seq::new(items.len(), |i: int| if 0 <= i < items.len() { items[i].model() } else { arbitrary() })
}

/// The names and views of a list of named values, in order.
pub open spec fn named_values_of(fields: Seq<(String, DynamicValue)>) -> Seq<(Seq<char>, Value)> {
    Seq::new(
        fields.len(),
        |i: int|
            if 0 <= i < fields.len() {
                (fields[i].0@, fields[i].1.model())
            } else {
                arbitrary()
            },
    )
}

/// The names of a list of named values, in order.
pub open spec fn names_of(fields: Seq<(Seq<char>, Value)>) -> Seq<Seq<char>> {
    Seq::new(fields.len(), |i: int| fields[i].0)
}

/// Whether `value` nests no deeper than `depth` levels; a value without parts is one level deep.
pub open spec fn within_depth(value: Value, depth: nat) -> bool
    decreases depth, 0nat,
{
    depth > 0 && match value {
        Value::Composite(fields) => fields_within_depth(fields, (depth - 1) as nat),
        Value::Variant(_, fields) => fields_within_depth(fields, (depth - 1) as nat),
        Value::Sequence(items) => forall|i: int|
            0 <= i < items.len() ==> within_depth(#[trigger] items[i], (depth - 1) as nat),
        _ => true,
    }
}

/// Whether each of the fields nests no deeper than `depth` levels.
pub open spec fn fields_within_depth(fields: Fields, depth: nat) -> bool
    decreases depth, 1nat,
{
    match fields {
        Fields::Named(named) => forall|i: int|
            0 <= i < named.len() ==> within_depth((#[trigger] named[i]).1, depth),
        Fields::Unnamed(items) => forall|i: int|
            0 <= i < items.len() ==> within_depth(#[trigger] items[i], depth),
    }
}

} // verus!
