//! The type registry: for each type id of the metadata, the rule by which a
//! value of that type is encoded and decoded. The rules are worked out once,
//! when the registry is built, and only read after that.

use crate::error::Error;
use crate::metadata::{FieldDef, TypeDef, VariantDef};
use crate::wire::is_int_width;
use vstd::prelude::*;

verus! {

/// The view of [`FieldRules`]: the declared fields of a composite or a variant.
pub enum FieldShape {
    /// Each field with its name and the id of its type.
    Named(Seq<(Seq<char>, nat)>),
    /// The ids of the types of the fields of a tuple.
    Unnamed(Seq<nat>),
}

/// The view of a [`VariantRule`].
pub struct VariantShape {
    pub name: Seq<char>,
    pub index: u8,
    pub fields: FieldShape,
}

/// The view of a [`TypeRule`].
pub enum Rule {
    /// One byte, 0 or 1.
    Bool,
    /// An unsigned integer of that many bytes, least significant first.
    UInt(nat),
    /// A signed integer of that many bytes, in two's complement, least significant first.
    Int(nat),
    /// A compact length and that many bytes.
    Bytes,
    /// Exactly that many bytes.
    FixedBytes(nat),
    /// The fields, each by the rule of its type, in declared order.
    Composite(FieldShape),
    /// The discriminant of one variant, and that variant's fields.
    Variant(Seq<VariantShape>),
    /// A compact length and that many elements of the type with that id.
    Sequence(nat),
    /// Elements of the type with the first id, as many as the second number says.
    Array(nat, nat),
}

/// The declared fields of a composite or a variant.
#[derive(Debug)]
pub enum FieldRules {
    /// Each field with its name and the id of its type.
    Named(Vec<(String, u32)>),
    /// The ids of the types of the fields of a tuple.
    Unnamed(Vec<u32>),
}

/// One variant of a variant rule.
#[derive(Debug)]
pub struct VariantRule {
    pub name: String,
    pub index: u8,
    pub fields: FieldRules,
}

/// How values of one type are encoded and decoded. The types of parts are
/// referred to by id, and are resolved when a value reaches them.
#[derive(Debug)]
pub enum TypeRule {
    Bool,
    UInt { width: u8 },
    Int { width: u8 },
    Bytes,
    FixedBytes { len: u32 },
    Composite { fields: FieldRules },
    Variant { variants: Vec<VariantRule> },
    Sequence { element: u32 },
    Array { element: u32, len: u32 },
}

impl View for FieldRules {
    type V = FieldShape;

    open spec fn view(&self) -> FieldShape {
        match self {
            FieldRules::Named(fields) => FieldShape::Named(
                Seq::new(fields@.len(), |i: int| (fields@[i].0@, fields@[i].1 as nat)),
            ),
            FieldRules::Unnamed(types) => FieldShape::Unnamed(
                Seq::new(types@.len(), |i: int| types@[i] as nat),
            ),
        }
    }
}

impl View for VariantRule {
    type V = VariantShape;

    open spec fn view(&self) -> VariantShape {
        VariantShape { name: self.name@, index: self.index, fields: self.fields@ }
    }
}

impl View for TypeRule {
    type V = Rule;

    open spec fn view(&self) -> Rule {
        match self {
            TypeRule::Bool => Rule::Bool,
            TypeRule::UInt { width } => Rule::UInt(*width as nat),
            TypeRule::Int { width } => Rule::Int(*width as nat),
            TypeRule::Bytes => Rule::Bytes,
            TypeRule::FixedBytes { len } => Rule::FixedBytes(*len as nat),
            TypeRule::Composite { fields } => Rule::Composite(fields@),
            TypeRule::Variant { variants } => Rule::Variant(
                Seq::new(variants@.len(), |i: int| variants@[i]@),
            ),
            TypeRule::Sequence { element } => Rule::Sequence(*element as nat),
            TypeRule::Array { element, len } => Rule::Array(*element as nat, *len as nat),
        }
    }
}

/// The width in bytes of an integer of `bits` bits, where the wire format has such integers.
pub open spec fn int_width(bits: u16) -> Option<nat> {
    if bits == 8 {
        Some(1)
    } else if bits == 16 {
        Some(2)
    } else if bits == 32 {
        Some(4)
    } else if bits == 64 {
        Some(8)
    } else if bits == 128 {
        Some(16)
    } else {
        None
    }
}

/// The declared fields as a shape: a tuple where no field has a name, named
/// fields where each has one, and nothing where only some have.
pub open spec fn field_shape(fields: Seq<FieldDef>) -> Option<FieldShape> {
    if forall|i: int| 0 <= i < fields.len() ==> (#[trigger] fields[i]).name is None {
        Some(FieldShape::Unnamed(Seq::new(fields.len(), |i: int| fields[i].ty as nat)))
    } else if forall|i: int| 0 <= i < fields.len() ==> (#[trigger] fields[i]).name is Some {
        Some(
            FieldShape::Named(
                Seq::new(fields.len(), |i: int| (fields[i].name->Some_0@, fields[i].ty as nat)),
            ),
        )
    } else {
        None
    }
}

/// Whether the type with that id is the unsigned integer of one byte.
pub open spec fn is_byte_type(types: Seq<TypeDef>, id: u32) -> bool {
    id < types.len() && types[id as int] == (TypeDef::UInt { bits: 8 })
}

/// The length of the byte array that a composite wraps, where all it holds is
/// one unnamed field whose type is an array of single bytes.
pub open spec fn wrapped_bytes(types: Seq<TypeDef>, fields: Seq<FieldDef>) -> Option<nat> {
    if fields.len() == 1 && fields[0].name is None && fields[0].ty < types.len() {
        match types[fields[0].ty as int] {
            TypeDef::Array { element, len } => if is_byte_type(types, element) {
                Some(len as nat)
            } else {
                None
            },
            _ => None,
        }
    } else {
        None
    }
}

/// The variants as shapes, where each variant's fields have a shape.
pub open spec fn variant_shapes(variants: Seq<VariantDef>) -> Option<Seq<VariantShape>> {
    if forall|k: int| 0 <= k < variants.len() ==> field_shape((#[trigger] variants[k]).fields@) is Some {
        Some(
            Seq::new(
                variants.len(),
                |k: int|
                    VariantShape {
                        name: variants[k].name@,
                        index: variants[k].index,
                        fields: field_shape(variants[k].fields@)->Some_0,
                    },
            ),
        )
    } else {
        None
    }
}

/// The rule for a type of the given shape, or nothing where the registry has no
/// rule for that shape: an integer of an unknown width, fields of which only
/// some have names, or a shape that the metadata marks as unsupported. A
/// sequence or an array of single bytes is a byte sequence, and so is a
/// composite that only wraps such an array, as the type of an account id does.
pub open spec fn rule_of(types: Seq<TypeDef>, def: TypeDef) -> Option<Rule> {
    match def {
        TypeDef::Bool => Some(Rule::Bool),
        TypeDef::UInt { bits } => match int_width(bits) {
            Some(width) => Some(Rule::UInt(width)),
            None => None,
        },
        TypeDef::Int { bits } => match int_width(bits) {
            Some(width) => Some(Rule::Int(width)),
            None => None,
        },
        TypeDef::Composite { fields } => match wrapped_bytes(types, fields@) {
            Some(len) => Some(Rule::FixedBytes(len)),
            None => match field_shape(fields@) {
                Some(shape) => Some(Rule::Composite(shape)),
                None => None,
            },
        },
        TypeDef::Variant { variants } => match variant_shapes(variants@) {
            Some(shapes) => Some(Rule::Variant(shapes)),
            None => None,
        },
        TypeDef::Sequence { element } => if is_byte_type(types, element) {
            Some(Rule::Bytes)
        } else {
            Some(Rule::Sequence(element as nat))
        },
        TypeDef::Array { element, len } => if is_byte_type(types, element) {
            Some(Rule::FixedBytes(len as nat))
        } else {
            Some(Rule::Array(element as nat, len as nat))
        },
        TypeDef::Unsupported => None,
        TypeDef::Absent => None,
    }
}

/// What the registry holds for one type id.
pub enum Slot {
    /// The rule of the type.
    Known(Rule),
    /// The type has a shape for which there is no rule.
    Unsupported,
    /// The metadata has no type of this id.
    Absent,
}

/// What the registry holds for a position of the type table.
pub open spec fn slot_of(types: Seq<TypeDef>, def: TypeDef) -> Slot {
    if def is Absent {
        Slot::Absent
    } else {
        match rule_of(types, def) {
            Some(rule) => Slot::Known(rule),
            None => Slot::Unsupported,
        }
    }
}

/// What the registry holds for each type id of a metadata.
pub open spec fn rule_table(types: Seq<TypeDef>) -> Seq<Slot> {
    Seq::new(types.len(), |i: int| slot_of(types, types[i]))
}

/// Whether the integers of a rule have one of the widths of the wire format.
pub open spec fn rule_wf(rule: Rule) -> bool {
    match rule {
        Rule::UInt(width) => is_int_width(width),
        Rule::Int(width) => is_int_width(width),
        _ => true,
    }
}

/// The rule that the registry works out for a shape is well formed.
pub proof fn lemma_rule_of_wf(types: Seq<TypeDef>, def: TypeDef)
    ensures
        rule_of(types, def) matches Some(rule) ==> rule_wf(rule),
{
}

/// What resolving a type id against a table of rules gives: `UnknownType`
/// where the id lies beyond the table or the metadata has no type of that id,
/// `UnsupportedTypeShape` where the type has a shape for which there is no rule.
pub open spec fn lookup(table: Seq<Slot>, id: nat) -> Result<Rule, Error> {
    if id >= table.len() {
        Err(Error::UnknownType)
    } else {
        match table[id as int] {
            Slot::Known(rule) => Ok(rule),
            Slot::Unsupported => Err(Error::UnsupportedTypeShape),
            Slot::Absent => Err(Error::UnknownType),
        }
    }
}

/// The width in bytes of an integer of `bits` bits, where the wire format has such integers.
fn width_of(bits: u16) -> (width: Option<u8>)
    ensures
        match width {
            Some(w) => int_width(bits) == Some(w as nat),
            None => int_width(bits) is None,
        },
{
    if bits == 8 {
        Some(1)
    } else if bits == 16 {
        Some(2)
    } else if bits == 32 {
        Some(4)
    } else if bits == 64 {
        Some(8)
    } else if bits == 128 {
        Some(16)
    } else {
        None
    }
}

/// Whether the type with that id is the unsigned integer of one byte.
fn is_byte(types: &Vec<TypeDef>, id: u32) -> (yes: bool)
    ensures
        yes == is_byte_type(types@, id),
{
    if (id as usize) < types.len() {
        match &types[id as usize] {
            TypeDef::UInt { bits } => *bits == 8,
            _ => false,
        }
    } else {
        false
    }
}

/// The length of the byte array that a composite with these fields wraps, if it wraps one.
fn wrapped_len(types: &Vec<TypeDef>, fields: &Vec<FieldDef>) -> (wrapped: Option<u32>)
    ensures
        match wrapped {
            Some(len) => wrapped_bytes(types@, fields@) == Some(len as nat),
            None => wrapped_bytes(types@, fields@) is None,
        },
{
    if fields.len() != 1 || fields[0].name.is_some() || fields[0].ty as usize >= types.len() {
        return None;
    }
    match &types[fields[0].ty as usize] {
        TypeDef::Array { element, len } => if is_byte(types, *element) {
            Some(*len)
        } else {
            None
        },
        _ => None,
    }
}

/// Works out the shape of declared fields.
fn field_rules(fields: &Vec<FieldDef>) -> (rules: Option<FieldRules>)
    ensures
        match rules {
            Some(made) => field_shape(fields@) == Some(made@),
            None => field_shape(fields@) is None,
        },
{
    let mut names: Vec<(String, u32)> = Vec::new();
    let mut types: Vec<u32> = Vec::new();
    let mut i: usize = 0;
    while i < fields.len()
        invariant
            i <= fields@.len(),
            names@.len() + types@.len() == i,
            names@.len() == 0 || types@.len() == 0,
            names@.len() == i ==> forall|k: int|
                0 <= k < i ==> (#[trigger] fields@[k]).name is Some && names@[k].0@
                    == fields@[k].name->Some_0@ && names@[k].1 == fields@[k].ty,
            types@.len() == i ==> forall|k: int|
                0 <= k < i ==> (#[trigger] fields@[k]).name is None && types@[k] == fields@[k].ty,
        decreases fields@.len() - i,
    {
        match &fields[i].name {
            Some(name) => {
                if types.len() > 0 {
                    assert(fields@[0].name is None);
                    assert(fields@[i as int].name is Some);
                    return None;
                }
                names.push((name.clone(), fields[i].ty));
            },
            None => {
                if names.len() > 0 {
                    assert(fields@[0].name is Some);
                    assert(fields@[i as int].name is None);
                    return None;
                }
                types.push(fields[i].ty);
            },
        }
        i = i + 1;
    }
    if names.len() > 0 {
        assert(fields@[0].name is Some);
        let made = FieldRules::Named(names);
        assert(made@->Named_0 =~= field_shape(fields@)->Some_0->Named_0);
        Some(made)
    } else {
        let made = FieldRules::Unnamed(types);
        assert(made@->Unnamed_0 =~= field_shape(fields@)->Some_0->Unnamed_0);
        Some(made)
    }
}

/// Works out the shapes of declared variants.
fn variant_rules(variants: &Vec<VariantDef>) -> (rules: Option<Vec<VariantRule>>)
    ensures
        match rules {
            Some(made) => variant_shapes(variants@) == Some(
                Seq::new(made@.len(), |k: int| made@[k]@),
            ),
            None => variant_shapes(variants@) is None,
        },
{
    let mut made: Vec<VariantRule> = Vec::new();
    let mut i: usize = 0;
    while i < variants.len()
        invariant
            i <= variants@.len(),
            made@.len() == i,
            forall|k: int|
                0 <= k < i ==> field_shape((#[trigger] variants@[k]).fields@) == Some(
                    made@[k].fields@,
                ) && made@[k].name@ == variants@[k].name@ && made@[k].index == variants@[k].index,
        decreases variants@.len() - i,
    {
        match field_rules(&variants[i].fields) {
            Some(fields) => {
                made.push(
                    VariantRule {
                        name: variants[i].name.clone(),
                        index: variants[i].index,
                        fields,
                    },
                );
            },
            None => {
                assert(field_shape(variants@[i as int].fields@) is None);
                return None;
            },
        }
        i = i + 1;
    }
    assert(Seq::new(made@.len(), |k: int| made@[k]@) =~= variant_shapes(variants@)->Some_0);
    Some(made)
}

/// Works out the rule for one type of the metadata.
fn rule_for(types: &Vec<TypeDef>, def: &TypeDef) -> (rule: Option<TypeRule>)
    ensures
        match rule {
            Some(made) => rule_of(types@, *def) == Some(made@),
            None => rule_of(types@, *def) is None,
        },
{
    match def {
        TypeDef::Bool => Some(TypeRule::Bool),
        TypeDef::UInt { bits } => match width_of(*bits) {
            Some(width) => Some(TypeRule::UInt { width }),
            None => None,
        },
        TypeDef::Int { bits } => match width_of(*bits) {
            Some(width) => Some(TypeRule::Int { width }),
            None => None,
        },
        TypeDef::Composite { fields } => match wrapped_len(types, fields) {
            Some(len) => Some(TypeRule::FixedBytes { len }),
            None => match field_rules(fields) {
                Some(fields) => Some(TypeRule::Composite { fields }),
                None => None,
            },
        },
        TypeDef::Variant { variants } => match variant_rules(variants) {
            Some(variants) => Some(TypeRule::Variant { variants }),
            None => None,
        },
        TypeDef::Sequence { element } => if is_byte(types, *element) {
            Some(TypeRule::Bytes)
        } else {
            Some(TypeRule::Sequence { element: *element })
        },
        TypeDef::Array { element, len } => if is_byte(types, *element) {
            Some(TypeRule::FixedBytes { len: *len })
        } else {
            Some(TypeRule::Array { element: *element, len: *len })
        },
        TypeDef::Unsupported => None,
        TypeDef::Absent => None,
    }
}

/// What the registry holds for one type id.
#[derive(Debug)]
enum Entry {
    Known(TypeRule),
    Unsupported,
    Absent,
}

impl View for Entry {
    type V = Slot;

    closed spec fn view(&self) -> Slot {
        match self {
            Entry::Known(rule) => Slot::Known(rule@),
            Entry::Unsupported => Slot::Unsupported,
            Entry::Absent => Slot::Absent,
        }
    }
}

/// The table of rules of one metadata, keyed by type id.
#[derive(Debug)]
pub struct Registry {
    rules: Vec<Entry>,
}

impl Registry {
    #[verifier::type_invariant]
    spec fn well_formed(self) -> bool {
        forall|i: int|
            0 <= i < self.rules@.len() ==> ((#[trigger] self.rules@[i]) matches Entry::Known(rule)
                ==> rule_wf(rule@))
    }

    /// What the registry holds for each type id.
    pub closed spec fn table(&self) -> Seq<Slot> {
        Seq::new(self.rules@.len(), |i: int| self.rules@[i]@)
    }

    /// Works out the rule of every type of the metadata.
    pub fn new(types: &Vec<TypeDef>) -> (registry: Registry)
        ensures
            registry.table() == rule_table(types@),
    {
        let mut rules: Vec<Entry> = Vec::new();
        let mut i: usize = 0;
        while i < types.len()
            invariant
                i <= types@.len(),
                rules@.len() == i,
                forall|k: int|
                    0 <= k < i ==> (#[trigger] rules@[k])@ == slot_of(types@, types@[k]) && (
                    rules@[k] matches Entry::Known(rule) ==> rule_wf(rule@)),
            decreases types@.len() - i,
        {
            let entry = match &types[i] {
                TypeDef::Absent => Entry::Absent,
                def => match rule_for(types, def) {
                    Some(rule) => Entry::Known(rule),
                    None => Entry::Unsupported,
                },
            };
            proof {
                lemma_rule_of_wf(types@, types@[i as int]);
            }
            rules.push(entry);
            i = i + 1;
        }
        let registry = Registry { rules };
        assert(registry.table() =~= rule_table(types@));
        registry
    }

    /// The number of type ids that the registry knows.
    pub fn len(&self) -> (n: usize)
        ensures
            n == self.table().len(),
    {
        self.rules.len()
    }

    /// Resolves a type id to its rule: `UnknownType` where the metadata has no
    /// type of that id, `UnsupportedTypeShape` where it has one of a shape for
    /// which there is no rule.
    pub fn resolve(&self, id: u32) -> (found: Result<&TypeRule, Error>)
        ensures
            match found {
                Ok(rule) => lookup(self.table(), id as nat) == Ok::<Rule, Error>(rule@) && rule_wf(
                    rule@,
                ),
                Err(e) => lookup(self.table(), id as nat) == Err::<Rule, Error>(e),
            },
    {
        proof {
            use_type_invariant(self);
        }
        if (id as usize) < self.rules.len() {
            match &self.rules[id as usize] {
                Entry::Known(rule) => Ok(rule),
                Entry::Unsupported => Err(Error::UnsupportedTypeShape),
                Entry::Absent => Err(Error::UnknownType),
            }
        } else {
            Err(Error::UnknownType)
        }
    }
}

} // verus!
