//! The metadata that a node serves: its modules with their callable functions
//! and storage items, and the table of types that those refer to by id.

use crate::error::Error;
use crate::names::{first_index, lemma_first_index_is, lemma_first_index_none};
use vstd::prelude::*;

verus! {

/// One field of a composite type or of a variant.
#[derive(Debug)]
pub struct FieldDef {
    /// The field's name; `None` in a tuple.
    pub name: Option<String>,
    /// The id of the field's type.
    pub ty: u32,
}

/// One variant of a variant type.
#[derive(Debug)]
pub struct VariantDef {
    /// The variant's name.
    pub name: String,
    /// The discriminant that stands for the variant on the wire.
    pub index: u8,
    /// The variant's fields, in declared order.
    pub fields: Vec<FieldDef>,
}

/// The shape of one type, as the metadata describes it.
#[derive(Debug)]
pub enum TypeDef {
    /// A boolean.
    Bool,
    /// An unsigned integer of `bits` bits.
    UInt { bits: u16 },
    /// A signed integer of `bits` bits.
    Int { bits: u16 },
    /// Fields in declared order.
    Composite { fields: Vec<FieldDef> },
    /// One of several named variants.
    Variant { variants: Vec<VariantDef> },
    /// Any number of elements of one type.
    Sequence { element: u32 },
    /// Exactly `len` elements of one type.
    Array { element: u32, len: u32 },
    /// A shape that this engine has no rule for.
    Unsupported,
    /// No type: the metadata has none with the id of this position.
    Absent,
}

/// How one part of a storage key is derived from the encoded key argument.
#[derive(Debug, Clone, Copy, PartialEq, Eq, Structural)]
pub enum Hasher {
    /// The encoded argument itself.
    Identity,
    /// The 128-bit Blake2 hash.
    Blake2_128,
    /// The 128-bit Blake2 hash, followed by the encoded argument.
    Blake2_128Concat,
    /// The 256-bit Blake2 hash.
    Blake2_256,
    /// The 128-bit XX hash.
    Twox128,
    /// The 256-bit XX hash.
    Twox256,
    /// The 64-bit XX hash, followed by the encoded argument.
    Twox64Concat,
}

/// One part of a storage item's key.
#[derive(Debug)]
pub struct KeyDef {
    /// How the part is derived from the encoded argument.
    pub hasher: Hasher,
    /// The id of the argument's type.
    pub ty: u32,
}

/// How a storage item is keyed, as the metadata declares it.
#[derive(Debug)]
pub enum KeyShape {
    /// One value, under the item's prefix alone.
    Plain,
    /// A map: its hashing modes, in order, and the id of the type of its key.
    Keyed { hashers: Vec<Hasher>, key: u32 },
}

/// A callable function of a module.
#[derive(Debug)]
pub struct FunctionDef {
    /// The function's name.
    pub name: String,
    /// The index that stands for the function on the wire.
    pub index: u8,
    /// The ids of the parameter types, in declared order.
    pub params: Vec<u32>,
}

/// A storage item of a module.
#[derive(Debug)]
pub struct StorageDef {
    /// The item's name.
    pub name: String,
    /// How the item is keyed.
    pub key: KeyShape,
    /// The id of the type of the stored value.
    pub value: u32,
}

/// A named group of functions and storage items.
#[derive(Debug)]
pub struct Module {
    /// The module's name.
    pub name: String,
    /// The index that stands for the module on the wire.
    pub index: u8,
    /// The callable functions.
    pub functions: Vec<FunctionDef>,
    /// The storage items.
    pub storage: Vec<StorageDef>,
}

/// The schema of one runtime version.
#[derive(Debug)]
pub struct Metadata {
    /// The modules.
    pub modules: Vec<Module>,
    /// The types; a type's id is its position.
    pub types: Vec<TypeDef>,
    /// The id of the type of a dispatch error, where the runtime declares one.
    pub dispatch_error: Option<u32>,
}

/// The names of the modules, in order.
pub open spec fn module_names(modules: Seq<Module>) -> Seq<Seq<char>> {
    Seq::new(modules.len(), |i: int| modules[i].name@)
}

/// The names of the functions, in order.
pub open spec fn function_names(functions: Seq<FunctionDef>) -> Seq<Seq<char>> {
    Seq::new(functions.len(), |i: int| functions[i].name@)
}

/// The names of the storage items, in order.
pub open spec fn storage_names(items: Seq<StorageDef>) -> Seq<Seq<char>> {
    Seq::new(items.len(), |i: int| items[i].name@)
}

/// The parameter type ids of a function, as numbers.
pub open spec fn param_types(function: FunctionDef) -> Seq<nat> {
    Seq::new(function.params@.len(), |i: int| function.params@[i] as nat)
}

/// The parts of a key, each as its hashing mode and the id of its argument's type.
pub open spec fn key_parts_view(keys: Seq<KeyDef>) -> Seq<(Hasher, u32)> {
    Seq::new(keys.len(), |i: int| (keys[i].hasher, keys[i].ty))
}

/// How the key of a map splits into parts. A map with one hashing mode has one
/// key argument, of the key type. A map with several has one argument for
/// each: the key type is then a tuple with as many fields as there are modes,
/// and each field is the type of one argument.
pub open spec fn spec_split_key(types: Seq<TypeDef>, hashers: Seq<Hasher>, key: u32) -> Result<
    Seq<(Hasher, u32)>,
    Error,
> {
    if hashers.len() == 1 {
        Ok(seq![(hashers[0], key)])
    } else if key >= types.len() {
        Err(Error::UnknownType)
    } else {
        match types[key as int] {
            TypeDef::Composite { fields } => if fields@.len() == hashers.len() {
                Ok(Seq::new(hashers.len(), |i: int| (hashers[i], fields@[i].ty)))
            } else {
                Err(Error::UnsupportedTypeShape)
            },
            _ => Err(Error::UnsupportedTypeShape),
        }
    }
}

/// The parts of the key of a storage item: none for a plain value, and for a
/// map the parts that its key splits into.
pub open spec fn spec_key_defs(types: Seq<TypeDef>, shape: KeyShape) -> Result<
    Seq<(Hasher, u32)>,
    Error,
> {
    match shape {
        KeyShape::Plain => Ok(Seq::empty()),
        KeyShape::Keyed { hashers, key } => spec_split_key(types, hashers@, key),
    }
}

/// Splits the key of a map into its parts, from the hashing modes that the map
/// declares and the type of its key.
pub fn split_key(types: &Vec<TypeDef>, hashers: &Vec<Hasher>, key: u32) -> (out: Result<
    Vec<KeyDef>,
    Error,
>)
    ensures
        match out {
            Ok(keys) => spec_split_key(types@, hashers@, key) == Ok::<Seq<(Hasher, u32)>, Error>(
                key_parts_view(keys@),
            ),
            Err(e) => spec_split_key(types@, hashers@, key) == Err::<Seq<(Hasher, u32)>, Error>(e),
        },
{
    let mut keys: Vec<KeyDef> = Vec::new();
    if hashers.len() == 1 {
        keys.push(KeyDef { hasher: hashers[0], ty: key });
        assert(key_parts_view(keys@) =~= seq![(hashers@[0], key)]);
        return Ok(keys);
    }
    if key as usize >= types.len() {
        return Err(Error::UnknownType);
    }
    match &types[key as usize] {
        TypeDef::Composite { fields } => {
            if fields.len() != hashers.len() {
                return Err(Error::UnsupportedTypeShape);
            }
            let mut i: usize = 0;
            while i < hashers.len()
                invariant
                    i <= hashers@.len(),
                    fields@.len() == hashers@.len(),
                    keys@.len() == i,
                    forall|k: int|
                        0 <= k < i ==> (#[trigger] keys@[k]).hasher == hashers@[k] && keys@[k].ty
                            == fields@[k].ty,
                decreases hashers@.len() - i,
            {
                keys.push(KeyDef { hasher: hashers[i], ty: fields[i].ty });
                i = i + 1;
            }
            assert(key_parts_view(keys@) =~= Seq::new(
                hashers@.len(),
                |i: int| (hashers@[i], fields@[i].ty),
            ));
            Ok(keys)
        },
        _ => Err(Error::UnsupportedTypeShape),
    }
}

impl Metadata {
    /// Looks a module up by its exact name; the first of that name is the one found.
    pub fn find_module(&self, name: &str) -> (found: Option<usize>)
        ensures
            match found {
                Some(i) => first_index(module_names(self.modules@), name@) == Some(i as int),
                None => first_index(module_names(self.modules@), name@) is None,
            },
    {
        let wanted: String = name.to_owned();
        let mut i: usize = 0;
        while i < self.modules.len()
            invariant
                i <= self.modules@.len(),
                wanted@ == name@,
                forall|k: int| 0 <= k < i ==> module_names(self.modules@)[k] != name@,
            decreases self.modules@.len() - i,
        {
            if self.modules[i].name == wanted {
                proof {
                    lemma_first_index_is(module_names(self.modules@), name@, i as int);
                }
                return Some(i);
            }
            i = i + 1;
        }
        proof {
            lemma_first_index_none(module_names(self.modules@), name@);
        }
        None
    }
}

impl Module {
    /// Looks a function up by its exact name; the first of that name is the one found.
    pub fn find_function(&self, name: &str) -> (found: Option<usize>)
        ensures
            match found {
                Some(i) => first_index(function_names(self.functions@), name@) == Some(i as int),
                None => first_index(function_names(self.functions@), name@) is None,
            },
    {
        let wanted: String = name.to_owned();
        let mut i: usize = 0;
        while i < self.functions.len()
            invariant
                i <= self.functions@.len(),
                wanted@ == name@,
                forall|k: int| 0 <= k < i ==> function_names(self.functions@)[k] != name@,
            decreases self.functions@.len() - i,
        {
            if self.functions[i].name == wanted {
                proof {
                    lemma_first_index_is(function_names(self.functions@), name@, i as int);
                }
                return Some(i);
            }
            i = i + 1;
        }
        proof {
            lemma_first_index_none(function_names(self.functions@), name@);
        }
        None
    }

    /// Looks a storage item up by its exact name; the first of that name is the one found.
    pub fn find_storage(&self, name: &str) -> (found: Option<usize>)
        ensures
            match found {
                Some(i) => first_index(storage_names(self.storage@), name@) == Some(i as int),
                None => first_index(storage_names(self.storage@), name@) is None,
            },
    {
        let wanted: String = name.to_owned();
        let mut i: usize = 0;
        while i < self.storage.len()
            invariant
                i <= self.storage@.len(),
                wanted@ == name@,
                forall|k: int| 0 <= k < i ==> storage_names(self.storage@)[k] != name@,
            decreases self.storage@.len() - i,
        {
            if self.storage[i].name == wanted {
                proof {
                    lemma_first_index_is(storage_names(self.storage@), name@, i as int);
                }
                return Some(i);
            }
            i = i + 1;
        }
        proof {
            lemma_first_index_none(storage_names(self.storage@), name@);
        }
        None
    }
}

} // verus!
