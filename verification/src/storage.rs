//! The storage key builder and the decoder of fetched values.

use crate::decode::{decode_exact, spec_decode_exact, MAX_DEPTH};
use crate::encode::{collect, encode_value, lemma_collect_error, lemma_collect_step, spec_encode};
use crate::error::Error;
use crate::hashing::{hash_key_part, hashed, twox_128, twox_128_of};
use crate::metadata::{
    key_parts_view, module_names, spec_key_defs, split_key, storage_names, Hasher, KeyDef, KeyShape,
    Metadata, Module, TypeDef,
};
use crate::names::{first_index, lemma_first_index};
use crate::registry::{Registry, Slot};
use crate::value::{values_of, DynamicValue, Value};
use vstd::prelude::*;
use vstd::utf8::encode_utf8;

verus! {

/// The key under which a storage item keeps one value.
#[derive(Debug, PartialEq, Eq)]
pub struct StorageKey {
    bytes: Vec<u8>,
}

impl View for StorageKey {
    type V = Seq<u8>;

    closed spec fn view(&self) -> Seq<u8> {
        self.bytes@
    }
}

impl StorageKey {
    /// The bytes of the key.
    pub fn as_bytes(&self) -> (bytes: &Vec<u8>)
        ensures
            bytes@ == self@,
    {
        &self.bytes
    }

    /// The bytes of the key, by value.
    pub fn into_bytes(self) -> (bytes: Vec<u8>)
        ensures
            bytes@ == self@,
    {
        self.bytes
    }
}

/// The prefix that all keys of one storage item share: the 128-bit XX hash of
/// the module's name, then that of the item's name.
pub open spec fn storage_prefix(module: Seq<char>, item: Seq<char>) -> Seq<u8> {
    twox_128_of(encode_utf8(module)) + twox_128_of(encode_utf8(item))
}

/// For each key argument, the key material that its declared hashing mode
/// makes of its encoding.
pub open spec fn key_parts(table: Seq<Slot>, keys: Seq<(Hasher, u32)>, args: Seq<Value>) -> Seq<
    Result<Seq<u8>, Error>,
> {
    Seq::new(
        args.len(),
        |i: int|
            match spec_encode(table, keys[i].1 as nat, args[i]) {
                Ok(encoded) => Ok(hashed(keys[i].0, encoded)),
                Err(e) => Err(e),
            },
    )
}

/// What building a storage key gives. The module is the first of that name,
/// the item the first of that name in it. The errors come in this order:
/// `UnknownModule`, `UnknownStorageItem`, the error of a key type that does
/// not split as the item's hashing modes ask, `ArityMismatch` where the number
/// of arguments is not the number of parts that the item's key has, and then
/// the first error that encoding an argument gives.
pub open spec fn spec_storage_key(
    modules: Seq<Module>,
    types: Seq<TypeDef>,
    table: Seq<Slot>,
    module: Seq<char>,
    item: Seq<char>,
    args: Seq<Value>,
) -> Result<Seq<u8>, Error> {
    match first_index(module_names(modules), module) {
        None => Err(Error::UnknownModule),
        Some(m) => match first_index(storage_names(modules[m].storage@), item) {
            None => Err(Error::UnknownStorageItem),
            Some(s) => match spec_key_defs(types, modules[m].storage@[s].key) {
                Err(e) => Err(e),
                Ok(keys) => if args.len() != keys.len() {
                    Err(Error::ArityMismatch)
                } else {
                    match collect(key_parts(table, keys, args)) {
                        Err(e) => Err(e),
                        Ok(material) => Ok(storage_prefix(module, item) + material),
                    }
                },
            },
        },
    }
}

/// Equal names and equal arguments always give the same key.
pub proof fn lemma_storage_key_deterministic(
    modules: Seq<Module>,
    types: Seq<TypeDef>,
    table: Seq<Slot>,
    module: Seq<char>,
    item: Seq<char>,
    args: Seq<Value>,
    other_module: Seq<char>,
    other_item: Seq<char>,
    other_args: Seq<Value>,
)
    requires
        module =~= other_module,
        item =~= other_item,
        args.len() == other_args.len(),
        forall|i: int| 0 <= i < args.len() ==> args[i] == other_args[i],
    ensures
        spec_storage_key(modules, types, table, module, item, args) == spec_storage_key(
            modules,
            types,
            table,
            other_module,
            other_item,
            other_args,
        ),
{
    assert(args =~= other_args);
}

/// Builds the key of the value that `item` of `module` keeps for the key arguments `args`.
#[verifier::loop_isolation(false)]
pub fn build_storage_key(
    metadata: &Metadata,
    registry: &Registry,
    module: &str,
    item: &str,
    args: &Vec<DynamicValue>,
) -> (out: Result<StorageKey, Error>)
    ensures
        match out {
            Ok(key) => spec_storage_key(
                metadata.modules@,
                metadata.types@,
                registry.table(),
                module@,
                item@,
                values_of(args@),
            ) == Ok::<Seq<u8>, Error>(key@) && key@.len() >= 32 && key@.subrange(0, 32)
                == storage_prefix(module@, item@),
            Err(e) => spec_storage_key(
                metadata.modules@,
                metadata.types@,
                registry.table(),
                module@,
                item@,
                values_of(args@),
            ) == Err::<Seq<u8>, Error>(e),
        },
{
    let m = match metadata.find_module(module) {
        Some(m) => m,
        None => {
            return Err(Error::UnknownModule);
        },
    };
    proof {
        lemma_first_index(module_names(metadata.modules@), module@);
    }
    let found = &metadata.modules[m];
    let s = match found.find_storage(item) {
        Some(s) => s,
        None => {
            return Err(Error::UnknownStorageItem);
        },
    };
    proof {
        lemma_first_index(storage_names(found.storage@), item@);
    }
    let keys: Vec<KeyDef> = match &found.storage[s].key {
        KeyShape::Plain => {
            let none: Vec<KeyDef> = Vec::new();
            assert(key_parts_view(none@) =~= Seq::<(Hasher, u32)>::empty());
            none
        },
        KeyShape::Keyed { hashers, key } => match split_key(&metadata.types, hashers, *key) {
            Ok(keys) => keys,
            Err(e) => {
                return Err(e);
            },
        },
    };
    if args.len() != keys.len() {
        return Err(Error::ArityMismatch);
    }
    let mut bytes: Vec<u8> = twox_128(module.as_bytes());
    let mut second: Vec<u8> = twox_128(item.as_bytes());
    bytes.append(&mut second);
    assert(bytes@ == storage_prefix(module@, item@));
    let ghost parts = key_parts(registry.table(), key_parts_view(keys@), values_of(args@));
    let mut material: Vec<u8> = Vec::new();
    let mut i: usize = 0;
    while i < args.len()
        invariant
            i <= args@.len(),
            args@.len() == keys@.len(),
            parts == key_parts(registry.table(), key_parts_view(keys@), values_of(args@)),
            collect(parts.take(i as int)) == Ok::<Seq<u8>, Error>(material@),
        decreases args@.len() - i,
    {
        match encode_value(registry, keys[i].ty, &args[i]) {
            Ok(encoded) => {
                let mut part = hash_key_part(keys[i].hasher, &encoded);
                proof {
                    assert(parts[i as int] == Ok::<Seq<u8>, Error>(part@));
                    lemma_collect_step(parts, i as int);
                }
                material.append(&mut part);
            },
            Err(e) => {
                proof {
                    assert(parts[i as int] == Err::<Seq<u8>, Error>(e));
                    lemma_collect_error(parts, i as int);
                }
                return Err(e);
            },
        }
        i = i + 1;
    }
    assert(parts.take(i as int) =~= parts);
    let ghost prefix = bytes@;
    bytes.append(&mut material);
    let key = StorageKey { bytes };
    assert(key@.subrange(0, 32) =~= prefix);
    Ok(key)
}

/// What decoding a fetched storage value gives: nothing where the key is
/// absent, and else the value that the bytes are under the rule of the item's
/// value type. The names are looked up first.
pub open spec fn spec_storage_value(
    modules: Seq<Module>,
    table: Seq<Slot>,
    module: Seq<char>,
    item: Seq<char>,
    fetched: Option<Seq<u8>>,
) -> Result<Option<Value>, Error> {
    match first_index(module_names(modules), module) {
        None => Err(Error::UnknownModule),
        Some(m) => match first_index(storage_names(modules[m].storage@), item) {
            None => Err(Error::UnknownStorageItem),
            Some(s) => match fetched {
                None => Ok(None),
                Some(bytes) => match spec_decode_exact(
                    table,
                    modules[m].storage@[s].value as nat,
                    bytes,
                    MAX_DEPTH as nat,
                ) {
                    Ok(value) => Ok(Some(value)),
                    Err(e) => Err(e),
                },
            },
        },
    }
}

/// The view of what decoding a fetched storage value returned.
pub open spec fn storage_value_view(out: Result<Option<DynamicValue>, Error>) -> Result<
    Option<Value>,
    Error,
> {
    match out {
        Ok(Some(value)) => Ok(Some(value@)),
        Ok(None) => Ok(None),
        Err(e) => Err(e),
    }
}

/// Decodes what was fetched for a key of `item` of `module`; `fetched` is `None`
/// where the chain holds no value under the key.
pub fn decode_storage_value(
    metadata: &Metadata,
    registry: &Registry,
    module: &str,
    item: &str,
    fetched: Option<&Vec<u8>>,
) -> (out: Result<Option<DynamicValue>, Error>)
    ensures
        storage_value_view(out) == spec_storage_value(
            metadata.modules@,
            registry.table(),
            module@,
            item@,
            match fetched {
                Some(bytes) => Some(bytes@),
                None => None,
            },
        ),
{
    let m = match metadata.find_module(module) {
        Some(m) => m,
        None => {
            return Err(Error::UnknownModule);
        },
    };
    proof {
        lemma_first_index(module_names(metadata.modules@), module@);
    }
    let found = &metadata.modules[m];
    let s = match found.find_storage(item) {
        Some(s) => s,
        None => {
            return Err(Error::UnknownStorageItem);
        },
    };
    proof {
        lemma_first_index(storage_names(found.storage@), item@);
    }
    match fetched {
        None => Ok(None),
        Some(bytes) => match decode_exact(registry, found.storage[s].value, bytes.as_slice(), MAX_DEPTH) {
            Ok(value) => Ok(Some(value)),
            Err(e) => Err(e),
        },
    }
}

} // verus!
