use chain_client::decode::{decode_exact, decode_value, MAX_DEPTH};
use chain_client::encode::encode_value;
use chain_client::error::Error;
use chain_client::metadata::{split_key, FieldDef, Hasher, KeyDef, TypeDef};
use chain_client::registry::{Registry, TypeRule};
use chain_client::value::DynamicValue;

fn types() -> Vec<TypeDef> {
    vec![
        TypeDef::UInt { bits: 32 },
        TypeDef::Composite {
            fields: vec![FieldDef { name: None, ty: 0 }, FieldDef { name: None, ty: 3 }],
        },
        TypeDef::Composite { fields: vec![] },
        TypeDef::Bool,
        TypeDef::UInt { bits: 512 },
        TypeDef::Absent,
        TypeDef::Sequence { element: 5 },
    ]
}

fn parts(keys: Vec<KeyDef>) -> Vec<(Hasher, u32)> {
    keys.into_iter().map(|k| (k.hasher, k.ty)).collect()
}

#[test]
fn a_registry_holds_one_rule_for_each_type_id() {
    let registry = Registry::new(&types());
    assert_eq!(registry.len(), 7);
    assert!(matches!(registry.resolve(0), Ok(TypeRule::UInt { width: 4 })));
    assert!(matches!(registry.resolve(1), Ok(TypeRule::Composite { .. })));
    assert!(matches!(registry.resolve(3), Ok(TypeRule::Bool)));
    assert_eq!(registry.resolve(4).err(), Some(Error::UnsupportedTypeShape));
    assert_eq!(registry.resolve(5).err(), Some(Error::UnknownType));
    assert!(matches!(registry.resolve(6), Ok(TypeRule::Sequence { element: 5 })));
    assert_eq!(registry.resolve(7).err(), Some(Error::UnknownType));
    assert_eq!(Registry::new(&vec![]).len(), 0);
    assert_eq!(Registry::new(&vec![]).resolve(0).err(), Some(Error::UnknownType));
}

#[test]
fn values_are_encoded_and_decoded_against_a_registry() {
    let registry = Registry::new(&types());
    assert_eq!(encode_value(&registry, 0, &DynamicValue::u128(258)), Ok(vec![2, 1, 0, 0]));
    assert_eq!(
        decode_value(&registry, 0, &[2, 1, 0, 0, 5], MAX_DEPTH),
        Ok((DynamicValue::u128(258), 4))
    );
    assert_eq!(decode_exact(&registry, 0, &[2, 1, 0, 0], MAX_DEPTH), Ok(DynamicValue::u128(258)));
    assert_eq!(decode_exact(&registry, 0, &[2, 1, 0, 0, 5], MAX_DEPTH), Err(Error::TrailingBytes));
    assert_eq!(MAX_DEPTH, 64);
}

#[test]
fn an_id_that_no_type_has_is_an_unknown_type() {
    let registry = Registry::new(&types());
    assert_eq!(encode_value(&registry, 5, &DynamicValue::u128(1)), Err(Error::UnknownType));
    assert_eq!(decode_value(&registry, 5, &[1], MAX_DEPTH), Err(Error::UnknownType));
    let one = DynamicValue::sequence(vec![DynamicValue::u128(1)]);
    assert_eq!(encode_value(&registry, 6, &one), Err(Error::UnknownType));
    assert_eq!(encode_value(&registry, 6, &DynamicValue::sequence(vec![])), Ok(vec![0]));
    assert_eq!(decode_value(&registry, 6, &[4, 1], MAX_DEPTH), Err(Error::UnknownType));
    assert_eq!(encode_value(&registry, 4, &DynamicValue::u128(1)), Err(Error::UnsupportedTypeShape));
}

#[test]
fn a_map_with_one_hashing_mode_has_one_key_argument() {
    let keys = split_key(&types(), &vec![Hasher::Twox64Concat], 1).unwrap();
    assert_eq!(parts(keys), vec![(Hasher::Twox64Concat, 1)]);
    let keys = split_key(&types(), &vec![Hasher::Identity], 77).unwrap();
    assert_eq!(parts(keys), vec![(Hasher::Identity, 77)]);
}

#[test]
fn a_map_with_several_hashing_modes_has_one_key_argument_for_each() {
    let keys = split_key(&types(), &vec![Hasher::Blake2_128Concat, Hasher::Twox128], 1).unwrap();
    assert_eq!(parts(keys), vec![(Hasher::Blake2_128Concat, 0), (Hasher::Twox128, 3)]);
    assert_eq!(parts(split_key(&types(), &vec![], 2).unwrap()), vec![]);
}

#[test]
fn a_key_type_that_does_not_split_as_the_modes_ask_is_refused() {
    let two = vec![Hasher::Identity, Hasher::Identity];
    let three = vec![Hasher::Identity, Hasher::Identity, Hasher::Identity];
    assert_eq!(split_key(&types(), &three, 1).err(), Some(Error::UnsupportedTypeShape));
    assert_eq!(split_key(&types(), &two, 0).err(), Some(Error::UnsupportedTypeShape));
    assert_eq!(split_key(&types(), &two, 2).err(), Some(Error::UnsupportedTypeShape));
    assert_eq!(split_key(&types(), &two, 9).err(), Some(Error::UnknownType));
    assert_eq!(split_key(&types(), &two, 5).err(), Some(Error::UnsupportedTypeShape));
    assert_eq!(split_key(&types(), &vec![], 9).err(), Some(Error::UnknownType));
}
