use chain_client::error::Error;
use chain_client::metadata::{FieldDef, FunctionDef, Metadata, Module, TypeDef, VariantDef};
use chain_client::session::Session;
use chain_client::value::{Composite, DynamicValue};

const U128: u32 = 0;
const U8: u32 = 1;
const KEY: u32 = 2;
const ACCOUNT_ID: u32 = 3;
const U32: u32 = 4;
const ADDRESS: u32 = 5;

fn metadata() -> Metadata {
    Metadata {
        modules: vec![
            Module {
                name: "System".to_string(),
                index: 0,
                functions: vec![FunctionDef { name: "remark".to_string(), index: 0, params: vec![] }],
                storage: vec![],
            },
            Module {
                name: "Collections".to_string(),
                index: 51,
                functions: vec![
                    FunctionDef { name: "destroy".to_string(), index: 0, params: vec![U128] },
                    FunctionDef {
                        name: "create".to_string(),
                        index: 4,
                        params: vec![U128, ACCOUNT_ID],
                    },
                    FunctionDef {
                        name: "transfer".to_string(),
                        index: 5,
                        params: vec![U32, ADDRESS],
                    },
                    FunctionDef { name: "broken".to_string(), index: 6, params: vec![99] },
                ],
                storage: vec![],
            },
            Module {
                name: "Collections".to_string(),
                index: 52,
                functions: vec![FunctionDef { name: "later".to_string(), index: 0, params: vec![] }],
                storage: vec![],
            },
        ],
        types: vec![
            TypeDef::UInt { bits: 128 },
            TypeDef::UInt { bits: 8 },
            TypeDef::Array { element: U8, len: 32 },
            TypeDef::Composite { fields: vec![FieldDef { name: None, ty: KEY }] },
            TypeDef::UInt { bits: 32 },
            TypeDef::Variant {
                variants: vec![
                    VariantDef {
                        name: "Id".to_string(),
                        index: 0,
                        fields: vec![FieldDef { name: None, ty: ACCOUNT_ID }],
                    },
                    VariantDef {
                        name: "Index".to_string(),
                        index: 1,
                        fields: vec![FieldDef { name: None, ty: 98 }],
                    },
                ],
            },
        ],
        dispatch_error: None,
    }
}

fn account() -> Vec<u8> {
    (1..=32u8).collect()
}

#[test]
fn create_is_module_index_function_index_and_the_arguments() {
    let session = Session::open(metadata());
    let args = vec![DynamicValue::u128(7), DynamicValue::from_bytes(account())];
    let call = session.build_call("Collections", "create", &args).unwrap();
    let mut expected = vec![51, 4];
    expected.extend_from_slice(&[7, 0, 0, 0, 0, 0, 0, 0, 0, 0, 0, 0, 0, 0, 0, 0]);
    expected.extend_from_slice(&account());
    assert_eq!(call.as_bytes(), &expected);
    assert_eq!(call.into_bytes(), expected);
}

#[test]
fn an_address_is_encoded_by_the_variant_that_is_named() {
    let session = Session::open(metadata());
    let address =
        DynamicValue::variant("Id", Composite::unnamed(vec![DynamicValue::from_bytes(account())]));
    let call = session.build_call("Collections", "transfer", &vec![DynamicValue::u128(9), address]).unwrap();
    let mut expected = vec![51, 5, 9, 0, 0, 0, 0];
    expected.extend_from_slice(&account());
    assert_eq!(call.into_bytes(), expected);
}

#[test]
fn a_call_without_parameters_is_two_bytes() {
    let session = Session::open(metadata());
    assert_eq!(session.build_call("System", "remark", &vec![]).unwrap().into_bytes(), vec![0, 0]);
}

#[test]
fn an_unknown_module_is_reported_first() {
    let session = Session::open(metadata());
    assert_eq!(session.build_call("Nfts", "create", &vec![]).err(), Some(Error::UnknownModule));
    assert_eq!(session.build_call("collections", "create", &vec![]).err(), Some(Error::UnknownModule));
    assert_eq!(session.build_call("", "", &vec![]).err(), Some(Error::UnknownModule));
}

#[test]
fn an_unknown_function_is_reported_before_the_arguments_are_counted() {
    let session = Session::open(metadata());
    assert_eq!(session.build_call("Collections", "mint", &vec![]).err(), Some(Error::UnknownFunction));
    assert_eq!(session.build_call("Collections", "Create", &vec![]).err(), Some(Error::UnknownFunction));
    assert_eq!(session.build_call("System", "create", &vec![]).err(), Some(Error::UnknownFunction));
}

#[test]
fn the_first_module_of_a_name_is_the_one_that_is_asked() {
    let session = Session::open(metadata());
    assert_eq!(session.build_call("Collections", "later", &vec![]).err(), Some(Error::UnknownFunction));
}

#[test]
fn the_number_of_arguments_must_be_the_declared_one() {
    let session = Session::open(metadata());
    assert_eq!(session.build_call("Collections", "create", &vec![]).err(), Some(Error::ArityMismatch));
    assert_eq!(
        session.build_call("Collections", "create", &vec![DynamicValue::u128(7)]).err(),
        Some(Error::ArityMismatch)
    );
    assert_eq!(
        session
            .build_call(
                "Collections",
                "create",
                &vec![DynamicValue::u128(7), DynamicValue::from_bytes(account()), DynamicValue::u128(1)]
            )
            .err(),
        Some(Error::ArityMismatch)
    );
    assert_eq!(
        session.build_call("System", "remark", &vec![DynamicValue::u128(7)]).err(),
        Some(Error::ArityMismatch)
    );
}

#[test]
fn an_argument_of_the_wrong_shape_does_not_match() {
    let session = Session::open(metadata());
    let args = vec![DynamicValue::bool(true), DynamicValue::from_bytes(account())];
    assert_eq!(session.build_call("Collections", "create", &args).err(), Some(Error::ValueShapeMismatch));
    let args = vec![DynamicValue::u128(7), DynamicValue::from_bytes(vec![1, 2, 3])];
    assert_eq!(session.build_call("Collections", "create", &args).err(), Some(Error::ValueShapeMismatch));
    let args = vec![DynamicValue::from_bytes(account()), DynamicValue::u128(7)];
    assert_eq!(session.build_call("Collections", "create", &args).err(), Some(Error::ValueShapeMismatch));
    let address = DynamicValue::variant("Raw", Composite::unnamed(vec![]));
    assert_eq!(
        session.build_call("Collections", "transfer", &vec![DynamicValue::u128(9), address]).err(),
        Some(Error::ValueShapeMismatch)
    );
}

#[test]
fn a_parameter_type_that_the_metadata_lacks_is_an_unknown_type() {
    let session = Session::open(metadata());
    assert_eq!(
        session.build_call("Collections", "broken", &vec![DynamicValue::u128(7)]).err(),
        Some(Error::UnknownType)
    );
    let address = DynamicValue::variant("Index", Composite::unnamed(vec![DynamicValue::u128(1)]));
    assert_eq!(
        session.build_call("Collections", "transfer", &vec![DynamicValue::u128(9), address]).err(),
        Some(Error::UnknownType)
    );
}

#[test]
fn modules_are_listed_in_the_order_of_the_metadata() {
    let session = Session::open(metadata());
    assert_eq!(session.module_list(), vec!["System", "Collections", "Collections"]);
    assert_eq!(session.metadata_ref().find_module("Collections"), Some(1));
    assert_eq!(session.metadata_ref().find_module("Missing"), None);
    assert_eq!(session.metadata_ref().modules[1].find_function("create"), Some(1));
    assert_eq!(session.metadata_ref().modules[1].find_function("burn"), None);
    assert_eq!(session.metadata_ref().modules[1].find_storage("Asset"), None);
}
