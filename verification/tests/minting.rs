use chain_client::error::Error;
use chain_client::metadata::{
    FieldDef, FunctionDef, Hasher, KeyShape, Metadata, Module, StorageDef, TypeDef, VariantDef,
};
use chain_client::minting::{
    account_address, collection_id_from, fresh_collection_id, signer_account, MintPlan, PlanAction,
    PlanError, PlanEvent, Stage, ITEM_ID,
};
use chain_client::session::Session;
use chain_client::tracker::{Event, Outcome};
use chain_client::value::{Composite, DynamicValue};

const U32: u32 = 0;
const U8: u32 = 1;
const KEY: u32 = 2;
const ACCOUNT_ID: u32 = 3;
const ADDRESS: u32 = 4;
const DETAILS: u32 = 5;
const BOOL: u32 = 6;
const ASSET_KEY: u32 = 7;

fn uniques(functions: Vec<FunctionDef>, storage: Vec<StorageDef>) -> Metadata {
    Metadata {
        modules: vec![Module { name: "Uniques".to_string(), index: 51, functions, storage }],
        types: vec![
            TypeDef::UInt { bits: 32 },
            TypeDef::UInt { bits: 8 },
            TypeDef::Array { element: U8, len: 32 },
            TypeDef::Composite { fields: vec![FieldDef { name: None, ty: KEY }] },
            TypeDef::Variant {
                variants: vec![
                    VariantDef {
                        name: "Id".to_string(),
                        index: 0,
                        fields: vec![FieldDef { name: None, ty: ACCOUNT_ID }],
                    },
                    VariantDef {
                        name: "Index".to_string(),
                        index: 1,
                        fields: vec![FieldDef { name: None, ty: 90 }],
                    },
                ],
            },
            TypeDef::Composite {
                fields: vec![
                    FieldDef { name: Some("owner".to_string()), ty: ACCOUNT_ID },
                    FieldDef { name: Some("is_frozen".to_string()), ty: BOOL },
                ],
            },
            TypeDef::Bool,
            TypeDef::Composite {
                fields: vec![FieldDef { name: None, ty: U32 }, FieldDef { name: None, ty: U32 }],
            },
        ],
        dispatch_error: None,
    }
}

fn metadata() -> Metadata {
    uniques(
        vec![
            FunctionDef { name: "create".to_string(), index: 0, params: vec![U32, ADDRESS] },
            FunctionDef { name: "mint".to_string(), index: 3, params: vec![U32, U32, ADDRESS] },
        ],
        vec![StorageDef {
            name: "Asset".to_string(),
            key: KeyShape::Keyed {
                hashers: vec![Hasher::Blake2_128Concat, Hasher::Blake2_128Concat],
                key: ASSET_KEY,
            },
            value: DETAILS,
        }],
    )
}

fn owner() -> Vec<u8> {
    (100..132u8).collect()
}

fn success() -> PlanEvent {
    PlanEvent::Settled(Outcome::Success(vec![Event {
        module: "System".to_string(),
        name: "ExtrinsicSuccess".to_string(),
        data: vec![],
    }]))
}

#[test]
fn the_plan_creates_mints_and_then_reads_the_item_back() {
    let session = Session::open(metadata());
    let mut plan = MintPlan::new(12, 234, owner());
    assert_eq!(plan.stage(), Stage::Start);

    let action = plan.step(&session, PlanEvent::Connected).unwrap();
    let mut create = vec![51, 0, 12, 0, 0, 0, 0];
    create.extend_from_slice(&owner());
    assert!(matches!(&action, PlanAction::Submit(call) if call.as_bytes() == &create));
    assert_eq!(plan.stage(), Stage::Creating);

    let action = plan.step(&session, success()).unwrap();
    let mut mint = vec![51, 3, 12, 0, 0, 0, 234, 0, 0, 0, 0];
    mint.extend_from_slice(&owner());
    assert!(matches!(&action, PlanAction::Submit(call) if call.as_bytes() == &mint));
    assert_eq!(plan.stage(), Stage::Minting);

    let action = plan.step(&session, success()).unwrap();
    let key = session
        .build_storage_key("Uniques", "Asset", &vec![DynamicValue::u128(12), DynamicValue::u128(234)])
        .unwrap();
    assert_eq!(action, PlanAction::Fetch(key));
    assert_eq!(plan.stage(), Stage::Querying);

    let mut stored = owner();
    stored.push(0);
    let action = plan.step(&session, PlanEvent::Fetched(Some(stored))).unwrap();
    let details = DynamicValue::composite(Composite::named(vec![
        ("owner".to_string(), DynamicValue::from_bytes(owner())),
        ("is_frozen".to_string(), DynamicValue::bool(false)),
    ]));
    assert_eq!(action, PlanAction::Report(Ok(Some(details))));
    assert_eq!(plan.stage(), Stage::Done);
}

#[test]
fn an_item_that_storage_does_not_hold_is_reported_as_absent() {
    let session = Session::open(metadata());
    let mut plan = MintPlan::new(12, 234, owner());
    plan.step(&session, PlanEvent::Connected).unwrap();
    plan.step(&session, success()).unwrap();
    plan.step(&session, success()).unwrap();
    assert_eq!(plan.step(&session, PlanEvent::Fetched(None)), Ok(PlanAction::Report(Ok(None))));
    assert_eq!(plan.stage(), Stage::Done);
}

#[test]
fn a_call_that_does_not_succeed_ends_the_plan_where_it_is() {
    let session = Session::open(metadata());
    let mut plan = MintPlan::new(12, 234, owner());
    plan.step(&session, PlanEvent::Connected).unwrap();
    assert_eq!(
        plan.step(&session, PlanEvent::Settled(Outcome::DroppedOrUsurped)),
        Err(PlanError::Unsuccessful(Outcome::DroppedOrUsurped))
    );
    assert_eq!(plan.stage(), Stage::Creating);
    plan.step(&session, success()).unwrap();
    assert_eq!(
        plan.step(&session, PlanEvent::Settled(Outcome::Invalid("stale".to_string()))),
        Err(PlanError::Unsuccessful(Outcome::Invalid("stale".to_string())))
    );
    assert_eq!(plan.stage(), Stage::Minting);
}

#[test]
fn an_event_that_the_stage_does_not_wait_for_is_unexpected() {
    let session = Session::open(metadata());
    let mut plan = MintPlan::new(12, 234, owner());
    assert_eq!(plan.step(&session, success()), Err(PlanError::Unexpected));
    assert_eq!(plan.step(&session, PlanEvent::Fetched(None)), Err(PlanError::Unexpected));
    plan.step(&session, PlanEvent::Connected).unwrap();
    assert_eq!(plan.step(&session, PlanEvent::Connected), Err(PlanError::Unexpected));
    assert_eq!(plan.step(&session, PlanEvent::Fetched(None)), Err(PlanError::Unexpected));
    plan.step(&session, success()).unwrap();
    plan.step(&session, success()).unwrap();
    assert_eq!(plan.step(&session, success()), Err(PlanError::Unexpected));
    plan.step(&session, PlanEvent::Fetched(None)).unwrap();
    assert_eq!(plan.step(&session, PlanEvent::Fetched(None)), Err(PlanError::Unexpected));
    assert_eq!(plan.step(&session, PlanEvent::Connected), Err(PlanError::Unexpected));
}

#[test]
fn what_the_engine_cannot_build_is_reported_and_leaves_the_plan_where_it_is() {
    let session = Session::open(Metadata { modules: vec![], types: vec![], dispatch_error: None });
    let mut plan = MintPlan::new(12, 234, owner());
    assert_eq!(plan.step(&session, PlanEvent::Connected), Err(PlanError::Engine(Error::UnknownModule)));
    assert_eq!(plan.stage(), Stage::Start);

    let session = Session::open(uniques(
        vec![FunctionDef { name: "create".to_string(), index: 0, params: vec![U32, ADDRESS] }],
        vec![],
    ));
    let mut plan = MintPlan::new(1 << 32, 234, owner());
    assert_eq!(
        plan.step(&session, PlanEvent::Connected),
        Err(PlanError::Engine(Error::ValueShapeMismatch))
    );
    let mut plan = MintPlan::new(12, 234, vec![1, 2, 3]);
    assert_eq!(
        plan.step(&session, PlanEvent::Connected),
        Err(PlanError::Engine(Error::ValueShapeMismatch))
    );
    let mut plan = MintPlan::new(12, 234, owner());
    plan.step(&session, PlanEvent::Connected).unwrap();
    assert_eq!(plan.step(&session, success()), Err(PlanError::Engine(Error::UnknownFunction)));
    assert_eq!(plan.stage(), Stage::Creating);
}

fn querying(session: &Session) -> MintPlan {
    let mut plan = MintPlan::new(12, 234, owner());
    plan.step(session, PlanEvent::Connected).unwrap();
    plan.step(session, success()).unwrap();
    plan.step(session, success()).unwrap();
    assert_eq!(plan.stage(), Stage::Querying);
    plan
}

#[test]
fn what_was_fetched_and_does_not_decode_is_reported_and_completes_the_plan() {
    let session = Session::open(metadata());
    let mut long = owner();
    long.extend_from_slice(&[0, 9]);
    let mut wrong = owner();
    wrong.push(2);
    for (fetched, reason) in [
        (vec![1, 2, 3], Error::TruncatedInput),
        (vec![], Error::TruncatedInput),
        (long, Error::TrailingBytes),
        (wrong, Error::ValueShapeMismatch),
    ] {
        let mut plan = querying(&session);
        assert_eq!(
            plan.step(&session, PlanEvent::Fetched(Some(fetched))),
            Ok(PlanAction::Report(Err(reason)))
        );
        assert_eq!(plan.stage(), Stage::Done);
    }
}

#[test]
fn a_value_type_without_a_rule_is_reported_and_completes_the_plan() {
    let mut metadata = metadata();
    metadata.modules[0].storage[0].value = 90;
    let session = Session::open(metadata);
    let mut plan = querying(&session);
    assert_eq!(
        plan.step(&session, PlanEvent::Fetched(Some(vec![1]))),
        Ok(PlanAction::Report(Err(Error::UnknownType)))
    );
    assert_eq!(plan.stage(), Stage::Done);
    let mut plan = querying(&session);
    assert_eq!(plan.step(&session, PlanEvent::Fetched(None)), Ok(PlanAction::Report(Ok(None))));
}

#[test]
fn the_address_of_an_account_is_the_variant_id_around_its_bytes() {
    assert_eq!(
        account_address(&owner()),
        DynamicValue::variant("Id", Composite::unnamed(vec![DynamicValue::from_bytes(owner())]))
    );
}

#[test]
fn the_account_of_a_signer_is_its_public_key() {
    let alice = subxt_signer::sr25519::dev::alice();
    assert_eq!(signer_account(&alice), alice.public_key().0.to_vec());
    assert_eq!(
        signer_account(&alice),
        vec![
            0xd4, 0x35, 0x93, 0xc7, 0x15, 0xfd, 0xd3, 0x1c, 0x61, 0x14, 0x1a, 0xbd, 0x04, 0xa9, 0x9f,
            0xd6, 0x82, 0x2c, 0x85, 0x58, 0x85, 0x4c, 0xcd, 0xe3, 0x9a, 0x56, 0x84, 0xe7, 0xa5, 0x6d,
            0xa2, 0x7d
        ]
    );
    let bob = subxt_signer::sr25519::dev::bob();
    assert_ne!(signer_account(&bob), signer_account(&alice));
}

#[test]
fn a_plan_for_a_signer_mints_the_default_item_in_a_fresh_collection() {
    let alice = subxt_signer::sr25519::dev::alice();
    let plan = MintPlan::for_signer(&alice);
    assert_eq!(plan.stage(), Stage::Start);
    assert_eq!(plan.item(), ITEM_ID);
    assert_eq!(plan.item(), 234);
    assert!(plan.collection() <= u32::MAX as u128);
    assert_eq!(plan.owner(), &alice.public_key().0.to_vec());
}

#[test]
fn fresh_collection_ids_are_32_bit_numbers() {
    for _ in 0..100 {
        assert!(fresh_collection_id() <= u32::MAX as u128);
    }
}

#[test]
fn a_drawn_number_is_the_collection_id() {
    assert_eq!(collection_id_from(0), 0);
    assert_eq!(collection_id_from(12), 12);
    assert_eq!(collection_id_from(u32::MAX), 4294967295);
}

#[test]
fn fresh_collection_ids_differ_from_draw_to_draw() {
    let drawn: Vec<u128> = (0..32).map(|_| fresh_collection_id()).collect();
    assert!(drawn.iter().any(|id| *id != drawn[0]));
}
