//! A plan that puts the engine to work on the `Uniques` module: create a
//! collection, mint an item in it for an owner, and read the item back from
//! storage. The plan decides what to submit or fetch next; the caller does the
//! submitting, the waiting and the fetching, and reports what came of it.

use crate::call::{spec_build_call, EncodedCall};
use crate::error::Error;
use crate::metadata::{Module, TypeDef};
use crate::registry::Slot;
use crate::session::Session;
use crate::storage::{spec_storage_key, spec_storage_value, storage_value_view, StorageKey};
use crate::tracker::{Outcome, OutcomeView};
use crate::value::{values_of, Composite, DynamicValue, Fields, Value};
use vstd::prelude::*;
use vstd::slice::slice_to_vec;

verus! {

/// Makes `rand::rngs::ThreadRng` known as an opaque type: a handle to the
/// random number generator of the current thread.
#[verifier::external_type_specification]
#[verifier::external_body]
pub struct ExThreadRng(rand::rngs::ThreadRng);

/// Makes `subxt_signer::sr25519::Keypair` known as an opaque type: a key pair
/// that signs transactions.
#[verifier::external_type_specification]
#[verifier::external_body]
pub struct ExKeypair(subxt_signer::sr25519::Keypair);

/// Calls `rand::rng`, which hands out the random number generator of the
/// current thread; it is seeded from the operating system when the thread
/// first asks for it. Trusted: nothing is claimed of the generator.
#[verifier::external_body]
fn thread_generator() -> rand::rngs::ThreadRng {
    rand::rng()
}

/// Calls `rand::RngCore::next_u32` on the thread's generator, which returns the
/// next random number. Trusted: nothing is claimed of the number.
#[verifier::external_body]
fn next_random(generator: &mut rand::rngs::ThreadRng) -> u32 {
    rand::RngCore::next_u32(generator)
}

/// What `subxt_signer::sr25519::Keypair::public_key` returns for the key pair.
pub uninterp spec fn public_key_of(signer: subxt_signer::sr25519::Keypair) -> Seq<u8>;

/// Calls `subxt_signer::sr25519::Keypair::public_key`, which returns the public
/// key of the pair as an array of 32 bytes. Trusted: the result is the named
/// public key of the pair and is 32 bytes long.
#[verifier::external_body]
fn public_key_bytes(signer: &subxt_signer::sr25519::Keypair) -> (key: Vec<u8>)
    ensures
        key@ == public_key_of(*signer),
        key@.len() == 32,
{
    signer.public_key().0.to_vec()
}

/// The item id that the plan mints unless the caller chooses another.
pub const ITEM_ID: u128 = 234;

/// An id for a new collection, chosen at random among the 32-bit numbers.
pub fn fresh_collection_id() -> (id: u128)
    ensures
        id <= u32::MAX,
{
    let mut generator = thread_generator();
    let drawn: u32 = next_random(&mut generator);
    collection_id_from(drawn)
}

/// The collection id that a drawn number stands for: the number itself, as
/// wide as the ids that calls and storage keys carry.
pub fn collection_id_from(drawn: u32) -> (id: u128)
    ensures
        id == drawn,
{
    drawn as u128
}

/// The address of the account with the given id, as the runtime's address type spells it.
pub open spec fn address_value(account: Seq<u8>) -> Value {
    Value::Variant("Id"@, Fields::Unnamed(seq![Value::Bytes(account)]))
}

/// The address of the account with the given id: the variant `Id` around the id's bytes.
pub fn account_address(account: &Vec<u8>) -> (address: DynamicValue)
    ensures
        address@ == address_value(account@),
{
    let mut fields: Vec<DynamicValue> = Vec::new();
    fields.push(DynamicValue::from_bytes(slice_to_vec(account.as_slice())));
    let payload = Composite::unnamed(fields);
    assert(payload@->Unnamed_0 =~= seq![Value::Bytes(account@)]);
    DynamicValue::variant("Id", payload)
}

/// The account id of a signer: the 32 bytes of its public key.
pub fn signer_account(signer: &subxt_signer::sr25519::Keypair) -> (account: Vec<u8>)
    ensures
        account@ == public_key_of(*signer),
        account@.len() == 32,
{
    public_key_bytes(signer)
}

/// How far the plan has come.
#[derive(Debug, Clone, Copy, PartialEq, Eq, Structural)]
pub enum Stage {
    /// Nothing has been submitted.
    Start,
    /// The call that creates the collection is under way.
    Creating,
    /// The call that mints the item is under way.
    Minting,
    /// The item is being read back from storage.
    Querying,
    /// The plan is complete.
    Done,
}

/// What the caller reports to the plan.
#[derive(Debug, PartialEq, Eq)]
pub enum PlanEvent {
    /// The session is open.
    Connected,
    /// The call that was submitted last reached this terminal outcome.
    Settled(Outcome),
    /// This was fetched for the key that was asked for last; `None` where the key is absent.
    Fetched(Option<Vec<u8>>),
}

/// What the plan asks the caller to do next.
#[derive(Debug, PartialEq, Eq)]
pub enum PlanAction {
    /// Sign and submit this call, wait for its outcome, and report it.
    Submit(EncodedCall),
    /// Fetch the value under this key, and report it.
    Fetch(StorageKey),
    /// The plan is complete: this is what was read. It is the item as storage
    /// holds it, or nothing where storage holds none, or the reason why what
    /// storage holds does not decode.
    Report(Result<Option<DynamicValue>, Error>),
}

/// Why the plan cannot go on.
#[derive(Debug, PartialEq, Eq)]
pub enum PlanError {
    /// The engine could not build or decode what the step needs.
    Engine(Error),
    /// The call that was submitted last did not succeed; this is how it ended.
    Unsuccessful(Outcome),
    /// The event is not one that the current stage waits for.
    Unexpected,
}

/// The view of a [`PlanEvent`].
pub enum PlanEventView {
    Connected,
    Settled(OutcomeView),
    Fetched(Option<Seq<u8>>),
}

/// The view of a [`PlanAction`].
pub enum PlanActionView {
    Submit(Seq<u8>),
    Fetch(Seq<u8>),
    Report(Result<Option<Value>, Error>),
}

/// The view of a [`PlanError`].
pub enum PlanErrorView {
    Engine(Error),
    Unsuccessful(OutcomeView),
    Unexpected,
}

impl View for PlanEvent {
    type V = PlanEventView;

    open spec fn view(&self) -> PlanEventView {
        match self {
            PlanEvent::Connected => PlanEventView::Connected,
            PlanEvent::Settled(outcome) => PlanEventView::Settled(outcome@),
            PlanEvent::Fetched(Some(bytes)) => PlanEventView::Fetched(Some(bytes@)),
            PlanEvent::Fetched(None) => PlanEventView::Fetched(None),
        }
    }
}

impl View for PlanAction {
    type V = PlanActionView;

    open spec fn view(&self) -> PlanActionView {
        match self {
            PlanAction::Submit(call) => PlanActionView::Submit(call@),
            PlanAction::Fetch(key) => PlanActionView::Fetch(key@),
            PlanAction::Report(read) => PlanActionView::Report(storage_value_view(*read)),
        }
    }
}

impl View for PlanError {
    type V = PlanErrorView;

    open spec fn view(&self) -> PlanErrorView {
        match self {
            PlanError::Engine(e) => PlanErrorView::Engine(*e),
            PlanError::Unsuccessful(outcome) => PlanErrorView::Unsuccessful(outcome@),
            PlanError::Unexpected => PlanErrorView::Unexpected,
        }
    }
}

/// The plan: which collection and item, for which owner, and how far it has come.
#[derive(Debug, PartialEq, Eq)]
pub struct MintPlan {
    collection: u128,
    item: u128,
    owner: Vec<u8>,
    stage: Stage,
}

/// The view of a [`MintPlan`].
pub struct PlanView {
    pub collection: nat,
    pub item: nat,
    pub owner: Seq<u8>,
    pub stage: Stage,
}

impl View for MintPlan {
    type V = PlanView;

    closed spec fn view(&self) -> PlanView {
        PlanView {
            collection: self.collection as nat,
            item: self.item as nat,
            owner: self.owner@,
            stage: self.stage,
        }
    }
}

/// The arguments of the call that creates the collection.
pub open spec fn create_args(plan: PlanView) -> Seq<Value> {
    seq![Value::UInt(plan.collection), address_value(plan.owner)]
}

/// The arguments of the call that mints the item.
pub open spec fn mint_args(plan: PlanView) -> Seq<Value> {
    seq![Value::UInt(plan.collection), Value::UInt(plan.item), address_value(plan.owner)]
}

/// The key arguments under which storage keeps the item.
pub open spec fn asset_args(plan: PlanView) -> Seq<Value> {
    seq![Value::UInt(plan.collection), Value::UInt(plan.item)]
}

/// The stage that follows and what to do next, for each stage and each event
/// that the stage waits for. Once connected, the plan submits `Uniques.create`.
/// Once that has succeeded, it submits `Uniques.mint`. Once that has
/// succeeded, it fetches `Uniques.Asset`. Whatever was fetched completes the
/// plan: the report is the decoded item, or nothing where the key is absent, or
/// the error of decoding where the bytes are no item. A call that ends in
/// anything but success ends the plan, and so does a name that the metadata
/// lacks, or an event that the stage does not wait for.
pub open spec fn spec_step(
    modules: Seq<Module>,
    types: Seq<TypeDef>,
    table: Seq<Slot>,
    plan: PlanView,
    event: PlanEventView,
) -> Result<(Stage, PlanActionView), PlanErrorView> {
    match (plan.stage, event) {
        (Stage::Start, PlanEventView::Connected) => match spec_build_call(
            modules,
            table,
            "Uniques"@,
            "create"@,
            create_args(plan),
        ) {
            Ok(call) => Ok((Stage::Creating, PlanActionView::Submit(call))),
            Err(e) => Err(PlanErrorView::Engine(e)),
        },
        (Stage::Creating, PlanEventView::Settled(OutcomeView::Success(_))) => match spec_build_call(
            modules,
            table,
            "Uniques"@,
            "mint"@,
            mint_args(plan),
        ) {
            Ok(call) => Ok((Stage::Minting, PlanActionView::Submit(call))),
            Err(e) => Err(PlanErrorView::Engine(e)),
        },
        (Stage::Creating, PlanEventView::Settled(outcome)) => Err(
            PlanErrorView::Unsuccessful(outcome),
        ),
        (Stage::Minting, PlanEventView::Settled(OutcomeView::Success(_))) => match spec_storage_key(
            modules,
            types,
            table,
            "Uniques"@,
            "Asset"@,
            asset_args(plan),
        ) {
            Ok(key) => Ok((Stage::Querying, PlanActionView::Fetch(key))),
            Err(e) => Err(PlanErrorView::Engine(e)),
        },
        (Stage::Minting, PlanEventView::Settled(outcome)) => Err(
            PlanErrorView::Unsuccessful(outcome),
        ),
        (Stage::Querying, PlanEventView::Fetched(fetched)) => match spec_storage_value(
            modules,
            table,
            "Uniques"@,
            "Asset"@,
            None,
        ) {
            Ok(_) => Ok(
                (
                    Stage::Done,
                    PlanActionView::Report(
                        spec_storage_value(modules, table, "Uniques"@, "Asset"@, fetched),
                    ),
                ),
            ),
            Err(e) => Err(PlanErrorView::Engine(e)),
        },
        _ => Err(PlanErrorView::Unexpected),
    }
}

/// Once the item is being read back, whatever was fetched completes the plan,
/// as long as the metadata has the module and the item: the plan is done,
/// and reports what decoding gave, be it a value, an absence or an error.
pub proof fn lemma_every_read_completes(
    modules: Seq<Module>,
    types: Seq<TypeDef>,
    table: Seq<Slot>,
    plan: PlanView,
    fetched: Option<Seq<u8>>,
)
    requires
        plan.stage == Stage::Querying,
        spec_storage_value(modules, table, "Uniques"@, "Asset"@, None) is Ok,
    ensures
        spec_step(modules, types, table, plan, PlanEventView::Fetched(fetched)) == Ok::<
            (Stage, PlanActionView),
            PlanErrorView,
        >(
            (
                Stage::Done,
                PlanActionView::Report(
                    spec_storage_value(modules, table, "Uniques"@, "Asset"@, fetched),
                ),
            ),
        ),
        spec_storage_value(modules, table, "Uniques"@, "Asset"@, fetched) is Err ==> fetched
            is Some,
{
}

impl MintPlan {
    /// A plan for the given collection, item and owner, with nothing submitted yet.
    pub fn new(collection: u128, item: u128, owner: Vec<u8>) -> (plan: MintPlan)
        ensures
            plan@ == (PlanView {
                collection: collection as nat,
                item: item as nat,
                owner: owner@,
                stage: Stage::Start,
            }),
    {
        MintPlan { collection, item, owner, stage: Stage::Start }
    }

    /// A plan for a collection with a fresh random id and the item
    /// [`ITEM_ID`], both owned by the account of the signer.
    pub fn for_signer(signer: &subxt_signer::sr25519::Keypair) -> (plan: MintPlan)
        ensures
            plan@.stage == Stage::Start,
            plan@.item == ITEM_ID,
            plan@.collection <= u32::MAX,
            plan@.owner == public_key_of(*signer),
            plan@.owner.len() == 32,
    {
        MintPlan::new(fresh_collection_id(), ITEM_ID, signer_account(signer))
    }

    /// How far the plan has come.
    pub fn stage(&self) -> (stage: Stage)
        ensures
            stage == self@.stage,
    {
        self.stage
    }

    /// The id of the collection.
    pub fn collection(&self) -> (id: u128)
        ensures
            id == self@.collection,
    {
        self.collection
    }

    /// The id of the item.
    pub fn item(&self) -> (id: u128)
        ensures
            id == self@.item,
    {
        self.item
    }

    /// The account id of the owner.
    pub fn owner(&self) -> (account: &Vec<u8>)
        ensures
            account@ == self@.owner,
    {
        &self.owner
    }

    /// The arguments of the call that creates the collection.
    fn create_arguments(&self) -> (args: Vec<DynamicValue>)
        ensures
            values_of(args@) == create_args(self@),
    {
        let mut args: Vec<DynamicValue> = Vec::new();
        args.push(DynamicValue::u128(self.collection));
        args.push(account_address(&self.owner));
        assert(values_of(args@) =~= create_args(self@));
        args
    }

    /// The arguments of the call that mints the item.
    fn mint_arguments(&self) -> (args: Vec<DynamicValue>)
        ensures
            values_of(args@) == mint_args(self@),
    {
        let mut args: Vec<DynamicValue> = Vec::new();
        args.push(DynamicValue::u128(self.collection));
        args.push(DynamicValue::u128(self.item));
        args.push(account_address(&self.owner));
        assert(values_of(args@) =~= mint_args(self@));
        args
    }

    /// The key arguments under which storage keeps the item.
    fn asset_arguments(&self) -> (args: Vec<DynamicValue>)
        ensures
            values_of(args@) == asset_args(self@),
    {
        let mut args: Vec<DynamicValue> = Vec::new();
        args.push(DynamicValue::u128(self.collection));
        args.push(DynamicValue::u128(self.item));
        assert(values_of(args@) =~= asset_args(self@));
        args
    }

    /// Takes the plan one step on: decides, from the stage and the event, what
    /// the caller does next. An error leaves the plan where it was.
    pub fn step(&mut self, session: &Session, event: PlanEvent) -> (out: Result<
        PlanAction,
        PlanError,
    >)
        ensures
            match out {
                Ok(action) => spec_step(
                    session.metadata().modules@,
                    session.metadata().types@,
                    session.table(),
                    old(self)@,
                    event@,
                ) == Ok::<(Stage, PlanActionView), PlanErrorView>((final(self)@.stage, action@))
                    && final(self)@ == (PlanView { stage: final(self)@.stage, ..old(self)@ }),
                Err(e) => spec_step(
                    session.metadata().modules@,
                    session.metadata().types@,
                    session.table(),
                    old(self)@,
                    event@,
                ) == Err::<(Stage, PlanActionView), PlanErrorView>(e@) && final(self)@ == old(self)@,
            },
    {
        match (self.stage, event) {
            (Stage::Start, PlanEvent::Connected) => {
                let args = self.create_arguments();
                match session.build_call("Uniques", "create", &args) {
                    Ok(call) => {
                        self.stage = Stage::Creating;
                        Ok(PlanAction::Submit(call))
                    },
                    Err(e) => Err(PlanError::Engine(e)),
                }
            },
            (Stage::Creating, PlanEvent::Settled(Outcome::Success(_))) => {
                let args = self.mint_arguments();
                match session.build_call("Uniques", "mint", &args) {
                    Ok(call) => {
                        self.stage = Stage::Minting;
                        Ok(PlanAction::Submit(call))
                    },
                    Err(e) => Err(PlanError::Engine(e)),
                }
            },
            (Stage::Creating, PlanEvent::Settled(outcome)) => Err(PlanError::Unsuccessful(outcome)),
            (Stage::Minting, PlanEvent::Settled(Outcome::Success(_))) => {
                let args = self.asset_arguments();
                match session.build_storage_key("Uniques", "Asset", &args) {
                    Ok(key) => {
                        self.stage = Stage::Querying;
                        Ok(PlanAction::Fetch(key))
                    },
                    Err(e) => Err(PlanError::Engine(e)),
                }
            },
            (Stage::Minting, PlanEvent::Settled(outcome)) => Err(PlanError::Unsuccessful(outcome)),
            (Stage::Querying, PlanEvent::Fetched(fetched)) => {
                match session.decode_storage_value("Uniques", "Asset", None) {
                    Ok(_) => {
                        let read = session.decode_storage_value(
                            "Uniques",
                            "Asset",
                            fetched.as_ref(),
                        );
                        self.stage = Stage::Done;
                        Ok(PlanAction::Report(read))
                    },
                    Err(e) => Err(PlanError::Engine(e)),
                }
            },
            _ => Err(PlanError::Unexpected),
        }
    }
}

} // verus!
