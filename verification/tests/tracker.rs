use chain_client::error::Error;
use chain_client::metadata::{FieldDef, Metadata, TypeDef, VariantDef};
use chain_client::session::Session;
use chain_client::tracker::{
    notifications_for, submit_and_track, ErrorDetail, Event, LifecycleState, Outcome,
    StatusNotification, TransactionHandle, TransportStatus, WaitEvent,
};
use chain_client::value::{Composite, DynamicValue};

const U8: u32 = 0;
const CODE: u32 = 1;
const DISPATCH_ERROR: u32 = 2;

fn metadata(dispatch_error: Option<u32>) -> Metadata {
    Metadata {
        modules: vec![],
        types: vec![
            TypeDef::UInt { bits: 8 },
            TypeDef::Array { element: U8, len: 4 },
            TypeDef::Variant {
                variants: vec![
                    VariantDef { name: "Other".to_string(), index: 0, fields: vec![] },
                    VariantDef { name: "BadOrigin".to_string(), index: 2, fields: vec![] },
                    VariantDef {
                        name: "Module".to_string(),
                        index: 3,
                        fields: vec![
                            FieldDef { name: Some("index".to_string()), ty: U8 },
                            FieldDef { name: Some("error".to_string()), ty: CODE },
                        ],
                    },
                ],
            },
        ],
        dispatch_error,
    }
}

fn session() -> Session {
    Session::open(metadata(Some(DISPATCH_ERROR)))
}

fn event(module: &str, name: &str, data: Vec<u8>) -> Event {
    Event { module: module.to_string(), name: name.to_string(), data }
}

fn success_events() -> Vec<Event> {
    vec![
        event("Balances", "Withdraw", vec![1, 2, 3]),
        event("Uniques", "Created", vec![4, 5]),
        event("System", "ExtrinsicSuccess", vec![6]),
    ]
}

fn failure_events() -> Vec<Event> {
    vec![
        event("Balances", "Withdraw", vec![1, 2, 3]),
        event("System", "ExtrinsicFailed", vec![3, 51, 1, 0, 0, 0, 9, 9]),
        event("System", "ExtrinsicFailed", vec![2]),
    ]
}

fn included(events: Vec<Event>) -> StatusNotification {
    StatusNotification::IncludedInBlock { events }
}

fn handle() -> TransactionHandle {
    submit_and_track(b"signed extrinsic")
}

#[test]
fn a_new_handle_is_submitted_and_named_by_the_hash_of_the_transaction() {
    let h = handle();
    assert_eq!(h.state(), LifecycleState::Submitted);
    assert_eq!(h.hash(), &sp_crypto_hashing::blake2_256(b"signed extrinsic").to_vec());
    assert_eq!(h.hash().len(), 32);
}

#[test]
fn the_full_lifecycle_without_dispatch_error_is_a_success() {
    let notifications = vec![
        StatusNotification::Submitted,
        StatusNotification::PoolAccepted,
        included(success_events()),
        StatusNotification::Finalized,
    ];
    assert_eq!(session().await_final(handle(), notifications), Ok(Outcome::Success(success_events())));
}

#[test]
fn a_dispatch_error_event_makes_the_outcome_a_dispatch_failure() {
    let notifications = vec![
        StatusNotification::Submitted,
        StatusNotification::PoolAccepted,
        included(failure_events()),
        StatusNotification::Finalized,
    ];
    let detail = ErrorDetail {
        data: vec![3, 51, 1, 0, 0, 0, 9, 9],
        decoded: Ok(DynamicValue::variant(
            "Module",
            Composite::named(vec![
                ("index".to_string(), DynamicValue::u128(51)),
                ("error".to_string(), DynamicValue::from_bytes(vec![1, 0, 0, 0])),
            ]),
        )),
    };
    assert_eq!(session().await_final(handle(), notifications), Ok(Outcome::DispatchFailed(detail)));
}

#[test]
fn a_dispatch_error_that_cannot_be_decoded_keeps_its_bytes_and_the_reason() {
    let s = session();
    let mut h = handle();
    let events = vec![event("System", "ExtrinsicFailed", vec![7, 7])];
    assert_eq!(s.observe(&mut h, included(events)), Ok(LifecycleState::IncludedInBlock));
    assert_eq!(s.observe(&mut h, StatusNotification::Finalized), Ok(LifecycleState::Finalized));
    assert_eq!(
        h.into_outcome(),
        Ok(Outcome::DispatchFailed(ErrorDetail {
            data: vec![7, 7],
            decoded: Err(Error::ValueShapeMismatch)
        }))
    );

    let s = Session::open(metadata(None));
    let notifications = vec![included(failure_events()), StatusNotification::Finalized];
    assert_eq!(
        s.await_final(handle(), notifications),
        Ok(Outcome::DispatchFailed(ErrorDetail {
            data: vec![3, 51, 1, 0, 0, 0, 9, 9],
            decoded: Err(Error::UnknownType)
        }))
    );
}

#[test]
fn event_names_are_matched_exactly() {
    let events = vec![
        event("system", "ExtrinsicFailed", vec![2]),
        event("System", "extrinsicFailed", vec![2]),
        event("Other", "ExtrinsicFailed", vec![2]),
    ];
    let expected = vec![
        event("system", "ExtrinsicFailed", vec![2]),
        event("System", "extrinsicFailed", vec![2]),
        event("Other", "ExtrinsicFailed", vec![2]),
    ];
    let notifications = vec![included(events), StatusNotification::Finalized];
    assert_eq!(session().await_final(handle(), notifications), Ok(Outcome::Success(expected)));
}

#[test]
fn a_rejection_by_the_pool_is_terminal() {
    let notifications = vec![
        StatusNotification::Submitted,
        StatusNotification::Invalid { reason: "bad nonce".to_string() },
        StatusNotification::Finalized,
    ];
    assert_eq!(
        session().await_final(handle(), notifications),
        Ok(Outcome::Invalid("bad nonce".to_string()))
    );
}

#[test]
fn an_eviction_from_the_pool_is_terminal() {
    let notifications = vec![StatusNotification::PoolAccepted, StatusNotification::DroppedOrUsurped];
    assert_eq!(session().await_final(handle(), notifications), Ok(Outcome::DroppedOrUsurped));
    let notifications = vec![included(success_events()), StatusNotification::DroppedOrUsurped];
    assert_eq!(session().await_final(handle(), notifications), Ok(Outcome::DroppedOrUsurped));
}

#[test]
fn a_notification_that_lies_before_the_current_state_is_out_of_order() {
    let s = session();
    let mut h = handle();
    assert_eq!(s.observe(&mut h, StatusNotification::PoolAccepted), Ok(LifecycleState::PoolAccepted));
    assert_eq!(s.observe(&mut h, StatusNotification::Submitted), Err(Error::OutOfOrderStatus));
    assert_eq!(h.state(), LifecycleState::PoolAccepted);
    assert_eq!(s.observe(&mut h, included(vec![])), Ok(LifecycleState::IncludedInBlock));
    assert_eq!(s.observe(&mut h, StatusNotification::PoolAccepted), Err(Error::OutOfOrderStatus));
    assert_eq!(h.state(), LifecycleState::IncludedInBlock);
}

#[test]
fn nothing_may_follow_a_terminal_state() {
    let s = session();
    for last in [
        StatusNotification::Finalized,
        StatusNotification::Invalid { reason: String::new() },
        StatusNotification::DroppedOrUsurped,
    ] {
        let mut h = handle();
        let state = s.observe(&mut h, last).unwrap();
        assert!(state.is_terminal());
        assert_eq!(s.observe(&mut h, StatusNotification::Finalized), Err(Error::OutOfOrderStatus));
        assert_eq!(s.observe(&mut h, StatusNotification::DroppedOrUsurped), Err(Error::OutOfOrderStatus));
        assert_eq!(s.observe(&mut h, StatusNotification::Submitted), Err(Error::OutOfOrderStatus));
        assert_eq!(h.state(), state);
    }
}

#[test]
fn a_notification_of_the_current_state_changes_nothing() {
    let s = session();
    let mut h = handle();
    assert_eq!(s.observe(&mut h, StatusNotification::Submitted), Ok(LifecycleState::Submitted));
    assert_eq!(s.observe(&mut h, StatusNotification::PoolAccepted), Ok(LifecycleState::PoolAccepted));
    assert_eq!(s.observe(&mut h, StatusNotification::PoolAccepted), Ok(LifecycleState::PoolAccepted));
}

#[test]
fn states_may_be_skipped_forward() {
    let notifications = vec![StatusNotification::Finalized];
    assert_eq!(session().await_final(handle(), notifications), Ok(Outcome::Success(vec![])));
}

#[test]
fn an_out_of_order_notification_ends_the_wait_with_the_handle_as_it_was() {
    let notifications = vec![
        StatusNotification::PoolAccepted,
        StatusNotification::Submitted,
        StatusNotification::Finalized,
    ];
    let (e, h) = session().await_final(handle(), notifications).err().unwrap();
    assert_eq!(e, Error::OutOfOrderStatus);
    assert_eq!(h.state(), LifecycleState::PoolAccepted);
}

#[test]
fn a_wait_that_ends_early_is_a_timeout_and_can_be_taken_up_again() {
    let s = session();
    let (e, h) = s
        .await_final(handle(), vec![StatusNotification::PoolAccepted, included(success_events())])
        .err()
        .unwrap();
    assert_eq!(e, Error::FinalityTimeout);
    assert_eq!(h.state(), LifecycleState::IncludedInBlock);
    let (e, h) = s.await_final(h, vec![]).err().unwrap();
    assert_eq!(e, Error::FinalityTimeout);
    assert_eq!(h.state(), LifecycleState::IncludedInBlock);
    assert_eq!(s.await_final(h, vec![StatusNotification::Finalized]), Ok(Outcome::Success(success_events())));
}

#[test]
fn a_handle_gives_its_outcome_only_once_it_is_terminal() {
    let s = session();
    let mut h = handle();
    s.observe(&mut h, StatusNotification::PoolAccepted).unwrap();
    let mut h = h.into_outcome().err().unwrap();
    assert_eq!(h.state(), LifecycleState::PoolAccepted);
    s.observe(&mut h, StatusNotification::Finalized).unwrap();
    assert_eq!(h.into_outcome(), Ok(Outcome::Success(vec![])));
}

#[test]
fn waiting_step_by_step() {
    let s = session();
    let mut h = handle();
    assert_eq!(s.wait_step(&mut h, WaitEvent::Status(StatusNotification::PoolAccepted)), Ok(false));
    assert_eq!(s.wait_step(&mut h, WaitEvent::TimedOut), Err(Error::FinalityTimeout));
    assert_eq!(h.state(), LifecycleState::PoolAccepted);
    assert_eq!(
        s.wait_step(&mut h, WaitEvent::Status(StatusNotification::Submitted)),
        Err(Error::OutOfOrderStatus)
    );
    assert_eq!(s.wait_step(&mut h, WaitEvent::Status(included(success_events()))), Ok(false));
    assert_eq!(s.wait_step(&mut h, WaitEvent::Status(StatusNotification::Finalized)), Ok(true));
    assert_eq!(s.wait_step(&mut h, WaitEvent::TimedOut), Err(Error::FinalityTimeout));
    assert_eq!(h.state(), LifecycleState::Finalized);
}

#[test]
fn the_observed_states_never_decrease() {
    let s = session();
    let mut h = handle();
    let notifications = vec![
        StatusNotification::Submitted,
        StatusNotification::PoolAccepted,
        StatusNotification::Submitted,
        included(vec![]),
        StatusNotification::PoolAccepted,
        included(vec![]),
        StatusNotification::Finalized,
        StatusNotification::Invalid { reason: String::new() },
    ];
    let mut last = h.state().rank();
    for n in notifications {
        let _ = s.observe(&mut h, n);
        assert!(h.state().rank() >= last);
        last = h.state().rank();
    }
    assert_eq!(h.state(), LifecycleState::Finalized);
}

#[test]
fn ranks_follow_the_lifecycle_order() {
    assert_eq!(LifecycleState::Submitted.rank(), 0);
    assert_eq!(LifecycleState::PoolAccepted.rank(), 1);
    assert_eq!(LifecycleState::IncludedInBlock.rank(), 2);
    assert_eq!(LifecycleState::Finalized.rank(), 3);
    assert_eq!(LifecycleState::Invalid.rank(), 4);
    assert_eq!(LifecycleState::DroppedOrUsurped.rank(), 4);
    assert!(!LifecycleState::IncludedInBlock.is_terminal());
    assert!(LifecycleState::Finalized.is_terminal());
}

fn in_final_block(events: Vec<Event>) -> TransportStatus {
    TransportStatus::InFinalizedBlock { events }
}

#[test]
fn what_the_transport_says_is_relayed_until_the_block_is_final() {
    let s = session();
    let mut h = handle();
    assert_eq!(s.relay(&mut h, TransportStatus::Validated), Ok(false));
    assert_eq!(h.state(), LifecycleState::Submitted);
    assert_eq!(s.relay(&mut h, TransportStatus::Broadcasted), Ok(false));
    assert_eq!(h.state(), LifecycleState::PoolAccepted);
    assert_eq!(s.relay(&mut h, TransportStatus::InBestBlock), Ok(false));
    assert_eq!(h.state(), LifecycleState::PoolAccepted);
    assert_eq!(s.relay(&mut h, in_final_block(success_events())), Ok(true));
    assert_eq!(h.state(), LifecycleState::Finalized);
    assert_eq!(h.into_outcome(), Ok(Outcome::Success(success_events())));
}

#[test]
fn a_block_that_is_taken_back_and_statuses_that_come_again_keep_the_wait_going() {
    let s = session();
    let mut h = handle();
    for status in [
        TransportStatus::Validated,
        TransportStatus::Broadcasted,
        TransportStatus::InBestBlock,
        TransportStatus::NoLongerInBestBlock,
        TransportStatus::Validated,
        TransportStatus::Broadcasted,
        TransportStatus::Broadcasted,
        TransportStatus::InBestBlock,
    ] {
        assert_eq!(s.relay(&mut h, status), Ok(false));
    }
    assert_eq!(h.state(), LifecycleState::PoolAccepted);
    assert_eq!(s.relay(&mut h, in_final_block(failure_events())), Ok(true));
    assert!(matches!(h.into_outcome(), Ok(Outcome::DispatchFailed(_))));
}

#[test]
fn the_transports_failures_end_the_wait() {
    let s = session();
    let mut h = handle();
    assert_eq!(s.relay(&mut h, TransportStatus::Invalid { message: "stale".to_string() }), Ok(true));
    assert_eq!(h.into_outcome(), Ok(Outcome::Invalid("stale".to_string())));
    let mut h = handle();
    assert_eq!(s.relay(&mut h, TransportStatus::Dropped { message: "full".to_string() }), Ok(true));
    assert_eq!(h.into_outcome(), Ok(Outcome::DroppedOrUsurped));
    let mut h = handle();
    s.relay(&mut h, TransportStatus::Broadcasted).unwrap();
    assert_eq!(s.relay(&mut h, TransportStatus::Error { message: "node".to_string() }), Ok(true));
    assert_eq!(h.into_outcome(), Ok(Outcome::DroppedOrUsurped));
}

#[test]
fn what_the_transport_says_after_the_end_is_out_of_order() {
    let s = session();
    let mut h = handle();
    assert_eq!(s.relay(&mut h, in_final_block(vec![])), Ok(true));
    assert_eq!(s.relay(&mut h, in_final_block(vec![])), Err(Error::OutOfOrderStatus));
    assert_eq!(
        s.relay(&mut h, TransportStatus::Dropped { message: String::new() }),
        Err(Error::OutOfOrderStatus)
    );
    assert_eq!(s.relay(&mut h, TransportStatus::Validated), Ok(true));
    assert_eq!(h.state(), LifecycleState::Finalized);
}

#[test]
fn each_status_of_the_transport_stands_for_its_notifications() {
    let submitted = LifecycleState::Submitted;
    let accepted = LifecycleState::PoolAccepted;
    let included = LifecycleState::IncludedInBlock;
    assert_eq!(notifications_for(submitted, TransportStatus::Validated), vec![StatusNotification::Submitted]);
    assert_eq!(notifications_for(accepted, TransportStatus::Validated), vec![]);
    assert_eq!(
        notifications_for(submitted, TransportStatus::Broadcasted),
        vec![StatusNotification::PoolAccepted]
    );
    assert_eq!(
        notifications_for(accepted, TransportStatus::Broadcasted),
        vec![StatusNotification::PoolAccepted]
    );
    assert_eq!(notifications_for(included, TransportStatus::Broadcasted), vec![]);
    assert_eq!(notifications_for(submitted, TransportStatus::InBestBlock), vec![]);
    assert_eq!(notifications_for(included, TransportStatus::NoLongerInBestBlock), vec![]);
    assert_eq!(
        notifications_for(accepted, in_final_block(success_events())),
        vec![included_in(success_events()), StatusNotification::Finalized]
    );
    assert_eq!(
        notifications_for(submitted, TransportStatus::Invalid { message: "m".to_string() }),
        vec![StatusNotification::Invalid { reason: "m".to_string() }]
    );
    assert_eq!(
        notifications_for(submitted, TransportStatus::Error { message: "m".to_string() }),
        vec![StatusNotification::DroppedOrUsurped]
    );
    assert_eq!(
        notifications_for(included, TransportStatus::Dropped { message: "m".to_string() }),
        vec![StatusNotification::DroppedOrUsurped]
    );
}

fn included_in(events: Vec<Event>) -> StatusNotification {
    StatusNotification::IncludedInBlock { events }
}
