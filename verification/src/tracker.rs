//! The transaction lifecycle tracker: a state machine that follows one
//! submitted transaction through the status notifications that the transport
//! delivers, in order, until a terminal outcome is reached.

use crate::decode::{decode_value, spec_decode, MAX_DEPTH};
use crate::error::Error;
use crate::hashing::{blake2_256_of, transaction_hash};
use crate::names::{first_index, lemma_first_index_is, lemma_first_index_none};
use crate::registry::{Registry, Slot};
use crate::value::{DynamicValue, Value};
use vstd::prelude::*;
use vstd::slice::slice_to_vec;

verus! {

/// Where a transaction stands.
#[derive(Debug, Clone, Copy, PartialEq, Eq, Structural)]
pub enum LifecycleState {
    /// Handed to the transport.
    Submitted,
    /// Accepted by the transaction pool.
    PoolAccepted,
    /// Part of a block.
    IncludedInBlock,
    /// Part of a block that the chain will not revert.
    Finalized,
    /// Rejected by the pool.
    Invalid,
    /// Evicted from the pool before it was included.
    DroppedOrUsurped,
}

impl LifecycleState {
    /// The position of the state in the lifecycle order. The two failure states
    /// stand above all the others: each can be reached from every state that
    /// is not terminal.
    pub open spec fn spec_rank(self) -> u8 {
        match self {
            LifecycleState::Submitted => 0,
            LifecycleState::PoolAccepted => 1,
            LifecycleState::IncludedInBlock => 2,
            LifecycleState::Finalized => 3,
            LifecycleState::Invalid => 4,
            LifecycleState::DroppedOrUsurped => 4,
        }
    }

    /// Whether nothing can follow the state.
    pub open spec fn spec_is_terminal(self) -> bool {
        self == LifecycleState::Finalized || self == LifecycleState::Invalid || self
            == LifecycleState::DroppedOrUsurped
    }

    /// The position of the state in the lifecycle order.
    #[verifier::when_used_as_spec(spec_rank)]
    pub fn rank(self) -> (rank: u8)
        ensures
            rank == self.spec_rank(),
    {
        match self {
            LifecycleState::Submitted => 0,
            LifecycleState::PoolAccepted => 1,
            LifecycleState::IncludedInBlock => 2,
            LifecycleState::Finalized => 3,
            LifecycleState::Invalid => 4,
            LifecycleState::DroppedOrUsurped => 4,
        }
    }

    /// Whether nothing can follow the state.
    #[verifier::when_used_as_spec(spec_is_terminal)]
    pub fn is_terminal(self) -> (terminal: bool)
        ensures
            terminal == self.spec_is_terminal(),
    {
        match self {
            LifecycleState::Finalized => true,
            LifecycleState::Invalid => true,
            LifecycleState::DroppedOrUsurped => true,
            _ => false,
        }
    }
}

/// An event that a block emitted for the transaction.
#[derive(Debug, PartialEq, Eq)]
pub struct Event {
    /// The name of the module that emitted the event.
    pub module: String,
    /// The name of the event.
    pub name: String,
    /// The encoded fields of the event.
    pub data: Vec<u8>,
}

/// The view of an [`Event`].
pub struct EventView {
    pub module: Seq<char>,
    pub name: Seq<char>,
    pub data: Seq<u8>,
}

impl View for Event {
    type V = EventView;

    open spec fn view(&self) -> EventView {
        EventView { module: self.module@, name: self.name@, data: self.data@ }
    }
}

/// The views of a list of events, in order.
pub open spec fn events_view(events: Seq<Event>) -> Seq<EventView> {
    Seq::new(events.len(), |i: int| events[i]@)
}

/// Why the runtime rejected the effect of a transaction that reached the chain.
#[derive(Debug, PartialEq, Eq)]
pub struct ErrorDetail {
    /// The encoded fields of the event that reported the failure.
    pub data: Vec<u8>,
    /// The dispatch error that the fields start with, or why it could not be decoded.
    pub decoded: Result<DynamicValue, Error>,
}

/// The view of an [`ErrorDetail`].
pub struct DetailView {
    pub data: Seq<u8>,
    pub decoded: Result<Value, Error>,
}

impl View for ErrorDetail {
    type V = DetailView;

    open spec fn view(&self) -> DetailView {
        DetailView {
            data: self.data@,
            decoded: match self.decoded {
                Ok(value) => Ok(value@),
                Err(e) => Err(e),
            },
        }
    }
}

/// What the transport reports of a submitted transaction.
#[derive(Debug, PartialEq, Eq)]
pub enum StatusNotification {
    /// The transaction was handed over.
    Submitted,
    /// The pool accepted the transaction.
    PoolAccepted,
    /// A block holds the transaction; these are the events it emitted for it.
    IncludedInBlock { events: Vec<Event> },
    /// The block that holds the transaction is final.
    Finalized,
    /// The pool rejected the transaction.
    Invalid { reason: String },
    /// The pool evicted the transaction, or replaced it by another.
    DroppedOrUsurped,
}

/// The view of a [`StatusNotification`].
pub enum StatusView {
    Submitted,
    PoolAccepted,
    IncludedInBlock(Seq<EventView>),
    Finalized,
    Invalid(Seq<char>),
    DroppedOrUsurped,
}

impl View for StatusNotification {
    type V = StatusView;

    open spec fn view(&self) -> StatusView {
        match self {
            StatusNotification::Submitted => StatusView::Submitted,
            StatusNotification::PoolAccepted => StatusView::PoolAccepted,
            StatusNotification::IncludedInBlock { events } => StatusView::IncludedInBlock(
                events_view(events@),
            ),
            StatusNotification::Finalized => StatusView::Finalized,
            StatusNotification::Invalid { reason } => StatusView::Invalid(reason@),
            StatusNotification::DroppedOrUsurped => StatusView::DroppedOrUsurped,
        }
    }
}

/// The views of a list of notifications, in order.
pub open spec fn statuses_view(notifications: Seq<StatusNotification>) -> Seq<StatusView> {
    Seq::new(notifications.len(), |i: int| notifications[i]@)
}

/// The state that a notification reports.
pub open spec fn reported_state(notification: StatusView) -> LifecycleState {
    match notification {
        StatusView::Submitted => LifecycleState::Submitted,
        StatusView::PoolAccepted => LifecycleState::PoolAccepted,
        StatusView::IncludedInBlock(_) => LifecycleState::IncludedInBlock,
        StatusView::Finalized => LifecycleState::Finalized,
        StatusView::Invalid(_) => LifecycleState::Invalid,
        StatusView::DroppedOrUsurped => LifecycleState::DroppedOrUsurped,
    }
}

/// The terminal value of a tracked transaction.
#[derive(Debug, PartialEq, Eq)]
pub enum Outcome {
    /// Finalized, and the runtime carried the call out; the events it emitted.
    Success(Vec<Event>),
    /// Finalized, but the runtime rejected the effect of the call.
    DispatchFailed(ErrorDetail),
    /// Rejected by the pool, for the given reason.
    Invalid(String),
    /// Evicted from the pool before it was included.
    DroppedOrUsurped,
}

/// The view of an [`Outcome`].
pub enum OutcomeView {
    Success(Seq<EventView>),
    DispatchFailed(DetailView),
    Invalid(Seq<char>),
    DroppedOrUsurped,
}

impl View for Outcome {
    type V = OutcomeView;

    open spec fn view(&self) -> OutcomeView {
        match self {
            Outcome::Success(events) => OutcomeView::Success(events_view(events@)),
            Outcome::DispatchFailed(detail) => OutcomeView::DispatchFailed(detail@),
            Outcome::Invalid(reason) => OutcomeView::Invalid(reason@),
            Outcome::DroppedOrUsurped => OutcomeView::DroppedOrUsurped,
        }
    }
}

/// One submission in flight.
#[derive(Debug, PartialEq, Eq)]
pub struct TransactionHandle {
    hash: Vec<u8>,
    state: LifecycleState,
    events: Vec<Event>,
    failure: Option<ErrorDetail>,
    reason: String,
}

/// The view of a [`TransactionHandle`].
pub struct HandleView {
    /// The identity of the transaction.
    pub hash: Seq<u8>,
    /// Where the transaction stands.
    pub state: LifecycleState,
    /// The events of the block that included the transaction.
    pub events: Seq<EventView>,
    /// The dispatch error among those events, if there is one.
    pub failure: Option<DetailView>,
    /// Why the pool rejected the transaction, if it did.
    pub reason: Seq<char>,
}

impl View for TransactionHandle {
    type V = HandleView;

    closed spec fn view(&self) -> HandleView {
        HandleView {
            hash: self.hash@,
            state: self.state,
            events: events_view(self.events@),
            failure: match self.failure {
                Some(detail) => Some(detail@),
                None => None,
            },
            reason: self.reason@,
        }
    }
}

/// Whether an event reports that the runtime rejected the effect of the call.
pub open spec fn is_dispatch_failure(event: EventView) -> bool {
    event.module == "System"@ && event.name == "ExtrinsicFailed"@
}

/// For each event, whether it reports a dispatch failure.
pub open spec fn failure_flags(events: Seq<EventView>) -> Seq<bool> {
    Seq::new(events.len(), |i: int| is_dispatch_failure(events[i]))
}

/// The dispatch error that the fields of a failure event start with, decoded
/// by the rule of the type that the metadata declares for dispatch errors.
pub open spec fn spec_decode_detail(
    table: Seq<Slot>,
    dispatch_error: Option<u32>,
    data: Seq<u8>,
) -> DetailView {
    DetailView {
        data,
        decoded: match dispatch_error {
            None => Err(Error::UnknownType),
            Some(id) => match spec_decode(table, id as nat, data, MAX_DEPTH as nat) {
                Ok((value, _)) => Ok(value),
                Err(e) => Err(e),
            },
        },
    }
}

/// The detail of the first event that reports a dispatch failure, if one does.
pub open spec fn spec_dispatch_failure(
    table: Seq<Slot>,
    dispatch_error: Option<u32>,
    events: Seq<EventView>,
) -> Option<DetailView> {
    match first_index(failure_flags(events), true) {
        None => None,
        Some(i) => Some(spec_decode_detail(table, dispatch_error, events[i].data)),
    }
}

/// The handle as it is after a notification. Nothing may follow a terminal
/// state, and nothing may report a state that lies before the current one:
/// either is `OutOfOrderStatus`. A notification of the current state changes
/// nothing. Inclusion in a block records the block's events and the dispatch
/// failure among them; a rejection records its reason.
pub open spec fn spec_observe(
    table: Seq<Slot>,
    dispatch_error: Option<u32>,
    handle: HandleView,
    notification: StatusView,
) -> Result<HandleView, Error> {
    if handle.state.spec_is_terminal() || reported_state(notification).spec_rank()
        < handle.state.spec_rank() {
        Err(Error::OutOfOrderStatus)
    } else {
        match notification {
            StatusView::IncludedInBlock(events) => Ok(
                HandleView {
                    state: LifecycleState::IncludedInBlock,
                    events,
                    failure: spec_dispatch_failure(table, dispatch_error, events),
                    ..handle
                },
            ),
            StatusView::Invalid(reason) => Ok(
                HandleView { state: LifecycleState::Invalid, reason, ..handle },
            ),
            _ => Ok(HandleView { state: reported_state(notification), ..handle }),
        }
    }
}

/// The terminal value of a handle that has reached a terminal state. Whether
/// the runtime carried the call out is a question of its own: a transaction
/// can be final and still have failed.
pub open spec fn spec_outcome(handle: HandleView) -> OutcomeView {
    match handle.state {
        LifecycleState::Invalid => OutcomeView::Invalid(handle.reason),
        LifecycleState::DroppedOrUsurped => OutcomeView::DroppedOrUsurped,
        _ => match handle.failure {
            Some(detail) => OutcomeView::DispatchFailed(detail),
            None => OutcomeView::Success(handle.events),
        },
    }
}

/// What waiting on a handle gives while the notifications `pending` arrive, in
/// order: the handle as soon as it is in a terminal state; or the error of the
/// first notification that is out of order; or `FinalityTimeout` where the
/// notifications end before a terminal state is reached. With an error comes
/// the handle as it was when the error arose, so that the caller can wait on
/// it again.
pub open spec fn spec_await(
    table: Seq<Slot>,
    dispatch_error: Option<u32>,
    handle: HandleView,
    pending: Seq<StatusView>,
) -> Result<HandleView, (Error, HandleView)>
    decreases pending.len(),
{
    if handle.state.spec_is_terminal() {
        Ok(handle)
    } else if pending.len() == 0 {
        Err((Error::FinalityTimeout, handle))
    } else {
        match spec_observe(table, dispatch_error, handle, pending[0]) {
            Err(e) => Err((e, handle)),
            Ok(next) => spec_await(table, dispatch_error, next, pending.drop_first()),
        }
    }
}

/// The states that a handle is seen in while the notifications arrive: the
/// state it starts in, and the state after each notification up to the first
/// that is refused.
pub open spec fn observed_states(
    table: Seq<Slot>,
    dispatch_error: Option<u32>,
    handle: HandleView,
    pending: Seq<StatusView>,
) -> Seq<LifecycleState>
    decreases pending.len(),
{
    if pending.len() == 0 {
        seq![handle.state]
    } else {
        match spec_observe(table, dispatch_error, handle, pending[0]) {
            Err(_) => seq![handle.state],
            Ok(next) => seq![handle.state] + observed_states(
                table,
                dispatch_error,
                next,
                pending.drop_first(),
            ),
        }
    }
}

/// No notification moves a handle backward.
pub proof fn lemma_observe_never_backward(
    table: Seq<Slot>,
    dispatch_error: Option<u32>,
    handle: HandleView,
    notification: StatusView,
)
    ensures
        spec_observe(table, dispatch_error, handle, notification) matches Ok(next)
            ==> handle.state.spec_rank() <= next.state.spec_rank() && next.state == reported_state(
            notification,
        ) && next.hash == handle.hash,
{
}

/// The states that a handle is seen in never decrease in the lifecycle order,
/// whatever notifications arrive.
pub proof fn lemma_observed_states_never_decrease(
    table: Seq<Slot>,
    dispatch_error: Option<u32>,
    handle: HandleView,
    pending: Seq<StatusView>,
)
    ensures
        ({
            let states = observed_states(table, dispatch_error, handle, pending);
            &&& states.len() >= 1
            &&& states[0] == handle.state
            &&& forall|i: int, j: int|
                0 <= i <= j < states.len() ==> states[i].spec_rank() <= states[j].spec_rank()
        }),
    decreases pending.len(),
{
    if pending.len() > 0 {
        match spec_observe(table, dispatch_error, handle, pending[0]) {
            Err(_) => {},
            Ok(next) => {
                lemma_observed_states_never_decrease(
                    table,
                    dispatch_error,
                    next,
                    pending.drop_first(),
                );
                let later = observed_states(table, dispatch_error, next, pending.drop_first());
                let states = observed_states(table, dispatch_error, handle, pending);
                assert(states =~= seq![handle.state] + later);
                assert forall|i: int, j: int| 0 <= i <= j < states.len() implies states[i].spec_rank()
                    <= states[j].spec_rank() by {
                    if i == 0 {
                        if j > 0 {
                            assert(states[j] == later[j - 1]);
                            assert(later[0].spec_rank() <= later[j - 1].spec_rank());
                        }
                    } else {
                        assert(states[i] == later[i - 1]);
                        assert(states[j] == later[j - 1]);
                    }
                }
            },
        }
    }
}

impl TransactionHandle {
    /// Where the transaction stands.
    pub fn state(&self) -> (state: LifecycleState)
        ensures
            state == self@.state,
    {
        self.state
    }

    /// The identity of the transaction: the 256-bit Blake2 hash of the signed payload.
    pub fn hash(&self) -> (hash: &Vec<u8>)
        ensures
            hash@ == self@.hash,
    {
        &self.hash
    }

    /// Gives the terminal outcome and ends the handle, or gives the handle
    /// back where it is not yet in a terminal state.
    pub fn into_outcome(self) -> (out: Result<Outcome, TransactionHandle>)
        ensures
            match out {
                Ok(outcome) => self@.state.spec_is_terminal() && outcome@ == spec_outcome(self@),
                Err(handle) => !self@.state.spec_is_terminal() && handle@ == self@,
            },
    {
        if !self.state.is_terminal() {
            return Err(self);
        }
        match self.state {
            LifecycleState::Invalid => Ok(Outcome::Invalid(self.reason)),
            LifecycleState::DroppedOrUsurped => Ok(Outcome::DroppedOrUsurped),
            _ => match self.failure {
                Some(detail) => Ok(Outcome::DispatchFailed(detail)),
                None => Ok(Outcome::Success(self.events)),
            },
        }
    }
}

/// Starts to track a signed transaction that was handed to the transport.
pub fn submit_and_track(extrinsic: &[u8]) -> (handle: TransactionHandle)
    ensures
        handle@ == (HandleView {
            hash: blake2_256_of(extrinsic@),
            state: LifecycleState::Submitted,
            events: Seq::empty(),
            failure: None,
            reason: Seq::empty(),
        }),
{
    let handle = TransactionHandle {
        hash: transaction_hash(extrinsic),
        state: LifecycleState::Submitted,
        events: Vec::new(),
        failure: None,
        reason: String::new(),
    };
    assert(handle@.events =~= Seq::<EventView>::empty());
    handle
}

/// The view of a dispatch failure that was looked for.
pub open spec fn failure_view(failure: Option<ErrorDetail>) -> Option<DetailView> {
    match failure {
        Some(detail) => Some(detail@),
        None => None,
    }
}

/// Looks for the first event that reports a dispatch failure, and decodes its detail.
pub fn find_dispatch_failure(
    registry: &Registry,
    dispatch_error: Option<u32>,
    events: &Vec<Event>,
) -> (failure: Option<ErrorDetail>)
    ensures
        failure_view(failure) == spec_dispatch_failure(
            registry.table(),
            dispatch_error,
            events_view(events@),
        ),
{
    let module: String = "System".to_owned();
    let name: String = "ExtrinsicFailed".to_owned();
    let ghost flags = failure_flags(events_view(events@));
    let mut i: usize = 0;
    while i < events.len()
        invariant
            i <= events@.len(),
            module@ == "System"@,
            name@ == "ExtrinsicFailed"@,
            flags == failure_flags(events_view(events@)),
            forall|k: int| 0 <= k < i ==> flags[k] != true,
        decreases events@.len() - i,
    {
        if events[i].module == module && events[i].name == name {
            proof {
                lemma_first_index_is(flags, true, i as int);
            }
            let data: Vec<u8> = slice_to_vec(events[i].data.as_slice());
            let decoded = match dispatch_error {
                None => Err(Error::UnknownType),
                Some(id) => match decode_value(registry, id, data.as_slice(), MAX_DEPTH) {
                    Ok((value, _)) => Ok(value),
                    Err(e) => Err(e),
                },
            };
            return Some(ErrorDetail { data, decoded });
        }
        i = i + 1;
    }
    proof {
        lemma_first_index_none(flags, true);
    }
    None
}

/// The state that a notification reports.
fn state_of(notification: &StatusNotification) -> (state: LifecycleState)
    ensures
        state == reported_state(notification@),
{
    match notification {
        StatusNotification::Submitted => LifecycleState::Submitted,
        StatusNotification::PoolAccepted => LifecycleState::PoolAccepted,
        StatusNotification::IncludedInBlock { .. } => LifecycleState::IncludedInBlock,
        StatusNotification::Finalized => LifecycleState::Finalized,
        StatusNotification::Invalid { .. } => LifecycleState::Invalid,
        StatusNotification::DroppedOrUsurped => LifecycleState::DroppedOrUsurped,
    }
}

/// Advances a handle by one notification. A notification that is out of order
/// leaves the handle as it was.
pub fn observe(
    registry: &Registry,
    dispatch_error: Option<u32>,
    handle: &mut TransactionHandle,
    notification: StatusNotification,
) -> (out: Result<LifecycleState, Error>)
    ensures
        match out {
            Ok(state) => spec_observe(
                registry.table(),
                dispatch_error,
                old(handle)@,
                notification@,
            ) == Ok::<HandleView, Error>(final(handle)@) && state == final(handle)@.state,
            Err(e) => spec_observe(registry.table(), dispatch_error, old(handle)@, notification@)
                == Err::<HandleView, Error>(e) && final(handle)@ == old(handle)@,
        },
        old(handle)@.state.spec_rank() <= final(handle)@.state.spec_rank(),
{
    let reported = state_of(&notification);
    if handle.state.is_terminal() || reported.rank() < handle.state.rank() {
        return Err(Error::OutOfOrderStatus);
    }
    match notification {
        StatusNotification::IncludedInBlock { events } => {
            let failure = find_dispatch_failure(registry, dispatch_error, &events);
            handle.state = LifecycleState::IncludedInBlock;
            handle.failure = failure;
            handle.events = events;
        },
        StatusNotification::Invalid { reason } => {
            handle.state = LifecycleState::Invalid;
            handle.reason = reason;
        },
        _ => {
            handle.state = reported;
        },
    }
    Ok(handle.state)
}

/// Waits on a handle while the notifications arrive, in order, and gives the
/// terminal outcome. Where the notifications end before a terminal state is
/// reached, the error is `FinalityTimeout`; the handle comes back in its last
/// known state, and the caller can wait on it again.
#[verifier::loop_isolation(false)]
pub fn await_final(
    registry: &Registry,
    dispatch_error: Option<u32>,
    handle: TransactionHandle,
    notifications: Vec<StatusNotification>,
) -> (out: Result<Outcome, (Error, TransactionHandle)>)
    ensures
        match out {
            Ok(outcome) => spec_await(
                registry.table(),
                dispatch_error,
                handle@,
                statuses_view(notifications@),
            ) matches Ok(last) && last.state.spec_is_terminal() && outcome@ == spec_outcome(last),
            Err((e, back)) => spec_await(
                registry.table(),
                dispatch_error,
                handle@,
                statuses_view(notifications@),
            ) == Err::<HandleView, (Error, HandleView)>((e, back@)),
        },
{
    let ghost table = registry.table();
    let ghost awaited = spec_await(table, dispatch_error, handle@, statuses_view(notifications@));
    let mut current = handle;
    let mut pending = notifications;
    loop
        invariant
            awaited == spec_await(table, dispatch_error, current@, statuses_view(pending@)),
        decreases pending@.len(),
    {
        if current.state().is_terminal() {
            match current.into_outcome() {
                Ok(outcome) => {
                    return Ok(outcome);
                },
                Err(back) => {
                    return Err((Error::FinalityTimeout, back));
                },
            }
        }
        if pending.len() == 0 {
            return Err((Error::FinalityTimeout, current));
        }
        let ghost before = statuses_view(pending@);
        let notification = pending.remove(0);
        assert(statuses_view(pending@) =~= before.drop_first());
        assert(before[0] == notification@);
        match observe(registry, dispatch_error, &mut current, notification) {
            Ok(_) => {},
            Err(e) => {
                return Err((e, current));
            },
        }
    }
}

/// What happens while a caller waits on a handle.
#[derive(Debug, PartialEq, Eq)]
pub enum WaitEvent {
    /// The transport delivered a notification.
    Status(StatusNotification),
    /// The time that the caller allowed has passed.
    TimedOut,
}

/// Decides one step of a wait: whether the wait is over after the event. A
/// notification advances the handle; the wait is over once the handle is in a
/// terminal state. A timeout is `FinalityTimeout` and leaves the handle as it
/// is: the submission is not withdrawn, and the caller can wait again.
pub fn wait_step(
    registry: &Registry,
    dispatch_error: Option<u32>,
    handle: &mut TransactionHandle,
    event: WaitEvent,
) -> (out: Result<bool, Error>)
    ensures
        match event {
            WaitEvent::TimedOut => out == Err::<bool, Error>(Error::FinalityTimeout) && final(handle)@ == old(handle)@,
            WaitEvent::Status(notification) => match out {
                Ok(over) => spec_observe(
                    registry.table(),
                    dispatch_error,
                    old(handle)@,
                    notification@,
                ) == Ok::<HandleView, Error>(final(handle)@) && over == final(handle)@.state.spec_is_terminal(),
                Err(e) => spec_observe(
                    registry.table(),
                    dispatch_error,
                    old(handle)@,
                    notification@,
                ) == Err::<HandleView, Error>(e) && final(handle)@ == old(handle)@,
            },
        },
{
    match event {
        WaitEvent::TimedOut => Err(Error::FinalityTimeout),
        WaitEvent::Status(notification) => match observe(
            registry,
            dispatch_error,
            handle,
            notification,
        ) {
            Ok(state) => Ok(state.is_terminal()),
            Err(e) => Err(e),
        },
    }
}

/// What the transport says of a submitted transaction, in its own terms. It
/// may say the same thing again, and it may take back that a block holds the
/// transaction; what it says is turned into notifications before a handle
/// sees it.
#[derive(Debug, PartialEq, Eq)]
pub enum TransportStatus {
    /// The transaction is valid and waits in the queue.
    Validated,
    /// The transaction has been sent on to other nodes.
    Broadcasted,
    /// The block that held the transaction is no longer the best block.
    NoLongerInBestBlock,
    /// The best block holds the transaction; the block may still be taken back.
    InBestBlock,
    /// A final block holds the transaction; these are the events it emitted for it.
    InFinalizedBlock { events: Vec<Event> },
    /// Something went wrong in the node.
    Error { message: String },
    /// The transaction is invalid.
    Invalid { message: String },
    /// The transaction was dropped.
    Dropped { message: String },
}

/// The view of a [`TransportStatus`].
pub enum TransportView {
    Validated,
    Broadcasted,
    NoLongerInBestBlock,
    InBestBlock,
    InFinalizedBlock(Seq<EventView>),
    Error(Seq<char>),
    Invalid(Seq<char>),
    Dropped(Seq<char>),
}

impl View for TransportStatus {
    type V = TransportView;

    open spec fn view(&self) -> TransportView {
        match self {
            TransportStatus::Validated => TransportView::Validated,
            TransportStatus::Broadcasted => TransportView::Broadcasted,
            TransportStatus::NoLongerInBestBlock => TransportView::NoLongerInBestBlock,
            TransportStatus::InBestBlock => TransportView::InBestBlock,
            TransportStatus::InFinalizedBlock { events } => TransportView::InFinalizedBlock(
                events_view(events@),
            ),
            TransportStatus::Error { message } => TransportView::Error(message@),
            TransportStatus::Invalid { message } => TransportView::Invalid(message@),
            TransportStatus::Dropped { message } => TransportView::Dropped(message@),
        }
    }
}

/// The notifications that a status of the transport stands for, for a handle
/// in the given state. A status that only repeats what the handle is already
/// past stands for none, and neither does one that speaks of a block that may
/// still be taken back. A final block stands for two: the inclusion, with the
/// block's events, and the finality. An error in the node counts as a drop.
pub open spec fn spec_notifications(state: LifecycleState, status: TransportView) -> Seq<
    StatusView,
> {
    match status {
        TransportView::Validated => if state.spec_rank()
            <= LifecycleState::Submitted.spec_rank() {
            seq![StatusView::Submitted]
        } else {
            Seq::empty()
        },
        TransportView::Broadcasted => if state.spec_rank()
            <= LifecycleState::PoolAccepted.spec_rank() {
            seq![StatusView::PoolAccepted]
        } else {
            Seq::empty()
        },
        TransportView::NoLongerInBestBlock => Seq::empty(),
        TransportView::InBestBlock => Seq::empty(),
        TransportView::InFinalizedBlock(events) => seq![
            StatusView::IncludedInBlock(events),
            StatusView::Finalized,
        ],
        TransportView::Error(_) => seq![StatusView::DroppedOrUsurped],
        TransportView::Invalid(message) => seq![StatusView::Invalid(message)],
        TransportView::Dropped(_) => seq![StatusView::DroppedOrUsurped],
    }
}

/// The handle as it is after all of the notifications, one after the other; or
/// the error of the first that is out of order, with the handle as it was
/// when that one arrived.
pub open spec fn spec_observe_all(
    table: Seq<Slot>,
    dispatch_error: Option<u32>,
    handle: HandleView,
    pending: Seq<StatusView>,
) -> Result<HandleView, (Error, HandleView)>
    decreases pending.len(),
{
    if pending.len() == 0 {
        Ok(handle)
    } else {
        match spec_observe(table, dispatch_error, handle, pending[0]) {
            Err(e) => Err((e, handle)),
            Ok(next) => spec_observe_all(table, dispatch_error, next, pending.drop_first()),
        }
    }
}

/// Nothing that the transport says is out of order for a handle that is not
/// yet in a terminal state: the notifications that a status stands for are
/// all observed.
pub proof fn lemma_relayed_in_order(
    table: Seq<Slot>,
    dispatch_error: Option<u32>,
    handle: HandleView,
    status: TransportView,
)
    requires
        !handle.state.spec_is_terminal(),
    ensures
        spec_observe_all(
            table,
            dispatch_error,
            handle,
            spec_notifications(handle.state, status),
        ) is Ok,
{
    let pending = spec_notifications(handle.state, status);
    reveal_with_fuel(spec_observe_all, 3);
    if pending.len() == 2 {
        assert(pending.drop_first().len() == 1);
        assert(pending.drop_first().drop_first().len() == 0);
    } else if pending.len() == 1 {
        assert(pending.drop_first().len() == 0);
    }
}

/// Turns a status of the transport into the notifications that it stands for.
pub fn notifications_for(state: LifecycleState, status: TransportStatus) -> (pending: Vec<
    StatusNotification,
>)
    ensures
        statuses_view(pending@) == spec_notifications(state, status@),
{
    let mut pending: Vec<StatusNotification> = Vec::new();
    match status {
        TransportStatus::Validated => {
            if state.rank() <= LifecycleState::Submitted.rank() {
                pending.push(StatusNotification::Submitted);
            }
        },
        TransportStatus::Broadcasted => {
            if state.rank() <= LifecycleState::PoolAccepted.rank() {
                pending.push(StatusNotification::PoolAccepted);
            }
        },
        TransportStatus::NoLongerInBestBlock => {},
        TransportStatus::InBestBlock => {},
        TransportStatus::InFinalizedBlock { events } => {
            pending.push(StatusNotification::IncludedInBlock { events });
            pending.push(StatusNotification::Finalized);
        },
        TransportStatus::Error { message } => {
            pending.push(StatusNotification::DroppedOrUsurped);
        },
        TransportStatus::Invalid { message } => {
            pending.push(StatusNotification::Invalid { reason: message });
        },
        TransportStatus::Dropped { message } => {
            pending.push(StatusNotification::DroppedOrUsurped);
        },
    }
    assert(statuses_view(pending@) =~= spec_notifications(state, status@));
    pending
}

/// Takes a handle through what the transport says: observes, in order, the
/// notifications that the status stands for, and says whether the handle is in
/// a terminal state after them. The first notification that is out of order
/// ends it, and leaves the handle as it was when that one arrived.
#[verifier::loop_isolation(false)]
pub fn relay(
    registry: &Registry,
    dispatch_error: Option<u32>,
    handle: &mut TransactionHandle,
    status: TransportStatus,
) -> (out: Result<bool, Error>)
    ensures
        match out {
            Ok(over) => spec_observe_all(
                registry.table(),
                dispatch_error,
                old(handle)@,
                spec_notifications(old(handle)@.state, status@),
            ) == Ok::<HandleView, (Error, HandleView)>(final(handle)@) && over == final(handle)@.state.spec_is_terminal(),
            Err(e) => spec_observe_all(
                registry.table(),
                dispatch_error,
                old(handle)@,
                spec_notifications(old(handle)@.state, status@),
            ) == Err::<HandleView, (Error, HandleView)>((e, final(handle)@)),
        },
        old(handle)@.state.spec_rank() <= final(handle)@.state.spec_rank(),
{
    let ghost table = registry.table();
    let mut pending = notifications_for(handle.state, status);
    let ghost whole = spec_observe_all(table, dispatch_error, handle@, statuses_view(pending@));
    loop
        invariant
            whole == spec_observe_all(table, dispatch_error, handle@, statuses_view(pending@)),
            old(handle)@.state.spec_rank() <= handle@.state.spec_rank(),
        decreases pending@.len(),
    {
        if pending.len() == 0 {
            return Ok(handle.state.is_terminal());
        }
        let ghost before = statuses_view(pending@);
        let notification = pending.remove(0);
        assert(statuses_view(pending@) =~= before.drop_first());
        assert(before[0] == notification@);
        match observe(registry, dispatch_error, handle, notification) {
            Ok(_) => {},
            Err(e) => {
                return Err(e);
            },
        }
    }
}

} // verus!
