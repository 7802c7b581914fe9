//! The session: one metadata and the rules worked out from it, for as long as
//! the client is connected to one runtime version. Everything that resolves a
//! name or a type goes through a session, and nothing outlives it.

use crate::call::{build_call, spec_build_call, EncodedCall};
use crate::decode::{decode_exact, decode_value, spec_decode, spec_decode_exact};
use crate::encode::{encode_value, spec_encode};
use crate::error::Error;
use crate::metadata::Metadata;
use crate::registry::{lookup, rule_table, rule_wf, Registry, Rule, Slot, TypeRule};
use crate::storage::{
    build_storage_key, decode_storage_value, spec_storage_key, spec_storage_value,
    storage_prefix, storage_value_view, StorageKey,
};
use crate::tracker::{
    await_final, observe, relay, spec_await, spec_notifications, spec_observe, spec_observe_all,
    spec_outcome, statuses_view, wait_step, HandleView, LifecycleState, Outcome,
    StatusNotification, TransactionHandle, TransportStatus, WaitEvent,
};
use crate::value::{values_of, DynamicValue, Value};
use vstd::prelude::*;

verus! {

/// A connected session: the metadata of one runtime version, and its rules.
#[derive(Debug)]
pub struct Session {
    metadata: Metadata,
    registry: Registry,
}

impl Session {
    #[verifier::type_invariant]
    spec fn coherent(self) -> bool {
        self.registry.table() == rule_table(self.metadata.types@)
    }

    /// The metadata that the session was opened with.
    pub closed spec fn metadata(&self) -> Metadata {
        self.metadata
    }

    /// The rules of the session's types, by type id.
    pub open spec fn table(&self) -> Seq<Slot> {
        rule_table(self.metadata().types@)
    }

    /// Opens a session on the metadata of a runtime version, and works out the
    /// rule of each of its types.
    pub fn open(metadata: Metadata) -> (session: Session)
        ensures
            session.metadata() == metadata,
    {
        let registry = Registry::new(&metadata.types);
        Session { metadata, registry }
    }

    /// Ends the session: the rules are released, and the metadata is handed back.
    pub fn close(self) -> (metadata: Metadata)
        ensures
            metadata == self.metadata(),
    {
        self.metadata
    }

    /// The metadata that the session was opened with.
    pub fn metadata_ref(&self) -> (metadata: &Metadata)
        ensures
            *metadata == self.metadata(),
    {
        &self.metadata
    }

    /// The names of the modules, in the order of the metadata.
    pub fn module_list(&self) -> (names: Vec<String>)
        ensures
            names@.len() == self.metadata().modules@.len(),
            forall|i: int|
                0 <= i < names@.len() ==> (#[trigger] names@[i])@ == self.metadata().modules@[i].name@,
    {
        let mut names: Vec<String> = Vec::new();
        let mut i: usize = 0;
        while i < self.metadata.modules.len()
            invariant
                i <= self.metadata.modules@.len(),
                names@.len() == i,
                forall|k: int|
                    0 <= k < i ==> (#[trigger] names@[k])@ == self.metadata.modules@[k].name@,
            decreases self.metadata.modules@.len() - i,
        {
            names.push(self.metadata.modules[i].name.clone());
            i = i + 1;
        }
        names
    }

    /// Resolves a type id to its rule: `UnknownType` where the metadata has no
    /// type of that id, `UnsupportedTypeShape` where it has one of a shape for
    /// which there is no rule.
    pub fn resolve(&self, id: u32) -> (found: Result<&TypeRule, Error>)
        ensures
            match found {
                Ok(rule) => lookup(self.table(), id as nat) == Ok::<Rule, Error>(rule@) && rule_wf(
                    rule@,
                ),
                Err(e) => lookup(self.table(), id as nat) == Err::<Rule, Error>(e),
            },
    {
        proof {
            use_type_invariant(self);
        }
        self.registry.resolve(id)
    }

    /// Encodes `value` by the rule of the type `id`.
    pub fn encode(&self, id: u32, value: &DynamicValue) -> (out: Result<Vec<u8>, Error>)
        ensures
            match out {
                Ok(bytes) => spec_encode(self.table(), id as nat, value@) == Ok::<Seq<u8>, Error>(
                    bytes@,
                ),
                Err(e) => spec_encode(self.table(), id as nat, value@) == Err::<Seq<u8>, Error>(e),
            },
    {
        proof {
            use_type_invariant(self);
        }
        encode_value(&self.registry, id, value)
    }

    /// Decodes the value of the type `id` that `bytes` start with, and says
    /// how many bytes it took.
    pub fn decode(&self, id: u32, bytes: &[u8], depth: usize) -> (out: Result<
        (DynamicValue, usize),
        Error,
    >)
        ensures
            match out {
                Ok((value, used)) => used <= bytes@.len() && spec_decode(
                    self.table(),
                    id as nat,
                    bytes@,
                    depth as nat,
                ) == Ok::<(Value, nat), Error>((value@, used as nat)),
                Err(e) => spec_decode(self.table(), id as nat, bytes@, depth as nat) == Err::<
                    (Value, nat),
                    Error,
                >(e),
            },
    {
        proof {
            use_type_invariant(self);
        }
        decode_value(&self.registry, id, bytes, depth)
    }

    /// Decodes the value of the type `id` that `bytes` are; `TrailingBytes`
    /// where the value ends before they do.
    pub fn decode_exact(&self, id: u32, bytes: &[u8], depth: usize) -> (out: Result<
        DynamicValue,
        Error,
    >)
        ensures
            match out {
                Ok(value) => spec_decode_exact(self.table(), id as nat, bytes@, depth as nat)
                    == Ok::<Value, Error>(value@),
                Err(e) => spec_decode_exact(self.table(), id as nat, bytes@, depth as nat) == Err::<
                    Value,
                    Error,
                >(e),
            },
    {
        proof {
            use_type_invariant(self);
        }
        decode_exact(&self.registry, id, bytes, depth)
    }

    /// Builds the payload of a call to `function` of `module` with the arguments `args`.
    pub fn build_call(&self, module: &str, function: &str, args: &Vec<DynamicValue>) -> (out:
        Result<EncodedCall, Error>)
        ensures
            match out {
                Ok(call) => spec_build_call(
                    self.metadata().modules@,
                    self.table(),
                    module@,
                    function@,
                    values_of(args@),
                ) == Ok::<Seq<u8>, Error>(call@),
                Err(e) => spec_build_call(
                    self.metadata().modules@,
                    self.table(),
                    module@,
                    function@,
                    values_of(args@),
                ) == Err::<Seq<u8>, Error>(e),
            },
    {
        proof {
            use_type_invariant(self);
        }
        build_call(&self.metadata, &self.registry, module, function, args)
    }

    /// Builds the key of the value that `item` of `module` keeps for the key arguments `args`.
    pub fn build_storage_key(&self, module: &str, item: &str, args: &Vec<DynamicValue>) -> (out:
        Result<StorageKey, Error>)
        ensures
            match out {
                Ok(key) => spec_storage_key(
                    self.metadata().modules@,
                    self.metadata().types@,
                    self.table(),
                    module@,
                    item@,
                    values_of(args@),
                ) == Ok::<Seq<u8>, Error>(key@) && key@.len() >= 32 && key@.subrange(0, 32)
                    == storage_prefix(module@, item@),
                Err(e) => spec_storage_key(
                    self.metadata().modules@,
                    self.metadata().types@,
                    self.table(),
                    module@,
                    item@,
                    values_of(args@),
                ) == Err::<Seq<u8>, Error>(e),
            },
    {
        proof {
            use_type_invariant(self);
        }
        build_storage_key(&self.metadata, &self.registry, module, item, args)
    }

    /// Decodes what was fetched for a key of `item` of `module`; `fetched` is
    /// `None` where the chain holds no value under the key, and then so is the
    /// result.
    pub fn decode_storage_value(&self, module: &str, item: &str, fetched: Option<&Vec<u8>>) -> (out:
        Result<Option<DynamicValue>, Error>)
        ensures
            storage_value_view(out) == spec_storage_value(
                self.metadata().modules@,
                self.table(),
                module@,
                item@,
                match fetched {
                    Some(bytes) => Some(bytes@),
                    None => None,
                },
            ),
    {
        proof {
            use_type_invariant(self);
        }
        decode_storage_value(&self.metadata, &self.registry, module, item, fetched)
    }

    /// Advances a handle by one notification. A notification that is out of
    /// order leaves the handle as it was.
    pub fn observe(&self, handle: &mut TransactionHandle, notification: StatusNotification) -> (out:
        Result<LifecycleState, Error>)
        ensures
            match out {
                Ok(state) => spec_observe(
                    self.table(),
                    self.metadata().dispatch_error,
                    old(handle)@,
                    notification@,
                ) == Ok::<HandleView, Error>(final(handle)@) && state == final(handle)@.state,
                Err(e) => spec_observe(
                    self.table(),
                    self.metadata().dispatch_error,
                    old(handle)@,
                    notification@,
                ) == Err::<HandleView, Error>(e) && final(handle)@ == old(handle)@,
            },
            old(handle)@.state.spec_rank() <= final(handle)@.state.spec_rank(),
    {
        proof {
            use_type_invariant(self);
        }
        observe(&self.registry, self.metadata.dispatch_error, handle, notification)
    }

    /// Takes a handle through what the transport says: observes, in order, the
    /// notifications that the status stands for, and says whether the handle
    /// is in a terminal state after them.
    pub fn relay(&self, handle: &mut TransactionHandle, status: TransportStatus) -> (out: Result<
        bool,
        Error,
    >)
        ensures
            match out {
                Ok(over) => spec_observe_all(
                    self.table(),
                    self.metadata().dispatch_error,
                    old(handle)@,
                    spec_notifications(old(handle)@.state, status@),
                ) == Ok::<HandleView, (Error, HandleView)>(final(handle)@) && over == final(handle)@.state.spec_is_terminal(),
                Err(e) => spec_observe_all(
                    self.table(),
                    self.metadata().dispatch_error,
                    old(handle)@,
                    spec_notifications(old(handle)@.state, status@),
                ) == Err::<HandleView, (Error, HandleView)>((e, final(handle)@)),
            },
            old(handle)@.state.spec_rank() <= final(handle)@.state.spec_rank(),
    {
        proof {
            use_type_invariant(self);
        }
        relay(&self.registry, self.metadata.dispatch_error, handle, status)
    }

    /// Decides one step of a wait on a handle: a notification advances the
    /// handle, and the wait is over once the handle is in a terminal state; a
    /// timeout is `FinalityTimeout` and leaves the handle as it is.
    pub fn wait_step(&self, handle: &mut TransactionHandle, event: WaitEvent) -> (out: Result<
        bool,
        Error,
    >)
        ensures
            match event {
                WaitEvent::TimedOut => out == Err::<bool, Error>(Error::FinalityTimeout) && final(handle)@ == old(handle)@,
                WaitEvent::Status(notification) => match out {
                    Ok(over) => spec_observe(
                        self.table(),
                        self.metadata().dispatch_error,
                        old(handle)@,
                        notification@,
                    ) == Ok::<HandleView, Error>(final(handle)@) && over == final(handle)@.state.spec_is_terminal(),
                    Err(e) => spec_observe(
                        self.table(),
                        self.metadata().dispatch_error,
                        old(handle)@,
                        notification@,
                    ) == Err::<HandleView, Error>(e) && final(handle)@ == old(handle)@,
                },
            },
    {
        proof {
            use_type_invariant(self);
        }
        wait_step(&self.registry, self.metadata.dispatch_error, handle, event)
    }

    /// Waits on a handle while the notifications arrive, in order, and gives
    /// the terminal outcome; `FinalityTimeout`, with the handle, where they end
    /// before a terminal state is reached.
    pub fn await_final(&self, handle: TransactionHandle, notifications: Vec<StatusNotification>) -> (out:
        Result<Outcome, (Error, TransactionHandle)>)
        ensures
            match out {
                Ok(outcome) => spec_await(
                    self.table(),
                    self.metadata().dispatch_error,
                    handle@,
                    statuses_view(notifications@),
                ) matches Ok(last) && last.state.spec_is_terminal() && outcome@ == spec_outcome(
                    last,
                ),
                Err((e, back)) => spec_await(
                    self.table(),
                    self.metadata().dispatch_error,
                    handle@,
                    statuses_view(notifications@),
                ) == Err::<HandleView, (Error, HandleView)>((e, back@)),
            },
    {
        proof {
            use_type_invariant(self);
        }
        await_final(&self.registry, self.metadata.dispatch_error, handle, notifications)
    }
}

} // verus!
