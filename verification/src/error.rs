//! The error kinds that the builders, the codec and the tracker report.

use vstd::prelude::*;

verus! {

/// Why an operation of the engine did not produce a value.
#[derive(Clone, Copy, Debug, PartialEq, Eq, Structural)]
pub enum Error {
    /// No module of the metadata has the requested name.
    UnknownModule,
    /// The module has no callable function of the requested name.
    UnknownFunction,
    /// The module has no storage item of the requested name.
    UnknownStorageItem,
    /// A type id is absent from the metadata.
    UnknownType,
    /// The number of arguments differs from the number that is declared.
    ArityMismatch,
    /// A value, or the bytes of one, does not have the shape that its rule asks for.
    ValueShapeMismatch,
    /// The metadata describes a shape for which the registry has no rule.
    UnsupportedTypeShape,
    /// Fewer bytes remain than the rule requires.
    TruncatedInput,
    /// Bytes remain where the caller expected all of them to be consumed.
    TrailingBytes,
    /// A status notification arrived that lies before the current state, or after a terminal one.
    OutOfOrderStatus,
    /// No terminal state was reached while the caller was waiting.
    FinalityTimeout,
}

} // verus!
