//! The call builder: a module name, a function name and positional arguments
//! become the payload of an unsigned call.

use crate::encode::{
    collect, encode_list, first_failure, lemma_collect_all_ok, lemma_collect_failure,
    lemma_collect_fails_at, lemma_collect_ok, lemma_list_errors, list_parts, ListTypes,
};
use crate::error::Error;
use crate::metadata::{function_names, module_names, param_types, Metadata, Module};
use crate::names::{first_index, lemma_first_index};
use crate::registry::{Registry, Slot};
use crate::value::{values_of, DynamicValue, Value};
use vstd::prelude::*;

verus! {

/// The payload of an unsigned call: the module index, the function index and
/// the encoded arguments, in that order.
#[derive(Debug, PartialEq, Eq)]
pub struct EncodedCall {
    bytes: Vec<u8>,
}

impl View for EncodedCall {
    type V = Seq<u8>;

    closed spec fn view(&self) -> Seq<u8> {
        self.bytes@
    }
}

impl EncodedCall {
    /// The bytes of the payload.
    pub fn as_bytes(&self) -> (bytes: &Vec<u8>)
        ensures
            bytes@ == self@,
    {
        &self.bytes
    }

    /// The bytes of the payload, by value.
    pub fn into_bytes(self) -> (bytes: Vec<u8>)
        ensures
            bytes@ == self@,
    {
        self.bytes
    }
}

/// What building a call gives. The module is the first of that name, the
/// function the first of that name in it. The errors come in this order:
/// `UnknownModule`, `UnknownFunction`, `ArityMismatch`, and then the first
/// error that encoding an argument against its declared type gives.
pub open spec fn spec_build_call(
    modules: Seq<Module>,
    table: Seq<Slot>,
    module: Seq<char>,
    function: Seq<char>,
    args: Seq<Value>,
) -> Result<Seq<u8>, Error> {
    match first_index(module_names(modules), module) {
        None => Err(Error::UnknownModule),
        Some(m) => match first_index(function_names(modules[m].functions@), function) {
            None => Err(Error::UnknownFunction),
            Some(f) => {
                let declared = modules[m].functions@[f];
                if args.len() != declared.params@.len() {
                    Err(Error::ArityMismatch)
                } else {
                    match collect(list_parts(table, param_types(declared), args)) {
                        Err(e) => Err(e),
                        Ok(encoded) => Ok(seq![modules[m].index, declared.index] + encoded),
                    }
                }
            },
        },
    }
}

/// Builds the payload of a call to `function` of `module` with the arguments `args`.
pub fn build_call(
    metadata: &Metadata,
    registry: &Registry,
    module: &str,
    function: &str,
    args: &Vec<DynamicValue>,
) -> (out: Result<EncodedCall, Error>)
    ensures
        match out {
            Ok(call) => spec_build_call(
                metadata.modules@,
                registry.table(),
                module@,
                function@,
                values_of(args@),
            ) == Ok::<Seq<u8>, Error>(call@),
            Err(e) => spec_build_call(
                metadata.modules@,
                registry.table(),
                module@,
                function@,
                values_of(args@),
            ) == Err::<Seq<u8>, Error>(e),
        },
{
    let m = match metadata.find_module(module) {
        Some(m) => m,
        None => {
            return Err(Error::UnknownModule);
        },
    };
    proof {
        lemma_first_index(module_names(metadata.modules@), module@);
    }
    let found = &metadata.modules[m];
    let f = match found.find_function(function) {
        Some(f) => f,
        None => {
            return Err(Error::UnknownFunction);
        },
    };
    proof {
        lemma_first_index(function_names(found.functions@), function@);
    }
    let declared = &found.functions[f];
    if args.len() != declared.params.len() {
        return Err(Error::ArityMismatch);
    }
    let mut bytes: Vec<u8> = Vec::new();
    bytes.push(found.index);
    bytes.push(declared.index);
    assert(ListTypes::Each(&declared.params).ids(args@.len()) =~= param_types(*declared));
    match encode_list(registry, ListTypes::Each(&declared.params), args) {
        Ok(mut encoded) => {
            let ghost arguments = encoded@;
            bytes.append(&mut encoded);
            let call = EncodedCall { bytes };
            assert(call@ =~= seq![found.index, declared.index] + arguments);
            Ok(call)
        },
        Err(e) => Err(e),
    }
}

/// Each error of the call builder comes exactly when its condition holds:
/// `UnknownModule` when no module has the name; `UnknownFunction` when the
/// module is there and has no function of the name; `ArityMismatch` when both
/// are there and the number of arguments is not the declared one; and
/// `ValueShapeMismatch` when names and number match, some argument does not
/// have the shape of its declared type, and every argument before it encodes.
/// The call is built exactly when names and number match and every argument
/// encodes.
pub proof fn lemma_build_call_errors(
    modules: Seq<Module>,
    table: Seq<Slot>,
    module: Seq<char>,
    function: Seq<char>,
    args: Seq<Value>,
)
    ensures
        ({
            let built = spec_build_call(modules, table, module, function, args);
            let found_module = exists|i: int| 0 <= i < modules.len() && modules[i].name@ == module;
            let m = first_index(module_names(modules), module)->Some_0;
            let functions = modules[m].functions@;
            let found_function = exists|j: int|
                0 <= j < functions.len() && functions[j].name@ == function;
            let f = first_index(function_names(functions), function)->Some_0;
            let declared = functions[f];
            let arity_matches = args.len() == declared.params@.len();
            let encoded = list_parts(table, param_types(declared), args);
            &&& built == Err::<Seq<u8>, Error>(Error::UnknownModule) <==> !found_module
            &&& built == Err::<Seq<u8>, Error>(Error::UnknownFunction) <==> found_module
                && !found_function
            &&& built == Err::<Seq<u8>, Error>(Error::ArityMismatch) <==> found_module
                && found_function && !arity_matches
            &&& built == Err::<Seq<u8>, Error>(Error::ValueShapeMismatch) <==> found_module
                && found_function && arity_matches && exists|at: int|
                first_failure(encoded, at) && #[trigger] encoded[at] == Err::<Seq<u8>, Error>(
                    Error::ValueShapeMismatch,
                )
            &&& built is Ok <==> found_module && found_function && arity_matches && forall|at: int|
                0 <= at < args.len() ==> (#[trigger] encoded[at]) is Ok
        }),
{
    lemma_first_index(module_names(modules), module);
    match first_index(module_names(modules), module) {
        None => {
            assert forall|i: int| 0 <= i < modules.len() implies modules[i].name@ != module by {
                assert(module_names(modules)[i] != module);
            }
        },
        Some(m) => {
            assert(module_names(modules)[m] == module);
            assert(modules[m].name@ == module);
            let functions = modules[m].functions@;
            lemma_first_index(function_names(functions), function);
            match first_index(function_names(functions), function) {
                None => {
                    assert forall|j: int| 0 <= j < functions.len() implies functions[j].name@
                        != function by {
                        assert(function_names(functions)[j] != function);
                    }
                },
                Some(f) => {
                    assert(function_names(functions)[f] == function);
                    assert(functions[f].name@ == function);
                    let encoded = list_parts(table, param_types(functions[f]), args);
                    lemma_list_errors(table, param_types(functions[f]), args);
                    if collect(encoded) is Err {
                        lemma_collect_failure(encoded);
                    } else {
                        lemma_collect_ok(encoded);
                    }
                    assert forall|at: int|
                        first_failure(encoded, at) && #[trigger] encoded[at] == Err::<
                            Seq<u8>,
                            Error,
                        >(Error::ValueShapeMismatch) implies collect(encoded) == Err::<
                        Seq<u8>,
                        Error,
                    >(Error::ValueShapeMismatch) by {
                        lemma_collect_fails_at(encoded, at);
                    }
                    if forall|at: int| 0 <= at < args.len() ==> (#[trigger] encoded[at]) is Ok {
                        lemma_collect_all_ok(encoded);
                    }
                },
            }
        },
    }
}

} // verus!
