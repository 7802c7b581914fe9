//! The encoder: a value tree becomes wire bytes, by the rule that the registry
//! holds for the value's type.

use crate::error::Error;
use crate::names::{first_index, lemma_first_index_is, lemma_first_index_none};
use crate::registry::{
    lookup, FieldRules, FieldShape, Registry, Rule, Slot, TypeRule, VariantRule, VariantShape,
};
use crate::value::{names_of, named_values_of, values_of, Composite, DynamicValue, Fields, Value};
use crate::wire::{
    append_bytes, compact_bytes, fits_signed, le_bytes, pow256, signed_max, twos_complement,
    unsigned_max, write_compact, write_le,
};
use vstd::prelude::*;

verus! {

/// The parts joined in order, or the first error among them.
pub open spec fn collect(parts: Seq<Result<Seq<u8>, Error>>) -> Result<Seq<u8>, Error>
    decreases parts.len(),
{
    if parts.len() == 0 {
        Ok(Seq::empty())
    } else {
        match collect(parts.drop_last()) {
            Err(e) => Err(e),
            Ok(head) => match parts.last() {
                Err(e) => Err(e),
                Ok(part) => Ok(head + part),
            },
        }
    }
}

/// The names of the variants, in declared order.
pub open spec fn variant_names(variants: Seq<VariantShape>) -> Seq<Seq<char>> {
    Seq::new(variants.len(), |k: int| variants[k].name)
}

/// The type ids of the declared fields, in declared order.
pub open spec fn declared_types(declared: Seq<(Seq<char>, nat)>) -> Seq<nat> {
    Seq::new(declared.len(), |i: int| declared[i].1)
}

/// The same type id, `count` times.
pub open spec fn repeated(element: nat, count: nat) -> Seq<nat> {
    Seq::new(count, |i: int| element)
}

/// Whether each declared name is the name of one of the given fields.
pub open spec fn all_present(declared: Seq<(Seq<char>, nat)>, given: Seq<(Seq<char>, Value)>) -> bool {
    forall|i: int|
        0 <= i < declared.len() ==> first_index(names_of(given), (#[trigger] declared[i]).0) is Some
}

/// The wire bytes of `value` under the rule of the type `id`.
///
/// A boolean is one byte. An integer is its declared width in bytes, least
/// significant first, and does not fit unless it is in the range of that width.
/// Bytes are written as they are, after a compact length where the type does
/// not fix it. A composite is its fields in declared order. A variant is its
/// declared discriminant and then its fields. A sequence is a compact length
/// and then its elements; an array is its elements.
pub open spec fn spec_encode(table: Seq<Slot>, id: nat, value: Value) -> Result<
    Seq<u8>,
    Error,
>
    decreases value,
{
    match lookup(table, id) {
        Err(e) => Err(e),
        Ok(rule) => match (rule, value) {
            (Rule::Bool, Value::Bool(b)) => Ok(
                seq![if b {
                    1u8
                } else {
                    0u8
                }],
            ),
            (Rule::UInt(width), Value::UInt(n)) => if n < pow256(width) {
                Ok(le_bytes(n, width))
            } else {
                Err(Error::ValueShapeMismatch)
            },
            (Rule::Int(width), Value::Int(i)) => if fits_signed(i, width) {
                Ok(le_bytes(twos_complement(i, width), width))
            } else {
                Err(Error::ValueShapeMismatch)
            },
            (Rule::Bytes, Value::Bytes(bytes)) => if bytes.len() <= u32::MAX {
                Ok(compact_bytes(bytes.len()) + bytes)
            } else {
                Err(Error::ValueShapeMismatch)
            },
            (Rule::FixedBytes(len), Value::Bytes(bytes)) => if bytes.len() == len {
                Ok(bytes)
            } else {
                Err(Error::ValueShapeMismatch)
            },
            (Rule::Composite(shape), Value::Composite(fields)) => spec_encode_fields(
                table,
                shape,
                fields,
            ),
            (Rule::Variant(variants), Value::Variant(name, fields)) => match first_index(
                variant_names(variants),
                name,
            ) {
                Some(k) => if 0 <= k < variants.len() {
                    match spec_encode_fields(table, variants[k].fields, fields) {
                        Ok(bytes) => Ok(seq![variants[k].index] + bytes),
                        Err(e) => Err(e),
                    }
                } else {
                    Err(Error::ValueShapeMismatch)
                },
                None => Err(Error::ValueShapeMismatch),
            },
            (Rule::Sequence(element), Value::Sequence(items)) => if items.len() <= u32::MAX {
                match collect(list_parts(table, repeated(element, items.len()), items)) {
                    Ok(bytes) => Ok(compact_bytes(items.len()) + bytes),
                    Err(e) => Err(e),
                }
            } else {
                Err(Error::ValueShapeMismatch)
            },
            (Rule::Array(element, len), Value::Sequence(items)) => if items.len() == len {
                collect(list_parts(table, repeated(element, items.len()), items))
            } else {
                Err(Error::ValueShapeMismatch)
            },
            _ => Err(Error::ValueShapeMismatch),
        },
    }
}

/// The wire bytes of the fields of a composite or a variant. Named fields are
/// matched to the declared ones by name, whatever order they were given in,
/// and written in declared order; positional fields are matched by position.
/// The count must match, and each declared name must be present.
pub open spec fn spec_encode_fields(
    table: Seq<Slot>,
    shape: FieldShape,
    fields: Fields,
) -> Result<Seq<u8>, Error>
    decreases fields,
{
    match (shape, fields) {
        (FieldShape::Named(declared), Fields::Named(given)) => if declared.len() != given.len()
            || !all_present(declared, given) {
            Err(Error::ValueShapeMismatch)
        } else {
            collect(named_parts(table, declared, given))
        },
        (FieldShape::Unnamed(types), Fields::Unnamed(items)) => if types.len() != items.len() {
            Err(Error::ValueShapeMismatch)
        } else {
            collect(list_parts(table, types, items))
        },
        _ => Err(Error::ValueShapeMismatch),
    }
}

/// For each declared field, the wire bytes of the first given field of that name.
pub open spec fn named_parts(
    table: Seq<Slot>,
    declared: Seq<(Seq<char>, nat)>,
    given: Seq<(Seq<char>, Value)>,
) -> Seq<Result<Seq<u8>, Error>>
    decreases given,
{
    Seq::new(
        declared.len(),
        |i: int|
            if 0 <= i < declared.len() {
                match first_index(names_of(given), declared[i].0) {
                    Some(j) => if 0 <= j < given.len() {
                        spec_encode(table, declared[i].1, given[j].1)
                    } else {
                        Err(Error::ValueShapeMismatch)
                    },
                    None => Err(Error::ValueShapeMismatch),
                }
            } else {
                arbitrary()
            },
    )
}

/// For each item, its wire bytes under the rule of the type at the same position.
pub open spec fn list_parts(table: Seq<Slot>, types: Seq<nat>, items: Seq<Value>) -> Seq<
    Result<Seq<u8>, Error>,
>
    decreases items,
{
    Seq::new(
        items.len(),
        |i: int|
            if 0 <= i < items.len() {
                spec_encode(table, types[i], items[i])
            } else {
                arbitrary()
            },
    )
}

/// An error among the parts, with none before it, is what `collect` gives.
pub proof fn lemma_collect_error(parts: Seq<Result<Seq<u8>, Error>>, at: int)
    requires
        0 <= at < parts.len(),
        collect(parts.take(at)) is Ok,
        parts[at] is Err,
    ensures
        collect(parts) == Err::<Seq<u8>, Error>(parts[at]->Err_0),
    decreases parts.len(),
{
    let init = parts.drop_last();
    if at == parts.len() - 1 {
        assert(init =~= parts.take(at));
    } else {
        assert(init.take(at) =~= parts.take(at));
        lemma_collect_error(init, at);
    }
}

/// One more part, joined to what `collect` gives of those before it.
pub proof fn lemma_collect_step(parts: Seq<Result<Seq<u8>, Error>>, at: int)
    requires
        0 <= at < parts.len(),
        collect(parts.take(at)) is Ok,
        parts[at] is Ok,
    ensures
        collect(parts.take(at + 1)) == Ok::<Seq<u8>, Error>(
            collect(parts.take(at))->Ok_0 + parts[at]->Ok_0,
        ),
{
    assert(parts.take(at + 1).drop_last() =~= parts.take(at));
}

/// Where the parts join without an error, none of them is one, and neither is any prefix.
pub proof fn lemma_collect_ok(parts: Seq<Result<Seq<u8>, Error>>)
    requires
        collect(parts) is Ok,
    ensures
        forall|i: int| 0 <= i < parts.len() ==> (#[trigger] parts[i]) is Ok,
    decreases parts.len(),
{
    if parts.len() > 0 {
        lemma_collect_ok(parts.drop_last());
        assert forall|i: int| 0 <= i < parts.len() implies (#[trigger] parts[i]) is Ok by {
            if i < parts.len() - 1 {
                assert(parts.drop_last()[i] is Ok);
            }
        }
    }
}

/// The types of the items of a list: one for each position, or one for all.
pub(crate) enum ListTypes<'a> {
    /// The type id of each position.
    Each(&'a Vec<u32>),
    /// The type id of every position.
    Same(u32),
}

impl<'a> ListTypes<'a> {
    /// The type ids of the positions of a list of `count` items.
    pub(crate) open spec fn ids(self, count: nat) -> Seq<nat> {
        match self {
            ListTypes::Each(types) => Seq::new(types@.len(), |i: int| types@[i] as nat),
            ListTypes::Same(element) => repeated(element as nat, count),
        }
    }

    /// The type id of the position `i`.
    pub(crate) fn at(&self, i: usize) -> (id: u32)
        requires
            self matches ListTypes::Each(types) ==> i < types@.len(),
        ensures
            match self {
                ListTypes::Each(types) => id == types@[i as int],
                ListTypes::Same(element) => id == element,
            },
    {
        match self {
            ListTypes::Each(types) => types[i],
            ListTypes::Same(element) => *element,
        }
    }
}

/// Encodes `value` by the rule that the registry holds for the type `id`.
pub fn encode_value(registry: &Registry, id: u32, value: &DynamicValue) -> (out: Result<
    Vec<u8>,
    Error,
>)
    ensures
        match out {
            Ok(bytes) => spec_encode(registry.table(), id as nat, value@) == Ok::<Seq<u8>, Error>(
                bytes@,
            ),
            Err(e) => spec_encode(registry.table(), id as nat, value@) == Err::<Seq<u8>, Error>(e),
        },
    decreases value,
{
    let rule = match registry.resolve(id) {
        Ok(rule) => rule,
        Err(e) => {
            return Err(e);
        },
    };
    let mut out: Vec<u8> = Vec::new();
    match (rule, value) {
        (TypeRule::Bool, DynamicValue::Bool(b)) => {
            out.push(
                if *b {
                    1
                } else {
                    0
                },
            );
            assert(out@ =~= seq![if *b {
                1u8
            } else {
                0u8
            }]);
            Ok(out)
        },
        (TypeRule::UInt { width }, DynamicValue::UInt(n)) => {
            if *n > unsigned_max(*width) {
                return Err(Error::ValueShapeMismatch);
            }
            write_le(&mut out, *n, *width);
            assert(out@ =~= le_bytes(*n as nat, *width as nat));
            Ok(out)
        },
        (TypeRule::Int { width }, DynamicValue::Int(i)) => {
            let max: u128 = signed_max(*width);
            let all: u128 = unsigned_max(*width);
            let raw: u128 = if *i >= 0 {
                let n: u128 = *i as u128;
                if n > max {
                    return Err(Error::ValueShapeMismatch);
                }
                n
            } else {
                let below: u128 = (-(*i + 1)) as u128;
                if below > max {
                    return Err(Error::ValueShapeMismatch);
                }
                all - below
            };
            write_le(&mut out, raw, *width);
            assert(out@ =~= le_bytes(twos_complement(*i as int, *width as nat), *width as nat));
            Ok(out)
        },
        (TypeRule::Bytes, DynamicValue::Bytes(bytes)) => {
            if bytes.len() as u64 > 0xffff_ffff {
                return Err(Error::ValueShapeMismatch);
            }
            write_compact(&mut out, bytes.len() as u32);
            append_bytes(&mut out, bytes.as_slice());
            assert(out@ =~= compact_bytes(bytes@.len()) + bytes@);
            Ok(out)
        },
        (TypeRule::FixedBytes { len }, DynamicValue::Bytes(bytes)) => {
            if bytes.len() as u64 != *len as u64 {
                return Err(Error::ValueShapeMismatch);
            }
            append_bytes(&mut out, bytes.as_slice());
            assert(out@ =~= bytes@);
            Ok(out)
        },
        (TypeRule::Composite { fields: shape }, DynamicValue::Composite(fields)) => encode_fields(
            registry,
            shape,
            fields,
        ),
        (TypeRule::Variant { variants }, DynamicValue::Variant(name, fields)) => {
            match find_variant(variants, name) {
                Some(k) => {
                    out.push(variants[k].index);
                    match encode_fields(registry, &variants[k].fields, fields) {
                        Ok(mut bytes) => {
                            out.append(&mut bytes);
                            Ok(out)
                        },
                        Err(e) => Err(e),
                    }
                },
                None => Err(Error::ValueShapeMismatch),
            }
        },
        (TypeRule::Sequence { element }, DynamicValue::Sequence(items)) => {
            if items.len() as u64 > 0xffff_ffff {
                return Err(Error::ValueShapeMismatch);
            }
            assert(value@->Sequence_0 =~= values_of(items@));
            write_compact(&mut out, items.len() as u32);
            match encode_list(registry, ListTypes::Same(*element), items) {
                Ok(mut bytes) => {
                    out.append(&mut bytes);
                    Ok(out)
                },
                Err(e) => Err(e),
            }
        },
        (TypeRule::Array { element, len }, DynamicValue::Sequence(items)) => {
            if items.len() as u64 != *len as u64 {
                return Err(Error::ValueShapeMismatch);
            }
            assert(value@->Sequence_0 =~= values_of(items@));
            encode_list(registry, ListTypes::Same(*element), items)
        },
        _ => Err(Error::ValueShapeMismatch),
    }
}

/// Looks a variant up by its exact name; the first of that name is the one found.
fn find_variant(variants: &Vec<VariantRule>, name: &String) -> (found: Option<usize>)
    ensures
        match found {
            Some(k) => k < variants@.len() && first_index(
                variant_names(Seq::new(variants@.len(), |i: int| variants@[i]@)),
                name@,
            ) == Some(k as int),
            None => first_index(
                variant_names(Seq::new(variants@.len(), |i: int| variants@[i]@)),
                name@,
            ) is None,
        },
{
    let ghost names = variant_names(Seq::new(variants@.len(), |i: int| variants@[i]@));
    let mut k: usize = 0;
    while k < variants.len()
        invariant
            k <= variants@.len(),
            names == variant_names(Seq::new(variants@.len(), |i: int| variants@[i]@)),
            forall|j: int| 0 <= j < k ==> names[j] != name@,
        decreases variants@.len() - k,
    {
        if variants[k].name == *name {
            proof {
                lemma_first_index_is(names, name@, k as int);
            }
            return Some(k);
        }
        k = k + 1;
    }
    proof {
        lemma_first_index_none(names, name@);
    }
    None
}

/// Looks a given field up by its exact name; the first of that name is the one found.
fn find_given(given: &Vec<(String, DynamicValue)>, name: &String) -> (found: Option<usize>)
    ensures
        match found {
            Some(j) => j < given@.len() && first_index(names_of(named_values_of(given@)), name@)
                == Some(j as int),
            None => first_index(names_of(named_values_of(given@)), name@) is None,
        },
{
    let ghost names = names_of(named_values_of(given@));
    let mut j: usize = 0;
    while j < given.len()
        invariant
            j <= given@.len(),
            names == names_of(named_values_of(given@)),
            forall|k: int| 0 <= k < j ==> names[k] != name@,
        decreases given@.len() - j,
    {
        if given[j].0 == *name {
            proof {
                lemma_first_index_is(names, name@, j as int);
            }
            return Some(j);
        }
        j = j + 1;
    }
    proof {
        lemma_first_index_none(names, name@);
    }
    None
}

/// Encodes the fields of a composite or a variant against the declared ones.
fn encode_fields(registry: &Registry, shape: &FieldRules, fields: &Composite) -> (out: Result<
    Vec<u8>,
    Error,
>)
    ensures
        match out {
            Ok(bytes) => spec_encode_fields(registry.table(), shape@, fields@) == Ok::<
                Seq<u8>,
                Error,
            >(bytes@),
            Err(e) => spec_encode_fields(registry.table(), shape@, fields@) == Err::<
                Seq<u8>,
                Error,
            >(e),
        },
    decreases fields,
{
    match (shape, fields) {
        (FieldRules::Named(declared), Composite::Named(given)) => {
            let ghost decl = shape@->Named_0;
            let ghost giv = named_values_of(given@);
            assert(fields@->Named_0 =~= giv);
            if declared.len() != given.len() {
                return Err(Error::ValueShapeMismatch);
            }
            let mut places: Vec<usize> = Vec::new();
            let mut i: usize = 0;
            while i < declared.len()
                invariant
                    i <= declared@.len(),
                    places@.len() == i,
                    shape@ == FieldShape::Named(decl),
                    fields@ == Fields::Named(giv),
                    decl.len() == declared@.len(),
                    forall|k: int|
                        0 <= k < decl.len() ==> (#[trigger] decl[k]).0 == declared@[k].0@,
                    giv == named_values_of(given@),
                    forall|k: int|
                        0 <= k < i ==> (#[trigger] places@[k]) < given@.len() && first_index(
                            names_of(giv),
                            decl[k].0,
                        ) == Some(places@[k] as int),
                decreases declared@.len() - i,
            {
                match find_given(given, &declared[i].0) {
                    Some(j) => {
                        places.push(j);
                    },
                    None => {
                        assert(first_index(names_of(giv), decl[i as int].0) is None);
                        assert(!all_present(decl, giv));
                        return Err(Error::ValueShapeMismatch);
                    },
                }
                i = i + 1;
            }
            assert forall|k: int| 0 <= k < decl.len() implies first_index(
                names_of(giv),
                (#[trigger] decl[k]).0,
            ) is Some by {
                assert(places@[k] < given@.len());
            }
            assert(all_present(decl, giv));
            let ghost parts = named_parts(registry.table(), decl, giv);
            let mut out: Vec<u8> = Vec::new();
            let mut i: usize = 0;
            while i < declared.len()
                invariant
                    i <= declared@.len(),
                    places@.len() == declared@.len(),
                    declared@.len() == given@.len(),
                    shape@ == FieldShape::Named(decl),
                    fields@ == Fields::Named(giv),
                    all_present(decl, giv),
                    decl.len() == declared@.len(),
                    forall|k: int|
                        0 <= k < decl.len() ==> (#[trigger] decl[k]).0 == declared@[k].0@
                            && decl[k].1 == declared@[k].1 as nat,
                    *fields == Composite::Named(*given),
                    giv == named_values_of(given@),
                    parts == named_parts(registry.table(), decl, giv),
                    forall|k: int|
                        0 <= k < declared@.len() ==> (#[trigger] places@[k]) < given@.len()
                            && first_index(names_of(giv), decl[k].0) == Some(places@[k] as int),
                    collect(parts.take(i as int)) == Ok::<Seq<u8>, Error>(out@),
                decreases declared@.len() - i,
            {
                let place: usize = places[i];
                assert(giv[place as int].1 == given@[place as int].1@);
                match encode_value(registry, declared[i].1, &given[place].1) {
                    Ok(mut bytes) => {
                        proof {
                            assert(parts[i as int] == Ok::<Seq<u8>, Error>(bytes@));
                            lemma_collect_step(parts, i as int);
                        }
                        out.append(&mut bytes);
                    },
                    Err(e) => {
                        proof {
                            assert(parts[i as int] == Err::<Seq<u8>, Error>(e));
                            lemma_collect_error(parts, i as int);
                        }
                        return Err(e);
                    },
                }
                i = i + 1;
            }
            assert(parts.take(i as int) =~= parts);
            Ok(out)
        },
        (FieldRules::Unnamed(types), Composite::Unnamed(items)) => {
            assert(fields@->Unnamed_0 =~= values_of(items@));
            if types.len() != items.len() {
                return Err(Error::ValueShapeMismatch);
            }
            encode_list(registry, ListTypes::Each(types), items)
        },
        _ => Err(Error::ValueShapeMismatch),
    }
}

/// Encodes each item by the rule of the type at its position, and joins the results.
pub(crate) fn encode_list(registry: &Registry, types: ListTypes, items: &Vec<DynamicValue>) -> (out: Result<
    Vec<u8>,
    Error,
>)
    requires
        types.ids(items@.len()).len() == items@.len(),
    ensures
        match out {
            Ok(bytes) => collect(
                list_parts(registry.table(), types.ids(items@.len()), values_of(items@)),
            ) == Ok::<Seq<u8>, Error>(bytes@),
            Err(e) => collect(
                list_parts(registry.table(), types.ids(items@.len()), values_of(items@)),
            ) == Err::<Seq<u8>, Error>(e),
        },
    decreases items,
{
    let ghost parts = list_parts(registry.table(), types.ids(items@.len()), values_of(items@));
    let mut out: Vec<u8> = Vec::new();
    let mut i: usize = 0;
    while i < items.len()
        invariant
            i <= items@.len(),
            types.ids(items@.len()).len() == items@.len(),
            parts == list_parts(registry.table(), types.ids(items@.len()), values_of(items@)),
            collect(parts.take(i as int)) == Ok::<Seq<u8>, Error>(out@),
        decreases items@.len() - i,
    {
        let id: u32 = types.at(i);
        match encode_value(registry, id, &items[i]) {
            Ok(mut bytes) => {
                proof {
                    lemma_collect_step(parts, i as int);
                }
                out.append(&mut bytes);
            },
            Err(e) => {
                proof {
                    lemma_collect_error(parts, i as int);
                }
                return Err(e);
            },
        }
        i = i + 1;
    }
    assert(parts.take(i as int) =~= parts);
    Ok(out)
}

/// Whether an error is one that encoding a value can give.
pub open spec fn is_encode_error(e: Error) -> bool {
    e == Error::UnknownType || e == Error::UnsupportedTypeShape || e == Error::ValueShapeMismatch
}

/// Whether the part at `at` is an error and none before it is.
pub open spec fn first_failure(parts: Seq<Result<Seq<u8>, Error>>, at: int) -> bool {
    0 <= at < parts.len() && parts[at] is Err && forall|j: int| 0 <= j < at ==> parts[j] is Ok
}

/// Parts of which none is an error join without one.
pub proof fn lemma_collect_all_ok(parts: Seq<Result<Seq<u8>, Error>>)
    requires
        forall|i: int| 0 <= i < parts.len() ==> parts[i] is Ok,
    ensures
        collect(parts) is Ok,
    decreases parts.len(),
{
    if parts.len() > 0 {
        let init = parts.drop_last();
        assert forall|i: int| 0 <= i < init.len() implies init[i] is Ok by {
            assert(parts[i] is Ok);
        }
        lemma_collect_all_ok(init);
    }
}

/// The first error among the parts is the error of the joined parts.
pub proof fn lemma_collect_fails_at(parts: Seq<Result<Seq<u8>, Error>>, at: int)
    requires
        first_failure(parts, at),
    ensures
        collect(parts) == Err::<Seq<u8>, Error>(parts[at]->Err_0),
{
    let before = parts.take(at);
    assert forall|i: int| 0 <= i < before.len() implies before[i] is Ok by {
        assert(parts[i] is Ok);
    }
    lemma_collect_all_ok(before);
    lemma_collect_error(parts, at);
}

/// An error of the joined parts is the first error among them.
pub proof fn lemma_collect_failure(parts: Seq<Result<Seq<u8>, Error>>)
    requires
        collect(parts) is Err,
    ensures
        exists|at: int| first_failure(parts, at) && #[trigger] parts[at] == collect(parts),
    decreases parts.len(),
{
    if parts.len() > 0 {
        let init = parts.drop_last();
        if collect(init) is Err {
            lemma_collect_failure(init);
            let at = choose|at: int| first_failure(init, at) && #[trigger] init[at] == collect(init);
            assert forall|j: int| 0 <= j < at implies parts[j] is Ok by {
                assert(init[j] is Ok);
            }
            assert(first_failure(parts, at) && parts[at] == collect(parts));
        } else {
            lemma_collect_ok(init);
            let at = parts.len() - 1;
            assert forall|j: int| 0 <= j < at implies parts[j] is Ok by {
                assert(init[j] is Ok);
            }
            assert(first_failure(parts, at) && parts[at] == collect(parts));
        }
    }
}

/// Encoding a value fails only for want of a type, for want of a rule, or
/// because the value does not have the shape that the rule asks for.
pub proof fn lemma_encode_errors(table: Seq<Slot>, id: nat, value: Value)
    ensures
        spec_encode(table, id, value) matches Err(e) ==> is_encode_error(e),
    decreases value,
{
    match (lookup(table, id), value) {
        (Ok(Rule::Composite(shape)), Value::Composite(fields)) => {
            lemma_fields_errors(table, shape, fields);
        },
        (Ok(Rule::Variant(variants)), Value::Variant(name, fields)) => {
            match first_index(variant_names(variants), name) {
                Some(k) => {
                    lemma_fields_errors(table, variants[k].fields, fields);
                },
                None => {},
            }
        },
        (Ok(Rule::Sequence(element)), Value::Sequence(items)) => {
            lemma_list_errors(table, repeated(element, items.len()), items);
        },
        (Ok(Rule::Array(element, _)), Value::Sequence(items)) => {
            lemma_list_errors(table, repeated(element, items.len()), items);
        },
        _ => {},
    }
}

/// Encoding fields fails only in the ways in which encoding a value fails.
pub proof fn lemma_fields_errors(table: Seq<Slot>, shape: FieldShape, fields: Fields)
    ensures
        spec_encode_fields(table, shape, fields) matches Err(e) ==> is_encode_error(e),
    decreases fields,
{
    match (shape, fields) {
        (FieldShape::Named(declared), Fields::Named(given)) => {
            let parts = named_parts(table, declared, given);
            if collect(parts) is Err {
                lemma_collect_failure(parts);
                let i = choose|i: int| first_failure(parts, i) && #[trigger] parts[i] == collect(parts);
                match first_index(names_of(given), declared[i].0) {
                    Some(j) => {
                        if 0 <= j < given.len() {
                            lemma_encode_errors(table, declared[i].1, given[j].1);
                        }
                    },
                    None => {},
                }
            }
        },
        (FieldShape::Unnamed(types), Fields::Unnamed(items)) => {
            lemma_list_errors(table, types, items);
        },
        _ => {},
    }
}

/// Encoding a list fails only in the ways in which encoding a value fails.
pub proof fn lemma_list_errors(table: Seq<Slot>, types: Seq<nat>, items: Seq<Value>)
    ensures
        collect(list_parts(table, types, items)) matches Err(e) ==> is_encode_error(e),
    decreases items,
{
    let parts = list_parts(table, types, items);
    if collect(parts) is Err {
        lemma_collect_failure(parts);
        let i = choose|i: int| first_failure(parts, i) && #[trigger] parts[i] == collect(parts);
        lemma_encode_errors(table, types[i], items[i]);
    }
}

} // verus!
