//! The decoder: wire bytes become a value tree, by the rule that the registry
//! holds for the type that the bytes are said to be of.

use crate::encode::{declared_types, repeated, ListTypes};
use crate::error::Error;
use crate::names::{first_index, lemma_first_index_is, lemma_first_index_none};
use crate::registry::{
    lookup, FieldRules, FieldShape, Registry, Rule, Slot, TypeRule, VariantRule, VariantShape,
};
use crate::value::{values_of, Composite, DynamicValue, Fields, Value};
use crate::wire::{
    from_twos_complement, is_int_width, le_value, lemma_le_value_bound, read_compact, read_le,
    signed_max, spec_read_compact, unsigned_max,
};
use vstd::prelude::*;
use vstd::slice::{slice_subrange, slice_to_vec};

verus! {

/// The discriminants of the variants, in declared order.
pub open spec fn variant_indices(variants: Seq<VariantShape>) -> Seq<u8> {
    Seq::new(variants.len(), |k: int| variants[k].index)
}

/// How deep the decoder follows nested values unless the caller says otherwise.
pub const MAX_DEPTH: usize = 64;

/// The declared names, each with the value at its position.
pub open spec fn zip_names(declared: Seq<(Seq<char>, nat)>, values: Seq<Value>) -> Seq<
    (Seq<char>, Value),
> {
    Seq::new(declared.len(), |i: int| (declared[i].0, values[i]))
}

/// The number of declared fields of a shape.
pub open spec fn field_count(shape: FieldShape) -> nat {
    match shape {
        FieldShape::Named(declared) => declared.len(),
        FieldShape::Unnamed(types) => types.len(),
    }
}

/// The boolean that `bytes` start with: one byte, 0 or 1.
pub open spec fn spec_decode_bool(bytes: Seq<u8>) -> Result<(Value, nat), Error> {
    if bytes.len() < 1 {
        Err(Error::TruncatedInput)
    } else if bytes[0] == 0 {
        Ok((Value::Bool(false), 1))
    } else if bytes[0] == 1 {
        Ok((Value::Bool(true), 1))
    } else {
        Err(Error::ValueShapeMismatch)
    }
}

/// The unsigned integer that the first `width` bytes spell, least significant first.
pub open spec fn spec_decode_uint(bytes: Seq<u8>, width: nat) -> Result<(Value, nat), Error> {
    if bytes.len() < width {
        Err(Error::TruncatedInput)
    } else {
        Ok((Value::UInt(le_value(bytes.subrange(0, width as int))), width))
    }
}

/// The signed integer that the first `width` bytes spell in two's complement.
pub open spec fn spec_decode_int(bytes: Seq<u8>, width: nat) -> Result<(Value, nat), Error> {
    if bytes.len() < width {
        Err(Error::TruncatedInput)
    } else {
        Ok(
            (
                Value::Int(from_twos_complement(le_value(bytes.subrange(0, width as int)), width)),
                width,
            ),
        )
    }
}

/// The bytes that follow a compact length, as many as the length says.
pub open spec fn spec_decode_bytes(bytes: Seq<u8>) -> Result<(Value, nat), Error> {
    match spec_read_compact(bytes) {
        Err(e) => Err(e),
        Ok((len, used)) => if bytes.len() - used < len {
            Err(Error::TruncatedInput)
        } else {
            Ok((Value::Bytes(bytes.subrange(used as int, (used + len) as int)), used + len))
        },
    }
}

/// The first `len` bytes.
pub open spec fn spec_decode_fixed(bytes: Seq<u8>, len: nat) -> Result<(Value, nat), Error> {
    if bytes.len() < len {
        Err(Error::TruncatedInput)
    } else {
        Ok((Value::Bytes(bytes.subrange(0, len as int)), len))
    }
}

/// The value that `bytes` start with under the rule of the type `id`, and the
/// number of bytes that it takes: exactly those that the rule implies.
///
/// `TruncatedInput` where fewer bytes remain than the rule requires.
/// `ValueShapeMismatch` where the bytes are no encoding under the rule: a
/// boolean that is neither 0 nor 1, a discriminant that no variant declares, a
/// length prefix that is longer than its number needs. `UnsupportedTypeShape`
/// where the value nests deeper than `depth` levels.
pub open spec fn spec_decode(table: Seq<Slot>, id: nat, bytes: Seq<u8>, depth: nat) -> Result<
    (Value, nat),
    Error,
>
    decreases depth, 0nat,
{
    if depth == 0 {
        Err(Error::UnsupportedTypeShape)
    } else {
        match lookup(table, id) {
            Err(e) => Err(e),
            Ok(Rule::Bool) => spec_decode_bool(bytes),
            Ok(Rule::UInt(width)) => spec_decode_uint(bytes, width),
            Ok(Rule::Int(width)) => spec_decode_int(bytes, width),
            Ok(Rule::Bytes) => spec_decode_bytes(bytes),
            Ok(Rule::FixedBytes(len)) => spec_decode_fixed(bytes, len),
            Ok(Rule::Composite(shape)) => match spec_decode_fields(
                table,
                shape,
                bytes,
                (depth - 1) as nat,
            ) {
                Err(e) => Err(e),
                Ok((fields, used)) => Ok((Value::Composite(fields), used)),
            },
            Ok(Rule::Variant(variants)) => if bytes.len() < 1 {
                Err(Error::TruncatedInput)
            } else {
                match first_index(variant_indices(variants), bytes[0]) {
                    None => Err(Error::ValueShapeMismatch),
                    Some(k) => match spec_decode_fields(
                        table,
                        variants[k].fields,
                        bytes.skip(1),
                        (depth - 1) as nat,
                    ) {
                        Err(e) => Err(e),
                        Ok((fields, used)) => Ok((Value::Variant(variants[k].name, fields), 1 + used)),
                    },
                }
            },
            Ok(Rule::Sequence(element)) => match spec_read_compact(bytes) {
                Err(e) => Err(e),
                Ok((count, used)) => match spec_decode_list(
                    table,
                    repeated(element, count),
                    bytes.skip(used as int),
                    count,
                    (depth - 1) as nat,
                ) {
                    Err(e) => Err(e),
                    Ok((items, more)) => Ok((Value::Sequence(items), used + more)),
                },
            },
            Ok(Rule::Array(element, len)) => match spec_decode_list(
                table,
                repeated(element, len),
                bytes,
                len,
                (depth - 1) as nat,
            ) {
                Err(e) => Err(e),
                Ok((items, used)) => Ok((Value::Sequence(items), used)),
            },
        }
    }
}

/// The fields that `bytes` start with, one after the other in declared order,
/// and the number of bytes that they take together.
pub open spec fn spec_decode_fields(
    table: Seq<Slot>,
    shape: FieldShape,
    bytes: Seq<u8>,
    depth: nat,
) -> Result<(Fields, nat), Error>
    decreases depth, field_count(shape) + 1,
{
    match shape {
        FieldShape::Named(declared) => match spec_decode_list(
            table,
            declared_types(declared),
            bytes,
            declared.len(),
            depth,
        ) {
            Err(e) => Err(e),
            Ok((values, used)) => Ok((Fields::Named(zip_names(declared, values)), used)),
        },
        FieldShape::Unnamed(types) => match spec_decode_list(table, types, bytes, types.len(), depth) {
            Err(e) => Err(e),
            Ok((values, used)) => Ok((Fields::Unnamed(values), used)),
        },
    }
}

/// The first `upto` items that `bytes` start with, each by the rule of the type
/// at its position and each starting where the one before it ended, and the
/// number of bytes that they take together.
pub open spec fn spec_decode_list(
    table: Seq<Slot>,
    types: Seq<nat>,
    bytes: Seq<u8>,
    upto: nat,
    depth: nat,
) -> Result<(Seq<Value>, nat), Error>
    decreases depth, upto,
{
    if upto == 0 {
        Ok((Seq::empty(), 0))
    } else {
        match spec_decode_list(table, types, bytes, (upto - 1) as nat, depth) {
            Err(e) => Err(e),
            Ok((values, used)) => match spec_decode(
                table,
                types[upto - 1],
                bytes.skip(used as int),
                depth,
            ) {
                Err(e) => Err(e),
                Ok((value, more)) => Ok((values.push(value), used + more)),
            },
        }
    }
}

/// An error among the first items is the error of the whole list.
pub proof fn lemma_decode_list_error(
    table: Seq<Slot>,
    types: Seq<nat>,
    bytes: Seq<u8>,
    at: nat,
    upto: nat,
    depth: nat,
)
    requires
        at <= upto,
        spec_decode_list(table, types, bytes, at, depth) is Err,
    ensures
        spec_decode_list(table, types, bytes, upto, depth) == spec_decode_list(
            table,
            types,
            bytes,
            at,
            depth,
        ),
    decreases upto,
{
    if at < upto {
        lemma_decode_list_error(table, types, bytes, at, (upto - 1) as nat, depth);
    }
}

/// Looks a variant up by its discriminant; the first with that discriminant is the one found.
fn find_discriminant(variants: &Vec<VariantRule>, index: u8) -> (found: Option<usize>)
    ensures
        match found {
            Some(k) => k < variants@.len() && first_index(
                variant_indices(Seq::new(variants@.len(), |i: int| variants@[i]@)),
                index,
            ) == Some(k as int),
            None => first_index(
                variant_indices(Seq::new(variants@.len(), |i: int| variants@[i]@)),
                index,
            ) is None,
        },
{
    let ghost indices = variant_indices(Seq::new(variants@.len(), |i: int| variants@[i]@));
    let mut k: usize = 0;
    while k < variants.len()
        invariant
            k <= variants@.len(),
            indices == variant_indices(Seq::new(variants@.len(), |i: int| variants@[i]@)),
            forall|j: int| 0 <= j < k ==> indices[j] != index,
        decreases variants@.len() - k,
    {
        if variants[k].index == index {
            proof {
                lemma_first_index_is(indices, index, k as int);
            }
            return Some(k);
        }
        k = k + 1;
    }
    proof {
        lemma_first_index_none(indices, index);
    }
    None
}

/// Decodes the boolean that starts at `start`.
fn decode_bool(bytes: &[u8], start: usize) -> (out: Result<(DynamicValue, usize), Error>)
    requires
        start <= bytes.len(),
    ensures
        match out {
            Ok((value, used)) => start + used <= bytes.len() && spec_decode_bool(
                bytes@.skip(start as int),
            ) == Ok::<(Value, nat), Error>((value@, used as nat)),
            Err(e) => spec_decode_bool(bytes@.skip(start as int)) == Err::<(Value, nat), Error>(e),
        },
{
    if bytes.len() - start < 1 {
        return Err(Error::TruncatedInput);
    }
    let byte: u8 = bytes[start];
    assert(bytes@.skip(start as int)[0] == byte);
    if byte == 0 {
        Ok((DynamicValue::Bool(false), 1))
    } else if byte == 1 {
        Ok((DynamicValue::Bool(true), 1))
    } else {
        Err(Error::ValueShapeMismatch)
    }
}

/// Decodes the unsigned integer of `width` bytes that starts at `start`.
fn decode_uint(bytes: &[u8], start: usize, width: u8) -> (out: Result<
    (DynamicValue, usize),
    Error,
>)
    requires
        start <= bytes.len(),
        is_int_width(width as nat),
    ensures
        match out {
            Ok((value, used)) => start + used <= bytes.len() && spec_decode_uint(
                bytes@.skip(start as int),
                width as nat,
            ) == Ok::<(Value, nat), Error>((value@, used as nat)),
            Err(e) => spec_decode_uint(bytes@.skip(start as int), width as nat) == Err::<
                (Value, nat),
                Error,
            >(e),
        },
{
    if bytes.len() - start < width as usize {
        return Err(Error::TruncatedInput);
    }
    let raw: u128 = read_le(bytes, start, width);
    assert(bytes@.skip(start as int).subrange(0, width as int) =~= bytes@.subrange(
        start as int,
        start + width,
    ));
    Ok((DynamicValue::UInt(raw), width as usize))
}

/// Decodes the signed integer of `width` bytes that starts at `start`.
fn decode_int(bytes: &[u8], start: usize, width: u8) -> (out: Result<(DynamicValue, usize), Error>)
    requires
        start <= bytes.len(),
        is_int_width(width as nat),
    ensures
        match out {
            Ok((value, used)) => start + used <= bytes.len() && spec_decode_int(
                bytes@.skip(start as int),
                width as nat,
            ) == Ok::<(Value, nat), Error>((value@, used as nat)),
            Err(e) => spec_decode_int(bytes@.skip(start as int), width as nat) == Err::<
                (Value, nat),
                Error,
            >(e),
        },
{
    if bytes.len() - start < width as usize {
        return Err(Error::TruncatedInput);
    }
    let raw: u128 = read_le(bytes, start, width);
    let ghost spelled = bytes@.skip(start as int).subrange(0, width as int);
    proof {
        assert(spelled =~= bytes@.subrange(start as int, start + width));
        lemma_le_value_bound(spelled);
    }
    let max: u128 = signed_max(width);
    let all: u128 = unsigned_max(width);
    if raw <= max {
        Ok((DynamicValue::Int(raw as i128), width as usize))
    } else {
        let below: u128 = all - raw;
        Ok((DynamicValue::Int(-(below as i128) - 1), width as usize))
    }
}

/// Decodes the length-prefixed bytes that start at `start`.
fn decode_bytes(bytes: &[u8], start: usize) -> (out: Result<(DynamicValue, usize), Error>)
    requires
        start <= bytes.len(),
    ensures
        match out {
            Ok((value, used)) => start + used <= bytes.len() && spec_decode_bytes(
                bytes@.skip(start as int),
            ) == Ok::<(Value, nat), Error>((value@, used as nat)),
            Err(e) => spec_decode_bytes(bytes@.skip(start as int)) == Err::<(Value, nat), Error>(
                e,
            ),
        },
{
    let (len, used) = match read_compact(bytes, start) {
        Ok(found) => found,
        Err(e) => {
            return Err(e);
        },
    };
    if bytes.len() - start - used < len as usize {
        return Err(Error::TruncatedInput);
    }
    let from: usize = start + used;
    let content = slice_to_vec(slice_subrange(bytes, from, from + len as usize));
    assert(content@ =~= bytes@.skip(start as int).subrange(used as int, used + len));
    Ok((DynamicValue::Bytes(content), used + len as usize))
}

/// Decodes the `len` bytes that start at `start`.
fn decode_fixed(bytes: &[u8], start: usize, len: u32) -> (out: Result<
    (DynamicValue, usize),
    Error,
>)
    requires
        start <= bytes.len(),
    ensures
        match out {
            Ok((value, used)) => start + used <= bytes.len() && spec_decode_fixed(
                bytes@.skip(start as int),
                len as nat,
            ) == Ok::<(Value, nat), Error>((value@, used as nat)),
            Err(e) => spec_decode_fixed(bytes@.skip(start as int), len as nat) == Err::<
                (Value, nat),
                Error,
            >(e),
        },
{
    if bytes.len() - start < len as usize {
        return Err(Error::TruncatedInput);
    }
    let content = slice_to_vec(slice_subrange(bytes, start, start + len as usize));
    assert(content@ =~= bytes@.skip(start as int).subrange(0, len as int));
    Ok((DynamicValue::Bytes(content), len as usize))
}

/// Decodes the value that starts at `start`, following nested values `depth` levels deep.
fn decode_at(registry: &Registry, id: u32, bytes: &[u8], start: usize, depth: usize) -> (out:
    Result<(DynamicValue, usize), Error>)
    requires
        start <= bytes.len(),
    ensures
        match out {
            Ok((value, used)) => start + used <= bytes.len() && spec_decode(
                registry.table(),
                id as nat,
                bytes@.skip(start as int),
                depth as nat,
            ) == Ok::<(Value, nat), Error>((value@, used as nat)),
            Err(e) => spec_decode(
                registry.table(),
                id as nat,
                bytes@.skip(start as int),
                depth as nat,
            ) == Err::<(Value, nat), Error>(e),
        },
    decreases depth, 0nat,
{
    if depth == 0 {
        return Err(Error::UnsupportedTypeShape);
    }
    let rule = match registry.resolve(id) {
        Ok(rule) => rule,
        Err(e) => {
            return Err(e);
        },
    };
    let ghost ahead = bytes@.skip(start as int);
    let left: usize = bytes.len() - start;
    match rule {
        TypeRule::Bool => decode_bool(bytes, start),
        TypeRule::UInt { width } => decode_uint(bytes, start, *width),
        TypeRule::Int { width } => decode_int(bytes, start, *width),
        TypeRule::Bytes => decode_bytes(bytes, start),
        TypeRule::FixedBytes { len } => decode_fixed(bytes, start, *len),
        TypeRule::Composite { fields } => {
            match decode_fields(registry, fields, bytes, start, depth - 1) {
                Ok((made, used)) => Ok((DynamicValue::Composite(made), used)),
                Err(e) => Err(e),
            }
        },
        TypeRule::Variant { variants } => {
            if left < 1 {
                return Err(Error::TruncatedInput);
            }
            let byte: u8 = bytes[start];
            assert(ahead[0] == byte);
            match find_discriminant(variants, byte) {
                None => Err(Error::ValueShapeMismatch),
                Some(k) => {
                    assert(ahead.skip(1) =~= bytes@.skip(start + 1));
                    match decode_fields(registry, &variants[k].fields, bytes, start + 1, depth - 1) {
                        Ok((made, used)) => Ok(
                            (DynamicValue::Variant(variants[k].name.clone(), made), 1 + used),
                        ),
                        Err(e) => Err(e),
                    }
                },
            }
        },
        TypeRule::Sequence { element } => {
            let (count, used) = match read_compact(bytes, start) {
                Ok(found) => found,
                Err(e) => {
                    return Err(e);
                },
            };
            assert(ahead.skip(used as int) =~= bytes@.skip(start + used));
            match decode_list(
                registry,
                ListTypes::Same(*element),
                count as usize,
                bytes,
                start + used,
                depth - 1,
            ) {
                Ok((items, more)) => {
                    let value = DynamicValue::Sequence(items);
                    assert(value@->Sequence_0 =~= values_of(items@));
                    Ok((value, used + more))
                },
                Err(e) => Err(e),
            }
        },
        TypeRule::Array { element, len } => {
            match decode_list(
                registry,
                ListTypes::Same(*element),
                *len as usize,
                bytes,
                start,
                depth - 1,
            ) {
                Ok((items, used)) => {
                    let value = DynamicValue::Sequence(items);
                    assert(value@->Sequence_0 =~= values_of(items@));
                    Ok((value, used))
                },
                Err(e) => Err(e),
            }
        },
    }
}

/// Decodes the fields that start at `start`, one after the other in declared order.
fn decode_fields(
    registry: &Registry,
    shape: &FieldRules,
    bytes: &[u8],
    start: usize,
    depth: usize,
) -> (out: Result<(Composite, usize), Error>)
    requires
        start <= bytes.len(),
    ensures
        match out {
            Ok((fields, used)) => start + used <= bytes.len() && spec_decode_fields(
                registry.table(),
                shape@,
                bytes@.skip(start as int),
                depth as nat,
            ) == Ok::<(Fields, nat), Error>((fields@, used as nat)),
            Err(e) => spec_decode_fields(
                registry.table(),
                shape@,
                bytes@.skip(start as int),
                depth as nat,
            ) == Err::<(Fields, nat), Error>(e),
        },
    decreases depth, 2nat,
{
    match shape {
        FieldRules::Named(declared) => {
            let ghost decl = shape@->Named_0;
            let ghost types = declared_types(decl);
            let ghost ahead = bytes@.skip(start as int);
            let ghost table = registry.table();
            let mut made: Vec<(String, DynamicValue)> = Vec::new();
            let mut used: usize = 0;
            let ghost mut values: Seq<Value> = Seq::empty();
            let mut i: usize = 0;
            while i < declared.len()
                invariant
                    i <= declared@.len(),
                    start + used <= bytes.len(),
                    shape@ == FieldShape::Named(decl),
                    decl.len() == declared@.len(),
                    forall|k: int|
                        0 <= k < decl.len() ==> (#[trigger] decl[k]).0 == declared@[k].0@
                            && decl[k].1 == declared@[k].1 as nat,
                    types == declared_types(decl),
                    ahead == bytes@.skip(start as int),
                    table == registry.table(),
                    made@.len() == i,
                    values.len() == i,
                    forall|k: int|
                        0 <= k < i ==> (#[trigger] made@[k]).0@ == decl[k].0 && made@[k].1@
                            == values[k],
                    spec_decode_list(table, types, ahead, i as nat, depth as nat) == Ok::<
                        (Seq<Value>, nat),
                        Error,
                    >((values, used as nat)),
                decreases declared@.len() - i,
            {
                assert(ahead.skip(used as int) =~= bytes@.skip(start + used));
                match decode_at(registry, declared[i].1, bytes, start + used, depth) {
                    Ok((value, more)) => {
                        proof {
                            values = values.push(value@);
                        }
                        made.push((declared[i].0.clone(), value));
                        used = used + more;
                    },
                    Err(e) => {
                        proof {
                            lemma_decode_list_error(
                                table,
                                types,
                                ahead,
                                (i + 1) as nat,
                                decl.len(),
                                depth as nat,
                            );
                        }
                        return Err(e);
                    },
                }
                i = i + 1;
            }
            let fields = Composite::Named(made);
            assert(fields@->Named_0 =~= zip_names(decl, values));
            Ok((fields, used))
        },
        FieldRules::Unnamed(types) => {
            match decode_list(registry, ListTypes::Each(types), types.len(), bytes, start, depth) {
                Ok((items, used)) => {
                    let fields = Composite::Unnamed(items);
                    assert(fields@->Unnamed_0 =~= values_of(items@));
                    Ok((fields, used))
                },
                Err(e) => Err(e),
            }
        },
    }
}

/// Decodes `count` items that start at `start`, each by the rule of the type at
/// its position and each starting where the one before it ended.
fn decode_list(
    registry: &Registry,
    types: ListTypes,
    count: usize,
    bytes: &[u8],
    start: usize,
    depth: usize,
) -> (out: Result<(Vec<DynamicValue>, usize), Error>)
    requires
        start <= bytes.len(),
        types.ids(count as nat).len() == count,
    ensures
        match out {
            Ok((items, used)) => start + used <= bytes.len() && spec_decode_list(
                registry.table(),
                types.ids(count as nat),
                bytes@.skip(start as int),
                count as nat,
                depth as nat,
            ) == Ok::<(Seq<Value>, nat), Error>((values_of(items@), used as nat)),
            Err(e) => spec_decode_list(
                registry.table(),
                types.ids(count as nat),
                bytes@.skip(start as int),
                count as nat,
                depth as nat,
            ) == Err::<(Seq<Value>, nat), Error>(e),
        },
    decreases depth, 1nat,
{
    let ghost ids = types.ids(count as nat);
    let ghost ahead = bytes@.skip(start as int);
    let ghost table = registry.table();
    let mut items: Vec<DynamicValue> = Vec::new();
    let mut used: usize = 0;
    let mut i: usize = 0;
    assert(values_of(items@) =~= Seq::<Value>::empty());
    while i < count
        invariant
            i <= count,
            start + used <= bytes.len(),
            ids == types.ids(count as nat),
            ids.len() == count,
            ahead == bytes@.skip(start as int),
            table == registry.table(),
            spec_decode_list(table, ids, ahead, i as nat, depth as nat) == Ok::<
                (Seq<Value>, nat),
                Error,
            >((values_of(items@), used as nat)),
        decreases count - i,
    {
        let id: u32 = types.at(i);
        assert(ahead.skip(used as int) =~= bytes@.skip(start + used));
        match decode_at(registry, id, bytes, start + used, depth) {
            Ok((value, more)) => {
                assert(values_of(items@.push(value)) =~= values_of(items@).push(value@));
                items.push(value);
                used = used + more;
            },
            Err(e) => {
                proof {
                    lemma_decode_list_error(
                        table,
                        ids,
                        ahead,
                        (i + 1) as nat,
                        count as nat,
                        depth as nat,
                    );
                }
                return Err(e);
            },
        }
        i = i + 1;
    }
    Ok((items, used))
}

/// Decodes the value that `bytes` start with, and says how many bytes it took.
pub fn decode_value(registry: &Registry, id: u32, bytes: &[u8], depth: usize) -> (out: Result<
    (DynamicValue, usize),
    Error,
>)
    ensures
        match out {
            Ok((value, used)) => used <= bytes@.len() && spec_decode(
                registry.table(),
                id as nat,
                bytes@,
                depth as nat,
            ) == Ok::<(Value, nat), Error>((value@, used as nat)),
            Err(e) => spec_decode(registry.table(), id as nat, bytes@, depth as nat) == Err::<
                (Value, nat),
                Error,
            >(e),
        },
{
    assert(bytes@.skip(0) =~= bytes@);
    decode_at(registry, id, bytes, 0, depth)
}

/// What decoding gives where the caller expects the value to take all the bytes.
pub open spec fn spec_decode_exact(table: Seq<Slot>, id: nat, bytes: Seq<u8>, depth: nat) -> Result<
    Value,
    Error,
> {
    match spec_decode(table, id, bytes, depth) {
        Err(e) => Err(e),
        Ok((value, used)) => if used == bytes.len() {
            Ok(value)
        } else {
            Err(Error::TrailingBytes)
        },
    }
}

/// Decodes the value that `bytes` are; `TrailingBytes` where the value ends before they do.
pub fn decode_exact(registry: &Registry, id: u32, bytes: &[u8], depth: usize) -> (out: Result<
    DynamicValue,
    Error,
>)
    ensures
        match out {
            Ok(value) => spec_decode_exact(registry.table(), id as nat, bytes@, depth as nat)
                == Ok::<Value, Error>(value@),
            Err(e) => spec_decode_exact(registry.table(), id as nat, bytes@, depth as nat)
                == Err::<Value, Error>(e),
        },
{
    match decode_value(registry, id, bytes, depth) {
        Ok((value, used)) => if used == bytes.len() {
            Ok(value)
        } else {
            Err(Error::TrailingBytes)
        },
        Err(e) => Err(e),
    }
}

} // verus!
