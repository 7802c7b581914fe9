//! Decoding and encoding invert each other. The value that was encoded is the
//! value that comes back, for every value that is written the way the decoder
//! writes it; and the bytes that were decoded are the bytes that come back,
//! wherever the declared names can be told apart.

use crate::decode::{
    spec_decode, spec_decode_fields, spec_decode_list, variant_indices, zip_names,
};
use crate::encode::{
    all_present, collect, declared_types, lemma_collect_ok, lemma_collect_step, list_parts,
    named_parts, repeated, spec_encode, spec_encode_fields, variant_names,
};
use crate::error::Error;
use crate::names::{first_index, lemma_first_index, lemma_first_index_is};
use crate::registry::{lookup, rule_wf, FieldShape, Rule, Slot};
use crate::value::{fields_within_depth, names_of, within_depth, Fields, Value};
use crate::wire::{
    compact_bytes, le_value, lemma_compact_is_canonical, lemma_compact_round_trip,
    lemma_from_twos_complement, lemma_le_bytes_len, lemma_le_bytes_of_value, lemma_le_round_trip,
    lemma_le_value_bound, lemma_pow256_values, lemma_twos_complement_round_trip,
    spec_read_compact, twos_complement,
};
use vstd::prelude::*;

verus! {

/// Whether `value` is written the way the decoder writes a value of the type
/// `id`: named fields stand in declared order, each under a name that no
/// earlier field has, and the discriminant of a variant belongs to no variant
/// that is declared before it.
pub open spec fn is_canonical(table: Seq<Slot>, id: nat, value: Value) -> bool
    decreases value,
{
    match (lookup(table, id), value) {
        (Ok(Rule::Composite(shape)), Value::Composite(fields)) => fields_canonical(
            table,
            shape,
            fields,
        ),
        (Ok(Rule::Variant(variants)), Value::Variant(name, fields)) => match first_index(
            variant_names(variants),
            name,
        ) {
            Some(k) => 0 <= k < variants.len() ==> first_index(
                variant_indices(variants),
                variants[k].index,
            ) == Some(k) && fields_canonical(table, variants[k].fields, fields),
            None => true,
        },
        (Ok(Rule::Sequence(element)), Value::Sequence(items)) => forall|i: int|
            0 <= i < items.len() ==> is_canonical(table, element, #[trigger] items[i]),
        (Ok(Rule::Array(element, _)), Value::Sequence(items)) => forall|i: int|
            0 <= i < items.len() ==> is_canonical(table, element, #[trigger] items[i]),
        _ => true,
    }
}

/// Whether the fields are written the way the decoder writes them.
pub open spec fn fields_canonical(table: Seq<Slot>, shape: FieldShape, fields: Fields) -> bool
    decreases fields,
{
    match (shape, fields) {
        (FieldShape::Named(declared), Fields::Named(given)) => declared.len() == given.len()
            ==> forall|i: int|
            0 <= i < given.len() ==> first_index(names_of(given), declared[i].0) == Some(i)
                && is_canonical(table, declared[i].1, (#[trigger] given[i]).1),
        (FieldShape::Unnamed(types), Fields::Unnamed(items)) => types.len() == items.len()
            ==> forall|i: int|
            0 <= i < items.len() ==> is_canonical(table, types[i], #[trigger] items[i]),
        _ => true,
    }
}

/// Decoding inverts encoding. Where `value` encodes under the rule of the type
/// `id`, is written the way the decoder writes values, and nests no deeper than
/// `depth` levels, decoding its bytes gives `value` back and takes exactly those
/// bytes, whatever follows them.
pub proof fn lemma_decode_inverts_encode(
    table: Seq<Slot>,
    id: nat,
    value: Value,
    rest: Seq<u8>,
    depth: nat,
)
    requires
        spec_encode(table, id, value) is Ok,
        is_canonical(table, id, value),
        within_depth(value, depth),
    ensures
        spec_decode(table, id, spec_encode(table, id, value)->Ok_0 + rest, depth) == Ok::<
            (Value, nat),
            Error,
        >((value, spec_encode(table, id, value)->Ok_0.len())),
    decreases depth, 0nat, 1nat,
{
    match value {
        Value::Composite(_) => lemma_nested_round_trip(table, id, value, rest, depth),
        Value::Variant(_, _) => lemma_nested_round_trip(table, id, value, rest, depth),
        Value::Sequence(_) => lemma_sequence_round_trip(table, id, value, rest, depth),
        _ => lemma_leaf_round_trip(table, id, value, rest, depth),
    }
}

proof fn lemma_leaf_round_trip(
    table: Seq<Slot>,
    id: nat,
    value: Value,
    rest: Seq<u8>,
    depth: nat,
)
    requires
        spec_encode(table, id, value) is Ok,
        depth > 0,
        value is Bool || value is UInt || value is Int || value is Bytes,
    ensures
        spec_decode(table, id, spec_encode(table, id, value)->Ok_0 + rest, depth) == Ok::<
            (Value, nat),
            Error,
        >((value, spec_encode(table, id, value)->Ok_0.len())),
{
    let encoded = spec_encode(table, id, value)->Ok_0;
    let all = encoded + rest;
    let rule = lookup(table, id)->Ok_0;
    match (rule, value) {
        (Rule::Bool, Value::Bool(b)) => {
            assert(all[0] == encoded[0]);
        },
        (Rule::UInt(width), Value::UInt(n)) => {
            lemma_le_bytes_len(n, width);
            lemma_le_round_trip(n, width);
            assert(all.subrange(0, width as int) =~= encoded);
        },
        (Rule::Int(width), Value::Int(i)) => {
            lemma_pow256_values();
            lemma_twos_complement_round_trip(i, width);
            let n = twos_complement(i, width);
            lemma_le_bytes_len(n, width);
            lemma_le_round_trip(n, width);
            assert(all.subrange(0, width as int) =~= encoded);
        },
        (Rule::Bytes, Value::Bytes(bytes)) => {
            let prefix = compact_bytes(bytes.len());
            lemma_compact_round_trip(bytes.len(), bytes + rest);
            assert(all =~= prefix + (bytes + rest));
            assert(all.subrange(prefix.len() as int, (prefix.len() + bytes.len()) as int)
                =~= bytes);
        },
        (Rule::FixedBytes(len), Value::Bytes(bytes)) => {
            assert(all.subrange(0, len as int) =~= bytes);
        },
        _ => {},
    }
}

proof fn lemma_nested_round_trip(
    table: Seq<Slot>,
    id: nat,
    value: Value,
    rest: Seq<u8>,
    depth: nat,
)
    requires
        spec_encode(table, id, value) is Ok,
        is_canonical(table, id, value),
        within_depth(value, depth),
        value is Composite || value is Variant,
    ensures
        spec_decode(table, id, spec_encode(table, id, value)->Ok_0 + rest, depth) == Ok::<
            (Value, nat),
            Error,
        >((value, spec_encode(table, id, value)->Ok_0.len())),
    decreases depth, 0nat, 0nat,
{
    let encoded = spec_encode(table, id, value)->Ok_0;
    let all = encoded + rest;
    let rule = lookup(table, id)->Ok_0;
    match (rule, value) {
        (Rule::Composite(shape), Value::Composite(fields)) => {
            lemma_fields_round_trip(table, shape, fields, rest, (depth - 1) as nat);
        },
        (Rule::Variant(variants), Value::Variant(name, fields)) => {
            let k = first_index(variant_names(variants), name)->Some_0;
            lemma_first_index(variant_names(variants), name);
            let inner = spec_encode_fields(table, variants[k].fields, fields)->Ok_0;
            lemma_fields_round_trip(table, variants[k].fields, fields, rest, (depth - 1) as nat);
            assert(all[0] == variants[k].index);
            assert(all.skip(1) =~= inner + rest);
        },
        _ => {},
    }
}

proof fn lemma_sequence_round_trip(
    table: Seq<Slot>,
    id: nat,
    value: Value,
    rest: Seq<u8>,
    depth: nat,
)
    requires
        spec_encode(table, id, value) is Ok,
        is_canonical(table, id, value),
        within_depth(value, depth),
        value is Sequence,
    ensures
        spec_decode(table, id, spec_encode(table, id, value)->Ok_0 + rest, depth) == Ok::<
            (Value, nat),
            Error,
        >((value, spec_encode(table, id, value)->Ok_0.len())),
    decreases depth, 0nat, 0nat,
{
    let encoded = spec_encode(table, id, value)->Ok_0;
    let all = encoded + rest;
    let rule = lookup(table, id)->Ok_0;
    let items = value->Sequence_0;
    match rule {
        Rule::Sequence(element) => {
            let types = repeated(element, items.len());
            let parts = list_parts(table, types, items);
            let body = collect(parts)->Ok_0;
            let prefix = compact_bytes(items.len());
            lemma_collect_ok(parts);
            lemma_list_round_trip(table, types, items, items.len(), rest, (depth - 1) as nat);
            lemma_compact_round_trip(items.len(), body + rest);
            assert(parts.take(items.len() as int) =~= parts);
            assert(items.take(items.len() as int) =~= items);
            assert(all =~= prefix + (body + rest));
            assert(all.skip(prefix.len() as int) =~= body + rest);
        },
        Rule::Array(element, len) => {
            let types = repeated(element, items.len());
            let parts = list_parts(table, types, items);
            lemma_collect_ok(parts);
            lemma_list_round_trip(table, types, items, items.len(), rest, (depth - 1) as nat);
            assert(parts.take(items.len() as int) =~= parts);
            assert(items.take(items.len() as int) =~= items);
        },
        _ => {},
    }
}

/// Decoding inverts encoding for the fields of a composite or a variant.
pub proof fn lemma_fields_round_trip(
    table: Seq<Slot>,
    shape: FieldShape,
    fields: Fields,
    rest: Seq<u8>,
    depth: nat,
)
    requires
        spec_encode_fields(table, shape, fields) is Ok,
        fields_canonical(table, shape, fields),
        fields_within_depth(fields, depth),
    ensures
        spec_decode_fields(
            table,
            shape,
            spec_encode_fields(table, shape, fields)->Ok_0 + rest,
            depth,
        ) == Ok::<(Fields, nat), Error>(
            (fields, spec_encode_fields(table, shape, fields)->Ok_0.len()),
        ),
    decreases depth, 2nat, 0nat,
{
    match (shape, fields) {
        (FieldShape::Named(declared), Fields::Named(given)) => {
            let types = declared_types(declared);
            let values = Seq::new(given.len(), |i: int| given[i].1);
            let parts = list_parts(table, types, values);
            assert forall|i: int| 0 <= i < given.len() implies names_of(given)[i]
                == declared[i].0 by {
                assert(is_canonical(table, declared[i].1, given[i].1));
                lemma_first_index(names_of(given), declared[i].0);
            }
            assert(named_parts(table, declared, given) =~= parts) by {
                assert forall|i: int| 0 <= i < declared.len() implies named_parts(
                    table,
                    declared,
                    given,
                )[i] == parts[i] by {
                    assert(is_canonical(table, declared[i].1, given[i].1));
                }
            }
            lemma_collect_ok(parts);
            assert forall|i: int| 0 <= i < values.len() implies is_canonical(
                table,
                types[i],
                values[i],
            ) && within_depth(values[i], depth) by {
                assert(is_canonical(table, declared[i].1, given[i].1));
                assert(within_depth(given[i].1, depth));
            }
            lemma_list_round_trip(table, types, values, values.len(), rest, depth);
            assert(parts.take(values.len() as int) =~= parts);
            assert(values.take(values.len() as int) =~= values);
            assert forall|i: int| 0 <= i < given.len() implies zip_names(declared, values)[i]
                == given[i] by {
                assert(names_of(given)[i] == declared[i].0);
            }
            assert(zip_names(declared, values) =~= given);
        },
        (FieldShape::Unnamed(types), Fields::Unnamed(items)) => {
            let parts = list_parts(table, types, items);
            lemma_collect_ok(parts);
            lemma_list_round_trip(table, types, items, items.len(), rest, depth);
            assert(parts.take(items.len() as int) =~= parts);
            assert(items.take(items.len() as int) =~= items);
        },
        _ => {},
    }
}

/// Decoding inverts encoding for the first `upto` items of a list.
pub proof fn lemma_list_round_trip(
    table: Seq<Slot>,
    types: Seq<nat>,
    items: Seq<Value>,
    upto: nat,
    rest: Seq<u8>,
    depth: nat,
)
    requires
        upto <= items.len(),
        types.len() == items.len(),
        forall|i: int|
            0 <= i < upto ==> (#[trigger] list_parts(table, types, items)[i]) is Ok,
        forall|i: int|
            0 <= i < upto ==> is_canonical(table, types[i], #[trigger] items[i]) && within_depth(
                items[i],
                depth,
            ),
    ensures
        collect(list_parts(table, types, items).take(upto as int)) is Ok,
        spec_decode_list(
            table,
            types,
            collect(list_parts(table, types, items).take(upto as int))->Ok_0 + rest,
            upto,
            depth,
        ) == Ok::<(Seq<Value>, nat), Error>(
            (
                items.take(upto as int),
                collect(list_parts(table, types, items).take(upto as int))->Ok_0.len(),
            ),
        ),
    decreases depth, 1nat, upto,
{
    let parts = list_parts(table, types, items);
    if upto == 0 {
        assert(parts.take(0) =~= Seq::<Result<Seq<u8>, Error>>::empty());
        assert(items.take(0) =~= Seq::<Value>::empty());
    } else {
        let last = upto - 1;
        assert(parts[last] is Ok);
        let part = parts[last]->Ok_0;
        lemma_list_round_trip(table, types, items, last as nat, part + rest, depth);
        let head = collect(parts.take(last))->Ok_0;
        lemma_collect_step(parts, last);
        let joined = collect(parts.take(upto as int))->Ok_0;
        assert(joined == head + part);
        assert(joined + rest =~= head + (part + rest));
        assert((joined + rest).skip(head.len() as int) =~= part + rest);
        assert(is_canonical(table, types[last], items[last]));
        lemma_decode_inverts_encode(table, types[last], items[last], rest, depth);
        assert(items.take(upto as int) =~= items.take(last).push(items[last]));
    }
}

/// Whether no two of the names are the same.
pub open spec fn all_distinct(names: Seq<Seq<char>>) -> bool {
    forall|i: int| 0 <= i < names.len() ==> first_index(names, #[trigger] names[i]) == Some(i)
}

/// Whether the names of declared fields can be told apart.
pub open spec fn shape_unambiguous(shape: FieldShape) -> bool {
    match shape {
        FieldShape::Named(declared) => all_distinct(Seq::new(declared.len(), |i: int| declared[i].0)),
        FieldShape::Unnamed(_) => true,
    }
}

/// Whether a rule tells its parts apart by name: no two variants have the same
/// name, and no two named fields of the same composite or variant have.
pub open spec fn rule_unambiguous(rule: Rule) -> bool {
    match rule {
        Rule::Composite(shape) => shape_unambiguous(shape),
        Rule::Variant(variants) => all_distinct(variant_names(variants)) && forall|k: int|
            0 <= k < variants.len() ==> shape_unambiguous((#[trigger] variants[k]).fields),
        _ => true,
    }
}

/// Whether every rule of the table is well formed and tells its parts apart by name.
pub open spec fn table_unambiguous(table: Seq<Slot>) -> bool {
    forall|id: int|
        0 <= id < table.len() ==> ((#[trigger] table[id]) matches Slot::Known(rule) ==> rule_wf(rule)
            && rule_unambiguous(rule))
}

/// Encoding inverts decoding. Where bytes decode under the rule of the type
/// `id`, in a table whose names can be told apart, the value that comes out
/// encodes to exactly the bytes that decoding took: no other bytes decode to
/// that value. The value is written the way the decoder writes values, and
/// nests no deeper than `depth` levels.
pub proof fn lemma_encode_inverts_decode(
    table: Seq<Slot>,
    id: nat,
    bytes: Seq<u8>,
    depth: nat,
)
    requires
        table_unambiguous(table),
        spec_decode(table, id, bytes, depth) is Ok,
    ensures
        ({
            let (value, used) = spec_decode(table, id, bytes, depth)->Ok_0;
            &&& used <= bytes.len()
            &&& spec_encode(table, id, value) == Ok::<Seq<u8>, Error>(bytes.take(used as int))
            &&& is_canonical(table, id, value)
            &&& within_depth(value, depth)
        }),
    decreases depth, 0nat, 1nat,
{
    let rule = lookup(table, id)->Ok_0;
    assert(table[id as int] == Slot::Known(rule));
    match rule {
        Rule::Composite(_) => lemma_nested_inverse(table, id, bytes, depth),
        Rule::Variant(_) => lemma_nested_inverse(table, id, bytes, depth),
        Rule::Sequence(_) => lemma_sequence_inverse(table, id, bytes, depth),
        Rule::Array(_, _) => lemma_sequence_inverse(table, id, bytes, depth),
        _ => lemma_leaf_inverse(table, id, bytes, depth),
    }
}

proof fn lemma_leaf_inverse(table: Seq<Slot>, id: nat, bytes: Seq<u8>, depth: nat)
    requires
        spec_decode(table, id, bytes, depth) is Ok,
        lookup(table, id) matches Ok(rule) && rule_wf(rule) && !(rule is Composite) && !(rule
            is Variant) && !(rule is Sequence) && !(rule is Array),
    ensures
        ({
            let (value, used) = spec_decode(table, id, bytes, depth)->Ok_0;
            &&& used <= bytes.len()
            &&& spec_encode(table, id, value) == Ok::<Seq<u8>, Error>(bytes.take(used as int))
            &&& is_canonical(table, id, value)
            &&& within_depth(value, depth)
        }),
{
    let rule = lookup(table, id)->Ok_0;
    let (value, used) = spec_decode(table, id, bytes, depth)->Ok_0;
    match rule {
        Rule::Bool => {
            assert(bytes.take(1) =~= seq![bytes[0]]);
        },
        Rule::UInt(width) => {
            let spelled = bytes.subrange(0, width as int);
            lemma_le_value_bound(spelled);
            lemma_le_bytes_of_value(spelled);
            assert(bytes.take(width as int) =~= spelled);
        },
        Rule::Int(width) => {
            let spelled = bytes.subrange(0, width as int);
            lemma_le_value_bound(spelled);
            lemma_le_bytes_of_value(spelled);
            lemma_from_twos_complement(le_value(spelled), width);
            assert(bytes.take(width as int) =~= spelled);
        },
        Rule::Bytes => {
            lemma_compact_is_canonical(bytes);
            let (len, prefix) = spec_read_compact(bytes)->Ok_0;
            let content = bytes.subrange(prefix as int, (prefix + len) as int);
            assert(bytes.take((prefix + len) as int) =~= bytes.take(prefix as int) + content);
        },
        Rule::FixedBytes(len) => {
            assert(bytes.take(len as int) =~= bytes.subrange(0, len as int));
        },
        _ => {},
    }
}

proof fn lemma_nested_inverse(table: Seq<Slot>, id: nat, bytes: Seq<u8>, depth: nat)
    requires
        table_unambiguous(table),
        spec_decode(table, id, bytes, depth) is Ok,
        lookup(table, id) matches Ok(rule) && (rule is Composite || rule is Variant),
    ensures
        ({
            let (value, used) = spec_decode(table, id, bytes, depth)->Ok_0;
            &&& used <= bytes.len()
            &&& spec_encode(table, id, value) == Ok::<Seq<u8>, Error>(bytes.take(used as int))
            &&& is_canonical(table, id, value)
            &&& within_depth(value, depth)
        }),
    decreases depth, 0nat, 0nat,
{
    let rule = lookup(table, id)->Ok_0;
    assert(table[id as int] == Slot::Known(rule));
    match rule {
        Rule::Composite(shape) => {
            lemma_fields_inverse(table, shape, bytes, (depth - 1) as nat);
        },
        Rule::Variant(variants) => {
            let k = first_index(variant_indices(variants), bytes[0])->Some_0;
            lemma_first_index(variant_indices(variants), bytes[0]);
            assert(variant_indices(variants)[k] == variants[k].index);
            assert(variant_names(variants)[k] == variants[k].name);
            assert(shape_unambiguous(variants[k].fields));
            lemma_first_index_is(variant_indices(variants), variants[k].index, k);
            lemma_fields_inverse(table, variants[k].fields, bytes.skip(1), (depth - 1) as nat);
            let (fields, used) = spec_decode_fields(
                table,
                variants[k].fields,
                bytes.skip(1),
                (depth - 1) as nat,
            )->Ok_0;
            assert(bytes.take((1 + used) as int) =~= seq![bytes[0]] + bytes.skip(1).take(used as int));
        },
        _ => {},
    }
}

proof fn lemma_sequence_inverse(table: Seq<Slot>, id: nat, bytes: Seq<u8>, depth: nat)
    requires
        table_unambiguous(table),
        spec_decode(table, id, bytes, depth) is Ok,
        lookup(table, id) matches Ok(rule) && (rule is Sequence || rule is Array),
    ensures
        ({
            let (value, used) = spec_decode(table, id, bytes, depth)->Ok_0;
            &&& used <= bytes.len()
            &&& spec_encode(table, id, value) == Ok::<Seq<u8>, Error>(bytes.take(used as int))
            &&& is_canonical(table, id, value)
            &&& within_depth(value, depth)
        }),
    decreases depth, 0nat, 0nat,
{
    let rule = lookup(table, id)->Ok_0;
    match rule {
        Rule::Sequence(element) => {
            lemma_compact_is_canonical(bytes);
            let (count, prefix) = spec_read_compact(bytes)->Ok_0;
            let types = repeated(element, count);
            let body = bytes.skip(prefix as int);
            lemma_list_inverse(table, types, body, count, (depth - 1) as nat);
            let (items, more) = spec_decode_list(table, types, body, count, (depth - 1) as nat)->Ok_0;
            assert(bytes.take((prefix + more) as int) =~= bytes.take(prefix as int) + body.take(
                more as int,
            ));
        },
        Rule::Array(element, len) => {
            let types = repeated(element, len);
            lemma_list_inverse(table, types, bytes, len, (depth - 1) as nat);
        },
        _ => {},
    }
}

/// Encoding inverts decoding for the fields of a composite or a variant.
pub proof fn lemma_fields_inverse(
    table: Seq<Slot>,
    shape: FieldShape,
    bytes: Seq<u8>,
    depth: nat,
)
    requires
        table_unambiguous(table),
        shape_unambiguous(shape),
        spec_decode_fields(table, shape, bytes, depth) is Ok,
    ensures
        ({
            let (fields, used) = spec_decode_fields(table, shape, bytes, depth)->Ok_0;
            &&& used <= bytes.len()
            &&& spec_encode_fields(table, shape, fields) == Ok::<Seq<u8>, Error>(
                bytes.take(used as int),
            )
            &&& fields_canonical(table, shape, fields)
            &&& fields_within_depth(fields, depth)
        }),
    decreases depth, 2nat, 0nat,
{
    match shape {
        FieldShape::Named(declared) => {
            let types = declared_types(declared);
            lemma_list_inverse(table, types, bytes, declared.len(), depth);
            let (values, used) = spec_decode_list(table, types, bytes, declared.len(), depth)->Ok_0;
            let given = zip_names(declared, values);
            let names = Seq::new(declared.len(), |i: int| declared[i].0);
            assert(names_of(given) =~= names);
            assert forall|i: int| 0 <= i < declared.len() implies first_index(
                names_of(given),
                (#[trigger] declared[i]).0,
            ) == Some(i) by {
                assert(names[i] == declared[i].0);
            }
            assert(all_present(declared, given));
            assert(named_parts(table, declared, given) =~= list_parts(table, types, values));
            assert forall|i: int| 0 <= i < given.len() implies first_index(
                names_of(given),
                declared[i].0,
            ) == Some(i) && is_canonical(table, declared[i].1, (#[trigger] given[i]).1) by {
                assert(names[i] == declared[i].0);
                assert(is_canonical(table, types[i], values[i]));
            }
            assert forall|i: int| 0 <= i < given.len() implies within_depth(
                (#[trigger] given[i]).1,
                depth,
            ) by {
                assert(within_depth(values[i], depth));
            }
        },
        FieldShape::Unnamed(types) => {
            lemma_list_inverse(table, types, bytes, types.len(), depth);
        },
    }
}

/// Encoding inverts decoding for the first `upto` items of a list.
pub proof fn lemma_list_inverse(
    table: Seq<Slot>,
    types: Seq<nat>,
    bytes: Seq<u8>,
    upto: nat,
    depth: nat,
)
    requires
        table_unambiguous(table),
        upto <= types.len(),
        spec_decode_list(table, types, bytes, upto, depth) is Ok,
    ensures
        ({
            let (values, used) = spec_decode_list(table, types, bytes, upto, depth)->Ok_0;
            &&& values.len() == upto
            &&& used <= bytes.len()
            &&& collect(list_parts(table, types, values)) == Ok::<Seq<u8>, Error>(
                bytes.take(used as int),
            )
            &&& forall|i: int|
                0 <= i < upto ==> is_canonical(table, types[i], #[trigger] values[i])
                    && within_depth(values[i], depth)
        }),
    decreases depth, 1nat, upto,
{
    if upto == 0 {
        let parts = list_parts(table, types, Seq::<Value>::empty());
        assert(parts =~= Seq::<Result<Seq<u8>, Error>>::empty());
        assert(bytes.take(0) =~= Seq::<u8>::empty());
    } else {
        let last = (upto - 1) as nat;
        lemma_list_inverse(table, types, bytes, last, depth);
        let (before, used) = spec_decode_list(table, types, bytes, last, depth)->Ok_0;
        let ahead = bytes.skip(used as int);
        lemma_encode_inverts_decode(table, types[last as int], ahead, depth);
        let (value, more) = spec_decode(table, types[last as int], ahead, depth)->Ok_0;
        let values = before.push(value);
        let parts = list_parts(table, types, values);
        let earlier = list_parts(table, types, before);
        assert(parts.drop_last() =~= earlier);
        assert(parts.last() == Ok::<Seq<u8>, Error>(ahead.take(more as int)));
        assert(bytes.take((used + more) as int) =~= bytes.take(used as int) + ahead.take(
            more as int,
        ));
        assert forall|i: int| 0 <= i < upto implies is_canonical(
            table,
            types[i],
            #[trigger] values[i],
        ) && within_depth(values[i], depth) by {
            if i < last {
                assert(values[i] == before[i]);
            }
        }
    }
}

} // verus!
