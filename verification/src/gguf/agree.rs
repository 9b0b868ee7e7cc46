//! What a file holds is settled by its bytes: whatever is read, checked or
//! planned from them comes out the same each time.

use crate::error::Fault;
use crate::gguf::artifact::{
    artifact_bytes, is_artifact, is_planned, rendered, ArtifactSegment,
};
use crate::gguf::bytes::le32;
use crate::gguf::laws::{lemma_directory_bounds, lemma_string_advances, lemma_value_advances};
use crate::gguf::layout::{
    directory_of, directory_start, entries_end, file_fault, is_table_of, kv_count_of, last_entry,
    tensor_count_of, tensor_len, tensor_start, value_of_entry,
};
use crate::gguf::linker::{
    embedding_fault, is_change, is_order, is_plan, is_tensor_plan, plan_fails, plans_source,
    profile_fault, relink_of, source_fails, LinkPlan, TensorChange, TensorPlan,
};
use crate::gguf::locality::{
    lemma_entry_local, lemma_fewer_entries, lemma_held_local, lemma_last_entry_local,
    lemma_le64_local,
};
use crate::gguf::reader::{is_tensor_of, locates, GgufFile};
use crate::gguf::relink::{pieces, PlannedTensor, Relink};
use crate::gguf::reread::{
    artifact_can_be_used, artifact_holds_the_bytes, artifact_lists_the_tensors, is_link,
    lemma_slot_of_tensor,
};
use crate::gguf::tensor::TensorView;
use crate::gguf::types::{value_type_of_raw, GgmlType, GgufMetadataValueType};
use crate::gguf::value::{elements_end, encodes, holds_value, lemma_le_bounds, GgufValue};
use crate::model::architecture::{family_of, family_prefix, ForwardVariant, LayerTensorRole};
use crate::model::config::{
    asks_for_scaling, bitnet_fault, config_fault, found_f32, found_str, found_u64, has_vocabulary,
    key, llama_fault, vocabulary_len, Table,
};
use crate::model::graph::{
    biases_fault, graph_fault, layer_fault, layer_name, layers_fault, lemma_lookup_in_bounds,
    lookup, named, place_fault, places_fault, q4k_fault, q4k_faults, q6k_fault, q6k_faults,
    repeats_a_name, stated_dims, tensors_fault, values_fault, Dims,
};
use crate::text::occurs_at;
use vstd::prelude::*;

verus! {

/// Two values are the same: equal numbers, the same text, or arrays of the same
/// values.
pub open spec fn same_value(a: GgufValue, b: GgufValue) -> bool
    decreases a,
{
    match (a, b) {
        (GgufValue::Str(s), GgufValue::Str(t)) => s@ == t@,
        (GgufValue::Array(x), GgufValue::Array(y)) => {
            &&& x@.len() == y@.len()
            &&& forall|i: int| 0 <= i < x@.len() ==> same_value(#[trigger] x@[i], y@[i])
        },
        (GgufValue::Str(_), _) => false,
        (GgufValue::Array(_), _) => false,
        _ => a == b,
    }
}

/// Two tables have the same keys, with the same values.
pub open spec fn same_table(a: Table, b: Table) -> bool {
    forall|k: Seq<char>| #[trigger]
        a.contains_key(k) == b.contains_key(k) && (a.contains_key(k) ==> same_value(a[k], b[k]))
}

/// Two views are of the same tensor.
pub open spec fn same_tensor(a: TensorView<'_>, b: TensorView<'_>) -> bool {
    &&& a.name@ == b.name@
    &&& a.shape@ == b.shape@
    &&& a.ggml_type == b.ggml_type
    &&& a.offset == b.offset
    &&& a.byte_len == b.byte_len
    &&& a.data@ == b.data@
    &&& a.scale_data is Some == b.scale_data is Some
    &&& a.scale_data is Some ==> a.scale_data->0@ == b.scale_data->0@
}

/// Two lists have views of the same tensors.
pub open spec fn same_tensors(a: Seq<TensorView<'_>>, b: Seq<TensorView<'_>>) -> bool {
    &&& a.len() == b.len()
    &&& forall|i: int| 0 <= i < a.len() ==> same_tensor(#[trigger] a[i], b[i])
}

/// What stands at a position in a known type settles the value.
proof fn lemma_same_encoded(
    a: GgufValue,
    b: GgufValue,
    data: Seq<u8>,
    pos: int,
    ty: GgufMetadataValueType,
    depth: int,
)
    requires
        encodes(a, data, pos, ty, depth),
        encodes(b, data, pos, ty, depth),
    ensures
        same_value(a, b),
    decreases a,
{
    if ty is Array {
        let element = value_type_of_raw(le32(data.skip(pos)) as u32);
        let x = a->Array_0@;
        let y = b->Array_0@;
        assert forall|i: int| 0 <= i < x.len() implies same_value(#[trigger] x[i], y[i]) by {
            let p = elements_end(data, pos + 12, element, i, depth + 1)->Ok_0;
            assert(encodes(x[i], data, p, element, depth + 1));
            assert(encodes(y[i], data, p, element, depth + 1));
            lemma_same_encoded(x[i], y[i], data, p, element, depth + 1);
        }
    }
}

/// What stands at a position settles the value.
proof fn lemma_same_value(a: GgufValue, b: GgufValue, data: Seq<u8>, pos: int)
    requires
        holds_value(a, data, pos),
        holds_value(b, data, pos),
    ensures
        same_value(a, b),
{
    lemma_same_encoded(a, b, data, pos + 4, value_type_of_raw(le32(data.skip(pos)) as u32), 0);
}

/// Two tables of the same entries are the same.
proof fn lemma_same_tables(a: Table, b: Table, data: Seq<u8>)
    requires
        is_table_of(a, data, 24, kv_count_of(data)),
        is_table_of(b, data, 24, kv_count_of(data)),
    ensures
        same_table(a, b),
{
    assert forall|k: Seq<char>| #[trigger]
        a.contains_key(k) == b.contains_key(k) && (a.contains_key(k) ==> same_value(
            a[k],
            b[k],
        )) by {
        assert(a.contains_key(k) == b.contains_key(k));
        if a.contains_key(k) {
            let i = last_entry(data, 24, kv_count_of(data), k)->0;
            lemma_same_value(a[k], b[k], data, value_of_entry(data, 24, i));
        }
    }
}

/// Two files that describe the same bytes have the same metadata and the same
/// tensors.
pub proof fn descriptions_agree(a: GgufFile<'_>, b: GgufFile<'_>, data: Seq<u8>)
    requires
        a.describes(data),
        b.describes(data),
    ensures
        same_table(a.metadata@, b.metadata@),
        same_tensors(a.tensors@, b.tensors@),
        a.version == b.version,
        a.tensor_count == b.tensor_count,
        a.alignment == b.alignment,
        a.data_section_start == b.data_section_start,
        a.tensor_descriptors@ == b.tensor_descriptors@,
{
    lemma_same_tables(a.metadata@, b.metadata@, data);
    assert forall|i: int| 0 <= i < a.tensors@.len() implies same_tensor(
        #[trigger] a.tensors@[i],
        b.tensors@[i],
    ) by {
        assert(is_tensor_of(a.tensors@[i], data, i));
        assert(is_tensor_of(b.tensors@[i], data, i));
    }
    assert forall|i: int| 0 <= i < a.tensor_descriptors@.len() implies (
    #[trigger] a.tensor_descriptors@[i]) == b.tensor_descriptors@[i] by {
        let at = directory_start(data);
        assert(locates(a.tensor_descriptors@[i], data, at, i));
        assert(locates(b.tensor_descriptors@[i], data, at, i));
    }
    assert(a.tensor_descriptors@ =~= b.tensor_descriptors@);
}

/// Tables with the same values give the same under every key.
proof fn lemma_same_found(a: Table, b: Table)
    requires
        same_table(a, b),
    ensures
        forall|k: Seq<char>| #[trigger] found_u64(a, k) == found_u64(b, k),
        forall|k: Seq<char>| #[trigger] found_f32(a, k) == found_f32(b, k),
        forall|k: Seq<char>| #[trigger] found_str(a, k) == found_str(b, k),
        has_vocabulary(a) == has_vocabulary(b),
        has_vocabulary(a) ==> vocabulary_len(a) == vocabulary_len(b),
{
    assert forall|k: Seq<char>| #[trigger] found_u64(a, k) == found_u64(b, k) by {
        assert(a.contains_key(k) == b.contains_key(k));
    }
    assert forall|k: Seq<char>| #[trigger] found_f32(a, k) == found_f32(b, k) by {
        assert(a.contains_key(k) == b.contains_key(k));
    }
    assert forall|k: Seq<char>| #[trigger] found_str(a, k) == found_str(b, k) by {
        assert(a.contains_key(k) == b.contains_key(k));
    }
    let k = "tokenizer.ggml.tokens"@;
    assert(a.contains_key(k) == b.contains_key(k));
    if a.contains_key(k) && a[k] is Array {
        let x = a[k]->Array_0@;
        let y = b[k]->Array_0@;
        assert forall|i: int| 0 <= i < x.len() implies (#[trigger] x[i]) is Str == y[i] is Str by {
            assert(same_value(x[i], y[i]));
        }
        if has_vocabulary(a) {
            assert forall|i: int| 0 <= i < y.len() implies (#[trigger] y[i]) is Str by {
                assert(x[i] is Str);
            }
        }
        if has_vocabulary(b) {
            assert forall|i: int| 0 <= i < x.len() implies (#[trigger] x[i]) is Str by {
                assert(y[i] is Str);
            }
        }
    }
}

/// Tables with the same values ask for scaling alike.
proof fn lemma_same_scaling(a: Table, b: Table, prefix: Seq<char>)
    requires
        same_table(a, b),
    ensures
        asks_for_scaling(a, prefix) == asks_for_scaling(b, prefix),
{
    lemma_same_found(a, b);
    if asks_for_scaling(a, prefix) {
        let k = choose|k: Seq<char>| #[trigger]
            a.contains_key(k) && occurs_at(
                k,
                key(prefix, "rope.scaling"@),
                0,
            ) && !(k == key(prefix, "rope.scaling.type"@) && found_str(a, k)
                == Some("none"@));
        assert(b.contains_key(k));
        assert(found_str(a, k) == found_str(b, k));
    }
    if asks_for_scaling(b, prefix) {
        let k = choose|k: Seq<char>| #[trigger]
            b.contains_key(k) && occurs_at(
                k,
                key(prefix, "rope.scaling"@),
                0,
            ) && !(k == key(prefix, "rope.scaling.type"@) && found_str(b, k)
                == Some("none"@));
        assert(a.contains_key(k) == b.contains_key(k));
        assert(found_str(a, k) == found_str(b, k));
    }
}

/// Tables with the same values are refused alike.
#[verifier::spinoff_prover]
proof fn lemma_same_config(a: Table, b: Table)
    requires
        same_table(a, b),
    ensures
        config_fault(a) == config_fault(b),
        config_fault(a) is None ==> stated_dims(a) == stated_dims(b),
{
    lemma_same_found(a, b);
    let name = found_str(a, "general.architecture"@);
    assert(name == found_str(b, "general.architecture"@));
    if name is Some {
        let family = family_of(name->0);
        if family is Some {
            let prefix = family_prefix(family->0, name->0);
            assert(forall|k: Seq<char>| #[trigger] a.contains_key(k) == b.contains_key(k));
            lemma_same_scaling(a, b, prefix);
            assert(bitnet_fault(a, name->0) == bitnet_fault(b, name->0));
            assert(llama_fault(a, prefix) == llama_fault(b, prefix));
        }
    }
}

/// Lists of the same tensors find names in the same places.
proof fn lemma_same_names(a: Seq<TensorView<'_>>, b: Seq<TensorView<'_>>, name: Seq<char>, n: int)
    requires
        same_tensors(a, b),
        n <= a.len(),
    ensures
        named(a, name, n) == named(b, name, n),
    decreases n,
{
    if n > 0 {
        lemma_same_names(a, b, name, n - 1);
        assert(same_tensor(a[n - 1], b[n - 1]));
    }
}

/// Where a name is found, it is that of a tensor in both lists.
proof fn lemma_same_lookup(a: Seq<TensorView<'_>>, b: Seq<TensorView<'_>>, name: Seq<char>)
    requires
        same_tensors(a, b),
    ensures
        lookup(a, name) == lookup(b, name),
        lookup(a, name) matches Some(i) ==> 0 <= i < a.len() && same_tensor(a[i], b[i]),
{
    lemma_same_names(a, b, name, a.len() as int);
    lemma_lookup_in_bounds(a, name);
}

/// Lists of the same tensors have the same faults in their blocks and biases.
proof fn lemma_same_storage(
    a: Seq<TensorView<'_>>,
    b: Seq<TensorView<'_>>,
    name: Seq<char>,
    variant: ForwardVariant,
    blocks: int,
    n: int,
)
    requires
        same_tensors(a, b),
        n <= a.len(),
    ensures
        q4k_faults(a, n) == q4k_faults(b, n),
        q6k_faults(a, n) == q6k_faults(b, n),
        biases_fault(a, name, variant, blocks, n) == biases_fault(b, name, variant, blocks, n),
    decreases n,
{
    if n > 0 {
        lemma_same_storage(a, b, name, variant, blocks, n - 1);
        assert(same_tensor(a[n - 1], b[n - 1]));
        assert(q4k_fault(a[n - 1]) == q4k_fault(b[n - 1]));
        assert(q6k_fault(a[n - 1]) == q6k_fault(b[n - 1]));
    }
}

/// Lists of the same tensors have the same faults in the tensors of a layer.
proof fn lemma_same_places(
    a: Seq<TensorView<'_>>,
    b: Seq<TensorView<'_>>,
    d: Dims,
    layer: int,
    n: int,
)
    requires
        same_tensors(a, b),
    ensures
        places_fault(a, d, layer, n) == places_fault(b, d, layer, n),
    decreases n,
{
    if n > 0 {
        lemma_same_places(a, b, d, layer, n - 1);
        let role = d.roles[n - 1];
        lemma_same_lookup(a, b, layer_name(layer, role));
        assert(place_fault(a, d, layer, role) == place_fault(b, d, layer, role));
    }
}

/// Where the tensors of a layer have no fault, each of them is there.
proof fn lemma_role_is_there(
    ts: Seq<TensorView<'_>>,
    d: Dims,
    layer: int,
    n: int,
    role: LayerTensorRole,
)
    requires
        places_fault(ts, d, layer, n) is None,
        d.roles.take(n).contains(role),
        0 <= n <= d.roles.len(),
    ensures
        lookup(ts, layer_name(layer, role)) is Some,
    decreases n,
{
    if n > 0 {
        if d.roles[n - 1] == role {
            assert(place_fault(ts, d, layer, role) is None);
        } else {
            let i = choose|i: int| 0 <= i < d.roles.take(n).len() && d.roles.take(n)[i] == role;
            assert(d.roles.take(n - 1)[i] == role);
            lemma_role_is_there(ts, d, layer, n - 1, role);
        }
    }
}

/// Lists of the same tensors have the same faults in the numbers of a layer.
proof fn lemma_same_values(
    a: Seq<TensorView<'_>>,
    b: Seq<TensorView<'_>>,
    d: Dims,
    layer: int,
    role: LayerTensorRole,
)
    requires
        same_tensors(a, b),
        places_fault(a, d, layer, d.roles.len() as int) is None,
    ensures
        values_fault(a, d, layer, role) == values_fault(b, d, layer, role),
{
    if d.roles.contains(role) {
        assert(d.roles.take(d.roles.len() as int) =~= d.roles);
        lemma_role_is_there(a, d, layer, d.roles.len() as int, role);
        lemma_same_lookup(a, b, layer_name(layer, role));
    }
}

/// Lists of the same tensors have the same faults in their layers.
proof fn lemma_same_layers(a: Seq<TensorView<'_>>, b: Seq<TensorView<'_>>, d: Dims, n: int)
    requires
        same_tensors(a, b),
    ensures
        layers_fault(a, d, n) == layers_fault(b, d, n),
    decreases n,
{
    if n > 0 {
        lemma_same_layers(a, b, d, n - 1);
        let layer = n - 1;
        lemma_same_places(a, b, d, layer, d.roles.len() as int);
        if places_fault(a, d, layer, d.roles.len() as int) is None {
            lemma_same_values(a, b, d, layer, LayerTensorRole::AttnNorm);
            lemma_same_values(a, b, d, layer, LayerTensorRole::AttnQBias);
            lemma_same_values(a, b, d, layer, LayerTensorRole::AttnKBias);
            lemma_same_values(a, b, d, layer, LayerTensorRole::AttnVBias);
            lemma_same_values(a, b, d, layer, LayerTensorRole::AttnSubNorm);
            lemma_same_values(a, b, d, layer, LayerTensorRole::FfnNorm);
            lemma_same_values(a, b, d, layer, LayerTensorRole::FfnSubNorm);
        }
        assert(layer_fault(a, d, layer) == layer_fault(b, d, layer));
    }
}

/// Lists of the same tensors repeat names alike.
proof fn lemma_same_repeats(a: Seq<TensorView<'_>>, b: Seq<TensorView<'_>>)
    requires
        same_tensors(a, b),
    ensures
        repeats_a_name(a) ==> repeats_a_name(b),
{
    if repeats_a_name(a) {
        let (i, j) = choose|i: int, j: int|
            0 <= i < j < a.len() && (#[trigger] a[i]).name@ == (#[trigger] a[j]).name@;
        assert(same_tensor(a[i], b[i]) && same_tensor(a[j], b[j]));
        assert(b[i].name@ == b[j].name@);
    }
}

/// Being of the same tensors goes both ways.
proof fn lemma_same_tensors_back(a: Seq<TensorView<'_>>, b: Seq<TensorView<'_>>)
    requires
        same_tensors(a, b),
    ensures
        same_tensors(b, a),
{
    assert forall|i: int| 0 <= i < b.len() implies same_tensor(#[trigger] b[i], a[i]) by {
        assert(same_tensor(a[i], b[i]));
    }
}

/// Lists of the same tensors are refused alike.
proof fn lemma_same_tensor_faults(a: Seq<TensorView<'_>>, b: Seq<TensorView<'_>>, d: Dims)
    requires
        same_tensors(a, b),
    ensures
        tensors_fault(a, d) == tensors_fault(b, d),
{
    lemma_same_tensors_back(a, b);
    lemma_same_repeats(a, b);
    lemma_same_repeats(b, a);
    lemma_same_storage(a, b, d.name, d.variant, d.blocks, a.len() as int);
    lemma_same_lookup(a, b, "token_embd.weight"@);
    lemma_same_lookup(a, b, "output_norm.weight"@);
    lemma_same_lookup(a, b, "output.weight"@);
    lemma_same_layers(a, b, d, d.blocks);
}

/// Two files that describe the same bytes are accepted or refused alike, as
/// models and as sources of artifacts.
pub proof fn refusals_agree(a: GgufFile<'_>, b: GgufFile<'_>, data: Seq<u8>)
    requires
        a.describes(data),
        b.describes(data),
    ensures
        graph_fault(a.metadata@, a.tensors@) == graph_fault(b.metadata@, b.tensors@),
        profile_fault(a) == profile_fault(b),
{
    descriptions_agree(a, b, data);
    lemma_same_config(a.metadata@, b.metadata@);
    if config_fault(a.metadata@) is None {
        lemma_same_tensor_faults(a.tensors@, b.tensors@, stated_dims(a.metadata@));
        if graph_fault(a.metadata@, a.tensors@) is None {
            lemma_same_lookup(a.tensors@, b.tensors@, "token_embd.weight"@);
            lemma_same_lookup(a.tensors@, b.tensors@, "output.weight"@);
            let i = lookup(a.tensors@, "token_embd.weight"@)->0;
            assert(embedding_fault(a.tensors@[i]) == embedding_fault(b.tensors@[i]));
        }
    }
}

/// There is one order of the tensors by rising offset.
proof fn lemma_one_order(
    a: Seq<TensorView<'_>>,
    b: Seq<TensorView<'_>>,
    x: Seq<usize>,
    y: Seq<usize>,
    n: int,
)
    requires
        same_tensors(a, b),
        is_order(x, a),
        is_order(y, b),
        0 <= n <= x.len(),
        a.len() <= usize::MAX,
    ensures
        forall|p: int| 0 <= p < n ==> #[trigger] x[p] == y[p],
    decreases n,
{
    if n > 0 {
        let p = n - 1;
        lemma_one_order(a, b, x, y, p);
        let i = x[p];
        let j = y[p];
        assert(same_tensor(a[i as int], b[i as int]));
        assert(same_tensor(a[j as int], b[j as int]));
        assert(y.contains((i as int) as usize));
        assert(x.contains((j as int) as usize));
        let s = choose|s: int| 0 <= s < y.len() && y[s] == i;
        let t = choose|t: int| 0 <= t < x.len() && x[t] == j;
        if s < p {
            assert(x[s] == y[s]);
            assert(a[x[s] as int].offset < a[x[p] as int].offset);
        }
        if t < p {
            assert(x[t] == y[t]);
            assert(b[y[t] as int].offset < b[y[p] as int].offset);
        }
        if s > p {
            assert(b[y[p] as int].offset < b[y[s] as int].offset);
            if t > p {
                assert(a[x[p] as int].offset < a[x[t] as int].offset);
            }
        }
    }
}

/// Two files that describe the same bytes have their tensors in the same order,
/// and are relinked alike.
pub proof fn relinks_agree(
    a: GgufFile<'_>,
    b: GgufFile<'_>,
    data: Seq<u8>,
    x: Seq<usize>,
    y: Seq<usize>,
)
    requires
        a.describes(data),
        b.describes(data),
        graph_fault(a.metadata@, a.tensors@) is None,
        is_order(x, a.tensors@),
        is_order(y, b.tensors@),
    ensures
        x == y,
        relink_of(a, data.len() as int, x) == relink_of(b, data.len() as int, y),
{
    descriptions_agree(a, b, data);
    assert(a.tensors@.len() == a.tensors.len());
    lemma_one_order(a.tensors@, b.tensors@, x, y, x.len() as int);
    assert(x =~= y);
    assert forall|i: int| 0 <= i < a.tensors@.len() implies pieces(a.tensors@)[i] == pieces(
        b.tensors@,
    )[i] by {
        assert(same_tensor(a.tensors@[i], b.tensors@[i]));
    }
    assert(pieces(a.tensors@) =~= pieces(b.tensors@));
    lemma_same_lookup(a.tensors@, b.tensors@, "token_embd.weight"@);
    assert(lookup(a.tensors@, "token_embd.weight"@) is Some);
}

/// Two plans say the same of a tensor.
pub open spec fn same_tensor_plan(a: TensorPlan, b: TensorPlan) -> bool {
    &&& a.name@ == b.name@
    &&& a.action == b.action
    &&& a.source_type == b.source_type
    &&& a.output_type == b.output_type
    &&& a.source_offset == b.source_offset
    &&& a.output_offset == b.output_offset
    &&& a.source_primary_bytes == b.source_primary_bytes
    &&& a.output_primary_bytes == b.output_primary_bytes
    &&& a.source_slot_bytes == b.source_slot_bytes
    &&& a.output_slot_bytes == b.output_slot_bytes
}

/// Two plans say the same of a change.
pub open spec fn same_change(a: TensorChange, b: TensorChange) -> bool {
    &&& a.name@ == b.name@
    &&& a.source_type == b.source_type
    &&& a.output_type == b.output_type
    &&& a.source_bytes == b.source_bytes
    &&& a.output_bytes == b.output_bytes
    &&& a.source_offset == b.source_offset
    &&& a.output_offset == b.output_offset
}

/// Two plans say the same.
pub open spec fn same_plan(a: LinkPlan, b: LinkPlan) -> bool {
    &&& a.profile == b.profile
    &&& a.architecture@ == b.architecture@
    &&& a.source_bytes == b.source_bytes
    &&& a.output_bytes == b.output_bytes
    &&& a.alignment == b.alignment
    &&& a.tensor_count == b.tensor_count
    &&& a.tensors@.len() == b.tensors@.len()
    &&& forall|p: int|
        0 <= p < a.tensors@.len() ==> same_tensor_plan(#[trigger] a.tensors@[p], b.tensors@[p])
    &&& a.changes@.len() == b.changes@.len()
    &&& forall|p: int|
        0 <= p < a.changes@.len() ==> same_change(#[trigger] a.changes@[p], b.changes@[p])
}

/// Plans of one relink say the same of its tensors.
proof fn lemma_same_tensor_plans(one: Seq<TensorPlan>, two: Seq<TensorPlan>, r: Relink)
    requires
        one.len() == two.len(),
        forall|p: int| 0 <= p < one.len() ==> is_tensor_plan(#[trigger] one[p], r, p),
        forall|p: int| 0 <= p < two.len() ==> is_tensor_plan(#[trigger] two[p], r, p),
    ensures
        forall|p: int| 0 <= p < one.len() ==> same_tensor_plan(#[trigger] one[p], two[p]),
{
    assert forall|p: int| 0 <= p < one.len() implies same_tensor_plan(
        #[trigger] one[p],
        two[p],
    ) by {
        assert(is_tensor_plan(one[p], r, p));
        assert(is_tensor_plan(two[p], r, p));
    }
}

/// A relink changes one tensor, and plans say the same of it.
proof fn lemma_same_changes(
    one: TensorChange,
    two: TensorChange,
    r: Relink,
    ts: Seq<TensorView<'_>>,
    p: int,
    q: int,
)
    requires
        is_order(r.order, ts),
        0 <= p < r.order.len(),
        0 <= q < r.order.len(),
        is_change(one, r, p),
        is_change(two, r, q),
    ensures
        same_change(one, two),
{
    if p < q {
        assert(ts[r.order[p] as int].offset < ts[r.order[q] as int].offset);
    } else if q < p {
        assert(ts[r.order[q] as int].offset < ts[r.order[p] as int].offset);
    }
}

/// Two files that describe the same bytes name the same architecture.
proof fn lemma_same_architecture(a: GgufFile<'_>, b: GgufFile<'_>, data: Seq<u8>)
    requires
        a.describes(data),
        b.describes(data),
    ensures
        stated_dims(a.metadata@).name == stated_dims(b.metadata@).name,
{
    descriptions_agree(a, b, data);
    lemma_same_found(a.metadata@, b.metadata@);
    assert(found_str(a.metadata@, "general.architecture"@) == found_str(
        b.metadata@,
        "general.architecture"@,
    ));
}

/// Plans of one relink say the same, where the files have the same numbers.
proof fn lemma_plans_of_one_relink(
    a: GgufFile<'_>,
    b: GgufFile<'_>,
    len: int,
    order: Seq<usize>,
    one: LinkPlan,
    two: LinkPlan,
)
    requires
        relink_of(a, len, order) == relink_of(b, len, order),
        stated_dims(a.metadata@).name == stated_dims(b.metadata@).name,
        a.alignment == b.alignment,
        a.tensor_count == b.tensor_count,
        is_order(order, a.tensors@),
        is_plan(one, a, len, order),
        is_plan(two, b, len, order),
    ensures
        same_plan(one, two),
{
    let r = relink_of(a, len, order);
    lemma_same_tensor_plans(one.tensors@, two.tensors@, r);
    let p = choose|p: int| 0 <= p < order.len() && #[trigger] is_change(one.changes@[0], r, p);
    let q = choose|q: int| 0 <= q < order.len() && #[trigger] is_change(two.changes@[0], r, q);
    lemma_same_changes(one.changes@[0], two.changes@[0], r, a.tensors@, p, q);
}

/// Plans of files that describe the same bytes say the same.
proof fn lemma_plans_agree(
    a: GgufFile<'_>,
    b: GgufFile<'_>,
    data: Seq<u8>,
    x: Seq<usize>,
    y: Seq<usize>,
    one: LinkPlan,
    two: LinkPlan,
)
    requires
        a.describes(data),
        b.describes(data),
        graph_fault(a.metadata@, a.tensors@) is None,
        is_order(x, a.tensors@),
        is_order(y, b.tensors@),
        is_plan(one, a, data.len() as int, x),
        is_plan(two, b, data.len() as int, y),
    ensures
        same_plan(one, two),
{
    relinks_agree(a, b, data, x, y);
    lemma_same_architecture(a, b, data);
    assert(a.alignment == b.alignment && a.tensor_count == b.tensor_count) by {
        descriptions_agree(a, b, data);
    }
    lemma_plans_of_one_relink(a, b, data.len() as int, x, one, two);
}

/// Two plans of one source say the same.
pub proof fn plans_of_one_source_agree(source: Seq<u8>, one: LinkPlan, two: LinkPlan)
    requires
        plans_source(one, source),
        plans_source(two, source),
    ensures
        same_plan(one, two),
{
    let (a, x) = choose|file: GgufFile<'_>, order: Seq<usize>|
        {
            &&& #[trigger] file.describes(source)
            &&& #[trigger] is_order(order, file.tensors@)
            &&& profile_fault(file) is None
            &&& relink_of(file, source.len() as int, order).fault() is None
            &&& is_plan(one, file, source.len() as int, order)
        };
    let (b, y) = choose|file: GgufFile<'_>, order: Seq<usize>|
        {
            &&& #[trigger] file.describes(source)
            &&& #[trigger] is_order(order, file.tensors@)
            &&& profile_fault(file) is None
            &&& relink_of(file, source.len() as int, order).fault() is None
            &&& is_plan(two, file, source.len() as int, order)
        };
    lemma_plans_agree(a, b, source, x, y, one, two);
}

/// Files that describe the same bytes fail to be planned for the same reason.
proof fn lemma_plan_failures_agree(
    a: GgufFile<'_>,
    b: GgufFile<'_>,
    source: Seq<u8>,
    e: Fault,
    f: Fault,
)
    requires
        a.describes(source),
        b.describes(source),
        plan_fails(a, source.len() as int, e),
        plan_fails(b, source.len() as int, f),
    ensures
        e == f,
{
    refusals_agree(a, b, source);
    if profile_fault(a) is None {
        let n = source.len() as int;
        let x = choose|order: Seq<usize>| #[trigger]
            is_order(order, a.tensors@) && relink_of(a, n, order).fault() == Some(e);
        let y = choose|order: Seq<usize>| #[trigger]
            is_order(order, b.tensors@) && relink_of(b, n, order).fault() == Some(f);
        relinks_agree(a, b, source, x, y);
    }
}

/// A source has one outcome: where it can be planned it does not fail, and where
/// it fails, it fails for one reason.
pub proof fn outcomes_of_one_source_agree(source: Seq<u8>, plan: LinkPlan, e: Fault, f: Fault)
    requires
        source_fails(source, e),
    ensures
        !plans_source(plan, source),
        source_fails(source, f) ==> e == f,
{
    if file_fault(source) is None {
        let n = source.len() as int;
        let a = choose|file: GgufFile<'_>| #[trigger]
            file.describes(source) && plan_fails(file, n, e);
        if plans_source(plan, source) {
            let (b, y) = choose|file: GgufFile<'_>, order: Seq<usize>|
                {
                    &&& #[trigger] file.describes(source)
                    &&& #[trigger] is_order(order, file.tensors@)
                    &&& profile_fault(file) is None
                    &&& relink_of(file, n, order).fault() is None
                    &&& is_plan(plan, file, n, order)
                };
            refusals_agree(a, b, source);
            let x = choose|order: Seq<usize>| #[trigger]
                is_order(order, a.tensors@) && relink_of(a, n, order).fault() == Some(e);
            relinks_agree(a, b, source, x, y);
        }
        if source_fails(source, f) {
            let b = choose|file: GgufFile<'_>| #[trigger]
                file.describes(source) && plan_fails(file, n, f);
            lemma_plan_failures_agree(a, b, source, e, f);
        }
    }
}

/// Files that describe the same bytes are laid out alike.
proof fn lemma_planned_agree(
    a: GgufFile<'_>,
    b: GgufFile<'_>,
    source: Seq<u8>,
    x: Seq<usize>,
    y: Seq<usize>,
    one: Seq<PlannedTensor>,
    two: Seq<PlannedTensor>,
)
    requires
        a.describes(source),
        b.describes(source),
        profile_fault(a) is None,
        is_order(x, a.tensors@),
        is_order(y, b.tensors@),
        is_planned(one, a, source.len() as int, x),
        is_planned(two, b, source.len() as int, y),
    ensures
        one == two,
{
    relinks_agree(a, b, source, x, y);
    let r = relink_of(a, source.len() as int, x);
    assert forall|p: int| 0 <= p < one.len() implies one[p] == two[p] by {
        assert(r.plans(one[p], p));
        assert(r.plans(two[p], p));
    }
    assert(one =~= two);
}

/// What is laid out for writing follows the plan that is shown for a source, and
/// two layouts of one source, with the same quantised embeddings, give the same
/// bytes.
pub proof fn artifacts_of_one_source_agree(
    source: Seq<u8>,
    one: LinkPlan,
    first: Seq<ArtifactSegment>,
    two: LinkPlan,
    second: Seq<ArtifactSegment>,
    quantized: Seq<u8>,
)
    requires
        is_artifact(one, first, source),
        is_artifact(two, second, source),
    ensures
        plans_source(one, source),
        same_plan(one, two),
        rendered(first, first.len() as int, source, quantized) == rendered(
            second,
            second.len() as int,
            source,
            quantized,
        ),
{
    reveal(is_artifact);
    let n = source.len() as int;
    let (a, x, p) = choose|file: GgufFile<'_>, order: Seq<usize>, planned: Seq<PlannedTensor>|
        {
            &&& #[trigger] file.describes(source)
            &&& #[trigger] is_order(order, file.tensors@)
            &&& profile_fault(file) is None
            &&& relink_of(file, n, order).fault() is None
            &&& is_plan(one, file, n, order)
            &&& #[trigger] is_planned(planned, file, n, order)
            &&& forall|quantized: Seq<u8>|
                #![trigger rendered(first, first.len() as int, source, quantized)]
                rendered(first, first.len() as int, source, quantized)
                    == artifact_bytes(file, source, order, planned, quantized)
        };
    let (b, y, q) = choose|file: GgufFile<'_>, order: Seq<usize>, planned: Seq<PlannedTensor>|
        {
            &&& #[trigger] file.describes(source)
            &&& #[trigger] is_order(order, file.tensors@)
            &&& profile_fault(file) is None
            &&& relink_of(file, n, order).fault() is None
            &&& is_plan(two, file, n, order)
            &&& #[trigger] is_planned(planned, file, n, order)
            &&& forall|quantized: Seq<u8>|
                #![trigger rendered(second, second.len() as int, source, quantized)]
                rendered(second, second.len() as int, source, quantized)
                    == artifact_bytes(file, source, order, planned, quantized)
        };
    lemma_plans_agree(a, b, source, x, y, one, two);
    lemma_planned_agree(a, b, source, x, y, p, q);
    descriptions_agree(a, b, source);
    relinks_agree(a, b, source, x, y);
}

/// Two views are of tensors that differ at most in where they lie.
pub open spec fn same_but_place(a: TensorView<'_>, b: TensorView<'_>) -> bool {
    &&& a.name@ == b.name@
    &&& a.shape@ == b.shape@
    &&& a.ggml_type == b.ggml_type
    &&& a.byte_len == b.byte_len
    &&& a.data@ == b.data@
    &&& a.scale_data is Some == b.scale_data is Some
    &&& a.scale_data is Some ==> a.scale_data->0@ == b.scale_data->0@
}

/// A table of one file is a table of another with the same bytes up to the
/// directory.
proof fn lemma_kept_table(table: Table, source: Seq<u8>, out: Seq<u8>)
    requires
        file_fault(source) is None,
        is_table_of(table, out, 24, kv_count_of(out)),
        directory_start(source) <= out.len(),
        out.take(directory_start(source)) == source.take(directory_start(source)),
    ensures
        is_table_of(table, source, 24, kv_count_of(source)),
{
    let to = directory_start(source);
    let n = kv_count_of(source);
    lemma_directory_bounds(source);
    assert forall|i: int| #![trigger out[i]] 0 <= i < to implies source[i] == out[i] by {
        assert(source.take(to)[i] == out.take(to)[i]);
    }
    lemma_le64_local(source, out, 16);
    lemma_le_bounds(source.skip(16));
    assert forall|k: Seq<char>| #[trigger]
        table.contains_key(k) == (last_entry(source, 24, n, k) is Some) && (table.contains_key(k)
            ==> holds_value(
            table[k],
            source,
            value_of_entry(source, 24, last_entry(source, 24, n, k)->0),
        )) by {
        lemma_last_entry_local(source, out, 24, n, n, k);
        assert(table.contains_key(k) == (last_entry(out, 24, n, k) is Some));
        if table.contains_key(k) {
            let i = last_entry(source, 24, n, k)->0;
            lemma_entry_local(source, out, 24, n, i);
            lemma_fewer_entries(source, 24, i + 1, n);
            lemma_fewer_entries(source, 24, i, i + 1);
            lemma_string_advances(source, entries_end(source, 24, i)->Ok_0);
            let q = value_of_entry(source, 24, i);
            lemma_value_advances(source, q);
            lemma_held_local(table[k], source, out, q);
        }
    }
}

/// A part of equal stretches is the same in both.
proof fn lemma_same_part(
    a: Seq<u8>,
    b: Seq<u8>,
    at: int,
    to: int,
    slot: int,
    from: int,
    len: int,
)
    requires
        0 <= at,
        at + slot <= a.len(),
        0 <= to,
        to + slot <= b.len(),
        b.subrange(to, to + slot) == a.subrange(at, at + slot),
        0 <= from,
        0 <= len,
        from + len <= slot,
    ensures
        b.subrange(to + from, to + from + len) == a.subrange(at + from, at + from + len),
{
    assert(b.subrange(to, to + slot).subrange(from, from + len) =~= b.subrange(
        to + from,
        to + from + len,
    ));
    assert(a.subrange(at, at + slot).subrange(from, from + len) =~= a.subrange(
        at + from,
        at + from + len,
    ));
}

/// The bytes of a tensor that does not change, and of its scale block, are those
/// of the source.
#[verifier::spinoff_prover]
proof fn lemma_kept_bytes(
    file: GgufFile<'_>,
    source: Seq<u8>,
    order: Seq<usize>,
    planned: Seq<PlannedTensor>,
    quantized: Seq<u8>,
    out: Seq<u8>,
    p: int,
)
    requires
        is_link(file, source, order, planned),
        out == artifact_bytes(file, source, order, planned, quantized),
        quantized.len() == relink_of(file, source.len() as int, order).chosen_bytes,
        0 <= p < order.len(),
        order[p] as int != relink_of(file, source.len() as int, order).chosen,
        0 <= order[p] < tensor_count_of(source),
    ensures
        ({
            let i = order[p] as int;
            let from = tensor_start(out, i);
            let start = tensor_start(source, i);
            let len = tensor_len(source, i);
            &&& tensor_len(out, i) == len
            &&& out.subrange(from, from + len) == source.subrange(start, start + len)
            &&& directory_of(source)[i].ggml_type == GgmlType::BitNetI2S ==> out.subrange(
                from + len,
                from + len + 32,
            ) == source.subrange(start + len, start + len + 32)
        }),
{
    let r = relink_of(file, source.len() as int, order);
    let i = order[p] as int;
    let from = tensor_start(out, i);
    let start = tensor_start(source, i);
    let len = tensor_len(source, i);
    let slot = r.slot_end(p) - start;
    artifact_holds_the_bytes(file, source, order, planned, quantized, p);
    lemma_slot_of_tensor(file, source, order, planned, quantized, p);
    lemma_same_part(source, out, start, from, slot, 0, len);
    if directory_of(source)[i].ggml_type == GgmlType::BitNetI2S {
        lemma_same_part(source, out, start, from, slot, len, 32);
    }
}

/// A tensor of an artifact that is not the one that changes is that of the source
/// in another place.
#[verifier::spinoff_prover]
proof fn lemma_kept_tensor(
    file: GgufFile<'_>,
    again: GgufFile<'_>,
    source: Seq<u8>,
    order: Seq<usize>,
    planned: Seq<PlannedTensor>,
    quantized: Seq<u8>,
    out: Seq<u8>,
    i: int,
)
    requires
        is_link(file, source, order, planned),
        is_tensor_of(file.tensors@[i], source, i),
        is_tensor_of(again.tensors@[i], out, i),
        order.contains(i as usize),
        out == artifact_bytes(file, source, order, planned, quantized),
        quantized.len() == relink_of(file, source.len() as int, order).chosen_bytes,
        0 <= i < tensor_count_of(source),
        i <= usize::MAX,
    ensures
        ({
            let old = file.tensors@[i];
            let new = again.tensors@[i];
            if i == relink_of(file, source.len() as int, order).chosen {
                &&& new.name@ == old.name@
                &&& new.shape@ == old.shape@
                &&& new.ggml_type == GgmlType::Q6K
                &&& new.data@ == quantized
            } else {
                same_but_place(old, new)
            }
        }),
{
    let r = relink_of(file, source.len() as int, order);
    artifact_lists_the_tensors(file, source, order, planned, quantized, i);
    let p = choose|p: int| 0 <= p < order.len() && order[p] == i as usize;
    if i == r.chosen {
        artifact_holds_the_bytes(file, source, order, planned, quantized, p);
    } else {
        lemma_kept_bytes(file, source, order, planned, quantized, out, p);
    }
}

/// What is written for a plan is as long as the plan says and can be read again.
/// It has the metadata of the source and the tensors of the source under the same
/// numbers: the embeddings with their new type and bytes, and every other tensor
/// with its name, shape, type, data and scale block.
pub proof fn artifacts_read_back(
    source: Seq<u8>,
    plan: LinkPlan,
    segments: Seq<ArtifactSegment>,
    quantized: Seq<u8>,
    file: GgufFile<'_>,
    again: GgufFile<'_>,
)
    requires
        is_artifact(plan, segments, source),
        source.len() <= u64::MAX,
        quantized.len() == plan.changes@[0].output_bytes,
        file.describes(source),
    ensures
        ({
            let out = rendered(segments, segments.len() as int, source, quantized);
            &&& file_fault(out) is None
            &&& out.len() == plan.output_bytes
            &&& again.describes(out) ==> {
                &&& is_table_of(again.metadata@, source, 24, kv_count_of(source))
                &&& same_table(file.metadata@, again.metadata@)
                &&& again.tensors@.len() == file.tensors@.len()
                &&& forall|i: int|
                    0 <= i < file.tensors@.len() ==> {
                        let old = #[trigger] file.tensors@[i];
                        let new = again.tensors@[i];
                        if i == lookup(file.tensors@, "token_embd.weight"@)->0 {
                            &&& new.name@ == old.name@
                            &&& new.shape@ == old.shape@
                            &&& new.ggml_type == GgmlType::Q6K
                            &&& new.data@ == quantized
                        } else {
                            same_but_place(old, new)
                        }
                    }
            }
        }),
{
    reveal(is_artifact);
    reveal(is_link);
    let n = source.len() as int;
    let (a, x, planned) = choose|
        file: GgufFile<'_>,
        order: Seq<usize>,
        planned: Seq<PlannedTensor>,
    |
        {
            &&& #[trigger] file.describes(source)
            &&& #[trigger] is_order(order, file.tensors@)
            &&& profile_fault(file) is None
            &&& relink_of(file, n, order).fault() is None
            &&& is_plan(plan, file, n, order)
            &&& #[trigger] is_planned(planned, file, n, order)
            &&& forall|quantized: Seq<u8>|
                #![trigger rendered(segments, segments.len() as int, source, quantized)]
                rendered(segments, segments.len() as int, source, quantized) == artifact_bytes(
                    file,
                    source,
                    order,
                    planned,
                    quantized,
                )
        };
    let out = rendered(segments, segments.len() as int, source, quantized);
    assert(out == artifact_bytes(a, source, x, planned, quantized));
    assert(is_link(a, source, x, planned));
    artifact_can_be_used(a, source, x, planned, quantized);
    if again.describes(out) {
        descriptions_agree(file, a, source);
        lemma_directory_bounds(source);
        lemma_directory_bounds(out);
        lemma_kept_table(again.metadata@, source, out);
        lemma_same_tables(file.metadata@, again.metadata@, source);
        lemma_same_lookup(file.tensors@, a.tensors@, "token_embd.weight"@);
        assert(again.tensors@.len() == file.tensors@.len());
        assert forall|i: int| 0 <= i < file.tensors@.len() implies {
            let old = #[trigger] file.tensors@[i];
            let new = again.tensors@[i];
            if i == lookup(file.tensors@, "token_embd.weight"@)->0 {
                &&& new.name@ == old.name@
                &&& new.shape@ == old.shape@
                &&& new.ggml_type == GgmlType::Q6K
                &&& new.data@ == quantized
            } else {
                same_but_place(old, new)
            }
        } by {
            assert(is_tensor_of(a.tensors@[i], source, i));
            assert(is_tensor_of(again.tensors@[i], out, i));
            assert(a.tensors@.len() == a.tensors.len());
            assert(x.contains(i as usize));
            lemma_kept_tensor(a, again, source, x, planned, quantized, out, i);
            assert(same_tensor(file.tensors@[i], a.tensors@[i]));
        }
    }
}

} // verus!
