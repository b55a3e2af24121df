//! What executables compute, and that reading one from the wire keeps it.

use vstd::prelude::*;
use crate::executable;
use crate::executable::wire;
use crate::executable::wire::{WireExecutable, WireKind, WireNode, WireOp};
use crate::executable::{
    DotGeneralDimensionNumbers, Executable, GatherDimensionNumbers, Node, Op, ReduceReducer,
    ReduceWindowAttributes, ScatterDimensionNumbers,
};
use crate::executable::ValueDesc;
use crate::error;
use crate::numbers::Arithmetic;

verus! {

/// What node `k` of a graph computes from its inputs. Nodes come after their operands.
pub open spec fn node_value(
    nodes: Seq<Node>,
    n: Arithmetic,
    input: spec_fn(u32) -> int,
    k: int,
) -> int
    decreases k,
{
    let node = nodes[k];
    let a = if node.inputs.len() > 0 && node.inputs[0] < k {
        node_value(nodes, n, input, node.inputs[0] as int)
    } else {
        0
    };
    let b = if node.inputs.len() > 1 && node.inputs[1] < k {
        node_value(nodes, n, input, node.inputs[1] as int)
    } else {
        0
    };
    node.kind.result(n, input(node.input_index), (n.number)(node.packed_value), a, b)
}

/// What node `k` of a graph on the wire computes.
pub open spec fn wire_node_value(
    nodes: Seq<WireNode>,
    n: Arithmetic,
    input: spec_fn(u32) -> int,
    k: int,
) -> int
    decreases k,
{
    let node = nodes[k];
    let a = if node.input_nodes@.len() > 0 && node.input_nodes@[0] < k {
        wire_node_value(nodes, n, input, node.input_nodes@[0] as int)
    } else {
        0
    };
    let b = if node.input_nodes@.len() > 1 && node.input_nodes@[1] < k {
        wire_node_value(nodes, n, input, node.input_nodes@[1] as int)
    } else {
        0
    };
    node.kind->0.result(
        node.compare_direction,
        n,
        input(node.input_index),
        (n.number)(node.packed_value),
        a,
        b,
    )
}

/// Every node of a graph that was read computes what it computes on the wire, from the same
/// inputs.
pub proof fn lemma_graph_keeps_value(
    nodes: Seq<WireNode>,
    n: Arithmetic,
    input: spec_fn(u32) -> int,
    k: int,
)
    requires
        0 <= k < nodes.len(),
    ensures
        node_value(wire::nodes_of(nodes), n, input, k) == wire_node_value(nodes, n, input, k),
        wire::nodes_of(nodes)[k].single_tile_broadcast == nodes[k].single_tile_broadcast,
        wire::nodes_of(nodes)[k].element_type.format() == nodes[k].element_type->0.format(),
    decreases k,
{
    let node = nodes[k];
    if node.input_nodes@.len() > 0 && node.input_nodes@[0] < k {
        lemma_graph_keeps_value(nodes, n, input, node.input_nodes@[0] as int);
    }
    if node.input_nodes@.len() > 1 && node.input_nodes@[1] < k {
        lemma_graph_keeps_value(nodes, n, input, node.input_nodes@[1] as int);
    }
    wire::lemma_kind_keeps_meaning(
        node.kind->0,
        node.compare_direction,
        n,
        input(node.input_index),
        (n.number)(node.packed_value),
        if node.input_nodes@.len() > 0 && node.input_nodes@[0] < k {
            wire_node_value(nodes, n, input, node.input_nodes@[0] as int)
        } else {
            0
        },
        if node.input_nodes@.len() > 1 && node.input_nodes@[1] < k {
            wire_node_value(nodes, n, input, node.input_nodes@[1] as int)
        } else {
            0
        },
    );
    wire::lemma_element_keeps_format(node.element_type->0, node.element_type->0);
}

/// Functions on tensors, of which laws say only what holds whatever they are. The operands
/// stand in the order in which their names say what they are for.
pub struct Operations {
    pub parameter: spec_fn(int) -> int,
    pub constant: spec_fn(u32, Seq<u8>) -> int,
    pub concatenate: spec_fn(u64, Seq<int>) -> int,
    pub reshape: spec_fn(int) -> int,
    /// Operand, starts, limits, strides.
    pub slice: spec_fn(int, Seq<i64>, Seq<i64>, Seq<i64>) -> int,
    pub transpose: spec_fn(int, Seq<i64>) -> int,
    pub custom: spec_fn(Seq<char>, bool, Seq<int>) -> int,
    /// Reducer, dimensions, operands, initial values.
    pub reduce: spec_fn(ReduceReducer, Seq<i64>, Seq<int>, Seq<int>) -> int,
    pub reduce_window: spec_fn(ReduceReducer, ReduceWindowAttributes, Seq<int>, Seq<int>) -> int,
    /// Dimensions, left operand, right operand.
    pub matmul: spec_fn(DotGeneralDimensionNumbers, int, int) -> int,
    /// Predicate, value where it holds, value where it does not.
    pub select: spec_fn(int, int, int) -> int,
    pub broadcast: spec_fn(int, Seq<i64>) -> int,
    /// Dimensions, sizes of slices, operand, start indices.
    pub gather: spec_fn(GatherDimensionNumbers, Seq<i64>, int, int) -> int,
    /// Dimensions, operand, start indices, updates.
    pub scatter: spec_fn(ScatterDimensionNumbers, int, int, int) -> int,
    pub iota: spec_fn(u64) -> int,
    /// Operand, number of values.
    pub top: spec_fn(int, u32) -> int,
    /// Scale, queries, keys, values, sequence lengths, places.
    pub attention: spec_fn(u32, int, int, int, int, int) -> int,
    /// Scale, bias, operand, weights.
    pub norm: spec_fn(u32, u32, int, int) -> int,
    /// Operand, cosines, sines.
    pub rope: spec_fn(int, int, int) -> int,
    /// The arithmetic of fused operations.
    pub numbers: Arithmetic,
}

/// The values of a list of tensors.
pub open spec fn values_of(ids: Seq<u32>, value: spec_fn(u32) -> int) -> Seq<int> {
    ids.map_values(|id: u32| value(id))
}

/// The value of input `i` of a fused operation.
pub open spec fn input_values(ids: Seq<u32>, value: spec_fn(u32) -> int) -> spec_fn(u32) -> int {
    |i: u32| value(ids[i as int])
}

/// Whether this is a fused operation without nodes, which computes nothing.
pub open spec fn no_graph(kind: WireKind) -> bool {
    match kind {
        WireKind::FusedElementwise { nodes, .. } => nodes@.len() == 0,
        _ => false,
    }
}

/// What an operation on the wire computes from the values of tensors.
pub open spec fn wire_result(kind: WireKind, m: Operations, value: spec_fn(u32) -> int) -> int {
    match kind {
        WireKind::Parameter { parameter_index } => (m.parameter)(parameter_index as int),
        WireKind::Concatenate { input_ids, dimension } => (m.concatenate)(
            dimension,
            values_of(input_ids@, value),
        ),
        WireKind::Reshape { operand_id } => (m.reshape)(value(operand_id)),
        WireKind::Slice { operand_id, start_indices, limit_indices, strides } => (m.slice)(
            value(operand_id),
            start_indices@,
            limit_indices@,
            strides@,
        ),
        WireKind::Transpose { operand_id, permutation } => (m.transpose)(
            value(operand_id),
            permutation@,
        ),
        WireKind::CustomCall { input_ids, call_target_name, has_side_effect } => (m.custom)(
            call_target_name@,
            has_side_effect,
            values_of(input_ids@, value),
        ),
        WireKind::Reduce { input_ids, init_value_ids, dimensions, reducer } => (m.reduce)(
            reducer->0,
            dimensions@,
            values_of(input_ids@, value),
            values_of(init_value_ids@, value),
        ),
        WireKind::ReduceWindow { input_ids, init_value_ids, attributes, reducer } => (
        m.reduce_window)(
            reducer->0,
            attributes,
            values_of(input_ids@, value),
            values_of(init_value_ids@, value),
        ),
        WireKind::Matmul { lhs_id, rhs_id, dimension_numbers, .. } => (m.matmul)(
            dimension_numbers,
            value(lhs_id),
            value(rhs_id),
        ),
        WireKind::Constant { packed_value, data } => (m.constant)(packed_value, data@),
        WireKind::Select { pred_id, on_true_id, on_false_id } => (m.select)(
            value(pred_id),
            value(on_true_id),
            value(on_false_id),
        ),
        WireKind::BroadcastInDim { operand_id, broadcast_dimensions } => (m.broadcast)(
            value(operand_id),
            broadcast_dimensions@,
        ),
        WireKind::Gather { operand_id, start_indices_id, dimension_numbers, slice_sizes, .. } => (
        m.gather)(
            dimension_numbers,
            slice_sizes@,
            value(operand_id),
            value(start_indices_id),
        ),
        WireKind::Scatter { operand_id, start_indices_id, updates_id, dimension_numbers, .. } => (
        m.scatter)(
            dimension_numbers,
            value(operand_id),
            value(start_indices_id),
            value(updates_id),
        ),
        WireKind::BitwiseBinary { lhs_id, rhs_id, kind } => kind.result(
            m.numbers,
            value(lhs_id),
            value(rhs_id),
        ),
        WireKind::Iota { iota_dimension } => (m.iota)(iota_dimension),
        WireKind::TopK { operand_id, k, .. } => (m.top)(value(operand_id), k),
        WireKind::FusedElementwise { input_ids, nodes } => wire_node_value(
            nodes@,
            m.numbers,
            input_values(input_ids@, value),
            nodes@.len() - 1,
        ),
        WireKind::SdpaDecode { q_id, k_id, v_id, seq_lens_id, loc_id, scale_bf16_packed } => (
        m.attention)(
            scale_bf16_packed,
            value(q_id),
            value(k_id),
            value(v_id),
            value(seq_lens_id),
            value(loc_id),
        ),
        WireKind::RmsNorm { input_id, weight_id, scale_bits, bias_bits } => (m.norm)(
            scale_bits,
            bias_bits,
            value(input_id),
            value(weight_id),
        ),
        WireKind::Rope { input_id, cos_id, sin_id } => (m.rope)(
            value(input_id),
            value(cos_id),
            value(sin_id),
        ),
    }
}

/// What an operation computes from the values of tensors.
pub open spec fn op_result(op: Op, m: Operations, value: spec_fn(u32) -> int) -> int {
    match op {
        Op::Parameter { parameter_index, .. } => (m.parameter)(parameter_index as int),
        Op::Concatenate { input_ids, dimension, .. } => (m.concatenate)(
            dimension,
            values_of(input_ids@, value),
        ),
        Op::Reshape { input_id, .. } => (m.reshape)(value(input_id)),
        Op::Slice { input_id, start_indices, limit_indices, strides, .. } => (m.slice)(
            value(input_id),
            start_indices@,
            limit_indices@,
            strides@,
        ),
        Op::Transpose { input_id, permutation, .. } => (m.transpose)(value(input_id), permutation@),
        Op::CustomCall { input_ids, call_target_name, has_side_effect, .. } => (m.custom)(
            call_target_name@,
            has_side_effect,
            values_of(input_ids@, value),
        ),
        Op::Reduce { input_ids, init_value_ids, dimensions, reducer, .. } => (m.reduce)(
            reducer,
            dimensions@,
            values_of(input_ids@, value),
            values_of(init_value_ids@, value),
        ),
        Op::ReduceWindow { input_ids, init_value_ids, attributes, reducer, .. } => (
        m.reduce_window)(
            reducer,
            attributes,
            values_of(input_ids@, value),
            values_of(init_value_ids@, value),
        ),
        Op::Matmul { input_ids, dimension_numbers, .. } => (m.matmul)(
            dimension_numbers,
            value(input_ids@[0]),
            value(input_ids@[1]),
        ),
        Op::Constant { packed_value, data, .. } => (m.constant)(packed_value, data@),
        Op::Select { input_ids, .. } => (m.select)(
            value(input_ids@[0]),
            value(input_ids@[1]),
            value(input_ids@[2]),
        ),
        Op::BroadcastInDim { input_id, broadcast_dimensions, .. } => (m.broadcast)(
            value(input_id),
            broadcast_dimensions@,
        ),
        Op::Gather { input_ids, dimension_numbers, slice_sizes, .. } => (m.gather)(
            dimension_numbers,
            slice_sizes@,
            value(input_ids@[0]),
            value(input_ids@[1]),
        ),
        Op::Scatter { input_ids, dimension_numbers, .. } => (m.scatter)(
            dimension_numbers,
            value(input_ids@[0]),
            value(input_ids@[1]),
            value(input_ids@[2]),
        ),
        Op::Iota { iota_dimension, .. } => (m.iota)(iota_dimension),
        Op::TopK { input_id, k, .. } => (m.top)(value(input_id), k),
        Op::FusedElementwise { input_ids, nodes, .. } => node_value(
            executable::nodes_view(nodes@),
            m.numbers,
            input_values(input_ids@, value),
            nodes@.len() - 1,
        ),
        Op::SdpaDecode { input_ids, scale_bf16_packed, .. } => (m.attention)(
            scale_bf16_packed,
            value(input_ids@[0]),
            value(input_ids@[1]),
            value(input_ids@[2]),
            value(input_ids@[3]),
            value(input_ids@[4]),
        ),
        Op::RmsNorm { input_ids, scale_bits, bias_bits, .. } => (m.norm)(
            scale_bits,
            bias_bits,
            value(input_ids@[0]),
            value(input_ids@[1]),
        ),
        Op::Rope { input_ids, .. } => (m.rope)(
            value(input_ids@[0]),
            value(input_ids@[1]),
            value(input_ids@[2]),
        ),
    }
}

/// The tensor that an operation computes; of a choice of the largest values, the values.
pub open spec fn op_output(op: Op) -> u32 {
    match op {
        Op::Parameter { output_id, .. } => output_id,
        Op::Concatenate { output_id, .. } => output_id,
        Op::Reshape { output_id, .. } => output_id,
        Op::Slice { output_id, .. } => output_id,
        Op::Transpose { output_id, .. } => output_id,
        Op::CustomCall { output_id, .. } => output_id,
        Op::Reduce { output_id, .. } => output_id,
        Op::ReduceWindow { output_id, .. } => output_id,
        Op::Matmul { output_id, .. } => output_id,
        Op::Constant { output_id, .. } => output_id,
        Op::Select { output_id, .. } => output_id,
        Op::BroadcastInDim { output_id, .. } => output_id,
        Op::Gather { output_id, .. } => output_id,
        Op::Scatter { output_id, .. } => output_id,
        Op::Iota { output_id, .. } => output_id,
        Op::TopK { values_id, .. } => values_id,
        Op::FusedElementwise { output_id, .. } => output_id,
        Op::SdpaDecode { output_id, .. } => output_id,
        Op::RmsNorm { output_id, .. } => output_id,
        Op::Rope { output_id, .. } => output_id,
    }
}

/// Every operation of an executable that was read computes what it computes on the wire, from
/// the same tensors in the same parts, and into the same tensor. The tensors have the same
/// dimensions and are written in the same bits.
pub proof fn lemma_read_keeps_meaning(
    x: Executable,
    w: WireExecutable,
    i: int,
    m: Operations,
    value: spec_fn(u32) -> int,
)
    requires
        wire::executable_is(x, w),
        wire::executable_refusal(w) is None,
    ensures
        x.values@.len() == w.values@.len(),
        x.ops@.len() == w.ops@.len(),
        x.output_ids@ == w.output_ids@,
        0 <= i < w.values@.len() ==> {
            let t = w.values@[i].tensor->0;
            &&& x.values@[i].dims@ == t.dims@
            &&& x.values@[i].element_type.format() == t.element_type->0.format()
            &&& x.values@[i].element_type.format() is Some
        },
        0 <= i < w.ops@.len() ==> {
            &&& op_output(x.ops@[i]) == w.ops@[i].output_id
            &&& !no_graph(w.ops@[i].kind->0) ==> op_result(x.ops@[i], m, value) == wire_result(
                w.ops@[i].kind->0,
                m,
                value,
            )
        },
{
    if 0 <= i < w.values@.len() {
        error::lemma_first_refusal_none(0, w.values@.len() as int, wire::value_checks(w.values@));
        assert(wire::value_checks(w.values@)(i) is None);
        let t = w.values@[i].tensor->0;
        wire::lemma_element_keeps_format(t.element_type->0, t.element_type->0);
        assert(wire::tensor_is(x.values@[i], t));
    }
    if 0 <= i < w.ops@.len() {
        lemma_op_keeps_meaning(x.ops@[i], w.ops@[i], x.values@, m, value);
    }
}

proof fn lemma_op_keeps_meaning(
    op: Op,
    w: WireOp,
    values: Seq<ValueDesc>,
    m: Operations,
    value: spec_fn(u32) -> int,
)
    requires
        wire::op_is(op, w, values),
    ensures
        op_output(op) == w.output_id,
        !no_graph(w.kind->0) ==> op_result(op, m, value) == wire_result(w.kind->0, m, value),
{
    match w.kind->0 {
        WireKind::FusedElementwise { input_ids, nodes } => {
            if nodes@.len() > 0 {
                let last = nodes@.len() - 1;
                let input = input_values(input_ids@, value);
                lemma_graph_keeps_value(nodes@, m.numbers, input, last);
                let ns = op->FusedElementwise_nodes;
                assert(executable::nodes_view(ns@).len() == ns@.len());
                assert(wire::nodes_of(nodes@).len() == nodes@.len());
            }
        },
        WireKind::BitwiseBinary { lhs_id, rhs_id, kind } => {
            let ids = op->FusedElementwise_input_ids;
            let ns = op->FusedElementwise_nodes;
            let nodes = executable::nodes_view(ns@);
            let input = input_values(ids@, value);
            assert(ns@.len() == nodes.len());
            assert(node_value(nodes, m.numbers, input, 0) == value(lhs_id));
            assert(node_value(nodes, m.numbers, input, 1) == value(rhs_id));
            assert(nodes[2].inputs[0] == 0 && nodes[2].inputs[1] == 1);
        },
        _ => {},
    }
}

} // verus!
