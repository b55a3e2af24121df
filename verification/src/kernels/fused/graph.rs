//! Graphs of nodes: their types, their circular buffers, and how each node is computed.

use vstd::prelude::*;
use crate::dram::DType;
use crate::error;
use crate::error::Error;
use crate::executable;
use crate::executable::{CompareDirection, FusedElementwiseKind, FusedElementwiseNode, Node};
use crate::float_bits;
use crate::kernels::fused::kinds;
use crate::kernels::fused::kinds::{BinaryOp, ScalarOp};
use crate::text;

verus! {

/// The circular buffer of the result.
pub const OUTPUT_CB: u32 = 16;

/// Why a node has no element type on the device.
pub open spec fn node_refusal(n: Node) -> Option<error::Refusal> {
    executable::dtype_refusal(n.element_type.code())
}

/// The element type of a node on the device.
pub open spec fn node_type(n: Node) -> DType {
    executable::dtype_of_code(n.element_type.code())->0
}

pub fn node_dtype(node: &FusedElementwiseNode) -> (r: Result<DType, Error>)
    ensures
        match r {
            Ok(d) => node_refusal(node@) is None && d == node_type(node@),
            Err(e) => node_refusal(node@) == Some(e@),
        },
{
    executable::pjrt_buffer_type_to_dtype(node.element_type.value())
}

/// Why node `i` has no element type.
pub open spec fn type_checks(nodes: Seq<Node>) -> spec_fn(int) -> Option<error::Refusal> {
    |i: int| node_refusal(nodes[i])
}

/// The element types of all nodes.
pub open spec fn types(nodes: Seq<Node>) -> Seq<DType> {
    nodes.map_values(|n: Node| node_type(n))
}

/// Whether all nodes have element types.
pub open spec fn typed(nodes: Seq<Node>) -> bool {
    forall|i: int| 0 <= i < nodes.len() ==> #[trigger] type_checks(nodes)(i) is None
}

/// Finds the element types of all nodes.
pub fn node_dtypes(nodes: &[FusedElementwiseNode]) -> (r: Result<Vec<DType>, Error>)
    ensures
        ({
            let g = executable::nodes_view(nodes@);
            match r {
                Ok(v) => {
                    &&& error::first_refusal(0, g.len() as int, type_checks(g)) is None
                    &&& typed(g)
                    &&& v@ == types(g)
                },
                Err(e) => error::first_refusal(0, g.len() as int, type_checks(g)) == Some(e@),
            }
        }),
{
    let ghost g = executable::nodes_view(nodes@);
    let n: usize = nodes.len();
    let mut out: Vec<DType> = Vec::new();
    for i in 0..n
        invariant
            n == nodes@.len(),
            g == executable::nodes_view(nodes@),
            out@ == types(g).take(i as int),
            forall|j: int| 0 <= j < i ==> #[trigger] type_checks(g)(j) is None,
    {
        proof {
            error::lemma_first_refusal_skip(0, i as int, n as int, type_checks(g));
        }
        let d = node_dtype(&nodes[i])?;
        out.push(d);
        assert(out@ =~= types(g).take(i + 1));
        assert(type_checks(g)(i as int) is None);
    }
    proof {
        error::lemma_first_refusal_none(0, n as int, type_checks(g));
    }
    assert(out@ =~= types(g));
    Ok(out)
}

/// The number of leaves among the first `n` nodes.
pub open spec fn leaves_before(nodes: Seq<Node>, n: int) -> int
    decreases n,
{
    if n <= 0 {
        0
    } else {
        leaves_before(nodes, n - 1) + if nodes[n - 1].kind.is_leaf() {
            1int
        } else {
            0
        }
    }
}

/// The number of inputs among the first `n` nodes.
pub open spec fn inputs_before(nodes: Seq<Node>, n: int) -> int
    decreases n,
{
    if n <= 0 {
        0
    } else {
        inputs_before(nodes, n - 1) + if nodes[n - 1].kind == FusedElementwiseKind::Input {
            1int
        } else {
            0
        }
    }
}

pub open spec fn leaf_count(nodes: Seq<Node>) -> int {
    leaves_before(nodes, nodes.len() as int)
}

/// The circular buffer of node `i`: leaves come first, then intermediate
/// results, each in order; the last node writes to the output.
pub open spec fn cb_of(nodes: Seq<Node>, i: int) -> int {
    if nodes[i].kind.is_leaf() {
        leaves_before(nodes, i)
    } else if i == nodes.len() - 1 {
        16
    } else {
        leaf_count(nodes) + i - leaves_before(nodes, i)
    }
}

/// The circular buffers of all nodes.
pub open spec fn cbs(nodes: Seq<Node>) -> Seq<u32> {
    Seq::new(nodes.len(), |i: int| cb_of(nodes, i) as u32)
}

/// Why the intermediate result of node `i` gets no buffer.
pub open spec fn intermediate_checks(nodes: Seq<Node>) -> spec_fn(int) -> Option<error::Refusal> {
    |i: int|
        if nodes[i].kind.is_leaf() || i == nodes.len() - 1 {
            None
        } else if cb_of(nodes, i) >= 16 {
            Some(error::invalid("fused eltwise needs too many intermediate CBs"@))
        } else {
            node_refusal(nodes[i])
        }
}

/// Why the nodes get no buffers.
pub open spec fn cb_refusal(nodes: Seq<Node>) -> Option<error::Refusal> {
    if leaf_count(nodes) > 16 {
        Some(error::invalid("fused eltwise needs too many leaf CBs"@))
    } else if nodes.len() == 0 {
        Some(error::invalid("fused eltwise requires at least one node"@))
    } else {
        error::first_refusal(0, nodes.len() as int, intermediate_checks(nodes))
    }
}

/// The buffers of intermediate results among the first `n` nodes, with their types.
pub open spec fn intermediates(nodes: Seq<Node>, n: int) -> Seq<(u32, DType)>
    decreases n,
{
    if n <= 0 {
        Seq::empty()
    } else if nodes[n - 1].kind.is_leaf() || n == nodes.len() {
        intermediates(nodes, n - 1)
    } else {
        intermediates(nodes, n - 1).push(
            (cb_of(nodes, n - 1) as u32, node_type(nodes[n - 1])),
        )
    }
}

proof fn lemma_leaves_monotone(nodes: Seq<Node>, a: int, b: int)
    requires
        0 <= a <= b,
    ensures
        0 <= leaves_before(nodes, a) <= leaves_before(nodes, b),
        leaves_before(nodes, b) - leaves_before(nodes, a) <= b - a,
    decreases b,
{
    if a < b {
        lemma_leaves_monotone(nodes, a, b - 1);
    } else if a > 0 {
        lemma_leaves_monotone(nodes, a - 1, a - 1);
    }
}

/// No two nodes share a buffer, and no buffer lies beyond the output.
pub proof fn lemma_cbs_distinct(nodes: Seq<Node>, i: int, j: int)
    requires
        cb_refusal(nodes) is None,
        0 <= i < j < nodes.len(),
    ensures
        0 <= cb_of(nodes, i) <= 16,
        0 <= cb_of(nodes, j) <= 16,
        cb_of(nodes, i) != cb_of(nodes, j),
{
    let n = nodes.len() as int;
    lemma_cb_bound(nodes, i);
    lemma_cb_bound(nodes, j);
    lemma_leaves_monotone(nodes, 0, i);
    lemma_leaves_monotone(nodes, 0, j);
    lemma_leaves_monotone(nodes, i + 1, j);
    lemma_leaves_monotone(nodes, i + 1, n);
    lemma_leaves_monotone(nodes, j, j + 1);
    lemma_leaves_monotone(nodes, j + 1, n);
}

/// Every buffer lies within the range; only the last node can have the output.
pub proof fn lemma_cb_bound(nodes: Seq<Node>, i: int)
    requires
        cb_refusal(nodes) is None,
        0 <= i < nodes.len(),
    ensures
        0 <= cb_of(nodes, i) <= 16,
        nodes[i].kind.is_leaf() || i < nodes.len() - 1 ==> cb_of(nodes, i) < 16,
{
    let n = nodes.len() as int;
    error::lemma_first_refusal_none(0, n, intermediate_checks(nodes));
    assert(intermediate_checks(nodes)(i) is None);
    lemma_leaves_monotone(nodes, 0, i);
    lemma_leaves_monotone(nodes, i, i + 1);
    lemma_leaves_monotone(nodes, i + 1, n);
}

/// Assigns a circular buffer to every node.
pub fn cb_plan(nodes: &[FusedElementwiseNode]) -> (r: Result<(Vec<u32>, Vec<(u32, DType)>), Error>)
    ensures
        ({
            let g = executable::nodes_view(nodes@);
            match r {
                Ok((node_cbs, intermediate_cbs)) => {
                    &&& cb_refusal(g) is None
                    &&& node_cbs@ == cbs(g)
                    &&& intermediate_cbs@ == intermediates(g, g.len() as int)
                },
                Err(e) => cb_refusal(g) == Some(e@),
            }
        }),
{
    let ghost g = executable::nodes_view(nodes@);
    let n: usize = nodes.len();
    let mut leaf_total: u32 = 0;
    for i in 0..n
        invariant
            n == nodes@.len(),
            g == executable::nodes_view(nodes@),
            leaf_total == leaves_before(g, i as int),
            leaf_total <= 16,
    {
        if nodes[i].kind.leaf() {
            if leaf_total >= 16 {
                proof {
                    lemma_leaves_monotone(g, i + 1, n as int);
                }
                return Err(error::invalid_text("fused eltwise needs too many leaf CBs"));
            }
            leaf_total = leaf_total + 1;
        }
    }
    if n == 0 {
        return Err(error::invalid_text("fused eltwise requires at least one node"));
    }
    let mut node_cbs: Vec<u32> = Vec::new();
    let mut intermediate_cbs: Vec<(u32, DType)> = Vec::new();
    let mut next_leaf: u32 = 0;
    let mut next_cb: u32 = leaf_total;
    for i in 0..n
        invariant
            n == nodes@.len(),
            n > 0,
            g == executable::nodes_view(nodes@),
            leaf_total == leaf_count(g),
            leaf_total <= 16,
            next_leaf == leaves_before(g, i as int),
            next_leaf <= 16,
            next_cb == leaf_total + (if i < n { i as int } else { n - 1 }) - leaves_before(
                g,
                (if i < n { i as int } else { n - 1 }),
            ) || i == n,
            next_cb <= 16,
            node_cbs@ == cbs(g).take(i as int),
            intermediate_cbs@ == intermediates(g, i as int),
            forall|j: int| 0 <= j < i ==> #[trigger] intermediate_checks(g)(j) is None,
    {
        proof {
            error::lemma_first_refusal_skip(0, i as int, n as int, intermediate_checks(g));
            lemma_leaves_monotone(g, i + 1, n as int);
        }
        if nodes[i].kind.leaf() {
            node_cbs.push(next_leaf);
            next_leaf = next_leaf + 1;
        } else if i == n - 1 {
            node_cbs.push(OUTPUT_CB);
        } else {
            if next_cb >= 16 {
                return Err(error::invalid_text("fused eltwise needs too many intermediate CBs"));
            }
            node_cbs.push(next_cb);
            let d = node_dtype(&nodes[i])?;
            intermediate_cbs.push((next_cb, d));
            next_cb = next_cb + 1;
        }
        assert(node_cbs@ =~= cbs(g).take(i + 1));
        assert(intermediate_checks(g)(i as int) is None);
    }
    proof {
        error::lemma_first_refusal_none(0, n as int, intermediate_checks(g));
    }
    assert(node_cbs@ =~= cbs(g));
    Ok((node_cbs, intermediate_cbs))
}

/// The value of a constant as a single precision number or an integer.
pub open spec fn constant_bits(n: Node) -> Option<u32> {
    if n.kind != FusedElementwiseKind::Constant {
        None
    } else {
        let half = n.packed_value as int % 0x1_0000;
        Some(
            match node_type(n) {
                DType::Float16B => (half * 0x1_0000) as u32,
                DType::Float16 => float_bits::widened(half) as u32,
                _ => n.packed_value,
            },
        )
    }
}

fn constant_scalar_bits(node: &FusedElementwiseNode, dtype: DType) -> (r: Option<u32>)
    requires
        dtype == node_type(node@),
    ensures
        r == constant_bits(node@),
{
    if node.kind != FusedElementwiseKind::Constant {
        return None;
    }
    let half: u32 = node.packed_value % 0x1_0000;
    Some(
        match dtype {
            DType::Float16B => half * 0x1_0000,
            DType::Float16 => float_bits::f16_to_f32_bits(half as u16),
            _ => node.packed_value,
        },
    )
}

/// How a node is computed. Operands are numbers of nodes.
#[derive(Clone, Copy, Debug, PartialEq, Eq, Structural)]
pub enum Lowering {
    Leaf,
    Unary { input: u32, kind: FusedElementwiseKind },
    Convert { input: u32, from: DType, to: DType },
    Scalar { value: u32, op: ScalarOp, scalar: u32 },
    Helper { lhs: u32, rhs: u32, kind: FusedElementwiseKind },
    Binary { lhs: u32, rhs: u32, op: BinaryOp },
    RawBitwise { lhs: u32, rhs: u32, kind: executable::BitwiseBinaryKind },
    Compare { lhs: u32, rhs: u32, direction: CompareDirection, int32_input: bool },
}

/// The function of one operand and a constant that computes `kind`, where the
/// other operand is of type `d` and stands on the left or on the right.
pub open spec fn scalar_op(
    kind: FusedElementwiseKind,
    d: DType,
    on_left: bool,
    constant: u32,
) -> Option<(ScalarOp, u32)> {
    let float = kinds::is_float(d);
    match kind {
        FusedElementwiseKind::Add => if float {
            Some((ScalarOp::Add, constant))
        } else if d == DType::Int32 {
            Some((ScalarOp::AddInt, constant))
        } else {
            None
        },
        FusedElementwiseKind::Subtract => if float {
            if on_left {
                Some((ScalarOp::Subtract, constant))
            } else {
                Some((ScalarOp::SubtractFrom, constant))
            }
        } else if d == DType::Int32 && on_left {
            Some((ScalarOp::SubtractInt, constant))
        } else {
            None
        },
        FusedElementwiseKind::Multiply => if float {
            Some((ScalarOp::Multiply, constant))
        } else {
            None
        },
        FusedElementwiseKind::Divide => if !float {
            None
        } else if on_left {
            Some((ScalarOp::Divide, float_bits::reciprocal(constant as int) as u32))
        } else {
            Some((ScalarOp::DivideInto, constant))
        },
        FusedElementwiseKind::Power => if !float {
            None
        } else if on_left {
            Some((ScalarOp::Power, constant))
        } else {
            Some((ScalarOp::PowerOf, constant))
        },
        FusedElementwiseKind::Max => if float {
            Some((ScalarOp::Max, constant))
        } else {
            None
        },
        FusedElementwiseKind::Compare(direction) => {
            let seen = if on_left {
                direction
            } else {
                direction.turned()
            };
            Some((ScalarOp::Compare { direction: seen, int32_input: d == DType::Int32 }, constant))
        },
        _ => None,
    }
}

fn scalar_compute(
    kind: FusedElementwiseKind,
    dtype: DType,
    on_left: bool,
    constant: u32,
) -> (r: Option<(ScalarOp, u32)>)
    ensures
        r == scalar_op(kind, dtype, on_left, constant),
{
    let float: bool = kinds::is_float_dtype(dtype);
    match kind {
        FusedElementwiseKind::Add => if float {
            Some((ScalarOp::Add, constant))
        } else if dtype == DType::Int32 {
            Some((ScalarOp::AddInt, constant))
        } else {
            None
        },
        FusedElementwiseKind::Subtract => if float {
            if on_left {
                Some((ScalarOp::Subtract, constant))
            } else {
                Some((ScalarOp::SubtractFrom, constant))
            }
        } else if dtype == DType::Int32 && on_left {
            Some((ScalarOp::SubtractInt, constant))
        } else {
            None
        },
        FusedElementwiseKind::Multiply => if float {
            Some((ScalarOp::Multiply, constant))
        } else {
            None
        },
        FusedElementwiseKind::Divide => if !float {
            None
        } else if on_left {
            Some((ScalarOp::Divide, float_bits::reciprocal_bits(constant)))
        } else {
            Some((ScalarOp::DivideInto, constant))
        },
        FusedElementwiseKind::Power => if !float {
            None
        } else if on_left {
            Some((ScalarOp::Power, constant))
        } else {
            Some((ScalarOp::PowerOf, constant))
        },
        FusedElementwiseKind::Max => if float {
            Some((ScalarOp::Max, constant))
        } else {
            None
        },
        FusedElementwiseKind::Compare(direction) => {
            let seen: CompareDirection = if on_left {
                direction
            } else {
                direction.reversed()
            };
            Some(
                (
                    ScalarOp::Compare { direction: seen, int32_input: dtype == DType::Int32 },
                    constant,
                ),
            )
        },
        _ => None,
    }
}

/// Whether node `i` has its operands, and they are nodes of the graph.
pub open spec fn has_operands(nodes: Seq<Node>, i: int) -> bool {
    &&& nodes[i].inputs.len() >= nodes[i].kind.operands()
    &&& forall|j: int|
        0 <= j < nodes[i].inputs.len() ==> #[trigger] nodes[i].inputs[j] < nodes.len()
}

/// The lowering to a function of one operand and a constant, where there is one:
/// exactly one operand is a constant.
pub open spec fn scalar_lowering(nodes: Seq<Node>, i: int) -> Option<Lowering> {
    let n = nodes[i];
    let lhs = nodes[n.inputs[0] as int];
    let rhs = nodes[n.inputs[1] as int];
    if constant_bits(lhs) is None && constant_bits(rhs) is Some {
        match scalar_op(n.kind, node_type(lhs), true, constant_bits(rhs)->0) {
            Some((op, scalar)) => Some(Lowering::Scalar { value: n.inputs[0], op, scalar }),
            None => None,
        }
    } else if constant_bits(lhs) is Some && constant_bits(rhs) is None {
        match scalar_op(n.kind, node_type(rhs), false, constant_bits(lhs)->0) {
            Some((op, scalar)) => Some(Lowering::Scalar { value: n.inputs[1], op, scalar }),
            None => None,
        }
    } else {
        None
    }
}

/// Why node `i` cannot be computed.
pub open spec fn lowering_refusal(nodes: Seq<Node>, i: int) -> Option<error::Refusal> {
    let n = nodes[i];
    match n.kind {
        FusedElementwiseKind::Bitwise(kind) => if kinds::bitwise_takes(kind, node_type(n))
            || node_type(n) == DType::UInt8 {
            None
        } else {
            Some(
                error::invalid(
                    "missing bitwise lowering for "@ + n.kind.shown() + " with dtype "@ + node_type(
                        n,
                    ).shown(),
                ),
            )
        },
        _ => None,
    }
}

/// How node `i` is computed.
pub open spec fn lowering(nodes: Seq<Node>, i: int) -> Lowering {
    let n = nodes[i];
    if n.kind.operands() == 0 {
        Lowering::Leaf
    } else if n.kind.operands() == 1 {
        let input = n.inputs[0];
        if n.kind == FusedElementwiseKind::Convert {
            Lowering::Convert { input, from: node_type(nodes[input as int]), to: node_type(n) }
        } else {
            Lowering::Unary { input, kind: n.kind }
        }
    } else {
        let lhs = n.inputs[0];
        let rhs = n.inputs[1];
        match n.kind {
            FusedElementwiseKind::Bitwise(kind) => if kinds::bitwise_takes(kind, node_type(n)) {
                Lowering::Binary { lhs, rhs, op: BinaryOp::Bitwise { kind, dtype: node_type(n) } }
            } else {
                Lowering::RawBitwise { lhs, rhs, kind }
            },
            _ => match scalar_lowering(nodes, i) {
                Some(l) => l,
                None => match n.kind {
                    FusedElementwiseKind::Compare(direction) => Lowering::Compare {
                        lhs,
                        rhs,
                        direction,
                        int32_input: node_type(nodes[lhs as int]) == DType::Int32,
                    },
                    FusedElementwiseKind::Divide => Lowering::Binary {
                        lhs,
                        rhs,
                        op: BinaryOp::Divide,
                    },
                    FusedElementwiseKind::Power => Lowering::Binary {
                        lhs,
                        rhs,
                        op: BinaryOp::Power,
                    },
                    FusedElementwiseKind::Max => Lowering::Binary { lhs, rhs, op: BinaryOp::Max },
                    _ => Lowering::Helper { lhs, rhs, kind: n.kind },
                },
            },
        }
    }
}

fn find_scalar_lowering(nodes: &[FusedElementwiseNode], dtypes: &[DType], index: usize) -> (r:
    Option<Lowering>)
    requires
        index < nodes@.len(),
        has_operands(executable::nodes_view(nodes@), index as int),
        nodes@[index as int].kind.operands() == 2,
        dtypes@ == types(executable::nodes_view(nodes@)),
    ensures
        r == scalar_lowering(executable::nodes_view(nodes@), index as int),
{
    let ghost g = executable::nodes_view(nodes@);
    let node = &nodes[index];
    assert(g[index as int] == node@);
    let lhs: u32 = node.input_nodes[0];
    let rhs: u32 = node.input_nodes[1];
    assert(g[index as int].inputs[0] < g.len() && g[index as int].inputs[1] < g.len());
    let left: Option<u32> = constant_scalar_bits(&nodes[lhs as usize], dtypes[lhs as usize]);
    let right: Option<u32> = constant_scalar_bits(&nodes[rhs as usize], dtypes[rhs as usize]);
    match (left, right) {
        (None, Some(constant)) => match scalar_compute(
            node.kind,
            dtypes[lhs as usize],
            true,
            constant,
        ) {
            Some((op, scalar)) => Some(Lowering::Scalar { value: lhs, op, scalar }),
            None => None,
        },
        (Some(constant), None) => match scalar_compute(
            node.kind,
            dtypes[rhs as usize],
            false,
            constant,
        ) {
            Some((op, scalar)) => Some(Lowering::Scalar { value: rhs, op, scalar }),
            None => None,
        },
        _ => None,
    }
}

/// Decides how a node is computed.
pub fn lowering_for(nodes: &[FusedElementwiseNode], dtypes: &[DType], index: usize) -> (r: Result<
    Lowering,
    Error,
>)
    requires
        index < nodes@.len(),
        has_operands(executable::nodes_view(nodes@), index as int),
        dtypes@ == types(executable::nodes_view(nodes@)),
    ensures
        ({
            let g = executable::nodes_view(nodes@);
            match r {
                Ok(l) => lowering_refusal(g, index as int) is None && l == lowering(
                    g,
                    index as int,
                ),
                Err(e) => lowering_refusal(g, index as int) == Some(e@),
            }
        }),
{
    let ghost g = executable::nodes_view(nodes@);
    let node = &nodes[index];
    assert(g[index as int] == node@);
    let kind: FusedElementwiseKind = node.kind;
    let dtype: DType = dtypes[index];
    let arity: usize = kind.arity();
    if arity == 0 {
        return Ok(Lowering::Leaf);
    }
    let lhs: u32 = node.input_nodes[0];
    assert(g[index as int].inputs[0] < g.len());
    if arity == 1 {
        if kind == FusedElementwiseKind::Convert {
            return Ok(Lowering::Convert { input: lhs, from: dtypes[lhs as usize], to: dtype });
        }
        return Ok(Lowering::Unary { input: lhs, kind });
    }
    let rhs: u32 = node.input_nodes[1];
    if let FusedElementwiseKind::Bitwise(bits) = kind {
        if kinds::bitwise_supported(bits, dtype) {
            return Ok(Lowering::Binary { lhs, rhs, op: BinaryOp::Bitwise { kind: bits, dtype } });
        }
        if dtype != DType::UInt8 {
            return Err(
                error::invalid_input(
                    text::cat4(
                        "missing bitwise lowering for ",
                        kind.name().as_str(),
                        " with dtype ",
                        dtype.name(),
                    ),
                ),
            );
        }
        return Ok(Lowering::RawBitwise { lhs, rhs, kind: bits });
    }
    if let Some(l) = find_scalar_lowering(nodes, dtypes, index) {
        return Ok(l);
    }
    Ok(
        match kind {
            FusedElementwiseKind::Compare(direction) => Lowering::Compare {
                lhs,
                rhs,
                direction,
                int32_input: dtypes[lhs as usize] == DType::Int32,
            },
            FusedElementwiseKind::Divide => Lowering::Binary { lhs, rhs, op: BinaryOp::Divide },
            FusedElementwiseKind::Power => Lowering::Binary { lhs, rhs, op: BinaryOp::Power },
            FusedElementwiseKind::Max => Lowering::Binary { lhs, rhs, op: BinaryOp::Max },
            _ => Lowering::Helper { lhs, rhs, kind },
        },
    )
}

} // verus!
