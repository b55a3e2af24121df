//! The wire form of executables, as a decoder hands it over, and its checks.

use vstd::prelude::*;
use crate::error;
use crate::error::{Error, ErrorKind};
use crate::executable;
use crate::executable::{
    BitwiseBinaryKind, CompareDirection, DotGeneralDimensionNumbers, Executable,
    FusedElementwiseKind, FusedElementwiseNode, GatherDimensionNumbers, MatmulTopKEpilogue, Node,
    Op, PJRT_Buffer_Type, ReduceReducer, ReduceWindowAttributes, ScatterDimensionNumbers,
    ValueDesc,
};
use crate::numbers::{Arithmetic, NumberClass, NumberFormat};
use crate::text;

verus! {

/// Element types on the wire.
#[derive(Clone, Copy, Debug, PartialEq, Eq, Structural)]
pub enum WireElementType {
    Unknown,
    Bf16,
    F16,
    F32,
    U32,
    U16,
    U8,
    S32,
    S8,
    Pred,
}

/// Kinds of nodes on the wire. The direction of a comparison is a field of its own.
#[derive(Clone, Copy, Debug, PartialEq, Eq, Structural)]
pub enum WireNodeKind {
    Input,
    Constant,
    Add,
    Subtract,
    Multiply,
    Divide,
    Power,
    Max,
    Compare,
    Cosine,
    Sine,
    Negate,
    Exponential,
    Rsqrt,
    Log,
    Convert,
}

/// A tensor on the wire. A number that is no element type is `None`.
#[derive(Debug)]
pub struct WireTensor {
    pub dims: Vec<i64>,
    pub element_type: Option<WireElementType>,
}

#[derive(Debug)]
pub struct WireValue {
    pub tensor: Option<WireTensor>,
}

/// A node of a fused operation on the wire. Numbers that stand for nothing are `None`.
#[derive(Debug)]
pub struct WireNode {
    pub kind: Option<WireNodeKind>,
    pub compare_direction: Option<CompareDirection>,
    pub input_nodes: Vec<u32>,
    pub input_index: u32,
    pub packed_value: u32,
    pub element_type: Option<WireElementType>,
    pub single_tile_broadcast: bool,
}

/// The kind of an operation on the wire, with its attributes.
#[derive(Debug)]
pub enum WireKind {
    Parameter { parameter_index: u32 },
    Concatenate { input_ids: Vec<u32>, dimension: u64 },
    Reshape { operand_id: u32 },
    Slice {
        operand_id: u32,
        start_indices: Vec<i64>,
        limit_indices: Vec<i64>,
        strides: Vec<i64>,
    },
    Transpose { operand_id: u32, permutation: Vec<i64> },
    CustomCall { input_ids: Vec<u32>, call_target_name: String, has_side_effect: bool },
    Reduce {
        input_ids: Vec<u32>,
        init_value_ids: Vec<u32>,
        dimensions: Vec<i64>,
        reducer: Option<ReduceReducer>,
    },
    ReduceWindow {
        input_ids: Vec<u32>,
        init_value_ids: Vec<u32>,
        attributes: ReduceWindowAttributes,
        reducer: Option<ReduceReducer>,
    },
    Matmul {
        lhs_id: u32,
        rhs_id: u32,
        dimension_numbers: DotGeneralDimensionNumbers,
        top_k_epilogue: Option<MatmulTopKEpilogue>,
    },
    Constant { packed_value: u32, data: Vec<u8> },
    Select { pred_id: u32, on_true_id: u32, on_false_id: u32 },
    BroadcastInDim { operand_id: u32, broadcast_dimensions: Vec<i64> },
    Gather {
        operand_id: u32,
        start_indices_id: u32,
        dimension_numbers: GatherDimensionNumbers,
        slice_sizes: Vec<i64>,
        indices_are_sorted: bool,
    },
    Scatter {
        operand_id: u32,
        start_indices_id: u32,
        updates_id: u32,
        dimension_numbers: ScatterDimensionNumbers,
        indices_are_sorted: bool,
        unique_indices: bool,
    },
    BitwiseBinary { lhs_id: u32, rhs_id: u32, kind: BitwiseBinaryKind },
    Iota { iota_dimension: u64 },
    TopK { operand_id: u32, indices_id: u32, k: u32 },
    FusedElementwise { input_ids: Vec<u32>, nodes: Vec<WireNode> },
    SdpaDecode {
        q_id: u32,
        k_id: u32,
        v_id: u32,
        seq_lens_id: u32,
        loc_id: u32,
        scale_bf16_packed: u32,
    },
    RmsNorm { input_id: u32, weight_id: u32, scale_bits: u32, bias_bits: u32 },
    Rope { input_id: u32, cos_id: u32, sin_id: u32 },
}

#[derive(Debug)]
pub struct WireOp {
    pub kind: Option<WireKind>,
    pub output_id: u32,
}

#[derive(Debug)]
pub struct WireExecutable {
    pub values: Vec<WireValue>,
    pub ops: Vec<WireOp>,
    pub output_ids: Vec<u32>,
}

/// The refusal of malformed wire data.
pub open spec fn malformed(message: Seq<char>) -> error::Refusal {
    (ErrorKind::InvalidData, message)
}

fn malformed_data(message: String) -> (e: Error)
    ensures
        e@ == malformed(message@),
{
    Error::new(ErrorKind::InvalidData, message)
}

/// Why an element type is refused.
pub open spec fn element_refusal(t: Option<WireElementType>) -> Option<error::Refusal> {
    match t {
        None => Some(malformed("TT executable contains an invalid tensor element type"@)),
        Some(WireElementType::Unknown) => Some(
            malformed("TT executable contains an unknown tensor element type"@),
        ),
        Some(_) => None,
    }
}

/// The host type of an element type.
pub open spec fn element_of(t: WireElementType) -> PJRT_Buffer_Type {
    match t {
        WireElementType::Unknown => PJRT_Buffer_Type::PJRT_Buffer_Type_INVALID,
        WireElementType::Bf16 => PJRT_Buffer_Type::PJRT_Buffer_Type_BF16,
        WireElementType::F16 => PJRT_Buffer_Type::PJRT_Buffer_Type_F16,
        WireElementType::F32 => PJRT_Buffer_Type::PJRT_Buffer_Type_F32,
        WireElementType::U32 => PJRT_Buffer_Type::PJRT_Buffer_Type_U32,
        WireElementType::U16 => PJRT_Buffer_Type::PJRT_Buffer_Type_U16,
        WireElementType::U8 => PJRT_Buffer_Type::PJRT_Buffer_Type_U8,
        WireElementType::S32 => PJRT_Buffer_Type::PJRT_Buffer_Type_S32,
        WireElementType::S8 => PJRT_Buffer_Type::PJRT_Buffer_Type_S8,
        WireElementType::Pred => PJRT_Buffer_Type::PJRT_Buffer_Type_PRED,
    }
}

pub fn map_element_type(element_type: Option<WireElementType>) -> (r: Result<
    PJRT_Buffer_Type,
    Error,
>)
    ensures
        match r {
            Ok(t) => element_refusal(element_type) is None && t == element_of(element_type->0),
            Err(e) => element_refusal(element_type) == Some(e@),
        },
{
    match element_type {
        None => Err(
            malformed_data("TT executable contains an invalid tensor element type".to_owned()),
        ),
        Some(WireElementType::Unknown) => Err(
            malformed_data("TT executable contains an unknown tensor element type".to_owned()),
        ),
        Some(WireElementType::Bf16) => Ok(PJRT_Buffer_Type::PJRT_Buffer_Type_BF16),
        Some(WireElementType::F16) => Ok(PJRT_Buffer_Type::PJRT_Buffer_Type_F16),
        Some(WireElementType::F32) => Ok(PJRT_Buffer_Type::PJRT_Buffer_Type_F32),
        Some(WireElementType::U32) => Ok(PJRT_Buffer_Type::PJRT_Buffer_Type_U32),
        Some(WireElementType::U16) => Ok(PJRT_Buffer_Type::PJRT_Buffer_Type_U16),
        Some(WireElementType::U8) => Ok(PJRT_Buffer_Type::PJRT_Buffer_Type_U8),
        Some(WireElementType::S32) => Ok(PJRT_Buffer_Type::PJRT_Buffer_Type_S32),
        Some(WireElementType::S8) => Ok(PJRT_Buffer_Type::PJRT_Buffer_Type_S8),
        Some(WireElementType::Pred) => Ok(PJRT_Buffer_Type::PJRT_Buffer_Type_PRED),
    }
}

impl WireElementType {
    /// How the elements are written in bits.
    pub open spec fn format(self) -> Option<NumberFormat> {
        match self {
            WireElementType::Unknown => None,
            WireElementType::Bf16 => Some(
                NumberFormat { class: NumberClass::Float, exponent: 8, mantissa: 7 },
            ),
            WireElementType::F16 => Some(
                NumberFormat { class: NumberClass::Float, exponent: 5, mantissa: 10 },
            ),
            WireElementType::F32 => Some(
                NumberFormat { class: NumberClass::Float, exponent: 8, mantissa: 23 },
            ),
            WireElementType::U32 => Some(
                NumberFormat { class: NumberClass::Unsigned, exponent: 0, mantissa: 32 },
            ),
            WireElementType::U16 => Some(
                NumberFormat { class: NumberClass::Unsigned, exponent: 0, mantissa: 16 },
            ),
            WireElementType::U8 => Some(
                NumberFormat { class: NumberClass::Unsigned, exponent: 0, mantissa: 8 },
            ),
            WireElementType::S32 => Some(
                NumberFormat { class: NumberClass::Signed, exponent: 0, mantissa: 31 },
            ),
            WireElementType::S8 => Some(
                NumberFormat { class: NumberClass::Signed, exponent: 0, mantissa: 7 },
            ),
            WireElementType::Pred => Some(
                NumberFormat { class: NumberClass::Truth, exponent: 0, mantissa: 1 },
            ),
        }
    }
}

/// An element type is read as the one that is written in the same bits: of the same class,
/// with an exponent and a mantissa of the same widths. So different types stay different, and
/// every type that is written in bits is read.
pub proof fn lemma_element_keeps_format(t: WireElementType, other: WireElementType)
    ensures
        element_of(t).format() == t.format(),
        element_refusal(Some(t)) is None <==> t.format() is Some,
        element_of(t) == element_of(other) ==> t == other,
{
}

/// Whether a tensor is what its wire form says.
pub open spec fn tensor_is(v: ValueDesc, w: WireTensor) -> bool {
    v.dims@ == w.dims@ && v.element_type == element_of(w.element_type->0)
}

fn copy_i64s(v: &Vec<i64>) -> (r: Vec<i64>)
    ensures
        r@ == v@,
{
    let mut out: Vec<i64> = Vec::new();
    for i in 0..v.len()
        invariant
            out@ == v@.take(i as int),
    {
        out.push(v[i]);
        assert(out@ =~= v@.take(i + 1));
    }
    assert(v@.take(v@.len() as int) =~= v@);
    out
}

pub fn parse_tensor_desc(tensor: &WireTensor) -> (r: Result<ValueDesc, Error>)
    ensures
        match r {
            Ok(v) => element_refusal(tensor.element_type) is None && tensor_is(v, *tensor),
            Err(e) => element_refusal(tensor.element_type) == Some(e@),
        },
{
    let element_type = map_element_type(tensor.element_type)?;
    Ok(ValueDesc { dims: copy_i64s(&tensor.dims), element_type })
}

/// Why tensor `i` of a list is refused.
pub open spec fn tensor_checks(tensors: Seq<WireTensor>) -> spec_fn(int) -> Option<error::Refusal> {
    |i: int| element_refusal(tensors[i].element_type)
}

/// Why value `i` is refused.
pub open spec fn value_checks(values: Seq<WireValue>) -> spec_fn(int) -> Option<error::Refusal> {
    |i: int|
        match values[i].tensor {
            None => Some(malformed("TT executable value is missing tensor metadata"@)),
            Some(t) => element_refusal(t.element_type),
        }
}

/// Whether the values are what their wire form says.
pub open spec fn values_are(values: Seq<ValueDesc>, wire: Seq<WireValue>) -> bool {
    &&& values.len() == wire.len()
    &&& forall|i: int|
        0 <= i < wire.len() ==> tensor_is(#[trigger] values[i], wire[i].tensor->0)
}

fn parse_values(wire: &Vec<WireValue>) -> (r: Result<Vec<ValueDesc>, Error>)
    ensures
        match r {
            Ok(values) => {
                &&& error::first_refusal(0, wire@.len() as int, value_checks(wire@)) is None
                &&& values_are(values@, wire@)
            },
            Err(e) => error::first_refusal(0, wire@.len() as int, value_checks(wire@)) == Some(e@),
        },
{
    let n: usize = wire.len();
    let mut out: Vec<ValueDesc> = Vec::new();
    for i in 0..n
        invariant
            n == wire@.len(),
            out@.len() == i,
            forall|j: int| 0 <= j < i ==> tensor_is(#[trigger] out@[j], wire@[j].tensor->0),
            forall|j: int| 0 <= j < i ==> #[trigger] value_checks(wire@)(j) is None,
    {
        proof {
            error::lemma_first_refusal_skip(0, i as int, n as int, value_checks(wire@));
        }
        match &wire[i].tensor {
            None => {
                return Err(
                    malformed_data("TT executable value is missing tensor metadata".to_owned()),
                );
            },
            Some(tensor) => {
                let value = parse_tensor_desc(tensor)?;
                out.push(value);
            },
        }
        assert(value_checks(wire@)(i as int) is None);
    }
    proof {
        error::lemma_first_refusal_none(0, n as int, value_checks(wire@));
    }
    Ok(out)
}

/// Why the kind of a node is refused.
pub open spec fn kind_refusal(
    kind: Option<WireNodeKind>,
    direction: Option<CompareDirection>,
) -> Option<error::Refusal> {
    match kind {
        None => Some(malformed("TT executable fused elementwise op contains an invalid kind"@)),
        Some(WireNodeKind::Compare) => if direction is None {
            Some(
                malformed(
                    "TT executable fused elementwise compare node contains an invalid direction"@,
                ),
            )
        } else {
            None
        },
        Some(_) => None,
    }
}

pub open spec fn kind_of(kind: WireNodeKind, direction: Option<CompareDirection>) -> FusedElementwiseKind {
    match kind {
        WireNodeKind::Input => FusedElementwiseKind::Input,
        WireNodeKind::Constant => FusedElementwiseKind::Constant,
        WireNodeKind::Add => FusedElementwiseKind::Add,
        WireNodeKind::Subtract => FusedElementwiseKind::Subtract,
        WireNodeKind::Multiply => FusedElementwiseKind::Multiply,
        WireNodeKind::Divide => FusedElementwiseKind::Divide,
        WireNodeKind::Power => FusedElementwiseKind::Power,
        WireNodeKind::Max => FusedElementwiseKind::Max,
        WireNodeKind::Compare => FusedElementwiseKind::Compare(direction->0),
        WireNodeKind::Cosine => FusedElementwiseKind::Cosine,
        WireNodeKind::Sine => FusedElementwiseKind::Sine,
        WireNodeKind::Negate => FusedElementwiseKind::Negate,
        WireNodeKind::Exponential => FusedElementwiseKind::Exponential,
        WireNodeKind::Rsqrt => FusedElementwiseKind::Rsqrt,
        WireNodeKind::Log => FusedElementwiseKind::Log,
        WireNodeKind::Convert => FusedElementwiseKind::Convert,
    }
}

pub fn parse_fused_elementwise_kind(
    kind: Option<WireNodeKind>,
    compare_direction: Option<CompareDirection>,
) -> (r: Result<FusedElementwiseKind, Error>)
    ensures
        match r {
            Ok(k) => kind_refusal(kind, compare_direction) is None && k == kind_of(
                kind->0,
                compare_direction,
            ),
            Err(e) => kind_refusal(kind, compare_direction) == Some(e@),
        },
{
    let known = match kind {
        None => {
            return Err(
                malformed_data(
                    "TT executable fused elementwise op contains an invalid kind".to_owned(),
                ),
            );
        },
        Some(k) => k,
    };
    Ok(
        match known {
            WireNodeKind::Input => FusedElementwiseKind::Input,
            WireNodeKind::Constant => FusedElementwiseKind::Constant,
            WireNodeKind::Add => FusedElementwiseKind::Add,
            WireNodeKind::Subtract => FusedElementwiseKind::Subtract,
            WireNodeKind::Multiply => FusedElementwiseKind::Multiply,
            WireNodeKind::Divide => FusedElementwiseKind::Divide,
            WireNodeKind::Power => FusedElementwiseKind::Power,
            WireNodeKind::Max => FusedElementwiseKind::Max,
            WireNodeKind::Compare => match compare_direction {
                Some(d) => FusedElementwiseKind::Compare(d),
                None => {
                    return Err(
                        malformed_data(
                            "TT executable fused elementwise compare node contains an invalid direction".to_owned(),
                        ),
                    );
                },
            },
            WireNodeKind::Cosine => FusedElementwiseKind::Cosine,
            WireNodeKind::Sine => FusedElementwiseKind::Sine,
            WireNodeKind::Negate => FusedElementwiseKind::Negate,
            WireNodeKind::Exponential => FusedElementwiseKind::Exponential,
            WireNodeKind::Rsqrt => FusedElementwiseKind::Rsqrt,
            WireNodeKind::Log => FusedElementwiseKind::Log,
            WireNodeKind::Convert => FusedElementwiseKind::Convert,
        },
    )
}

impl WireNodeKind {
    /// What a node on the wire makes of the input `x`, the constant `c` and its operands.
    pub open spec fn result(
        self,
        direction: Option<CompareDirection>,
        n: Arithmetic,
        x: int,
        c: int,
        a: int,
        b: int,
    ) -> int {
        match self {
            WireNodeKind::Input => x,
            WireNodeKind::Constant => c,
            WireNodeKind::Add => (n.add)(a, b),
            WireNodeKind::Subtract => (n.sub)(a, b),
            WireNodeKind::Multiply => (n.mul)(a, b),
            WireNodeKind::Divide => (n.div)(a, b),
            WireNodeKind::Power => (n.pow)(a, b),
            WireNodeKind::Max => (n.max)(a, b),
            WireNodeKind::Compare => if direction->0.holds(a, b) {
                1
            } else {
                0
            },
            WireNodeKind::Cosine => (n.cos)(a),
            WireNodeKind::Sine => (n.sin)(a),
            WireNodeKind::Negate => (n.neg)(a),
            WireNodeKind::Exponential => (n.exp)(a),
            WireNodeKind::Rsqrt => (n.rsqrt)(a),
            WireNodeKind::Log => (n.log)(a),
            WireNodeKind::Convert => a,
        }
    }
}

/// A node that was read computes what the node on the wire computes, whatever the functions
/// on numbers are.
pub proof fn lemma_kind_keeps_meaning(
    kind: WireNodeKind,
    direction: Option<CompareDirection>,
    n: Arithmetic,
    x: int,
    c: int,
    a: int,
    b: int,
)
    ensures
        kind_of(kind, direction).result(n, x, c, a, b) == kind.result(direction, n, x, c, a, b),
{
}

/// Why a node is refused.
pub open spec fn node_refusal(n: WireNode) -> Option<error::Refusal> {
    if kind_refusal(n.kind, n.compare_direction) is Some {
        kind_refusal(n.kind, n.compare_direction)
    } else {
        element_refusal(n.element_type)
    }
}

/// The node that a wire node stands for.
pub open spec fn node_of(n: WireNode) -> Node {
    Node {
        kind: kind_of(n.kind->0, n.compare_direction),
        inputs: n.input_nodes@,
        input_index: n.input_index,
        packed_value: n.packed_value,
        element_type: element_of(n.element_type->0),
        single_tile_broadcast: n.single_tile_broadcast,
    }
}

pub fn parse_fused_elementwise_node(node: &WireNode) -> (r: Result<FusedElementwiseNode, Error>)
    ensures
        match r {
            Ok(n) => node_refusal(*node) is None && n@ == node_of(*node),
            Err(e) => node_refusal(*node) == Some(e@),
        },
{
    let kind = parse_fused_elementwise_kind(node.kind, node.compare_direction)?;
    let element_type = map_element_type(node.element_type)?;
    Ok(
        FusedElementwiseNode {
            kind,
            input_nodes: crate::bytes::copy_words(node.input_nodes.as_slice()),
            input_index: node.input_index,
            packed_value: node.packed_value,
            element_type,
            single_tile_broadcast: node.single_tile_broadcast,
        },
    )
}

/// Why node `i` is refused.
pub open spec fn node_checks(nodes: Seq<WireNode>) -> spec_fn(int) -> Option<error::Refusal> {
    |i: int| node_refusal(nodes[i])
}

/// The nodes that wire nodes stand for.
pub open spec fn nodes_of(nodes: Seq<WireNode>) -> Seq<Node> {
    nodes.map_values(|n: WireNode| node_of(n))
}

fn parse_nodes(wire: &Vec<WireNode>) -> (r: Result<Vec<FusedElementwiseNode>, Error>)
    ensures
        match r {
            Ok(nodes) => {
                &&& error::first_refusal(0, wire@.len() as int, node_checks(wire@)) is None
                &&& executable::nodes_view(nodes@) == nodes_of(wire@)
            },
            Err(e) => error::first_refusal(0, wire@.len() as int, node_checks(wire@)) == Some(e@),
        },
{
    let n: usize = wire.len();
    let mut out: Vec<FusedElementwiseNode> = Vec::new();
    for i in 0..n
        invariant
            n == wire@.len(),
            executable::nodes_view(out@) == nodes_of(wire@).take(i as int),
            forall|j: int| 0 <= j < i ==> #[trigger] node_checks(wire@)(j) is None,
    {
        proof {
            error::lemma_first_refusal_skip(0, i as int, n as int, node_checks(wire@));
        }
        let node = parse_fused_elementwise_node(&wire[i])?;
        let ghost nv = node@;
        out.push(node);
        proof {
            let whole = nodes_of(wire@);
            assert(executable::nodes_view(out@) =~= whole.take(i as int).push(nv));
            assert(whole.take(i + 1) =~= whole.take(i as int).push(whole[i as int]));
            assert(node_checks(wire@)(i as int) is None);
        }
    }
    proof {
        error::lemma_first_refusal_none(0, n as int, node_checks(wire@));
    }
    assert(executable::nodes_view(out@) =~= nodes_of(wire@));
    Ok(out)
}

/// Why a value of a bitwise operation is refused: there is no value of that number.
pub open spec fn id_refusal(count: int, id: u32, label: Seq<char>) -> Option<error::Refusal> {
    if id >= count {
        Some(
            malformed(
                "TT executable bitwise "@ + label + " value id "@ + text::dec(id as int)
                    + " is out of bounds"@,
            ),
        )
    } else {
        None
    }
}

fn value_element_type(values: &Vec<ValueDesc>, value_id: u32, label: &str) -> (r: Result<
    PJRT_Buffer_Type,
    Error,
>)
    ensures
        match r {
            Ok(t) => {
                &&& id_refusal(values@.len() as int, value_id, label@) is None
                &&& t == values@[value_id as int].element_type
            },
            Err(e) => id_refusal(values@.len() as int, value_id, label@) == Some(e@),
        },
{
    if value_id as usize >= values.len() {
        return Err(
            malformed_data(
                text::cat5(
                    "TT executable bitwise ",
                    label,
                    " value id ",
                    text::decimal_u32(value_id).as_str(),
                    " is out of bounds",
                ),
            ),
        );
    }
    Ok(values[value_id as usize].element_type)
}

/// The node that reads input `i`.
pub open spec fn input_node(i: u32, element_type: PJRT_Buffer_Type) -> Node {
    Node {
        kind: FusedElementwiseKind::Input,
        inputs: Seq::empty(),
        input_index: i,
        packed_value: 0,
        element_type,
        single_tile_broadcast: false,
    }
}

/// The node that combines nodes zero and one.
pub open spec fn bitwise_node(kind: BitwiseBinaryKind, element_type: PJRT_Buffer_Type) -> Node {
    Node {
        kind: FusedElementwiseKind::Bitwise(kind),
        inputs: seq![0u32, 1u32],
        input_index: 0,
        packed_value: 0,
        element_type,
        single_tile_broadcast: false,
    }
}

fn fused_input_node(input_index: u32, element_type: PJRT_Buffer_Type) -> (n: FusedElementwiseNode)
    ensures
        n@ == input_node(input_index, element_type),
{
    FusedElementwiseNode {
        kind: FusedElementwiseKind::Input,
        input_nodes: Vec::new(),
        input_index,
        packed_value: 0,
        element_type,
        single_tile_broadcast: false,
    }
}

fn fused_bitwise_node(kind: BitwiseBinaryKind, element_type: PJRT_Buffer_Type) -> (n:
    FusedElementwiseNode)
    ensures
        n@ == bitwise_node(kind, element_type),
{
    let input_nodes: Vec<u32> = vec![0u32, 1u32];
    assert(input_nodes@ =~= seq![0u32, 1u32]);
    FusedElementwiseNode {
        kind: FusedElementwiseKind::Bitwise(kind),
        input_nodes,
        input_index: 0,
        packed_value: 0,
        element_type,
        single_tile_broadcast: false,
    }
}

/// Why an operation is refused, where there are `count` values.
pub open spec fn op_refusal(op: WireOp, count: int) -> Option<error::Refusal> {
    match op.kind {
        None => Some(malformed("TT executable op is missing kind"@)),
        Some(WireKind::Reduce { reducer, .. }) => if reducer is None {
            Some(malformed("TT executable reduce op contains an invalid reducer"@))
        } else {
            None
        },
        Some(WireKind::ReduceWindow { reducer, .. }) => if reducer is None {
            Some(malformed("TT executable reduce op contains an invalid reducer"@))
        } else {
            None
        },
        Some(WireKind::BitwiseBinary { lhs_id, rhs_id, kind }) => if id_refusal(
            count,
            lhs_id,
            "lhs"@,
        ) is Some {
            id_refusal(count, lhs_id, "lhs"@)
        } else if id_refusal(count, rhs_id, "rhs"@) is Some {
            id_refusal(count, rhs_id, "rhs"@)
        } else {
            id_refusal(count, op.output_id, "output"@)
        },
        Some(WireKind::FusedElementwise { input_ids, nodes }) => error::first_refusal(
            0,
            nodes@.len() as int,
            node_checks(nodes@),
        ),
        Some(_) => None,
    }
}

/// Whether an operation is what its wire form says.
pub open spec fn op_is(op: Op, wire: WireOp, values: Seq<ValueDesc>) -> bool {
    let out = wire.output_id;
    match wire.kind->0 {
        WireKind::Parameter { parameter_index } => op == (Op::Parameter {
            parameter_index: parameter_index as usize,
            output_id: out,
        }),
        WireKind::Concatenate { input_ids, dimension } => op == (Op::Concatenate {
            input_ids,
            output_id: out,
            dimension,
        }),
        WireKind::Reshape { operand_id } => op == (Op::Reshape {
            input_id: operand_id,
            output_id: out,
        }),
        WireKind::Slice { operand_id, start_indices, limit_indices, strides } => op == (Op::Slice {
            input_id: operand_id,
            output_id: out,
            start_indices,
            limit_indices,
            strides,
        }),
        WireKind::Transpose { operand_id, permutation } => op == (Op::Transpose {
            input_id: operand_id,
            output_id: out,
            permutation,
        }),
        WireKind::CustomCall { input_ids, call_target_name, has_side_effect } => op == (
        Op::CustomCall { input_ids, output_id: out, call_target_name, has_side_effect }),
        WireKind::Reduce { input_ids, init_value_ids, dimensions, reducer } => op == (Op::Reduce {
            input_ids,
            init_value_ids,
            output_id: out,
            dimensions,
            reducer: reducer->0,
        }),
        WireKind::ReduceWindow { input_ids, init_value_ids, attributes, reducer } => op == (
        Op::ReduceWindow {
            input_ids,
            init_value_ids,
            output_id: out,
            attributes,
            reducer: reducer->0,
        }),
        WireKind::Matmul { lhs_id, rhs_id, dimension_numbers, top_k_epilogue } => op matches Op::Matmul {
            input_ids,
            output_id,
            dimension_numbers: d,
            top_k_epilogue: t,
        } && input_ids@ == seq![lhs_id, rhs_id] && output_id == out && d == dimension_numbers && t
            == top_k_epilogue,
        WireKind::Constant { packed_value, data } => op == (Op::Constant {
            packed_value,
            data,
            output_id: out,
        }),
        WireKind::Select { pred_id, on_true_id, on_false_id } => op matches Op::Select {
            input_ids,
            output_id,
        } && input_ids@ == seq![pred_id, on_true_id, on_false_id] && output_id == out,
        WireKind::BroadcastInDim { operand_id, broadcast_dimensions } => op == (
        Op::BroadcastInDim { input_id: operand_id, output_id: out, broadcast_dimensions }),
        WireKind::Gather {
            operand_id,
            start_indices_id,
            dimension_numbers,
            slice_sizes,
            indices_are_sorted,
        } => op matches Op::Gather {
            input_ids,
            output_id,
            dimension_numbers: d,
            slice_sizes: s,
            indices_are_sorted: i,
        } && input_ids@ == seq![operand_id, start_indices_id] && output_id == out && d
            == dimension_numbers && s == slice_sizes && i == indices_are_sorted,
        WireKind::Scatter {
            operand_id,
            start_indices_id,
            updates_id,
            dimension_numbers,
            indices_are_sorted,
            unique_indices,
        } => op matches Op::Scatter {
            input_ids,
            output_id,
            dimension_numbers: d,
            indices_are_sorted: i,
            unique_indices: u,
        } && input_ids@ == seq![operand_id, start_indices_id, updates_id] && output_id == out && d
            == dimension_numbers && i == indices_are_sorted && u == unique_indices,
        WireKind::BitwiseBinary { lhs_id, rhs_id, kind } => op matches Op::FusedElementwise {
            input_ids,
            output_id,
            nodes,
        } && input_ids@ == seq![lhs_id, rhs_id] && output_id == out && executable::nodes_view(nodes@)
            == seq![
            input_node(0, values[lhs_id as int].element_type),
            input_node(1, values[rhs_id as int].element_type),
            bitwise_node(kind, values[out as int].element_type),
        ],
        WireKind::Iota { iota_dimension } => op == (Op::Iota { output_id: out, iota_dimension }),
        WireKind::TopK { operand_id, indices_id, k } => op == (Op::TopK {
            input_id: operand_id,
            values_id: out,
            indices_id,
            k,
        }),
        WireKind::FusedElementwise { input_ids, nodes } => op matches Op::FusedElementwise {
            input_ids: ids,
            output_id,
            nodes: ns,
        } && ids == input_ids && output_id == out && executable::nodes_view(ns@) == nodes_of(nodes@),
        WireKind::SdpaDecode { q_id, k_id, v_id, seq_lens_id, loc_id, scale_bf16_packed } => op matches Op::SdpaDecode {
            input_ids,
            output_id,
            scale_bf16_packed: s,
        } && input_ids@ == seq![q_id, k_id, v_id, seq_lens_id, loc_id] && output_id == out && s
            == scale_bf16_packed,
        WireKind::RmsNorm { input_id, weight_id, scale_bits, bias_bits } => op matches Op::RmsNorm {
            input_ids,
            output_id,
            scale_bits: s,
            bias_bits: b,
        } && input_ids@ == seq![input_id, weight_id] && output_id == out && s == scale_bits && b
            == bias_bits,
        WireKind::Rope { input_id, cos_id, sin_id } => op matches Op::Rope {
            input_ids,
            output_id,
        } && input_ids@ == seq![input_id, cos_id, sin_id] && output_id == out,
    }
}

fn parse_reducer(reducer: Option<ReduceReducer>) -> (r: Result<ReduceReducer, Error>)
    ensures
        match r {
            Ok(k) => reducer == Some(k),
            Err(e) => reducer is None && e@ == malformed(
                "TT executable reduce op contains an invalid reducer"@,
            ),
        },
{
    match reducer {
        Some(k) => Ok(k),
        None => Err(
            malformed_data("TT executable reduce op contains an invalid reducer".to_owned()),
        ),
    }
}

/// Reads one operation.
pub fn parse_op(wire: WireOp, values: &Vec<ValueDesc>) -> (r: Result<Op, Error>)
    ensures
        match r {
            Ok(op) => op_refusal(wire, values@.len() as int) is None && op_is(op, wire, values@),
            Err(e) => op_refusal(wire, values@.len() as int) == Some(e@),
        },
{
    let output_id: u32 = wire.output_id;
    let kind = match wire.kind {
        Some(kind) => kind,
        None => {
            return Err(malformed_data("TT executable op is missing kind".to_owned()));
        },
    };
    match kind {
        WireKind::Parameter { parameter_index } => Ok(
            Op::Parameter { parameter_index: parameter_index as usize, output_id },
        ),
        WireKind::Concatenate { input_ids, dimension } => Ok(
            Op::Concatenate { input_ids, output_id, dimension },
        ),
        WireKind::Reshape { operand_id } => Ok(Op::Reshape { input_id: operand_id, output_id }),
        WireKind::Slice { operand_id, start_indices, limit_indices, strides } => Ok(
            Op::Slice {
                input_id: operand_id,
                output_id,
                start_indices,
                limit_indices,
                strides,
            },
        ),
        WireKind::Transpose { operand_id, permutation } => Ok(
            Op::Transpose { input_id: operand_id, output_id, permutation },
        ),
        WireKind::CustomCall { input_ids, call_target_name, has_side_effect } => Ok(
            Op::CustomCall { input_ids, output_id, call_target_name, has_side_effect },
        ),
        WireKind::Reduce { input_ids, init_value_ids, dimensions, reducer } => {
            let reducer = parse_reducer(reducer)?;
            Ok(Op::Reduce { input_ids, init_value_ids, output_id, dimensions, reducer })
        },
        WireKind::ReduceWindow { input_ids, init_value_ids, attributes, reducer } => {
            let reducer = parse_reducer(reducer)?;
            Ok(Op::ReduceWindow { input_ids, init_value_ids, output_id, attributes, reducer })
        },
        WireKind::Matmul { lhs_id, rhs_id, dimension_numbers, top_k_epilogue } => {
            let input_ids: [u32; 2] = [lhs_id, rhs_id];
            assert(input_ids@ =~= seq![lhs_id, rhs_id]);
            Ok(Op::Matmul { input_ids, output_id, dimension_numbers, top_k_epilogue })
        },
        WireKind::Constant { packed_value, data } => Ok(
            Op::Constant { packed_value, data, output_id },
        ),
        WireKind::Select { pred_id, on_true_id, on_false_id } => {
            let input_ids: [u32; 3] = [pred_id, on_true_id, on_false_id];
            assert(input_ids@ =~= seq![pred_id, on_true_id, on_false_id]);
            Ok(Op::Select { input_ids, output_id })
        },
        WireKind::BroadcastInDim { operand_id, broadcast_dimensions } => Ok(
            Op::BroadcastInDim { input_id: operand_id, output_id, broadcast_dimensions },
        ),
        WireKind::Gather {
            operand_id,
            start_indices_id,
            dimension_numbers,
            slice_sizes,
            indices_are_sorted,
        } => {
            let input_ids: [u32; 2] = [operand_id, start_indices_id];
            assert(input_ids@ =~= seq![operand_id, start_indices_id]);
            Ok(
                Op::Gather {
                    input_ids,
                    output_id,
                    dimension_numbers,
                    slice_sizes,
                    indices_are_sorted,
                },
            )
        },
        WireKind::Scatter {
            operand_id,
            start_indices_id,
            updates_id,
            dimension_numbers,
            indices_are_sorted,
            unique_indices,
        } => {
            let input_ids: [u32; 3] = [operand_id, start_indices_id, updates_id];
            assert(input_ids@ =~= seq![operand_id, start_indices_id, updates_id]);
            Ok(
                Op::Scatter {
                    input_ids,
                    output_id,
                    dimension_numbers,
                    indices_are_sorted,
                    unique_indices,
                },
            )
        },
        WireKind::BitwiseBinary { lhs_id, rhs_id, kind } => {
            let lhs_type = value_element_type(values, lhs_id, "lhs")?;
            let rhs_type = value_element_type(values, rhs_id, "rhs")?;
            let out_type = value_element_type(values, output_id, "output")?;
            let input_ids: Vec<u32> = vec![lhs_id, rhs_id];
            assert(input_ids@ =~= seq![lhs_id, rhs_id]);
            let mut nodes: Vec<FusedElementwiseNode> = Vec::new();
            nodes.push(fused_input_node(0, lhs_type));
            nodes.push(fused_input_node(1, rhs_type));
            nodes.push(fused_bitwise_node(kind, out_type));
            assert(executable::nodes_view(nodes@) =~= seq![
                input_node(0, lhs_type),
                input_node(1, rhs_type),
                bitwise_node(kind, out_type),
            ]);
            Ok(Op::FusedElementwise { input_ids, output_id, nodes })
        },
        WireKind::Iota { iota_dimension } => Ok(Op::Iota { output_id, iota_dimension }),
        WireKind::TopK { operand_id, indices_id, k } => Ok(
            Op::TopK { input_id: operand_id, values_id: output_id, indices_id, k },
        ),
        WireKind::FusedElementwise { input_ids, nodes } => {
            let nodes = parse_nodes(&nodes)?;
            Ok(Op::FusedElementwise { input_ids, output_id, nodes })
        },
        WireKind::SdpaDecode { q_id, k_id, v_id, seq_lens_id, loc_id, scale_bf16_packed } => {
            let input_ids: [u32; 5] = [q_id, k_id, v_id, seq_lens_id, loc_id];
            assert(input_ids@ =~= seq![q_id, k_id, v_id, seq_lens_id, loc_id]);
            Ok(Op::SdpaDecode { input_ids, output_id, scale_bf16_packed })
        },
        WireKind::RmsNorm { input_id, weight_id, scale_bits, bias_bits } => {
            let input_ids: [u32; 2] = [input_id, weight_id];
            assert(input_ids@ =~= seq![input_id, weight_id]);
            Ok(Op::RmsNorm { input_ids, output_id, scale_bits, bias_bits })
        },
        WireKind::Rope { input_id, cos_id, sin_id } => {
            let input_ids: [u32; 3] = [input_id, cos_id, sin_id];
            assert(input_ids@ =~= seq![input_id, cos_id, sin_id]);
            Ok(Op::Rope { input_ids, output_id })
        },
    }
}

/// Why operation `i` is refused.
pub open spec fn op_checks(ops: Seq<WireOp>, count: int) -> spec_fn(int) -> Option<error::Refusal> {
    |i: int| op_refusal(ops[i], count)
}

/// Why an executable is refused: its values are read before its operations.
pub open spec fn executable_refusal(w: WireExecutable) -> Option<error::Refusal> {
    let values = error::first_refusal(0, w.values@.len() as int, value_checks(w.values@));
    if values is Some {
        values
    } else {
        error::first_refusal(
            0,
            w.ops@.len() as int,
            op_checks(w.ops@, w.values@.len() as int),
        )
    }
}

/// Whether an executable is what its wire form says.
pub open spec fn executable_is(x: Executable, w: WireExecutable) -> bool {
    &&& values_are(x.values@, w.values@)
    &&& x.ops@.len() == w.ops@.len()
    &&& forall|i: int| 0 <= i < w.ops@.len() ==> op_is(#[trigger] x.ops@[i], w.ops@[i], x.values@)
    &&& x.output_ids@ == w.output_ids@
}

/// Reads an executable.
pub fn parse_proto(wire: WireExecutable) -> (r: Result<Executable, Error>)
    ensures
        match r {
            Ok(x) => executable_refusal(wire) is None && executable_is(x, wire),
            Err(e) => executable_refusal(wire) == Some(e@),
        },
{
    let WireExecutable { values: wire_values, ops: wire_ops, output_ids } = wire;
    let values = parse_values(&wire_values)?;
    let ghost all = wire_ops@;
    let mut rest: Vec<WireOp> = wire_ops;
    let n: usize = rest.len();
    let mut backwards: Vec<WireOp> = Vec::new();
    for i in 0..n
        invariant
            n == all.len(),
            rest@ == all.take(n - i),
            backwards@.len() == i,
            forall|j: int| 0 <= j < i ==> #[trigger] backwards@[j] == all[n - 1 - j],
    {
        let last = rest.pop();
        match last {
            Some(op) => {
                backwards.push(op);
            },
            None => {},
        }
        assert(rest@ =~= all.take(n - i - 1));
    }
    let mut ops: Vec<Op> = Vec::new();
    for i in 0..n
        invariant
            n == all.len(),
            backwards@.len() == n - i,
            forall|j: int| 0 <= j < n - i ==> #[trigger] backwards@[j] == all[n - 1 - j],
            ops@.len() == i,
            values_are(values@, wire_values@),
            all == wire.ops@,
            wire_values == wire.values,
            forall|j: int| 0 <= j < i ==> op_is(#[trigger] ops@[j], all[j], values@),
            forall|j: int|
                0 <= j < i ==> #[trigger] op_checks(all, values@.len() as int)(j) is None,
            error::first_refusal(0, wire_values@.len() as int, value_checks(wire_values@)) is None,
    {
        proof {
            error::lemma_first_refusal_skip(
                0,
                i as int,
                n as int,
                op_checks(all, values@.len() as int),
            );
        }
        let last = backwards.pop();
        match last {
            Some(op) => {
                assert(op == all[i as int]);
                let parsed = parse_op(op, &values)?;
                ops.push(parsed);
            },
            None => {},
        }
        assert(op_checks(all, values@.len() as int)(i as int) is None);
    }
    proof {
        error::lemma_first_refusal_none(0, n as int, op_checks(all, values@.len() as int));
    }
    Ok(Executable { values, ops, output_ids })
}

/// The wire form of the result of an analysis. A number that is no status is `None`.
#[derive(Debug)]
pub struct WireAnalysis {
    pub status: Option<i32>,
    pub error_message: String,
    pub outputs: Vec<WireTensor>,
    pub executable: Option<WireExecutable>,
}

/// The result of an analysis.
#[derive(Debug)]
pub struct Analysis {
    pub status: i32,
    pub error_message: String,
    pub outputs: Vec<ValueDesc>,
    pub executable: Option<Executable>,
}

/// Why an analysis is refused.
pub open spec fn analysis_refusal(w: WireAnalysis) -> Option<error::Refusal> {
    let outputs = error::first_refusal(0, w.outputs@.len() as int, tensor_checks(w.outputs@));
    if w.status is None {
        Some(malformed("TT MLIR analysis result contains an invalid status"@))
    } else if outputs is Some {
        outputs
    } else {
        match w.executable {
            Some(x) => executable_refusal(x),
            None => None,
        }
    }
}

/// Reads the result of an analysis.
pub fn parse_analysis(wire: WireAnalysis) -> (r: Result<Analysis, Error>)
    ensures
        match r {
            Ok(a) => {
                &&& analysis_refusal(wire) is None
                &&& wire.status == Some(a.status)
                &&& a.error_message@ == wire.error_message@
                &&& a.outputs@.len() == wire.outputs@.len()
                &&& forall|i: int|
                    0 <= i < a.outputs@.len() ==> tensor_is(#[trigger] a.outputs@[i], wire.outputs@[i])
                &&& match (a.executable, wire.executable) {
                    (Some(x), Some(w)) => executable_is(x, w),
                    (None, None) => true,
                    _ => false,
                }
            },
            Err(e) => analysis_refusal(wire) == Some(e@),
        },
{
    let WireAnalysis { status, error_message, outputs: wire_outputs, executable: wire_executable } =
        wire;
    let status: i32 = match status {
        Some(s) => s,
        None => {
            return Err(
                malformed_data("TT MLIR analysis result contains an invalid status".to_owned()),
            );
        },
    };
    let n: usize = wire_outputs.len();
    let mut outputs: Vec<ValueDesc> = Vec::new();
    for i in 0..n
        invariant
            n == wire_outputs@.len(),
            wire_outputs == wire.outputs,
            wire.status == Some(status),
            outputs@.len() == i,
            forall|j: int| 0 <= j < i ==> tensor_is(#[trigger] outputs@[j], wire_outputs@[j]),
            forall|j: int| 0 <= j < i ==> #[trigger] tensor_checks(wire_outputs@)(j) is None,
    {
        proof {
            error::lemma_first_refusal_skip(0, i as int, n as int, tensor_checks(wire_outputs@));
        }
        let value = parse_tensor_desc(&wire_outputs[i])?;
        outputs.push(value);
        assert(tensor_checks(wire_outputs@)(i as int) is None);
    }
    proof {
        error::lemma_first_refusal_none(0, n as int, tensor_checks(wire_outputs@));
    }
    let executable: Option<Executable> = match wire_executable {
        Some(w) => Some(parse_proto(w)?),
        None => None,
    };
    Ok(Analysis { status, error_message, outputs, executable })
}

} // verus!
