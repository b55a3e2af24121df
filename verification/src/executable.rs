//! Executables: tensors, operations on them, and how they are read from their wire form.

use vstd::prelude::*;
use crate::dram::DType;
use crate::error;
use crate::error::{Error, ErrorKind};
use crate::numbers::{Arithmetic, NumberClass, NumberFormat};
use crate::text;

pub mod meaning;
pub mod wire;

verus! {

/// Element types of host buffers.
#[allow(non_camel_case_types)]
#[derive(Clone, Copy, Debug, Hash, PartialEq, Eq, Structural)]
pub enum PJRT_Buffer_Type {
    PJRT_Buffer_Type_INVALID,
    PJRT_Buffer_Type_PRED,
    PJRT_Buffer_Type_S8,
    PJRT_Buffer_Type_S32,
    PJRT_Buffer_Type_U8,
    PJRT_Buffer_Type_U16,
    PJRT_Buffer_Type_U32,
    PJRT_Buffer_Type_F16,
    PJRT_Buffer_Type_F32,
    PJRT_Buffer_Type_BF16,
}

impl PJRT_Buffer_Type {
    /// The number of the type in the host interface.
    pub open spec fn code(self) -> i32 {
        match self {
            PJRT_Buffer_Type::PJRT_Buffer_Type_INVALID => 0,
            PJRT_Buffer_Type::PJRT_Buffer_Type_PRED => 1,
            PJRT_Buffer_Type::PJRT_Buffer_Type_S8 => 2,
            PJRT_Buffer_Type::PJRT_Buffer_Type_S32 => 4,
            PJRT_Buffer_Type::PJRT_Buffer_Type_U8 => 6,
            PJRT_Buffer_Type::PJRT_Buffer_Type_U16 => 7,
            PJRT_Buffer_Type::PJRT_Buffer_Type_U32 => 8,
            PJRT_Buffer_Type::PJRT_Buffer_Type_F16 => 10,
            PJRT_Buffer_Type::PJRT_Buffer_Type_F32 => 11,
            PJRT_Buffer_Type::PJRT_Buffer_Type_BF16 => 13,
        }
    }

    pub fn value(self) -> (r: i32)
        ensures
            r == self.code(),
    {
        match self {
            PJRT_Buffer_Type::PJRT_Buffer_Type_INVALID => 0,
            PJRT_Buffer_Type::PJRT_Buffer_Type_PRED => 1,
            PJRT_Buffer_Type::PJRT_Buffer_Type_S8 => 2,
            PJRT_Buffer_Type::PJRT_Buffer_Type_S32 => 4,
            PJRT_Buffer_Type::PJRT_Buffer_Type_U8 => 6,
            PJRT_Buffer_Type::PJRT_Buffer_Type_U16 => 7,
            PJRT_Buffer_Type::PJRT_Buffer_Type_U32 => 8,
            PJRT_Buffer_Type::PJRT_Buffer_Type_F16 => 10,
            PJRT_Buffer_Type::PJRT_Buffer_Type_F32 => 11,
            PJRT_Buffer_Type::PJRT_Buffer_Type_BF16 => 13,
        }
    }
}

/// The device type for the number of a host type.
pub open spec fn dtype_of_code(code: i32) -> Option<DType> {
    if code == 2 {
        Some(DType::Int8)
    } else if code == 4 {
        Some(DType::Int32)
    } else if code == 6 {
        Some(DType::UInt8)
    } else if code == 7 {
        Some(DType::UInt16)
    } else if code == 8 {
        Some(DType::UInt32)
    } else if code == 10 {
        Some(DType::Float16)
    } else if code == 11 {
        Some(DType::Float32)
    } else if code == 13 {
        Some(DType::Float16B)
    } else {
        None
    }
}

impl PJRT_Buffer_Type {
    /// How the elements are written in bits.
    pub open spec fn format(self) -> Option<NumberFormat> {
        match self {
            PJRT_Buffer_Type::PJRT_Buffer_Type_INVALID => None,
            PJRT_Buffer_Type::PJRT_Buffer_Type_PRED => Some(
                NumberFormat { class: NumberClass::Truth, exponent: 0, mantissa: 1 },
            ),
            PJRT_Buffer_Type::PJRT_Buffer_Type_S8 => Some(
                NumberFormat { class: NumberClass::Signed, exponent: 0, mantissa: 7 },
            ),
            PJRT_Buffer_Type::PJRT_Buffer_Type_S32 => Some(
                NumberFormat { class: NumberClass::Signed, exponent: 0, mantissa: 31 },
            ),
            PJRT_Buffer_Type::PJRT_Buffer_Type_U8 => Some(
                NumberFormat { class: NumberClass::Unsigned, exponent: 0, mantissa: 8 },
            ),
            PJRT_Buffer_Type::PJRT_Buffer_Type_U16 => Some(
                NumberFormat { class: NumberClass::Unsigned, exponent: 0, mantissa: 16 },
            ),
            PJRT_Buffer_Type::PJRT_Buffer_Type_U32 => Some(
                NumberFormat { class: NumberClass::Unsigned, exponent: 0, mantissa: 32 },
            ),
            PJRT_Buffer_Type::PJRT_Buffer_Type_F16 => Some(
                NumberFormat { class: NumberClass::Float, exponent: 5, mantissa: 10 },
            ),
            PJRT_Buffer_Type::PJRT_Buffer_Type_F32 => Some(
                NumberFormat { class: NumberClass::Float, exponent: 8, mantissa: 23 },
            ),
            PJRT_Buffer_Type::PJRT_Buffer_Type_BF16 => Some(
                NumberFormat { class: NumberClass::Float, exponent: 8, mantissa: 7 },
            ),
        }
    }
}

/// The format that the host interface takes a number of a type for.
pub open spec fn format_of_code(code: i32) -> Option<NumberFormat> {
    if code == 1 {
        Some(NumberFormat { class: NumberClass::Truth, exponent: 0, mantissa: 1 })
    } else if code == 2 {
        Some(NumberFormat { class: NumberClass::Signed, exponent: 0, mantissa: 7 })
    } else if code == 4 {
        Some(NumberFormat { class: NumberClass::Signed, exponent: 0, mantissa: 31 })
    } else if code == 6 {
        Some(NumberFormat { class: NumberClass::Unsigned, exponent: 0, mantissa: 8 })
    } else if code == 7 {
        Some(NumberFormat { class: NumberClass::Unsigned, exponent: 0, mantissa: 16 })
    } else if code == 8 {
        Some(NumberFormat { class: NumberClass::Unsigned, exponent: 0, mantissa: 32 })
    } else if code == 10 {
        Some(NumberFormat { class: NumberClass::Float, exponent: 5, mantissa: 10 })
    } else if code == 11 {
        Some(NumberFormat { class: NumberClass::Float, exponent: 8, mantissa: 23 })
    } else if code == 13 {
        Some(NumberFormat { class: NumberClass::Float, exponent: 8, mantissa: 7 })
    } else {
        None
    }
}

/// The device type of a host type is written in the same bits, and there is one for every
/// type of numbers. Truth values have none.
pub proof fn lemma_dtype_keeps_format(t: PJRT_Buffer_Type)
    ensures
        dtype_of_code(t.code()) matches Some(d) ==> t.format() == Some(d.format()),
        dtype_of_code(t.code()) is Some <==> t.format() is Some && !(t.format()->0.class is Truth),
        format_of_code(t.code()) == t.format(),
        forall|code: i32| #[trigger]
            dtype_of_code(code) matches Some(d) ==> format_of_code(code) == Some(d.format()),
{
}

/// Why a host type has no device type.
pub open spec fn dtype_refusal(code: i32) -> Option<error::Refusal> {
    if dtype_of_code(code) is Some {
        None
    } else if code == 0 {
        Some(error::invalid("invalid PJRT buffer type"@))
    } else {
        Some(
            (
                ErrorKind::Unsupported,
                "unsupported PJRT buffer type "@ + text::dec(code as int),
            ),
        )
    }
}

/// Finds the device type for the number of a host type.
pub fn pjrt_buffer_type_to_dtype(buffer_type: i32) -> (r: Result<DType, Error>)
    ensures
        match r {
            Ok(d) => dtype_refusal(buffer_type) is None && dtype_of_code(buffer_type) == Some(d),
            Err(e) => dtype_refusal(buffer_type) == Some(e@),
        },
{
    match buffer_type {
        2 => Ok(DType::Int8),
        4 => Ok(DType::Int32),
        6 => Ok(DType::UInt8),
        7 => Ok(DType::UInt16),
        8 => Ok(DType::UInt32),
        10 => Ok(DType::Float16),
        11 => Ok(DType::Float32),
        13 => Ok(DType::Float16B),
        0 => Err(error::invalid_text("invalid PJRT buffer type")),
        _ => Err(
            Error::new(
                ErrorKind::Unsupported,
                text::cat2(
                    "unsupported PJRT buffer type ",
                    text::decimal_i64(buffer_type as i64).as_str(),
                ),
            ),
        ),
    }
}

/// A bitwise operation on two tensors.
#[derive(Clone, Copy, Debug, Hash, PartialEq, Eq, Structural)]
pub enum BitwiseBinaryKind {
    And,
    Or,
    Xor,
    ShiftLeft,
    ShiftRightLogical,
    ShiftRightArithmetic,
}

impl BitwiseBinaryKind {
    pub open spec fn shown(self) -> Seq<char> {
        match self {
            BitwiseBinaryKind::And => "And"@,
            BitwiseBinaryKind::Or => "Or"@,
            BitwiseBinaryKind::Xor => "Xor"@,
            BitwiseBinaryKind::ShiftLeft => "ShiftLeft"@,
            BitwiseBinaryKind::ShiftRightLogical => "ShiftRightLogical"@,
            BitwiseBinaryKind::ShiftRightArithmetic => "ShiftRightArithmetic"@,
        }
    }

    pub fn name(self) -> (r: &'static str)
        ensures
            r@ == self.shown(),
    {
        match self {
            BitwiseBinaryKind::And => "And",
            BitwiseBinaryKind::Or => "Or",
            BitwiseBinaryKind::Xor => "Xor",
            BitwiseBinaryKind::ShiftLeft => "ShiftLeft",
            BitwiseBinaryKind::ShiftRightLogical => "ShiftRightLogical",
            BitwiseBinaryKind::ShiftRightArithmetic => "ShiftRightArithmetic",
        }
    }
}

/// A comparison of two tensors.
#[derive(Clone, Copy, Debug, Hash, PartialEq, Eq, Structural)]
pub enum CompareDirection {
    Eq,
    Ne,
    Ge,
    Gt,
    Le,
    Lt,
}

impl CompareDirection {
    pub open spec fn shown(self) -> Seq<char> {
        match self {
            CompareDirection::Eq => "Eq"@,
            CompareDirection::Ne => "Ne"@,
            CompareDirection::Ge => "Ge"@,
            CompareDirection::Gt => "Gt"@,
            CompareDirection::Le => "Le"@,
            CompareDirection::Lt => "Lt"@,
        }
    }

    pub fn variant(self) -> (r: &'static str)
        ensures
            r@ == self.shown(),
    {
        match self {
            CompareDirection::Eq => "Eq",
            CompareDirection::Ne => "Ne",
            CompareDirection::Ge => "Ge",
            CompareDirection::Gt => "Gt",
            CompareDirection::Le => "Le",
            CompareDirection::Lt => "Lt",
        }
    }

    /// The comparison with its operands exchanged.
    pub open spec fn turned(self) -> CompareDirection {
        match self {
            CompareDirection::Eq => CompareDirection::Eq,
            CompareDirection::Ne => CompareDirection::Ne,
            CompareDirection::Ge => CompareDirection::Le,
            CompareDirection::Gt => CompareDirection::Lt,
            CompareDirection::Le => CompareDirection::Ge,
            CompareDirection::Lt => CompareDirection::Gt,
        }
    }

    /// Whether the comparison holds of two numbers.
    pub open spec fn holds(self, a: int, b: int) -> bool {
        match self {
            CompareDirection::Eq => a == b,
            CompareDirection::Ne => a != b,
            CompareDirection::Ge => a >= b,
            CompareDirection::Gt => a > b,
            CompareDirection::Le => a <= b,
            CompareDirection::Lt => a < b,
        }
    }

    pub fn reversed(self) -> (r: CompareDirection)
        ensures
            r == self.turned(),
    {
        match self {
            CompareDirection::Eq => CompareDirection::Eq,
            CompareDirection::Ne => CompareDirection::Ne,
            CompareDirection::Ge => CompareDirection::Le,
            CompareDirection::Gt => CompareDirection::Lt,
            CompareDirection::Le => CompareDirection::Ge,
            CompareDirection::Lt => CompareDirection::Gt,
        }
    }
}

/// The reversed comparison says of exchanged operands what the comparison says of them.
pub proof fn lemma_turned_compares(d: CompareDirection, a: int, b: int)
    ensures
        d.turned().holds(b, a) == d.holds(a, b),
        d.turned().turned() == d,
{
}

/// What a node of a fused operation does.
#[derive(Clone, Copy, Debug, Hash, PartialEq, Eq, Structural)]
pub enum FusedElementwiseKind {
    Input,
    Constant,
    Add,
    Subtract,
    Multiply,
    Divide,
    Power,
    Max,
    Bitwise(BitwiseBinaryKind),
    Compare(CompareDirection),
    Cosine,
    Sine,
    Negate,
    Exponential,
    Rsqrt,
    Log,
    Convert,
}

impl FusedElementwiseKind {
    pub open spec fn shown(self) -> Seq<char> {
        match self {
            FusedElementwiseKind::Input => "Input"@,
            FusedElementwiseKind::Constant => "Constant"@,
            FusedElementwiseKind::Add => "Add"@,
            FusedElementwiseKind::Subtract => "Subtract"@,
            FusedElementwiseKind::Multiply => "Multiply"@,
            FusedElementwiseKind::Divide => "Divide"@,
            FusedElementwiseKind::Power => "Power"@,
            FusedElementwiseKind::Max => "Max"@,
            FusedElementwiseKind::Cosine => "Cosine"@,
            FusedElementwiseKind::Sine => "Sine"@,
            FusedElementwiseKind::Negate => "Negate"@,
            FusedElementwiseKind::Exponential => "Exponential"@,
            FusedElementwiseKind::Rsqrt => "Rsqrt"@,
            FusedElementwiseKind::Log => "Log"@,
            FusedElementwiseKind::Convert => "Convert"@,
            FusedElementwiseKind::Bitwise(b) => "Bitwise("@ + b.shown() + ")"@,
            FusedElementwiseKind::Compare(d) => "Compare("@ + d.shown() + ")"@,
        }
    }

    pub fn name(self) -> (r: String)
        ensures
            r@ == self.shown(),
    {
        match self {
            FusedElementwiseKind::Input => "Input".to_owned(),
            FusedElementwiseKind::Constant => "Constant".to_owned(),
            FusedElementwiseKind::Add => "Add".to_owned(),
            FusedElementwiseKind::Subtract => "Subtract".to_owned(),
            FusedElementwiseKind::Multiply => "Multiply".to_owned(),
            FusedElementwiseKind::Divide => "Divide".to_owned(),
            FusedElementwiseKind::Power => "Power".to_owned(),
            FusedElementwiseKind::Max => "Max".to_owned(),
            FusedElementwiseKind::Cosine => "Cosine".to_owned(),
            FusedElementwiseKind::Sine => "Sine".to_owned(),
            FusedElementwiseKind::Negate => "Negate".to_owned(),
            FusedElementwiseKind::Exponential => "Exponential".to_owned(),
            FusedElementwiseKind::Rsqrt => "Rsqrt".to_owned(),
            FusedElementwiseKind::Log => "Log".to_owned(),
            FusedElementwiseKind::Convert => "Convert".to_owned(),
            FusedElementwiseKind::Bitwise(b) => text::cat3("Bitwise(", b.name(), ")"),
            FusedElementwiseKind::Compare(d) => text::cat3("Compare(", d.variant(), ")"),
        }
    }
}

impl BitwiseBinaryKind {
    /// What the operation makes of two numbers.
    pub open spec fn result(self, n: Arithmetic, a: int, b: int) -> int {
        match self {
            BitwiseBinaryKind::And => (n.and)(a, b),
            BitwiseBinaryKind::Or => (n.or)(a, b),
            BitwiseBinaryKind::Xor => (n.xor)(a, b),
            BitwiseBinaryKind::ShiftLeft => (n.shift_left)(a, b),
            BitwiseBinaryKind::ShiftRightLogical => (n.shift_right)(a, b),
            BitwiseBinaryKind::ShiftRightArithmetic => (n.shift_right_signed)(a, b),
        }
    }
}

impl FusedElementwiseKind {
    /// What a node makes of the input `x`, the constant `c` and its operands `a` and `b`.
    pub open spec fn result(self, n: Arithmetic, x: int, c: int, a: int, b: int) -> int {
        match self {
            FusedElementwiseKind::Input => x,
            FusedElementwiseKind::Constant => c,
            FusedElementwiseKind::Add => (n.add)(a, b),
            FusedElementwiseKind::Subtract => (n.sub)(a, b),
            FusedElementwiseKind::Multiply => (n.mul)(a, b),
            FusedElementwiseKind::Divide => (n.div)(a, b),
            FusedElementwiseKind::Power => (n.pow)(a, b),
            FusedElementwiseKind::Max => (n.max)(a, b),
            FusedElementwiseKind::Bitwise(kind) => kind.result(n, a, b),
            FusedElementwiseKind::Compare(direction) => if direction.holds(a, b) {
                1
            } else {
                0
            },
            FusedElementwiseKind::Cosine => (n.cos)(a),
            FusedElementwiseKind::Sine => (n.sin)(a),
            FusedElementwiseKind::Negate => (n.neg)(a),
            FusedElementwiseKind::Exponential => (n.exp)(a),
            FusedElementwiseKind::Rsqrt => (n.rsqrt)(a),
            FusedElementwiseKind::Log => (n.log)(a),
            FusedElementwiseKind::Convert => a,
        }
    }
}

/// A node of a fused operation.
#[derive(Clone, Debug, Hash, PartialEq, Eq)]
pub struct FusedElementwiseNode {
    pub kind: FusedElementwiseKind,
    pub input_nodes: Vec<u32>,
    pub input_index: u32,
    pub packed_value: u32,
    pub element_type: PJRT_Buffer_Type,
    pub single_tile_broadcast: bool,
}

/// What a contract says of a node.
pub struct Node {
    pub kind: FusedElementwiseKind,
    pub inputs: Seq<u32>,
    pub input_index: u32,
    pub packed_value: u32,
    pub element_type: PJRT_Buffer_Type,
    pub single_tile_broadcast: bool,
}

impl View for FusedElementwiseNode {
    type V = Node;

    open spec fn view(&self) -> Node {
        Node {
            kind: self.kind,
            inputs: self.input_nodes@,
            input_index: self.input_index,
            packed_value: self.packed_value,
            element_type: self.element_type,
            single_tile_broadcast: self.single_tile_broadcast,
        }
    }
}

/// The nodes of a list.
pub open spec fn nodes_view(nodes: Seq<FusedElementwiseNode>) -> Seq<Node> {
    nodes.map_values(|n: FusedElementwiseNode| n@)
}

/// How elements are combined when a tensor is reduced.
#[derive(Clone, Copy, Debug, PartialEq, Eq, Structural)]
pub enum ReduceReducer {
    Add,
    Max,
    Min,
    Mul,
    And,
    Or,
}

impl ReduceReducer {
    /// What the reducer makes of two words of bits, read as numbers where it computes.
    pub open spec fn combined(self, a: int, b: int) -> int {
        match self {
            ReduceReducer::Add => a + b,
            ReduceReducer::Max => if a >= b {
                a
            } else {
                b
            },
            ReduceReducer::Min => if a <= b {
                a
            } else {
                b
            },
            ReduceReducer::Mul => a * b,
            ReduceReducer::And => ((a as u32) & (b as u32)) as int,
            ReduceReducer::Or => ((a as u32) | (b as u32)) as int,
        }
    }
}

#[derive(Clone, Debug, PartialEq, Eq)]
pub struct ReduceWindowAttributes {
    pub window_dimensions: Vec<i64>,
    pub window_strides: Vec<i64>,
    pub base_dilations: Vec<i64>,
    pub window_dilations: Vec<i64>,
    pub padding_low: Vec<i64>,
    pub padding_high: Vec<i64>,
}

#[derive(Clone, Debug)]
pub struct GatherDimensionNumbers {
    pub offset_dims: Vec<i64>,
    pub collapsed_slice_dims: Vec<i64>,
    pub operand_batching_dims: Vec<i64>,
    pub start_indices_batching_dims: Vec<i64>,
    pub start_index_map: Vec<i64>,
    pub index_vector_dim: i64,
}

#[derive(Clone, Debug)]
pub struct ScatterDimensionNumbers {
    pub update_window_dims: Vec<i64>,
    pub inserted_window_dims: Vec<i64>,
    pub input_batching_dims: Vec<i64>,
    pub scatter_indices_batching_dims: Vec<i64>,
    pub scatter_dims_to_operand_dims: Vec<i64>,
    pub index_vector_dim: i64,
}

#[derive(Clone, Debug)]
pub struct DotGeneralDimensionNumbers {
    pub lhs_batching_dimensions: Vec<i64>,
    pub rhs_batching_dimensions: Vec<i64>,
    pub lhs_contracting_dimensions: Vec<i64>,
    pub rhs_contracting_dimensions: Vec<i64>,
}

#[derive(Clone, Copy, Debug, PartialEq, Eq, Structural)]
pub struct MatmulTopKEpilogue {
    pub matmul_output_id: u32,
    pub indices_id: u32,
    pub k: u32,
}

/// A tensor: its dimensions and element type.
#[derive(Clone, Debug)]
pub struct ValueDesc {
    pub dims: Vec<i64>,
    pub element_type: PJRT_Buffer_Type,
}

/// An operation on tensors, which are named by their numbers.
#[derive(Debug)]
pub enum Op {
    Parameter { parameter_index: usize, output_id: u32 },
    Concatenate { input_ids: Vec<u32>, output_id: u32, dimension: u64 },
    Reshape { input_id: u32, output_id: u32 },
    Slice {
        input_id: u32,
        output_id: u32,
        start_indices: Vec<i64>,
        limit_indices: Vec<i64>,
        strides: Vec<i64>,
    },
    Transpose { input_id: u32, output_id: u32, permutation: Vec<i64> },
    CustomCall {
        input_ids: Vec<u32>,
        output_id: u32,
        call_target_name: String,
        has_side_effect: bool,
    },
    Reduce {
        input_ids: Vec<u32>,
        init_value_ids: Vec<u32>,
        output_id: u32,
        dimensions: Vec<i64>,
        reducer: ReduceReducer,
    },
    ReduceWindow {
        input_ids: Vec<u32>,
        init_value_ids: Vec<u32>,
        output_id: u32,
        attributes: ReduceWindowAttributes,
        reducer: ReduceReducer,
    },
    Matmul {
        input_ids: [u32; 2],
        output_id: u32,
        dimension_numbers: DotGeneralDimensionNumbers,
        top_k_epilogue: Option<MatmulTopKEpilogue>,
    },
    Constant { packed_value: u32, data: Vec<u8>, output_id: u32 },
    Select { input_ids: [u32; 3], output_id: u32 },
    BroadcastInDim { input_id: u32, output_id: u32, broadcast_dimensions: Vec<i64> },
    Gather {
        input_ids: [u32; 2],
        output_id: u32,
        dimension_numbers: GatherDimensionNumbers,
        slice_sizes: Vec<i64>,
        indices_are_sorted: bool,
    },
    Scatter {
        input_ids: [u32; 3],
        output_id: u32,
        dimension_numbers: ScatterDimensionNumbers,
        indices_are_sorted: bool,
        unique_indices: bool,
    },
    Iota { output_id: u32, iota_dimension: u64 },
    TopK { input_id: u32, values_id: u32, indices_id: u32, k: u32 },
    FusedElementwise { input_ids: Vec<u32>, output_id: u32, nodes: Vec<FusedElementwiseNode> },
    SdpaDecode { input_ids: [u32; 5], output_id: u32, scale_bf16_packed: u32 },
    RmsNorm { input_ids: [u32; 2], output_id: u32, scale_bits: u32, bias_bits: u32 },
    Rope { input_ids: [u32; 3], output_id: u32 },
}

/// A list of operations with the tensors they work on.
#[derive(Debug)]
pub struct Executable {
    pub values: Vec<ValueDesc>,
    pub ops: Vec<Op>,
    pub output_ids: Vec<u32>,
}

} // verus!
