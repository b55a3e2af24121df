//! Kinds of nodes: operands, element types, and the device functions that compute them.

use vstd::prelude::*;
use crate::dram::DType;
use crate::error;
use crate::error::Error;
use crate::executable::{BitwiseBinaryKind, CompareDirection, FusedElementwiseKind};
use crate::text;

verus! {

pub const HEADER_ADD_INT: &'static str = "compute_kernel_api/add_int_sfpu.h";

pub const HEADER_BINARY_BITWISE: &'static str = "compute_kernel_api/binary_bitwise_sfpu.h";

pub const HEADER_BINARY_MAX_MIN: &'static str = "compute_kernel_api/binary_max_min.h";

pub const HEADER_BINARY_SHIFT: &'static str = "compute_kernel_api/binary_shift.h";

pub const HEADER_BINARY_SFPU: &'static str = "compute_kernel_api/eltwise_binary_sfpu.h";

pub const HEADER_BINOP_WITH_SCALAR: &'static str = "compute_kernel_api/eltwise_unary/binop_with_scalar.h";

pub const HEADER_COMP: &'static str = "compute_kernel_api/eltwise_unary/comp.h";

pub const HEADER_EXP: &'static str = "compute_kernel_api/eltwise_unary/exp.h";

pub const HEADER_LOG: &'static str = "compute_kernel_api.h";

pub const HEADER_MUL_INT: &'static str = "compute_kernel_api/mul_int_sfpu.h";

pub const HEADER_MUL_INT32: &'static str = "compute_kernel_api/mul_int32_sfpu.h";

pub const HEADER_NEGATIVE: &'static str = "compute_kernel_api/eltwise_unary/negative.h";

pub const HEADER_RDIV: &'static str = "compute_kernel_api/eltwise_unary/rdiv.h";

pub const HEADER_RPOW: &'static str = "compute_kernel_api/eltwise_unary/rpow.h";

pub const HEADER_RSQRT: &'static str = "compute_kernel_api/eltwise_unary/rsqrt.h";

pub const HEADER_SUB_INT: &'static str = "compute_kernel_api/sub_int_sfpu.h";

pub const HEADER_TRIGONOMETRY: &'static str = "compute_kernel_api/eltwise_unary/trigonometry.h";

pub const HEADER_TYPECAST: &'static str = "compute_kernel_api/eltwise_unary/typecast.h";

/// Whether a type holds floating point numbers.
pub open spec fn is_float(d: DType) -> bool {
    d == DType::Float16 || d == DType::Float16B || d == DType::Float32
}

pub fn is_float_dtype(dtype: DType) -> (r: bool)
    ensures
        r == is_float(dtype),
{
    matches!(dtype, DType::Float16 | DType::Float16B | DType::Float32)
}

/// Whether elements of a type can be computed with.
pub open spec fn is_value(d: DType) -> bool {
    is_float(d) || d == DType::Int32 || d == DType::UInt16 || d == DType::UInt32
}

pub fn is_supported_value_dtype(dtype: DType) -> (r: bool)
    ensures
        r == is_value(dtype),
{
    matches!(
        dtype,
        DType::Float16 | DType::Float16B | DType::Float32 | DType::Int32 | DType::UInt16
            | DType::UInt32
    )
}

/// Whether elements of a type can be converted.
pub open spec fn is_convertible(d: DType) -> bool {
    is_value(d) || d == DType::UInt8
}

pub fn is_supported_convert_dtype(dtype: DType) -> (r: bool)
    ensures
        r == is_convertible(dtype),
{
    is_supported_value_dtype(dtype) || dtype == DType::UInt8
}

/// Whether elements of a type take a full register.
pub open spec fn is_wide(d: DType) -> bool {
    d == DType::Float32 || d == DType::Int32 || d == DType::UInt32
}

pub fn is_wide_dtype(dtype: DType) -> (r: bool)
    ensures
        r == is_wide(dtype),
{
    matches!(dtype, DType::Float32 | DType::Int32 | DType::UInt32)
}

/// How a node refers to itself in a refusal.
pub open spec fn node_label(index: int) -> Seq<char> {
    "node["@ + text::dec(index) + "] "@
}

pub fn label_node(index: usize) -> (r: String)
    ensures
        r@ == node_label(index as int),
{
    text::cat3("node[", text::decimal_usize(index).as_str(), "] ")
}

impl FusedElementwiseKind {
    /// The number of operands.
    pub open spec fn operands(self) -> nat {
        match self {
            FusedElementwiseKind::Input | FusedElementwiseKind::Constant => 0,
            FusedElementwiseKind::Cosine | FusedElementwiseKind::Sine
            | FusedElementwiseKind::Negate | FusedElementwiseKind::Exponential
            | FusedElementwiseKind::Log | FusedElementwiseKind::Rsqrt
            | FusedElementwiseKind::Convert => 1,
            _ => 2,
        }
    }

    pub fn arity(self) -> (r: usize)
        ensures
            r == self.operands(),
    {
        match self {
            FusedElementwiseKind::Input | FusedElementwiseKind::Constant => 0,
            FusedElementwiseKind::Cosine | FusedElementwiseKind::Sine
            | FusedElementwiseKind::Negate | FusedElementwiseKind::Exponential
            | FusedElementwiseKind::Log | FusedElementwiseKind::Rsqrt
            | FusedElementwiseKind::Convert => 1,
            _ => 2,
        }
    }

    /// Whether the node computes nothing.
    pub open spec fn is_leaf(self) -> bool {
        self == FusedElementwiseKind::Input || self == FusedElementwiseKind::Constant
    }

    pub fn leaf(self) -> (r: bool)
        ensures
            r == self.is_leaf(),
    {
        matches!(self, FusedElementwiseKind::Input | FusedElementwiseKind::Constant)
    }

    /// Whether the operation has a device function for operands of the type.
    pub open spec fn takes(self, d: DType) -> bool {
        match self {
            FusedElementwiseKind::Add | FusedElementwiseKind::Multiply => is_value(d),
            FusedElementwiseKind::Subtract | FusedElementwiseKind::Compare(_) => is_float(d) || d
                == DType::Int32,
            FusedElementwiseKind::Divide | FusedElementwiseKind::Power
            | FusedElementwiseKind::Max => is_float(d),
            _ => false,
        }
    }

    /// Why operands of the type are refused.
    pub open spec fn operand_refusal(self, index: int, d: DType) -> Option<error::Refusal> {
        if self.takes(d) {
            None
        } else {
            Some(
                error::invalid(
                    node_label(index) + self.shown() + " does not support input dtype "@
                        + d.shown(),
                ),
            )
        }
    }

    fn validate_binary_dtype(self, node_index: usize, input_dtype: DType) -> (r: Result<(), Error>)
        ensures
            match r {
                Ok(_) => self.operand_refusal(node_index as int, input_dtype) is None,
                Err(e) => self.operand_refusal(node_index as int, input_dtype) == Some(e@),
            },
    {
        let accepted: bool = match self {
            FusedElementwiseKind::Add | FusedElementwiseKind::Multiply => is_supported_value_dtype(
                input_dtype,
            ),
            FusedElementwiseKind::Subtract | FusedElementwiseKind::Compare(_) => is_float_dtype(
                input_dtype,
            ) || input_dtype == DType::Int32,
            FusedElementwiseKind::Divide | FusedElementwiseKind::Power
            | FusedElementwiseKind::Max => is_float_dtype(input_dtype),
            _ => false,
        };
        if accepted {
            return Ok(());
        }
        Err(
            error::invalid_input(
                text::cat4(
                    label_node(node_index).as_str(),
                    self.name().as_str(),
                    " does not support input dtype ",
                    input_dtype.name(),
                ),
            ),
        )
    }

    /// Why two operands are refused: they must be of one type.
    pub open spec fn pair_refusal(self, index: int, lhs: DType, rhs: DType) -> Option<
        error::Refusal,
    > {
        if lhs == rhs {
            None
        } else {
            Some(
                error::invalid(
                    node_label(index) + self.shown() + " input dtypes must match, got "@
                        + lhs.shown() + " and "@ + rhs.shown(),
                ),
            )
        }
    }

    fn validate_binary_input_dtypes(self, node_index: usize, input_dtypes: &[DType]) -> (r: Result<
        DType,
        Error,
    >)
        requires
            input_dtypes@.len() >= 2,
        ensures
            match r {
                Ok(d) => d == input_dtypes@[0] && self.pair_refusal(
                    node_index as int,
                    input_dtypes@[0],
                    input_dtypes@[1],
                ) is None,
                Err(e) => self.pair_refusal(
                    node_index as int,
                    input_dtypes@[0],
                    input_dtypes@[1],
                ) == Some(e@),
            },
    {
        let lhs: DType = input_dtypes[0];
        let rhs: DType = input_dtypes[1];
        if lhs != rhs {
            return Err(
                error::invalid_input(
                    text::cat6(
                        label_node(node_index).as_str(),
                        self.name().as_str(),
                        " input dtypes must match, got ",
                        lhs.name(),
                        " and ",
                        rhs.name(),
                    ),
                ),
            );
        }
        Ok(lhs)
    }

    /// Why the type of the result is refused: it must be that of the operands.
    pub open spec fn result_refusal(self, index: int, from: DType, to: DType) -> Option<
        error::Refusal,
    > {
        if from == to {
            None
        } else {
            Some(
                error::invalid(
                    node_label(index) + self.shown()
                        + " output dtype must match input dtype, got "@ + from.shown() + " -> "@
                        + to.shown(),
                ),
            )
        }
    }

    fn validate_same_output_dtype(
        self,
        node_index: usize,
        input_dtype: DType,
        output_dtype: DType,
    ) -> (r: Result<(), Error>)
        ensures
            match r {
                Ok(_) => self.result_refusal(node_index as int, input_dtype, output_dtype) is None,
                Err(e) => self.result_refusal(node_index as int, input_dtype, output_dtype) == Some(
                    e@,
                ),
            },
    {
        if output_dtype == input_dtype {
            return Ok(());
        }
        Err(
            error::invalid_input(
                text::cat6(
                    label_node(node_index).as_str(),
                    self.name().as_str(),
                    " output dtype must match input dtype, got ",
                    input_dtype.name(),
                    " -> ",
                    output_dtype.name(),
                ),
            ),
        )
    }

    /// Why the types of operands and result are refused.
    pub open spec fn type_refusal(self, index: int, ins: Seq<DType>, out: DType) -> Option<
        error::Refusal,
    > {
        match self {
            FusedElementwiseKind::Input | FusedElementwiseKind::Constant => None,
            FusedElementwiseKind::Convert => if is_convertible(ins[0]) && is_convertible(out) {
                None
            } else {
                Some(
                    error::invalid(
                        node_label(index)
                            + "convert supports Float16, Float16B, Float32, Int32, UInt8, UInt16, and UInt32, got "@
                            + ins[0].shown() + " -> "@ + out.shown(),
                    ),
                )
            },
            FusedElementwiseKind::Cosine | FusedElementwiseKind::Sine
            | FusedElementwiseKind::Negate | FusedElementwiseKind::Exponential
            | FusedElementwiseKind::Log | FusedElementwiseKind::Rsqrt => if self.result_refusal(
                index,
                ins[0],
                out,
            ) is Some {
                self.result_refusal(index, ins[0], out)
            } else if is_float(ins[0]) {
                None
            } else {
                Some(
                    error::invalid(
                        node_label(index) + self.shown()
                            + " supports Float16, Float16B, and Float32 inputs, got "@
                            + ins[0].shown(),
                    ),
                )
            },
            FusedElementwiseKind::Compare(_) => if self.pair_refusal(index, ins[0], ins[1]) is Some {
                self.pair_refusal(index, ins[0], ins[1])
            } else if out != DType::UInt8 {
                Some(
                    error::invalid(
                        node_label(index) + "compare output dtype must be UInt8, got "@
                            + out.shown(),
                    ),
                )
            } else {
                self.operand_refusal(index, ins[0])
            },
            _ => if self.pair_refusal(index, ins[0], ins[1]) is Some {
                self.pair_refusal(index, ins[0], ins[1])
            } else if self.result_refusal(index, ins[0], out) is Some {
                self.result_refusal(index, ins[0], out)
            } else {
                match self {
                    FusedElementwiseKind::Bitwise(b) => if bitwise_takes(b, ins[0]) || ins[0]
                        == DType::UInt8 {
                        None
                    } else {
                        Some(
                            error::invalid(
                                node_label(index) + self.shown() + " does not support dtype "@
                                    + ins[0].shown(),
                            ),
                        )
                    },
                    _ => self.operand_refusal(index, ins[0]),
                }
            },
        }
    }

    pub fn validate_dtypes(self, node_index: usize, input_dtypes: &[DType], output_dtype: DType) -> (r:
        Result<(), Error>)
        requires
            input_dtypes@.len() >= self.operands(),
        ensures
            match r {
                Ok(_) => self.type_refusal(node_index as int, input_dtypes@, output_dtype) is None,
                Err(e) => self.type_refusal(node_index as int, input_dtypes@, output_dtype) == Some(
                    e@,
                ),
            },
    {
        match self {
            FusedElementwiseKind::Input | FusedElementwiseKind::Constant => Ok(()),
            FusedElementwiseKind::Cosine | FusedElementwiseKind::Sine
            | FusedElementwiseKind::Negate | FusedElementwiseKind::Exponential
            | FusedElementwiseKind::Log | FusedElementwiseKind::Rsqrt => {
                let input_dtype: DType = input_dtypes[0];
                self.validate_same_output_dtype(node_index, input_dtype, output_dtype)?;
                if !is_float_dtype(input_dtype) {
                    return Err(
                        error::invalid_input(
                            text::cat4(
                                label_node(node_index).as_str(),
                                self.name().as_str(),
                                " supports Float16, Float16B, and Float32 inputs, got ",
                                input_dtype.name(),
                            ),
                        ),
                    );
                }
                Ok(())
            },
            FusedElementwiseKind::Convert => {
                let input_dtype: DType = input_dtypes[0];
                if !is_supported_convert_dtype(input_dtype) || !is_supported_convert_dtype(
                    output_dtype,
                ) {
                    return Err(
                        error::invalid_input(
                            text::cat5(
                                label_node(node_index).as_str(),
                                "convert supports Float16, Float16B, Float32, Int32, UInt8, UInt16, and UInt32, got ",
                                input_dtype.name(),
                                " -> ",
                                output_dtype.name(),
                            ),
                        ),
                    );
                }
                Ok(())
            },
            FusedElementwiseKind::Bitwise(kind) => {
                let input_dtype = self.validate_binary_input_dtypes(node_index, input_dtypes)?;
                self.validate_same_output_dtype(node_index, input_dtype, output_dtype)?;
                if !bitwise_supported(kind, input_dtype) && input_dtype != DType::UInt8 {
                    return Err(
                        error::invalid_input(
                            text::cat4(
                                label_node(node_index).as_str(),
                                self.name().as_str(),
                                " does not support dtype ",
                                input_dtype.name(),
                            ),
                        ),
                    );
                }
                Ok(())
            },
            FusedElementwiseKind::Compare(_) => {
                let input_dtype = self.validate_binary_input_dtypes(node_index, input_dtypes)?;
                if output_dtype != DType::UInt8 {
                    return Err(
                        error::invalid_input(
                            text::cat3(
                                label_node(node_index).as_str(),
                                "compare output dtype must be UInt8, got ",
                                output_dtype.name(),
                            ),
                        ),
                    );
                }
                self.validate_binary_dtype(node_index, input_dtype)
            },
            _ => {
                let input_dtype = self.validate_binary_input_dtypes(node_index, input_dtypes)?;
                self.validate_same_output_dtype(node_index, input_dtype, output_dtype)?;
                self.validate_binary_dtype(node_index, input_dtype)
            },
        }
    }

    /// The header that declares the device function of one operand.
    pub open spec fn unary_header(self) -> Seq<char> {
        match self {
            FusedElementwiseKind::Negate => "compute_kernel_api/eltwise_unary/negative.h"@,
            FusedElementwiseKind::Cosine => "compute_kernel_api/eltwise_unary/trigonometry.h"@,
            FusedElementwiseKind::Sine => "compute_kernel_api/eltwise_unary/trigonometry.h"@,
            FusedElementwiseKind::Exponential => "compute_kernel_api/eltwise_unary/exp.h"@,
            FusedElementwiseKind::Log => "compute_kernel_api.h"@,
            FusedElementwiseKind::Rsqrt => "compute_kernel_api/eltwise_unary/rsqrt.h"@,
            _ => "compute_kernel_api/eltwise_unary/typecast.h"@,
        }
    }

    pub fn header_of_unary(self) -> (r: &'static str)
        ensures
            r@ == self.unary_header(),
    {
        match self {
            FusedElementwiseKind::Negate => "compute_kernel_api/eltwise_unary/negative.h",
            FusedElementwiseKind::Cosine => "compute_kernel_api/eltwise_unary/trigonometry.h",
            FusedElementwiseKind::Sine => "compute_kernel_api/eltwise_unary/trigonometry.h",
            FusedElementwiseKind::Exponential => "compute_kernel_api/eltwise_unary/exp.h",
            FusedElementwiseKind::Log => "compute_kernel_api.h",
            FusedElementwiseKind::Rsqrt => "compute_kernel_api/eltwise_unary/rsqrt.h",
            _ => "compute_kernel_api/eltwise_unary/typecast.h",
        }
    }

    /// The call that prepares the device function of one operand.
    pub open spec fn unary_init(self) -> Seq<char> {
        match self {
            FusedElementwiseKind::Negate => "negative_tile_init();"@,
            FusedElementwiseKind::Cosine => "cos_tile_init();"@,
            FusedElementwiseKind::Sine => "sin_tile_init();"@,
            FusedElementwiseKind::Exponential => "exp_tile_init();"@,
            FusedElementwiseKind::Log => "log_tile_init();"@,
            FusedElementwiseKind::Rsqrt => "rsqrt_tile_init();"@,
            _ => ""@,
        }
    }

    pub fn init_of_unary(self) -> (r: &'static str)
        ensures
            r@ == self.unary_init(),
    {
        match self {
            FusedElementwiseKind::Negate => "negative_tile_init();",
            FusedElementwiseKind::Cosine => "cos_tile_init();",
            FusedElementwiseKind::Sine => "sin_tile_init();",
            FusedElementwiseKind::Exponential => "exp_tile_init();",
            FusedElementwiseKind::Log => "log_tile_init();",
            FusedElementwiseKind::Rsqrt => "rsqrt_tile_init();",
            _ => "",
        }
    }

    /// The call of the device function of one operand.
    pub open spec fn unary_tile(self) -> Seq<char> {
        match self {
            FusedElementwiseKind::Negate => "negative_tile(0);"@,
            FusedElementwiseKind::Cosine => "cos_tile(0);"@,
            FusedElementwiseKind::Sine => "sin_tile(0);"@,
            FusedElementwiseKind::Exponential => "exp_tile(0);"@,
            FusedElementwiseKind::Log => "log_tile(0);"@,
            FusedElementwiseKind::Rsqrt => "rsqrt_tile(0);"@,
            _ => ""@,
        }
    }

    pub fn tile_of_unary(self) -> (r: &'static str)
        ensures
            r@ == self.unary_tile(),
    {
        match self {
            FusedElementwiseKind::Negate => "negative_tile(0);",
            FusedElementwiseKind::Cosine => "cos_tile(0);",
            FusedElementwiseKind::Sine => "sin_tile(0);",
            FusedElementwiseKind::Exponential => "exp_tile(0);",
            FusedElementwiseKind::Log => "log_tile(0);",
            FusedElementwiseKind::Rsqrt => "rsqrt_tile(0);",
            _ => "",
        }
    }

    /// The helper that picks a device function by the format of its operands.
    pub open spec fn helper_text(self) -> Seq<char> {
        match self {
            FusedElementwiseKind::Add => "add_input"@,
            FusedElementwiseKind::Subtract => "subtract_input"@,
            FusedElementwiseKind::Multiply => "multiply_input"@,
            _ => ""@,
        }
    }

    pub fn helper(self) -> (r: &'static str)
        ensures
            r@ == self.helper_text(),
    {
        match self {
            FusedElementwiseKind::Add => "add_input",
            FusedElementwiseKind::Subtract => "subtract_input",
            FusedElementwiseKind::Multiply => "multiply_input",
            _ => "",
        }
    }

    /// Whether a helper picks the device function by the format of its operands.
    pub open spec fn has_helper(self) -> bool {
        self == FusedElementwiseKind::Add || self == FusedElementwiseKind::Subtract || self
            == FusedElementwiseKind::Multiply
    }
}

impl CompareDirection {
    /// The call that prepares the comparison with a constant.
    pub open spec fn scalar_init(self) -> Seq<char> {
        match self {
            CompareDirection::Eq => "unary_eq_tile_init"@,
            CompareDirection::Ne => "unary_ne_tile_init"@,
            CompareDirection::Ge => "unary_ge_tile_init"@,
            CompareDirection::Gt => "unary_gt_tile_init"@,
            CompareDirection::Le => "unary_le_tile_init"@,
            CompareDirection::Lt => "unary_lt_tile_init"@,
        }
    }

    pub fn unary_init(self) -> (r: &'static str)
        ensures
            r@ == self.scalar_init(),
    {
        match self {
            CompareDirection::Eq => "unary_eq_tile_init",
            CompareDirection::Ne => "unary_ne_tile_init",
            CompareDirection::Ge => "unary_ge_tile_init",
            CompareDirection::Gt => "unary_gt_tile_init",
            CompareDirection::Le => "unary_le_tile_init",
            CompareDirection::Lt => "unary_lt_tile_init",
        }
    }

    /// The comparison with a constant.
    pub open spec fn scalar_tile(self, int32_input: bool) -> Seq<char> {
        match (self, int32_input) {
            (CompareDirection::Eq, false) => "unary_eq_tile"@,
            (CompareDirection::Ne, false) => "unary_ne_tile"@,
            (CompareDirection::Ge, false) => "unary_ge_tile"@,
            (CompareDirection::Gt, false) => "unary_gt_tile"@,
            (CompareDirection::Le, false) => "unary_le_tile"@,
            (CompareDirection::Lt, false) => "unary_lt_tile"@,
            (CompareDirection::Eq, true) => "unary_eq_tile_int32"@,
            (CompareDirection::Ne, true) => "unary_ne_tile_int32"@,
            (CompareDirection::Ge, true) => "unary_ge_tile_int32"@,
            (CompareDirection::Gt, true) => "unary_gt_tile_int32"@,
            (CompareDirection::Le, true) => "unary_le_tile_int32"@,
            (CompareDirection::Lt, true) => "unary_lt_tile_int32"@,
        }
    }

    pub fn unary_tile(self, int32_input: bool) -> (r: &'static str)
        ensures
            r@ == self.scalar_tile(int32_input),
    {
        match (self, int32_input) {
            (CompareDirection::Eq, false) => "unary_eq_tile",
            (CompareDirection::Ne, false) => "unary_ne_tile",
            (CompareDirection::Ge, false) => "unary_ge_tile",
            (CompareDirection::Gt, false) => "unary_gt_tile",
            (CompareDirection::Le, false) => "unary_le_tile",
            (CompareDirection::Lt, false) => "unary_lt_tile",
            (CompareDirection::Eq, true) => "unary_eq_tile_int32",
            (CompareDirection::Ne, true) => "unary_ne_tile_int32",
            (CompareDirection::Ge, true) => "unary_ge_tile_int32",
            (CompareDirection::Gt, true) => "unary_gt_tile_int32",
            (CompareDirection::Le, true) => "unary_le_tile_int32",
            (CompareDirection::Lt, true) => "unary_lt_tile_int32",
        }
    }
}

/// Whether the kind moves bits.
pub open spec fn is_shift(kind: BitwiseBinaryKind) -> bool {
    match kind {
        BitwiseBinaryKind::And | BitwiseBinaryKind::Or | BitwiseBinaryKind::Xor => false,
        _ => true,
    }
}

pub fn shifts(kind: BitwiseBinaryKind) -> (r: bool)
    ensures
        r == is_shift(kind),
{
    match kind {
        BitwiseBinaryKind::And | BitwiseBinaryKind::Or | BitwiseBinaryKind::Xor => false,
        _ => true,
    }
}

/// Whether there is a device function for the kind on elements of the type.
pub open spec fn bitwise_takes(kind: BitwiseBinaryKind, d: DType) -> bool {
    d == DType::Int32 || d == DType::UInt32 || (d == DType::UInt16 && !is_shift(kind))
}

pub fn bitwise_supported(kind: BitwiseBinaryKind, dtype: DType) -> (r: bool)
    ensures
        r == bitwise_takes(kind, dtype),
{
    dtype == DType::Int32 || dtype == DType::UInt32 || (dtype == DType::UInt16 && !shifts(kind))
}

/// The device function for a kind and a type.
pub open spec fn bitwise_tile(kind: BitwiseBinaryKind, dtype: DType) -> Seq<char> {
    match (kind, dtype) {
        (BitwiseBinaryKind::And, DType::Int32) => "bitwise_and_binary_tile"@,
        (BitwiseBinaryKind::And, DType::UInt32) => "bitwise_and_uint32_binary_tile"@,
        (BitwiseBinaryKind::And, DType::UInt16) => "bitwise_and_uint16_binary_tile"@,
        (BitwiseBinaryKind::Or, DType::Int32) => "bitwise_or_binary_tile"@,
        (BitwiseBinaryKind::Or, DType::UInt32) => "bitwise_or_uint32_binary_tile"@,
        (BitwiseBinaryKind::Or, DType::UInt16) => "bitwise_or_uint16_binary_tile"@,
        (BitwiseBinaryKind::Xor, DType::Int32) => "bitwise_xor_binary_tile"@,
        (BitwiseBinaryKind::Xor, DType::UInt32) => "bitwise_xor_uint32_binary_tile"@,
        (BitwiseBinaryKind::Xor, DType::UInt16) => "bitwise_xor_uint16_binary_tile"@,
        (BitwiseBinaryKind::ShiftLeft, DType::Int32) => "binary_left_shift_int32_tile"@,
        (BitwiseBinaryKind::ShiftLeft, DType::UInt32) => "binary_left_shift_uint32_tile"@,
        (BitwiseBinaryKind::ShiftRightLogical, DType::Int32) => "binary_logical_right_shift_int32_tile"@,
        (BitwiseBinaryKind::ShiftRightLogical, DType::UInt32) => "binary_logical_right_shift_uint32_tile"@,
        (BitwiseBinaryKind::ShiftRightArithmetic, DType::Int32) => "binary_right_shift_int32_tile"@,
        (BitwiseBinaryKind::ShiftRightArithmetic, DType::UInt32) => "binary_right_shift_uint32_tile"@,
        _ => ""@,
    }
}

pub fn tile_of_bitwise(kind: BitwiseBinaryKind, dtype: DType) -> (r: &'static str)
    ensures
        r@ == bitwise_tile(kind, dtype),
{
    match (kind, dtype) {
        (BitwiseBinaryKind::And, DType::Int32) => "bitwise_and_binary_tile",
        (BitwiseBinaryKind::And, DType::UInt32) => "bitwise_and_uint32_binary_tile",
        (BitwiseBinaryKind::And, DType::UInt16) => "bitwise_and_uint16_binary_tile",
        (BitwiseBinaryKind::Or, DType::Int32) => "bitwise_or_binary_tile",
        (BitwiseBinaryKind::Or, DType::UInt32) => "bitwise_or_uint32_binary_tile",
        (BitwiseBinaryKind::Or, DType::UInt16) => "bitwise_or_uint16_binary_tile",
        (BitwiseBinaryKind::Xor, DType::Int32) => "bitwise_xor_binary_tile",
        (BitwiseBinaryKind::Xor, DType::UInt32) => "bitwise_xor_uint32_binary_tile",
        (BitwiseBinaryKind::Xor, DType::UInt16) => "bitwise_xor_uint16_binary_tile",
        (BitwiseBinaryKind::ShiftLeft, DType::Int32) => "binary_left_shift_int32_tile",
        (BitwiseBinaryKind::ShiftLeft, DType::UInt32) => "binary_left_shift_uint32_tile",
        (BitwiseBinaryKind::ShiftRightLogical, DType::Int32) => "binary_logical_right_shift_int32_tile",
        (BitwiseBinaryKind::ShiftRightLogical, DType::UInt32) => "binary_logical_right_shift_uint32_tile",
        (BitwiseBinaryKind::ShiftRightArithmetic, DType::Int32) => "binary_right_shift_int32_tile",
        (BitwiseBinaryKind::ShiftRightArithmetic, DType::UInt32) => "binary_right_shift_uint32_tile",
        _ => "",
    }
}

/// The number of a kind in the helper for bytes.
pub open spec fn bitwise_code(kind: BitwiseBinaryKind) -> u32 {
    match kind {
        BitwiseBinaryKind::And => 0,
        BitwiseBinaryKind::Or => 1,
        BitwiseBinaryKind::Xor => 2,
        BitwiseBinaryKind::ShiftLeft => 3,
        BitwiseBinaryKind::ShiftRightLogical => 4,
        BitwiseBinaryKind::ShiftRightArithmetic => 5,
    }
}

pub fn raw_bitwise_op_value(kind: BitwiseBinaryKind) -> (r: u32)
    ensures
        r == bitwise_code(kind),
{
    match kind {
        BitwiseBinaryKind::And => 0,
        BitwiseBinaryKind::Or => 1,
        BitwiseBinaryKind::Xor => 2,
        BitwiseBinaryKind::ShiftLeft => 3,
        BitwiseBinaryKind::ShiftRightLogical => 4,
        BitwiseBinaryKind::ShiftRightArithmetic => 5,
    }
}

/// A device function of one operand and a constant.
#[derive(Clone, Copy, Debug, PartialEq, Eq, Structural)]
pub enum ScalarOp {
    Add,
    AddInt,
    Subtract,
    SubtractInt,
    SubtractFrom,
    Multiply,
    Divide,
    DivideInto,
    Power,
    PowerOf,
    Max,
    Compare { direction: CompareDirection, int32_input: bool },
}

impl ScalarOp {
    /// The call that prepares the function.
    pub open spec fn init_text(self) -> Seq<char> {
        match self {
            ScalarOp::Add => "binop_with_scalar_tile_init"@,
            ScalarOp::AddInt => "binop_with_scalar_tile_init"@,
            ScalarOp::Subtract => "binop_with_scalar_tile_init"@,
            ScalarOp::SubtractInt => "binop_with_scalar_tile_init"@,
            ScalarOp::SubtractFrom => "binop_with_scalar_tile_init"@,
            ScalarOp::Multiply => "binop_with_scalar_tile_init"@,
            ScalarOp::Divide => "binop_with_scalar_tile_init"@,
            ScalarOp::DivideInto => "rdiv_tile_init"@,
            ScalarOp::Power => "power_tile_init"@,
            ScalarOp::PowerOf => "rpow_tile_init"@,
            ScalarOp::Max => "unary_max_tile_init"@,
            ScalarOp::Compare { direction, int32_input } => direction.scalar_init(),
        }
    }

    pub fn init(self) -> (r: &'static str)
        ensures
            r@ == self.init_text(),
    {
        match self {
            ScalarOp::Add => "binop_with_scalar_tile_init",
            ScalarOp::AddInt => "binop_with_scalar_tile_init",
            ScalarOp::Subtract => "binop_with_scalar_tile_init",
            ScalarOp::SubtractInt => "binop_with_scalar_tile_init",
            ScalarOp::SubtractFrom => "binop_with_scalar_tile_init",
            ScalarOp::Multiply => "binop_with_scalar_tile_init",
            ScalarOp::Divide => "binop_with_scalar_tile_init",
            ScalarOp::DivideInto => "rdiv_tile_init",
            ScalarOp::Power => "power_tile_init",
            ScalarOp::PowerOf => "rpow_tile_init",
            ScalarOp::Max => "unary_max_tile_init",
            ScalarOp::Compare { direction, int32_input } => direction.unary_init(),
        }
    }

    /// The function.
    pub open spec fn tile_text(self) -> Seq<char> {
        match self {
            ScalarOp::Add => "add_unary_tile"@,
            ScalarOp::AddInt => "add_unary_tile_int32"@,
            ScalarOp::Subtract => "sub_unary_tile"@,
            ScalarOp::SubtractInt => "sub_unary_tile_int32"@,
            ScalarOp::SubtractFrom => "rsub_unary_tile"@,
            ScalarOp::Multiply => "mul_unary_tile"@,
            ScalarOp::Divide => "div_unary_tile"@,
            ScalarOp::DivideInto => "rdiv_tile"@,
            ScalarOp::Power => "power_tile"@,
            ScalarOp::PowerOf => "rpow_tile"@,
            ScalarOp::Max => "unary_max_tile"@,
            ScalarOp::Compare { direction, int32_input } => direction.scalar_tile(int32_input),
        }
    }

    pub fn tile(self) -> (r: &'static str)
        ensures
            r@ == self.tile_text(),
    {
        match self {
            ScalarOp::Add => "add_unary_tile",
            ScalarOp::AddInt => "add_unary_tile_int32",
            ScalarOp::Subtract => "sub_unary_tile",
            ScalarOp::SubtractInt => "sub_unary_tile_int32",
            ScalarOp::SubtractFrom => "rsub_unary_tile",
            ScalarOp::Multiply => "mul_unary_tile",
            ScalarOp::Divide => "div_unary_tile",
            ScalarOp::DivideInto => "rdiv_tile",
            ScalarOp::Power => "power_tile",
            ScalarOp::PowerOf => "rpow_tile",
            ScalarOp::Max => "unary_max_tile",
            ScalarOp::Compare { direction, int32_input } => direction.unary_tile(int32_input),
        }
    }

    /// The header that declares the function, if one is needed.
    pub open spec fn header_text(self) -> Option<Seq<char>> {
        match self {
            ScalarOp::Add => Some(HEADER_BINOP_WITH_SCALAR@),
            ScalarOp::AddInt => Some(HEADER_BINOP_WITH_SCALAR@),
            ScalarOp::Subtract => Some(HEADER_BINOP_WITH_SCALAR@),
            ScalarOp::SubtractInt => Some(HEADER_BINOP_WITH_SCALAR@),
            ScalarOp::SubtractFrom => Some(HEADER_BINOP_WITH_SCALAR@),
            ScalarOp::Multiply => Some(HEADER_BINOP_WITH_SCALAR@),
            ScalarOp::Divide => Some(HEADER_BINOP_WITH_SCALAR@),
            ScalarOp::DivideInto => Some(HEADER_RDIV@),
            ScalarOp::Power => None,
            ScalarOp::PowerOf => Some(HEADER_RPOW@),
            ScalarOp::Max => None,
            ScalarOp::Compare { .. } => Some(HEADER_COMP@),
        }
    }

    pub fn header(self) -> (r: Option<&'static str>)
        ensures
            match r {
                Some(h) => self.header_text() == Some(h@),
                None => self.header_text() is None,
            },
    {
        match self {
            ScalarOp::Add => Some(HEADER_BINOP_WITH_SCALAR),
            ScalarOp::AddInt => Some(HEADER_BINOP_WITH_SCALAR),
            ScalarOp::Subtract => Some(HEADER_BINOP_WITH_SCALAR),
            ScalarOp::SubtractInt => Some(HEADER_BINOP_WITH_SCALAR),
            ScalarOp::SubtractFrom => Some(HEADER_BINOP_WITH_SCALAR),
            ScalarOp::Multiply => Some(HEADER_BINOP_WITH_SCALAR),
            ScalarOp::Divide => Some(HEADER_BINOP_WITH_SCALAR),
            ScalarOp::DivideInto => Some(HEADER_RDIV),
            ScalarOp::Power => None,
            ScalarOp::PowerOf => Some(HEADER_RPOW),
            ScalarOp::Max => None,
            ScalarOp::Compare { .. } => Some(HEADER_COMP),
        }
    }
}

/// A device function of two operands of one format.
#[derive(Clone, Copy, Debug, PartialEq, Eq, Structural)]
pub enum BinaryOp {
    Divide,
    Power,
    Max,
    Bitwise { kind: BitwiseBinaryKind, dtype: DType },
}

impl BinaryOp {
    /// The header that declares the function.
    pub open spec fn header_text(self) -> Seq<char> {
        match self {
            BinaryOp::Divide => HEADER_BINARY_SFPU@,
            BinaryOp::Power => HEADER_BINARY_SFPU@,
            BinaryOp::Max => HEADER_BINARY_MAX_MIN@,
            BinaryOp::Bitwise { kind, .. } => if is_shift(kind) {
                HEADER_BINARY_SHIFT@
            } else {
                HEADER_BINARY_BITWISE@
            },
        }
    }

    pub fn header(self) -> (r: &'static str)
        ensures
            r@ == self.header_text(),
    {
        match self {
            BinaryOp::Divide => HEADER_BINARY_SFPU,
            BinaryOp::Power => HEADER_BINARY_SFPU,
            BinaryOp::Max => HEADER_BINARY_MAX_MIN,
            BinaryOp::Bitwise { kind, .. } => if shifts(kind) {
                HEADER_BINARY_SHIFT
            } else {
                HEADER_BINARY_BITWISE
            },
        }
    }

    /// The call that prepares the function.
    pub open spec fn init_text(self) -> Seq<char> {
        match self {
            BinaryOp::Divide => "div_binary_tile_init"@,
            BinaryOp::Power => "power_binary_tile_init"@,
            BinaryOp::Max => "binary_max_tile_init"@,
            BinaryOp::Bitwise { kind, .. } => if is_shift(kind) {
                "binary_shift_tile_init"@
            } else {
                "binary_bitwise_tile_init"@
            },
        }
    }

    pub fn init(self) -> (r: &'static str)
        ensures
            r@ == self.init_text(),
    {
        match self {
            BinaryOp::Divide => "div_binary_tile_init",
            BinaryOp::Power => "power_binary_tile_init",
            BinaryOp::Max => "binary_max_tile_init",
            BinaryOp::Bitwise { kind, .. } => if shifts(kind) {
                "binary_shift_tile_init"
            } else {
                "binary_bitwise_tile_init"
            },
        }
    }

    /// The function.
    pub open spec fn tile_text(self) -> Seq<char> {
        match self {
            BinaryOp::Divide => "div_binary_tile"@,
            BinaryOp::Power => "power_binary_tile"@,
            BinaryOp::Max => "binary_max_tile"@,
            BinaryOp::Bitwise { kind, dtype } => bitwise_tile(kind, dtype),
        }
    }

    pub fn tile(self) -> (r: &'static str)
        ensures
            r@ == self.tile_text(),
    {
        match self {
            BinaryOp::Divide => "div_binary_tile",
            BinaryOp::Power => "power_binary_tile",
            BinaryOp::Max => "binary_max_tile",
            BinaryOp::Bitwise { kind, dtype } => tile_of_bitwise(kind, dtype),
        }
    }
}

} // verus!
