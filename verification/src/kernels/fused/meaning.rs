//! What the device functions compute, and that a node's function computes the node.

use vstd::prelude::*;
use vstd::arithmetic::power2::*;
use crate::dram::DType;
use crate::executable;
use crate::executable::{BitwiseBinaryKind, FusedElementwiseKind, Node};
use crate::float_bits;
use crate::kernels::fused::graph;
use crate::kernels::fused::graph::Lowering;
use crate::kernels::fused::kinds;
use crate::kernels::fused::kinds::{BinaryOp, ScalarOp};
use crate::numbers;
use crate::numbers::{Arithmetic, NumberClass};

verus! {

/// Whether the device function called `name` makes `r` of the number `v` and the constant
/// that the word `s` stands for. Functions for 32-bit integers take no floating point numbers,
/// and the others no integers.
pub open spec fn scalar_call(
    name: Seq<char>,
    n: Arithmetic,
    int32: bool,
    v: int,
    s: u32,
    r: int,
) -> bool {
    let c = (n.number)(s);
    ||| (name == "add_unary_tile"@ && !int32 && r == (n.add)(v, c))
    ||| (name == "add_unary_tile_int32"@ && int32 && r == (n.add)(v, c))
    ||| (name == "sub_unary_tile"@ && !int32 && r == (n.sub)(v, c))
    ||| (name == "sub_unary_tile_int32"@ && int32 && r == (n.sub)(v, c))
    ||| (name == "rsub_unary_tile"@ && !int32 && r == (n.sub)(c, v))
    ||| (name == "mul_unary_tile"@ && !int32 && r == (n.mul)(v, c))
    ||| (name == "div_unary_tile"@ && !int32 && r == (n.mul)(v, c))
    ||| (name == "rdiv_tile"@ && !int32 && r == (n.div)(c, v))
    ||| (name == "power_tile"@ && !int32 && r == (n.pow)(v, c))
    ||| (name == "rpow_tile"@ && !int32 && r == (n.pow)(c, v))
    ||| (name == "unary_max_tile"@ && !int32 && r == (n.max)(v, c))
    ||| (name == "unary_eq_tile"@ && !int32 && r == truth(v == c))
    ||| (name == "unary_ne_tile"@ && !int32 && r == truth(v != c))
    ||| (name == "unary_ge_tile"@ && !int32 && r == truth(v >= c))
    ||| (name == "unary_gt_tile"@ && !int32 && r == truth(v > c))
    ||| (name == "unary_le_tile"@ && !int32 && r == truth(v <= c))
    ||| (name == "unary_lt_tile"@ && !int32 && r == truth(v < c))
    ||| (name == "unary_eq_tile_int32"@ && int32 && r == truth(v == c))
    ||| (name == "unary_ne_tile_int32"@ && int32 && r == truth(v != c))
    ||| (name == "unary_ge_tile_int32"@ && int32 && r == truth(v >= c))
    ||| (name == "unary_gt_tile_int32"@ && int32 && r == truth(v > c))
    ||| (name == "unary_le_tile_int32"@ && int32 && r == truth(v <= c))
    ||| (name == "unary_lt_tile_int32"@ && int32 && r == truth(v < c))
}

/// A truth value as a number.
pub open spec fn truth(b: bool) -> int {
    if b {
        1
    } else {
        0
    }
}

/// Whether a function of one number and a constant is prepared by the call `init` and
/// declared by the header, if one has to be named.
pub open spec fn scalar_prepared(
    tile: Seq<char>,
    init: Seq<char>,
    header: Option<Seq<char>>,
) -> bool {
    let binop = Some("compute_kernel_api/eltwise_unary/binop_with_scalar.h"@);
    let comp = Some("compute_kernel_api/eltwise_unary/comp.h"@);
    ||| ((tile == "add_unary_tile"@ || tile == "add_unary_tile_int32"@ || tile == "sub_unary_tile"@
        || tile == "sub_unary_tile_int32"@ || tile == "rsub_unary_tile"@ || tile
        == "mul_unary_tile"@ || tile == "div_unary_tile"@) && init
        == "binop_with_scalar_tile_init"@ && header == binop)
    ||| (tile == "rdiv_tile"@ && init == "rdiv_tile_init"@ && header == Some(
        "compute_kernel_api/eltwise_unary/rdiv.h"@,
    ))
    ||| (tile == "power_tile"@ && init == "power_tile_init"@ && header is None)
    ||| (tile == "rpow_tile"@ && init == "rpow_tile_init"@ && header == Some(
        "compute_kernel_api/eltwise_unary/rpow.h"@,
    ))
    ||| (tile == "unary_max_tile"@ && init == "unary_max_tile_init"@ && header is None)
    ||| ((tile == "unary_eq_tile"@ || tile == "unary_eq_tile_int32"@) && init
        == "unary_eq_tile_init"@ && header == comp)
    ||| ((tile == "unary_ne_tile"@ || tile == "unary_ne_tile_int32"@) && init
        == "unary_ne_tile_init"@ && header == comp)
    ||| ((tile == "unary_ge_tile"@ || tile == "unary_ge_tile_int32"@) && init
        == "unary_ge_tile_init"@ && header == comp)
    ||| ((tile == "unary_gt_tile"@ || tile == "unary_gt_tile_int32"@) && init
        == "unary_gt_tile_init"@ && header == comp)
    ||| ((tile == "unary_le_tile"@ || tile == "unary_le_tile_int32"@) && init
        == "unary_le_tile_init"@ && header == comp)
    ||| ((tile == "unary_lt_tile"@ || tile == "unary_lt_tile_int32"@) && init
        == "unary_lt_tile_init"@ && header == comp)
}

/// Whether `s` stands for the single precision number nearest to the inverse of the one that
/// `c` stands for.
pub open spec fn nearest_inverse(c: u32, s: u32) -> bool {
    let f = numbers::single_format();
    let m = float_bits::single_magnitude(s as int);
    float_bits::single_magnitude(c as int) > 0 && (c as int) / 0x80_0000 % 256 < 255 ==> {
        &&& (s as int) / 0x8000_0000 == (c as int) / 0x8000_0000
        &&& (s as int) / 0x80_0000 % 256 < 255 ==> forall|t: u32|
            (t as int) / 0x80_0000 % 256 < 255 && #[trigger] float_bits::single_magnitude(t as int)
                != m ==> float_bits::product_error(c as int, s as int) < float_bits::product_error(
                c as int,
                t as int,
            )
    }
}

/// The function that a constant operand is handed to computes the kind of the node, with the
/// operands in their order, whichever side the constant stands on. Dividing by a constant is
/// multiplying by the number nearest to its inverse.
pub proof fn lemma_scalar_computes(
    kind: FusedElementwiseKind,
    d: DType,
    on_left: bool,
    constant: u32,
    n: Arithmetic,
    v: int,
)
    requires
        n.commutes(),
    ensures
        graph::scalar_op(kind, d, on_left, constant) matches Some((op, s)) ==> {
            let c = (n.number)(constant);
            &&& kind == FusedElementwiseKind::Divide && on_left ==> {
                &&& nearest_inverse(constant, s)
                &&& scalar_call(
                    op.tile_text(),
                    n,
                    d == DType::Int32,
                    v,
                    s,
                    (n.mul)(v, (n.number)(s)),
                )
            }
            &&& !(kind == FusedElementwiseKind::Divide && on_left) ==> scalar_call(
                op.tile_text(),
                n,
                d == DType::Int32,
                v,
                s,
                if on_left {
                    kind.result(n, 0, 0, v, c)
                } else {
                    kind.result(n, 0, 0, c, v)
                },
            )
            &&& scalar_prepared(op.tile_text(), op.init_text(), op.header_text())
        },
{
    if kind == FusedElementwiseKind::Divide && on_left {
        let s = float_bits::reciprocal(constant as int);
        if float_bits::single_magnitude(constant as int) > 0 && (constant as int) / 0x80_0000 % 256
            < 255 {
            float_bits::lemma_reciprocal(constant as int, 0);
            assert forall|t: u32|
                s / 0x80_0000 % 256 < 255 && (t as int) / 0x80_0000 % 256 < 255
                    && #[trigger] float_bits::single_magnitude(t as int)
                    != float_bits::single_magnitude(s) implies float_bits::product_error(
                constant as int,
                s,
            ) < float_bits::product_error(constant as int, t as int) by {
                float_bits::lemma_reciprocal(constant as int, t as int);
            }
        }
    }
}

/// Every function of two operands has one of an operand and a constant for floating point
/// numbers, and comparisons have one for all.
pub proof fn lemma_scalar_exists(
    kind: FusedElementwiseKind,
    d: DType,
    on_left: bool,
    constant: u32,
)
    ensures
        kind.takes(d) && d.format().class is Float ==> graph::scalar_op(
            kind,
            d,
            on_left,
            constant,
        ) is Some,
        kind is Compare ==> graph::scalar_op(kind, d, on_left, constant) is Some,
{
}

/// Whether the line calls a device function that makes `r` of the number `a` in the first
/// register.
pub open spec fn unary_call(line: Seq<char>, n: Arithmetic, a: int, r: int) -> bool {
    ||| (line == "negative_tile(0);"@ && r == (n.neg)(a))
    ||| (line == "cos_tile(0);"@ && r == (n.cos)(a))
    ||| (line == "sin_tile(0);"@ && r == (n.sin)(a))
    ||| (line == "exp_tile(0);"@ && r == (n.exp)(a))
    ||| (line == "log_tile(0);"@ && r == (n.log)(a))
    ||| (line == "rsqrt_tile(0);"@ && r == (n.rsqrt)(a))
}

/// Whether a call of a function of one operand is prepared by the line `init` and declared by
/// the header.
pub open spec fn unary_prepared(line: Seq<char>, init: Seq<char>, header: Seq<char>) -> bool {
    let trigonometry = "compute_kernel_api/eltwise_unary/trigonometry.h"@;
    ||| (line == "negative_tile(0);"@ && init == "negative_tile_init();"@ && header
        == "compute_kernel_api/eltwise_unary/negative.h"@)
    ||| (line == "cos_tile(0);"@ && init == "cos_tile_init();"@ && header == trigonometry)
    ||| (line == "sin_tile(0);"@ && init == "sin_tile_init();"@ && header == trigonometry)
    ||| (line == "exp_tile(0);"@ && init == "exp_tile_init();"@ && header
        == "compute_kernel_api/eltwise_unary/exp.h"@)
    ||| (line == "log_tile(0);"@ && init == "log_tile_init();"@ && header
        == "compute_kernel_api.h"@)
    ||| (line == "rsqrt_tile(0);"@ && init == "rsqrt_tile_init();"@ && header
        == "compute_kernel_api/eltwise_unary/rsqrt.h"@)
}

/// Whether the device function called `name` makes `r` of the numbers `a` and `b` of type `d`.
pub open spec fn binary_call(
    name: Seq<char>,
    n: Arithmetic,
    d: DType,
    a: int,
    b: int,
    r: int,
) -> bool {
    ||| (name == "div_binary_tile"@ && d.format().class is Float && r == (n.div)(a, b))
    ||| (name == "power_binary_tile"@ && d.format().class is Float && r == (n.pow)(a, b))
    ||| (name == "binary_max_tile"@ && d.format().class is Float && r == (n.max)(a, b))
    ||| (name == "bitwise_and_binary_tile"@ && d == DType::Int32 && r == (n.and)(a, b))
    ||| (name == "bitwise_and_uint32_binary_tile"@ && d == DType::UInt32 && r == (n.and)(a, b))
    ||| (name == "bitwise_and_uint16_binary_tile"@ && d == DType::UInt16 && r == (n.and)(a, b))
    ||| (name == "bitwise_or_binary_tile"@ && d == DType::Int32 && r == (n.or)(a, b))
    ||| (name == "bitwise_or_uint32_binary_tile"@ && d == DType::UInt32 && r == (n.or)(a, b))
    ||| (name == "bitwise_or_uint16_binary_tile"@ && d == DType::UInt16 && r == (n.or)(a, b))
    ||| (name == "bitwise_xor_binary_tile"@ && d == DType::Int32 && r == (n.xor)(a, b))
    ||| (name == "bitwise_xor_uint32_binary_tile"@ && d == DType::UInt32 && r == (n.xor)(a, b))
    ||| (name == "bitwise_xor_uint16_binary_tile"@ && d == DType::UInt16 && r == (n.xor)(a, b))
    ||| (name == "binary_left_shift_int32_tile"@ && d == DType::Int32 && r == (n.shift_left)(a, b))
    ||| (name == "binary_left_shift_uint32_tile"@ && d == DType::UInt32 && r == (n.shift_left)(
        a,
        b,
    ))
    ||| (name == "binary_logical_right_shift_int32_tile"@ && d == DType::Int32 && r
        == (n.shift_right)(a, b))
    ||| (name == "binary_logical_right_shift_uint32_tile"@ && d == DType::UInt32 && r
        == (n.shift_right)(a, b))
    ||| (name == "binary_right_shift_int32_tile"@ && d == DType::Int32 && r
        == (n.shift_right_signed)(a, b))
    ||| (name == "binary_right_shift_uint32_tile"@ && d == DType::UInt32 && r
        == (n.shift_right_signed)(a, b))
}

/// Whether a function of two operands is prepared by the call `init` and declared by the
/// header. All functions on bits are prepared alike, and all that shift.
pub open spec fn binary_prepared(
    op: BinaryOp,
    tile: Seq<char>,
    init: Seq<char>,
    header: Seq<char>,
) -> bool {
    ||| (tile == "div_binary_tile"@ && init == "div_binary_tile_init"@ && header
        == "compute_kernel_api/eltwise_binary_sfpu.h"@)
    ||| (tile == "power_binary_tile"@ && init == "power_binary_tile_init"@ && header
        == "compute_kernel_api/eltwise_binary_sfpu.h"@)
    ||| (tile == "binary_max_tile"@ && init == "binary_max_tile_init"@ && header
        == "compute_kernel_api/binary_max_min.h"@)
    ||| (op matches BinaryOp::Bitwise { kind, .. } && (kind is And || kind is Or || kind is Xor)
        && init == "binary_bitwise_tile_init"@ && header
        == "compute_kernel_api/binary_bitwise_sfpu.h"@)
    ||| (op matches BinaryOp::Bitwise { kind, .. } && !(kind is And || kind is Or || kind is Xor)
        && init == "binary_shift_tile_init"@ && header == "compute_kernel_api/binary_shift.h"@)
}

/// Whether the helper called `name` makes `r` of the numbers `a` and `b`.
pub open spec fn helper_call(name: Seq<char>, n: Arithmetic, a: int, b: int, r: int) -> bool {
    ||| (name == "add_input"@ && r == (n.add)(a, b))
    ||| (name == "subtract_input"@ && r == (n.sub)(a, b))
    ||| (name == "multiply_input"@ && r == (n.mul)(a, b))
}

/// Whether the helper on bytes with this number makes `r` of `a` and `b`.
pub open spec fn raw_call(code: int, n: Arithmetic, a: int, b: int, r: int) -> bool {
    ||| (code == 0 && r == (n.and)(a, b))
    ||| (code == 1 && r == (n.or)(a, b))
    ||| (code == 2 && r == (n.xor)(a, b))
    ||| (code == 3 && r == (n.shift_left)(a, b))
    ||| (code == 4 && r == (n.shift_right)(a, b))
    ||| (code == 5 && r == (n.shift_right_signed)(a, b))
}

/// Whether the comparison with zero that goes by `name` makes `r` of the number `a`.
pub open spec fn zero_call(name: Seq<char>, a: int, r: int) -> bool {
    ||| (name == "Eq"@ && r == truth(a == 0))
    ||| (name == "Ne"@ && r == truth(a != 0))
    ||| (name == "Ge"@ && r == truth(a >= 0))
    ||| (name == "Gt"@ && r == truth(a > 0))
    ||| (name == "Le"@ && r == truth(a <= 0))
    ||| (name == "Lt"@ && r == truth(a < 0))
}

/// Whether the way node `i` is computed makes `r` of the values of the nodes. A comparison
/// is one of the difference with zero.
pub open spec fn computes(
    nodes: Seq<Node>,
    l: Lowering,
    n: Arithmetic,
    value: spec_fn(u32) -> int,
    r: int,
) -> bool {
    match l {
        Lowering::Leaf => false,
        Lowering::Unary { input, kind } => {
            &&& unary_call(kind.unary_tile(), n, value(input), r)
            &&& unary_prepared(kind.unary_tile(), kind.unary_init(), kind.unary_header())
        },
        Lowering::Convert { input, from, to } => r == value(input),
        Lowering::Scalar { value: input, op, scalar } => {
            &&& scalar_call(
                op.tile_text(),
                n,
                graph::node_type(nodes[input as int]) == DType::Int32,
                value(input),
                scalar,
                r,
            )
            &&& scalar_prepared(op.tile_text(), op.init_text(), op.header_text())
        },
        Lowering::Helper { lhs, rhs, kind } => helper_call(
            kind.helper_text(),
            n,
            value(lhs),
            value(rhs),
            r,
        ),
        Lowering::Binary { lhs, rhs, op } => {
            &&& binary_call(
                op.tile_text(),
                n,
                graph::node_type(nodes[lhs as int]),
                value(lhs),
                value(rhs),
                r,
            )
            &&& binary_prepared(op, op.tile_text(), op.init_text(), op.header_text())
        },
        Lowering::RawBitwise { lhs, rhs, kind } => {
            &&& graph::node_type(nodes[lhs as int]) == DType::UInt8
            &&& raw_call(kinds::bitwise_code(kind) as int, n, value(lhs), value(rhs), r)
        },
        Lowering::Compare { lhs, rhs, direction, int32_input } => {
            &&& int32_input == (graph::node_type(nodes[lhs as int]) == DType::Int32)
            &&& zero_call(direction.shown(), value(lhs) - value(rhs), r)
        },
    }
}

/// The element types of the operands of a node.
pub open spec fn operand_types(nodes: Seq<Node>, i: int) -> Seq<DType> {
    nodes[i].inputs.map_values(|j: u32| graph::node_type(nodes[j as int]))
}

/// Every node that passed its checks is computed by functions that make of the values of its
/// operands, in their order, what the kind of the node says, whatever the functions on numbers
/// are. Dividing by a constant is multiplying by the number nearest to its inverse.
pub proof fn lemma_lowering_computes(
    nodes: Seq<Node>,
    i: int,
    n: Arithmetic,
    value: spec_fn(u32) -> int,
)
    requires
        n.commutes(),
        0 <= i < nodes.len(),
        !nodes[i].kind.is_leaf(),
        graph::has_operands(nodes, i),
        nodes[i].kind.type_refusal(i, operand_types(nodes, i), graph::node_type(nodes[i])) is None,
        forall|j: u32|
            j < nodes.len() && #[trigger] graph::constant_bits(nodes[j as int]) is Some
                ==> value(j) == (n.number)(graph::constant_bits(nodes[j as int])->0),
    ensures
        ({
            let node = nodes[i];
            let a = value(node.inputs[0]);
            let b = value(node.inputs[1]);
            let l = graph::lowering(nodes, i);
            match l {
                Lowering::Scalar { value: input, op: ScalarOp::Divide, scalar } => {
                    &&& node.kind == FusedElementwiseKind::Divide
                    &&& input == node.inputs[0]
                    &&& nearest_inverse(
                        graph::constant_bits(nodes[node.inputs[1] as int])->0,
                        scalar,
                    )
                    &&& computes(nodes, l, n, value, (n.mul)(a, (n.number)(scalar)))
                },
                _ => computes(nodes, l, n, value, node.kind.result(n, 0, 0, a, b)),
            }
        }),
        graph::lowering_refusal(nodes, i) is None,
{
    let node = nodes[i];
    let types = operand_types(nodes, i);
    if node.kind.operands() == 2 {
        let lhs = node.inputs[0];
        let rhs = node.inputs[1];
        assert(lhs < nodes.len() && rhs < nodes.len());
        assert(types[0] == graph::node_type(nodes[lhs as int]));
        assert(types[1] == graph::node_type(nodes[rhs as int]));
        let left = graph::constant_bits(nodes[lhs as int]);
        let right = graph::constant_bits(nodes[rhs as int]);
        if left is None && right is Some {
            lemma_scalar_computes(node.kind, types[0], true, right->0, n, value(lhs));
        } else if left is Some && right is None {
            lemma_scalar_computes(node.kind, types[1], false, left->0, n, value(rhs));
        }
    } else {
        assert(types[0] == graph::node_type(nodes[node.inputs[0] as int]));
    }
}

/// The two ways to tell the magnitude of a single precision number agree.
proof fn lemma_single_magnitude(s: int)
    requires
        0 <= s < 0x1_0000_0000,
    ensures
        numbers::single_format().magnitude(s) == float_bits::single_magnitude(s),
{
    lemma2_to64();
    let f = s % 0x80_0000;
    assert(f * pow2(0) == f) by (nonlinear_arith)
        requires
            pow2(0) == 1,
    ;
}

/// A constant is handed on as the same number. A floating point constant is told by the low
/// bits of its word, in its own format, and is handed on in single precision: with the same
/// sign, and with the same magnitude where it is finite. Integers are handed on as they are.
pub proof fn lemma_constant_value(node: Node)
    requires
        node.kind == FusedElementwiseKind::Constant,
        graph::node_refusal(node) is None,
    ensures
        graph::constant_bits(node) is Some,
        node.element_type.format() is Some,
        ({
            let f = node.element_type.format()->0;
            let s = numbers::single_format();
            let c = graph::constant_bits(node)->0 as int;
            let x = node.packed_value as int % pow2(f.bits() as nat) as int;
            if f.class is Float {
                &&& s.negative(c) == f.negative(x)
                &&& s.finite(c) == f.finite(x)
                &&& f.finite(x) ==> s.magnitude(c) == f.magnitude(x)
                &&& !f.finite(x) ==> (s.mantissa_field(c) == 0 <==> f.mantissa_field(x) == 0)
            } else {
                c == node.packed_value
            }
        }),
{
    executable::lemma_dtype_keeps_format(node.element_type);
    lemma2_to64();
    let packed = node.packed_value as int;
    let half = packed % 0x1_0000;
    let d = graph::node_type(node);
    if d == DType::Float16 {
        float_bits::lemma_widened(half);
        let w = float_bits::widened(half);
        assert(w / 0x8000_0000 % 2 == w / 0x8000_0000);
        assert(half / 0x8000 % 2 == half / 0x8000);
        lemma_single_magnitude(w);
        assert(float_bits::half_magnitude(half) == d.format().magnitude(half));
        let (g, t) = (d.format(), numbers::single_format());
        assert(t.negative(w) == g.negative(half));
        assert(t.finite(w) == g.finite(half));
        assert(packed % pow2(16) as int == half);
        assert(g.bits() == 16);
        assert(!g.finite(half) ==> (t.mantissa_field(w) == 0 <==> g.mantissa_field(half) == 0));
    } else if d == DType::Float16B {
        let c = half * 0x1_0000;
        assert(c / 0x80_0000 % 256 == half / 0x80 % 256);
        assert(c % 0x80_0000 == (half % 0x80) * 0x1_0000);
        assert(c / 0x8000_0000 % 2 == half / 0x8000 % 2);
        let e = half / 0x80 % 256;
        lemma_single_magnitude(c);
        let f = half % 0x80;
        assert(f * pow2(16) == f * 0x1_0000) by (nonlinear_arith)
            requires
                pow2(16) == 0x1_0000,
        ;
        if 0 < e < 255 {
            lemma_pow2_adds(16, (e - 1) as nat);
            let p = pow2((e - 1) as nat) as int;
            let m = 0x80 + half % 0x80;
            assert((m * 0x1_0000) * p == m * (0x1_0000 * p)) by (nonlinear_arith);
        }
        let x = packed % pow2(16) as int;
        assert(x == half);
        let (g, t) = (d.format(), numbers::single_format());
        assert(t.negative(c) == g.negative(half));
        assert(t.finite(c) == g.finite(half));
        assert(t.magnitude(c) == g.magnitude(half) || !g.finite(half));
        assert(t.mantissa_field(c) == 0 <==> g.mantissa_field(half) == 0);
        assert(g.bits() == 16);
    } else if d == DType::Float32 {
        assert(d.format().bits() == 32);
        assert(packed % pow2(32) as int == packed);
        assert(d.format() == numbers::single_format());
    }
}

/// A conversion goes from the format of the operand to the format of the node, told to the
/// device by their numbers.
pub proof fn lemma_conversion_formats(nodes: Seq<Node>, i: int)
    requires
        0 <= i < nodes.len(),
        nodes[i].kind == FusedElementwiseKind::Convert,
        graph::has_operands(nodes, i),
        graph::typed(nodes),
    ensures
        graph::lowering(nodes, i) matches Lowering::Convert { input, from, to } && {
            &&& input == nodes[i].inputs[0]
            &&& crate::dram::format_of_code(from.code())
                == nodes[input as int].element_type.format()
            &&& crate::dram::format_of_code(to.code()) == nodes[i].element_type.format()
        },
{
    let input = nodes[i].inputs[0] as int;
    assert(nodes[i].inputs[0] < nodes.len());
    assert(graph::type_checks(nodes)(i) is None);
    assert(graph::type_checks(nodes)(input) is None);
    executable::lemma_dtype_keeps_format(nodes[i].element_type);
    executable::lemma_dtype_keeps_format(nodes[input].element_type);
}

} // verus!
