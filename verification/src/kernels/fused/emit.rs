//! The source of the compute kernel of a graph.

use vstd::prelude::*;
use crate::dram::DType;
use crate::error;
use crate::error::Error;
use crate::executable;
use crate::executable::{FusedElementwiseKind, FusedElementwiseNode, Node};
use crate::kernels::fused::graph;
use crate::kernels::fused::graph::Lowering;
use crate::kernels::fused::kinds;
use crate::source;
use crate::text;

verus! {

/// The nodes that a computation consumes.
pub open spec fn operands_of(l: Lowering) -> Seq<u32> {
    match l {
        Lowering::Leaf => Seq::empty(),
        Lowering::Unary { input, .. } => seq![input],
        Lowering::Convert { input, .. } => seq![input],
        Lowering::Scalar { value, .. } => seq![value],
        Lowering::Helper { lhs, rhs, .. } => seq![lhs, rhs],
        Lowering::Binary { lhs, rhs, .. } => seq![lhs, rhs],
        Lowering::RawBitwise { lhs, rhs, .. } => seq![lhs, rhs],
        Lowering::Compare { lhs, rhs, .. } => seq![lhs, rhs],
    }
}

/// Whether a computation goes through the registers.
pub open spec fn packs(l: Lowering) -> bool {
    !(l is Leaf) && !(l is RawBitwise)
}

fn operand_list(l: Lowering) -> (r: Vec<u32>)
    ensures
        r@ == operands_of(l),
{
    let r: Vec<u32> = match l {
        Lowering::Leaf => Vec::new(),
        Lowering::Unary { input, .. } => vec![input],
        Lowering::Convert { input, .. } => vec![input],
        Lowering::Scalar { value, .. } => vec![value],
        Lowering::Helper { lhs, rhs, .. } => vec![lhs, rhs],
        Lowering::Binary { lhs, rhs, .. } => vec![lhs, rhs],
        Lowering::RawBitwise { lhs, rhs, .. } => vec![lhs, rhs],
        Lowering::Compare { lhs, rhs, .. } => vec![lhs, rhs],
    };
    assert(r@ =~= operands_of(l));
    r
}

fn goes_through_registers(l: Lowering) -> (r: bool)
    ensures
        r == packs(l),
{
    !matches!(l, Lowering::Leaf | Lowering::RawBitwise { .. })
}

/// How often `n` occurs in a list.
pub open spec fn count(s: Seq<u32>, n: int) -> nat
    decreases s.len(),
{
    if s.len() == 0 {
        0
    } else {
        count(s.drop_last(), n) + if s.last() == n {
            1nat
        } else {
            0nat
        }
    }
}

/// How often the first `k` nodes name node `n`.
pub open spec fn uses_in(nodes: Seq<Node>, k: int, n: int) -> nat
    decreases k,
{
    if k <= 0 {
        0
    } else {
        uses_in(nodes, k - 1, n) + count(nodes[k - 1].inputs, n)
    }
}

/// How many operands the first `k` nodes name.
pub open spec fn named(nodes: Seq<Node>, k: int) -> nat
    decreases k,
{
    if k <= 0 {
        0
    } else {
        named(nodes, k - 1) + nodes[k - 1].inputs.len()
    }
}

/// How often the computations of the first `k` nodes consumed node `n`.
pub open spec fn consumed(nodes: Seq<Node>, k: int, n: int) -> nat
    decreases k,
{
    if k <= 0 {
        0
    } else {
        consumed(nodes, k - 1, n) + count(operands_of(graph::lowering(nodes, k - 1)), n)
    }
}

/// How often node `n` is still to be used after the first `k` nodes.
pub open spec fn left(nodes: Seq<Node>, k: int, n: int) -> int {
    uses_in(nodes, nodes.len() as int, n) - consumed(nodes, k, n)
}

/// The buffer that the registers were last filled from before node `k`.
pub open spec fn source_cb(nodes: Seq<Node>, k: int) -> int
    decreases k,
{
    if k <= 0 {
        0
    } else {
        let l = graph::lowering(nodes, k - 1);
        if packs(l) {
            graph::cb_of(nodes, operands_of(l).last() as int)
        } else {
            source_cb(nodes, k - 1)
        }
    }
}

/// The node whose format the registers were last emptied in before node `k`.
pub open spec fn packed_node(nodes: Seq<Node>, k: int) -> int
    decreases k,
{
    if k <= 0 {
        nodes.len() - 1
    } else if packs(graph::lowering(nodes, k - 1)) {
        k - 1
    } else {
        packed_node(nodes, k - 1)
    }
}

pub open spec fn flag_text(b: bool) -> Seq<char> {
    if b {
        "true"@
    } else {
        "false"@
    }
}

fn show_flag(b: bool) -> (r: &'static str)
    ensures
        r@ == flag_text(b),
{
    if b {
        "true"
    } else {
        "false"
    }
}

/// What prepares the computation of node `k`.
pub open spec fn before_lines(l: Lowering, k: int, lhs: int, out: int) -> Seq<Seq<char>> {
    match l {
        Lowering::Unary { kind, .. } => seq!["    "@ + kind.unary_init()],
        Lowering::Scalar { op, .. } => seq!["    "@ + op.init_text() + "();"@],
        Lowering::Helper { kind, .. } => seq![
            "    constexpr DataFormat input_format_"@ + text::dec(k)
                + " = binary_input_data_format(tt::CBIndex::c_"@ + text::dec(lhs)
                + ", tt::CBIndex::c_"@ + text::dec(out) + ");"@,
            "    "@ + kind.helper_text() + "_init<input_format_"@ + text::dec(k) + ">();"@,
        ],
        Lowering::Binary { op, .. } => seq!["    "@ + op.init_text() + "();"@],
        Lowering::Compare { direction, int32_input, .. } => seq![
            "    compare_sub_init<"@ + flag_text(int32_input) + ">();"@,
            "    compare_zero_init(CompareDirection::"@ + direction.shown() + ");"@,
        ],
        _ => Seq::empty(),
    }
}

fn push_before(lines: &mut Vec<String>, l: Lowering, index: usize, lhs: u32, out: u32)
    ensures
        source::lines_view(final(lines)@) == source::lines_view(old(lines)@) + before_lines(
            l,
            index as int,
            lhs as int,
            out as int,
        ),
{
    let ghost start = source::lines_view(lines@);
    match l {
        Lowering::Unary { kind, .. } => {
            source::push(lines, text::cat2("    ", kind.init_of_unary()));
        },
        Lowering::Scalar { op, .. } => {
            source::push(lines, text::cat3("    ", op.init(), "();"));
        },
        Lowering::Helper { kind, .. } => {
            let k = text::decimal_usize(index);
            source::push(
                lines,
                text::cat7(
                    "    constexpr DataFormat input_format_",
                    k.as_str(),
                    " = binary_input_data_format(tt::CBIndex::c_",
                    text::decimal_u32(lhs).as_str(),
                    ", tt::CBIndex::c_",
                    text::decimal_u32(out).as_str(),
                    ");",
                ),
            );
            source::push(
                lines,
                text::cat5("    ", kind.helper(), "_init<input_format_", k.as_str(), ">();"),
            );
        },
        Lowering::Binary { op, .. } => {
            source::push(lines, text::cat3("    ", op.init(), "();"));
        },
        Lowering::Compare { direction, int32_input, .. } => {
            source::push(
                lines,
                text::cat3("    compare_sub_init<", show_flag(int32_input), ">();"),
            );
            source::push(
                lines,
                text::cat3("    compare_zero_init(CompareDirection::", direction.variant(), ");"),
            );
        },
        _ => {},
    }
    assert(source::lines_view(lines@) =~= start + before_lines(
        l,
        index as int,
        lhs as int,
        out as int,
    ));
}

/// The computation of node `k`.
pub open spec fn call_lines(l: Lowering, k: int, lhs: int, rhs: int, out: int) -> Seq<Seq<char>> {
    match l {
        Lowering::Leaf => Seq::empty(),
        Lowering::Unary { kind, .. } => seq!["    "@ + kind.unary_tile()],
        Lowering::Convert { from, to, .. } => seq![
            "    typecast_tile_init<"@ + text::dec(from.code() as int) + ", "@ + text::dec(
                to.code() as int,
            ) + ">();"@,
            "    typecast_tile<"@ + text::dec(from.code() as int) + ", "@ + text::dec(
                to.code() as int,
            ) + ">(0);"@,
        ],
        Lowering::Scalar { op, scalar, .. } => seq![
            "    "@ + op.tile_text() + "(0, "@ + text::dec(scalar as int) + ");"@,
        ],
        Lowering::Helper { kind, .. } => seq![
            "    "@ + kind.helper_text() + "_tile<input_format_"@ + text::dec(k) + ">(0, 1, 0);"@,
        ],
        Lowering::Binary { op, .. } => seq!["    "@ + op.tile_text() + "(0, 1, 0);"@],
        Lowering::RawBitwise { kind, .. } => seq![
            "    raw_bitwise_u8_tile<"@ + text::dec(kinds::bitwise_code(kind) as int)
                + ">(tt::CBIndex::c_"@ + text::dec(lhs) + ", tt::CBIndex::c_"@ + text::dec(rhs)
                + ", tt::CBIndex::c_"@ + text::dec(out) + ");"@,
        ],
        Lowering::Compare { direction, int32_input, .. } => seq![
            "    compare_sub_tile<"@ + flag_text(int32_input) + ">(0, 1, 0);"@,
            "    compare_zero_tile<"@ + flag_text(int32_input) + ">(CompareDirection::"@
                + direction.shown() + ", 0);"@,
        ],
    }
}

fn push_call(lines: &mut Vec<String>, l: Lowering, index: usize, lhs: u32, rhs: u32, out: u32)
    ensures
        source::lines_view(final(lines)@) == source::lines_view(old(lines)@) + call_lines(
            l,
            index as int,
            lhs as int,
            rhs as int,
            out as int,
        ),
{
    let ghost start = source::lines_view(lines@);
    match l {
        Lowering::Leaf => {},
        Lowering::Unary { kind, .. } => {
            source::push(lines, text::cat2("    ", kind.tile_of_unary()));
        },
        Lowering::Convert { from, to, .. } => {
            let a = text::decimal_u32(from.value());
            let b = text::decimal_u32(to.value());
            source::push(
                lines,
                text::cat5("    typecast_tile_init<", a.as_str(), ", ", b.as_str(), ">();"),
            );
            source::push(
                lines,
                text::cat5("    typecast_tile<", a.as_str(), ", ", b.as_str(), ">(0);"),
            );
        },
        Lowering::Scalar { op, scalar, .. } => {
            source::push(
                lines,
                text::cat5("    ", op.tile(), "(0, ", text::decimal_u32(scalar).as_str(), ");"),
            );
        },
        Lowering::Helper { kind, .. } => {
            source::push(
                lines,
                text::cat5(
                    "    ",
                    kind.helper(),
                    "_tile<input_format_",
                    text::decimal_usize(index).as_str(),
                    ">(0, 1, 0);",
                ),
            );
        },
        Lowering::Binary { op, .. } => {
            source::push(lines, text::cat3("    ", op.tile(), "(0, 1, 0);"));
        },
        Lowering::RawBitwise { kind, .. } => {
            source::push(
                lines,
                text::cat7(
                    "    raw_bitwise_u8_tile<",
                    text::decimal_u32(kinds::raw_bitwise_op_value(kind)).as_str(),
                    ">(tt::CBIndex::c_",
                    text::decimal_u32(lhs).as_str(),
                    ", tt::CBIndex::c_",
                    text::decimal_u32(rhs).as_str(),
                    ", tt::CBIndex::c_",
                ).concat(text::decimal_u32(out).as_str()).concat(");"),
            );
        },
        Lowering::Compare { direction, int32_input, .. } => {
            source::push(
                lines,
                text::cat3("    compare_sub_tile<", show_flag(int32_input), ">(0, 1, 0);"),
            );
            source::push(
                lines,
                text::cat5(
                    "    compare_zero_tile<",
                    show_flag(int32_input),
                    ">(CompareDirection::",
                    direction.variant(),
                    ", 0);",
                ),
            );
        },
    }
    assert(source::lines_view(lines@) =~= start + call_lines(
        l,
        index as int,
        lhs as int,
        rhs as int,
        out as int,
    ));
}

/// Waits for the operands, for each buffer once.
pub open spec fn wait_lines(cbs: Seq<int>) -> Seq<Seq<char>> {
    let first = source::line1("    cb_wait_front(tt::CBIndex::c_"@, cbs[0], ", 1);"@);
    if cbs.len() == 2 && cbs[1] != cbs[0] {
        seq![first, source::line1("    cb_wait_front(tt::CBIndex::c_"@, cbs[1], ", 1);"@)]
    } else {
        seq![first]
    }
}

/// Copies the operands into the registers, where the last copy came from `from`.
pub open spec fn copy_lines(from: int, cbs: Seq<int>) -> Seq<Seq<char>> {
    let first = seq![
        "    tile_regs_acquire();"@,
        source::line2(
            "    copy_tile_to_dst_init_short_with_dt(tt::CBIndex::c_"@,
            from,
            ", tt::CBIndex::c_"@,
            cbs[0],
            ");"@,
        ),
        source::line2("    copy_tile(tt::CBIndex::c_"@, cbs[0], ", 0, "@, 0, ");"@),
    ];
    if cbs.len() == 2 {
        first + seq![
            source::line2(
                "    copy_tile_to_dst_init_short_with_dt(tt::CBIndex::c_"@,
                cbs[0],
                ", tt::CBIndex::c_"@,
                cbs[1],
                ");"@,
            ),
            source::line2("    copy_tile(tt::CBIndex::c_"@, cbs[1], ", 0, "@, 1, ");"@),
        ]
    } else {
        first
    }
}

/// Empties the registers into the buffer `out`.
pub open spec fn pack_lines(previous: int, reconfigured: bool, out: int) -> Seq<Seq<char>> {
    let start = seq!["    tile_regs_commit();"@, "    tile_regs_wait();"@];
    let end = seq![
        source::line1("    pack_tile(0, tt::CBIndex::c_"@, out, ");"@),
        "    tile_regs_release();"@,
    ];
    if reconfigured {
        start.push(
            source::line2(
                "    pack_reconfig_data_format(tt::CBIndex::c_"@,
                previous,
                ", tt::CBIndex::c_"@,
                out,
                ");"@,
            ),
        ) + end
    } else {
        start + end
    }
}

/// Frees the buffers of operands that node `k` used for the last time.
pub open spec fn pop_lines(nodes: Seq<Node>, k: int) -> Seq<Seq<char>> {
    let ins = operands_of(graph::lowering(nodes, k));
    let first = if left(nodes, k + 1, ins[0] as int) == 0 {
        seq![pop_line(nodes, ins[0] as int)]
    } else {
        Seq::empty()
    };
    if ins.len() == 2 && ins[1] != ins[0] && left(nodes, k + 1, ins[1] as int) == 0 {
        first.push(pop_line(nodes, ins[1] as int))
    } else {
        first
    }
}

pub open spec fn pop_line(nodes: Seq<Node>, n: int) -> Seq<char> {
    source::line1("    cb_pop_front(tt::CBIndex::c_"@, graph::cb_of(nodes, n), ", 1);"@)
}

/// The buffers of the operands of node `k`.
pub open spec fn operand_cbs(nodes: Seq<Node>, k: int) -> Seq<int> {
    operands_of(graph::lowering(nodes, k)).map_values(|n: u32| graph::cb_of(nodes, n as int))
}

/// The lines that compute node `k`.
pub open spec fn stage_lines(nodes: Seq<Node>, k: int) -> Seq<Seq<char>> {
    let l = graph::lowering(nodes, k);
    if l is Leaf {
        Seq::empty()
    } else {
        let ins = operand_cbs(nodes, k);
        let out = graph::cb_of(nodes, k);
        let previous = packed_node(nodes, k);
        wait_lines(ins) + before_lines(l, k, ins[0], out) + seq![
            source::line1("    cb_reserve_back(tt::CBIndex::c_"@, out, ", 1);"@),
        ] + (if packs(l) {
            copy_lines(source_cb(nodes, k), ins)
        } else {
            Seq::empty()
        }) + call_lines(l, k, ins[0], ins.last(), out) + (if packs(l) {
            pack_lines(
                graph::cb_of(nodes, previous),
                graph::node_type(nodes[previous]) != graph::node_type(nodes[k]),
                out,
            )
        } else {
            Seq::empty()
        }) + pop_lines(nodes, k) + seq![
            source::line1("    cb_push_back(tt::CBIndex::c_"@, out, ", 1);"@),
        ]
    }
}

/// The lines that compute the first `k` nodes.
pub open spec fn body_lines(nodes: Seq<Node>, k: int) -> Seq<Seq<char>>
    decreases k,
{
    if k <= 0 {
        Seq::empty()
    } else {
        body_lines(nodes, k - 1) + stage_lines(nodes, k - 1)
    }
}

/// The headers that a computation needs.
pub open spec fn stage_headers(l: Lowering) -> Seq<Seq<char>> {
    match l {
        Lowering::Leaf => Seq::empty(),
        Lowering::Unary { kind, .. } => seq![kind.unary_header()],
        Lowering::Convert { .. } => seq![kinds::HEADER_TYPECAST@],
        Lowering::Scalar { op, .. } => match op.header_text() {
            Some(h) => seq![h],
            None => Seq::empty(),
        },
        Lowering::Helper { kind, .. } => match kind {
            FusedElementwiseKind::Add => seq![kinds::HEADER_BINARY_SFPU@, kinds::HEADER_ADD_INT@],
            FusedElementwiseKind::Subtract => seq![
                kinds::HEADER_BINARY_SFPU@,
                kinds::HEADER_SUB_INT@,
            ],
            _ => seq![
                kinds::HEADER_BINARY_SFPU@,
                kinds::HEADER_MUL_INT@,
                kinds::HEADER_MUL_INT32@,
            ],
        },
        Lowering::Binary { op, .. } => seq![op.header_text()],
        Lowering::RawBitwise { .. } => Seq::empty(),
        Lowering::Compare { .. } => seq![
            kinds::HEADER_BINARY_SFPU@,
            kinds::HEADER_SUB_INT@,
            kinds::HEADER_COMP@,
        ],
    }
}

/// A list of headers with one more, unless it is there.
pub open spec fn with_header(headers: Seq<Seq<char>>, h: Seq<char>) -> Seq<Seq<char>> {
    if headers.contains(h) {
        headers
    } else {
        headers.push(h)
    }
}

/// A list of headers with more, each once.
pub open spec fn with_headers(headers: Seq<Seq<char>>, more: Seq<Seq<char>>) -> Seq<Seq<char>>
    decreases more.len(),
{
    if more.len() == 0 {
        headers
    } else {
        with_header(with_headers(headers, more.drop_last()), more.last())
    }
}

/// The headers that the first `k` nodes need.
pub open spec fn headers_of(nodes: Seq<Node>, k: int) -> Seq<Seq<char>>
    decreases k,
{
    if k <= 0 {
        Seq::empty()
    } else {
        with_headers(headers_of(nodes, k - 1), stage_headers(graph::lowering(nodes, k - 1)))
    }
}

/// Whether one of the first `k` nodes goes through the helper of `kind`.
pub open spec fn helper_used(nodes: Seq<Node>, k: int, kind: FusedElementwiseKind) -> bool {
    exists|j: int|
        0 <= j < k && (#[trigger] graph::lowering(nodes, j) matches Lowering::Helper {
            kind: used,
            ..
        } && used == kind)
}

pub open spec fn compare_used(nodes: Seq<Node>, k: int) -> bool {
    exists|j: int| 0 <= j < k && #[trigger] graph::lowering(nodes, j) is Compare
}

pub open spec fn raw_used(nodes: Seq<Node>, k: int) -> bool {
    exists|j: int| 0 <= j < k && #[trigger] graph::lowering(nodes, j) is RawBitwise
}

/// The headers and helpers that a source needs.
#[derive(Debug)]
pub struct ComputeSourceFeatures {
    pub headers: Vec<&'static str>,
    pub add_input_helper: bool,
    pub subtract_input_helper: bool,
    pub multiply_input_helper: bool,
    pub compare_helpers: bool,
    pub raw_bitwise: bool,
}

pub open spec fn headers_view(headers: Seq<&'static str>) -> Seq<Seq<char>> {
    headers.map_values(|h: &'static str| h@)
}

impl ComputeSourceFeatures {
    /// Whether these are the features that the first `k` nodes need.
    pub open spec fn serves(&self, nodes: Seq<Node>, k: int) -> bool {
        &&& headers_view(self.headers@) == headers_of(nodes, k)
        &&& self.add_input_helper == helper_used(nodes, k, FusedElementwiseKind::Add)
        &&& self.subtract_input_helper == helper_used(nodes, k, FusedElementwiseKind::Subtract)
        &&& self.multiply_input_helper == helper_used(nodes, k, FusedElementwiseKind::Multiply)
        &&& self.compare_helpers == compare_used(nodes, k)
        &&& self.raw_bitwise == raw_used(nodes, k)
    }
}

fn add_header(headers: &mut Vec<&'static str>, header: &'static str)
    ensures
        headers_view(final(headers)@) == with_header(headers_view(old(headers)@), header@),
{
    let ghost all = headers_view(headers@);
    for i in 0..headers.len()
        invariant
            all == headers_view(headers@),
            headers@ == old(headers)@,
            forall|j: int| 0 <= j < i ==> #[trigger] all[j] != header@,
    {
        if text::same_text(headers[i], header) {
            assert(all[i as int] == header@);
            assert(all.contains(header@));
            return;
        }
    }
    assert(!all.contains(header@));
    headers.push(header);
    assert(headers_view(headers@) =~= all.push(header@));
}

fn add_features(features: &mut ComputeSourceFeatures, l: Lowering)
    requires
        l matches Lowering::Helper { kind, .. } ==> kind.has_helper(),
    ensures
        headers_view(final(features).headers@) == with_headers(
            headers_view(old(features).headers@),
            stage_headers(l),
        ),
        final(features).add_input_helper == (old(features).add_input_helper || (
        l matches Lowering::Helper { kind, .. } && kind == FusedElementwiseKind::Add)),
        final(features).subtract_input_helper == (old(features).subtract_input_helper || (
        l matches Lowering::Helper { kind, .. } && kind == FusedElementwiseKind::Subtract)),
        final(features).multiply_input_helper == (old(features).multiply_input_helper || (
        l matches Lowering::Helper { kind, .. } && kind == FusedElementwiseKind::Multiply)),
        final(features).compare_helpers == (old(features).compare_helpers || l is Compare),
        final(features).raw_bitwise == (old(features).raw_bitwise || l is RawBitwise),
{
    proof {
        reveal_with_fuel(with_headers, 4);
    }
    let ghost more = stage_headers(l);
    match l {
        Lowering::Leaf => {},
        Lowering::Unary { kind, .. } => {
            add_header(&mut features.headers, kind.header_of_unary());
            assert(more.drop_last() =~= Seq::empty());
        },
        Lowering::Convert { .. } => {
            add_header(&mut features.headers, kinds::HEADER_TYPECAST);
            assert(more.drop_last() =~= Seq::empty());
        },
        Lowering::Scalar { op, .. } => {
            if let Some(h) = op.header() {
                add_header(&mut features.headers, h);
                assert(more.drop_last() =~= Seq::empty());
            }
        },
        Lowering::Helper { kind, .. } => {
            add_header(&mut features.headers, kinds::HEADER_BINARY_SFPU);
            match kind {
                FusedElementwiseKind::Add => {
                    features.add_input_helper = true;
                    add_header(&mut features.headers, kinds::HEADER_ADD_INT);
                    assert(more.drop_last() =~= seq![kinds::HEADER_BINARY_SFPU@]);
                },
                FusedElementwiseKind::Subtract => {
                    features.subtract_input_helper = true;
                    add_header(&mut features.headers, kinds::HEADER_SUB_INT);
                    assert(more.drop_last() =~= seq![kinds::HEADER_BINARY_SFPU@]);
                },
                _ => {
                    features.multiply_input_helper = true;
                    add_header(&mut features.headers, kinds::HEADER_MUL_INT);
                    add_header(&mut features.headers, kinds::HEADER_MUL_INT32);
                    assert(more.drop_last() =~= seq![
                        kinds::HEADER_BINARY_SFPU@,
                        kinds::HEADER_MUL_INT@,
                    ]);
                    assert(more.drop_last().drop_last() =~= seq![kinds::HEADER_BINARY_SFPU@]);
                },
            }
            assert(seq![kinds::HEADER_BINARY_SFPU@].drop_last() =~= Seq::empty());
        },
        Lowering::Binary { op, .. } => {
            add_header(&mut features.headers, op.header());
            assert(more.drop_last() =~= Seq::empty());
        },
        Lowering::RawBitwise { .. } => {
            features.raw_bitwise = true;
        },
        Lowering::Compare { .. } => {
            features.compare_helpers = true;
            add_header(&mut features.headers, kinds::HEADER_BINARY_SFPU);
            add_header(&mut features.headers, kinds::HEADER_SUB_INT);
            add_header(&mut features.headers, kinds::HEADER_COMP);
            assert(more.drop_last() =~= seq![kinds::HEADER_BINARY_SFPU@, kinds::HEADER_SUB_INT@]);
            assert(more.drop_last().drop_last() =~= seq![kinds::HEADER_BINARY_SFPU@]);
            assert(seq![kinds::HEADER_BINARY_SFPU@].drop_last() =~= Seq::empty());
        },
    }
}

/// Why operand `j` of a node is refused: there is no such node.
pub open spec fn operand_checks(node: Node, total: int) -> spec_fn(int) -> Option<error::Refusal> {
    |j: int|
        if node.inputs[j] >= total {
            Some(error::invalid("node id out of bounds: "@ + text::dec(node.inputs[j] as int)))
        } else {
            None
        }
}

/// Why the operands of node `i` are refused.
pub open spec fn id_checks(nodes: Seq<Node>) -> spec_fn(int) -> Option<error::Refusal> {
    |i: int|
        error::first_refusal(
            0,
            nodes[i].inputs.len() as int,
            operand_checks(nodes[i], nodes.len() as int),
        )
}

/// Why the operands of the nodes are refused.
pub open spec fn id_refusal(nodes: Seq<Node>) -> Option<error::Refusal> {
    error::first_refusal(0, nodes.len() as int, id_checks(nodes))
}

/// Why node `k` is not computed: there is no function for it, or there is no
/// output to take the format from.
pub open spec fn stage_checks(nodes: Seq<Node>) -> spec_fn(int) -> Option<error::Refusal> {
    |k: int|
        if graph::lowering_refusal(nodes, k) is Some {
            graph::lowering_refusal(nodes, k)
        } else if packs(graph::lowering(nodes, k)) && nodes.last().kind.is_leaf() {
            Some(error::invalid("CB 16 does not have a dtype"@))
        } else {
            None
        }
}

/// Why a graph is not computed.
pub open spec fn steps_refusal(nodes: Seq<Node>) -> Option<error::Refusal> {
    let n = nodes.len() as int;
    if id_refusal(nodes) is Some {
        id_refusal(nodes)
    } else if graph::cb_refusal(nodes) is Some {
        graph::cb_refusal(nodes)
    } else if error::first_refusal(0, n, graph::type_checks(nodes)) is Some {
        error::first_refusal(0, n, graph::type_checks(nodes))
    } else {
        error::first_refusal(0, n, stage_checks(nodes))
    }
}

/// Whether every node names its operands, and together they can be counted.
pub open spec fn complete(nodes: Seq<Node>) -> bool {
    &&& forall|i: int|
        0 <= i < nodes.len() ==> (#[trigger] nodes[i]).inputs.len() >= nodes[i].kind.operands()
    &&& named(nodes, nodes.len() as int) <= u32::MAX
}

proof fn lemma_count(s: Seq<u32>, n: int)
    ensures
        count(s, n) <= s.len(),
    decreases s.len(),
{
    if s.len() > 0 {
        lemma_count(s.drop_last(), n);
    }
}

proof fn lemma_uses_monotone(nodes: Seq<Node>, a: int, b: int, n: int)
    requires
        0 <= a <= b,
    ensures
        uses_in(nodes, a, n) <= uses_in(nodes, b, n),
        uses_in(nodes, a, n) <= named(nodes, a) <= named(nodes, b),
    decreases b,
{
    if a < b {
        lemma_uses_monotone(nodes, a, b - 1, n);
    } else if a > 0 {
        lemma_uses_monotone(nodes, a - 1, a - 1, n);
        lemma_count(nodes[a - 1].inputs, n);
    }
}

/// The first elements of a list occur in it.
proof fn lemma_count_prefix(s: Seq<u32>, m: int, n: int)
    requires
        0 <= m <= s.len(),
    ensures
        count(s.take(m), n) <= count(s, n),
    decreases s.len(),
{
    if m < s.len() {
        lemma_count_prefix(s.drop_last(), m, n);
        assert(s.drop_last().take(m) =~= s.take(m));
    } else {
        assert(s.take(m) =~= s);
    }
}

/// A computation consumes no more than its node names.
proof fn lemma_operands_named(nodes: Seq<Node>, k: int, n: int)
    requires
        0 <= k < nodes.len(),
        nodes[k].inputs.len() >= nodes[k].kind.operands(),
    ensures
        count(operands_of(graph::lowering(nodes, k)), n) <= count(nodes[k].inputs, n),
{
    reveal_with_fuel(count, 3);
    let ins = nodes[k].inputs;
    let ops = operands_of(graph::lowering(nodes, k));
    let arity = nodes[k].kind.operands() as int;
    lemma_count_prefix(ins, arity, n);
    let used = ins.take(arity);
    if arity == 2 {
        assert(used.drop_last() =~= seq![ins[0]]);
        assert(seq![ins[0]].drop_last() =~= Seq::empty());
        if ops.len() == 2 {
            assert(ops =~= used);
        } else {
            assert(ops.drop_last() =~= Seq::empty());
        }
    } else if arity == 1 {
        assert(ops =~= used);
    }
}

proof fn lemma_consumed_bound(nodes: Seq<Node>, k: int, n: int)
    requires
        0 <= k <= nodes.len(),
        complete(nodes),
    ensures
        consumed(nodes, k, n) <= uses_in(nodes, k, n),
    decreases k,
{
    if k > 0 {
        lemma_consumed_bound(nodes, k - 1, n);
        lemma_operands_named(nodes, k - 1, n);
    }
}

/// No node is used more often than the nodes name it.
pub proof fn lemma_left(nodes: Seq<Node>, k: int, n: int)
    requires
        0 <= k <= nodes.len(),
        complete(nodes),
    ensures
        0 <= left(nodes, k, n) <= u32::MAX,
{
    lemma_consumed_bound(nodes, k, n);
    lemma_uses_monotone(nodes, k, nodes.len() as int, n);
    lemma_uses_monotone(nodes, nodes.len() as int, nodes.len() as int, n);
}

proof fn lemma_uses_partial(inputs: Seq<u32>, j: int, n: int)
    requires
        0 <= j < inputs.len(),
    ensures
        count(inputs.take(j + 1), n) == count(inputs.take(j), n) + if inputs[j] == n {
            1nat
        } else {
            0nat
        },
{
    assert(inputs.take(j + 1).drop_last() =~= inputs.take(j));
}

/// Counts how often each node is named.
fn count_uses(nodes: &[FusedElementwiseNode]) -> (r: Result<Vec<u32>, Error>)
    requires
        complete(executable::nodes_view(nodes@)),
    ensures
        ({
            let g = executable::nodes_view(nodes@);
            match r {
                Ok(uses) => {
                    &&& id_refusal(g) is None
                    &&& uses@.len() == g.len()
                    &&& forall|n: int| 0 <= n < g.len() ==> #[trigger] uses@[n] == left(g, 0, n)
                    &&& forall|i: int| 0 <= i < g.len() ==> #[trigger] graph::has_operands(g, i)
                },
                Err(e) => id_refusal(g) == Some(e@),
            }
        }),
{
    let ghost g = executable::nodes_view(nodes@);
    let total: usize = nodes.len();
    let mut uses: Vec<u32> = Vec::new();
    for i in 0..total
        invariant
            uses@.len() == i,
            forall|n: int| 0 <= n < i ==> #[trigger] uses@[n] == 0,
    {
        uses.push(0);
    }
    for i in 0..total
        invariant
            total == nodes@.len(),
            g == executable::nodes_view(nodes@),
            complete(g),
            uses@.len() == total,
            forall|n: int| 0 <= n < total ==> #[trigger] uses@[n] == uses_in(g, i as int, n),
            forall|j: int| 0 <= j < i ==> #[trigger] id_checks(g)(j) is None,
            forall|j: int| 0 <= j < i ==> #[trigger] graph::has_operands(g, j),
    {
        proof {
            error::lemma_first_refusal_skip(0, i as int, total as int, id_checks(g));
        }
        let node = &nodes[i];
        assert(g[i as int] == node@);
        let m: usize = node.input_nodes.len();
        let ghost check = operand_checks(g[i as int], total as int);
        for j in 0..m
            invariant
                i < total,
                total == nodes@.len(),
                g == executable::nodes_view(nodes@),
                complete(g),
                node@ == g[i as int],
                m == node.input_nodes@.len(),
                check == operand_checks(g[i as int], total as int),
                uses@.len() == total,
                forall|n: int|
                    0 <= n < total ==> #[trigger] uses@[n] == uses_in(g, i as int, n) + count(
                        node.input_nodes@.take(j as int),
                        n,
                    ),
                forall|b: int| 0 <= b < j ==> #[trigger] check(b) is None,
                id_refusal(g) == error::first_refusal(i as int, total as int, id_checks(g)),
        {
            proof {
                error::lemma_first_refusal_skip(0, j as int, m as int, check);
            }
            let input: u32 = node.input_nodes[j];
            if input as usize >= total {
                return Err(
                    error::invalid_input(
                        text::cat2("node id out of bounds: ", text::decimal_u32(input).as_str()),
                    ),
                );
            }
            let at: usize = input as usize;
            proof {
                lemma_uses_partial(node.input_nodes@, j as int, at as int);
                lemma_count_prefix(node.input_nodes@, j + 1, at as int);
                lemma_uses_monotone(g, i + 1, total as int, at as int);
                lemma_uses_monotone(g, total as int, total as int, at as int);
            }
            let ghost before = uses@;
            uses.set(at, uses[at] + 1);
            assert forall|n: int| 0 <= n < total implies #[trigger] uses@[n] == uses_in(
                g,
                i as int,
                n,
            ) + count(node.input_nodes@.take(j + 1), n) by {
                lemma_uses_partial(node.input_nodes@, j as int, n);
                assert(before[n] == uses_in(g, i as int, n) + count(
                    node.input_nodes@.take(j as int),
                    n,
                ));
            }
            assert(check(j as int) is None);
        }
        proof {
            assert(node.input_nodes@.take(m as int) =~= node.input_nodes@);
            error::lemma_first_refusal_none(0, m as int, check);
            assert(id_checks(g)(i as int) is None);
            assert forall|b: int| 0 <= b < g[i as int].inputs.len() implies #[trigger] g[i as int].inputs[b]
                < g.len() by {
                assert(check(b) is None);
            }
            assert(graph::has_operands(g, i as int));
        }
    }
    proof {
        error::lemma_first_refusal_none(0, total as int, id_checks(g));
    }
    Ok(uses)
}

/// What was emitted so far.
struct ComputeEmitContext {
    remaining_uses: Vec<u32>,
    srca_cb: u32,
    packed: usize,
    lines: Vec<String>,
    features: ComputeSourceFeatures,
}

impl ComputeEmitContext {
    /// Whether the first `k` nodes were emitted.
    spec fn at(&self, nodes: Seq<Node>, k: int) -> bool {
        &&& self.remaining_uses@.len() == nodes.len()
        &&& forall|n: int|
            0 <= n < nodes.len() ==> #[trigger] self.remaining_uses@[n] == left(nodes, k, n)
        &&& self.srca_cb == source_cb(nodes, k)
        &&& self.packed == packed_node(nodes, k)
        &&& source::lines_view(self.lines@) == body_lines(nodes, k)
        &&& self.features.serves(nodes, k)
    }
}

proof fn lemma_packed_node(nodes: Seq<Node>, k: int)
    requires
        0 <= k <= nodes.len(),
        nodes.len() > 0,
    ensures
        0 <= packed_node(nodes, k) < nodes.len(),
    decreases k,
{
    if k > 0 {
        lemma_packed_node(nodes, k - 1);
    }
}

fn push_waits(lines: &mut Vec<String>, lhs: u32, rhs: Option<u32>)
    ensures
        source::lines_view(final(lines)@) == source::lines_view(old(lines)@) + wait_lines(
            match rhs {
                Some(r) => seq![lhs as int, r as int],
                None => seq![lhs as int],
            },
        ),
{
    let ghost start = source::lines_view(lines@);
    source::push(lines, source::number_line("    cb_wait_front(tt::CBIndex::c_", lhs, ", 1);"));
    if let Some(r) = rhs {
        if r != lhs {
            source::push(
                lines,
                source::number_line("    cb_wait_front(tt::CBIndex::c_", r, ", 1);"),
            );
        }
    }
    assert(source::lines_view(lines@) =~= start + wait_lines(
        match rhs {
            Some(r) => seq![lhs as int, r as int],
            None => seq![lhs as int],
        },
    ));
}

fn push_copies(lines: &mut Vec<String>, from: u32, lhs: u32, rhs: Option<u32>)
    ensures
        source::lines_view(final(lines)@) == source::lines_view(old(lines)@) + copy_lines(
            from as int,
            match rhs {
                Some(r) => seq![lhs as int, r as int],
                None => seq![lhs as int],
            },
        ),
{
    let ghost start = source::lines_view(lines@);
    source::push(lines, "    tile_regs_acquire();".to_owned());
    source::push(
        lines,
        source::numbers_line(
            "    copy_tile_to_dst_init_short_with_dt(tt::CBIndex::c_",
            from,
            ", tt::CBIndex::c_",
            lhs,
            ");",
        ),
    );
    source::push(
        lines,
        source::numbers_line("    copy_tile(tt::CBIndex::c_", lhs, ", 0, ", 0, ");"),
    );
    if let Some(r) = rhs {
        source::push(
            lines,
            source::numbers_line(
                "    copy_tile_to_dst_init_short_with_dt(tt::CBIndex::c_",
                lhs,
                ", tt::CBIndex::c_",
                r,
                ");",
            ),
        );
        source::push(
            lines,
            source::numbers_line("    copy_tile(tt::CBIndex::c_", r, ", 0, ", 1, ");"),
        );
    }
    assert(source::lines_view(lines@) =~= start + copy_lines(
        from as int,
        match rhs {
            Some(r) => seq![lhs as int, r as int],
            None => seq![lhs as int],
        },
    ));
}

fn push_pack(lines: &mut Vec<String>, previous: u32, reconfigured: bool, out: u32)
    ensures
        source::lines_view(final(lines)@) == source::lines_view(old(lines)@) + pack_lines(
            previous as int,
            reconfigured,
            out as int,
        ),
{
    let ghost start = source::lines_view(lines@);
    source::push(lines, "    tile_regs_commit();".to_owned());
    source::push(lines, "    tile_regs_wait();".to_owned());
    if reconfigured {
        source::push(
            lines,
            source::numbers_line(
                "    pack_reconfig_data_format(tt::CBIndex::c_",
                previous,
                ", tt::CBIndex::c_",
                out,
                ");",
            ),
        );
    }
    source::push(lines, source::number_line("    pack_tile(0, tt::CBIndex::c_", out, ");"));
    source::push(lines, "    tile_regs_release();".to_owned());
    assert(source::lines_view(lines@) =~= start + pack_lines(
        previous as int,
        reconfigured,
        out as int,
    ));
}

/// Takes the operands of node `k` off the count and frees those used up.
fn consume(
    lines: &mut Vec<String>,
    remaining_uses: &mut Vec<u32>,
    node_cbs: &[u32],
    Ghost(g): Ghost<Seq<Node>>,
    Ghost(k): Ghost<int>,
    ins: &Vec<u32>,
)
    requires
        0 <= k < g.len(),
        complete(g),
        graph::cb_refusal(g) is None,
        node_cbs@ == graph::cbs(g),
        ins@ == operands_of(graph::lowering(g, k)),
        1 <= ins@.len() <= 2,
        forall|j: int| 0 <= j < ins@.len() ==> #[trigger] ins@[j] < g.len(),
        old(remaining_uses)@.len() == g.len(),
        forall|n: int|
            0 <= n < g.len() ==> #[trigger] old(remaining_uses)@[n] == left(g, k, n),
    ensures
        source::lines_view(final(lines)@) == source::lines_view(old(lines)@) + pop_lines(g, k),
        final(remaining_uses)@.len() == g.len(),
        forall|n: int|
            0 <= n < g.len() ==> #[trigger] final(remaining_uses)@[n] == left(g, k + 1, n),
{
    let ghost start = source::lines_view(lines@);
    let ghost uses = remaining_uses@;
    proof {
        reveal_with_fuel(count, 3);
        assert(seq![ins@[0]].drop_last() =~= Seq::empty());
        if ins@.len() == 2 {
            assert(ins@.drop_last() =~= seq![ins@[0]]);
        } else {
            assert(ins@ =~= seq![ins@[0]]);
        }
        graph::lemma_cb_bound(g, ins@[0] as int);
        lemma_left(g, k + 1, ins@[0] as int);
        assert forall|n: int| 0 <= n < g.len() implies #[trigger] left(g, k + 1, n) == left(
            g,
            k,
            n,
        ) - count(ins@, n) by {}
    }
    let a: usize = ins[0] as usize;
    let twice: bool = ins.len() == 2 && ins[1] == ins[0];
    let taken: u32 = if twice {
        2
    } else {
        1
    };
    assert(uses[a as int] == left(g, k, a as int));
    remaining_uses.set(a, remaining_uses[a] - taken);
    if remaining_uses[a] == 0 {
        source::push(
            lines,
            source::number_line("    cb_pop_front(tt::CBIndex::c_", node_cbs[a], ", 1);"),
        );
    }
    if ins.len() == 2 && !twice {
        let b: usize = ins[1] as usize;
        proof {
            graph::lemma_cb_bound(g, ins@[1] as int);
            lemma_left(g, k + 1, ins@[1] as int);
            assert(uses[b as int] == left(g, k, b as int));
        }
        remaining_uses.set(b, remaining_uses[b] - 1);
        if remaining_uses[b] == 0 {
            source::push(
                lines,
                source::number_line("    cb_pop_front(tt::CBIndex::c_", node_cbs[b], ", 1);"),
            );
        }
    }
    assert forall|n: int| 0 <= n < g.len() implies #[trigger] remaining_uses@[n] == left(
        g,
        k + 1,
        n,
    ) by {
        assert(uses[n] == left(g, k, n));
        assert(left(g, k + 1, n) == left(g, k, n) - count(ins@, n));
    }
    assert(source::lines_view(lines@) =~= start + pop_lines(g, k));
}

/// The operands of a computation are nodes, at most two.
proof fn lemma_operands(nodes: Seq<Node>, k: int)
    requires
        0 <= k < nodes.len(),
        graph::has_operands(nodes, k),
    ensures
        ({
            let l = graph::lowering(nodes, k);
            let ins = operands_of(l);
            &&& !(l is Leaf) ==> 1 <= ins.len() <= 2
            &&& forall|j: int| 0 <= j < ins.len() ==> #[trigger] ins[j] < nodes.len()
            &&& l matches Lowering::Helper { kind, .. } ==> kind.has_helper()
        }),
{
    let n = nodes[k];
    if n.kind.operands() >= 1 {
        assert(n.inputs[0] < nodes.len());
    }
    if n.kind.operands() >= 2 {
        assert(n.inputs[1] < nodes.len());
    }
}

/// One more node changes the features as its computation does.
proof fn lemma_features(nodes: Seq<Node>, k: int)
    requires
        k >= 0,
    ensures
        forall|kind: FusedElementwiseKind| #[trigger]
            helper_used(nodes, k + 1, kind) == (helper_used(nodes, k, kind) || (graph::lowering(
                nodes,
                k,
            ) matches Lowering::Helper { kind: used, .. } && used == kind)),
        compare_used(nodes, k + 1) == (compare_used(nodes, k) || graph::lowering(
            nodes,
            k,
        ) is Compare),
        raw_used(nodes, k + 1) == (raw_used(nodes, k) || graph::lowering(nodes, k) is RawBitwise),
{
    let l = graph::lowering(nodes, k);
    assert forall|kind: FusedElementwiseKind| #[trigger] helper_used(nodes, k + 1, kind) == (
    helper_used(nodes, k, kind) || (l matches Lowering::Helper { kind: used, .. } && used
        == kind)) by {
        if helper_used(nodes, k, kind) {
            let j = choose|j: int|
                0 <= j < k && (#[trigger] graph::lowering(nodes, j) matches Lowering::Helper {
                    kind: used,
                    ..
                } && used == kind);
            assert(0 <= j < k + 1);
        }
    }
    if compare_used(nodes, k) {
        let j = choose|j: int| 0 <= j < k && #[trigger] graph::lowering(nodes, j) is Compare;
        assert(0 <= j < k + 1);
    }
    if raw_used(nodes, k) {
        let j = choose|j: int| 0 <= j < k && #[trigger] graph::lowering(nodes, j) is RawBitwise;
        assert(0 <= j < k + 1);
    }
}

/// The lines that compute node `k`, whose operands are taken off the count.
fn stage_source(
    nodes: &[FusedElementwiseNode],
    dtypes: &[DType],
    node_cbs: &[u32],
    index: usize,
    l: Lowering,
    srca_cb: u32,
    previous: usize,
    remaining_uses: &mut Vec<u32>,
) -> (r: (Vec<String>, u32))
    requires
        ({
            let g = executable::nodes_view(nodes@);
            &&& index < g.len()
            &&& complete(g)
            &&& graph::cb_refusal(g) is None
            &&& graph::has_operands(g, index as int)
            &&& dtypes@ == graph::types(g)
            &&& node_cbs@ == graph::cbs(g)
            &&& l == graph::lowering(g, index as int)
            &&& !(l is Leaf)
            &&& srca_cb == source_cb(g, index as int)
            &&& previous == packed_node(g, index as int)
            &&& old(remaining_uses)@.len() == g.len()
            &&& forall|n: int|
                0 <= n < g.len() ==> #[trigger] old(remaining_uses)@[n] == left(g, index as int, n)
        }),
    ensures
        ({
            let g = executable::nodes_view(nodes@);
            &&& source::lines_view(r.0@) == stage_lines(g, index as int)
            &&& r.1 == graph::cb_of(g, operands_of(l).last() as int)
            &&& final(remaining_uses)@.len() == g.len()
            &&& forall|n: int|
                0 <= n < g.len() ==> #[trigger] final(remaining_uses)@[n] == left(g, index + 1, n)
        }),
{
    let ghost g = executable::nodes_view(nodes@);
    let ghost k = index as int;
    proof {
        lemma_operands(g, k);
        lemma_packed_node(g, k);
        graph::lemma_cb_bound(g, k);
        graph::lemma_cb_bound(g, packed_node(g, k));
    }
    let through: bool = goes_through_registers(l);
    let ins = operand_list(l);
    let out: u32 = node_cbs[index];
    let lhs: u32 = node_cbs[ins[0] as usize];
    let rhs: Option<u32> = if ins.len() == 2 {
        Some(node_cbs[ins[1] as usize])
    } else {
        None
    };
    let last: u32 = match rhs {
        Some(r) => r,
        None => lhs,
    };
    let ghost cbs = operand_cbs(g, k);
    proof {
        graph::lemma_cb_bound(g, ins@[0] as int);
        if ins@.len() == 2 {
            graph::lemma_cb_bound(g, ins@[1] as int);
        }
        assert(cbs =~= match rhs {
            Some(r) => seq![lhs as int, r as int],
            None => seq![lhs as int],
        });
    }
    let mut lines: Vec<String> = Vec::new();
    push_waits(&mut lines, lhs, rhs);
    assert(source::lines_view(lines@) =~= wait_lines(cbs));
    push_before(&mut lines, l, index, lhs, out);
    let ghost s2 = source::lines_view(lines@);
    source::push(
        &mut lines,
        source::number_line("    cb_reserve_back(tt::CBIndex::c_", out, ", 1);"),
    );
    assert(source::lines_view(lines@) =~= s2 + seq![
        source::line1("    cb_reserve_back(tt::CBIndex::c_"@, out as int, ", 1);"@),
    ]);
    let ghost s3 = source::lines_view(lines@);
    if through {
        push_copies(&mut lines, srca_cb, lhs, rhs);
    }
    assert(source::lines_view(lines@) =~= s3 + (if packs(l) {
        copy_lines(source_cb(g, k), cbs)
    } else {
        Seq::empty()
    }));
    push_call(&mut lines, l, index, lhs, last, out);
    let ghost s5 = source::lines_view(lines@);
    if through {
        push_pack(&mut lines, node_cbs[previous], dtypes[previous] != dtypes[index], out);
    }
    assert(source::lines_view(lines@) =~= s5 + (if packs(l) {
        pack_lines(
            graph::cb_of(g, packed_node(g, k)),
            graph::node_type(g[packed_node(g, k)]) != graph::node_type(g[k]),
            out as int,
        )
    } else {
        Seq::empty()
    }));
    consume(&mut lines, remaining_uses, node_cbs, Ghost(g), Ghost(k), &ins);
    let ghost s7 = source::lines_view(lines@);
    source::push(
        &mut lines,
        source::number_line("    cb_push_back(tt::CBIndex::c_", out, ", 1);"),
    );
    assert(source::lines_view(lines@) =~= s7 + seq![
        source::line1("    cb_push_back(tt::CBIndex::c_"@, out as int, ", 1);"@),
    ]);
    (lines, last)
}

fn emit_stage(
    ctx: &mut ComputeEmitContext,
    nodes: &[FusedElementwiseNode],
    dtypes: &[DType],
    node_cbs: &[u32],
    index: usize,
) -> (r: Result<(), Error>)
    requires
        ({
            let g = executable::nodes_view(nodes@);
            &&& index < g.len()
            &&& complete(g)
            &&& graph::cb_refusal(g) is None
            &&& graph::has_operands(g, index as int)
            &&& dtypes@ == graph::types(g)
            &&& node_cbs@ == graph::cbs(g)
            &&& old(ctx).at(g, index as int)
        }),
    ensures
        ({
            let g = executable::nodes_view(nodes@);
            match r {
                Ok(_) => stage_checks(g)(index as int) is None && final(ctx).at(g, index + 1),
                Err(e) => stage_checks(g)(index as int) == Some(e@),
            }
        }),
{
    let ghost g = executable::nodes_view(nodes@);
    let ghost k = index as int;
    let l = graph::lowering_for(nodes, dtypes, index)?;
    proof {
        lemma_operands(g, k);
        lemma_features(g, k);
    }
    let ghost before = *ctx;
    let through: bool = goes_through_registers(l);
    if through && nodes[nodes.len() - 1].kind.leaf() {
        return Err(error::invalid_text("CB 16 does not have a dtype"));
    }
    add_features(&mut ctx.features, l);
    assert(ctx.features.serves(g, k + 1));
    if matches!(l, Lowering::Leaf) {
        proof {
            assert forall|n: int| 0 <= n < g.len() implies #[trigger] ctx.remaining_uses@[n]
                == left(g, k + 1, n) by {
                assert(before.remaining_uses@[n] == left(g, k, n));
            }
            assert(body_lines(g, k + 1) =~= body_lines(g, k));
        }
        return Ok(());
    }
    let (lines, last) = stage_source(
        nodes,
        dtypes,
        node_cbs,
        index,
        l,
        ctx.srca_cb,
        ctx.packed,
        &mut ctx.remaining_uses,
    );
    source::extend(&mut ctx.lines, lines);
    if through {
        ctx.srca_cb = last;
        ctx.packed = index;
    }
    Ok(())
}

/// The statements of a compute kernel, and what they need.
#[derive(Debug)]
pub struct ComputeSteps {
    pub body: String,
    pub features: ComputeSourceFeatures,
}

/// Emits the statements that compute a graph.
pub fn compute_steps(nodes: &[FusedElementwiseNode]) -> (r: Result<ComputeSteps, Error>)
    requires
        complete(executable::nodes_view(nodes@)),
    ensures
        ({
            let g = executable::nodes_view(nodes@);
            match r {
                Ok(steps) => {
                    &&& steps_refusal(g) is None
                    &&& steps.body@ == source::rendered(body_lines(g, g.len() as int))
                    &&& steps.features.serves(g, g.len() as int)
                },
                Err(e) => steps_refusal(g) == Some(e@),
            }
        }),
{
    let ghost g = executable::nodes_view(nodes@);
    let remaining_uses = count_uses(nodes)?;
    let (node_cbs, _) = graph::cb_plan(nodes)?;
    let dtypes = graph::node_dtypes(nodes)?;
    let n: usize = nodes.len();
    let mut ctx = ComputeEmitContext {
        remaining_uses,
        srca_cb: 0,
        packed: n - 1,
        lines: Vec::new(),
        features: ComputeSourceFeatures {
            headers: Vec::new(),
            add_input_helper: false,
            subtract_input_helper: false,
            multiply_input_helper: false,
            compare_helpers: false,
            raw_bitwise: false,
        },
    };
    assert(headers_view(ctx.features.headers@) =~= Seq::empty());
    assert(source::lines_view(ctx.lines@) =~= Seq::empty());
    for i in 0..n
        invariant
            n == nodes@.len(),
            g == executable::nodes_view(nodes@),
            complete(g),
            id_refusal(g) is None,
            graph::cb_refusal(g) is None,
            error::first_refusal(0, n as int, graph::type_checks(g)) is None,
            forall|j: int| 0 <= j < n ==> #[trigger] graph::has_operands(g, j),
            dtypes@ == graph::types(g),
            node_cbs@ == graph::cbs(g),
            ctx.at(g, i as int),
            forall|j: int| 0 <= j < i ==> #[trigger] stage_checks(g)(j) is None,
    {
        proof {
            error::lemma_first_refusal_skip(0, i as int, n as int, stage_checks(g));
            assert(graph::has_operands(g, i as int));
        }
        emit_stage(&mut ctx, nodes, dtypes.as_slice(), node_cbs.as_slice(), i)?;
    }
    proof {
        error::lemma_first_refusal_none(0, n as int, stage_checks(g));
    }
    Ok(ComputeSteps { body: source::render(&ctx.lines), features: ctx.features })
}

/// The sources that the program is made of.
#[derive(Debug)]
pub struct FusedSources {
    pub writer: String,
    pub compute: String,
    pub binary_input_data_format: String,
    pub add_input: String,
    pub subtract_input: String,
    pub multiply_input: String,
    pub compare: String,
}

/// The helper that combines bytes bit by bit.
pub const HELPER_RAW_BITWISE: &'static str = "
template <uint32_t OP>
uint8_t raw_bitwise_u8_apply(uint8_t lhs, uint8_t rhs) {
  if constexpr (OP == 0) {
    return lhs & rhs;
  } else if constexpr (OP == 1) {
    return lhs | rhs;
  } else if constexpr (OP == 2) {
    return lhs ^ rhs;
  } else {
    uint32_t amount = static_cast<uint32_t>(rhs);
    if (amount >= 8) {
      if constexpr (OP == 5) {
        return static_cast<int8_t>(lhs) < 0 ? 0xff : 0;
      }
      return 0;
    }
    if constexpr (OP == 3) {
      return static_cast<uint8_t>(lhs << amount);
    } else if constexpr (OP == 4) {
      return static_cast<uint8_t>(lhs >> amount);
    } else {
      return static_cast<uint8_t>(static_cast<int8_t>(lhs) >> amount);
    }
  }
}

template <uint32_t OP>
void raw_bitwise_u8_tile(uint32_t lhs_cb, uint32_t rhs_cb, uint32_t output_cb) {
#ifdef TRISC_PACK
  {
    uint32_t output_addr =
        get_local_cb_interface(output_cb).fifo_wr_ptr << 4;
    mailbox_write(ckernel::ThreadId::UnpackThreadId, output_addr);
    mailbox_read(ckernel::ThreadId::UnpackThreadId);
  }
#endif
#ifdef TRISC_UNPACK
  {
    uint32_t lhs_addr =
        get_local_cb_interface(lhs_cb).fifo_rd_ptr << 4;
    uint32_t rhs_addr =
        get_local_cb_interface(rhs_cb).fifo_rd_ptr << 4;
    uint32_t output_addr = mailbox_read(ckernel::ThreadId::PackThreadId);
    volatile tt_l1_ptr uint8_t *lhs =
        reinterpret_cast<volatile tt_l1_ptr uint8_t *>(lhs_addr);
    volatile tt_l1_ptr uint8_t *rhs =
        reinterpret_cast<volatile tt_l1_ptr uint8_t *>(rhs_addr);
    volatile tt_l1_ptr uint8_t *output =
        reinterpret_cast<volatile tt_l1_ptr uint8_t *>(output_addr);
    for (uint32_t element = 0; element < 1024; ++element) {
      output[element] = raw_bitwise_u8_apply<OP>(lhs[element], rhs[element]);
    }
    mailbox_write(ckernel::ThreadId::PackThreadId, 1);
  }
#endif
}
";

/// The lines that bring in headers.
pub open spec fn header_lines(headers: Seq<Seq<char>>) -> Seq<Seq<char>> {
    headers.map_values(|h: Seq<char>| "#include \""@ + h + "\""@)
}

/// The helpers that the first `k` nodes need.
pub open spec fn helpers_text(sources: FusedSources, nodes: Seq<Node>, k: int) -> Seq<char> {
    let add = helper_used(nodes, k, FusedElementwiseKind::Add);
    let subtract = helper_used(nodes, k, FusedElementwiseKind::Subtract);
    let multiply = helper_used(nodes, k, FusedElementwiseKind::Multiply);
    chosen(add || subtract || multiply, sources.binary_input_data_format@) + chosen(
        add,
        sources.add_input@,
    ) + chosen(subtract, sources.subtract_input@) + chosen(multiply, sources.multiply_input@)
        + chosen(compare_used(nodes, k), sources.compare@) + chosen(
        raw_used(nodes, k),
        HELPER_RAW_BITWISE@,
    )
}

/// A text where it is needed.
pub open spec fn chosen(needed: bool, s: Seq<char>) -> Seq<char> {
    if needed {
        s
    } else {
        ""@
    }
}

fn choose_text<'a>(needed: bool, s: &'a str) -> (r: &'a str)
    ensures
        r@ == chosen(needed, s@),
{
    if needed {
        s
    } else {
        ""
    }
}

impl ComputeSourceFeatures {
    fn headers_source(&self) -> (r: String)
        ensures
            r@ == source::rendered(header_lines(headers_view(self.headers@))),
    {
        let mut lines: Vec<String> = Vec::new();
        let ghost all = header_lines(headers_view(self.headers@));
        for i in 0..self.headers.len()
            invariant
                all == header_lines(headers_view(self.headers@)),
                source::lines_view(lines@) == all.take(i as int),
        {
            source::push(&mut lines, text::cat3("#include \"", self.headers[i], "\""));
            assert(all.take(i + 1) =~= all.take(i as int).push(all[i as int]));
        }
        assert(all.take(self.headers@.len() as int) =~= all);
        source::render(&lines)
    }

    fn helpers_source(&self, sources: &FusedSources, Ghost(nodes): Ghost<Seq<Node>>) -> (r: String)
        requires
            self.serves(nodes, nodes.len() as int),
        ensures
            r@ == helpers_text(*sources, nodes, nodes.len() as int),
    {
        text::cat6(
            choose_text(
                self.add_input_helper || self.subtract_input_helper || self.multiply_input_helper,
                sources.binary_input_data_format.as_str(),
            ),
            choose_text(self.add_input_helper, sources.add_input.as_str()),
            choose_text(self.subtract_input_helper, sources.subtract_input.as_str()),
            choose_text(self.multiply_input_helper, sources.multiply_input.as_str()),
            choose_text(self.compare_helpers, sources.compare.as_str()),
            choose_text(self.raw_bitwise, HELPER_RAW_BITWISE),
        )
    }
}

/// The source of the compute kernel.
pub open spec fn compute_text(sources: FusedSources, nodes: Seq<Node>) -> Seq<char> {
    let n = nodes.len() as int;
    let headers = source::rendered(header_lines(headers_of(nodes, n)));
    let body = source::rendered(body_lines(nodes, n));
    text::replaced(
        text::replaced(
            text::replaced(sources.compute@, "FUSED_HEADERS"@, headers),
            "FUSED_HELPERS"@,
            helpers_text(sources, nodes, n),
        ),
        "FUSED_STEPS"@,
        body,
    )
}

/// Generates the source of the compute kernel.
pub fn compute_source(sources: &FusedSources, nodes: &[FusedElementwiseNode]) -> (r: Result<
    String,
    Error,
>)
    requires
        complete(executable::nodes_view(nodes@)),
    ensures
        ({
            let g = executable::nodes_view(nodes@);
            match r {
                Ok(s) => steps_refusal(g) is None && s@ == compute_text(*sources, g),
                Err(e) => steps_refusal(g) == Some(e@),
            }
        }),
{
    let ghost g = executable::nodes_view(nodes@);
    let steps = compute_steps(nodes)?;
    proof {
        reveal_strlit("FUSED_HEADERS");
        reveal_strlit("FUSED_HELPERS");
        reveal_strlit("FUSED_STEPS");
    }
    let headers = steps.features.headers_source();
    let helpers = steps.features.helpers_source(sources, Ghost(g));
    let with_headers = text::replace_text(
        sources.compute.as_str(),
        "FUSED_HEADERS",
        headers.as_str(),
    );
    let with_helpers = text::replace_text(
        with_headers.as_str(),
        "FUSED_HELPERS",
        helpers.as_str(),
    );
    Ok(text::replace_text(with_helpers.as_str(), "FUSED_STEPS", steps.body.as_str()))
}

} // verus!
