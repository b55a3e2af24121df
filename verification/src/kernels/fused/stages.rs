//! How tiles pass through the kernels of a fused operation.

use vstd::prelude::*;
use crate::dram::DramBuffer;
use crate::executable::{FusedElementwiseKind, Node};
use crate::kernels::fused::emit;
use crate::kernels::fused::graph;
use crate::kernels::fused::graph::Lowering;
use crate::kernels::fused::inputs;
use crate::kernels::fused::reader;
use crate::kernels::fused::reader::Leaf;
use crate::source;
use crate::text;

verus! {

/// Whether a text holds another.
pub open spec fn holds(all: Seq<char>, part: Seq<char>) -> bool {
    exists|before: Seq<char>, after: Seq<char>|
        #![trigger before + part + after]
        all == before + part + after
}

proof fn lemma_holds_front(a: Seq<char>, b: Seq<char>, part: Seq<char>)
    requires
        holds(a, part),
    ensures
        holds(a + b, part),
{
    let (before, after) = choose|before: Seq<char>, after: Seq<char>|
        #![trigger before + part + after]
        a == before + part + after;
    assert(a + b =~= before + part + (after + b));
}

proof fn lemma_holds_behind(a: Seq<char>, b: Seq<char>, part: Seq<char>)
    requires
        holds(b, part),
    ensures
        holds(a + b, part),
{
    let (before, after) = choose|before: Seq<char>, after: Seq<char>|
        #![trigger before + part + after]
        b == before + part + after;
    assert(a + b =~= (a + before) + part + after);
}

proof fn lemma_either(a: Seq<char>, b: Seq<char>, part: Seq<char>)
    ensures
        holds(a, part) ==> holds(a + b, part),
        holds(b, part) ==> holds(a + b, part),
{
    if holds(a, part) {
        lemma_holds_front(a, b, part);
    }
    if holds(b, part) {
        lemma_holds_behind(a, b, part);
    }
}

/// A text made of lines holds each of them.
proof fn lemma_line_held(lines: Seq<Seq<char>>, i: int)
    requires
        0 <= i < lines.len(),
    ensures
        holds(source::rendered(lines), lines[i]),
    decreases lines.len(),
{
    let front = lines.drop_last();
    if i < front.len() {
        lemma_line_held(front, i);
        assert(front[i] == lines[i]);
        lemma_holds_front(source::rendered(front), lines.last(), lines[i]);
        lemma_holds_front(source::rendered(front) + lines.last(), "\n"@, lines[i]);
    } else {
        assert(source::rendered(front) + lines.last() + "\n"@ == source::rendered(lines));
    }
}

/// Lines gathered from several sources hold those of each.
proof fn lemma_gathered(f: spec_fn(int) -> Seq<Seq<char>>, n: int, k: int, j: int)
    requires
        0 <= k < n,
        0 <= j < f(k).len(),
    ensures
        exists|i: int|
            0 <= i < reader::gathered(f, n).len() && #[trigger] reader::gathered(f, n)[i] == f(k)[j],
    decreases n,
{
    let before = reader::gathered(f, n - 1);
    let all = reader::gathered(f, n);
    if k < n - 1 {
        lemma_gathered(f, n - 1, k, j);
        let i = choose|i: int| 0 <= i < before.len() && #[trigger] before[i] == f(k)[j];
        assert(all[i] == f(k)[j]);
    } else {
        assert(all[before.len() + j] == f(k)[j]);
    }
}

proof fn lemma_gathered_held(f: spec_fn(int) -> Seq<Seq<char>>, n: int, k: int, j: int)
    requires
        0 <= k < n,
        0 <= j < f(k).len(),
    ensures
        holds(source::rendered(reader::gathered(f, n)), f(k)[j]),
{
    lemma_gathered(f, n, k, j);
    let lines = reader::gathered(f, n);
    let i = choose|i: int| 0 <= i < lines.len() && #[trigger] lines[i] == f(k)[j];
    lemma_line_held(lines, i);
}

/// The leaf of node `i` has the number of leaves before it, and its tensor the number of inputs
/// before it.
pub proof fn lemma_leaf_place(nodes: Seq<Node>, n: int, i: int)
    requires
        0 <= i < n <= nodes.len(),
        nodes[i].kind.is_leaf(),
    ensures
        ({
            let list = reader::leaves(nodes, n);
            let t = graph::leaves_before(nodes, i);
            &&& 0 <= t < list.len()
            &&& list[t] == reader::leaf_of(nodes, i)
            &&& reader::tensors_before(list, t) == graph::inputs_before(nodes, i)
        }),
    decreases n,
{
    let before = reader::leaves(nodes, n - 1);
    let all = reader::leaves(nodes, n);
    lemma_counts(nodes, n - 1);
    if i < n - 1 {
        lemma_leaf_place(nodes, n - 1, i);
        let t = graph::leaves_before(nodes, i);
        assert(all[t] == before[t]);
        lemma_same_tensors(before, all, t);
    } else {
        let t = graph::leaves_before(nodes, i);
        assert(all == before.push(reader::leaf_of(nodes, i)));
        assert(before.len() == t);
        lemma_same_tensors(before, all, t);
    }
}

proof fn lemma_same_tensors(a: Seq<Leaf>, b: Seq<Leaf>, n: int)
    requires
        0 <= n <= a.len(),
        n <= b.len(),
        forall|i: int| 0 <= i < n ==> #[trigger] a[i] == b[i],
    ensures
        reader::tensors_before(a, n) == reader::tensors_before(b, n),
    decreases n,
{
    if n > 0 {
        lemma_same_tensors(a, b, n - 1);
        assert(a[n - 1] == b[n - 1]);
    }
}

proof fn lemma_counts(nodes: Seq<Node>, n: int)
    requires
        0 <= n <= nodes.len(),
    ensures
        reader::leaves(nodes, n).len() == graph::leaves_before(nodes, n),
        reader::tensor_count(reader::leaves(nodes, n)) == graph::inputs_before(nodes, n),
        graph::leaves_before(nodes, n) >= graph::inputs_before(nodes, n) >= 0,
    decreases n,
{
    if n > 0 {
        lemma_counts(nodes, n - 1);
        let before = reader::leaves(nodes, n - 1);
        let all = reader::leaves(nodes, n);
        lemma_same_tensors(before, all, before.len() as int);
    }
}

/// The tensor that node `i` reads stands at the place of its number.
proof fn lemma_read_place(nodes: Seq<Node>, buffers: Seq<&DramBuffer>, n: int, i: int)
    requires
        0 <= i < n,
        nodes[i].kind == FusedElementwiseKind::Input,
    ensures
        inputs::reads(nodes, buffers, n).len() == graph::inputs_before(nodes, n),
        0 <= graph::inputs_before(nodes, i) < inputs::reads(nodes, buffers, n).len(),
        inputs::reads(nodes, buffers, n)[graph::inputs_before(nodes, i)]
            == buffers[nodes[i].input_index as int],
    decreases n,
{
    lemma_read_count(nodes, buffers, n - 1);
    let before = inputs::reads(nodes, buffers, n - 1);
    let all = inputs::reads(nodes, buffers, n);
    if i < n - 1 {
        lemma_read_place(nodes, buffers, n - 1, i);
        let a = graph::inputs_before(nodes, i);
        assert(all[a] == before[a]);
    }
}

proof fn lemma_read_count(nodes: Seq<Node>, buffers: Seq<&DramBuffer>, n: int)
    ensures
        inputs::reads(nodes, buffers, n).len() == graph::inputs_before(nodes, n),
    decreases n,
{
    if n > 0 {
        lemma_read_count(nodes, buffers, n - 1);
    }
}

/// Wherever a part of the reader's source says something, the source says it.
proof fn lemma_reader_parts(list: Seq<Leaf>, part: Seq<char>)
    ensures
        holds(
            source::rendered(reader::gathered(reader::load_lines(), reader::tensor_count(list))),
            part,
        ) ==> holds(reader::reader_text(list), part),
        holds(
            source::rendered(reader::gathered(reader::declare_lines(list), list.len() as int)),
            part,
        ) ==> holds(reader::reader_text(list), part),
        holds(
            source::rendered(reader::gathered(reader::read_lines(list), list.len() as int)),
            part,
        ) ==> holds(reader::reader_text(list), part),
        holds(
            source::rendered(reader::gathered(reader::fill_lines(list), list.len() as int)),
            part,
        ) ==> holds(reader::reader_text(list), part),
{
    let n = list.len() as int;
    let tensors = reader::tensor_count(list);
    let loads = source::rendered(reader::gathered(reader::load_lines(), tensors));
    let declares = source::rendered(reader::gathered(reader::declare_lines(list), n));
    let reserves = source::rendered(reader::gathered(reader::reserve_lines(), n));
    let reads = source::rendered(reader::gathered(reader::read_lines(list), n));
    let fills = source::rendered(reader::gathered(reader::fill_lines(list), n));
    let pushes = source::rendered(reader::gathered(reader::push_lines(), n));
    let p0 = reader::READER_PRELUDE@;
    let p1 = p0 + loads;
    lemma_either(p0, loads, part);
    let p2 = p1 + "uint32_t offset = get_arg_val<uint32_t>("@;
    lemma_either(p1, "uint32_t offset = get_arg_val<uint32_t>("@, part);
    let p3 = p2 + text::dec(tensors);
    lemma_either(p2, text::dec(tensors), part);
    let p4 = p3 + ");\nuint32_t n_tiles = get_arg_val<uint32_t>("@;
    lemma_either(p3, ");\nuint32_t n_tiles = get_arg_val<uint32_t>("@, part);
    let p5 = p4 + text::dec(tensors + 1);
    lemma_either(p4, text::dec(tensors + 1), part);
    let p6 = p5 + ");\n"@;
    lemma_either(p5, ");\n"@, part);
    let p7 = p6 + declares;
    lemma_either(p6, declares, part);
    let p8 = p7 + "for (uint32_t i = 0; i < n_tiles; ++i) {\n"@;
    lemma_either(p7, "for (uint32_t i = 0; i < n_tiles; ++i) {\n"@, part);
    let p9 = p8 + reserves;
    lemma_either(p8, reserves, part);
    let p10 = p9 + reads;
    lemma_either(p9, reads, part);
    let p11 = p10 + "noc_async_read_barrier();\n"@;
    lemma_either(p10, "noc_async_read_barrier();\n"@, part);
    let p12 = p11 + fills;
    lemma_either(p11, fills, part);
    let p13 = p12 + pushes;
    lemma_either(p12, pushes, part);
    let p14 = p13 + "}\n}\n"@;
    lemma_either(p13, "}\n}\n"@, part);
    assert(reader::reader_text(list) == p14);
}

/// An input of a graph gets its tiles from its own tensor: the tensor is among those read, under
/// a number by which the reader takes its address from the arguments, and tiles of it are read
/// into the buffer that the compute kernel takes the input from. Just an input that holds one
/// tile for all is read from its first tile.
pub proof fn lemma_input_read(nodes: Seq<Node>, buffers: Seq<&DramBuffer>, i: int)
    requires
        0 <= i < nodes.len(),
        nodes[i].kind == FusedElementwiseKind::Input,
        0 <= graph::cb_of(nodes, i) <= u32::MAX,
    ensures
        ({
            let n = nodes.len() as int;
            let list = reader::leaves(nodes, n);
            let source = reader::reader_text(list);
            exists|a: int, t: int|
                {
                    &&& 0 <= a < inputs::reads(nodes, buffers, n).len()
                    &&& inputs::reads(nodes, buffers, n)[a] == buffers[nodes[i].input_index as int]
                    &&& #[trigger] holds(
                        source,
                        "  uint32_t input_addr_"@ + text::dec(a) + " = get_arg_val<uint32_t>("@
                            + text::dec(a) + ");"@,
                    )
                    &&& #[trigger] holds(
                        source,
                        "  constexpr uint32_t cb_leaf_"@ + text::dec(t) + " = tt::CBIndex::c_"@
                            + text::dec(graph::cb_of(nodes, i)) + ";"@,
                    )
                    &&& holds(
                        source,
                        "    .bank_base_address = input_addr_"@ + text::dec(a)
                            + ", .page_size = get_tile_size(cb_leaf_"@ + text::dec(t)
                            + "), .data_format = get_dataformat(cb_leaf_"@ + text::dec(t) + "),"@,
                    )
                    &&& holds(
                        source,
                        "    noc_async_read_tile("@ + (if nodes[i].single_tile_broadcast {
                            "0"@
                        } else {
                            "offset + i"@
                        }) + ", input_"@ + text::dec(a) + ", get_write_ptr(cb_leaf_"@ + text::dec(
                            t,
                        ) + "));"@,
                    )
                }
        }),
{
    let n = nodes.len() as int;
    let list = reader::leaves(nodes, n);
    let t = graph::leaves_before(nodes, i);
    let a = graph::inputs_before(nodes, i);
    lemma_leaf_place(nodes, n, i);
    lemma_read_place(nodes, buffers, n, i);
    lemma_counts(nodes, n);
    lemma_counts(nodes, i);
    let loads = reader::load_lines();
    let declares = reader::declare_lines(list);
    let reads = reader::read_lines(list);
    lemma_gathered_held(loads, reader::tensor_count(list), a, 0);
    lemma_gathered_held(declares, list.len() as int, t, 0);
    lemma_gathered_held(declares, list.len() as int, t, 2);
    lemma_gathered_held(reads, list.len() as int, t, 0);
    lemma_reader_parts(list, loads(a)[0]);
    lemma_reader_parts(list, declares(t)[0]);
    lemma_reader_parts(list, declares(t)[2]);
    lemma_reader_parts(list, reads(t)[0]);
    let source = reader::reader_text(list);
    assert(loads(a)[0] == "  uint32_t input_addr_"@ + text::dec(a)
        + " = get_arg_val<uint32_t>("@ + text::dec(a) + ");"@);
    assert(declares(t)[0] == "  constexpr uint32_t cb_leaf_"@ + text::dec(t)
        + " = tt::CBIndex::c_"@ + text::dec(graph::cb_of(nodes, i)) + ";"@);
    assert(holds(source, loads(a)[0]));
    assert(holds(source, declares(t)[0]));
}

/// A constant of a graph fills the buffer that the compute kernel takes it from with its value,
/// in elements of its width.
pub proof fn lemma_constant_filled(nodes: Seq<Node>, i: int)
    requires
        0 <= i < nodes.len(),
        nodes[i].kind == FusedElementwiseKind::Constant,
        0 <= graph::cb_of(nodes, i) <= u32::MAX,
    ensures
        ({
            let list = reader::leaves(nodes, nodes.len() as int);
            let source = reader::reader_text(list);
            exists|t: int|
                {
                    &&& #[trigger] holds(
                        source,
                        "  constexpr uint32_t cb_leaf_"@ + text::dec(t) + " = tt::CBIndex::c_"@
                            + text::dec(graph::cb_of(nodes, i)) + ";"@,
                    )
                    &&& holds(
                        source,
                        "    fill_constant_tile(cb_leaf_"@ + text::dec(t) + ", "@ + text::dec(
                            nodes[i].packed_value as int,
                        ) + "u, "@ + text::dec(graph::node_type(nodes[i]).width()) + ");"@,
                    )
                }
        }),
{
    let n = nodes.len() as int;
    let list = reader::leaves(nodes, n);
    let t = graph::leaves_before(nodes, i);
    lemma_leaf_place(nodes, n, i);
    let declares = reader::declare_lines(list);
    let fills = reader::fill_lines(list);
    lemma_gathered_held(declares, list.len() as int, t, 0);
    lemma_gathered_held(fills, list.len() as int, t, 0);
    lemma_reader_parts(list, declares(t)[0]);
    lemma_reader_parts(list, fills(t)[0]);
    let source = reader::reader_text(list);
    assert(declares(t)[0] == "  constexpr uint32_t cb_leaf_"@ + text::dec(t)
        + " = tt::CBIndex::c_"@ + text::dec(graph::cb_of(nodes, i)) + ";"@);
    assert(holds(source, declares(t)[0]));
}

/// A node's operands are put into the registers in their order, the first into the first, before
/// the node is computed; what the first register holds then goes to the node's own buffer, and
/// last of all it is handed on.
pub proof fn lemma_stage_registers(nodes: Seq<Node>, k: int)
    requires
        0 <= k < nodes.len(),
        inputs::ordered(nodes),
        match graph::lowering(nodes, k) {
            Lowering::Leaf => false,
            Lowering::RawBitwise { .. } => false,
            Lowering::Scalar { .. } => false,
            _ => true,
        },
    ensures
        ({
            let lines = emit::stage_lines(nodes, k);
            let l = graph::lowering(nodes, k);
            let ins = nodes[k].inputs;
            let out = graph::cb_of(nodes, k);
            let first = graph::cb_of(nodes, ins[0] as int);
            let second = graph::cb_of(nodes, ins.last() as int);
            exists|a: int, b: int, call: int, pack: int|
                {
                    &&& 0 <= a <= b < call < pack < lines.len() - 1
                    &&& #[trigger] lines[a] == source::line2(
                        "    copy_tile(tt::CBIndex::c_"@,
                        first,
                        ", 0, "@,
                        0,
                        ");"@,
                    )
                    &&& ins.len() == 2 ==> a < b
                    &&& #[trigger] lines[b] == source::line2(
                        "    copy_tile(tt::CBIndex::c_"@,
                        second,
                        ", 0, "@,
                        ins.len() - 1,
                        ");"@,
                    )
                    &&& emit::call_lines(l, k, first, second, out).len() > 0
                    &&& #[trigger] lines[call] == emit::call_lines(l, k, first, second, out)[0]
                    &&& #[trigger] lines[pack] == source::line1(
                        "    pack_tile(0, tt::CBIndex::c_"@,
                        out,
                        ");"@,
                    )
                    &&& lines.last() == source::line1(
                        "    cb_push_back(tt::CBIndex::c_"@,
                        out,
                        ", 1);"@,
                    )
                }
        }),
{
    let l = graph::lowering(nodes, k);
    let lines = emit::stage_lines(nodes, k);
    let ins = emit::operand_cbs(nodes, k);
    let ops = emit::operands_of(l);
    let out = graph::cb_of(nodes, k);
    assert(nodes[k].inputs.len() == nodes[k].kind.operands());
    assert(ins.len() == ops.len());
    assert(ops =~= nodes[k].inputs);
    assert(ins[0] == graph::cb_of(nodes, ops[0] as int));
    assert(ins.last() == graph::cb_of(nodes, ops.last() as int));
    let previous = emit::packed_node(nodes, k);
    let reconfigured = graph::node_type(nodes[previous]) != graph::node_type(nodes[k]);
    let waits = emit::wait_lines(ins);
    let befores = emit::before_lines(l, k, ins[0], out);
    let reserve = seq![source::line1("    cb_reserve_back(tt::CBIndex::c_"@, out, ", 1);"@)];
    let copies = emit::copy_lines(emit::source_cb(nodes, k), ins);
    let calls = emit::call_lines(l, k, ins[0], ins.last(), out);
    let packs = emit::pack_lines(graph::cb_of(nodes, previous), reconfigured, out);
    let pops = emit::pop_lines(nodes, k);
    let push = seq![source::line1("    cb_push_back(tt::CBIndex::c_"@, out, ", 1);"@)];
    assert(lines == waits + befores + reserve + copies + calls + packs + pops + push);
    let s = (waits + befores + reserve).len() as int;
    let c = s + copies.len();
    let p = c + calls.len();
    assert(copies.len() == if ins.len() == 2 {
        5int
    } else {
        3int
    });
    assert(lines[s + 2] == copies[2]);
    let b = c - 1;
    assert(lines[b] == copies[copies.len() - 1]);
    assert(lines[c] == calls[0]);
    let at = if reconfigured {
        3int
    } else {
        2int
    };
    assert(lines[p + at] == packs[at]);
    assert(lines.last() == push[0]);
}

} // verus!
