//! The circular buffers of programs.

use vstd::prelude::*;
use crate::dram::DType;
use crate::executable::Node;
use crate::hw::DramTile;
use crate::kernels::argmax;
use crate::kernels::broadcast;
use crate::kernels::common;
use crate::kernels::constant;
use crate::kernels::dot_general;
use crate::kernels::dot_general::dpa;
use crate::kernels::dot_general::dpa::DpaScoreShape;
use crate::kernels::dot_general::dpa_value;
use crate::kernels::dot_general::dpa_value::DpaValueShape;
use crate::kernels::dynamic_update_slice;
use crate::kernels::fused;
use crate::kernels::fused::graph;
use crate::kernels::fused::reader;
use crate::kernels::fused::stages;
use crate::kernels::gather;
use crate::kernels::lowering::KernelCb;
use crate::kernels::matmul_ws;
use crate::kernels::matmul_ws::{MatmulWsKey, MatmulWsPlan};

verus! {

/// Whether there is a buffer of this number for elements of this type that holds at least so
/// many tiles, and computes in the type it holds.
pub open spec fn has(cbs: Seq<KernelCb>, index: int, dtype: DType, tiles: int) -> bool {
    exists|i: int|
        {
            &&& 0 <= i < cbs.len()
            &&& (#[trigger] cbs[i]).index == index
            &&& cbs[i].dtype == dtype
            &&& cbs[i].compute_dtype == dtype
            &&& cbs[i].tiles >= tiles
        }
}

/// Whether buffers have numbers of their own, of those that there are.
pub open spec fn apart(cbs: Seq<KernelCb>) -> bool {
    &&& forall|i: int| 0 <= i < cbs.len() ==> (#[trigger] cbs[i]).index < 32
    &&& forall|i: int, j: int|
        0 <= i < j < cbs.len() ==> (#[trigger] cbs[i]).index != (#[trigger] cbs[j]).index
}

/// Tiles come in through the first buffer, and the second where there are two operands, and go
/// out through the sixteenth, each in the type of its tensor; one tile can be filled while
/// another is emptied. Indices are integers.
pub proof fn lemma_tensor_buffers(a: DType, b: DType, out: DType)
    ensures
        ({
            let cbs = broadcast::copy_cbs(a);
            apart(cbs) && has(cbs, 0, a, 2) && has(cbs, 16, a, 2)
        }),
        ({
            let cbs = common::two_input_cbs(a, out);
            apart(cbs) && has(cbs, 0, a, 2) && has(cbs, 1, a, 2) && has(cbs, 16, out, 2)
        }),
        ({
            let cbs = dot_general::program_cbs(a, b, out);
            apart(cbs) && has(cbs, 0, a, 2) && has(cbs, 1, b, 2) && has(cbs, 16, out, 2)
        }),
        ({
            let cbs = constant::output_cbs(out);
            apart(cbs) && has(cbs, 16, out, 2)
        }),
        ({
            let cbs = argmax::program_cbs(a);
            apart(cbs) && has(cbs, 0, a, 2) && has(cbs, 16, DType::Int32, 2)
        }),
        ({
            let cbs = gather::gather_cbs(a);
            apart(cbs) && has(cbs, 0, a, 2) && has(cbs, 1, DType::Int32, 2) && has(cbs, 16, a, 2)
        }),
        ({
            let cbs = dynamic_update_slice::program_cbs(a);
            apart(cbs) && has(cbs, 0, a, 2) && has(cbs, 1, DType::Int32, 2) && has(cbs, 2, a, 2)
                && has(cbs, 16, a, 2)
        }),
{
    assert(broadcast::copy_cbs(a)[0].index == 0 && broadcast::copy_cbs(a)[1].index == 16);
    let t = common::two_input_cbs(a, out);
    assert(t[0].index == 0 && t[1].index == 1 && t[2].index == 16);
    let d = dot_general::program_cbs(a, b, out);
    assert(d[0].index == 0 && d[1].index == 1 && d[2].index == 16);
    assert(constant::output_cbs(out)[0].index == 16);
    assert(argmax::program_cbs(a)[0].index == 0 && argmax::program_cbs(a)[1].index == 16);
    let g = gather::gather_cbs(a);
    assert(g[0].index == 0 && g[1].index == 1 && g[2].index == 16);
    let u = dynamic_update_slice::program_cbs(a);
    assert(u[0].index == 0 && u[1].index == 1 && u[2].index == 2 && u[3].index == 16);
}

/// The kernels of attention have room for a whole row of the dimension that they sum over, and
/// that of the values for a tile of each group. Scores are single precision numbers, values are
/// not.
pub proof fn lemma_attention_buffers(s: DpaScoreShape, v: DpaValueShape)
    ensures
        ({
            let cbs = dpa::score_cbs(s);
            &&& apart(cbs)
            &&& has(cbs, 0, DType::Float16B, 2)
            &&& has(cbs, 1, DType::Float16B, 2)
            &&& has(cbs, 3, DType::Float16B, s.kt as int)
            &&& has(cbs, 16, DType::Float32, 2)
        }),
        ({
            let cbs = dpa_value::value_cbs(v);
            &&& apart(cbs)
            &&& has(cbs, 0, DType::Float16B, 2)
            &&& has(cbs, 1, DType::Float16B, 2)
            &&& has(cbs, 3, DType::Float16B, v.kt as int)
            &&& has(cbs, 16, DType::Float16B, v.groups as int)
            &&& has(cbs, 16, DType::Float16B, 2)
            &&& has(cbs, 17, DType::Float16B, 2)
        }),
{
    let a = dpa::score_cbs(s);
    assert(a[0].index == 0 && a[1].index == 1 && a[2].index == 2 && a[3].index == 3 && a[4].index
        == 16);
    let b = dpa_value::value_cbs(v);
    assert(b[0].index == 0 && b[1].index == 1 && b[2].index == 2 && b[3].index == 3 && b[4].index
        == 16 && b[5].index == 17);
}

/// The buffers of a product from shards hold two blocks of either operand and the columns of a
/// core, and all of them together fit into a core's memory.
pub proof fn lemma_shard_buffers(plan: MatmulWsPlan, tiles: Seq<DramTile>, key: MatmulWsKey)
    requires
        plan.of(tiles, key),
        plan.wf(),
        2 * plan.in0_block_w * plan.per_core_n <= usize::MAX,
    ensures
        ({
            let cbs = matmul_ws::program_cbs(plan, key.dtype);
            let (w, n) = (plan.in0_block_w as int, plan.per_core_n as int);
            &&& apart(cbs)
            &&& cbs.len() == 4
            &&& has(cbs, 0, key.dtype, 2 * w)
            &&& has(cbs, 1, key.dtype, 2 * (w * n))
            &&& has(cbs, 16, key.dtype, n)
            &&& has(cbs, 24, key.dtype, n)
            &&& (cbs[0].tiles + cbs[1].tiles + cbs[2].tiles + cbs[3].tiles)
                * key.dtype.tile_bytes() <= matmul_ws::budget()
        }),
{
    let cbs = matmul_ws::program_cbs(plan, key.dtype);
    let (w, n) = (plan.in0_block_w as int, plan.per_core_n as int);
    assert(2 * w * n == 2 * (w * n) && w * n >= 0) by (nonlinear_arith)
        requires
            w >= 0,
            n >= 0,
    ;
    assert(cbs[0].index == 0 && cbs[1].index == 1 && cbs[2].index == 16 && cbs[3].index == 24);
    let fits = |v: int| matmul_ws::block_fits(key, v);
    assert(fits(w));
}

/// The buffer of an intermediate result stands among those of intermediate results.
proof fn lemma_intermediate(nodes: Seq<Node>, n: int, i: int)
    requires
        0 <= i < n <= nodes.len(),
        !nodes[i].kind.is_leaf(),
        i != nodes.len() - 1,
    ensures
        exists|k: int|
            0 <= k < graph::intermediates(nodes, n).len() && #[trigger] graph::intermediates(
                nodes,
                n,
            )[k] == (graph::cb_of(nodes, i) as u32, graph::node_type(nodes[i])),
    decreases n,
{
    let before = graph::intermediates(nodes, n - 1);
    let all = graph::intermediates(nodes, n);
    if i < n - 1 {
        lemma_intermediate(nodes, n - 1, i);
        let k = choose|k: int|
            0 <= k < before.len() && #[trigger] before[k] == (
                graph::cb_of(nodes, i) as u32,
                graph::node_type(nodes[i]),
            );
        assert(all[k] == before[k]);
    } else {
        assert(all[before.len() as int] == (
            graph::cb_of(nodes, i) as u32,
            graph::node_type(nodes[i]),
        ));
    }
}

/// Every node of a fused operation has the buffer that its kernels use for it, for elements of
/// its type, with room to fill one tile while another is emptied.
pub proof fn lemma_node_buffer(nodes: Seq<Node>, i: int)
    requires
        0 <= i < nodes.len(),
        0 <= graph::cb_of(nodes, i) <= u32::MAX,
        !nodes.last().kind.is_leaf(),
    ensures
        has(
            fused::program_cbs(nodes, graph::node_type(nodes.last())),
            graph::cb_of(nodes, i),
            graph::node_type(nodes[i]),
            2,
        ),
{
    let n = nodes.len() as int;
    let tiles = fused::buffer_tiles(nodes);
    let out = graph::node_type(nodes.last());
    let all = fused::program_cbs(nodes, out);
    let leaves = reader::leaves(nodes, n);
    let results = graph::intermediates(nodes, n);
    assert(all.len() == leaves.len() + results.len() + 1);
    if nodes[i].kind.is_leaf() {
        stages::lemma_leaf_place(nodes, n, i);
        let t = graph::leaves_before(nodes, i);
        assert(all[t] == KernelCb::sized(leaves[t].cb as usize, leaves[t].dtype, tiles));
    } else if i == n - 1 {
        assert(all[all.len() - 1] == KernelCb::sized(16, out, tiles));
    } else {
        lemma_intermediate(nodes, n, i);
        let k = choose|k: int|
            0 <= k < results.len() && #[trigger] results[k] == (
                graph::cb_of(nodes, i) as u32,
                graph::node_type(nodes[i]),
            );
        assert(all[leaves.len() + k] == KernelCb::sized(
            results[k].0 as usize,
            results[k].1,
            tiles,
        ));
    }
}

} // verus!
