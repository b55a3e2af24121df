//! Fused elementwise operations: graphs of nodes that are computed tile by tile
//! in one program.

use vstd::prelude::*;
use crate::convert;
use crate::dram;
use crate::dram::{DType, DramBuffer};
use crate::error;
use crate::error::Error;
use crate::executable;
use crate::executable::{FusedElementwiseKind, FusedElementwiseNode, Node};
use crate::hw::CoreCoord;
use crate::kernels::fused::emit::FusedSources;
use crate::kernels::fused::reader::Leaf;
use crate::kernels::kernel;
use crate::kernels::kernel::Kernel;
use crate::kernels::lowering;
use crate::kernels::lowering::{CompileConfig, DynamicArgs, KernelCb, LoweredProgram, Section};
use crate::text;

pub mod emit;
pub mod graph;
pub mod inputs;
pub mod kinds;
pub mod meaning;
pub mod reader;
pub mod stages;

verus! {

/// What the program of a graph depends on.
#[derive(Clone, Debug, Hash, PartialEq, Eq)]
pub struct FusedEltwiseProgramKey {
    pub cores: Vec<CoreCoord>,
    pub tile_count: u32,
    pub output_dtype: DType,
    pub nodes: Vec<FusedElementwiseNode>,
}

/// Whether one of the first `n` nodes takes full registers.
pub open spec fn any_wide(nodes: Seq<Node>, n: int) -> bool {
    exists|i: int|
        0 <= i < n && graph::node_refusal(#[trigger] nodes[i]) is None && kinds::is_wide(
            graph::node_type(nodes[i]),
        )
}

/// Why node `i` is refused while looking for the first that takes full registers.
pub open spec fn wide_checks(nodes: Seq<Node>) -> spec_fn(int) -> Option<error::Refusal> {
    |i: int|
        if any_wide(nodes, i) {
            None
        } else {
            graph::node_refusal(nodes[i])
        }
}

/// Why there is no program for a graph.
pub open spec fn program_refusal(cores: Seq<CoreCoord>, nodes: Seq<Node>) -> Option<
    error::Refusal,
> {
    let n = nodes.len() as int;
    let leaf = error::first_refusal(0, n, reader::leaf_checks(nodes));
    let wide = error::first_refusal(0, n, wide_checks(nodes));
    if graph::cb_refusal(nodes) is Some {
        graph::cb_refusal(nodes)
    } else if lowering::listed_refusal(cores) is Some {
        lowering::listed_refusal(cores)
    } else if leaf is Some {
        leaf
    } else if wide is Some {
        wide
    } else {
        emit::steps_refusal(nodes)
    }
}

/// The number of nodes that compute something.
pub open spec fn op_count(nodes: Seq<Node>) -> int {
    nodes.len() - graph::leaf_count(nodes)
}

/// The tiles of each buffer. With several stages the buffers are deeper.
pub open spec fn buffer_tiles(nodes: Seq<Node>) -> usize {
    if op_count(nodes) > 1 {
        4
    } else {
        2
    }
}

/// The buffers of a program.
pub open spec fn program_cbs(nodes: Seq<Node>, output_dtype: DType) -> Seq<KernelCb> {
    let n = nodes.len() as int;
    let tiles = buffer_tiles(nodes);
    (reader::leaves(nodes, n).map_values(
        |l: Leaf| KernelCb::sized(l.cb as usize, l.dtype, tiles),
    ) + graph::intermediates(nodes, n).map_values(
        |p: (u32, DType)| KernelCb::sized(p.0 as usize, p.1, tiles),
    )).push(KernelCb::sized(16, output_dtype, tiles))
}

/// The arguments of the cores: addresses come first, with zeros in their places.
pub open spec fn program_args(cores: Seq<CoreCoord>, tile_count: u32, tensors: int) -> spec_fn(
    int,
) -> kernel::CoreArgs {
    |j: int|
        {
            let (offset, count) = lowering::core_range(tile_count, j, cores.len() as int);
            (
                seq![0u32, offset, count],
                Seq::new(tensors as nat, |i: int| 0u32).push(offset).push(count),
                seq![count],
            )
        }
}

/// The arguments that change from run to run: the addresses.
pub open spec fn program_dynamic(tensors: int) -> DynamicArgs {
    DynamicArgs {
        writer: seq![0usize],
        reader: Seq::new(tensors as nat, |i: int| i as usize),
        compute: Seq::empty(),
    }
}

/// The leaves of a graph are as many as were counted.
proof fn lemma_leaves(nodes: Seq<Node>, n: int)
    requires
        0 <= n <= nodes.len(),
    ensures
        reader::leaves(nodes, n).len() == graph::leaves_before(nodes, n),
        reader::tensor_count(reader::leaves(nodes, n)) == graph::inputs_before(nodes, n),
    decreases n,
{
    if n > 0 {
        lemma_leaves(nodes, n - 1);
        let before = reader::leaves(nodes, n - 1);
        if nodes[n - 1].kind.is_leaf() {
            let after = reader::leaves(nodes, n);
            lemma_tensors_prefix(before, after, before.len() as int);
        }
    }
}

proof fn lemma_tensors_prefix(a: Seq<Leaf>, b: Seq<Leaf>, n: int)
    requires
        0 <= n <= a.len(),
        n <= b.len(),
        forall|i: int| 0 <= i < n ==> #[trigger] a[i] == b[i],
    ensures
        reader::tensors_before(a, n) == reader::tensors_before(b, n),
    decreases n,
{
    if n > 0 {
        lemma_tensors_prefix(a, b, n - 1);
    }
}

fn find_wide(nodes: &[FusedElementwiseNode]) -> (r: Result<bool, Error>)
    ensures
        ({
            let g = executable::nodes_view(nodes@);
            let n = g.len() as int;
            let wide = error::first_refusal(0, n, wide_checks(g));
            match r {
                Ok(b) => wide is None && b == any_wide(g, n),
                Err(e) => wide == Some(e@),
            }
        }),
{
    let ghost g = executable::nodes_view(nodes@);
    let n: usize = nodes.len();
    for i in 0..n
        invariant
            n == nodes@.len(),
            g == executable::nodes_view(nodes@),
            !any_wide(g, i as int),
            forall|j: int| 0 <= j < i ==> #[trigger] wide_checks(g)(j) is None,
    {
        proof {
            error::lemma_first_refusal_skip(0, i as int, n as int, wide_checks(g));
        }
        assert(g[i as int] == nodes@[i as int]@);
        let dtype = graph::node_dtype(&nodes[i])?;
        assert(wide_checks(g)(i as int) is None);
        if kinds::is_wide_dtype(dtype) {
            proof {
                assert(graph::node_refusal(g[i as int]) is None);
                assert(any_wide(g, n as int));
                assert forall|j: int| 0 <= j < n implies #[trigger] wide_checks(g)(j) is None by {
                    if j > i {
                        assert(graph::node_refusal(g[i as int]) is None);
                        assert(any_wide(g, j));
                    }
                }
                error::lemma_first_refusal_none(0, n as int, wide_checks(g));
            }
            return Ok(true);
        }
    }
    proof {
        error::lemma_first_refusal_none(0, n as int, wide_checks(g));
    }
    Ok(false)
}

fn count_leaves(nodes: &[FusedElementwiseNode]) -> (r: (usize, usize))
    ensures
        ({
            let g = executable::nodes_view(nodes@);
            &&& r.0 == graph::leaf_count(g)
            &&& r.1 == graph::inputs_before(g, g.len() as int)
            &&& r.1 <= r.0 <= nodes@.len()
        }),
{
    let ghost g = executable::nodes_view(nodes@);
    let mut leaves: usize = 0;
    let mut tensors: usize = 0;
    for i in 0..nodes.len()
        invariant
            g == executable::nodes_view(nodes@),
            leaves == graph::leaves_before(g, i as int),
            tensors == graph::inputs_before(g, i as int),
            tensors <= leaves <= i,
    {
        assert(g[i as int] == nodes@[i as int]@);
        if nodes[i].kind.leaf() {
            leaves = leaves + 1;
        }
        if nodes[i].kind == FusedElementwiseKind::Input {
            tensors = tensors + 1;
        }
    }
    (leaves, tensors)
}

fn list_cbs(
    list: &[Leaf],
    intermediate_cbs: &[(u32, DType)],
    output_dtype: DType,
    tiles: usize,
) -> (r: Vec<KernelCb>)
    ensures
        r@ == (list@.map_values(|l: Leaf| KernelCb::sized(l.cb as usize, l.dtype, tiles))
            + intermediate_cbs@.map_values(
            |p: (u32, DType)| KernelCb::sized(p.0 as usize, p.1, tiles),
        )).push(KernelCb::sized(16, output_dtype, tiles)),
{
    let ghost first = list@.map_values(|l: Leaf| KernelCb::sized(l.cb as usize, l.dtype, tiles));
    let ghost second = intermediate_cbs@.map_values(
        |p: (u32, DType)| KernelCb::sized(p.0 as usize, p.1, tiles),
    );
    let mut out: Vec<KernelCb> = Vec::new();
    for i in 0..list.len()
        invariant
            first == list@.map_values(|l: Leaf| KernelCb::sized(l.cb as usize, l.dtype, tiles)),
            out@ == first.take(i as int),
    {
        out.push(KernelCb::new(list[i].cb as usize, list[i].dtype).with_tiles(tiles));
        assert(out@ =~= first.take(i + 1));
    }
    assert(out@ =~= first + second.take(0));
    for i in 0..intermediate_cbs.len()
        invariant
            second == intermediate_cbs@.map_values(
                |p: (u32, DType)| KernelCb::sized(p.0 as usize, p.1, tiles),
            ),
            out@ == first + second.take(i as int),
    {
        let (cb, dtype) = intermediate_cbs[i];
        out.push(KernelCb::new(cb as usize, dtype).with_tiles(tiles));
        assert(out@ =~= first + second.take(i + 1));
    }
    assert(second.take(intermediate_cbs@.len() as int) =~= second);
    out.push(KernelCb::new(16, output_dtype).with_tiles(tiles));
    out
}

/// Builds the program of a graph.
pub fn fused_eltwise_program(sources: &FusedSources, key: &FusedEltwiseProgramKey) -> (r: Result<
    LoweredProgram,
    Error,
>)
    requires
        emit::complete(executable::nodes_view(key.nodes@)),
    ensures
        ({
            let g = executable::nodes_view(key.nodes@);
            let n = g.len() as int;
            let tensors = graph::inputs_before(g, n);
            match r {
                Ok(p) => {
                    &&& program_refusal(key.cores@, g) is None
                    &&& p.reader_kernel@ == reader::reader_text(reader::leaves(g, n))
                    &&& p.compute_kernel@ == emit::compute_text(*sources, g)
                    &&& p.writer_kernel@ == sources.writer@
                    &&& p.is_uniform()
                    &&& p.name@ == "fused_eltwise_"@ + text::dec(tensors) + "_"@ + text::dec(n)
                    &&& p.compile@ == (lowering::Config {
                        dst_accum_mode: kinds::is_wide(key.output_dtype) || any_wide(g, n),
                        dst_full_sync: op_count(g) > 1,
                        ..lowering::plain_config(program_cbs(g, key.output_dtype))
                    })
                    &&& lowering::assigns(
                        p.runtime_args,
                        key.cores@,
                        program_args(key.cores@, key.tile_count, tensors),
                        0,
                        program_dynamic(tensors),
                    )
                },
                Err(e) => program_refusal(key.cores@, g) == Some(e@),
            }
        }),
{
    let ghost g = executable::nodes_view(key.nodes@);
    let ghost n = g.len() as int;
    let nodes = key.nodes.as_slice();
    let (node_cbs, intermediate_cbs) = graph::cb_plan(nodes)?;
    let (leaf_count, input_count) = count_leaves(nodes);
    proof {
        lemma_leaves(g, n);
    }
    let mut addresses: Vec<u32> = Vec::new();
    let mut reader_dynamic: Vec<usize> = Vec::new();
    for i in 0..input_count
        invariant
            addresses@ == Seq::new(i as nat, |j: int| 0u32),
            reader_dynamic@ == Seq::new(i as nat, |j: int| j as usize),
    {
        addresses.push(0);
        reader_dynamic.push(i);
        assert(addresses@ =~= Seq::new((i + 1) as nat, |j: int| 0u32));
        assert(reader_dynamic@ =~= Seq::new((i + 1) as nat, |j: int| j as usize));
    }
    let writer = Section::ranged(vec![0u32]);
    let reader = Section::ranged(addresses);
    let compute = Section::counted(Vec::new());
    let writer_dynamic: Vec<usize> = vec![0usize];
    let ghost dynamic = DynamicArgs {
        writer: writer_dynamic@,
        reader: reader_dynamic@,
        compute: Seq::empty(),
    };
    let runtime_args = lowering::lower_split(
        key.cores.as_slice(),
        key.tile_count,
        0,
        &writer,
        &reader,
        &compute,
        writer_dynamic,
        reader_dynamic,
        Vec::new(),
    )?;
    proof {
        let tensors = input_count as int;
        let of = lowering::split_args(key.cores@, key.tile_count, writer, reader, compute);
        let want = program_args(key.cores@, key.tile_count, tensors);
        assert forall|j: int| #[trigger] of(j) == want(j) by {
            assert(of(j).0 =~= want(j).0);
            assert(of(j).1 =~= want(j).1);
            assert(of(j).2 =~= want(j).2);
        }
        assert(of =~= want);
        assert(dynamic.writer =~= program_dynamic(tensors).writer);
        assert(dynamic.reader =~= program_dynamic(tensors).reader);
        assert(dynamic.compute =~= program_dynamic(tensors).compute);
    }
    let leaves = reader::fused_leaf_nodes(nodes, node_cbs.as_slice())?;
    let ops: usize = nodes.len() - leaf_count;
    let tiles: usize = if ops > 1 {
        4
    } else {
        2
    };
    let cbs = list_cbs(
        leaves.as_slice(),
        intermediate_cbs.as_slice(),
        key.output_dtype,
        tiles,
    );
    let any: bool = find_wide(nodes)?;
    let reader_kernel = reader::reader_source(leaves.as_slice());
    let compute_kernel = emit::compute_source(sources, nodes)?;
    let mut compile = CompileConfig::plain(cbs);
    compile.dst_accum_mode = kinds::is_wide_dtype(key.output_dtype) || any;
    compile.dst_full_sync = ops > 1;
    Ok(
        LoweredProgram::uniform(
            reader_kernel,
            compute_kernel,
            sources.writer.clone(),
            text::cat4(
                "fused_eltwise_",
                text::decimal_usize(input_count).as_str(),
                "_",
                text::decimal_usize(nodes.len()).as_str(),
            ),
            compile,
            runtime_args,
        ),
    )
}

/// The kernel of a graph with the addresses of one run.
#[derive(Debug)]
pub struct FusedEltwiseKernel {
    pub input_addrs: Vec<u32>,
    pub output_addr: u32,
    pub key: FusedEltwiseProgramKey,
}

impl Kernel for FusedEltwiseKernel {
    open spec fn reader_arg(&self, core: CoreCoord, index: int) -> Option<u32> {
        if 0 <= index < self.input_addrs@.len() {
            Some(self.input_addrs@[index])
        } else {
            None
        }
    }

    open spec fn writer_arg(&self, core: CoreCoord, index: int) -> Option<u32> {
        if index == 0 {
            Some(self.output_addr)
        } else {
            None
        }
    }

    open spec fn compute_arg(&self, core: CoreCoord, index: int) -> Option<u32> {
        None
    }

    fn reader_runtime_arg(&self, core: CoreCoord, index: usize) -> (r: Option<u32>) {
        if index < self.input_addrs.len() {
            Some(self.input_addrs[index])
        } else {
            None
        }
    }

    fn writer_runtime_arg(&self, core: CoreCoord, index: usize) -> (r: Option<u32>) {
        if index == 0 {
            Some(self.output_addr)
        } else {
            None
        }
    }

    fn compute_runtime_arg(&self, core: CoreCoord, index: usize) -> (r: Option<u32>) {
        None
    }
}

/// A checked graph: its program, the tensors it reads, and the tensor it writes.
#[derive(Debug)]
pub struct EltwiseRequest<'a> {
    pub key: FusedEltwiseProgramKey,
    pub input_reads: Vec<&'a DramBuffer>,
    pub output_tiles: usize,
    pub output_shape: Vec<usize>,
}

/// Why a graph cannot be run on tensors.
pub open spec fn request_refusal<'a>(
    available: Seq<CoreCoord>,
    nodes: Seq<Node>,
    buffers: Seq<&'a DramBuffer>,
    shape: Seq<usize>,
) -> Option<error::Refusal> {
    if inputs::graph_refusal(nodes, buffers, shape) is Some {
        inputs::graph_refusal(nodes, buffers, shape)
    } else if dram::tile_count(shape)->0 > u32::MAX {
        convert::u32_refusal(dram::tile_count(shape)->0, "tile count"@)
    } else {
        kernel::select_refusal(available)
    }
}

/// A graph in order names few operands.
proof fn lemma_ordered_complete(nodes: Seq<Node>, k: int)
    requires
        inputs::ordered(nodes),
        0 <= k <= nodes.len(),
    ensures
        emit::named(nodes, k) <= 2 * k,
    decreases k,
{
    if k > 0 {
        lemma_ordered_complete(nodes, k - 1);
        assert(nodes[k - 1].inputs.len() == nodes[k - 1].kind.operands());
    }
}

/// Checks a graph against the tensors that it reads and plans its program.
pub fn eltwise_request<'a>(
    available: &[CoreCoord],
    external_inputs: &[&'a DramBuffer],
    nodes: Vec<FusedElementwiseNode>,
    shape: &[usize],
) -> (r: Result<EltwiseRequest<'a>, Error>)
    ensures
        ({
            let g = executable::nodes_view(nodes@);
            match r {
                Ok(request) => {
                    &&& request_refusal(available@, g, external_inputs@, shape@) is None
                    &&& request.input_reads@ == inputs::reads(
                        g,
                        external_inputs@,
                        g.len() as int,
                    )
                    &&& request.output_tiles == dram::tile_count(shape@)->0
                    &&& request.output_shape@ == dram::tiled_shape(shape@)
                    &&& request.key.cores@ == kernel::chosen_cores(
                        available@,
                        request.output_tiles as int,
                    )
                    &&& request.key.tile_count == request.output_tiles
                    &&& request.key.output_dtype == graph::node_type(g.last())
                    &&& request.key.nodes@ == nodes@
                    &&& emit::complete(g)
                },
                Err(e) => request_refusal(available@, g, external_inputs@, shape@) == Some(e@),
            }
        }),
{
    let ghost g = executable::nodes_view(nodes@);
    let input_reads = inputs::validate_and_collect_inputs(
        external_inputs,
        nodes.as_slice(),
        shape,
    )?;
    proof {
        lemma_ordered_complete(g, g.len() as int);
        assert(graph::type_checks(g)(g.len() - 1) is None);
    }
    let output_tiles: usize = dram::tiled_shape_tile_count(shape)?;
    let tile_count: u32 = convert::to_u32(output_tiles, "tile count")?;
    let cores = kernel::select_worker_cores(available, output_tiles)?;
    let output_dtype = graph::node_dtype(&nodes[nodes.len() - 1])?;
    let output_shape = dram::tiled_allocation_shape(shape)?;
    Ok(
        EltwiseRequest {
            key: FusedEltwiseProgramKey { cores, tile_count, output_dtype, nodes },
            input_reads,
            output_tiles,
            output_shape,
        },
    )
}

/// Why the address of input `i` is refused.
pub open spec fn address_checks<'a>(reads: Seq<&'a DramBuffer>) -> spec_fn(int) -> Option<
    error::Refusal,
> {
    |i: int|
        convert::u32_refusal(reads[i].addr as int, "input["@ + text::dec(i) + "] address"@)
}

/// Why the addresses of a run are refused.
pub open spec fn kernel_refusal<'a>(reads: Seq<&'a DramBuffer>, output_addr: int) -> Option<
    error::Refusal,
> {
    let addresses = error::first_refusal(0, reads.len() as int, address_checks(reads));
    if addresses is Some {
        addresses
    } else {
        convert::u32_refusal(output_addr, "output address"@)
    }
}

/// The kernel of a request, once its output has an address.
pub fn eltwise_kernel(request: EltwiseRequest<'_>, output_addr: u64) -> (r: Result<
    FusedEltwiseKernel,
    Error,
>)
    ensures
        match r {
            Ok(k) => {
                &&& kernel_refusal(request.input_reads@, output_addr as int) is None
                &&& k.key == request.key
                &&& k.output_addr == output_addr
                &&& k.input_addrs@ == request.input_reads@.map_values(
                    |b: &DramBuffer| b.addr as u32,
                )
            },
            Err(e) => kernel_refusal(request.input_reads@, output_addr as int) == Some(e@),
        },
{
    let EltwiseRequest { key, input_reads, .. } = request;
    let n: usize = input_reads.len();
    let ghost all = input_reads@.map_values(|b: &DramBuffer| b.addr as u32);
    let mut input_addrs: Vec<u32> = Vec::new();
    for i in 0..n
        invariant
            n == input_reads@.len(),
            input_reads@ == request.input_reads@,
            all == input_reads@.map_values(|b: &DramBuffer| b.addr as u32),
            input_addrs@ == all.take(i as int),
            forall|j: int| 0 <= j < i ==> #[trigger] address_checks(input_reads@)(j) is None,
    {
        proof {
            error::lemma_first_refusal_skip(
                0,
                i as int,
                n as int,
                address_checks(input_reads@),
            );
        }
        let label = text::cat3("input[", text::decimal_usize(i).as_str(), "] address");
        let addr: u32 = convert::address_u32(input_reads[i].addr, label.as_str())?;
        input_addrs.push(addr);
        assert(input_addrs@ =~= all.take(i + 1));
        assert(address_checks(input_reads@)(i as int) is None);
    }
    proof {
        error::lemma_first_refusal_none(0, n as int, address_checks(input_reads@));
    }
    assert(input_addrs@ =~= all);
    let output_addr: u32 = convert::address_u32(output_addr, "output address")?;
    Ok(FusedEltwiseKernel { input_addrs, output_addr, key })
}

} // verus!
