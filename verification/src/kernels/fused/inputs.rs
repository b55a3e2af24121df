//! Checks of a graph against the tensors that it reads.

use vstd::prelude::*;
use crate::arith;
use crate::dram;
use crate::dram::{DType, DramBuffer};
use crate::error;
use crate::error::Error;
use crate::executable;
use crate::executable::{FusedElementwiseKind, FusedElementwiseNode, Node};
use crate::kernels::fused::graph;
use crate::kernels::fused::kinds;
use crate::text;

verus! {

pub const MAX_FUSED_INPUTS: usize = 8;

pub const MAX_FUSED_NODES: usize = 16;

/// Why the tensor that node `i` reads is refused.
pub open spec fn input_refusal<'a>(
    n: Node,
    i: int,
    buffers: Seq<&'a DramBuffer>,
    shape: Seq<usize>,
) -> Option<error::Refusal> {
    let d = graph::node_type(n);
    let b = buffers[n.input_index as int];
    let at = kinds::node_label(i);
    if !kinds::is_convertible(d) {
        Some(
            error::invalid(
                at + "input dtype "@ + d.shown() + " is not supported by fused eltwise"@,
            ),
        )
    } else if n.input_index >= buffers.len() {
        Some(
            error::invalid(
                at + "input index "@ + text::dec(n.input_index as int) + " is out of bounds for "@
                    + text::dec(buffers.len() as int) + " inputs"@,
            ),
        )
    } else if b.dtype != d {
        Some(
            error::invalid(
                at + "input dtype mismatch: node "@ + d.shown() + ", input "@ + b.dtype.shown(),
            ),
        )
    } else if n.inputs.len() != 0 {
        Some(error::invalid(at + "input node must not have operands"@))
    } else if n.single_tile_broadcast {
        if b.num_tiles != 1 {
            Some(
                error::invalid(
                    at + "single-tile broadcast input has "@ + text::dec(b.num_tiles as int)
                        + " tiles, expected 1"@,
                ),
            )
        } else {
            None
        }
    } else if b.shape@ != dram::tiled_shape(shape) {
        Some(
            error::invalid(
                at + "input allocation shape mismatch: got "@ + text::list_text(
                    arith::ints(b.shape@),
                ) + ", expected "@ + text::list_text(arith::ints(dram::tiled_shape(shape)))
                    + " for logical shape "@ + text::list_text(arith::ints(shape)),
            ),
        )
    } else if b.num_tiles != dram::tile_count(shape)->0 {
        Some(
            error::invalid(
                at + "input tile count mismatch: got "@ + text::dec(b.num_tiles as int)
                    + ", expected "@ + text::dec(dram::tile_count(shape)->0),
            ),
        )
    } else {
        None
    }
}

/// Why a node is refused for its kind.
pub open spec fn kind_refusal<'a>(
    n: Node,
    i: int,
    buffers: Seq<&'a DramBuffer>,
    shape: Seq<usize>,
) -> Option<error::Refusal> {
    let at = kinds::node_label(i);
    match n.kind {
        FusedElementwiseKind::Input => input_refusal(n, i, buffers, shape),
        FusedElementwiseKind::Constant => if !kinds::is_convertible(graph::node_type(n)) {
            Some(
                error::invalid(
                    at + "constant dtype "@ + graph::node_type(n).shown()
                        + " is not supported by fused eltwise"@,
                ),
            )
        } else if n.inputs.len() != 0 {
            Some(error::invalid(at + "constant node must not have operands"@))
        } else {
            None
        },
        _ => if n.inputs.len() != n.kind.operands() {
            Some(
                error::invalid(
                    at + n.kind.shown() + " expected "@ + text::dec(n.kind.operands() as int)
                        + " operands, got "@ + text::dec(n.inputs.len() as int),
                ),
            )
        } else {
            None
        },
    }
}

/// Why operand `j` of node `i` is refused: it must come earlier.
pub open spec fn prior_checks(n: Node, i: int) -> spec_fn(int) -> Option<error::Refusal> {
    |j: int|
        if n.inputs[j] >= i {
            Some(
                error::invalid(
                    kinds::node_label(i) + "references non-prior input node "@ + text::dec(
                        n.inputs[j] as int,
                    ),
                ),
            )
        } else {
            None
        }
}

/// The element types of the operands of a node.
pub open spec fn operand_types(nodes: Seq<Node>, i: int) -> Seq<DType> {
    nodes[i].inputs.map_values(|n: u32| graph::node_type(nodes[n as int]))
}

/// Why node `i` is refused.
pub open spec fn node_checks<'a>(
    nodes: Seq<Node>,
    buffers: Seq<&'a DramBuffer>,
    shape: Seq<usize>,
) -> spec_fn(int) -> Option<error::Refusal> {
    |i: int|
        {
            let n = nodes[i];
            let prior = error::first_refusal(0, n.inputs.len() as int, prior_checks(n, i));
            if graph::node_refusal(n) is Some {
                graph::node_refusal(n)
            } else if kind_refusal(n, i, buffers, shape) is Some {
                kind_refusal(n, i, buffers, shape)
            } else if prior is Some {
                prior
            } else {
                n.kind.type_refusal(i, operand_types(nodes, i), graph::node_type(n))
            }
        }
}

/// The tensors that the first `n` nodes read.
pub open spec fn reads<'a>(nodes: Seq<Node>, buffers: Seq<&'a DramBuffer>, n: int) -> Seq<
    &'a DramBuffer,
>
    decreases n,
{
    if n <= 0 {
        Seq::empty()
    } else if nodes[n - 1].kind == FusedElementwiseKind::Input {
        reads(nodes, buffers, n - 1).push(buffers[nodes[n - 1].input_index as int])
    } else {
        reads(nodes, buffers, n - 1)
    }
}

/// Why a graph is refused.
pub open spec fn graph_refusal<'a>(
    nodes: Seq<Node>,
    buffers: Seq<&'a DramBuffer>,
    shape: Seq<usize>,
) -> Option<error::Refusal> {
    let n = nodes.len() as int;
    let checks = error::first_refusal(0, n, node_checks(nodes, buffers, shape));
    if buffers.len() > MAX_FUSED_INPUTS {
        Some(
            error::invalid(
                "fused eltwise supports at most 8 external inputs, got "@ + text::dec(
                    buffers.len() as int,
                ),
            ),
        )
    } else if n == 0 || n > MAX_FUSED_NODES {
        Some(error::invalid("fused eltwise requires 1..=16 nodes, got "@ + text::dec(n)))
    } else if nodes.last().kind.is_leaf() {
        Some(
            error::invalid(
                "fused eltwise root node must be the final operation, got "@
                    + nodes.last().kind.shown(),
            ),
        )
    } else if dram::tile_count_refusal(shape) is Some {
        dram::tile_count_refusal(shape)
    } else if checks is Some {
        checks
    } else if reads(nodes, buffers, n).len() > MAX_FUSED_INPUTS {
        Some(
            error::invalid(
                "fused eltwise supports at most 8 leaf inputs, got "@ + text::dec(
                    reads(nodes, buffers, n).len() as int,
                ),
            ),
        )
    } else {
        None
    }
}

fn validate_input(
    node: &FusedElementwiseNode,
    index: usize,
    dtype: DType,
    external_inputs: &[&DramBuffer],
    expected_shape: &[usize],
    expected_tiles: usize,
    shape: &[usize],
) -> (r: Result<(), Error>)
    requires
        dtype == graph::node_type(node@),
        expected_shape@ == dram::tiled_shape(shape@),
        dram::tile_count(shape@) == Some(expected_tiles as int),
    ensures
        match r {
            Ok(_) => {
                &&& input_refusal(node@, index as int, external_inputs@, shape@) is None
                &&& node.input_index < external_inputs@.len()
            },
            Err(e) => input_refusal(node@, index as int, external_inputs@, shape@) == Some(e@),
        },
{
    let at = kinds::label_node(index);
    if !kinds::is_supported_convert_dtype(dtype) {
        return Err(
            error::invalid_input(
                text::cat4(
                    at.as_str(),
                    "input dtype ",
                    dtype.name(),
                    " is not supported by fused eltwise",
                ),
            ),
        );
    }
    if node.input_index as usize >= external_inputs.len() {
        return Err(
            error::invalid_input(
                text::cat6(
                    at.as_str(),
                    "input index ",
                    text::decimal_u32(node.input_index).as_str(),
                    " is out of bounds for ",
                    text::decimal_usize(external_inputs.len()).as_str(),
                    " inputs",
                ),
            ),
        );
    }
    let buffer: &DramBuffer = external_inputs[node.input_index as usize];
    if buffer.dtype != dtype {
        return Err(
            error::invalid_input(
                text::cat5(
                    at.as_str(),
                    "input dtype mismatch: node ",
                    dtype.name(),
                    ", input ",
                    buffer.dtype.name(),
                ),
            ),
        );
    }
    if node.input_nodes.len() != 0 {
        return Err(
            error::invalid_input(text::cat2(at.as_str(), "input node must not have operands")),
        );
    }
    if node.single_tile_broadcast {
        if buffer.num_tiles != 1 {
            return Err(
                error::invalid_input(
                    text::cat4(
                        at.as_str(),
                        "single-tile broadcast input has ",
                        text::decimal_usize(buffer.num_tiles).as_str(),
                        " tiles, expected 1",
                    ),
                ),
            );
        }
        return Ok(());
    }
    if !arith::same_usizes(buffer.shape.as_slice(), expected_shape) {
        return Err(
            error::invalid_input(
                text::cat7(
                    at.as_str(),
                    "input allocation shape mismatch: got ",
                    text::shape_text(buffer.shape.as_slice()).as_str(),
                    ", expected ",
                    text::shape_text(expected_shape).as_str(),
                    " for logical shape ",
                    text::shape_text(shape).as_str(),
                ),
            ),
        );
    }
    if buffer.num_tiles != expected_tiles {
        return Err(
            error::invalid_input(
                text::cat5(
                    at.as_str(),
                    "input tile count mismatch: got ",
                    text::decimal_usize(buffer.num_tiles).as_str(),
                    ", expected ",
                    text::decimal_usize(expected_tiles).as_str(),
                ),
            ),
        );
    }
    Ok(())
}

fn validate_kind(
    node: &FusedElementwiseNode,
    index: usize,
    dtype: DType,
    external_inputs: &[&DramBuffer],
    expected_shape: &[usize],
    expected_tiles: usize,
    shape: &[usize],
) -> (r: Result<(), Error>)
    requires
        dtype == graph::node_type(node@),
        expected_shape@ == dram::tiled_shape(shape@),
        dram::tile_count(shape@) == Some(expected_tiles as int),
    ensures
        match r {
            Ok(_) => {
                &&& kind_refusal(node@, index as int, external_inputs@, shape@) is None
                &&& node.kind == FusedElementwiseKind::Input ==> node.input_index
                    < external_inputs@.len()
                &&& node.input_nodes@.len() == node.kind.operands()
            },
            Err(e) => kind_refusal(node@, index as int, external_inputs@, shape@) == Some(e@),
        },
{
    match node.kind {
        FusedElementwiseKind::Input => validate_input(
            node,
            index,
            dtype,
            external_inputs,
            expected_shape,
            expected_tiles,
            shape,
        ),
        FusedElementwiseKind::Constant => {
            let at = kinds::label_node(index);
            if !kinds::is_supported_convert_dtype(dtype) {
                return Err(
                    error::invalid_input(
                        text::cat4(
                            at.as_str(),
                            "constant dtype ",
                            dtype.name(),
                            " is not supported by fused eltwise",
                        ),
                    ),
                );
            }
            if node.input_nodes.len() != 0 {
                return Err(
                    error::invalid_input(
                        text::cat2(at.as_str(), "constant node must not have operands"),
                    ),
                );
            }
            Ok(())
        },
        _ => {
            let expected: usize = node.kind.arity();
            if node.input_nodes.len() != expected {
                return Err(
                    error::invalid_input(
                        text::cat6(
                            kinds::label_node(index).as_str(),
                            node.kind.name().as_str(),
                            " expected ",
                            text::decimal_usize(expected).as_str(),
                            " operands, got ",
                            text::decimal_usize(node.input_nodes.len()).as_str(),
                        ),
                    ),
                );
            }
            Ok(())
        },
    }
}

/// Checks that the operands of a node come earlier, and gives their types.
fn prior_dtypes(
    nodes: &[FusedElementwiseNode],
    index: usize,
    dtypes: &Vec<DType>,
) -> (r: Result<Vec<DType>, Error>)
    requires
        index < nodes@.len(),
        dtypes@.len() >= index,
        forall|j: int|
            0 <= j < index ==> #[trigger] dtypes@[j] == graph::node_type(
                executable::nodes_view(nodes@)[j],
            ),
    ensures
        ({
            let g = executable::nodes_view(nodes@);
            let n = g[index as int];
            let prior = error::first_refusal(
                0,
                n.inputs.len() as int,
                prior_checks(n, index as int),
            );
            match r {
                Ok(v) => prior is None && v@ == operand_types(g, index as int),
                Err(e) => prior == Some(e@),
            }
        }),
{
    let ghost g = executable::nodes_view(nodes@);
    let node = &nodes[index];
    let ghost check = prior_checks(g[index as int], index as int);
    assert(g[index as int] == node@);
    let m: usize = node.input_nodes.len();
    let mut out: Vec<DType> = Vec::new();
    for j in 0..m
        invariant
            m == node.input_nodes@.len(),
            node@ == g[index as int],
            g == executable::nodes_view(nodes@),
            index < nodes@.len(),
            dtypes@.len() >= index,
            check == prior_checks(g[index as int], index as int),
            forall|b: int| 0 <= b < index ==> #[trigger] dtypes@[b] == graph::node_type(g[b]),
            forall|b: int| 0 <= b < j ==> #[trigger] check(b) is None,
            out@ == operand_types(g, index as int).take(j as int),
    {
        proof {
            error::lemma_first_refusal_skip(0, j as int, m as int, check);
        }
        let input: u32 = node.input_nodes[j];
        if input as usize >= index {
            return Err(
                error::invalid_input(
                    text::cat3(
                        kinds::label_node(index).as_str(),
                        "references non-prior input node ",
                        text::decimal_u32(input).as_str(),
                    ),
                ),
            );
        }
        out.push(dtypes[input as usize]);
        assert(out@ =~= operand_types(g, index as int).take(j + 1));
        assert(check(j as int) is None);
    }
    proof {
        error::lemma_first_refusal_none(0, m as int, check);
    }
    assert(out@ =~= operand_types(g, index as int));
    Ok(out)
}

/// Whether all nodes name as many operands as they take, all of them earlier.
pub open spec fn ordered(nodes: Seq<Node>) -> bool {
    forall|i: int|
        0 <= i < nodes.len() ==> {
            &&& (#[trigger] nodes[i]).inputs.len() == nodes[i].kind.operands()
            &&& forall|j: int| 0 <= j < nodes[i].inputs.len() ==> #[trigger] nodes[i].inputs[j] < i
        }
}

/// Checks a graph, and collects the tensors that it reads.
pub fn validate_and_collect_inputs<'a>(
    external_inputs: &[&'a DramBuffer],
    nodes: &[FusedElementwiseNode],
    shape: &[usize],
) -> (r: Result<Vec<&'a DramBuffer>, Error>)
    ensures
        ({
            let g = executable::nodes_view(nodes@);
            match r {
                Ok(v) => {
                    &&& graph_refusal(g, external_inputs@, shape@) is None
                    &&& v@ == reads(g, external_inputs@, g.len() as int)
                    &&& graph::typed(g)
                    &&& ordered(g)
                },
                Err(e) => graph_refusal(g, external_inputs@, shape@) == Some(e@),
            }
        }),
{
    let ghost g = executable::nodes_view(nodes@);
    let ghost buffers = external_inputs@;
    if external_inputs.len() > MAX_FUSED_INPUTS {
        return Err(
            error::invalid_input(
                text::cat2(
                    "fused eltwise supports at most 8 external inputs, got ",
                    text::decimal_usize(external_inputs.len()).as_str(),
                ),
            ),
        );
    }
    let n: usize = nodes.len();
    if n == 0 || n > MAX_FUSED_NODES {
        return Err(
            error::invalid_input(
                text::cat2(
                    "fused eltwise requires 1..=16 nodes, got ",
                    text::decimal_usize(n).as_str(),
                ),
            ),
        );
    }
    assert(g.last() == nodes@[n - 1]@);
    if nodes[n - 1].kind.leaf() {
        return Err(
            error::invalid_input(
                text::cat2(
                    "fused eltwise root node must be the final operation, got ",
                    nodes[n - 1].kind.name().as_str(),
                ),
            ),
        );
    }
    let expected_tiles: usize = dram::tiled_shape_tile_count(shape)?;
    let expected_shape = dram::tiled_allocation_shape(shape)?;
    let mut input_reads: Vec<&'a DramBuffer> = Vec::new();
    let mut dtypes: Vec<DType> = Vec::new();
    for i in 0..n
        invariant
            n == nodes@.len(),
            1 <= n <= MAX_FUSED_NODES,
            g == executable::nodes_view(nodes@),
            buffers == external_inputs@,
            buffers.len() <= MAX_FUSED_INPUTS,
            !g.last().kind.is_leaf(),
            dram::tile_count_refusal(shape@) is None,
            dram::tile_count(shape@) == Some(expected_tiles as int),
            expected_shape@ == dram::tiled_shape(shape@),
            input_reads@ == reads(g, buffers, i as int),
            input_reads@.len() <= i,
            dtypes@.len() == i,
            forall|j: int| 0 <= j < i ==> #[trigger] dtypes@[j] == graph::node_type(g[j]),
            forall|j: int| 0 <= j < i ==> #[trigger] graph::type_checks(g)(j) is None,
            forall|j: int| 0 <= j < i ==> #[trigger] node_checks(g, buffers, shape@)(j) is None,
            forall|j: int|
                0 <= j < i ==> {
                    &&& (#[trigger] g[j]).inputs.len() == g[j].kind.operands()
                    &&& forall|b: int| 0 <= b < g[j].inputs.len() ==> #[trigger] g[j].inputs[b] < j
                },
    {
        proof {
            error::lemma_first_refusal_skip(
                0,
                i as int,
                n as int,
                node_checks(g, buffers, shape@),
            );
        }
        let node = &nodes[i];
        assert(g[i as int] == node@);
        let dtype = graph::node_dtype(node)?;
        validate_kind(
            node,
            i,
            dtype,
            external_inputs,
            expected_shape.as_slice(),
            expected_tiles,
            shape,
        )?;
        if node.kind == FusedElementwiseKind::Input {
            input_reads.push(external_inputs[node.input_index as usize]);
        }
        let input_dtypes = prior_dtypes(nodes, i, &dtypes)?;
        proof {
            let check = prior_checks(g[i as int], i as int);
            error::lemma_first_refusal_none(0, g[i as int].inputs.len() as int, check);
            assert forall|b: int| 0 <= b < g[i as int].inputs.len() implies #[trigger] g[i as int].inputs[b]
                < i by {
                assert(check(b) is None);
            }
        }
        node.kind.validate_dtypes(i, input_dtypes.as_slice(), dtype)?;
        dtypes.push(dtype);
        assert(node_checks(g, buffers, shape@)(i as int) is None);
        assert(graph::type_checks(g)(i as int) is None);
    }
    proof {
        error::lemma_first_refusal_none(0, n as int, node_checks(g, buffers, shape@));
    }
    if input_reads.len() > MAX_FUSED_INPUTS {
        return Err(
            error::invalid_input(
                text::cat2(
                    "fused eltwise supports at most 8 leaf inputs, got ",
                    text::decimal_usize(input_reads.len()).as_str(),
                ),
            ),
        );
    }
    Ok(input_reads)
}

} // verus!
