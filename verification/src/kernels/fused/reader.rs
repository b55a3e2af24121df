//! The source of the reader kernel of a graph.

use vstd::prelude::*;
use crate::dram::DType;
use crate::error;
use crate::error::Error;
use crate::executable;
use crate::executable::{FusedElementwiseKind, FusedElementwiseNode, Node};
use crate::kernels::fused::graph;
use crate::source;
use crate::text;

verus! {

/// A leaf of a graph: a tensor that is read, or a constant.
#[derive(Clone, Copy, Debug, PartialEq, Eq, Structural)]
pub struct Leaf {
    pub cb: u32,
    pub dtype: DType,
    pub input: bool,
    pub single_tile_broadcast: bool,
    pub packed_value: u32,
}

/// The leaf that node `i` is.
pub open spec fn leaf_of(nodes: Seq<Node>, i: int) -> Leaf {
    Leaf {
        cb: graph::cb_of(nodes, i) as u32,
        dtype: graph::node_type(nodes[i]),
        input: nodes[i].kind == FusedElementwiseKind::Input,
        single_tile_broadcast: nodes[i].single_tile_broadcast,
        packed_value: nodes[i].packed_value,
    }
}

/// The leaves among the first `n` nodes.
pub open spec fn leaves(nodes: Seq<Node>, n: int) -> Seq<Leaf>
    decreases n,
{
    if n <= 0 {
        Seq::empty()
    } else if nodes[n - 1].kind.is_leaf() {
        leaves(nodes, n - 1).push(leaf_of(nodes, n - 1))
    } else {
        leaves(nodes, n - 1)
    }
}

/// Why leaf `i` has no element type.
pub open spec fn leaf_checks(nodes: Seq<Node>) -> spec_fn(int) -> Option<error::Refusal> {
    |i: int|
        if nodes[i].kind.is_leaf() {
            graph::node_refusal(nodes[i])
        } else {
            None
        }
}

/// Collects the leaves of a graph.
pub fn fused_leaf_nodes(nodes: &[FusedElementwiseNode], node_cbs: &[u32]) -> (r: Result<
    Vec<Leaf>,
    Error,
>)
    requires
        node_cbs@ == graph::cbs(executable::nodes_view(nodes@)),
    ensures
        ({
            let g = executable::nodes_view(nodes@);
            let n = g.len() as int;
            match r {
                Ok(v) => error::first_refusal(0, n, leaf_checks(g)) is None && v@ == leaves(g, n),
                Err(e) => error::first_refusal(0, n, leaf_checks(g)) == Some(e@),
            }
        }),
{
    let ghost g = executable::nodes_view(nodes@);
    let n: usize = nodes.len();
    let mut out: Vec<Leaf> = Vec::new();
    for i in 0..n
        invariant
            n == nodes@.len(),
            g == executable::nodes_view(nodes@),
            node_cbs@ == graph::cbs(g),
            out@ == leaves(g, i as int),
            forall|j: int| 0 <= j < i ==> #[trigger] leaf_checks(g)(j) is None,
    {
        proof {
            error::lemma_first_refusal_skip(0, i as int, n as int, leaf_checks(g));
        }
        let node = &nodes[i];
        assert(g[i as int] == node@);
        if node.kind.leaf() {
            let dtype = graph::node_dtype(node)?;
            out.push(
                Leaf {
                    cb: node_cbs[i],
                    dtype,
                    input: node.kind == FusedElementwiseKind::Input,
                    single_tile_broadcast: node.single_tile_broadcast,
                    packed_value: node.packed_value,
                },
            );
        }
        assert(leaf_checks(g)(i as int) is None);
    }
    proof {
        error::lemma_first_refusal_none(0, n as int, leaf_checks(g));
    }
    Ok(out)
}

/// The number of tensors among the first `n` leaves.
pub open spec fn tensors_before(list: Seq<Leaf>, n: int) -> int
    decreases n,
{
    if n <= 0 {
        0
    } else {
        tensors_before(list, n - 1) + if list[n - 1].input {
            1int
        } else {
            0
        }
    }
}

pub open spec fn tensor_count(list: Seq<Leaf>) -> int {
    tensors_before(list, list.len() as int)
}

pub proof fn lemma_tensors(list: Seq<Leaf>, n: int)
    requires
        0 <= n <= list.len(),
    ensures
        0 <= tensors_before(list, n) <= n,
    decreases n,
{
    if n > 0 {
        lemma_tensors(list, n - 1);
    }
}

/// Counts the tensors among leaves.
pub fn count_tensors(list: &[Leaf]) -> (r: usize)
    ensures
        r == tensor_count(list@),
        r <= list@.len(),
{
    let mut total: usize = 0;
    for i in 0..list.len()
        invariant
            total == tensors_before(list@, i as int),
            total <= i,
    {
        if list[i].input {
            total = total + 1;
        }
    }
    total
}

/// The lines that `f` gives for `0`, ..., `n - 1`.
pub open spec fn gathered(f: spec_fn(int) -> Seq<Seq<char>>, n: int) -> Seq<Seq<char>>
    decreases n,
{
    if n <= 0 {
        Seq::empty()
    } else {
        gathered(f, n - 1) + f(n - 1)
    }
}

/// How the address of tensor `a` is taken from the arguments.
pub open spec fn load_lines() -> spec_fn(int) -> Seq<Seq<char>> {
    |a: int|
        seq![
            source::line2(
                "  uint32_t input_addr_"@,
                a,
                " = get_arg_val<uint32_t>("@,
                a,
                ");"@,
            ),
        ]
}

/// How leaf `t` is declared.
pub open spec fn declare_lines(list: Seq<Leaf>) -> spec_fn(int) -> Seq<Seq<char>> {
    |t: int|
        {
            let a = tensors_before(list, t);
            let cb = source::line2(
                "  constexpr uint32_t cb_leaf_"@,
                t,
                " = tt::CBIndex::c_"@,
                list[t].cb as int,
                ";"@,
            );
            if list[t].input {
                seq![
                    cb,
                    source::line1("  const InterleavedAddrGenFast<true> input_"@, a, " = {"@),
                    "    .bank_base_address = input_addr_"@ + text::dec(a)
                        + ", .page_size = get_tile_size(cb_leaf_"@ + text::dec(t)
                        + "), .data_format = get_dataformat(cb_leaf_"@ + text::dec(t) + "),"@,
                    "  };"@,
                ]
            } else {
                seq![cb]
            }
        }
}

/// How room is made for leaf `t`.
pub open spec fn reserve_lines() -> spec_fn(int) -> Seq<Seq<char>> {
    |t: int| seq![source::line1("    cb_reserve_back(cb_leaf_"@, t, ", 1);"@)]
}

/// How a tile of leaf `t` is read.
pub open spec fn read_lines(list: Seq<Leaf>) -> spec_fn(int) -> Seq<Seq<char>> {
    |t: int|
        if list[t].input {
            let tile = if list[t].single_tile_broadcast {
                "0"@
            } else {
                "offset + i"@
            };
            seq![
                "    noc_async_read_tile("@ + tile + ", input_"@ + text::dec(
                    tensors_before(list, t),
                ) + ", get_write_ptr(cb_leaf_"@ + text::dec(t) + "));"@,
            ]
        } else {
            Seq::empty()
        }
}

/// How a tile of leaf `t` is filled.
pub open spec fn fill_lines(list: Seq<Leaf>) -> spec_fn(int) -> Seq<Seq<char>> {
    |t: int|
        {
            let width = text::dec(list[t].dtype.width());
            if !list[t].input {
                seq![
                    "    fill_constant_tile(cb_leaf_"@ + text::dec(t) + ", "@ + text::dec(
                        list[t].packed_value as int,
                    ) + "u, "@ + width + ");"@,
                ]
            } else if list[t].single_tile_broadcast {
                let helper = if list[t].packed_value == 1 {
                    "replicate_first_column"@
                } else {
                    "replicate_first_element"@
                };
                seq!["    "@ + helper + "(cb_leaf_"@ + text::dec(t) + ", "@ + width + ");"@]
            } else {
                Seq::empty()
            }
        }
}

/// How leaf `t` is handed on.
pub open spec fn push_lines() -> spec_fn(int) -> Seq<Seq<char>> {
    |t: int| seq![source::line1("    cb_push_back(cb_leaf_"@, t, ", 1);"@)]
}

/// The part of the source that does not depend on the graph.
pub const READER_PRELUDE: &'static str = "#include <cstdint>\n\
    \n\
    namespace {\n\
    constexpr uint32_t TILE_R = 32;\n\
    constexpr uint32_t TILE_C = 32;\n\
    constexpr uint32_t FACE_R = 16;\n\
    constexpr uint32_t FACE_C = 16;\n\
    uint32_t tile_element_index(uint32_t row, uint32_t col) {\n\
    uint32_t face_row = row / FACE_R;\n\
    uint32_t face_col = col / FACE_C;\n\
    uint32_t row_in_face = row % FACE_R;\n\
    uint32_t col_in_face = col % FACE_C;\n\
    return ((face_row * 2 + face_col) * FACE_R * FACE_C) + row_in_face * FACE_C + col_in_face;\n\
    }\n\
    uint32_t repeated_word(uint32_t packed_value, uint32_t element_bytes) {\n\
    if (element_bytes == 1) {\n\
    uint32_t byte = packed_value & 0xffu;\n\
    return byte | (byte << 8) | (byte << 16) | (byte << 24);\n\
    }\n\
    if (element_bytes == 2) {\n\
    uint32_t half = packed_value & 0xffffu;\n\
    return half | (half << 16);\n\
    }\n\
    return packed_value;\n\
    }\n\
    void fill_constant_tile(uint32_t cb, uint32_t packed_value, uint32_t element_bytes) {\n\
    uint32_t l1_addr = get_write_ptr(cb);\n\
    volatile tt_l1_ptr uint32_t *ptr = reinterpret_cast<volatile tt_l1_ptr uint32_t *>(l1_addr);\n\
    uint32_t word = repeated_word(packed_value, element_bytes);\n\
    uint32_t words = get_tile_size(cb) / sizeof(uint32_t);\n\
    for (uint32_t i = 0; i < words; ++i) {\n\
    ptr[i] = word;\n\
    }\n\
    }\n\
    void replicate_first_element(uint32_t cb, uint32_t element_bytes) {\n\
    uint32_t l1_addr = get_write_ptr(cb);\n\
    volatile tt_l1_ptr uint32_t *ptr = reinterpret_cast<volatile tt_l1_ptr uint32_t *>(l1_addr);\n\
    uint32_t packed_value = repeated_word(ptr[0], element_bytes);\n\
    uint32_t words = get_tile_size(cb) / sizeof(uint32_t);\n\
    for (uint32_t i = 0; i < words; ++i) {\n\
    ptr[i] = packed_value;\n\
    }\n\
    }\n\
    void replicate_first_column(uint32_t cb, uint32_t element_bytes) {\n\
    uint32_t l1_addr = get_write_ptr(cb);\n\
    if (element_bytes == 4) {\n\
    volatile tt_l1_ptr uint32_t *ptr = reinterpret_cast<volatile tt_l1_ptr uint32_t *>(l1_addr);\n\
    for (uint32_t row = 0; row < TILE_R; ++row) {\n\
    uint32_t value = ptr[tile_element_index(row, 0)];\n\
    for (uint32_t col = 1; col < TILE_C; ++col) {\n\
    ptr[tile_element_index(row, col)] = value;\n\
    }\n\
    }\n\
    } else if (element_bytes == 2) {\n\
    volatile tt_l1_ptr uint16_t *ptr = reinterpret_cast<volatile tt_l1_ptr uint16_t *>(l1_addr);\n\
    for (uint32_t row = 0; row < TILE_R; ++row) {\n\
    uint16_t value = ptr[tile_element_index(row, 0)];\n\
    for (uint32_t col = 1; col < TILE_C; ++col) {\n\
    ptr[tile_element_index(row, col)] = value;\n\
    }\n\
    }\n\
    } else {\n\
    volatile tt_l1_ptr uint8_t *ptr = reinterpret_cast<volatile tt_l1_ptr uint8_t *>(l1_addr);\n\
    for (uint32_t row = 0; row < TILE_R; ++row) {\n\
    uint8_t value = ptr[tile_element_index(row, 0)];\n\
    for (uint32_t col = 1; col < TILE_C; ++col) {\n\
    ptr[tile_element_index(row, col)] = value;\n\
    }\n\
    }\n\
    }\n\
    }\n\
    }  // namespace\n\
    \n\
    void kernel_main() {\n";

/// The source of the reader kernel.
pub open spec fn reader_text(list: Seq<Leaf>) -> Seq<char> {
    let n = list.len() as int;
    let tensors = tensor_count(list);
    READER_PRELUDE@ + source::rendered(gathered(load_lines(), tensors))
        + "uint32_t offset = get_arg_val<uint32_t>("@ + text::dec(tensors)
        + ");\nuint32_t n_tiles = get_arg_val<uint32_t>("@ + text::dec(tensors + 1) + ");\n"@
        + source::rendered(gathered(declare_lines(list), n))
        + "for (uint32_t i = 0; i < n_tiles; ++i) {\n"@ + source::rendered(
        gathered(reserve_lines(), n),
    ) + source::rendered(gathered(read_lines(list), n)) + "noc_async_read_barrier();\n"@
        + source::rendered(gathered(fill_lines(list), n)) + source::rendered(
        gathered(push_lines(), n),
    ) + "}\n}\n"@
}

/// Generates the source of the reader kernel.
pub fn reader_source(list: &[Leaf]) -> (r: String)
    requires
        list@.len() < u32::MAX,
    ensures
        r@ == reader_text(list@),
{
    let n: usize = list.len();
    let tensors: usize = count_tensors(list);
    let mut loads: Vec<String> = Vec::new();
    assert(source::lines_view(loads@) =~= gathered(load_lines(), 0));
    for a in 0..tensors
        invariant
            tensors < u32::MAX,
            source::lines_view(loads@) == gathered(load_lines(), a as int),
    {
        let ghost before = source::lines_view(loads@);
        source::push(
            &mut loads,
            source::numbers_line(
                "  uint32_t input_addr_",
                a as u32,
                " = get_arg_val<uint32_t>(",
                a as u32,
                ");",
            ),
        );
        assert(source::lines_view(loads@) =~= before + load_lines()(a as int));
    }
    let mut declarations: Vec<String> = Vec::new();
    let mut reserves: Vec<String> = Vec::new();
    let mut reads: Vec<String> = Vec::new();
    let mut fills: Vec<String> = Vec::new();
    let mut pushes: Vec<String> = Vec::new();
    let mut input: u32 = 0;
    proof {
        assert(source::lines_view(declarations@) =~= gathered(declare_lines(list@), 0));
        assert(source::lines_view(reserves@) =~= gathered(reserve_lines(), 0));
        assert(source::lines_view(reads@) =~= gathered(read_lines(list@), 0));
        assert(source::lines_view(fills@) =~= gathered(fill_lines(list@), 0));
        assert(source::lines_view(pushes@) =~= gathered(push_lines(), 0));
    }
    for t in 0..n
        invariant
            n == list@.len(),
            n < u32::MAX,
            input == tensors_before(list@, t as int),
            input <= t,
            source::lines_view(declarations@) == gathered(declare_lines(list@), t as int),
            source::lines_view(reserves@) == gathered(reserve_lines(), t as int),
            source::lines_view(reads@) == gathered(read_lines(list@), t as int),
            source::lines_view(fills@) == gathered(fill_lines(list@), t as int),
            source::lines_view(pushes@) == gathered(push_lines(), t as int),
    {
        let ghost before_reserves = source::lines_view(reserves@);
        let ghost before_pushes = source::lines_view(pushes@);
        push_declaration(&mut declarations, list, t, input);
        source::push(
            &mut reserves,
            source::number_line("    cb_reserve_back(cb_leaf_", t as u32, ", 1);"),
        );
        assert(source::lines_view(reserves@) =~= before_reserves + reserve_lines()(t as int));
        push_read(&mut reads, list, t, input);
        push_fill(&mut fills, list, t);
        source::push(
            &mut pushes,
            source::number_line("    cb_push_back(cb_leaf_", t as u32, ", 1);"),
        );
        assert(source::lines_view(pushes@) =~= before_pushes + push_lines()(t as int));
        if list[t].input {
            input = input + 1;
        }
    }
    text::cat7(
        READER_PRELUDE,
        source::render(&loads).as_str(),
        "uint32_t offset = get_arg_val<uint32_t>(",
        text::decimal_usize(tensors).as_str(),
        ");\nuint32_t n_tiles = get_arg_val<uint32_t>(",
        text::decimal_usize(tensors + 1).as_str(),
        ");\n",
    ).concat(source::render(&declarations).as_str()).concat(
        "for (uint32_t i = 0; i < n_tiles; ++i) {\n",
    ).concat(source::render(&reserves).as_str()).concat(source::render(&reads).as_str()).concat(
        "noc_async_read_barrier();\n",
    ).concat(source::render(&fills).as_str()).concat(source::render(&pushes).as_str()).concat(
        "}\n}\n",
    )
}

fn push_declaration(lines: &mut Vec<String>, list: &[Leaf], t: usize, input: u32)
    requires
        t < list@.len() < u32::MAX,
        input == tensors_before(list@, t as int),
    ensures
        source::lines_view(final(lines)@) == source::lines_view(old(lines)@) + declare_lines(list@)(
            t as int,
        ),
{
    let ghost before = source::lines_view(lines@);
    source::push(
        lines,
        source::numbers_line(
            "  constexpr uint32_t cb_leaf_",
            t as u32,
            " = tt::CBIndex::c_",
            list[t].cb,
            ";",
        ),
    );
    if list[t].input {
        source::push(
            lines,
            source::number_line("  const InterleavedAddrGenFast<true> input_", input, " = {"),
        );
        let number = text::decimal_usize(t);
        source::push(
            lines,
            text::cat7(
                "    .bank_base_address = input_addr_",
                text::decimal_u32(input).as_str(),
                ", .page_size = get_tile_size(cb_leaf_",
                number.as_str(),
                "), .data_format = get_dataformat(cb_leaf_",
                number.as_str(),
                "),",
            ),
        );
        source::push(lines, "  };".to_owned());
    }
    assert(source::lines_view(lines@) =~= before + declare_lines(list@)(t as int));
}

fn push_read(lines: &mut Vec<String>, list: &[Leaf], t: usize, input: u32)
    requires
        t < list@.len() < u32::MAX,
        input == tensors_before(list@, t as int),
    ensures
        source::lines_view(final(lines)@) == source::lines_view(old(lines)@) + read_lines(list@)(
            t as int,
        ),
{
    let ghost before = source::lines_view(lines@);
    if list[t].input {
        let tile: &str = if list[t].single_tile_broadcast {
            "0"
        } else {
            "offset + i"
        };
        source::push(
            lines,
            text::cat7(
                "    noc_async_read_tile(",
                tile,
                ", input_",
                text::decimal_u32(input).as_str(),
                ", get_write_ptr(cb_leaf_",
                text::decimal_usize(t).as_str(),
                "));",
            ),
        );
    }
    assert(source::lines_view(lines@) =~= before + read_lines(list@)(t as int));
}

fn push_fill(lines: &mut Vec<String>, list: &[Leaf], t: usize)
    requires
        t < list@.len() < u32::MAX,
    ensures
        source::lines_view(final(lines)@) == source::lines_view(old(lines)@) + fill_lines(list@)(
            t as int,
        ),
{
    let ghost before = source::lines_view(lines@);
    let width = text::decimal_usize(list[t].dtype.bytes_per_element());
    let number = text::decimal_usize(t);
    if !list[t].input {
        source::push(
            lines,
            text::cat7(
                "    fill_constant_tile(cb_leaf_",
                number.as_str(),
                ", ",
                text::decimal_u32(list[t].packed_value).as_str(),
                "u, ",
                width.as_str(),
                ");",
            ),
        );
    } else if list[t].single_tile_broadcast {
        let helper: &str = if list[t].packed_value == 1 {
            "replicate_first_column"
        } else {
            "replicate_first_element"
        };
        source::push(
            lines,
            text::cat7(
                "    ",
                helper,
                "(cb_leaf_",
                number.as_str(),
                ", ",
                width.as_str(),
                ");",
            ),
        );
    }
    assert(source::lines_view(lines@) =~= before + fill_lines(list@)(t as int));
}

} // verus!
