//! The dot product of values and scores in grouped attention, computed with whole
//! tiles.

use vstd::prelude::*;
use crate::arith;
use crate::convert;
use crate::dram;
use crate::dram::DType;
use crate::error;
use crate::error::Error;
use crate::hw::CoreCoord;
use crate::kernels::common;
use crate::kernels::common::SectionWords;
use crate::kernels::dot_general::dpa;
use crate::kernels::dot_general::{DotGeneralSpec, Product};
use crate::kernels::kernel;
use crate::kernels::lowering;
use crate::kernels::lowering::{CompileConfig, KernelCb, LoweredProgram, RangeWords, Section};

verus! {

/// What the kernel of the values is built for.
#[derive(Clone, Debug, Hash, PartialEq, Eq)]
pub struct DpaValueShape {
    pub work_tile_count: u32,
    pub batch: u32,
    pub key_tokens: u32,
    pub query_tokens: u32,
    pub kv_heads: u32,
    pub groups: u32,
    pub head_dim: u32,
    pub head_tiles: u32,
    pub lhs_tiles_per_prefix: u32,
    pub rhs_tile_rows: u32,
    pub rhs_tiles_per_row: u32,
    pub output_tiles_per_row: u32,
    pub kt: u32,
}

impl DpaValueShape {
    pub open spec fn words(&self) -> Seq<u32> {
        seq![
            self.work_tile_count,
            self.batch,
            self.key_tokens,
            self.query_tokens,
            self.kv_heads,
            self.groups,
            self.head_dim,
            self.head_tiles,
            self.lhs_tiles_per_prefix,
            self.rhs_tile_rows,
            self.rhs_tiles_per_row,
            self.output_tiles_per_row,
            self.kt,
        ]
    }
}

/// Whether a product is one of values and scores, with heads that fit into a tile.
pub open spec fn is_value(p: Product, lhs_dtype: DType, rhs_dtype: DType) -> bool {
    &&& lhs_dtype == DType::Float16B
    &&& rhs_dtype == DType::Float16B
    &&& p.dtype == DType::Float16B
    &&& p.lhs.len() == 4
    &&& p.rhs.len() == 5
    &&& p.lhs_batch == seq![0i64, 2]
    &&& p.rhs_batch == seq![1i64, 2]
    &&& p.lhs_contract == seq![1i64]
    &&& p.rhs_contract == seq![4i64]
    &&& p.rhs[1] == p.lhs[0]
    &&& p.rhs[2] == p.lhs[2]
    &&& p.rhs[4] == p.lhs[1]
    &&& p.out == seq![p.lhs[0], p.lhs[2], p.lhs[3], p.rhs[0], p.rhs[3]]
    &&& p.rhs[0] <= 32
    &&& p.lhs[2] <= 32
}

fn looks_like_value(spec: &DotGeneralSpec, lhs_dtype: DType, rhs_dtype: DType) -> (r: bool)
    ensures
        r == is_value(spec@, lhs_dtype, rhs_dtype),
{
    let left: Vec<i64> = vec![0i64, 2];
    let right: Vec<i64> = vec![1i64, 2];
    let second: Vec<i64> = vec![1i64];
    let last: Vec<i64> = vec![4i64];
    assert(left@ =~= seq![0i64, 2]);
    assert(right@ =~= seq![1i64, 2]);
    assert(second@ =~= seq![1i64]);
    assert(last@ =~= seq![4i64]);
    if lhs_dtype != DType::Float16B || rhs_dtype != DType::Float16B || spec.output_dtype
        != DType::Float16B || spec.lhs_shape.len() != 4 || spec.rhs_shape.len() != 5
        || !dpa::same_numbers(spec.lhs_batching_dimensions.as_slice(), &left)
        || !dpa::same_numbers(spec.rhs_batching_dimensions.as_slice(), &right)
        || !dpa::same_numbers(spec.lhs_contracting_dimensions.as_slice(), &second)
        || !dpa::same_numbers(spec.rhs_contracting_dimensions.as_slice(), &last) {
        return false;
    }
    let l = &spec.lhs_shape;
    let k = &spec.rhs_shape;
    let want: Vec<usize> = vec![l[0], l[2], l[3], k[0], k[3]];
    assert(want@ =~= seq![l@[0], l@[2], l@[3], k@[0], k@[3]]);
    k[1] == l[0] && k[2] == l[2] && k[4] == l[1] && arith::same_usizes(
        spec.output_shape.as_slice(),
        want.as_slice(),
    ) && k[0] <= 32 && l[2] <= 32
}

/// Whether the heads of the values and of the product take one row of tiles.
pub open spec fn value_flat(p: Product) -> bool {
    common::tile_grid(p.lhs).0 == 1 && common::tile_grid(p.out).0 == 1
}

/// The number of tiles over all batches, heads, columns of the heads and columns
/// of the queries, where it is a machine word.
pub open spec fn work_tiles(p: Product) -> Option<int> {
    arith::checked_product(
        p.lhs[0] as int,
        seq![p.lhs[2] as int, common::tile_grid(p.lhs).1, common::tile_grid(p.out).1],
    )
}

pub open spec fn value_values(p: Product) -> Seq<usize> {
    seq![
        work_tiles(p)->0 as usize,
        p.lhs[0],
        p.lhs[1],
        p.rhs[3],
        p.lhs[2],
        p.rhs[0],
        p.lhs[3],
        common::tile_grid(p.lhs).1 as usize,
        common::tile_grid(p.lhs).1 as usize,
        common::tile_grid(p.rhs).0 as usize,
        common::tile_grid(p.rhs).1 as usize,
        common::tile_grid(p.out).1 as usize,
        common::tile_grid(p.rhs).1 as usize,
    ]
}

pub open spec fn value_names() -> Seq<&'static str> {
    seq![
        "dpa value work tile count",
        "dpa value batch",
        "dpa value key tokens",
        "dpa value query tokens",
        "dpa value kv heads",
        "dpa value groups",
        "dpa value head dim",
        "dpa value head tiles",
        "dpa value lhs tiles per prefix",
        "dpa value rhs tile rows",
        "dpa value rhs tiles per row",
        "dpa value output tiles per row",
        "dpa value kt",
    ]
}

/// Whether the kernel of the values is taken, where nothing is refused.
pub open spec fn value_taken(p: Product, lhs_dtype: DType, rhs_dtype: DType) -> bool {
    is_value(p, lhs_dtype, rhs_dtype) && value_flat(p)
}

/// Why a product of values and scores is refused.
pub open spec fn value_refusal(p: Product, lhs_dtype: DType, rhs_dtype: DType) -> Option<
    error::Refusal,
> {
    if !is_value(p, lhs_dtype, rhs_dtype) {
        None
    } else if dpa::three_refusal(p) is Some {
        dpa::three_refusal(p)
    } else if !value_flat(p) {
        None
    } else if dram::tile_count_refusal(p.out) is Some {
        dram::tile_count_refusal(p.out)
    } else if work_tiles(p) is None {
        Some(error::invalid("dpa value work tile count overflow"@))
    } else {
        convert::fields_refusal(value_values(p), value_names())
    }
}

/// Looks whether the kernel of the values computes a product.
pub fn try_dpa_value_dot(spec: &DotGeneralSpec, lhs_dtype: DType, rhs_dtype: DType) -> (r: Result<
    Option<DpaValueShape>,
    Error,
>)
    ensures
        match r {
            Ok(Some(s)) => {
                &&& value_refusal(spec@, lhs_dtype, rhs_dtype) is None
                &&& value_taken(spec@, lhs_dtype, rhs_dtype)
                &&& s.words() == convert::field_words(value_values(spec@))
            },
            Ok(None) => value_refusal(spec@, lhs_dtype, rhs_dtype) is None && !value_taken(
                spec@,
                lhs_dtype,
                rhs_dtype,
            ),
            Err(e) => value_refusal(spec@, lhs_dtype, rhs_dtype) == Some(e@),
        },
{
    if !looks_like_value(spec, lhs_dtype, rhs_dtype) {
        return Ok(None);
    }
    let lhs = common::find_tile_grid(spec.lhs_shape.as_slice())?;
    let rhs = common::find_tile_grid(spec.rhs_shape.as_slice())?;
    let out = common::find_tile_grid(spec.output_shape.as_slice())?;
    if lhs.0 != 1 || out.0 != 1 {
        return Ok(None);
    }
    let _tiles: usize = dram::tiled_shape_tile_count(spec.output_shape.as_slice())?;
    let l = &spec.lhs_shape;
    let k = &spec.rhs_shape;
    let factors: Vec<usize> = vec![l[2], lhs.1, out.1];
    assert(arith::ints(factors@.take(3)) =~= seq![l@[2] as int, lhs.1 as int, out.1 as int]);
    let work: usize = match arith::checked_mul_all(l[0], factors.as_slice(), 3) {
        Some(w) => w,
        None => {
            return Err(error::invalid_text("dpa value work tile count overflow"));
        },
    };
    let values: Vec<usize> = vec![
        work,
        l[0],
        l[1],
        k[3],
        l[2],
        k[0],
        l[3],
        lhs.1,
        lhs.1,
        rhs.0,
        rhs.1,
        out.1,
        rhs.1,
    ];
    let names: Vec<&'static str> = vec![
        "dpa value work tile count",
        "dpa value batch",
        "dpa value key tokens",
        "dpa value query tokens",
        "dpa value kv heads",
        "dpa value groups",
        "dpa value head dim",
        "dpa value head tiles",
        "dpa value lhs tiles per prefix",
        "dpa value rhs tile rows",
        "dpa value rhs tiles per row",
        "dpa value output tiles per row",
        "dpa value kt",
    ];
    assert(values@ =~= value_values(spec@));
    assert(names@ =~= value_names());
    let w = convert::narrow_fields(&values, &names)?;
    let s = DpaValueShape {
        work_tile_count: w[0],
        batch: w[1],
        key_tokens: w[2],
        query_tokens: w[3],
        kv_heads: w[4],
        groups: w[5],
        head_dim: w[6],
        head_tiles: w[7],
        lhs_tiles_per_prefix: w[8],
        rhs_tile_rows: w[9],
        rhs_tiles_per_row: w[10],
        output_tiles_per_row: w[11],
        kt: w[12],
    };
    assert(s.words() =~= convert::field_words(value_values(spec@)));
    Ok(Some(s))
}

#[derive(Clone, Debug, Hash, PartialEq, Eq)]
pub struct DpaValueProgramKey {
    pub cores: Vec<CoreCoord>,
    pub shape: DpaValueShape,
}

/// The arguments of the reader.
pub open spec fn value_reader(s: DpaValueShape) -> SectionWords {
    SectionWords {
        head: common::zero_words(2),
        range: RangeWords::OffsetAndCount,
        tail: seq![
            s.key_tokens,
            s.query_tokens,
            s.kv_heads,
            s.groups,
            s.head_dim,
            s.head_tiles,
            s.lhs_tiles_per_prefix,
            s.rhs_tile_rows,
            s.rhs_tiles_per_row,
            s.output_tiles_per_row,
            s.kt,
            s.batch,
        ],
    }
}

/// The arguments of the writer.
pub open spec fn value_writer(s: DpaValueShape) -> SectionWords {
    SectionWords {
        head: common::zero_words(1),
        range: RangeWords::OffsetAndCount,
        tail: seq![
            s.groups,
            s.query_tokens,
            s.kv_heads,
            s.head_dim,
            s.head_tiles,
            s.output_tiles_per_row,
        ],
    }
}

/// The arguments of the compute kernel: each tile is computed for each group.
pub open spec fn value_compute(s: DpaValueShape) -> SectionWords {
    SectionWords { head: seq![s.kt], range: RangeWords::ScaledCount(s.groups), tail: Seq::empty() }
}

pub open spec fn value_cbs(s: DpaValueShape) -> Seq<KernelCb> {
    seq![
        KernelCb::double(0, DType::Float16B),
        KernelCb::double(1, DType::Float16B),
        KernelCb::double(2, DType::Float16B),
        KernelCb::sized(3, DType::Float16B, s.kt as usize),
        KernelCb::sized(16, DType::Float16B, arith::max2(s.groups as int, 2) as usize),
        KernelCb::double(17, DType::Float16B),
    ]
}

/// Why there is no program for the values. The first core has the most tiles.
pub open spec fn value_program_refusal(cores: Seq<CoreCoord>, s: DpaValueShape) -> Option<
    error::Refusal,
> {
    if cores.len() > 0 && kernel::split_count(
        s.work_tile_count as int,
        0,
        cores.len() as int,
    ) * s.groups > u32::MAX {
        Some(error::invalid("dpa value compute tile count overflow"@))
    } else {
        lowering::listed_refusal(cores)
    }
}

/// Where the tiles of the first core fit, so do those of all cores.
proof fn lemma_scaled_fits(tiles: u32, n: int, factor: u32)
    requires
        n > 0,
        kernel::split_count(tiles as int, 0, n) * factor <= u32::MAX,
    ensures
        forall|j: int|
            0 <= j < n ==> (#[trigger] lowering::core_range(tiles, j, n)).1 * factor <= u32::MAX,
{
    assert forall|j: int| 0 <= j < n implies (#[trigger] lowering::core_range(tiles, j, n)).1
        * factor <= u32::MAX by {
        kernel::lemma_split_partitions(tiles as int, j, n);
        kernel::lemma_split_partitions(tiles as int, 0, n);
        let a = kernel::split_count(tiles as int, j, n);
        let b = kernel::split_count(tiles as int, 0, n);
        assert(a <= b);
        assert(a * factor <= b * factor) by (nonlinear_arith)
            requires
                a <= b,
        ;
    }
}

/// Builds the program of the values from its kernels.
pub fn dpa_value_program(
    key: &DpaValueProgramKey,
    reader_source: &str,
    compute_source: &str,
    writer_source: &str,
) -> (r: Result<LoweredProgram, Error>)
    ensures
        match r {
            Ok(p) => {
                &&& value_program_refusal(key.cores@, key.shape) is None
                &&& p.reader_kernel@ == reader_source@
                &&& p.compute_kernel@ == compute_source@
                &&& p.writer_kernel@ == writer_source@
                &&& p.is_uniform()
                &&& p.name@ == dpa::attention_name(
                    "dpa_value_dot_bf16_t"@,
                    key.shape.query_tokens,
                    key.shape.key_tokens,
                    key.shape.kv_heads,
                    key.shape.groups,
                    key.shape.head_dim,
                )
                &&& p.compile@ == lowering::plain_config(value_cbs(key.shape))
                &&& lowering::assigns(
                    p.runtime_args,
                    key.cores@,
                    common::dealt(
                        key.cores@,
                        key.shape.work_tile_count,
                        value_writer(key.shape),
                        value_reader(key.shape),
                        value_compute(key.shape),
                    ),
                    0,
                    common::first_dynamic(1, 2),
                )
            },
            Err(e) => value_program_refusal(key.cores@, key.shape) == Some(e@),
        },
{
    let s = &key.shape;
    let n: usize = key.cores.len();
    if n > 0 {
        let (_offset, count) = kernel::split_tile_range(s.work_tile_count, 0, n)?;
        if count.checked_mul(s.groups).is_none() {
            return Err(error::invalid_text("dpa value compute tile count overflow"));
        }
        proof {
            lemma_scaled_fits(s.work_tile_count, n as int, s.groups);
        }
    }
    let writer_tail: Vec<u32> = vec![
        s.groups,
        s.query_tokens,
        s.kv_heads,
        s.head_dim,
        s.head_tiles,
        s.output_tiles_per_row,
    ];
    let reader_tail: Vec<u32> = vec![
        s.key_tokens,
        s.query_tokens,
        s.kv_heads,
        s.groups,
        s.head_dim,
        s.head_tiles,
        s.lhs_tiles_per_prefix,
        s.rhs_tile_rows,
        s.rhs_tiles_per_row,
        s.output_tiles_per_row,
        s.kt,
        s.batch,
    ];
    assert(writer_tail@ =~= value_writer(key.shape).tail);
    assert(reader_tail@ =~= value_reader(key.shape).tail);
    let writer = Section {
        head: common::zeros(1),
        range: RangeWords::OffsetAndCount,
        tail: writer_tail,
    };
    let reader = Section {
        head: common::zeros(2),
        range: RangeWords::OffsetAndCount,
        tail: reader_tail,
    };
    let compute = Section {
        head: vec![s.kt],
        range: RangeWords::ScaledCount(s.groups),
        tail: Vec::new(),
    };
    assert(compute@ == value_compute(key.shape)) by {
        assert(compute@.head =~= seq![s.kt]);
        assert(compute@.tail =~= Seq::empty());
    }
    let writer_dynamic = common::index_list(1);
    let reader_dynamic = common::index_list(2);
    let args = common::deal(
        key.cores.as_slice(),
        s.work_tile_count,
        &writer,
        &reader,
        &compute,
        writer_dynamic,
        reader_dynamic,
    )?;
    let groups: usize = if s.groups > 2 {
        s.groups as usize
    } else {
        2
    };
    let cbs: Vec<KernelCb> = vec![
        KernelCb::new(0, DType::Float16B),
        KernelCb::new(1, DType::Float16B),
        KernelCb::new(2, DType::Float16B),
        KernelCb::new(3, DType::Float16B).with_tiles(s.kt as usize),
        KernelCb::new(16, DType::Float16B).with_tiles(groups),
        KernelCb::new(17, DType::Float16B),
    ];
    assert(cbs@ =~= value_cbs(key.shape));
    Ok(
        LoweredProgram::uniform(
            reader_source.to_owned(),
            compute_source.to_owned(),
            writer_source.to_owned(),
            dpa::name_attention(
                "dpa_value_dot_bf16_t",
                s.query_tokens,
                s.key_tokens,
                s.kv_heads,
                s.groups,
                s.head_dim,
            ),
            CompileConfig::plain(cbs),
            args,
        ),
    )
}

} // verus!
