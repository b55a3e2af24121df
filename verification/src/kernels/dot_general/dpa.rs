//! The dot product of queries and keys in grouped attention, computed with whole
//! tiles.

use vstd::prelude::*;
use crate::arith;
use crate::convert;
use crate::dram;
use crate::dram::DType;
use crate::error;
use crate::error::Error;
use crate::hw::CoreCoord;
use crate::kernels::common;
use crate::kernels::common::SectionWords;
use crate::kernels::dot_general::{DotGeneralSpec, Product};
use crate::kernels::lowering;
use crate::kernels::lowering::{CompileConfig, KernelCb, LoweredProgram, RangeWords, Section};
use crate::text;

verus! {

/// What the kernel of the scores is built for.
#[derive(Clone, Debug, Hash, PartialEq, Eq)]
pub struct DpaScoreShape {
    pub output_tile_count: u32,
    pub query_tokens: u32,
    pub key_tokens: u32,
    pub kv_heads: u32,
    pub groups: u32,
    pub head_dim: u32,
    pub lhs_tiles_per_prefix: u32,
    pub rhs_tiles_per_prefix: u32,
    pub output_tiles_per_row: u32,
    pub kt: u32,
}

impl DpaScoreShape {
    pub open spec fn words(&self) -> Seq<u32> {
        seq![
            self.output_tile_count,
            self.query_tokens,
            self.key_tokens,
            self.kv_heads,
            self.groups,
            self.head_dim,
            self.lhs_tiles_per_prefix,
            self.rhs_tiles_per_prefix,
            self.output_tiles_per_row,
            self.kt,
        ]
    }
}

/// Whether a list holds the given numbers.
pub fn same_numbers(list: &[i64], want: &Vec<i64>) -> (r: bool)
    ensures
        r == (list@ == want@),
{
    if list.len() != want.len() {
        return false;
    }
    for i in 0..list.len()
        invariant
            list@.len() == want@.len(),
            forall|j: int| 0 <= j < i ==> list@[j] == want@[j],
    {
        if list[i] != want[i] {
            return false;
        }
    }
    assert(list@ =~= want@);
    true
}

/// Whether a product is one of queries and keys, with heads that fit into a tile.
pub open spec fn is_score(p: Product, lhs_dtype: DType, rhs_dtype: DType) -> bool {
    &&& lhs_dtype == DType::Float16B
    &&& rhs_dtype == DType::Float16B
    &&& p.dtype == DType::Float32
    &&& p.lhs.len() == 5
    &&& p.rhs.len() == 4
    &&& p.lhs_batch == seq![0i64, 2]
    &&& p.rhs_batch == seq![0i64, 2]
    &&& p.lhs_contract == seq![4i64]
    &&& p.rhs_contract == seq![3i64]
    &&& p.rhs[0] == p.lhs[0]
    &&& p.rhs[2] == p.lhs[2]
    &&& p.rhs[3] == p.lhs[4]
    &&& p.out == seq![p.lhs[0], p.lhs[2], p.lhs[1], p.lhs[3], p.rhs[1]]
    &&& p.lhs[3] <= 32
    &&& p.lhs[2] <= 32
}

fn looks_like_score(spec: &DotGeneralSpec, lhs_dtype: DType, rhs_dtype: DType) -> (r: bool)
    ensures
        r == is_score(spec@, lhs_dtype, rhs_dtype),
{
    let pair: Vec<i64> = vec![0i64, 2];
    let last: Vec<i64> = vec![4i64];
    let third: Vec<i64> = vec![3i64];
    assert(pair@ =~= seq![0i64, 2]);
    assert(last@ =~= seq![4i64]);
    assert(third@ =~= seq![3i64]);
    if lhs_dtype != DType::Float16B || rhs_dtype != DType::Float16B || spec.output_dtype
        != DType::Float32 || spec.lhs_shape.len() != 5 || spec.rhs_shape.len() != 4
        || !same_numbers(spec.lhs_batching_dimensions.as_slice(), &pair) || !same_numbers(
        spec.rhs_batching_dimensions.as_slice(),
        &pair,
    ) || !same_numbers(spec.lhs_contracting_dimensions.as_slice(), &last) || !same_numbers(
        spec.rhs_contracting_dimensions.as_slice(),
        &third,
    ) {
        return false;
    }
    let l = &spec.lhs_shape;
    let k = &spec.rhs_shape;
    let want: Vec<usize> = vec![l[0], l[2], l[1], l[3], k[1]];
    assert(want@ =~= seq![l@[0], l@[2], l@[1], l@[3], k@[1]]);
    k[0] == l[0] && k[2] == l[2] && k[3] == l[4] && arith::same_usizes(
        spec.output_shape.as_slice(),
        want.as_slice(),
    ) && l[3] <= 32 && l[2] <= 32
}

/// Why three shapes cannot be laid out.
pub open spec fn three_refusal(p: Product) -> Option<error::Refusal> {
    if dram::tiled_shape_refusal(p.lhs) is Some {
        dram::tiled_shape_refusal(p.lhs)
    } else if dram::tiled_shape_refusal(p.rhs) is Some {
        dram::tiled_shape_refusal(p.rhs)
    } else {
        dram::tiled_shape_refusal(p.out)
    }
}

/// Whether the heads of all three tensors take one row of tiles.
pub open spec fn score_flat(p: Product) -> bool {
    common::tile_grid(p.lhs).0 == 1 && common::tile_grid(p.rhs).0 == 1 && common::tile_grid(
        p.out,
    ).0 == 1
}

pub open spec fn score_values(p: Product) -> Seq<usize> {
    seq![
        dram::tile_count(p.out)->0 as usize,
        p.lhs[1],
        p.rhs[1],
        p.lhs[2],
        p.lhs[3],
        p.lhs[4],
        common::tile_grid(p.lhs).1 as usize,
        common::tile_grid(p.rhs).1 as usize,
        common::tile_grid(p.out).1 as usize,
        common::tile_grid(p.rhs).1 as usize,
    ]
}

pub open spec fn score_names() -> Seq<&'static str> {
    seq![
        "dpa score output tile count",
        "dpa score query tokens",
        "dpa score key tokens",
        "dpa score kv heads",
        "dpa score groups",
        "dpa score head dim",
        "dpa score lhs tiles per prefix",
        "dpa score rhs tiles per prefix",
        "dpa score output tiles per row",
        "dpa score kt",
    ]
}

/// Whether the kernel of the scores is taken, where nothing is refused.
pub open spec fn score_taken(p: Product, lhs_dtype: DType, rhs_dtype: DType) -> bool {
    is_score(p, lhs_dtype, rhs_dtype) && score_flat(p)
}

/// Why a product of queries and keys is refused.
pub open spec fn score_refusal(p: Product, lhs_dtype: DType, rhs_dtype: DType) -> Option<
    error::Refusal,
> {
    if !is_score(p, lhs_dtype, rhs_dtype) {
        None
    } else if three_refusal(p) is Some {
        three_refusal(p)
    } else if !score_flat(p) {
        None
    } else if dram::tile_count_refusal(p.out) is Some {
        dram::tile_count_refusal(p.out)
    } else {
        convert::fields_refusal(score_values(p), score_names())
    }
}

/// Looks whether the kernel of the scores computes a product.
pub fn try_dpa_score_dot(spec: &DotGeneralSpec, lhs_dtype: DType, rhs_dtype: DType) -> (r: Result<
    Option<DpaScoreShape>,
    Error,
>)
    ensures
        match r {
            Ok(Some(s)) => {
                &&& score_refusal(spec@, lhs_dtype, rhs_dtype) is None
                &&& score_taken(spec@, lhs_dtype, rhs_dtype)
                &&& s.words() == convert::field_words(score_values(spec@))
            },
            Ok(None) => score_refusal(spec@, lhs_dtype, rhs_dtype) is None && !score_taken(
                spec@,
                lhs_dtype,
                rhs_dtype,
            ),
            Err(e) => score_refusal(spec@, lhs_dtype, rhs_dtype) == Some(e@),
        },
{
    if !looks_like_score(spec, lhs_dtype, rhs_dtype) {
        return Ok(None);
    }
    let lhs = common::find_tile_grid(spec.lhs_shape.as_slice())?;
    let rhs = common::find_tile_grid(spec.rhs_shape.as_slice())?;
    let out = common::find_tile_grid(spec.output_shape.as_slice())?;
    if lhs.0 != 1 || rhs.0 != 1 || out.0 != 1 {
        return Ok(None);
    }
    let tiles: usize = dram::tiled_shape_tile_count(spec.output_shape.as_slice())?;
    let l = &spec.lhs_shape;
    let values: Vec<usize> = vec![
        tiles,
        l[1],
        spec.rhs_shape[1],
        l[2],
        l[3],
        l[4],
        lhs.1,
        rhs.1,
        out.1,
        rhs.1,
    ];
    let names: Vec<&'static str> = vec![
        "dpa score output tile count",
        "dpa score query tokens",
        "dpa score key tokens",
        "dpa score kv heads",
        "dpa score groups",
        "dpa score head dim",
        "dpa score lhs tiles per prefix",
        "dpa score rhs tiles per prefix",
        "dpa score output tiles per row",
        "dpa score kt",
    ];
    assert(values@ =~= score_values(spec@));
    assert(names@ =~= score_names());
    let w = convert::narrow_fields(&values, &names)?;
    let s = DpaScoreShape {
        output_tile_count: w[0],
        query_tokens: w[1],
        key_tokens: w[2],
        kv_heads: w[3],
        groups: w[4],
        head_dim: w[5],
        lhs_tiles_per_prefix: w[6],
        rhs_tiles_per_prefix: w[7],
        output_tiles_per_row: w[8],
        kt: w[9],
    };
    assert(s.words() =~= convert::field_words(score_values(spec@)));
    Ok(Some(s))
}

#[derive(Clone, Debug, Hash, PartialEq, Eq)]
pub struct DpaScoreProgramKey {
    pub cores: Vec<CoreCoord>,
    pub shape: DpaScoreShape,
}

/// The arguments of the reader.
pub open spec fn score_reader(s: DpaScoreShape) -> SectionWords {
    SectionWords {
        head: common::zero_words(2),
        range: RangeWords::OffsetAndCount,
        tail: s.words().skip(1),
    }
}

/// The arguments of the compute kernel: the tiles of a row of keys, and the tiles
/// of the core.
pub open spec fn score_compute(s: DpaScoreShape) -> SectionWords {
    SectionWords { head: seq![s.kt], range: RangeWords::Count, tail: Seq::empty() }
}

pub open spec fn score_cbs(s: DpaScoreShape) -> Seq<KernelCb> {
    seq![
        KernelCb::double(0, DType::Float16B),
        KernelCb::double(1, DType::Float16B),
        KernelCb::double(2, DType::Float16B),
        KernelCb::sized(3, DType::Float16B, s.kt as usize),
        KernelCb::double(16, DType::Float32),
    ]
}

/// What distinguishes the programs of one kind by name.
pub open spec fn attention_name(
    front: Seq<char>,
    query: u32,
    key: u32,
    kv: u32,
    groups: u32,
    head: u32,
) -> Seq<char> {
    front + text::dec(query as int) + "_s"@ + text::dec(key as int) + "_kv"@ + text::dec(kv as int)
        + "_g"@ + text::dec(groups as int) + "_h"@ + text::dec(head as int)
}

pub fn name_attention(front: &str, query: u32, key: u32, kv: u32, groups: u32, head: u32) -> (r:
    String)
    ensures
        r@ == attention_name(front@, query, key, kv, groups, head),
{
    let a = text::cat6(
        front,
        text::decimal_u32(query).as_str(),
        "_s",
        text::decimal_u32(key).as_str(),
        "_kv",
        text::decimal_u32(kv).as_str(),
    );
    text::cat5(
        a.as_str(),
        "_g",
        text::decimal_u32(groups).as_str(),
        "_h",
        text::decimal_u32(head).as_str(),
    )
}

/// Builds the program of the scores from its kernels.
pub fn dpa_score_program(
    key: &DpaScoreProgramKey,
    reader_source: &str,
    compute_source: &str,
    writer_source: &str,
) -> (r: Result<LoweredProgram, Error>)
    ensures
        match r {
            Ok(p) => {
                &&& lowering::listed_refusal(key.cores@) is None
                &&& p.reader_kernel@ == reader_source@
                &&& p.compute_kernel@ == compute_source@
                &&& p.writer_kernel@ == writer_source@
                &&& p.is_uniform()
                &&& p.name@ == attention_name(
                    "dpa_score_dot_bf16_f32_t"@,
                    key.shape.query_tokens,
                    key.shape.key_tokens,
                    key.shape.kv_heads,
                    key.shape.groups,
                    key.shape.head_dim,
                )
                &&& p.compile@ == (lowering::Config {
                    dst_accum_mode: true,
                    ..lowering::plain_config(score_cbs(key.shape))
                })
                &&& lowering::assigns(
                    p.runtime_args,
                    key.cores@,
                    common::dealt(
                        key.cores@,
                        key.shape.output_tile_count,
                        common::ranged(common::zero_words(1)),
                        score_reader(key.shape),
                        score_compute(key.shape),
                    ),
                    0,
                    common::first_dynamic(1, 2),
                )
            },
            Err(e) => lowering::listed_refusal(key.cores@) == Some(e@),
        },
{
    let s = &key.shape;
    let writer = Section::ranged(common::zeros(1));
    let tail: Vec<u32> = vec![
        s.query_tokens,
        s.key_tokens,
        s.kv_heads,
        s.groups,
        s.head_dim,
        s.lhs_tiles_per_prefix,
        s.rhs_tiles_per_prefix,
        s.output_tiles_per_row,
        s.kt,
    ];
    assert(tail@ =~= s.words().skip(1));
    let reader = Section { head: common::zeros(2), range: RangeWords::OffsetAndCount, tail };
    let compute = Section::counted(vec![s.kt]);
    assert(writer@ == common::ranged(common::zero_words(1))) by {
        assert(writer@.tail =~= Seq::empty());
    }
    assert(compute@ == score_compute(key.shape)) by {
        assert(compute@.head =~= seq![s.kt]);
        assert(compute@.tail =~= Seq::empty());
    }
    let writer_dynamic = common::index_list(1);
    let reader_dynamic = common::index_list(2);
    let args = common::deal(
        key.cores.as_slice(),
        s.output_tile_count,
        &writer,
        &reader,
        &compute,
        writer_dynamic,
        reader_dynamic,
    )?;
    let cbs: Vec<KernelCb> = vec![
        KernelCb::new(0, DType::Float16B),
        KernelCb::new(1, DType::Float16B),
        KernelCb::new(2, DType::Float16B),
        KernelCb::new(3, DType::Float16B).with_tiles(s.kt as usize),
        KernelCb::new(16, DType::Float32),
    ];
    assert(cbs@ =~= score_cbs(key.shape));
    let mut compile = CompileConfig::plain(cbs);
    compile.dst_accum_mode = true;
    Ok(
        LoweredProgram::uniform(
            reader_source.to_owned(),
            compute_source.to_owned(),
            writer_source.to_owned(),
            name_attention(
                "dpa_score_dot_bf16_f32_t",
                s.query_tokens,
                s.key_tokens,
                s.kv_heads,
                s.groups,
                s.head_dim,
            ),
            compile,
            args,
        ),
    )
}

} // verus!
