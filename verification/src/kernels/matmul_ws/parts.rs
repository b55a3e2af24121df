//! Which part of a product each core computes from its shard.

use vstd::prelude::*;
use crate::dram::banks;
use crate::hw::{CoreCoord, DramTile};
use crate::kernels::matmul_ws;
use crate::kernels::matmul_ws::{MatmulWsKey, MatmulWsPlan};
use crate::text;
use crate::text::read;

verus! {

/// Whether the words that a plan tells its cores hold its numbers.
pub open spec fn words_hold(plan: MatmulWsPlan) -> bool {
    8 * plan.shard_nt <= u32::MAX && plan.kt <= u32::MAX
}

/// The first column that a core writes.
proof fn lemma_first_column(plan: MatmulWsPlan, tiles: Seq<DramTile>, key: MatmulWsKey, e: int)
    requires
        plan.of(tiles, key),
        plan.wf(),
        0 <= e < 32,
    ensures
        plan.cores@[e].column == (e % 4) * plan.per_core_n,
        (e / 4) * plan.shard_nt + plan.cores@[e].column == e * plan.per_core_n,
        e * plan.per_core_n + plan.per_core_n <= 8 * plan.shard_nt,
        (e % 4) * plan.per_core_n + plan.per_core_n <= plan.shard_nt,
{
    let n = plan.per_core_n as int;
    let (b, i) = (e / 4, e % 4);
    assert(0 <= i * n && i * n + n <= 4 * n && b * (4 * n) + i * n == e * n && e * n + n <= 32 * n)
        by (nonlinear_arith)
        requires
            0 <= i <= 3,
            e == 4 * b + i,
            0 <= e <= 31,
            n >= 0,
    ;
    assert(plan.cores@[e] == matmul_ws::entry(tiles, n, e));
}

/// The cores write the columns one after the other: each writes as many as it is told to, from
/// where the one before it ends, and together they write all columns.
pub proof fn lemma_columns_written(
    plan: MatmulWsPlan,
    tiles: Seq<DramTile>,
    key: MatmulWsKey,
    e: int,
)
    requires
        plan.of(tiles, key),
        plan.wf(),
        words_hold(plan),
        0 <= e < 32,
    ensures
        ({
            let writer = matmul_ws::program_args(plan)(e).0;
            &&& writer[1] == e * writer[2]
            &&& 32 * writer[2] >= key.logical_nt
            &&& writer[4] == key.logical_nt
            &&& writer[3] > 0
            &&& writer[2] as int % writer[3] as int == 0
        }),
{
    lemma_first_column(plan, tiles, key, e);
    let n = plan.per_core_n as int;
    let fits = |w: int| matmul_ws::subblock_fits(n, w);
    assert(fits(plan.out_subblock_w as int));
}

/// A core reads the columns that it writes: in the bank that it reads from, the tile in row `k`
/// and column `j` of its part is the tile of the right operand in row `k` and column `j` of
/// what it writes.
pub proof fn lemma_core_reads(
    plan: MatmulWsPlan,
    tiles: Seq<DramTile>,
    key: MatmulWsKey,
    data: Seq<u8>,
    tile: int,
    e: int,
    k: int,
    j: int,
)
    requires
        plan.of(tiles, key),
        plan.wf(),
        words_hold(plan),
        0 <= e < 32,
        matmul_ws::tiles_of(tiles, e / 4).len() > 0,
        tile > 0,
        data.len() == key.kt * key.logical_nt * tile,
        0 <= k < key.kt,
        0 <= j < plan.per_core_n,
    ensures
        ({
            let (writer, reader, _) = matmul_ws::program_args(plan)(e);
            let stored = matmul_ws::sharded(
                data,
                key.kt as int,
                key.logical_nt as int,
                plan.shard_nt as int,
                tile,
            );
            exists|bank: int|
                {
                    let held = #[trigger] banks::strided_pages(stored, tile, bank, 8);
                    &&& 0 <= bank < 8
                    &&& exists|i: int|
                        {
                            &&& 0 <= i < tiles.len()
                            &&& (#[trigger] tiles[i]).bank == bank
                            &&& tiles[i].x == reader[2]
                            &&& tiles[i].y == reader[3]
                        }
                    &&& banks::page(held, tile, k * reader[7] + reader[8] + j) == if writer[1] + j
                        < key.logical_nt {
                        banks::page(data, tile, k * key.logical_nt + writer[1] + j)
                    } else {
                        Seq::new(tile as nat, |x: int| 0u8)
                    }
                }
        }),
        ({
            let (writer, reader, _) = matmul_ws::program_args(plan)(e);
            &&& reader[4] == key.kt
            &&& reader[5] > 0
            &&& key.kt as int % reader[5] as int == 0
            &&& reader[6] == writer[2]
        }),
{
    lemma_first_column(plan, tiles, key, e);
    let n = plan.per_core_n as int;
    let (bank, i) = (e / 4, e % 4);
    let own = matmul_ws::tiles_of(tiles, bank);
    let at = i % (own.len() as int);
    assert(0 <= at < own.len()) by (nonlinear_arith)
        requires
            at == i % (own.len() as int),
            own.len() > 0,
    ;
    lemma_tile_of(tiles, bank, at);
    matmul_ws::lemma_shard_page(
        data,
        key.kt as int,
        key.logical_nt as int,
        plan.shard_nt as int,
        tile,
        bank,
        k,
        i * n + j,
    );
    let fits = |w: int| matmul_ws::block_fits(key, w);
    assert(fits(plan.in0_block_w as int));
    let c = plan.cores@[e];
    assert(c == matmul_ws::entry(tiles, n, e));
    assert(c.bank == CoreCoord { x: own[at].x, y: own[at].y });
    let args = matmul_ws::program_args(plan)(e);
    assert(args.1[7] == plan.shard_nt && args.1[8] == i * n);
    let stored = matmul_ws::sharded(
        data,
        key.kt as int,
        key.logical_nt as int,
        plan.shard_nt as int,
        tile,
    );
    let held = banks::strided_pages(stored, tile, bank, 8);
    assert(args.1[2] == own[at].x && args.1[3] == own[at].y);
}

/// A tile of a bank is one of all tiles, and belongs to the bank.
proof fn lemma_tile_of(tiles: Seq<DramTile>, bank: int, at: int)
    requires
        0 <= at < matmul_ws::tiles_of(tiles, bank).len(),
    ensures
        exists|i: int|
            0 <= i < tiles.len() && #[trigger] tiles[i] == matmul_ws::tiles_of(tiles, bank)[at]
                && tiles[i].bank == bank,
    decreases tiles.len(),
{
    let front = tiles.drop_last();
    let before = matmul_ws::tiles_of(front, bank);
    if at < before.len() {
        lemma_tile_of(front, bank, at);
        let i = choose|i: int|
            0 <= i < front.len() && #[trigger] front[i] == before[at] && front[i].bank == bank;
        assert(tiles[i] == front[i]);
    } else {
        assert(tiles[tiles.len() - 1].bank == bank);
    }
}

/// No two cores of a plan are the same.
pub proof fn lemma_cores_differ(
    plan: MatmulWsPlan,
    tiles: Seq<DramTile>,
    key: MatmulWsKey,
    e: int,
    f: int,
)
    requires
        plan.of(tiles, key),
        0 <= e < f < 32,
    ensures
        plan.cores@[e].core != plan.cores@[f].core,
{
    let n = plan.per_core_n as int;
    assert(plan.cores@[e] == matmul_ws::entry(tiles, n, e));
    assert(plan.cores@[f] == matmul_ws::entry(tiles, n, f));
}

proof fn lemma_name_0()
    ensures
        read::is_placeholder("@BATCH_COUNT@"@),
        "@BATCH_COUNT@"@.len() == 13,
{
    reveal_strlit("@BATCH_COUNT@");
}

proof fn lemma_name_1()
    ensures
        read::is_placeholder("@IN1_TRANSPOSE@"@),
        "@IN1_TRANSPOSE@"@.len() == 15,
{
    reveal_strlit("@IN1_TRANSPOSE@");
}

proof fn lemma_name_2()
    ensures
        read::is_placeholder("@IN0_BLOCK_W@"@),
        "@IN0_BLOCK_W@"@.len() == 13,
{
    reveal_strlit("@IN0_BLOCK_W@");
}

proof fn lemma_name_3()
    ensures
        read::is_placeholder("@IN0_NUM_SUBBLOCKS@"@),
        "@IN0_NUM_SUBBLOCKS@"@.len() == 19,
{
    reveal_strlit("@IN0_NUM_SUBBLOCKS@");
}

proof fn lemma_name_4()
    ensures
        read::is_placeholder("@IN0_BLOCK_NUM_TILES@"@),
        "@IN0_BLOCK_NUM_TILES@"@.len() == 21,
{
    reveal_strlit("@IN0_BLOCK_NUM_TILES@");
}

proof fn lemma_name_5()
    ensures
        read::is_placeholder("@IN0_SUBBLOCK_NUM_TILES@"@),
        "@IN0_SUBBLOCK_NUM_TILES@"@.len() == 24,
{
    reveal_strlit("@IN0_SUBBLOCK_NUM_TILES@");
}

proof fn lemma_name_6()
    ensures
        read::is_placeholder("@IN1_NUM_SUBBLOCKS@"@),
        "@IN1_NUM_SUBBLOCKS@"@.len() == 19,
{
    reveal_strlit("@IN1_NUM_SUBBLOCKS@");
}

proof fn lemma_name_7()
    ensures
        read::is_placeholder("@IN1_BLOCK_NUM_TILES@"@),
        "@IN1_BLOCK_NUM_TILES@"@.len() == 21,
{
    reveal_strlit("@IN1_BLOCK_NUM_TILES@");
}

proof fn lemma_name_8()
    ensures
        read::is_placeholder("@IN1_PER_CORE_W@"@),
        "@IN1_PER_CORE_W@"@.len() == 16,
{
    reveal_strlit("@IN1_PER_CORE_W@");
}

proof fn lemma_name_9()
    ensures
        read::is_placeholder("@NUM_BLOCKS@"@),
        "@NUM_BLOCKS@"@.len() == 12,
{
    reveal_strlit("@NUM_BLOCKS@");
}

proof fn lemma_name_10()
    ensures
        read::is_placeholder("@OUT_SUBBLOCK_H@"@),
        "@OUT_SUBBLOCK_H@"@.len() == 16,
{
    reveal_strlit("@OUT_SUBBLOCK_H@");
}

proof fn lemma_name_11()
    ensures
        read::is_placeholder("@OUT_SUBBLOCK_W@"@),
        "@OUT_SUBBLOCK_W@"@.len() == 16,
{
    reveal_strlit("@OUT_SUBBLOCK_W@");
}

proof fn lemma_name_12()
    ensures
        read::is_placeholder("@OUT_SUBBLOCK_NUM_TILES@"@),
        "@OUT_SUBBLOCK_NUM_TILES@"@.len() == 24,
{
    reveal_strlit("@OUT_SUBBLOCK_NUM_TILES@");
}

proof fn lemma_name_13()
    ensures
        read::is_placeholder("@OUT_BLOCK_NUM_TILES@"@),
        "@OUT_BLOCK_NUM_TILES@"@.len() == 21,
{
    reveal_strlit("@OUT_BLOCK_NUM_TILES@");
}

proof fn lemma_names(plan: MatmulWsPlan)
    ensures
        read::are_placeholders(matmul_ws::fillings(plan)),
{
    lemma_name_0();
    lemma_name_1();
    lemma_name_2();
    lemma_name_3();
    lemma_name_4();
    lemma_name_5();
    lemma_name_6();
    lemma_name_7();
    lemma_name_8();
    lemma_name_9();
    lemma_name_10();
    lemma_name_11();
    lemma_name_12();
    lemma_name_13();
    assert("@BATCH_COUNT@"@ != "@IN0_BLOCK_W@"@) by {
        reveal_strlit("@BATCH_COUNT@");
        reveal_strlit("@IN0_BLOCK_W@");
        assert("@BATCH_COUNT@"@[1] != "@IN0_BLOCK_W@"@[1]);
    }
    assert("@IN0_NUM_SUBBLOCKS@"@ != "@IN1_NUM_SUBBLOCKS@"@) by {
        reveal_strlit("@IN0_NUM_SUBBLOCKS@");
        reveal_strlit("@IN1_NUM_SUBBLOCKS@");
        assert("@IN0_NUM_SUBBLOCKS@"@[3] != "@IN1_NUM_SUBBLOCKS@"@[3]);
    }
    assert("@IN0_BLOCK_NUM_TILES@"@ != "@IN1_BLOCK_NUM_TILES@"@) by {
        reveal_strlit("@IN0_BLOCK_NUM_TILES@");
        reveal_strlit("@IN1_BLOCK_NUM_TILES@");
        assert("@IN0_BLOCK_NUM_TILES@"@[3] != "@IN1_BLOCK_NUM_TILES@"@[3]);
    }
    assert("@IN0_BLOCK_NUM_TILES@"@ != "@OUT_BLOCK_NUM_TILES@"@) by {
        reveal_strlit("@IN0_BLOCK_NUM_TILES@");
        reveal_strlit("@OUT_BLOCK_NUM_TILES@");
        assert("@IN0_BLOCK_NUM_TILES@"@[1] != "@OUT_BLOCK_NUM_TILES@"@[1]);
    }
    assert("@IN0_SUBBLOCK_NUM_TILES@"@ != "@OUT_SUBBLOCK_NUM_TILES@"@) by {
        reveal_strlit("@IN0_SUBBLOCK_NUM_TILES@");
        reveal_strlit("@OUT_SUBBLOCK_NUM_TILES@");
        assert("@IN0_SUBBLOCK_NUM_TILES@"@[1] != "@OUT_SUBBLOCK_NUM_TILES@"@[1]);
    }
    assert("@IN1_BLOCK_NUM_TILES@"@ != "@OUT_BLOCK_NUM_TILES@"@) by {
        reveal_strlit("@IN1_BLOCK_NUM_TILES@");
        reveal_strlit("@OUT_BLOCK_NUM_TILES@");
        assert("@IN1_BLOCK_NUM_TILES@"@[1] != "@OUT_BLOCK_NUM_TILES@"@[1]);
    }
    assert("@IN1_PER_CORE_W@"@ != "@OUT_SUBBLOCK_H@"@) by {
        reveal_strlit("@IN1_PER_CORE_W@");
        reveal_strlit("@OUT_SUBBLOCK_H@");
        assert("@IN1_PER_CORE_W@"@[1] != "@OUT_SUBBLOCK_H@"@[1]);
    }
    assert("@IN1_PER_CORE_W@"@ != "@OUT_SUBBLOCK_W@"@) by {
        reveal_strlit("@IN1_PER_CORE_W@");
        reveal_strlit("@OUT_SUBBLOCK_W@");
        assert("@IN1_PER_CORE_W@"@[1] != "@OUT_SUBBLOCK_W@"@[1]);
    }
    assert("@OUT_SUBBLOCK_H@"@ != "@OUT_SUBBLOCK_W@"@) by {
        reveal_strlit("@OUT_SUBBLOCK_H@");
        reveal_strlit("@OUT_SUBBLOCK_W@");
        assert("@OUT_SUBBLOCK_H@"@[14] != "@OUT_SUBBLOCK_W@"@[14]);
    }
    let list = matmul_ws::fillings(plan);
    assert forall|i: int| 0 <= i < list.len() implies read::is_placeholder(
        (#[trigger] list[i]).0,
    ) by {
    }
    assert forall|i: int, j: int| 0 <= i < j < list.len() implies (#[trigger] list[i]).0 != (
    #[trigger] list[j]).0 by {
    }
}

proof fn lemma_same_text(s: Seq<char>, list: Seq<(Seq<char>, int)>)
    ensures
        matmul_ws::filled(s, list) == read::filled(s, list),
    decreases list.len(),
{
    if list.len() > 0 {
        lemma_same_text(s, list.drop_last());
    }
}

/// The number that the compute kernel is told where its template says `name`.
pub open spec fn says(plan: MatmulWsPlan, name: Seq<char>, n: int) -> bool {
    matmul_ws::filled(name, matmul_ws::fillings(plan)) == text::dec(n)
}

/// The compute kernel is told numbers that belong together: its blocks cover the inner
/// dimension, its subblocks cover the columns that are its share, and it has one row of tiles.
pub proof fn lemma_compute_told(plan: MatmulWsPlan, tiles: Seq<DramTile>, key: MatmulWsKey)
    requires
        plan.of(tiles, key),
        plan.wf(),
    ensures
        exists|blocks: int, width: int|
            {
                &&& #[trigger] says(plan, "@NUM_BLOCKS@"@, blocks)
                &&& #[trigger] says(plan, "@IN0_BLOCK_W@"@, width)
                &&& blocks * width == key.kt
                &&& says(plan, "@IN0_BLOCK_NUM_TILES@"@, width)
                &&& says(plan, "@IN0_SUBBLOCK_NUM_TILES@"@, width)
                &&& says(plan, "@IN1_BLOCK_NUM_TILES@"@, width * plan.per_core_n)
            },
        exists|cols: int, w: int|
            {
                &&& #[trigger] says(plan, "@IN1_NUM_SUBBLOCKS@"@, cols)
                &&& #[trigger] says(plan, "@OUT_SUBBLOCK_W@"@, w)
                &&& cols * w == plan.per_core_n
                &&& says(plan, "@OUT_SUBBLOCK_NUM_TILES@"@, w)
            },
        says(plan, "@BATCH_COUNT@"@, 1),
        says(plan, "@IN1_TRANSPOSE@"@, 0),
        says(plan, "@IN0_NUM_SUBBLOCKS@"@, 1),
        says(plan, "@OUT_SUBBLOCK_H@"@, 1),
        says(plan, "@IN1_PER_CORE_W@"@, plan.per_core_n as int),
        says(plan, "@OUT_BLOCK_NUM_TILES@"@, plan.per_core_n as int),
{
    let l = matmul_ws::fillings(plan);
    lemma_names(plan);
    let n = plan.per_core_n as int;
    let (bw, w, kt) = (plan.in0_block_w as int, plan.out_subblock_w as int, plan.kt as int);
    let fits = |w: int| matmul_ws::subblock_fits(n, w);
    assert(fits(w));
    let suits = |w: int| matmul_ws::block_fits(key, w);
    assert(suits(bw));
    let (cols, blocks) = (n / w, kt / bw);
    assert(cols * w == n && cols >= 0) by (nonlinear_arith)
        requires
            cols == n / w,
            n % w == 0,
            w > 0,
            n >= 0,
    ;
    assert(blocks * bw == kt && blocks >= 0) by (nonlinear_arith)
        requires
            blocks == kt / bw,
            kt % bw == 0,
            bw > 0,
            kt >= 0,
    ;
    assert(bw * n >= 0) by (nonlinear_arith)
        requires
            bw >= 0,
            n >= 0,
    ;
    assert forall|k: int| 0 <= k < l.len() implies says(plan, (#[trigger] l[k]).0, l[k].1) by {
        lemma_same_text(l[k].0, l);
        read::lemma_filled(l, k);
    }
    assert(says(plan, l[0].0, l[0].1));
    assert(says(plan, l[1].0, l[1].1));
    assert(says(plan, l[2].0, l[2].1));
    assert(says(plan, l[3].0, l[3].1));
    assert(says(plan, l[4].0, l[4].1));
    assert(says(plan, l[5].0, l[5].1));
    assert(says(plan, l[6].0, l[6].1));
    assert(says(plan, l[7].0, l[7].1));
    assert(says(plan, l[8].0, l[8].1));
    assert(says(plan, l[9].0, l[9].1));
    assert(says(plan, l[10].0, l[10].1));
    assert(says(plan, l[11].0, l[11].1));
    assert(says(plan, l[12].0, l[12].1));
    assert(says(plan, l[13].0, l[13].1));
}

} // verus!
