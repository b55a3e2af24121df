//! Width-sharded matrix product for one row of tiles: the right operand is stored
//! as one contiguous shard of tile columns per memory bank, and each bank is read
//! only by a few cores next to it, so that reads are long runs within one bank.

use vstd::prelude::*;
use vstd::arithmetic::div_mod::*;
use crate::arith;
use crate::cores;
use crate::dispatch::MathFidelity;
use crate::dram::banks;
use crate::dram::layout;
use crate::dram::{DType, DramBuffer};
use crate::error::Error;
use crate::hw::{CoreCoord, Dram, DramTile, TensixL1};
use crate::kernels::common;
use crate::kernels::common::NewBuffer;
use crate::kernels::kernel::{CoreArgs, PerCoreRuntimeArgs};
use crate::kernels::lowering;
use crate::kernels::lowering::{CompileConfig, KernelCb, LoweredProgram};
use crate::text;

pub mod parts;

verus! {

/// The cores that read one bank.
pub const CORES_PER_BANK: usize = 4;

/// The widest block of the left operand.
pub const MAX_BLOCK_W: usize = 8;

/// Whether the right operand may be stored in shards: unless the setting says `0`.
pub fn width_sharding_enabled(setting: Option<&str>) -> (r: bool)
    ensures
        r == !(setting is Some && setting->0@ == "0"@),
{
    match setting {
        Some(s) => !text::same_text(s, "0"),
        None => true,
    }
}

/// What the program depends on.
#[derive(Clone, Copy, Debug, Hash, PartialEq, Eq)]
pub struct MatmulWsKey {
    pub kt: usize,
    pub logical_nt: usize,
    pub dtype: DType,
    pub math_fidelity: MathFidelity,
}

/// A core, the memory tile it reads from, and the first column of its part of the
/// shard.
#[derive(Clone, Copy, Debug, PartialEq, Eq, Structural)]
pub struct WsCore {
    pub core: CoreCoord,
    pub bank: CoreCoord,
    pub column: usize,
}

/// How the product is computed.
#[derive(Clone, Debug)]
pub struct MatmulWsPlan {
    pub kt: usize,
    pub logical_nt: usize,
    pub shard_nt: usize,
    pub per_core_n: usize,
    pub in0_block_w: usize,
    pub out_subblock_w: usize,
    pub cores: Vec<WsCore>,
}

/// The columns of tiles that each core computes: the columns dealt out over all
/// cores, rounded up so that blocks of four can be computed at once.
pub open spec fn per_core(logical_nt: int) -> int {
    arith::round_up(arith::ceil_div(logical_nt, 32), 4)
}

/// The memory that the buffers of a core take.
pub open spec fn buffer_bytes(block: int, per_core_n: int, tile_bytes: int) -> int {
    (2 * block + 2 * block * per_core_n + per_core_n + per_core_n) * tile_bytes
}

/// The memory that buffers may take.
pub open spec fn budget() -> int {
    TensixL1::SIZE - TensixL1::DATA_BUFFER_SPACE_BASE
}

/// Whether the left operand can be read in blocks of the given width.
pub open spec fn block_fits(key: MatmulWsKey, w: int) -> bool {
    &&& 1 <= w <= 8
    &&& w <= key.kt
    &&& key.kt % w as usize == 0
    &&& buffer_bytes(w, per_core(key.logical_nt as int), key.dtype.tile_bytes()) <= budget()
}

/// Whether a width divides the columns of a core.
pub open spec fn subblock_fits(n: int, w: int) -> bool {
    1 <= w <= 8 && w <= n && n % w == 0
}

/// Whether `w` is the largest number with a property.
pub open spec fn largest(holds: spec_fn(int) -> bool, w: int) -> bool {
    holds(w) && forall|v: int| v > w ==> !#[trigger] holds(v)
}

/// The core `i` of those that read a bank: four banks on each side, two columns of
/// cores, two rows for each bank.
pub open spec fn core_of(bank: int, i: int) -> CoreCoord {
    CoreCoord {
        x: (if bank < 4 {
            1 + i % 2
        } else {
            10 + i % 2
        }) as u8,
        y: (2 + (bank % 4) * 2 + i / 2) as u8,
    }
}

/// The tiles of a bank, in order.
pub open spec fn tiles_of(tiles: Seq<DramTile>, bank: int) -> Seq<DramTile>
    decreases tiles.len(),
{
    if tiles.len() == 0 {
        Seq::empty()
    } else if tiles.last().bank == bank {
        tiles_of(tiles.drop_last(), bank).push(tiles.last())
    } else {
        tiles_of(tiles.drop_last(), bank)
    }
}

/// Entry `e` of the list of cores.
pub open spec fn entry(tiles: Seq<DramTile>, per_core_n: int, e: int) -> WsCore {
    let (bank, i) = (e / 4, e % 4);
    let own = tiles_of(tiles, bank);
    let tile = own[i % (own.len() as int)];
    WsCore {
        core: core_of(bank, i),
        bank: CoreCoord { x: tile.x, y: tile.y },
        column: (i * per_core_n) as usize,
    }
}

/// Whether entry `e` of the list of cores can be made.
pub open spec fn entry_exists(tiles: Seq<DramTile>, workers: Seq<CoreCoord>, e: int) -> bool {
    tiles_of(tiles, e / 4).len() > 0 && workers.contains(core_of(e / 4, e % 4))
}

/// Whether the product can be computed from shards.
pub open spec fn possible(
    active: int,
    tiles: Seq<DramTile>,
    workers: Seq<CoreCoord>,
    key: MatmulWsKey,
) -> bool {
    &&& active == 8
    &&& exists|w: int| #[trigger] block_fits(key, w)
    &&& exists|w: int| #[trigger] subblock_fits(per_core(key.logical_nt as int), w)
    &&& forall|e: int| 0 <= e < 32 ==> #[trigger] entry_exists(tiles, workers, e)
}

impl MatmulWsPlan {
    /// Whether this is the plan for a key.
    pub open spec fn of(&self, tiles: Seq<DramTile>, key: MatmulWsKey) -> bool {
        let n = per_core(key.logical_nt as int);
        &&& self.kt == key.kt
        &&& self.logical_nt == key.logical_nt
        &&& self.per_core_n == n
        &&& self.shard_nt == 4 * n
        &&& largest(|w: int| block_fits(key, w), self.in0_block_w as int)
        &&& largest(|w: int| subblock_fits(n, w), self.out_subblock_w as int)
        &&& self.cores@ == Seq::new(32, |e: int| entry(tiles, n, e))
    }

    /// Whether the numbers of a plan belong together.
    pub open spec fn wf(&self) -> bool {
        &&& self.shard_nt == 4 * self.per_core_n
        &&& self.per_core_n > 0
        &&& self.logical_nt <= 8 * self.shard_nt
        &&& 1 <= self.in0_block_w <= 8
        &&& 1 <= self.out_subblock_w <= 8
        &&& self.kt * 32 <= usize::MAX
        &&& self.logical_nt * 32 <= usize::MAX
        &&& 8 * self.shard_nt <= usize::MAX
        &&& self.cores@.len() == 32
        &&& forall|e: int|
            0 <= e < 32 ==> (#[trigger] self.cores@[e]).column + self.per_core_n <= self.shard_nt
    }

    /// The columns of tiles of all shards.
    pub fn padded_nt(&self) -> (r: usize)
        requires
            8 * self.shard_nt <= usize::MAX,
        ensures
            r == 8 * self.shard_nt,
    {
        self.shard_nt * Dram::BANK_COUNT
    }
}

/// Where the shards of a right operand come from.
#[derive(Clone, Debug)]
pub enum ShardStep<'a> {
    /// They were made before, in this tensor.
    Keep(&'a DramBuffer),
    /// They are to be written to a new tensor.
    Make(NewBuffer),
}

/// Whether the shards that were made of a tensor, if any, are those of `rhs`.
pub open spec fn shards_kept(kept: Option<(&DramBuffer, &DramBuffer)>, rhs: &DramBuffer) -> bool {
    kept matches Some((source, shards)) && source.same(rhs)
}

/// Decides whether the shards that are kept for the address of a right operand, with
/// the tensor that they were made of, are used again.
pub fn sharded_rhs_for<'a>(
    kept: Option<(&'a DramBuffer, &'a DramBuffer)>,
    rhs: &DramBuffer,
    plan: &MatmulWsPlan,
) -> (r: ShardStep<'a>)
    requires
        !shards_kept(kept, rhs) ==> {
            &&& 8 * plan.shard_nt * 32 <= usize::MAX
            &&& plan.kt * 32 <= usize::MAX
            &&& plan.kt * (8 * plan.shard_nt) <= usize::MAX
        },
    ensures
        match r {
            ShardStep::Keep(shards) => {
                &&& shards_kept(kept, rhs)
                &&& kept matches Some((source, made)) && shards == made
            },
            ShardStep::Make(b) => {
                &&& !shards_kept(kept, rhs)
                &&& b.num_tiles == plan.kt * (8 * plan.shard_nt)
                &&& b.dtype == rhs.dtype
                &&& b.shape@ == seq![(plan.kt * 32) as usize, (8 * plan.shard_nt * 32) as usize]
                &&& b.name@ == rhs.name@ + "_ws"@
            },
        },
{
    if let Some((source, shards)) = kept {
        if *source == *rhs {
            return ShardStep::Keep(shards);
        }
    }
    let width: usize = plan.padded_nt();
    let shape: Vec<usize> = vec![plan.kt * 32, width * 32];
    assert(shape@ =~= seq![(plan.kt * 32) as usize, (8 * plan.shard_nt * 32) as usize]);
    ShardStep::Make(
        NewBuffer {
            num_tiles: plan.kt * width,
            dtype: rhs.dtype,
            shape,
            name: text::cat2(rhs.name.as_str(), "_ws"),
        },
    )
}

fn find_tiles(tiles: &[DramTile], bank: usize) -> (r: Vec<DramTile>)
    ensures
        r@ == tiles_of(tiles@, bank as int),
{
    let mut out: Vec<DramTile> = Vec::new();
    for i in 0..tiles.len()
        invariant
            out@ == tiles_of(tiles@.take(i as int), bank as int),
    {
        assert(tiles@.take(i + 1).drop_last() =~= tiles@.take(i as int));
        if tiles[i].bank == bank {
            out.push(tiles[i]);
        }
    }
    assert(tiles@.take(tiles@.len() as int) =~= tiles@);
    out
}

fn find_block(key: &MatmulWsKey, per_core_n: usize) -> (r: Option<usize>)
    requires
        per_core_n == per_core(key.logical_nt as int),
        buffer_bytes(8, per_core_n as int, key.dtype.tile_bytes()) <= usize::MAX,
    ensures
        match r {
            Some(w) => largest(|w: int| block_fits(*key, w), w as int),
            None => forall|w: int| !#[trigger] block_fits(*key, w),
        },
{
    let tile_bytes: usize = key.dtype.tile_size();
    let limit: usize = (TensixL1::SIZE - TensixL1::DATA_BUFFER_SPACE_BASE) as usize;
    let ghost holds = |w: int| block_fits(*key, w);
    let mut w: usize = MAX_BLOCK_W;
    while w > 0
        invariant
            w <= 8,
            per_core_n == per_core(key.logical_nt as int),
            tile_bytes == key.dtype.tile_bytes(),
            limit == budget(),
            holds == (|w: int| block_fits(*key, w)),
            buffer_bytes(8, per_core_n as int, tile_bytes as int) <= usize::MAX,
            forall|v: int| v > w ==> !#[trigger] block_fits(*key, v),
        decreases w,
    {
        if w <= key.kt && key.kt % w == 0 {
            proof {
                lemma_buffer_bytes(w as int, per_core_n as int, tile_bytes as int);
            }
            let bytes: usize = (2 * w + 2 * w * per_core_n + per_core_n + per_core_n) * tile_bytes;
            if bytes <= limit {
                assert(holds(w as int));
                return Some(w);
            }
        }
        assert(!block_fits(*key, w as int));
        w = w - 1;
    }
    None
}

proof fn lemma_buffer_bytes(w: int, n: int, t: int)
    requires
        1 <= w <= 8,
        n >= 0,
        t > 0,
        buffer_bytes(8, n, t) <= usize::MAX,
    ensures
        0 <= 2 * w * n <= 2 * 8 * n,
        0 <= 2 * w + 2 * w * n + n + n <= usize::MAX,
        0 <= buffer_bytes(w, n, t) <= usize::MAX,
{
    assert(0 <= 2 * w * n <= 2 * 8 * n) by (nonlinear_arith)
        requires
            1 <= w <= 8,
            n >= 0,
    ;
    let a = 2 * w + 2 * w * n + n + n;
    let b = 2 * 8 + 2 * 8 * n + n + n;
    assert(0 <= a * t <= b * t && a <= a * t) by (nonlinear_arith)
        requires
            0 <= a <= b,
            t > 0,
    ;
}

fn find_subblock(n: usize) -> (r: Option<usize>)
    ensures
        match r {
            Some(w) => largest(|w: int| subblock_fits(n as int, w), w as int),
            None => forall|w: int| !#[trigger] subblock_fits(n as int, w),
        },
{
    let ghost holds = |w: int| subblock_fits(n as int, w);
    let mut w: usize = 8;
    while w > 0
        invariant
            w <= 8,
            holds == (|w: int| subblock_fits(n as int, w)),
            forall|v: int| v > w ==> !#[trigger] subblock_fits(n as int, v),
        decreases w,
    {
        if w <= n && n % w == 0 {
            assert(holds(w as int));
            return Some(w);
        }
        assert(!subblock_fits(n as int, w as int));
        w = w - 1;
    }
    None
}

fn place_cores(tiles: &[DramTile], workers: &[CoreCoord], per_core_n: usize) -> (r: Option<
    Vec<WsCore>,
>)
    requires
        4 * per_core_n <= usize::MAX,
    ensures
        match r {
            Some(v) => (forall|e: int|
                0 <= e < 32 ==> #[trigger] entry_exists(tiles@, workers@, e)) && v@ == Seq::new(
                32,
                |e: int| entry(tiles@, per_core_n as int, e),
            ),
            None => exists|e: int| 0 <= e < 32 && !#[trigger] entry_exists(tiles@, workers@, e),
        },
{
    let ghost want = Seq::new(32, |e: int| entry(tiles@, per_core_n as int, e));
    let mut out: Vec<WsCore> = Vec::new();
    for e in 0..32usize
        invariant
            4 * per_core_n <= usize::MAX,
            want == Seq::new(32, |e: int| entry(tiles@, per_core_n as int, e)),
            out@ == want.take(e as int),
            forall|f: int| 0 <= f < e ==> #[trigger] entry_exists(tiles@, workers@, f),
    {
        let bank: usize = e / 4;
        let i: usize = e % 4;
        let own = find_tiles(tiles, bank);
        if own.len() == 0 {
            assert(!entry_exists(tiles@, workers@, e as int));
            return None;
        }
        let first: u8 = if bank < 4 {
            1
        } else {
            10
        };
        let core = CoreCoord { x: first + (i % 2) as u8, y: 2 + (bank % 4) as u8 * 2 + (i / 2) as u8 };
        if !cores::contains_core(workers, core) {
            assert(!entry_exists(tiles@, workers@, e as int));
            return None;
        }
        assert(entry_exists(tiles@, workers@, e as int));
        let tile: DramTile = own[i % own.len()];
        assert(i * per_core_n <= 4 * per_core_n) by (nonlinear_arith)
            requires
                i < 4,
        ;
        out.push(
            WsCore { core, bank: CoreCoord { x: tile.x, y: tile.y }, column: i * per_core_n },
        );
        assert(out@ =~= want.take(e + 1));
    }
    assert(want.take(32) =~= want);
    Some(out)
}

/// Cores whose columns take more memory than there is cannot read blocks of any width.
proof fn lemma_too_wide(key: MatmulWsKey, n: int)
    requires
        n == per_core(key.logical_nt as int),
        n * 1024 > budget(),
    ensures
        forall|w: int| !#[trigger] block_fits(key, w),
{
    let t = key.dtype.tile_bytes();
    assert forall|w: int| !#[trigger] block_fits(key, w) by {
        if 1 <= w {
            assert(buffer_bytes(w, n, t) >= n * 1024) by (nonlinear_arith)
                requires
                    w >= 1,
                    n >= 0,
                    t >= 1024,
                    buffer_bytes(w, n, t) == (2 * w + 2 * w * n + n + n) * t,
            ;
        }
    }
}

/// Plans the product, where the right operand can be stored in shards.
pub fn plan_width_sharded(
    active_dram_banks: usize,
    dram_tiles: &[DramTile],
    workers: &[CoreCoord],
    key: &MatmulWsKey,
) -> (r: Option<MatmulWsPlan>)
    ensures
        match r {
            Some(p) => {
                &&& possible(active_dram_banks as int, dram_tiles@, workers@, *key)
                &&& p.of(dram_tiles@, *key)
                &&& key.kt * 32 <= usize::MAX ==> p.wf()
                &&& 2 * p.in0_block_w * p.per_core_n <= usize::MAX
            },
            None => !possible(active_dram_banks as int, dram_tiles@, workers@, *key),
        },
{
    if active_dram_banks != Dram::BANK_COUNT {
        return None;
    }
    let each: usize = arith::div_ceil(key.logical_nt, 32);
    let limit: usize = (TensixL1::SIZE - TensixL1::DATA_BUFFER_SPACE_BASE) as usize;
    proof {
        arith::lemma_ceil_div(key.logical_nt as int, 32);
        arith::lemma_round_up(key.logical_nt as int, 32);
        arith::lemma_ceil_div(each as int, 4);
        arith::lemma_round_up(each as int, 4);
    }
    let per_core_n: usize = arith::div_ceil(each, 4) * 4;
    if per_core_n > limit / 1024 {
        proof {
            lemma_too_wide(*key, per_core_n as int);
        }
        return None;
    }
    proof {
        let n = per_core_n as int;
        let t = key.dtype.tile_bytes();
        assert(buffer_bytes(8, n, t) <= 0x1000_0000) by (nonlinear_arith)
            requires
                0 <= n <= 1316,
                0 < t <= 4096,
                buffer_bytes(8, n, t) == (2 * 8 + 2 * 8 * n + n + n) * t,
        ;
    }
    let shard_nt: usize = per_core_n * CORES_PER_BANK;
    let in0_block_w: usize = match find_block(key, per_core_n) {
        Some(w) => w,
        None => {
            return None;
        },
    };
    let out_subblock_w: usize = match find_subblock(per_core_n) {
        Some(w) => w,
        None => {
            return None;
        },
    };
    assert(block_fits(*key, in0_block_w as int));
    assert(subblock_fits(per_core_n as int, out_subblock_w as int));
    let list = match place_cores(dram_tiles, workers, per_core_n) {
        Some(v) => v,
        None => {
            return None;
        },
    };
    let plan = MatmulWsPlan {
        kt: key.kt,
        logical_nt: key.logical_nt,
        shard_nt,
        per_core_n,
        in0_block_w,
        out_subblock_w,
        cores: list,
    };
    proof {
        assert(per_core_n <= 1316);
        assert(key.logical_nt <= 32 * each && each <= per_core_n);
        assert(plan.of(dram_tiles@, *key));
        assert(2 * plan.in0_block_w * plan.per_core_n <= 0x1_0000) by (nonlinear_arith)
            requires
                plan.in0_block_w <= 8,
                plan.per_core_n <= 1316,
        ;
        assert forall|e: int| 0 <= e < 32 implies (#[trigger] plan.cores@[e]).column
            + plan.per_core_n <= plan.shard_nt by {
            assert((e % 4) * per_core_n + per_core_n <= 4 * per_core_n) by (nonlinear_arith)
                requires
                    0 <= e % 4 <= 3,
                    per_core_n >= 0,
            ;
            assert((e % 4) * per_core_n >= 0) by (nonlinear_arith)
                requires
                    0 <= e % 4,
                    per_core_n >= 0,
            ;
        }
    }
    Some(plan)
}

/// The tiles of the right operand, put in the order in which an interleaved write
/// leaves each shard contiguous in its bank. Page `p` goes to bank `p % 8`; there
/// it is page `p / 8`, which is column `(p / 8) % shard` of row `(p / 8) / shard`
/// of the shard.
pub open spec fn sharded(data: Seq<u8>, kt: int, logical_nt: int, shard: int, tile: int) -> Seq<u8> {
    Seq::new(
        (kt * (8 * shard) * tile) as nat,
        |x: int|
            {
                let (slot, bank) = (x / tile / 8, x / tile % 8);
                let (k, n) = (slot / shard, bank * shard + slot % shard);
                if n < logical_nt {
                    data[(k * logical_nt + n) * tile + x % tile]
                } else {
                    0u8
                }
            },
    )
}

/// The shard of a bank: rows of `shard` tiles, the columns from `bank * shard` on,
/// with zeros in the columns that the right operand does not have.
pub open spec fn shard_of(
    data: Seq<u8>,
    kt: int,
    logical_nt: int,
    shard: int,
    tile: int,
    bank: int,
) -> Seq<u8> {
    Seq::new(
        (kt * shard * tile) as nat,
        |x: int|
            {
                let (k, n) = (x / tile / shard, bank * shard + x / tile % shard);
                if n < logical_nt {
                    data[(k * logical_nt + n) * tile + x % tile]
                } else {
                    0u8
                }
            },
    )
}

/// An interleaved write of the reordered tiles puts into each bank its shard, one
/// row after the other.
pub proof fn lemma_shard_contiguous(
    data: Seq<u8>,
    kt: int,
    logical_nt: int,
    shard: int,
    tile: int,
    bank: int,
)
    requires
        kt >= 0,
        shard > 0,
        tile > 0,
        0 <= bank < 8,
    ensures
        banks::strided_pages(sharded(data, kt, logical_nt, shard, tile), tile, bank, 8) == shard_of(
            data,
            kt,
            logical_nt,
            shard,
            tile,
            bank,
        ),
{
    let s = sharded(data, kt, logical_nt, shard, tile);
    let m = kt * shard;
    let written = banks::strided_pages(s, tile, bank, 8);
    let want = shard_of(data, kt, logical_nt, shard, tile, bank);
    assert(m >= 0) by (nonlinear_arith)
        requires
            m == kt * shard,
            kt >= 0,
            shard > 0,
    ;
    assert(kt * (8 * shard) == 8 * m) by (nonlinear_arith)
        requires
            m == kt * shard,
    ;
    assert(8 * m * tile >= 0 && m * tile >= 0) by (nonlinear_arith)
        requires
            m >= 0,
            tile > 0,
    ;
    assert((bank + (m - 1) * 8 + 1) * tile <= 8 * m * tile && 8 * m * tile <= (bank + m * 8) * tile)
        by (nonlinear_arith)
        requires
            0 <= bank < 8,
            tile > 0,
    ;
    banks::lemma_strided_len(s, tile, bank, 8, m);
    assert forall|x: int| 0 <= x < m * tile implies #[trigger] written[x] == want[x] by {
        let slot = x / tile;
        let j = x % tile;
        lemma_fundamental_div_mod(x, tile);
        lemma_mod_bound(x, tile);
        lemma_div_pos_is_pos(x, tile);
        assert(tile * slot == slot * tile) by (nonlinear_arith);
        assert(slot < m) by (nonlinear_arith)
            requires
                x == slot * tile + j,
                0 <= j,
                x < m * tile,
                tile > 0,
        ;
        let page = slot * 8 + bank;
        layout::lemma_div_mod(slot, 8, bank);
        let y = page * tile + j;
        layout::lemma_div_mod(page, tile, j);
        assert(0 <= y < 8 * m * tile) by (nonlinear_arith)
            requires
                y == page * tile + j,
                0 <= page < 8 * m,
                0 <= j < tile,
        ;
        assert(s[y] == want[x]);
        assert((page - bank) / 8 == slot && (page - bank) % 8 == 0);
        banks::lemma_strided_byte(s, tile, bank, 8, y);
    }
    assert(written =~= want);
}

/// Tile `j` of row `k` of a bank's shard is the tile of the right operand in that row
/// and column `bank * shard + j`, or holds zeros where there is no such column.
pub proof fn lemma_shard_page(
    data: Seq<u8>,
    kt: int,
    logical_nt: int,
    shard: int,
    tile: int,
    bank: int,
    k: int,
    j: int,
)
    requires
        0 <= k < kt,
        0 <= j < shard,
        logical_nt >= 0,
        tile > 0,
        0 <= bank < 8,
        data.len() == kt * logical_nt * tile,
    ensures
        ({
            let pages = sharded(data, kt, logical_nt, shard, tile);
            let held = banks::strided_pages(pages, tile, bank, 8);
            let n = bank * shard + j;
            &&& held.len() == kt * shard * tile
            &&& banks::page(held, tile, k * shard + j) == if n < logical_nt {
                banks::page(data, tile, k * logical_nt + n)
            } else {
                Seq::new(tile as nat, |i: int| 0u8)
            }
        }),
{
    lemma_shard_contiguous(data, kt, logical_nt, shard, tile, bank);
    let held = shard_of(data, kt, logical_nt, shard, tile, bank);
    let slot = k * shard + j;
    let n = bank * shard + j;
    layout::lemma_div_mod(k, shard, j);
    layout::lemma_below(k, kt, shard, j);
    let m = kt * shard;
    assert(0 <= slot * tile && slot * tile + tile <= m * tile) by (nonlinear_arith)
        requires
            0 <= slot,
            slot + 1 <= m,
            tile > 0,
    ;
    let got = banks::page(held, tile, slot);
    assert(n >= 0) by (nonlinear_arith)
        requires
            n == bank * shard + j,
            bank >= 0,
            shard >= 0,
            j >= 0,
    ;
    assert forall|i: int| 0 <= i < tile implies got[i] == #[trigger] held[slot * tile + i] by {
    }
    assert forall|i: int| 0 <= i < tile implies #[trigger] got[i] == if n < logical_nt {
        data[(k * logical_nt + n) * tile + i]
    } else {
        0u8
    } by {
        layout::lemma_div_mod(slot, tile, i);
        assert(got[i] == held[slot * tile + i]);
    }
    if n < logical_nt {
        let p = k * logical_nt + n;
        layout::lemma_below(k, kt, logical_nt, n);
        let all = kt * logical_nt;
        assert(0 <= p * tile && p * tile + tile <= all * tile) by (nonlinear_arith)
            requires
                0 <= p,
                p + 1 <= all,
                tile > 0,
        ;
        assert(got =~= banks::page(data, tile, p));
    } else {
        assert(got =~= Seq::new(tile as nat, |i: int| 0u8));
    }
}

/// Reorders the tiles of the right operand into shards.
pub fn shard_pages(data: &[u8], plan: &MatmulWsPlan, tile_bytes: usize) -> (r: Vec<u8>)
    requires
        plan.shard_nt > 0,
        plan.logical_nt <= 8 * plan.shard_nt <= usize::MAX,
        tile_bytes > 0,
        plan.kt * (8 * plan.shard_nt) * tile_bytes <= usize::MAX,
        data@.len() == plan.kt * plan.logical_nt * tile_bytes,
    ensures
        r@ == sharded(
            data@,
            plan.kt as int,
            plan.logical_nt as int,
            plan.shard_nt as int,
            tile_bytes as int,
        ),
{
    let shard: usize = plan.shard_nt;
    let nt: usize = plan.logical_nt;
    let ghost (kt, tile) = (plan.kt as int, tile_bytes as int);
    let ghost want = sharded(data@, kt, nt as int, shard as int, tile);
    proof {
        assert(kt * (8 * shard) <= kt * (8 * shard) * tile) by (nonlinear_arith)
            requires
                kt * (8 * shard) >= 0,
                tile >= 1,
        ;
        assert(kt * (8 * shard) >= 0) by (nonlinear_arith)
            requires
                kt >= 0,
                shard >= 0,
        ;
    }
    let pages: usize = plan.kt * plan.padded_nt();
    let total: usize = data.len();
    let mut out: Vec<u8> = Vec::new();
    assert(0 * tile == 0);
    assert(out@ =~= want.take(0));
    for p in 0..pages
        invariant
            shard > 0,
            8 * shard <= usize::MAX,
            tile_bytes > 0,
            shard == plan.shard_nt,
            nt == plan.logical_nt,
            kt == plan.kt,
            tile == tile_bytes,
            pages == kt * (8 * shard),
            pages * tile <= usize::MAX,
            total == data@.len(),
            total == kt * nt * tile,
            want == sharded(data@, kt, nt as int, shard as int, tile),
            out@ == want.take(p * tile),
    {
        let slot: usize = p / 8;
        let bank: usize = p % 8;
        let k: usize = slot / shard;
        proof {
            assert(slot < kt * shard) by (nonlinear_arith)
                requires
                    slot == p / 8,
                    p < kt * (8 * shard),
            ;
            lemma_fundamental_div_mod(slot as int, shard as int);
            lemma_mod_bound(slot as int, shard as int);
            assert(k < kt) by (nonlinear_arith)
                requires
                    slot == shard * k + slot % shard,
                    slot % shard >= 0,
                    slot < kt * shard,
                    shard > 0,
            ;
            assert(bank * shard <= 7 * shard) by (nonlinear_arith)
                requires
                    bank <= 7,
            ;
            assert(p * tile + tile <= pages * tile) by (nonlinear_arith)
                requires
                    p + 1 <= pages,
                    tile > 0,
            ;
            assert(p * tile >= 0) by (nonlinear_arith)
                requires
                    p >= 0,
                    tile > 0,
            ;
        }
        let n: usize = bank * shard + slot % shard;
        let mut from: usize = 0;
        if n < nt {
            proof {
                assert((k * nt + n) * tile + tile <= kt * nt * tile && k * nt + n <= (k * nt + n)
                    * tile && k * nt >= 0) by (nonlinear_arith)
                    requires
                        0 <= k < kt,
                        0 <= n < nt,
                        tile > 0,
                ;
                assert(k * nt + n <= total);
            }
            from = (k * nt + n) * tile_bytes;
        }
        for j in 0..tile_bytes
            invariant
                tile_bytes > 0,
                tile == tile_bytes,
                p < pages,
                pages * tile <= usize::MAX,
                p * tile + tile <= pages * tile,
                0 <= p * tile,
                pages == kt * (8 * shard),
                slot == p / 8,
                bank == p % 8,
                k == slot / shard,
                n == bank * shard + slot % shard,
                total == data@.len(),
                n < nt ==> from == (k * nt + n) * tile && from + tile <= total,
                want == sharded(data@, kt, nt as int, shard as int, tile),
                out@ == want.take(p * tile + j),
        {
            proof {
                layout::lemma_div_mod(p as int, tile, j as int);
            }
            let ghost x = p * tile + j;
            if n < nt {
                out.push(data[from + j]);
            } else {
                out.push(0);
            }
            assert(want[x] == out@.last());
            assert(out@ =~= want.take(x + 1));
        }
        assert(p * tile + tile == (p + 1) * tile) by (nonlinear_arith);
    }
    assert(want.take(pages * tile) =~= want);
    out
}

/// The arguments of the cores.
pub open spec fn program_args(plan: MatmulWsPlan) -> spec_fn(int) -> CoreArgs {
    |e: int|
        {
            let c = plan.cores@[e];
            (
                seq![
                    0u32,
                    ((e / 4) * plan.shard_nt + c.column) as u32,
                    plan.per_core_n as u32,
                    plan.out_subblock_w as u32,
                    plan.logical_nt as u32,
                ],
                seq![
                    0u32,
                    0u32,
                    c.bank.x as u32,
                    c.bank.y as u32,
                    plan.kt as u32,
                    plan.in0_block_w as u32,
                    plan.per_core_n as u32,
                    plan.shard_nt as u32,
                    c.column as u32,
                ],
                Seq::<u32>::empty(),
            )
        }
}

/// Where a plan deals out all columns, its cores cover them without gaps: the part
/// of each core starts where the one before it ends.
pub proof fn lemma_columns_follow(plan: MatmulWsPlan, tiles: Seq<DramTile>, key: MatmulWsKey, e: int)
    requires
        plan.of(tiles, key),
        plan.wf(),
        0 <= e < 31,
    ensures
        plan.cores@[0].column == 0,
        ((e + 1) / 4) * plan.shard_nt + plan.cores@[e + 1].column == (e / 4) * plan.shard_nt
            + plan.cores@[e].column + plan.per_core_n,
{
    let n = plan.per_core_n as int;
    let (b, i) = (e / 4, e % 4);
    assert(plan.cores@[e] == entry(tiles, n, e));
    assert(plan.cores@[e + 1] == entry(tiles, n, e + 1));
    assert(plan.cores@[0] == entry(tiles, n, 0));
    assert(0 * n == 0);
    assert(i * n <= 4 * n && i * n >= 0) by (nonlinear_arith)
        requires
            0 <= i <= 3,
            n >= 0,
    ;
    if i < 3 {
        assert((i + 1) * n == i * n + n) by (nonlinear_arith);
        assert((i + 1) * n <= 4 * n && (i + 1) * n >= 0) by (nonlinear_arith)
            requires
                0 <= i <= 2,
                n >= 0,
        ;
    } else {
        assert((b + 1) * (4 * n) == b * (4 * n) + 4 * n) by (nonlinear_arith);
        assert(3 * n + n == 4 * n);
    }
}

/// The placeholders of the compute kernel and the numbers that fill them.
pub open spec fn fillings(plan: MatmulWsPlan) -> Seq<(Seq<char>, int)> {
    let w = plan.in0_block_w as int;
    let n = plan.per_core_n as int;
    let s = plan.out_subblock_w as int;
    seq![
        ("@BATCH_COUNT@"@, 1int),
        ("@IN1_TRANSPOSE@"@, 0),
        ("@IN0_BLOCK_W@"@, w),
        ("@IN0_NUM_SUBBLOCKS@"@, 1),
        ("@IN0_BLOCK_NUM_TILES@"@, w),
        ("@IN0_SUBBLOCK_NUM_TILES@"@, w),
        ("@IN1_NUM_SUBBLOCKS@"@, n / s),
        ("@IN1_BLOCK_NUM_TILES@"@, w * n),
        ("@IN1_PER_CORE_W@"@, n),
        ("@NUM_BLOCKS@"@, plan.kt as int / w),
        ("@OUT_SUBBLOCK_H@"@, 1),
        ("@OUT_SUBBLOCK_W@"@, s),
        ("@OUT_SUBBLOCK_NUM_TILES@"@, s),
        ("@OUT_BLOCK_NUM_TILES@"@, n),
    ]
}

/// A text with placeholders filled, one after the other.
pub open spec fn filled(s: Seq<char>, list: Seq<(Seq<char>, int)>) -> Seq<char>
    decreases list.len(),
{
    if list.len() == 0 {
        s
    } else {
        text::replaced(
            filled(s, list.drop_last()),
            list.last().0,
            text::dec(list.last().1),
        )
    }
}

fn fill(src: &mut String, Ghost(start): Ghost<Seq<char>>, Ghost(list): Ghost<
    Seq<(Seq<char>, int)>,
>, token: &str, value: usize)
    requires
        old(src)@ == filled(start, list),
        token@.len() > 0,
    ensures
        final(src)@ == filled(start, list.push((token@, value as int))),
{
    let number = text::decimal_usize(value);
    let next = text::replace_text(src.as_str(), token, number.as_str());
    *src = next;
    assert(list.push((token@, value as int)).drop_last() =~= list);
}

proof fn lemma_tokens()
    ensures
        "@BATCH_COUNT@"@.len() > 0,
        "@IN1_TRANSPOSE@"@.len() > 0,
        "@IN0_BLOCK_W@"@.len() > 0,
        "@IN0_NUM_SUBBLOCKS@"@.len() > 0,
        "@IN0_BLOCK_NUM_TILES@"@.len() > 0,
        "@IN0_SUBBLOCK_NUM_TILES@"@.len() > 0,
        "@IN1_NUM_SUBBLOCKS@"@.len() > 0,
        "@IN1_BLOCK_NUM_TILES@"@.len() > 0,
        "@IN1_PER_CORE_W@"@.len() > 0,
        "@NUM_BLOCKS@"@.len() > 0,
        "@OUT_SUBBLOCK_H@"@.len() > 0,
        "@OUT_SUBBLOCK_W@"@.len() > 0,
        "@OUT_SUBBLOCK_NUM_TILES@"@.len() > 0,
        "@OUT_BLOCK_NUM_TILES@"@.len() > 0,
{
    reveal_strlit("@BATCH_COUNT@");
    reveal_strlit("@IN1_TRANSPOSE@");
    reveal_strlit("@IN0_BLOCK_W@");
    reveal_strlit("@IN0_NUM_SUBBLOCKS@");
    reveal_strlit("@IN0_BLOCK_NUM_TILES@");
    reveal_strlit("@IN0_SUBBLOCK_NUM_TILES@");
    reveal_strlit("@IN1_NUM_SUBBLOCKS@");
    reveal_strlit("@IN1_BLOCK_NUM_TILES@");
    reveal_strlit("@IN1_PER_CORE_W@");
    reveal_strlit("@NUM_BLOCKS@");
    reveal_strlit("@OUT_SUBBLOCK_H@");
    reveal_strlit("@OUT_SUBBLOCK_W@");
    reveal_strlit("@OUT_SUBBLOCK_NUM_TILES@");
    reveal_strlit("@OUT_BLOCK_NUM_TILES@");
}

/// The source of the compute kernel.
pub fn compute_src(plan: &MatmulWsPlan, template: &str) -> (r: String)
    requires
        plan.wf(),
        plan.in0_block_w * plan.per_core_n <= usize::MAX,
    ensures
        r@ == filled(template@, fillings(*plan)),
{
    let w: usize = plan.in0_block_w;
    let n: usize = plan.per_core_n;
    let s: usize = plan.out_subblock_w;
    let ghost t = template@;
    let ghost all = fillings(*plan);
    proof {
        lemma_tokens();
    }
    let values: Vec<usize> = vec![
        1usize,
        0,
        w,
        1,
        w,
        w,
        n / s,
        w * n,
        n,
        plan.kt / w,
        1,
        s,
        s,
        n,
    ];
    let tokens: Vec<&'static str> = vec![
        "@BATCH_COUNT@",
        "@IN1_TRANSPOSE@",
        "@IN0_BLOCK_W@",
        "@IN0_NUM_SUBBLOCKS@",
        "@IN0_BLOCK_NUM_TILES@",
        "@IN0_SUBBLOCK_NUM_TILES@",
        "@IN1_NUM_SUBBLOCKS@",
        "@IN1_BLOCK_NUM_TILES@",
        "@IN1_PER_CORE_W@",
        "@NUM_BLOCKS@",
        "@OUT_SUBBLOCK_H@",
        "@OUT_SUBBLOCK_W@",
        "@OUT_SUBBLOCK_NUM_TILES@",
        "@OUT_BLOCK_NUM_TILES@",
    ];
    assert forall|i: int| 0 <= i < 14 implies all[i] == (
        (#[trigger] tokens@[i])@,
        values@[i] as int,
    ) && tokens@[i]@.len() > 0 by {}
    let mut src = template.to_owned();
    assert(src@ == filled(t, all.take(0)));
    for i in 0..14usize
        invariant
            values@.len() == 14,
            tokens@.len() == 14,
            all.len() == 14,
            forall|i: int|
                0 <= i < 14 ==> all[i] == ((#[trigger] tokens@[i])@, values@[i] as int)
                    && tokens@[i]@.len() > 0,
            src@ == filled(t, all.take(i as int)),
    {
        assert(tokens@[i as int]@.len() > 0);
        fill(&mut src, Ghost(t), Ghost(all.take(i as int)), tokens[i], values[i]);
        assert(all.take(i + 1) =~= all.take(i as int).push(all[i as int]));
    }
    assert(all.take(14) =~= all);
    src
}

/// The buffers of the program.
pub open spec fn program_cbs(plan: MatmulWsPlan, dtype: DType) -> Seq<KernelCb> {
    let w = plan.in0_block_w as int;
    let n = plan.per_core_n as int;
    seq![
        KernelCb::sized(0, dtype, (2 * w) as usize),
        KernelCb::sized(1, dtype, (2 * w * n) as usize),
        KernelCb::sized(16, dtype, n as usize),
        KernelCb::sized(24, dtype, n as usize),
    ]
}

pub open spec fn listed(plan: MatmulWsPlan) -> Seq<CoreCoord> {
    plan.cores@.map_values(|c: WsCore| c.core)
}

fn list_cores(plan: &MatmulWsPlan) -> (r: Vec<CoreCoord>)
    ensures
        r@ == listed(*plan),
{
    let mut out: Vec<CoreCoord> = Vec::new();
    for i in 0..plan.cores.len()
        invariant
            out@ == listed(*plan).take(i as int),
    {
        out.push(plan.cores[i].core);
        assert(out@ =~= listed(*plan).take(i + 1));
    }
    assert(listed(*plan).take(plan.cores@.len() as int) =~= listed(*plan));
    out
}

fn list_args(plan: &MatmulWsPlan) -> (r: Vec<PerCoreRuntimeArgs>)
    requires
        plan.wf(),
    ensures
        r@.len() == 32,
        forall|e: int| 0 <= e < 32 ==> (#[trigger] r@[e])@ == program_args(*plan)(e),
{
    let mut out: Vec<PerCoreRuntimeArgs> = Vec::new();
    for e in 0..32usize
        invariant
            plan.wf(),
            out@.len() == e,
            forall|f: int| 0 <= f < e ==> (#[trigger] out@[f])@ == program_args(*plan)(f),
    {
        let c: WsCore = plan.cores[e];
        assert(plan.cores@[e as int].column + plan.per_core_n <= plan.shard_nt);
        assert((e / 4) * plan.shard_nt <= 7 * plan.shard_nt) by (nonlinear_arith)
            requires
                e / 4 <= 7,
        ;
        let global: usize = (e / 4) * plan.shard_nt + c.column;
        let writer: Vec<u32> = vec![
            0u32,
            global as u32,
            plan.per_core_n as u32,
            plan.out_subblock_w as u32,
            plan.logical_nt as u32,
        ];
        let reader: Vec<u32> = vec![
            0u32,
            0u32,
            c.bank.x as u32,
            c.bank.y as u32,
            plan.kt as u32,
            plan.in0_block_w as u32,
            plan.per_core_n as u32,
            plan.shard_nt as u32,
            c.column as u32,
        ];
        let ghost want = program_args(*plan)(e as int);
        assert(writer@ =~= want.0);
        assert(reader@ =~= want.1);
        let compute: Vec<u32> = Vec::new();
        assert(compute@ =~= want.2);
        out.push(PerCoreRuntimeArgs { writer, reader, compute });
    }
    out
}

/// Builds the program of the product from its kernels.
pub fn matmul_ws_program(
    key: &MatmulWsKey,
    plan: &MatmulWsPlan,
    reader_source: &str,
    compute_template: &str,
    writer_source: &str,
) -> (r: Result<LoweredProgram, Error>)
    requires
        plan.wf(),
        2 * plan.in0_block_w * plan.per_core_n <= usize::MAX,
    ensures
        match r {
            Ok(p) => {
                &&& lowering::listed_refusal(listed(*plan)) is None
                &&& p.reader_kernel@ == reader_source@
                &&& p.compute_kernel@ == filled(compute_template@, fillings(*plan))
                &&& p.writer_kernel@ == writer_source@
                &&& p.is_uniform()
                &&& p.name@ == "matmul_ws_"@ + key.dtype.shown() + "_"@ + text::dec(plan.kt * 32)
                    + "x"@ + text::dec(plan.logical_nt * 32)
                &&& p.compile@ == (lowering::Config {
                    math_fidelity: key.math_fidelity,
                    ..lowering::plain_config(program_cbs(*plan, key.dtype))
                })
                &&& lowering::assigns(
                    p.runtime_args,
                    listed(*plan),
                    program_args(*plan),
                    0,
                    common::first_dynamic(1, 2),
                )
            },
            Err(e) => lowering::listed_refusal(listed(*plan)) == Some(e@),
        },
{
    let list = list_cores(plan);
    let each = list_args(plan);
    proof {
        assert forall|j: int| 0 <= j < each@.len() implies (#[trigger] each@[j])@.0.len()
            == each@[0]@.0.len() && each@[j]@.1.len() == each@[0]@.1.len() && each@[j]@.2.len()
            == each@[0]@.2.len() by {
            assert(each@[0]@ == program_args(*plan)(0));
        }
        assert(each@[0]@ == program_args(*plan)(0));
    }
    let writer_dynamic = common::index_list(1);
    let reader_dynamic = common::index_list(2);
    let args = lowering::lower_each(list.as_slice(), &each, writer_dynamic, reader_dynamic)?;
    proof {
        lowering::lemma_assigns_each(
            args,
            list@,
            each@,
            program_args(*plan),
            0,
            common::first_dynamic(1, 2),
        );
    }
    let w: usize = plan.in0_block_w;
    let n: usize = plan.per_core_n;
    assert(w * n <= 2 * w * n && w * n >= 0) by (nonlinear_arith)
        requires
            w >= 0,
            n >= 0,
    ;
    let cbs: Vec<KernelCb> = vec![
        KernelCb::new(0, key.dtype).with_tiles(2 * w),
        KernelCb::new(1, key.dtype).with_tiles(2 * w * n),
        KernelCb::new(16, key.dtype).with_tiles(n),
        KernelCb::new(24, key.dtype).with_tiles(n),
    ];
    assert(cbs@ =~= program_cbs(*plan, key.dtype));
    let mut compile = CompileConfig::plain(cbs);
    compile.math_fidelity = key.math_fidelity;
    Ok(
        LoweredProgram::uniform(
            reader_source.to_owned(),
            compute_src(plan, compute_template),
            writer_source.to_owned(),
            text::cat6(
                "matmul_ws_",
                key.dtype.name(),
                "_",
                text::decimal_usize(plan.kt * 32).as_str(),
                "x",
                text::decimal_usize(plan.logical_nt * 32).as_str(),
            ),
            compile,
            args,
        ),
    )
}

} // verus!
