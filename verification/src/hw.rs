//! Hardware constants and coordinates.

use vstd::prelude::*;
use crate::arith;
use crate::text;

verus! {

/// A core position on the network on chip.
#[derive(Clone, Copy, Debug, PartialEq, Eq, Structural, Hash, PartialOrd, Ord)]
pub struct CoreCoord {
    pub x: u8,
    pub y: u8,
}

impl CoreCoord {
    /// Column-major order of positions: first by `x`, then by `y`.
    pub open spec fn before(self, other: CoreCoord) -> bool {
        self.x < other.x || (self.x == other.x && self.y < other.y)
    }

    pub fn is_before(self, other: CoreCoord) -> (r: bool)
        ensures
            r == self.before(other),
    {
        self.x < other.x || (self.x == other.x && self.y < other.y)
    }

    /// The position as `x,y`.
    pub open spec fn shown(self) -> Seq<char> {
        text::dec(self.x as int) + ","@ + text::dec(self.y as int)
    }

    pub fn to_string(self) -> (s: String)
        ensures
            s@ == self.shown(),
    {
        text::cat3(
            text::decimal(self.x as u64).as_str(),
            ",",
            text::decimal(self.y as u64).as_str(),
        )
    }
}

/// A memory controller tile and the bank behind it.
#[derive(Clone, Copy, Debug, PartialEq, Eq, Structural)]
pub struct DramTile {
    pub bank: usize,
    pub x: u8,
    pub y: u8,
}

/// The on-chip management controller.
pub struct Arc;

/// How many of the `n` lowest bits of `mask` are set.
pub open spec fn set_bits(mask: u32, n: int) -> int
    decreases n,
{
    if n <= 0 {
        0
    } else {
        set_bits(mask, n - 1) + (if (mask >> ((n - 1) as u32)) & 1 == 1 {
            1int
        } else {
            0int
        })
    }
}

impl Arc {
    pub const TILE_X: u8 = 8;

    pub const TILE_Y: u8 = 0;

    pub const NOC_BASE: u64 = 0x8000_0000;

    pub const SCRATCH_RAM_13: usize = 0x30434;

    pub const DEFAULT_TENSIX_ENABLED: u32 = 0x3fff;

    pub const TAG_TENSIX_ENABLED_COL: u16 = 34;

    pub const TAG_GDDR_ENABLED: u16 = 36;

    pub const DEFAULT_GDDR_ENABLED: u32 = 0xff;

    pub const TLB_SIZE_2M: u64 = 0x20_0000;

    /// Each of the fourteen columns that is enabled has ten cores.
    pub fn active_tensix_core_count(enabled_col_mask: u32) -> (r: usize)
        ensures
            r == set_bits(enabled_col_mask, 14) * 10,
    {
        let mut count: usize = 0;
        for i in 0..14u32
            invariant
                count == set_bits(enabled_col_mask, i as int),
                count <= i,
        {
            if (enabled_col_mask >> i) & 1 == 1 {
                count = count + 1;
            }
        }
        count * 10
    }
}

/// Addresses of the core control registers.
pub struct TensixMMIO;

impl TensixMMIO {
    pub const LOCAL_RAM_START: u32 = 0xFFB00000;

    pub const LOCAL_RAM_END: u32 = 0xFFB01FFF;

    pub const RISCV_DEBUG_REG_SOFT_RESET_0: u64 = 0xFFB121B0;

    pub const RISCV_DEBUG_REG_TRISC0_RESET_PC: u64 = 0xFFB12228;

    pub const RISCV_DEBUG_REG_TRISC1_RESET_PC: u64 = 0xFFB1222C;

    pub const RISCV_DEBUG_REG_TRISC2_RESET_PC: u64 = 0xFFB12230;

    pub const RISCV_DEBUG_REG_NCRISC_RESET_PC: u64 = 0xFFB12238;

    pub const SOFT_RESET_ALL: u32 = 0x47800;

    pub const SOFT_RESET_BRISC_ONLY_RUN: u32 = 0x47000;
}

/// Layout of a core's local memory.
pub struct TensixL1;

impl TensixL1 {
    pub const SIZE: u32 = 0x180000;

    pub const LAUNCH: u32 = 0x000070;

    pub const GO_MSG: u32 = 0x000370;

    pub const GO_MSG_INDEX: u32 = 0x0003A0;

    pub const KERNEL_CONFIG_BASE: u32 = 0x0086B0;

    pub const BRISC_FIRMWARE_BASE: u32 = 0x003840;

    pub const DATA_BUFFER_SPACE_BASE: u32 = 0x037000;

    pub const PROFILER_HOST_BUFFER_BYTES_PER_RISC: u32 = 65536;

    pub const MEM_BANK_TO_NOC_SCRATCH: u32 = 0x0116B0;
}

/// Layout of the device memory.
pub struct Dram;

/// Whether bank `bank` is enabled in `mask`.
pub open spec fn bank_enabled(mask: u32, bank: int) -> bool {
    (mask >> (bank as u32)) & 1 != 0
}

/// The banks among the first `n` that are not enabled, in ascending order.
pub open spec fn harvested(mask: u32, n: int) -> Seq<usize>
    decreases n,
{
    if n <= 0 {
        Seq::empty()
    } else if bank_enabled(mask, n - 1) {
        harvested(mask, n - 1)
    } else {
        harvested(mask, n - 1).push((n - 1) as usize)
    }
}

/// The column of the tiles of a bank.
pub open spec fn bank_column(bank: int) -> u8 {
    if bank < 4 {
        0
    } else {
        9
    }
}

/// The rows of the three tiles of a bank.
pub open spec fn bank_rows(bank: int) -> Seq<u8> {
    if bank % 4 == 0 {
        seq![0u8, 1, 11]
    } else if bank % 4 == 1 {
        seq![2u8, 3, 10]
    } else if bank % 4 == 2 {
        seq![4u8, 8, 9]
    } else {
        seq![5u8, 6, 7]
    }
}

/// The tiles of the banks among the first `n` that are not in `skipped`.
pub open spec fn dram_tiles(skipped: Seq<usize>, n: int) -> Seq<DramTile>
    decreases n,
{
    if n <= 0 {
        Seq::empty()
    } else if skipped.contains((n - 1) as usize) {
        dram_tiles(skipped, n - 1)
    } else {
        dram_tiles(skipped, n - 1) + bank_rows(n - 1).map_values(
            |y: u8| DramTile { bank: (n - 1) as usize, x: bank_column(n - 1), y },
        )
    }
}

impl Dram {
    pub const BANK_COUNT: usize = 8;

    pub const TILES_PER_BANK: usize = 3;

    pub const WRITE_OFFSET: u64 = 0x40;

    pub const BARRIER_BASE: usize = 0;

    pub const ALIGNMENT: usize = 64;

    pub const BARRIER_FLAG_FIRST: u32 = 0xaa;

    pub const BARRIER_FLAG_SECOND: u32 = 0xbb;

    pub const TLB_SIZE_4G: u64 = 0x1_0000_0000;

    /// The number of enabled banks.
    pub fn active_banks(gddr_enabled_mask: u32) -> (r: usize)
        ensures
            r == 8 - harvested(gddr_enabled_mask, 8).len(),
    {
        let mut count: usize = 0;
        for bank in 0..8u32
            invariant
                count == bank - harvested(gddr_enabled_mask, bank as int).len(),
                count <= bank,
        {
            if (gddr_enabled_mask >> bank) & 1 != 0 {
                count = count + 1;
            }
        }
        count
    }

    /// The disabled banks, in ascending order.
    pub fn harvested_banks(gddr_enabled_mask: u32) -> (r: Vec<usize>)
        ensures
            r@ == harvested(gddr_enabled_mask, 8),
    {
        let mut banks: Vec<usize> = Vec::new();
        for bank in 0..8u32
            invariant
                banks@ == harvested(gddr_enabled_mask, bank as int),
        {
            if (gddr_enabled_mask >> bank) & 1 == 0 {
                banks.push(bank as usize);
            }
        }
        banks
    }

    fn bank_tile_ys(bank: usize) -> (r: [u8; 3])
        requires
            bank < 8,
        ensures
            r@ == bank_rows(bank as int),
    {
        let row: usize = bank % 4;
        if row == 0 {
            [0, 1, 11]
        } else if row == 1 {
            [2, 3, 10]
        } else if row == 2 {
            [4, 8, 9]
        } else {
            [5, 6, 7]
        }
    }

    fn bank_x(bank: usize) -> (r: u8)
        ensures
            r == bank_column(bank as int),
    {
        if bank < 4 {
            0
        } else {
            9
        }
    }

    /// The tiles of every bank that is not harvested, bank by bank.
    pub fn tiles(harvested_dram_banks: &[usize]) -> (r: Vec<DramTile>)
        ensures
            r@ == dram_tiles(harvested_dram_banks@, 8),
    {
        let mut tiles: Vec<DramTile> = Vec::new();
        for bank in 0..8usize
            invariant
                tiles@ == dram_tiles(harvested_dram_banks@, bank as int),
        {
            if !arith::contains_usize(harvested_dram_banks, bank) {
                let ghost before = tiles@;
                let x: u8 = Self::bank_x(bank);
                let ys = Self::bank_tile_ys(bank);
                tiles.push(DramTile { bank, x, y: ys[0] });
                tiles.push(DramTile { bank, x, y: ys[1] });
                tiles.push(DramTile { bank, x, y: ys[2] });
                assert(tiles@ =~= before + bank_rows(bank as int).map_values(
                    |y: u8| DramTile { bank, x: bank_column(bank as int), y },
                )) by {
                    assert(ys@ == bank_rows(bank as int));
                }
                assert(tiles@ =~= dram_tiles(harvested_dram_banks@, bank + 1));
            }
        }
        tiles
    }
}

/// Rounds `value` up to a multiple of `align`.
pub fn align_up(value: u64, align: u64) -> (r: u64)
    requires
        align > 0,
        arith::round_up(value as int, align as int) <= u64::MAX,
    ensures
        r == arith::round_up(value as int, align as int),
{
    arith::div_ceil_u64(value, align) * align
}

/// Splits `value` at the power of two `alignment`: the aligned base and the rest.
pub fn align_down(value: u64, alignment: u64) -> (r: (u64, u64))
    requires
        alignment > 0,
    ensures
        r.0 == value & !((alignment - 1) as u64),
        r.0 + r.1 == value,
{
    let base: u64 = value & !(alignment - 1);
    proof {
        let low: u64 = (alignment - 1) as u64;
        assert(value & !low <= value) by (bit_vector);
    }
    (base, value - base)
}

/// With a power of two as alignment the parts are the multiple below and the remainder.
pub proof fn lemma_align_down_power_of_two(value: u64, shift: u64)
    requires
        shift < 64,
    ensures
        ({
            let alignment: u64 = 1u64 << shift;
            let base = value & !((alignment - 1) as u64);
            &&& alignment > 0
            &&& value - base < alignment
            &&& base & ((alignment - 1) as u64) == 0
        }),
{
    let alignment: u64 = 1u64 << shift;
    assert(alignment > 0) by (bit_vector)
        requires
            alignment == 1u64 << shift,
            shift < 64,
    ;
    let low: u64 = (alignment - 1) as u64;
    assert(value - (value & !low) < alignment && (value & !low) & low == 0) by (bit_vector)
        requires
            alignment == 1u64 << shift,
            shift < 64,
            alignment > 0,
            low == alignment - 1,
    ;
}

/// The cores of the given columns: rows two to eleven of each.
pub open spec fn worker_grid(columns: Seq<u8>) -> Seq<CoreCoord> {
    Seq::new(
        columns.len() * 10,
        |i: int| CoreCoord { x: columns[i / 10], y: (2 + i % 10) as u8 },
    )
}

pub fn worker_cores(tensix_x: &[u8]) -> (cores: Vec<CoreCoord>)
    ensures
        cores@ == worker_grid(tensix_x@),
{
    let mut cores: Vec<CoreCoord> = Vec::new();
    for i in 0..tensix_x.len()
        invariant
            cores@.len() == i * 10,
            forall|k: int| 0 <= k < i * 10 ==> cores@[k] == worker_grid(tensix_x@)[k],
    {
        let x: u8 = tensix_x[i];
        for y in 2..12u8
            invariant
                0 <= i < tensix_x@.len(),
                x == tensix_x@[i as int],
                cores@.len() == i * 10 + (y - 2),
                forall|k: int| 0 <= k < i * 10 + (y - 2) ==> cores@[k] == worker_grid(tensix_x@)[k],
        {
            assert((i * 10 + (y - 2)) / 10 == i && (i * 10 + (y - 2)) % 10 == y - 2);
            cores.push(CoreCoord { x, y });
        }
    }
    assert(cores@ =~= worker_grid(tensix_x@));
    cores
}

/// The packed network address of a position.
pub open spec fn packed_xy(x: u8, y: u8) -> u32 {
    (((y as u32) << 6) | x as u32) & 0xffff
}

pub fn noc_xy(x: u8, y: u8) -> (r: u32)
    ensures
        r == packed_xy(x, y),
        x < 64 ==> r == y * 64 + x,
{
    let r: u32 = (((y as u32) << 6) | x as u32) & 0xffff;
    proof {
        assert(x < 64 ==> (((y as u32) << 6) | x as u32) & 0xffff == y * 64 + x) by (bit_vector);
    }
    r
}

} // verus!
