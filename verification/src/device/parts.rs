//! Which parts a device has, and how they are found.

use vstd::prelude::*;
use vstd::arithmetic::power2::*;
use crate::bytes;
use crate::device::banks;
use crate::device::probe;
use crate::device::BoardKind;
use crate::hw;
use crate::hw::{CoreCoord, DramTile};

verus! {

/// A mask says of each bank whether it is there: bit `b` stands for bank `b`.
pub proof fn lemma_bank_bit(mask: u32, b: int)
    requires
        0 <= b < 32,
    ensures
        hw::bank_enabled(mask, b) <==> (mask as int / pow2(b as nat) as int) % 2 == 1,
{
    vstd::bits::lemma_u32_shr_is_div(mask, b as u32);
    let s: u32 = mask >> (b as u32);
    assert(s & 1 == s % 2) by (bit_vector);
}

/// The banks that are missing are those whose bits are not set, in ascending order; the bits
/// that are set are all others.
pub proof fn lemma_banks_missing(mask: u32, n: int)
    requires
        0 <= n <= 32,
    ensures
        forall|b: usize|
            #[trigger] hw::harvested(mask, n).contains(b) <==> b < n && (mask as int / pow2(
                b as nat,
            ) as int) % 2 == 0,
        forall|i: int, j: int|
            0 <= i < j < hw::harvested(mask, n).len() ==> #[trigger] hw::harvested(mask, n)[i]
                < #[trigger] hw::harvested(mask, n)[j],
        hw::set_bits(mask, n) + hw::harvested(mask, n).len() == n,
    decreases n,
{
    if n > 0 {
        lemma_banks_missing(mask, n - 1);
        lemma_bank_bit(mask, n - 1);
        let before = hw::harvested(mask, n - 1);
        let all = hw::harvested(mask, n);
        let s: u32 = mask >> ((n - 1) as u32);
        assert(s & 1 == 0 || s & 1 == 1) by (bit_vector);
        let last = (n - 1) as usize;
        if !hw::bank_enabled(mask, n - 1) {
            assert forall|b: usize| all.contains(b) == (before.contains(b) || b == last) by {
                assert(all[before.len() as int] == last);
                if before.contains(b) {
                    let k = choose|k: int| 0 <= k < before.len() && before[k] == b;
                    assert(all[k] == b);
                }
            }
        }
        assert forall|i: int, j: int| 0 <= i < j < all.len() implies #[trigger] all[i]
            < #[trigger] all[j] by {
            assert(before.contains(before[i]));
        }
        assert forall|b: usize|
            #[trigger] all.contains(b) <==> b < n && (mask as int / pow2(b as nat) as int) % 2
                == 0 by {
            assert(before.contains(b) <==> b < n - 1 && (mask as int / pow2(b as nat) as int) % 2
                == 0);
            if b == last {
                lemma_bank_bit(mask, b as int);
            }
        }
    }
}

/// The tiles are those of the banks that are not left out: each has three of them.
pub proof fn lemma_tiles_of_banks(skipped: Seq<usize>, n: int, t: DramTile)
    requires
        0 <= n <= 8,
    ensures
        hw::dram_tiles(skipped, n).contains(t) <==> t.bank < n && !skipped.contains(t.bank) && t.x
            == hw::bank_column(t.bank as int) && hw::bank_rows(t.bank as int).contains(t.y),
        hw::bank_rows(t.bank as int).len() == 3,
    decreases n,
{
    if n > 0 {
        lemma_tiles_of_banks(skipped, n - 1, t);
        let before = hw::dram_tiles(skipped, n - 1);
        let all = hw::dram_tiles(skipped, n);
        if !skipped.contains((n - 1) as usize) {
            let rows = hw::bank_rows(n - 1);
            let more = rows.map_values(
                |y: u8| DramTile { bank: (n - 1) as usize, x: hw::bank_column(n - 1), y },
            );
            assert(all == before + more);
            if all.contains(t) {
                let k = choose|k: int| 0 <= k < all.len() && all[k] == t;
                if k < before.len() {
                    assert(before[k] == t);
                } else {
                    assert(more[k - before.len()] == t);
                    assert(rows[k - before.len()] == t.y);
                }
            }
            if before.contains(t) {
                let k = choose|k: int| 0 <= k < before.len() && before[k] == t;
                assert(all[k] == t);
            }
            if t.bank == n - 1 && t.x == hw::bank_column(n - 1) && rows.contains(t.y) {
                let k = choose|k: int| 0 <= k < rows.len() && rows[k] == t.y;
                assert(more[k] == t);
                assert(all[before.len() + k] == t);
            }
        }
    }
}

/// Every tile at the two sides of the network belongs to just one bank.
pub proof fn lemma_place_has_bank(x: u8, y: u8)
    requires
        x == 0 || x == 9,
        y < 12,
    ensures
        exists|b: int|
            0 <= b < 8 && #[trigger] hw::bank_column(b) == x && hw::bank_rows(b).contains(y),
        forall|a: int, b: int|
            0 <= a < 8 && 0 <= b < 8 && #[trigger] hw::bank_column(a) == x
                && #[trigger] hw::bank_column(b) == x && hw::bank_rows(a).contains(y)
                && hw::bank_rows(b).contains(y) ==> a == b,
{
    let first: int = if x == 0 {
        0
    } else {
        4
    };
    let (r0, r1, r2, r3) = (
        hw::bank_rows(first),
        hw::bank_rows(first + 1),
        hw::bank_rows(first + 2),
        hw::bank_rows(first + 3),
    );
    assert(r0[0] == 0 && r0[1] == 1 && r0[2] == 11 && r1[0] == 2 && r1[1] == 3 && r1[2] == 10);
    assert(r2[0] == 4 && r2[1] == 8 && r2[2] == 9 && r3[0] == 5 && r3[1] == 6 && r3[2] == 7);
    assert(hw::bank_column(first) == x && hw::bank_column(first + 1) == x && hw::bank_column(
        first + 2,
    ) == x && hw::bank_column(first + 3) == x);
}

/// A board is told by the number of its cores. Its columns of cores ascend, and leave out those
/// of the memory and of the processor that manages the board. Two different cores of the last
/// column read commands and hand them on.
pub proof fn lemma_board(b: BoardKind, n: int)
    ensures
        BoardKind::of_count(n) == Some(b) <==> n == hw::worker_grid(b.columns()).len(),
        forall|i: int, j: int|
            0 <= i < j < b.columns().len() ==> #[trigger] b.columns()[i] < #[trigger] b.columns()[j],
        forall|i: int|
            0 <= i < b.columns().len() ==> {
                let x = #[trigger] b.columns()[i];
                x != hw::bank_column(0) && x != hw::bank_column(7) && x != hw::Arc::TILE_X
            },
        b.reads_commands() != b.hands_on(),
        b.reads_commands().x == b.columns().last(),
        b.hands_on().x == b.columns().last(),
        hw::worker_grid(b.columns()).contains(b.reads_commands()),
        hw::worker_grid(b.columns()).contains(b.hands_on()),
{
    crate::device::lemma_worker_count(b);
}

/// A value is found by the last entry of a table that has its tag: the lower half of an entry
/// is a tag, and the upper half says where the value is.
pub proof fn lemma_value_found(tags: Seq<u32>, tag: int, at: int)
    ensures
        probe::offset_of(tags, tag) == Some(at) <==> exists|i: int|
            {
                &&& 0 <= i < tags.len()
                &&& (#[trigger] tags[i]) == at * 0x1_0000 + tag
                &&& 0 <= tag < 0x1_0000
                &&& forall|j: int| i < j < tags.len() ==> #[trigger] tags[j] as int % 0x1_0000 != tag
            },
        probe::offset_of(tags, tag) is None <==> forall|i: int|
            0 <= i < tags.len() ==> #[trigger] tags[i] as int % 0x1_0000 != tag,
    decreases tags.len(),
{
    if tags.len() > 0 {
        let front = tags.drop_last();
        let n = tags.len() as int;
        lemma_value_found(front, tag, at);
        assert(forall|i: int| 0 <= i < n - 1 ==> front[i] == #[trigger] tags[i]);
        assert(forall|i: int| 0 <= i < n - 1 ==> #[trigger] front[i] == tags[i]);
        if tags.last() as int % 0x1_0000 == tag {
            assert(tags[n - 1] as int % 0x1_0000 == tag);
            if probe::offset_of(tags, tag) == Some(at) {
                assert(tags[n - 1] == at * 0x1_0000 + tag);
            }
        } else {
            if probe::offset_of(tags, tag) == Some(at) {
                let i = choose|i: int|
                    {
                        &&& 0 <= i < front.len()
                        &&& (#[trigger] front[i]) == at * 0x1_0000 + tag
                        &&& 0 <= tag < 0x1_0000
                        &&& forall|j: int|
                            i < j < front.len() ==> #[trigger] front[j] as int % 0x1_0000 != tag
                    };
                assert(tags[i] == at * 0x1_0000 + tag);
            }
        }
    }
}

/// The words that set up a window make up its setting, the lowest word first, in registers of
/// its own. A window with a stride is given none.
pub proof fn lemma_window_words(index: int, other: int, addr: u64, start: CoreCoord, end: CoreCoord)
    requires
        0 <= index < other < 202,
        start.x < 64,
        start.y < 64,
        end.x < 64,
        end.y < 64,
    ensures
        ({
            let w = probe::window_writes(index, addr, start, end);
            let v = probe::window_writes(other, addr, start, end);
            &&& w.len() == if index < 32 {
                4int
            } else {
                3int
            }
            &&& w[1].0 == w[0].0 + 4
            &&& w[2].0 == w[0].0 + 8
            &&& v[0].0 == w[0].0 + 12 * (other - index)
            &&& w[0].1 + w[1].1 * 0x1_0000_0000 + w[2].1 * 0x1_0000_0000_0000_0000
                == probe::window_bits(addr, start, end)
            &&& index < 32 ==> w[3].1 == 0 && w[3].0 > v[0].0 + 8
            &&& other < 32 ==> v[3].0 == w[3].0 + 4 * (other - index)
        }),
{
    let bits = probe::window_bits(addr, start, end);
    let (sx, sy, ex, ey) = (start.x, start.y, end.x, end.y);
    assert(sx < 64 && sy < 64 && ex < 64 && ey < 64 ==> {
        let w = ((addr >> 21) as u128) | ((ex as u128) << 43) | ((ey as u128) << 49) | ((
        sx as u128) << 55) | ((sy as u128) << 61) | (1u128 << 70);
        (w >> 96) == 0
    }) by (bit_vector);
    assert((bits >> 96) == 0 ==> ((bits & 0xffff_ffff) as u32) + (((bits >> 32) & 0xffff_ffff) as u32)
        * 0x1_0000_0000 + (((bits >> 64) & 0xffff_ffff) as u32) * 0x1_0000_0000_0000_0000 == bits)
        by (bit_vector);
}

/// A logical bank is placed in a column of its own side, on three rows of its own; the bank
/// opposite to a missing one comes last in its column.
pub proof fn lemma_bank_placed(harvested: Seq<usize>, bank: int)
    requires
        harvested.len() <= 1,
        forall|i: int| 0 <= i < harvested.len() ==> #[trigger] harvested[i] < 8,
        0 <= bank < banks::bank_total(harvested),
    ensures
        ({
            let (x, y) = banks::bank_place(harvested, bank);
            &&& x == 17 || x == 18
            &&& 12 <= y <= 21
            &&& (y - 12) % 3 == 0
            &&& harvested.len() == 1 ==> (x, y) != (18int, 21int)
            &&& harvested.len() == 1 && bank == (if harvested[0] < 4 {
                harvested[0] + 3
            } else {
                harvested[0] - 4
            }) ==> (x, y) == (17int, 21int)
            &&& harvested.len() == 0 ==> x == (if bank < 4 {
                17int
            } else {
                18int
            })
            &&& harvested.len() == 1 && harvested[0] < 4 ==> x == (if bank < 3 {
                18int
            } else {
                17int
            })
        }),
        forall|noc: int| 0 <= #[trigger] banks::bank_port(bank, noc) <= 2,
        banks::bank_port(bank, 1) == 1,
        banks::bank_port(bank, 0) != 1,
{
    if harvested.len() == 1 {
        assert(harvested[0] < 8);
    }
}

/// Banks of one column follow each other in their order, but for the one that is moved to the
/// end.
pub proof fn lemma_banks_in_order(harvested: Seq<usize>, a: int, b: int)
    requires
        harvested.len() <= 1,
        forall|i: int| 0 <= i < harvested.len() ==> #[trigger] harvested[i] < 8,
        0 <= a < b < banks::bank_total(harvested),
        banks::bank_place(harvested, a).0 == banks::bank_place(harvested, b).0,
        harvested.len() == 1 ==> banks::bank_place(harvested, a) != (17int, 21int),
    ensures
        banks::bank_place(harvested, a).1 < banks::bank_place(harvested, b).1,
{
    if harvested.len() == 1 {
        assert(harvested[0] < 8);
    }
}

/// The column and the row of a place can be read off its word.
proof fn lemma_place_word(x: u8, y: u8)
    requires
        x < 64,
    ensures
        banks::place_word(x, y) == y * 64 + x,
{
    assert(x < 64 ==> (((y as u16) << 6) | x as u16) == y * 64 + x) by (bit_vector);
}

/// The word of bank `b` in one direction.
proof fn lemma_bank_word(harvested: Seq<usize>, noc: int, n: int, b: int)
    requires
        harvested.len() <= 1,
        forall|i: int| 0 <= i < harvested.len() ==> #[trigger] harvested[i] < 8,
        0 <= noc < 2,
        0 <= b < n <= banks::bank_total(harvested),
    ensures
        banks::bank_words(harvested, noc, n).len() == 2 * n,
        bytes::u16_at(banks::bank_words(harvested, noc, n), 2 * b) == ({
            let (x, y) = banks::bank_place(harvested, b);
            64 * (y + banks::bank_port(b, noc)) + x
        }),
    decreases n,
{
    let before = banks::bank_words(harvested, noc, n - 1);
    let all = banks::bank_words(harvested, noc, n);
    let (x, y) = banks::bank_place(harvested, n - 1);
    lemma_bank_placed(harvested, n - 1);
    let word = banks::place_word(x as u8, (y + banks::bank_port(n - 1, noc)) as u8);
    lemma_place_word(x as u8, (y + banks::bank_port(n - 1, noc)) as u8);
    bytes::lemma_u16_at_le2(word);
    let own = bytes::le2(word as int);
    assert(all == before + own);
    if n > 1 {
        let k = if b < n - 1 {
            b
        } else {
            0
        };
        lemma_bank_word(harvested, noc, n - 1, k);
    }
    assert(before.len() == 2 * (n - 1));
    if b < n - 1 {
        assert(all[2 * b] == before[2 * b] && all[2 * b + 1] == before[2 * b + 1]);
    } else {
        assert(all[2 * b] == own[0] && all[2 * b + 1] == own[1]);
    }
}

/// Firmware finds a bank in the table under its number: in each direction, the word names the
/// bank's column and one of its three rows.
pub proof fn lemma_table_names_bank(
    harvested: Seq<usize>,
    list: Seq<CoreCoord>,
    noc: int,
    b: int,
)
    requires
        harvested.len() <= 1,
        forall|i: int| 0 <= i < harvested.len() ==> #[trigger] harvested[i] < 8,
        0 <= noc < 2,
        0 <= b < banks::bank_total(harvested),
    ensures
        ({
            let n = banks::bank_total(harvested);
            let word = bytes::u16_at(banks::bank_table(harvested, list), 2 * (noc * n + b));
            let (x, y) = banks::bank_place(harvested, b);
            &&& word % 64 == x
            &&& y <= word / 64 < y + 3
            &&& noc == 1 <==> word / 64 == y + 1
        }),
{
    let n = banks::bank_total(harvested);
    let first = banks::bank_words(harvested, 0, n);
    let second = banks::bank_words(harvested, 1, n);
    lemma_bank_word(harvested, 0, n, b);
    lemma_bank_word(harvested, 1, n, b);
    lemma_bank_placed(harvested, b);
    let t = banks::bank_table(harvested, list);
    assert(noc * n == if noc == 0 {
        0
    } else {
        n
    });
    assert(t[2 * b] == first[2 * b] && t[2 * b + 1] == first[2 * b + 1]);
    assert(t[2 * (n + b)] == second[2 * b] && t[2 * (n + b) + 1] == second[2 * b + 1]);
}

/// The columns of a list are those of its cores, in ascending order.
proof fn lemma_columns(list: Seq<CoreCoord>, n: int)
    requires
        0 <= n <= 256,
    ensures
        forall|x: u8|
            #[trigger] banks::columns(list, n).contains(x) <==> x < n && exists|i: int|
                0 <= i < list.len() && (#[trigger] list[i]).x == x,
        forall|i: int, j: int|
            0 <= i < j < banks::columns(list, n).len() ==> #[trigger] banks::columns(list, n)[i]
                < #[trigger] banks::columns(list, n)[j],
        forall|i: int|
            0 <= i < banks::columns(list, n).len() ==> #[trigger] banks::columns(list, n)[i] < n,
    decreases n,
{
    if n > 0 {
        lemma_columns(list, n - 1);
        let before = banks::columns(list, n - 1);
        let all = banks::columns(list, n);
        if exists|i: int| 0 <= i < list.len() && (#[trigger] list[i]).x == n - 1 {
            assert(all == before.push((n - 1) as u8));
            assert forall|x: u8| all.contains(x) == (before.contains(x) || x == n - 1) by {
                assert(all[before.len() as int] == n - 1);
                if before.contains(x) {
                    let k = choose|k: int| 0 <= k < before.len() && before[k] == x;
                    assert(all[k] == x);
                }
            }
        }
        assert forall|x: u8|
            #[trigger] all.contains(x) <==> x < n && exists|i: int|
                0 <= i < list.len() && (#[trigger] list[i]).x == x by {
            assert(before.contains(x) <==> x < n - 1 && exists|i: int|
                0 <= i < list.len() && (#[trigger] list[i]).x == x);
        }
    }
}

/// The columns of the cores of a board are those it has.
proof fn lemma_columns_of_grid(cols: Seq<u8>)
    requires
        forall|i: int, j: int| 0 <= i < j < cols.len() ==> #[trigger] cols[i] < #[trigger] cols[j],
    ensures
        banks::columns(hw::worker_grid(cols), 256).len() == cols.len(),
        forall|x: u8|
            #[trigger] banks::columns(hw::worker_grid(cols), 256).contains(x) <==> cols.contains(x),
{
    let list = hw::worker_grid(cols);
    let found = banks::columns(list, 256);
    lemma_columns(list, 256);
    assert forall|x: u8| #[trigger] found.contains(x) <==> cols.contains(x) by {
        if found.contains(x) {
            let i = choose|i: int| 0 <= i < list.len() && (#[trigger] list[i]).x == x;
            assert(cols[i / 10] == x);
        }
        if cols.contains(x) {
            let k = choose|k: int| 0 <= k < cols.len() && cols[k] == x;
            assert(list[10 * k].x == x);
        }
    }
    assert(found.to_set() =~= cols.to_set());
    assert(found.no_duplicates());
    assert(cols.no_duplicates());
    found.unique_seq_to_set();
    cols.unique_seq_to_set();
}

/// The word of core `k`.
proof fn lemma_core_word(cols: Seq<u8>, n: int, k: int)
    requires
        cols.len() > 0,
        forall|i: int| 0 <= i < cols.len() ==> #[trigger] cols[i] < 64,
        0 <= k < n,
    ensures
        banks::core_words(cols, n).len() == 2 * n,
        bytes::u16_at(banks::core_words(cols, n), 2 * k) == 64 * (2 + (k / cols.len() as int) % 10)
            + cols[k % cols.len() as int],
    decreases n,
{
    let w = cols.len() as int;
    let before = banks::core_words(cols, n - 1);
    let all = banks::core_words(cols, n);
    let (x, y) = (cols[(n - 1) % w], (2 + ((n - 1) / w) % 10) as u8);
    assert(0 <= (n - 1) % w < w) by (nonlinear_arith)
        requires
            w > 0,
    ;
    let word = banks::place_word(x, y);
    lemma_place_word(x, y);
    bytes::lemma_u16_at_le2(word);
    let own = bytes::le2(word as int);
    assert(all == before + own);
    if n > 1 {
        let j = if k < n - 1 {
            k
        } else {
            0
        };
        lemma_core_word(cols, n - 1, j);
    }
    assert(before.len() == 2 * (n - 1));
    if k < n - 1 {
        assert(all[2 * k] == before[2 * k] && all[2 * k + 1] == before[2 * k + 1]);
    } else {
        assert(all[2 * k] == own[0] && all[2 * k + 1] == own[1]);
    }
}

/// The table names every core of a board once: each word names a core, and no two name the
/// same.
pub proof fn lemma_table_names_cores(
    harvested: Seq<usize>,
    cols: Seq<u8>,
    noc: int,
    j: int,
    k: int,
)
    requires
        harvested.len() <= 1,
        forall|i: int| 0 <= i < harvested.len() ==> #[trigger] harvested[i] < 8,
        forall|i: int, j: int| 0 <= i < j < cols.len() ==> #[trigger] cols[i] < #[trigger] cols[j],
        forall|i: int| 0 <= i < cols.len() ==> #[trigger] cols[i] < 64,
        0 <= noc < 2,
        0 <= j < k < 10 * cols.len(),
    ensures
        ({
            let list = hw::worker_grid(cols);
            let n = list.len() as int;
            let t = banks::bank_table(harvested, list);
            let from = 2 * (2 * banks::bank_total(harvested) + noc * n);
            let (a, b) = (bytes::u16_at(t, from + 2 * j), bytes::u16_at(t, from + 2 * k));
            &&& list.contains(CoreCoord { x: (a % 64) as u8, y: (a / 64) as u8 })
            &&& a / 64 < 256
            &&& a != b
        }),
{
    let list = hw::worker_grid(cols);
    let n = list.len() as int;
    let found = banks::columns(list, 256);
    let w = cols.len() as int;
    lemma_columns_of_grid(cols);
    lemma_columns(list, 256);
    assert forall|i: int| 0 <= i < found.len() implies #[trigger] found[i] < 64 by {
        assert(found.contains(found[i]));
        assert(cols.contains(found[i]));
    }
    lemma_core_word(found, n, j);
    lemma_core_word(found, n, k);
    let words = banks::core_words(found, n);
    let total = banks::bank_total(harvested);
    let first = banks::bank_words(harvested, 0, total);
    let second = banks::bank_words(harvested, 1, total);
    lemma_bank_word(harvested, 0, total, 0);
    lemma_bank_word(harvested, 1, total, 0);
    let t = banks::bank_table(harvested, list);
    assert(noc * n == if noc == 0 {
        0
    } else {
        n
    });
    let from = 2 * (2 * total + noc * n);
    assert(t[from + 2 * j] == words[2 * j] && t[from + 2 * j + 1] == words[2 * j + 1]);
    assert(t[from + 2 * k] == words[2 * k] && t[from + 2 * k + 1] == words[2 * k + 1]);
    let (qj, rj, qk, rk) = (j / w, j % w, k / w, k % w);
    assert(j == w * qj + rj && 0 <= rj < w && 0 <= qj < 10) by (nonlinear_arith)
        requires
            w > 0,
            qj == j / w,
            rj == j % w,
            0 <= j < 10 * w,
    ;
    assert(k == w * qk + rk && 0 <= rk < w && 0 <= qk < 10) by (nonlinear_arith)
        requires
            w > 0,
            qk == k / w,
            rk == k % w,
            0 <= k < 10 * w,
    ;
    assert(found.contains(found[rj]));
    let c = choose|c: int| 0 <= c < cols.len() && cols[c] == found[rj];
    assert(list[10 * c + qj] == CoreCoord { x: found[rj], y: (2 + qj) as u8 });
    if qj == qk {
        assert(rj != rk);
        if rj < rk {
            assert(found[rj] < found[rk]);
        } else {
            assert(found[rk] < found[rj]);
        }
    }
}

} // verus!
