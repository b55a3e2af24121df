//! The table by which firmware finds memory banks on the network.

use vstd::prelude::*;
use crate::bytes;
use crate::error;
use crate::error::Error;
use crate::hw::CoreCoord;
use crate::text;

verus! {

/// The place of a bank among those of its column when bank `mirror` is moved to
/// the end.
pub open spec fn moved_place(i: int, mirror: int) -> int {
    if i == mirror {
        3
    } else if i > mirror {
        i - 1
    } else {
        i
    }
}

/// The column and the first row of a logical bank.
pub open spec fn bank_place(harvested: Seq<usize>, bank: int) -> (int, int) {
    if harvested.len() == 0 {
        if bank < 4 {
            (17, 12 + bank * 3)
        } else {
            (18, 12 + (bank - 4) * 3)
        }
    } else {
        let h = harvested[0] as int;
        if h < 4 {
            if bank < 3 {
                (18, 12 + bank * 3)
            } else {
                (17, 12 + moved_place(bank - 3, h) * 3)
            }
        } else {
            if bank < 4 {
                (17, 12 + moved_place(bank, h - 4) * 3)
            } else if bank == h - 4 {
                (17, 24)
            } else {
                (18, 12 + (bank - 4) * 3)
            }
        }
    }
}

/// The port of a bank in each of the two directions.
pub open spec fn bank_port(bank: int, noc: int) -> int {
    if noc == 1 {
        1
    } else if 1 <= bank <= 3 {
        0
    } else {
        2
    }
}

/// The number of logical banks.
pub open spec fn bank_total(harvested: Seq<usize>) -> int {
    8 - harvested.len()
}

/// The word that names a place on the network.
pub open spec fn place_word(x: u8, y: u8) -> u16 {
    ((y as u16) << 6) | x as u16
}

fn noc_xy(x: u8, y: u8) -> (r: u16)
    ensures
        r == place_word(x, y),
{
    ((y as u16) << 6) | x as u16
}

/// The words of the first `n` banks in one direction.
pub open spec fn bank_words(harvested: Seq<usize>, noc: int, n: int) -> Seq<u8>
    decreases n,
{
    if n <= 0 {
        Seq::empty()
    } else {
        let (x, y) = bank_place(harvested, n - 1);
        bank_words(harvested, noc, n - 1) + bytes::le2(
            place_word(x as u8, (y + bank_port(n - 1, noc)) as u8) as int,
        )
    }
}

/// The columns below `n` that have cores, in ascending order.
pub open spec fn columns(list: Seq<CoreCoord>, n: int) -> Seq<u8>
    decreases n,
{
    if n <= 0 {
        Seq::empty()
    } else if exists|i: int| 0 <= i < list.len() && (#[trigger] list[i]).x == n - 1 {
        columns(list, n - 1).push((n - 1) as u8)
    } else {
        columns(list, n - 1)
    }
}

/// The words of the first `n` cores, which are numbered row by row.
pub open spec fn core_words(cols: Seq<u8>, n: int) -> Seq<u8>
    decreases n,
{
    if n <= 0 {
        Seq::empty()
    } else {
        let w = cols.len() as int;
        core_words(cols, n - 1) + bytes::le2(
            place_word(cols[(n - 1) % w], (2 + ((n - 1) / w) % 10) as u8) as int,
        )
    }
}

/// The table: the banks in both directions, the cores in both directions, and
/// an offset of zero for each of them.
pub open spec fn bank_table(harvested: Seq<usize>, list: Seq<CoreCoord>) -> Seq<u8> {
    let banks = bank_total(harvested);
    let cols = columns(list, 256);
    let n = list.len() as int;
    bank_words(harvested, 0, banks) + bank_words(harvested, 1, banks) + core_words(cols, n)
        + core_words(cols, n) + bytes::zeros(4 * (banks + n))
}

/// Why there is no table.
pub open spec fn table_refusal(harvested: Seq<usize>) -> Option<error::Refusal> {
    if harvested.len() > 1 {
        Some(
            error::invalid(
                "unsupported harvested DRAM bank count: "@ + text::dec(harvested.len() as int),
            ),
        )
    } else {
        None
    }
}

fn moved(i: u8, mirror: usize) -> (r: u8)
    requires
        i < 4,
    ensures
        r == moved_place(i as int, mirror as int),
        r <= 3,
{
    if i as usize == mirror {
        3
    } else if i as usize > mirror {
        i - 1
    } else {
        i
    }
}

fn place_of(harvested: &[usize], bank: u8) -> (r: (u8, u8))
    requires
        harvested@.len() <= 1,
        bank < bank_total(harvested@),
    ensures
        (r.0 as int, r.1 as int) == bank_place(harvested@, bank as int),
        r.1 <= 24,
{
    if harvested.len() == 0 {
        if bank < 4 {
            (17, 12 + bank * 3)
        } else {
            (18, 12 + (bank - 4) * 3)
        }
    } else {
        let h: usize = harvested[0];
        if h < 4 {
            if bank < 3 {
                (18, 12 + bank * 3)
            } else {
                (17, 12 + moved(bank - 3, h) * 3)
            }
        } else {
            if bank < 4 {
                (17, 12 + moved(bank, h - 4) * 3)
            } else if bank as usize == h - 4 {
                (17, 24)
            } else {
                (18, 12 + (bank - 4) * 3)
            }
        }
    }
}

fn push_banks(out: &mut Vec<u8>, harvested: &[usize], noc: u8)
    requires
        harvested@.len() <= 1,
        noc < 2,
    ensures
        final(out)@ == old(out)@ + bank_words(
            harvested@,
            noc as int,
            bank_total(harvested@),
        ),
{
    let n: u8 = 8 - harvested.len() as u8;
    let ghost start = out@;
    assert(out@ =~= start + bank_words(harvested@, noc as int, 0));
    for bank in 0..n
        invariant
            n == bank_total(harvested@),
            harvested@.len() <= 1,
            noc < 2,
            out@ == start + bank_words(harvested@, noc as int, bank as int),
    {
        let (x, y) = place_of(harvested, bank);
        let port: u8 = if noc == 1 {
            1
        } else if 1 <= bank && bank <= 3 {
            0
        } else {
            2
        };
        bytes::push_u16(out, noc_xy(x, y + port));
        assert(out@ =~= start + bank_words(harvested@, noc as int, bank + 1));
    }
}

fn has_column(list: &[CoreCoord], x: u8) -> (r: bool)
    ensures
        r == exists|i: int| 0 <= i < list@.len() && (#[trigger] list@[i]).x == x,
{
    for i in 0..list.len()
        invariant
            forall|j: int| 0 <= j < i ==> (#[trigger] list@[j]).x != x,
    {
        if list[i].x == x {
            assert(list@[i as int].x == x);
            return true;
        }
    }
    false
}

fn find_columns(list: &[CoreCoord]) -> (r: Vec<u8>)
    ensures
        r@ == columns(list@, 256),
        list@.len() > 0 ==> r@.len() > 0,
{
    let mut out: Vec<u8> = Vec::new();
    for x in 0..256u16
        invariant
            out@ == columns(list@, x as int),
    {
        if has_column(list, x as u8) {
            out.push(x as u8);
        }
    }
    proof {
        if list@.len() > 0 {
            lemma_column_found(list@, 256);
        }
    }
    out
}

/// Where there are cores there is a column.
proof fn lemma_column_found(list: Seq<CoreCoord>, n: int)
    requires
        list.len() > 0,
        list[0].x < n,
    ensures
        columns(list, n).len() > 0,
    decreases n,
{
    if n > 0 {
        if list[0].x < n - 1 {
            lemma_column_found(list, n - 1);
        } else {
            assert(list[0].x == n - 1);
        }
    }
}

fn push_cores(out: &mut Vec<u8>, cols: &Vec<u8>, n: usize)
    requires
        n > 0 ==> cols@.len() > 0,
    ensures
        final(out)@ == old(out)@ + core_words(cols@, n as int),
{
    let ghost start = out@;
    assert(out@ =~= start + core_words(cols@, 0));
    for i in 0..n
        invariant
            n > 0 ==> cols@.len() > 0,
            out@ == start + core_words(cols@, i as int),
    {
        let w: usize = cols.len();
        let x: u8 = cols[i % w];
        let y: u8 = 2 + ((i / w) % 10) as u8;
        bytes::push_u16(out, noc_xy(x, y));
        assert(out@ =~= start + core_words(cols@, i + 1));
    }
}

/// Builds the table for a device.
pub fn build_bank_noc_table(harvested_dram_banks: &[usize], worker_cores: &[CoreCoord]) -> (r: Result<
    Vec<u8>,
    Error,
>)
    requires
        4 * (8 + worker_cores@.len()) <= usize::MAX,
    ensures
        match r {
            Ok(t) => table_refusal(harvested_dram_banks@) is None && t@ == bank_table(
                harvested_dram_banks@,
                worker_cores@,
            ),
            Err(e) => table_refusal(harvested_dram_banks@) == Some(e@),
        },
{
    if harvested_dram_banks.len() > 1 {
        return Err(
            error::invalid_input(
                text::cat2(
                    "unsupported harvested DRAM bank count: ",
                    text::decimal_usize(harvested_dram_banks.len()).as_str(),
                ),
            ),
        );
    }
    let n: usize = worker_cores.len();
    let mut out: Vec<u8> = Vec::new();
    push_banks(&mut out, harvested_dram_banks, 0);
    assert(out@ =~= bank_words(harvested_dram_banks@, 0, bank_total(harvested_dram_banks@)));
    push_banks(&mut out, harvested_dram_banks, 1);
    let cols = find_columns(worker_cores);
    push_cores(&mut out, &cols, n);
    push_cores(&mut out, &cols, n);
    let mut offsets: Vec<u8> = Vec::new();
    let banks: usize = 8 - harvested_dram_banks.len();
    bytes::resize(&mut offsets, 4 * (banks + n));
    assert(offsets@ =~= bytes::zeros(4 * (banks + n)));
    bytes::append(&mut out, offsets.as_slice());
    Ok(out)
}

/// No two logical banks share a place.
pub proof fn lemma_bank_places_distinct(harvested: Seq<usize>, a: int, b: int)
    requires
        harvested.len() <= 1,
        forall|i: int| 0 <= i < harvested.len() ==> #[trigger] harvested[i] < 8,
        0 <= a < b < bank_total(harvested),
    ensures
        bank_place(harvested, a) != bank_place(harvested, b),
{
    if harvested.len() == 1 {
        assert(harvested[0] < 8);
    }
}

proof fn lemma_words_len(harvested: Seq<usize>, noc: int, cols: Seq<u8>, n: int)
    requires
        n >= 0,
    ensures
        bank_words(harvested, noc, n).len() == 2 * n,
        core_words(cols, n).len() == 2 * n,
    decreases n,
{
    if n > 0 {
        lemma_words_len(harvested, noc, cols, n - 1);
    }
}

/// The table holds two words of two bytes and one of four for each bank and core.
pub proof fn lemma_table_len(harvested: Seq<usize>, list: Seq<CoreCoord>)
    requires
        harvested.len() <= 8,
    ensures
        bank_table(harvested, list).len() == 8 * (bank_total(harvested) + list.len()),
{
    let cols = columns(list, 256);
    lemma_words_len(harvested, 0, cols, bank_total(harvested));
    lemma_words_len(harvested, 1, cols, bank_total(harvested));
    lemma_words_len(harvested, 0, cols, list.len() as int);
}

} // verus!
