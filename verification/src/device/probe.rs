//! Reading off a device what it has.

use vstd::prelude::*;
use crate::device::ProbeInfo;
use crate::error;
use crate::error::{Error, ErrorKind};
use crate::hw::{Arc, CoreCoord};
use crate::text;

verus! {

/// The vendor that the devices report.
pub const TT_VENDOR: u32 = 0x1e52;

/// The device number that the boards report.
pub const BH_DEVICE: u32 = 0xb140;

pub const ARC_CSM_BASE: u64 = 0x1000_0000;

pub const ARC_CSM_SIZE: u64 = 0x8_0000;

/// Where the address registers of the windows start.
pub const TLB_REGS_START: u64 = 0x1fc0_0000;

pub const TLB_REG_SIZE: u64 = 12;

/// Where the stride registers start, counted from the address registers.
pub const TLB_STRIDE_OFFSET: u64 = 2520;

/// The value of a digit.
pub open spec fn digit_value(c: char, base: int) -> Option<int> {
    let v = if '0' <= c <= '9' {
        c as int - '0' as int
    } else if 'a' <= c <= 'z' {
        c as int - 'a' as int + 10
    } else if 'A' <= c <= 'Z' {
        c as int - 'A' as int + 10
    } else {
        base
    };
    if v < base {
        Some(v)
    } else {
        None
    }
}

/// The number that digits denote.
pub open spec fn number(s: Seq<char>, base: int) -> Option<int>
    decreases s.len(),
{
    if s.len() == 0 {
        Some(0)
    } else {
        match (number(s.drop_last(), base), digit_value(s.last(), base)) {
            (Some(n), Some(d)) => Some(n * base + d),
            _ => None,
        }
    }
}

/// The digits of a text: what follows a plus sign.
pub open spec fn after_plus(s: Seq<char>) -> Seq<char> {
    if s.len() > 1 && s[0] == '+' {
        s.skip(1)
    } else {
        s
    }
}

/// The number that a text denotes, where it is one and at most `max`.
pub open spec fn parsed(s: Seq<char>, base: int, max: int) -> Option<int> {
    let digits = after_plus(s);
    if digits.len() == 0 {
        None
    } else {
        match number(digits, base) {
            Some(n) => if n <= max {
                Some(n)
            } else {
                None
            },
            None => None,
        }
    }
}

/// A number is at least the one that its first digits denote.
proof fn lemma_number_grows(s: Seq<char>, n: int, base: int)
    requires
        0 <= n <= s.len(),
        base >= 1,
    ensures
        match number(s, base) {
            Some(v) => number(s.take(n), base) matches Some(u) && 0 <= u <= v,
            None => true,
        },
    decreases s.len(),
{
    if s.len() == 0 {
        assert(s.take(n) =~= s);
    } else {
        lemma_number_grows(s.drop_last(), s.len() - 1, base);
        assert(s.drop_last().take(s.len() - 1) =~= s.drop_last());
        if let Some(v) = number(s.drop_last(), base) {
            assert(v <= v * base) by (nonlinear_arith)
                requires
                    v >= 0,
                    base >= 1,
            ;
        }
        if n < s.len() {
            lemma_number_grows(s.drop_last(), n, base);
            assert(s.drop_last().take(n) =~= s.take(n));
        } else {
            assert(s.take(n) =~= s);
        }
    }
}

fn digit(c: char, base: u32) -> (r: Option<u32>)
    requires
        2 <= base <= 36,
    ensures
        match r {
            Some(d) => digit_value(c, base as int) == Some(d as int) && d < base,
            None => digit_value(c, base as int) is None,
        },
{
    let v: u32 = if '0' <= c && c <= '9' {
        c as u32 - '0' as u32
    } else if 'a' <= c && c <= 'z' {
        c as u32 - 'a' as u32 + 10
    } else if 'A' <= c && c <= 'Z' {
        c as u32 - 'A' as u32 + 10
    } else {
        base
    };
    if v < base {
        Some(v)
    } else {
        None
    }
}

/// Reads what follows the first `at` characters as a number.
fn parse_tail(s: &str, at: usize, base: u32, max: u64) -> (r: Option<u64>)
    requires
        2 <= base <= 36,
        at <= s@.len(),
    ensures
        match r {
            Some(n) => parsed(s@.skip(at as int), base as int, max as int) == Some(n as int),
            None => parsed(s@.skip(at as int), base as int, max as int) is None,
        },
{
    let len: usize = s.unicode_len();
    let from: usize = if len - at > 1 && s.get_char(at) == '+' {
        at + 1
    } else {
        at
    };
    let ghost digits = after_plus(s@.skip(at as int));
    assert(digits =~= s@.skip(from as int));
    if len == from {
        return None;
    }
    let mut value: u64 = 0;
    assert(digits.take(0).len() == 0);
    for i in from..len
        invariant
            2 <= base <= 36,
            len == s@.len(),
            from < len,
            digits == s@.skip(from as int),
            digits == after_plus(s@.skip(at as int)),
            value <= max,
            number(digits.take(i - from), base as int) == Some(value as int),
    {
        let c: char = s.get_char(i);
        assert(digits[i - from] == c);
        assert(digits.take(i - from + 1).drop_last() =~= digits.take(i - from));
        proof {
            lemma_number_grows(digits, i - from + 1, base as int);
        }
        match digit(c, base) {
            Some(d) => {
                assert(value * base <= u64::MAX * 36) by (nonlinear_arith)
                    requires
                        value <= u64::MAX,
                        base <= 36,
                ;
                let next: u128 = value as u128 * base as u128 + d as u128;
                if next > max as u128 {
                    return None;
                }
                value = next as u64;
            },
            None => {
                return None;
            },
        }
    }
    assert(digits.take(len - from) =~= digits);
    Some(value)
}

/// Reads a number of at most 64 bits.
pub fn parse_number(s: &str, base: u32, max: u64) -> (r: Option<u64>)
    requires
        2 <= base <= 36,
    ensures
        match r {
            Some(n) => parsed(s@, base as int, max as int) == Some(n as int),
            None => parsed(s@, base as int, max as int) is None,
        },
{
    assert(s@.skip(0) =~= s@);
    parse_tail(s, 0, base, max)
}

/// What follows the mark of a hexadecimal number.
pub open spec fn after_mark(s: Seq<char>) -> Seq<char> {
    if s.len() >= 2 && s[0] == '0' && (s[1] == 'x' || s[1] == 'X') {
        s.skip(2)
    } else {
        s
    }
}

/// Reads a hexadecimal number of 32 bits off the text of a file.
pub fn parse_hex_u32(contents: &str) -> (r: Option<u32>)
    ensures
        match r {
            Some(n) => parsed(after_mark(text::trimmed(contents@)), 16, u32::MAX as int) == Some(
                n as int,
            ),
            None => parsed(after_mark(text::trimmed(contents@)), 16, u32::MAX as int) is None,
        },
        text::trims(contents@, text::trimmed(contents@)),
{
    let trimmed = text::trim_text(contents);
    parse_trimmed_hex(trimmed.as_str())
}

/// Reads a hexadecimal number of 32 bits off a text without white space around it.
pub fn parse_trimmed_hex(trimmed: &str) -> (r: Option<u32>)
    ensures
        match r {
            Some(n) => parsed(after_mark(trimmed@), 16, u32::MAX as int) == Some(n as int),
            None => parsed(after_mark(trimmed@), 16, u32::MAX as int) is None,
        },
{
    let len: usize = trimmed.unicode_len();
    let marked: bool = len >= 2 && trimmed.get_char(0) == '0' && (trimmed.get_char(1) == 'x'
        || trimmed.get_char(1) == 'X');
    let n: Option<u64> = if marked {
        parse_tail(trimmed, 2, 16, u32::MAX as u64)
    } else {
        parse_number(trimmed, 16, u32::MAX as u64)
    };
    match n {
        Some(v) => Some(v as u32),
        None => None,
    }
}

/// The hardware number of a device: the name of its file, where that is a number.
pub fn local_hardware_id(name: &str) -> (r: Option<usize>)
    ensures
        match r {
            Some(n) => parsed(name@, 10, usize::MAX as int) == Some(n as int),
            None => parsed(name@, 10, usize::MAX as int) is None,
        },
{
    match parse_number(name, 10, usize::MAX as u64) {
        Some(n) => Some(n as usize),
        None => None,
    }
}

pub fn is_blackhole(vendor: u32, device: u32) -> (r: bool)
    ensures
        r == (vendor == TT_VENDOR && device == BH_DEVICE),
{
    vendor == TT_VENDOR && device == BH_DEVICE
}

/// A command word that also lets the device use memory and the bus.
pub fn enable_memory_and_bus_mastering(value: u16) -> (r: u16)
    ensures
        r == value | 0x02 | 0x04,
{
    value | 0x02 | 0x04
}

/// Whether an address and what follows it lie in the controller's memory.
pub fn is_arc_csm_addr(addr: u64, length: u64) -> (r: bool)
    requires
        addr + length <= u64::MAX,
    ensures
        r == (ARC_CSM_BASE <= addr && addr + length <= ARC_CSM_BASE + ARC_CSM_SIZE),
{
    addr >= ARC_CSM_BASE && addr + length <= ARC_CSM_BASE + ARC_CSM_SIZE
}

/// Why the pointers to the controller's tables are refused.
pub open spec fn pointers_refusal(table: u32, data: u32) -> Option<error::Refusal> {
    let inside = |a: u32| ARC_CSM_BASE <= a && a + 4 <= ARC_CSM_BASE + ARC_CSM_SIZE;
    if inside(table) && inside(data) {
        None
    } else {
        Some(
            (
                ErrorKind::Other,
                "ARC not ready: telemetry pointers table=0x"@ + text::hex(table as int)
                    + " data=0x"@ + text::hex(data as int),
            ),
        )
    }
}

pub fn check_pointers(table_base: u32, data_base: u32) -> (r: Result<(), Error>)
    ensures
        match r {
            Ok(_) => pointers_refusal(table_base, data_base) is None,
            Err(e) => pointers_refusal(table_base, data_base) == Some(e@),
        },
{
    if !is_arc_csm_addr(table_base as u64, 4) || !is_arc_csm_addr(data_base as u64, 4) {
        return Err(
            Error::new(
                ErrorKind::Other,
                text::cat4(
                    "ARC not ready: telemetry pointers table=0x",
                    text::hexadecimal(table_base as u64).as_str(),
                    " data=0x",
                    text::hexadecimal(data_base as u64).as_str(),
                ),
            ),
        );
    }
    Ok(())
}

/// Whether a table can have so many entries.
pub open spec fn plausible_count(n: u32) -> bool {
    1 <= n <= 4096
}

/// Checks the number of entries that a table reports.
pub fn check_entry_count(entry_count: u32) -> (r: Result<(), Error>)
    ensures
        match r {
            Ok(_) => plausible_count(entry_count),
            Err(e) => !plausible_count(entry_count) && e@ == (
                ErrorKind::Other,
                "invalid ARC telemetry entry_count "@ + text::dec(entry_count as int),
            ),
        },
{
    if entry_count == 0 || entry_count > 4096 {
        return Err(
            Error::new(
                ErrorKind::Other,
                text::cat2(
                    "invalid ARC telemetry entry_count ",
                    text::decimal_u32(entry_count).as_str(),
                ),
            ),
        );
    }
    Ok(())
}

/// Checks the number of entries that the table at an address reports.
pub fn check_entry_count_at(entry_count: u32, table_base: u32) -> (r: Result<(), Error>)
    ensures
        match r {
            Ok(_) => plausible_count(entry_count),
            Err(e) => !plausible_count(entry_count) && e@ == (
                ErrorKind::Other,
                "invalid ARC telemetry entry_count 0x"@ + text::hex(entry_count as int) + " at 0x"@
                    + text::hex(table_base as int),
            ),
        },
{
    if entry_count == 0 || entry_count > 4096 {
        return Err(
            Error::new(
                ErrorKind::Other,
                text::cat4(
                    "invalid ARC telemetry entry_count 0x",
                    text::hexadecimal(entry_count as u64).as_str(),
                    " at 0x",
                    text::hexadecimal(table_base as u64).as_str(),
                ),
            ),
        );
    }
    Ok(())
}

/// Where the entry `i` of the table lies, from the start of the table's window.
pub fn tag_offset(csm_offset: u64, i: u64) -> (r: u64)
    requires
        csm_offset < Arc::TLB_SIZE_2M,
        i <= 4096,
    ensures
        r == csm_offset + 8 + 4 * i,
{
    csm_offset + 8 + i * 4
}

/// Where a value lies behind a table of `entry_count` entries.
pub fn value_offset(csm_offset: u64, entry_count: u64, words: u32) -> (r: u64)
    requires
        csm_offset < Arc::TLB_SIZE_2M,
        entry_count <= 4096,
    ensures
        r == csm_offset + 8 + 4 * entry_count + 4 * words,
{
    csm_offset + 8 + entry_count * 4 + words as u64 * 4
}

/// The number of words before the value of the last entry with a tag.
pub open spec fn offset_of(tags: Seq<u32>, tag: int) -> Option<int>
    decreases tags.len(),
{
    if tags.len() == 0 {
        None
    } else if tags.last() % 0x1_0000 == tag {
        Some(tags.last() as int / 0x1_0000)
    } else {
        offset_of(tags.drop_last(), tag)
    }
}

/// Where the values lie that say which parts are there.
#[derive(Debug)]
pub struct MaskOffsets {
    pub tensix: Option<u32>,
    pub gddr: Option<u32>,
}

pub open spec fn option_int(o: Option<u32>) -> Option<int> {
    match o {
        Some(v) => Some(v as int),
        None => None,
    }
}

/// Looks for the two values in a table.
pub fn find_masks(tags: &[u32]) -> (r: MaskOffsets)
    ensures
        option_int(r.tensix) == offset_of(tags@, Arc::TAG_TENSIX_ENABLED_COL as int),
        option_int(r.gddr) == offset_of(tags@, Arc::TAG_GDDR_ENABLED as int),
{
    let mut tensix: Option<u32> = None;
    let mut gddr: Option<u32> = None;
    for i in 0..tags.len()
        invariant
            option_int(tensix) == offset_of(
                tags@.take(i as int),
                Arc::TAG_TENSIX_ENABLED_COL as int,
            ),
            option_int(gddr) == offset_of(tags@.take(i as int), Arc::TAG_GDDR_ENABLED as int),
    {
        let entry: u32 = tags[i];
        let tag: u32 = entry % 0x1_0000;
        let words: u32 = entry / 0x1_0000;
        assert(tags@.take(i + 1).drop_last() =~= tags@.take(i as int));
        if tag == Arc::TAG_TENSIX_ENABLED_COL as u32 {
            tensix = Some(words);
        } else if tag == Arc::TAG_GDDR_ENABLED as u32 {
            gddr = Some(words);
        }
    }
    assert(tags@.take(tags@.len() as int) =~= tags@);
    MaskOffsets { tensix, gddr }
}

/// What was read off the device; what it does not report is all there.
pub fn probe_info(tensix: Option<u32>, gddr: Option<u32>) -> (r: ProbeInfo)
    ensures
        r.tensix_enabled_col_mask == match tensix {
            Some(v) => v,
            None => Arc::DEFAULT_TENSIX_ENABLED,
        },
        r.gddr_enabled_mask == match gddr {
            Some(v) => v,
            None => Arc::DEFAULT_GDDR_ENABLED,
        },
{
    ProbeInfo {
        tensix_enabled_col_mask: match tensix {
            Some(v) => v,
            None => Arc::DEFAULT_TENSIX_ENABLED,
        },
        gddr_enabled_mask: match gddr {
            Some(v) => v,
            None => Arc::DEFAULT_GDDR_ENABLED,
        },
    }
}

/// The setting of a window: what it shows, of which cores, in strict order.
pub open spec fn window_bits(addr: u64, start: CoreCoord, end: CoreCoord) -> u128 {
    ((addr >> 21) as u128) | ((end.x as u128) << 43) | ((end.y as u128) << 49) | ((
    start.x as u128) << 55) | ((start.y as u128) << 61) | (1u128 << 70)
}

/// Each part of a setting can be read off it.
pub proof fn lemma_window_bits(addr: u64, start: CoreCoord, end: CoreCoord)
    requires
        start.x < 64,
        start.y < 64,
        end.x < 64,
        end.y < 64,
    ensures
        window_bits(addr, start, end) & 0x7ff_ffff_ffff == (addr >> 21) as u128,
        (window_bits(addr, start, end) >> 43) & 0x3f == end.x,
        (window_bits(addr, start, end) >> 49) & 0x3f == end.y,
        (window_bits(addr, start, end) >> 55) & 0x3f == start.x,
        (window_bits(addr, start, end) >> 61) & 0x3f == start.y,
        window_bits(addr, start, end) >> 67 == 8,
{
    let (sx, sy, ex, ey) = (start.x, start.y, end.x, end.y);
    assert(sx < 64 && sy < 64 && ex < 64 && ey < 64 ==> {
        let w = ((addr >> 21) as u128) | ((ex as u128) << 43) | ((ey as u128) << 49) | ((
        sx as u128) << 55) | ((sy as u128) << 61) | (1u128 << 70);
        &&& w & 0x7ff_ffff_ffff == (addr >> 21) as u128
        &&& (w >> 43) & 0x3f == ex
        &&& (w >> 49) & 0x3f == ey
        &&& (w >> 55) & 0x3f == sx
        &&& (w >> 61) & 0x3f == sy
        &&& w >> 67 == 8
    }) by (bit_vector);
}

/// The writes that set the window `index`: three words, and for the first windows
/// a stride of zero.
pub open spec fn window_writes(
    index: int,
    addr: u64,
    start: CoreCoord,
    end: CoreCoord,
) -> Seq<(u64, u32)> {
    let bits = window_bits(addr, start, end);
    let at = TLB_REGS_START + index * TLB_REG_SIZE;
    let words = seq![
        (at as u64, (bits & 0xffff_ffff) as u32),
        ((at + 4) as u64, ((bits >> 32) & 0xffff_ffff) as u32),
        ((at + 8) as u64, ((bits >> 64) & 0xffff_ffff) as u32),
    ];
    if index < 32 {
        words.push(((TLB_REGS_START + TLB_STRIDE_OFFSET + index * 4) as u64, 0u32))
    } else {
        words
    }
}

pub fn configure_tlb(index: u64, addr: u64, start: CoreCoord, end: CoreCoord) -> (r: Vec<
    (u64, u32),
>)
    requires
        index <= u32::MAX,
    ensures
        r@ == window_writes(index as int, addr, start, end),
{
    let at: u64 = TLB_REGS_START + index * TLB_REG_SIZE;
    let local: u64 = addr >> 21;
    let bits: u128 = (local as u128) | ((end.x as u128) << 43) | ((end.y as u128) << 49) | ((
    start.x as u128) << 55) | ((start.y as u128) << 61) | (1u128 << 70);
    let mut out: Vec<(u64, u32)> = Vec::new();
    out.push((at, (bits & 0xffff_ffff) as u32));
    out.push((at + 4, ((bits >> 32) & 0xffff_ffff) as u32));
    out.push((at + 8, ((bits >> 64) & 0xffff_ffff) as u32));
    if index < 32 {
        out.push((TLB_REGS_START + TLB_STRIDE_OFFSET + index * 4, 0));
    }
    assert(out@ =~= window_writes(index as int, addr, start, end));
    out
}

} // verus!
