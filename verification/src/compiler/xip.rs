//! Relocation of code so that it runs wherever it is placed: pairs of
//! instructions that form absolute addresses of code are exchanged for pairs
//! that form them relative to the program counter.

use vstd::prelude::*;
use crate::bytes;

verus! {

/// The relocation of the upper 20 bits of an address.
pub const R_RISCV_HI20: u32 = 26;

/// The relocation of the lower 12 bits of an address in a load.
pub const R_RISCV_LO12_I: u32 = 27;

/// The relocation of the lower 12 bits of an address in a store.
pub const R_RISCV_LO12_S: u32 = 28;

/// The header of a section.
#[derive(Clone, Copy, Debug, PartialEq, Eq, Structural)]
pub struct SectionHeader {
    pub sh_type: u32,
    pub sh_flags: u32,
    pub sh_addr: u32,
    pub sh_offset: u32,
    pub sh_size: u32,
    pub sh_link: u32,
    pub sh_info: u32,
    pub sh_entsize: u32,
}

/// Where the section headers stand and how many there are.
#[derive(Clone, Copy, Debug, PartialEq, Eq, Structural)]
pub struct SectionTable {
    pub offset: u32,
    pub entry_size: u16,
    pub count: u16,
}

/// The header of section `index`.
pub open spec fn section(data: Seq<u8>, t: SectionTable, index: int) -> Option<SectionHeader> {
    let at = t.offset + index * t.entry_size;
    if at + 40 > data.len() {
        None
    } else {
        Some(
            SectionHeader {
                sh_type: bytes::u32_at(data, at + 4) as u32,
                sh_flags: bytes::u32_at(data, at + 8) as u32,
                sh_addr: bytes::u32_at(data, at + 12) as u32,
                sh_offset: bytes::u32_at(data, at + 16) as u32,
                sh_size: bytes::u32_at(data, at + 20) as u32,
                sh_link: bytes::u32_at(data, at + 24) as u32,
                sh_info: bytes::u32_at(data, at + 28) as u32,
                sh_entsize: bytes::u32_at(data, at + 36) as u32,
            },
        )
    }
}

fn section_header(data: &[u8], t: SectionTable, index: u32) -> (r: Option<SectionHeader>)
    ensures
        r == section(data@, t, index as int),
{
    proof {
        assert(0 <= index * t.entry_size <= 0xffff_ffff * 0xffff) by (nonlinear_arith)
            requires
                index <= 0xffff_ffff,
                t.entry_size <= 0xffff,
        ;
    }
    let offset: u64 = t.offset as u64 + index as u64 * t.entry_size as u64;
    if offset + 40 > data.len() as u64 {
        return None;
    }
    let at: usize = offset as usize;
    Some(
        SectionHeader {
            sh_type: bytes::get_u32(data, at + 4),
            sh_flags: bytes::get_u32(data, at + 8),
            sh_addr: bytes::get_u32(data, at + 12),
            sh_offset: bytes::get_u32(data, at + 16),
            sh_size: bytes::get_u32(data, at + 20),
            sh_link: bytes::get_u32(data, at + 24),
            sh_info: bytes::get_u32(data, at + 28),
            sh_entsize: bytes::get_u32(data, at + 36),
        },
    )
}

/// The value of symbol `index` of the table in section `table`.
pub open spec fn symbol_value(data: Seq<u8>, t: SectionTable, table: int, index: int) -> Option<
    int,
> {
    match section(data, t, table) {
        None => None,
        Some(s) => {
            let at = s.sh_offset + index * s.sh_entsize;
            if at + 8 > data.len() {
                None
            } else {
                Some(bytes::u32_at(data, at + 4))
            }
        },
    }
}

fn symbol(data: &[u8], t: SectionTable, table: u32, index: u32) -> (r: Option<u32>)
    requires
        index < 0x100_0000,
    ensures
        match r {
            Some(v) => symbol_value(data@, t, table as int, index as int) == Some(v as int),
            None => symbol_value(data@, t, table as int, index as int) is None,
        },
{
    let s = match section_header(data, t, table) {
        Some(s) => s,
        None => {
            return None;
        },
    };
    proof {
        assert(0 <= index * s.sh_entsize <= 0x100_0000 * 0xffff_ffff) by (nonlinear_arith)
            requires
                index < 0x100_0000,
                s.sh_entsize <= 0xffff_ffff,
        ;
    }
    let offset: u64 = s.sh_offset as u64 + index as u64 * s.sh_entsize as u64;
    if offset + 8 > data.len() as u64 {
        return None;
    }
    Some(bytes::get_u32(data, offset as usize + 4))
}

/// Where the byte of address `addr` stands in the file.
pub open spec fn file_offset(s: SectionHeader, addr: int) -> Option<int> {
    if addr < s.sh_addr || s.sh_offset + (addr - s.sh_addr) > u32::MAX {
        None
    } else {
        Some(s.sh_offset + (addr - s.sh_addr))
    }
}

fn section_file_offset(s: SectionHeader, addr: u32) -> (r: Option<u32>)
    ensures
        match r {
            Some(v) => file_offset(s, addr as int) == Some(v as int),
            None => file_offset(s, addr as int) is None,
        },
{
    if addr < s.sh_addr {
        return None;
    }
    s.sh_offset.checked_add(addr - s.sh_addr)
}

/// The addresses of the code.
#[derive(Clone, Copy, Debug, PartialEq, Eq, Structural)]
pub struct CodeRange {
    pub start: u32,
    pub end: u32,
}

impl CodeRange {
    pub open spec fn holds(self, addr: int) -> bool {
        self.start <= addr <= self.end
    }
}

/// The range of the first loadable segment from header `i` on that holds code.
/// There is none where a header before it cannot be read.
pub open spec fn code_range(elf: Seq<u8>, i: int) -> Option<CodeRange>
    decreases bytes::u16_at(elf, 44) - i,
{
    let at = bytes::u32_at(elf, 28) + i * bytes::u16_at(elf, 42);
    if i >= bytes::u16_at(elf, 44) || at + 4 > elf.len() {
        None
    } else if bytes::u32_at(elf, at) != 1 {
        code_range(elf, i + 1)
    } else if at + 28 > elf.len() {
        None
    } else if bytes::u32_at(elf, at + 24) % 2 == 1 {
        let start = bytes::u32_at(elf, at + 8);
        let end = start + bytes::u32_at(elf, at + 20);
        Some(
            CodeRange {
                start: start as u32,
                end: (if end > u32::MAX {
                    u32::MAX as int
                } else {
                    end
                }) as u32,
            },
        )
    } else {
        code_range(elf, i + 1)
    }
}

fn find_code(elf: &[u8]) -> (r: Option<CodeRange>)
    requires
        elf@.len() >= 50,
    ensures
        r == code_range(elf@, 0),
{
    let len: usize = elf.len();
    let e_phoff: u32 = bytes::get_u32(elf, 28);
    let e_phentsize: u16 = bytes::get_u16(elf, 42);
    let e_phnum: u16 = bytes::get_u16(elf, 44);
    for i in 0..e_phnum
        invariant
            len == elf@.len(),
            len >= 50,
            e_phoff == bytes::u32_at(elf@, 28),
            e_phentsize == bytes::u16_at(elf@, 42),
            e_phnum == bytes::u16_at(elf@, 44),
            code_range(elf@, 0) == code_range(elf@, i as int),
    {
        proof {
            assert(0 <= i * e_phentsize <= 0xffff * 0xffff) by (nonlinear_arith)
                requires
                    i <= 0xffff,
                    e_phentsize <= 0xffff,
            ;
        }
        let offset: u64 = e_phoff as u64 + i as u64 * e_phentsize as u64;
        if offset + 4 > len as u64 {
            return None;
        }
        let at: usize = offset as usize;
        if bytes::get_u32(elf, at) == 1 {
            if offset + 28 > len as u64 {
                return None;
            }
            let start: u32 = bytes::get_u32(elf, at + 8);
            let size: u32 = bytes::get_u32(elf, at + 20);
            let flags: u32 = bytes::get_u32(elf, at + 24);
            if flags % 2 == 1 {
                let end: u32 = match start.checked_add(size) {
                    Some(end) => end,
                    None => u32::MAX,
                };
                return Some(CodeRange { start, end });
            }
        }
    }
    None
}

/// A relocation.
#[derive(Clone, Copy, Debug, PartialEq, Eq, Structural)]
pub struct Relocation {
    pub offset: u32,
    pub symbol: u32,
    pub kind: u32,
    pub addend: u32,
}

/// Relocation `i` of the list in section `rel`.
pub open spec fn relocation(data: Seq<u8>, rel: SectionHeader, i: int) -> Relocation {
    let at = rel.sh_offset + i * rel.sh_entsize;
    let info = bytes::u32_at(data, at + 4);
    Relocation {
        offset: bytes::u32_at(data, at) as u32,
        symbol: (info / 256) as u32,
        kind: (info % 256) as u32,
        addend: bytes::u32_at(data, at + 8) as u32,
    }
}

/// The number of relocations in section `rel`.
pub open spec fn relocation_count(rel: SectionHeader) -> int {
    rel.sh_size as int / rel.sh_entsize as int
}

/// Whether relocation `r` is of the upper bits of an address of code.
pub open spec fn is_upper(
    data: Seq<u8>,
    t: SectionTable,
    code: CodeRange,
    rel: SectionHeader,
    r: Relocation,
) -> bool {
    r.kind == R_RISCV_HI20 && match symbol_value(data, t, rel.sh_link as int, r.symbol as int) {
        Some(v) => code.holds(v),
        None => false,
    }
}

/// The relocations of upper bits among the first `n`.
pub open spec fn uppers(
    data: Seq<u8>,
    t: SectionTable,
    code: CodeRange,
    rel: SectionHeader,
    n: int,
) -> Seq<Relocation>
    decreases n,
{
    if n <= 0 {
        Seq::empty()
    } else {
        let r = relocation(data, rel, n - 1);
        if is_upper(data, t, code, rel, r) {
            uppers(data, t, code, rel, n - 1).push(r)
        } else {
            uppers(data, t, code, rel, n - 1)
        }
    }
}

/// The relocations of lower bits among the first `n`.
pub open spec fn lowers(data: Seq<u8>, rel: SectionHeader, n: int) -> Seq<Relocation>
    decreases n,
{
    if n <= 0 {
        Seq::empty()
    } else {
        let r = relocation(data, rel, n - 1);
        if r.kind == R_RISCV_LO12_I || r.kind == R_RISCV_LO12_S {
            lowers(data, rel, n - 1).push(r)
        } else {
            lowers(data, rel, n - 1)
        }
    }
}

/// The last upper relocation of the symbol before `lo`, by address, among the
/// first `n` of the list.
pub open spec fn closest_before(list: Seq<Relocation>, lo: Relocation, n: int) -> Option<Relocation>
    decreases n,
{
    if n <= 0 {
        None
    } else {
        let best = closest_before(list, lo, n - 1);
        let r = list[n - 1];
        if r.symbol == lo.symbol && r.offset < lo.offset && (best is None || best->0.offset
            <= r.offset) {
            Some(r)
        } else {
            best
        }
    }
}

/// The first upper relocation of the symbol, by address, among the first `n` of
/// the list.
pub open spec fn lowest(list: Seq<Relocation>, symbol: u32, n: int) -> Option<Relocation>
    decreases n,
{
    if n <= 0 {
        None
    } else {
        let best = lowest(list, symbol, n - 1);
        let r = list[n - 1];
        if r.symbol == symbol && (best is None || r.offset < best->0.offset) {
            Some(r)
        } else {
            best
        }
    }
}

/// The upper relocation that belongs to `lo`.
pub open spec fn partner(list: Seq<Relocation>, lo: Relocation) -> Option<Relocation> {
    let n = list.len() as int;
    if closest_before(list, lo, n) is Some {
        closest_before(list, lo, n)
    } else {
        lowest(list, lo.symbol, n)
    }
}

fn find_partner(list: &Vec<Relocation>, lo: Relocation) -> (r: Option<Relocation>)
    ensures
        r == partner(list@, lo),
{
    let mut before: Option<Relocation> = None;
    let mut first: Option<Relocation> = None;
    for i in 0..list.len()
        invariant
            before == closest_before(list@, lo, i as int),
            first == lowest(list@, lo.symbol, i as int),
    {
        let r: Relocation = list[i];
        if r.symbol == lo.symbol {
            let closer: bool = match before {
                None => true,
                Some(b) => b.offset <= r.offset,
            };
            if r.offset < lo.offset && closer {
                before = Some(r);
            }
            let lower: bool = match first {
                None => true,
                Some(b) => r.offset < b.offset,
            };
            if lower {
                first = Some(r);
            }
        }
    }
    match before {
        Some(r) => Some(r),
        None => first,
    }
}

/// The distance from the instruction at `hi` to the address of the symbol.
pub open spec fn distance(value: int, hi: Relocation) -> int {
    (value + hi.addend - hi.offset) % 0x1_0000_0000
}

/// An instruction that loads upper bits, made to add them to the program counter.
pub open spec fn upper_insn(insn: int, d: int) -> int {
    (d + 0x800) % 0x1_0000_0000 / 0x1000 * 0x1000 + insn / 0x80 % 32 * 0x80 + 0x17
}

/// An instruction with the lower bits of the distance in it.
pub open spec fn lower_insn(insn: int, d: int, kind: u32) -> int {
    let low = d % 0x1000;
    if kind == R_RISCV_LO12_I {
        insn % 0x10_0000 + low * 0x10_0000
    } else {
        insn % 0x80 + low % 32 * 0x80 + insn / 0x1000 % 0x2000 * 0x1000 + low / 32 * 0x200_0000
    }
}

/// The upper bits of an instruction, as the processor adds them.
pub open spec fn upper_part(insn: int) -> int {
    insn / 0x1000 * 0x1000
}

/// The lower bits of a load or store, as the processor adds them: with sign.
pub open spec fn lower_part(insn: int, kind: u32) -> int {
    let low = if kind == R_RISCV_LO12_I {
        insn / 0x10_0000 % 0x1000
    } else {
        insn / 0x200_0000 % 0x80 * 32 + insn / 0x80 % 32
    };
    if low >= 0x800 {
        low - 0x1000
    } else {
        low
    }
}

proof fn lemma_upper(insn: int, d: int)
    requires
        0 <= insn <= u32::MAX,
        0 <= d <= u32::MAX,
    ensures
        0 <= upper_insn(insn, d) <= u32::MAX,
        upper_part(upper_insn(insn, d)) == (d + 0x800) % 0x1_0000_0000 / 0x1000 * 0x1000,
{
    let up = (d + 0x800) % 0x1_0000_0000 / 0x1000;
    let rest = insn / 0x80 % 32 * 0x80 + 0x17;
    assert(0 <= rest < 0x1000);
    assert(0 <= up < 0x10_0000);
    assert((up * 0x1000 + rest) / 0x1000 == up);
}

proof fn lemma_lower_load(insn: int, low: int)
    requires
        0 <= insn <= u32::MAX,
        0 <= low < 0x1000,
    ensures
        ({
            let new = insn % 0x10_0000 + low * 0x10_0000;
            &&& 0 <= new <= u32::MAX
            &&& new / 0x10_0000 % 0x1000 == low
        }),
{
}

proof fn lemma_lower_store(a: int, b: int, c: int, e: int)
    requires
        0 <= a < 0x80,
        0 <= b < 32,
        0 <= c < 0x2000,
        0 <= e < 0x80,
    ensures
        ({
            let new = a + b * 0x80 + c * 0x1000 + e * 0x200_0000;
            &&& 0 <= new <= u32::MAX
            &&& new / 0x200_0000 % 0x80 == e
            &&& new / 0x80 % 32 == b
        }),
{
    let new = a + b * 0x80 + c * 0x1000 + e * 0x200_0000;
    assert(new / 0x200_0000 == e);
    let q = b + c * 32 + e * 0x4_0000;
    assert(new == a + q * 0x80);
    assert(new / 0x80 == q);
    assert(q % 32 == b);
}

proof fn lemma_lower(insn: int, d: int, kind: u32)
    requires
        0 <= insn <= u32::MAX,
        0 <= d <= u32::MAX,
    ensures
        0 <= lower_insn(insn, d, kind) <= u32::MAX,
        lower_part(lower_insn(insn, d, kind), kind) == if d % 0x1000 >= 0x800 {
            d % 0x1000 - 0x1000
        } else {
            d % 0x1000
        },
{
    let low = d % 0x1000;
    if kind == R_RISCV_LO12_I {
        lemma_lower_load(insn, low);
    } else {
        lemma_lower_store(insn % 0x80, low % 32, insn / 0x1000 % 0x2000, low / 32);
        assert(low / 32 * 32 + low % 32 == low);
    }
}

proof fn lemma_parts(d: int)
    requires
        0 <= d <= u32::MAX,
    ensures
        ({
            let low = if d % 0x1000 >= 0x800 {
                d % 0x1000 - 0x1000
            } else {
                d % 0x1000
            };
            let sum = (d + 0x800) % 0x1_0000_0000 / 0x1000 * 0x1000 + low;
            sum == d || sum == d - 0x1_0000_0000
        }),
{
    let q = d / 0x1000;
    let r = d % 0x1000;
    assert(d == q * 0x1000 + r);
    if d + 0x800 < 0x1_0000_0000 {
        assert((d + 0x800) % 0x1_0000_0000 == d + 0x800);
        if r >= 0x800 {
            assert((d + 0x800) / 0x1000 == q + 1);
        } else {
            assert((d + 0x800) / 0x1000 == q);
        }
    } else {
        let w = d + 0x800 - 0x1_0000_0000;
        assert((d + 0x800) % 0x1_0000_0000 == w);
        assert(w / 0x1000 == 0);
        assert(q == 0xf_ffff);
    }
}

/// A relocated pair forms the address of its symbol, wherever the code is placed:
/// the upper part added to the place of its instruction, and the lower part
/// added to that, give the symbol's address moved as far as the code was.
pub proof fn lemma_pair_forms_address(
    hi_insn: int,
    lo_insn: int,
    value: int,
    hi: Relocation,
    kind: u32,
    moved: int,
)
    requires
        0 <= hi_insn <= u32::MAX,
        0 <= lo_insn <= u32::MAX,
        0 <= value <= u32::MAX,
    ensures
        ({
            let d = distance(value, hi);
            let new_hi = upper_insn(hi_insn, d);
            let new_lo = lower_insn(lo_insn, d, kind);
            (hi.offset + moved + upper_part(new_hi) + lower_part(new_lo, kind) - (value + hi.addend
                + moved)) % 0x1_0000_0000 == 0
        }),
{
    let d = distance(value, hi);
    lemma_upper(hi_insn, d);
    lemma_lower(lo_insn, d, kind);
    lemma_parts(d);
    let sum = upper_part(upper_insn(hi_insn, d)) + lower_part(lower_insn(lo_insn, d, kind), kind);
    let k = (value + hi.addend - hi.offset) / 0x1_0000_0000;
    assert(value + hi.addend - hi.offset == k * 0x1_0000_0000 + d);
    let total = hi.offset + moved + sum - (value + hi.addend + moved);
    assert(total == -k * 0x1_0000_0000 || total == (-k - 1) * 0x1_0000_0000);
}

fn relocate_upper(insn: u32, d: u32) -> (r: u32)
    ensures
        r == upper_insn(insn as int, d as int),
{
    proof {
        lemma_upper(insn as int, d as int);
    }
    let up: u64 = (d as u64 + 0x800) % 0x1_0000_0000 / 0x1000 * 0x1000;
    (up as u32) + (insn / 0x80 % 32 * 0x80 + 0x17)
}

fn relocate_lower(insn: u32, d: u32, kind: u32) -> (r: u32)
    ensures
        r == lower_insn(insn as int, d as int, kind),
{
    proof {
        lemma_lower(insn as int, d as int, kind);
    }
    let low: u32 = d % 0x1000;
    if kind == R_RISCV_LO12_I {
        insn % 0x10_0000 + low * 0x10_0000
    } else {
        insn % 0x80 + low % 32 * 0x80 + insn / 0x1000 % 0x2000 * 0x1000 + low / 32 * 0x200_0000
    }
}

fn find_distance(value: u32, hi: Relocation) -> (d: u32)
    ensures
        d == distance(value as int, hi),
{
    let sum: u64 = value as u64 + hi.addend as u64 + 0x1_0000_0000 - hi.offset as u64;
    (sum % 0x1_0000_0000) as u32
}

/// The file after the pair of `lo` was relocated. Nothing changes where the pair
/// cannot be found, or its first instruction does not load upper bits.
pub open spec fn pair_relocated(
    data: Seq<u8>,
    t: SectionTable,
    rel: SectionHeader,
    target: SectionHeader,
    list: Seq<Relocation>,
    lo: Relocation,
) -> Seq<u8> {
    match (partner(list, lo), symbol_value(data, t, rel.sh_link as int, lo.symbol as int)) {
        (Some(hi), Some(value)) => match file_offset(target, hi.offset as int) {
            Some(hi_at) => if hi_at + 4 > data.len() || bytes::u32_at(data, hi_at) % 0x80 != 0x37 {
                data
            } else {
                let d = distance(value, hi);
                let first = bytes::overwritten(
                    data,
                    hi_at,
                    bytes::le4(upper_insn(bytes::u32_at(data, hi_at), d)),
                );
                match file_offset(target, lo.offset as int) {
                    Some(lo_at) => if lo_at + 4 > data.len() {
                        first
                    } else {
                        bytes::overwritten(
                            first,
                            lo_at,
                            bytes::le4(lower_insn(bytes::u32_at(first, lo_at), d, lo.kind)),
                        )
                    },
                    None => first,
                }
            },
            None => data,
        },
        _ => data,
    }
}

/// The file after the first `n` pairs were relocated.
pub open spec fn pairs_relocated(
    data: Seq<u8>,
    t: SectionTable,
    rel: SectionHeader,
    target: SectionHeader,
    list: Seq<Relocation>,
    los: Seq<Relocation>,
    n: int,
) -> Seq<u8>
    decreases n,
{
    if n <= 0 {
        data
    } else {
        pair_relocated(
            pairs_relocated(data, t, rel, target, list, los, n - 1),
            t,
            rel,
            target,
            list,
            los[n - 1],
        )
    }
}

/// The file after the relocations of section `index` were applied, or `None`
/// where its header or its relocations cannot be read.
pub open spec fn section_relocated(
    data: Seq<u8>,
    t: SectionTable,
    code: CodeRange,
    index: int,
) -> Option<Seq<u8>> {
    match section(data, t, index) {
        None => None,
        Some(rel) => if rel.sh_type != 4 || rel.sh_entsize < 12 || rel.sh_size == 0 {
            Some(data)
        } else {
            match section(data, t, rel.sh_info as int) {
                None => Some(data),
                Some(target) => {
                    let n = relocation_count(rel);
                    if target.sh_flags as int / 2 % 2 == 0 || target.sh_type == 8 {
                        Some(data)
                    } else if n > 0 && rel.sh_offset + (n - 1) * rel.sh_entsize + 12 > data.len() {
                        None
                    } else {
                        let los = lowers(data, rel, n);
                        Some(
                            pairs_relocated(
                                data,
                                t,
                                rel,
                                target,
                                uppers(data, t, code, rel, n),
                                los,
                                los.len() as int,
                            ),
                        )
                    }
                },
            }
        },
    }
}

/// The file after the relocations of the first `n` sections were applied.
pub open spec fn sections_relocated(
    data: Seq<u8>,
    t: SectionTable,
    code: CodeRange,
    n: int,
) -> Option<Seq<u8>>
    decreases n,
{
    if n <= 0 {
        Some(data)
    } else {
        match sections_relocated(data, t, code, n - 1) {
            None => None,
            Some(d) => section_relocated(d, t, code, n - 1),
        }
    }
}

/// Where the sections of an image are listed.
pub open spec fn section_table(elf: Seq<u8>) -> SectionTable {
    SectionTable {
        offset: bytes::u32_at(elf, 32) as u32,
        entry_size: bytes::u16_at(elf, 46) as u16,
        count: bytes::u16_at(elf, 48) as u16,
    }
}

/// The relocated image. An image that cannot be read stays as it is.
pub open spec fn xipified(elf: Seq<u8>) -> Seq<u8> {
    let t = section_table(elf);
    if elf.len() < 50 || bytes::u16_at(elf, 42) < 32 || t.entry_size < 40 || code_range(
        elf,
        0,
    ) is None {
        elf
    } else {
        match sections_relocated(elf, t, code_range(elf, 0)->0, t.count as int) {
            Some(d) => d,
            None => elf,
        }
    }
}

fn relocate_pair(
    data: &mut Vec<u8>,
    t: SectionTable,
    rel: SectionHeader,
    target: SectionHeader,
    list: &Vec<Relocation>,
    lo: Relocation,
)
    requires
        lo.symbol < 0x100_0000,
        lo.kind == R_RISCV_LO12_I || lo.kind == R_RISCV_LO12_S,
    ensures
        final(data)@ == pair_relocated(old(data)@, t, rel, target, list@, lo),
        final(data)@.len() == old(data)@.len(),
{
    let hi = match find_partner(list, lo) {
        Some(hi) => hi,
        None => {
            return ;
        },
    };
    let value: u32 = match symbol(data.as_slice(), t, rel.sh_link, lo.symbol) {
        Some(v) => v,
        None => {
            return ;
        },
    };
    let hi_at: u32 = match section_file_offset(target, hi.offset) {
        Some(at) => at,
        None => {
            return ;
        },
    };
    if hi_at as u64 + 4 > data.len() as u64 {
        return ;
    }
    let insn: u32 = bytes::get_u32(data.as_slice(), hi_at as usize);
    if insn % 0x80 != 0x37 {
        return ;
    }
    let d: u32 = find_distance(value, hi);
    bytes::put_u32(data, hi_at as usize, relocate_upper(insn, d));
    let lo_at: u32 = match section_file_offset(target, lo.offset) {
        Some(at) => at,
        None => {
            return ;
        },
    };
    if lo_at as u64 + 4 > data.len() as u64 {
        return ;
    }
    let insn: u32 = bytes::get_u32(data.as_slice(), lo_at as usize);
    bytes::put_u32(data, lo_at as usize, relocate_lower(insn, d, lo.kind));
}

/// Applies the relocations of one section; `false` where they cannot be read.
fn relocate_section(data: &mut Vec<u8>, t: SectionTable, code: CodeRange, index: u32) -> (ok: bool)
    ensures
        match section_relocated(old(data)@, t, code, index as int) {
            Some(d) => ok && final(data)@ == d,
            None => !ok,
        },
{
    let rel = match section_header(data.as_slice(), t, index) {
        Some(s) => s,
        None => {
            return false;
        },
    };
    if rel.sh_type != 4 || rel.sh_entsize < 12 || rel.sh_size == 0 {
        return true;
    }
    let target = match section_header(data.as_slice(), t, rel.sh_info) {
        Some(s) => s,
        None => {
            return true;
        },
    };
    if target.sh_flags / 2 % 2 == 0 || target.sh_type == 8 {
        return true;
    }
    let n: u32 = rel.sh_size / rel.sh_entsize;
    let len: usize = data.len();
    if n > 0 {
        proof {
            assert(0 <= (n - 1) * rel.sh_entsize <= 0xffff_ffff * 0xffff_ffff)
                by (nonlinear_arith)
                requires
                    0 <= n - 1 <= 0xffff_ffff,
                    rel.sh_entsize <= 0xffff_ffff,
            ;
            assert((n - 1) * rel.sh_entsize <= rel.sh_size) by (nonlinear_arith)
                requires
                    n as int == rel.sh_size as int / rel.sh_entsize as int,
                    rel.sh_entsize >= 12,
            ;
        }
        if rel.sh_offset as u64 + (n - 1) as u64 * rel.sh_entsize as u64 + 12 > len as u64 {
            return false;
        }
    }
    let mut his: Vec<Relocation> = Vec::new();
    let mut los: Vec<Relocation> = Vec::new();
    for i in 0..n
        invariant
            len == data@.len(),
            data@ == old(data)@,
            n as int == relocation_count(rel),
            rel.sh_entsize >= 12,
            n > 0 ==> rel.sh_offset + (n - 1) * rel.sh_entsize + 12 <= len,
            his@ == uppers(data@, t, code, rel, i as int),
            los@ == lowers(data@, rel, i as int),
            forall|j: int|
                0 <= j < los@.len() ==> (#[trigger] los@[j]).symbol < 0x100_0000 && (los@[j].kind
                    == R_RISCV_LO12_I || los@[j].kind == R_RISCV_LO12_S),
    {
        proof {
            assert(0 <= i * rel.sh_entsize <= (n - 1) * rel.sh_entsize) by (nonlinear_arith)
                requires
                    0 <= i <= n - 1,
                    rel.sh_entsize >= 12,
            ;
        }
        let at: usize = rel.sh_offset as usize + i as usize * rel.sh_entsize as usize;
        let info: u32 = bytes::get_u32(data.as_slice(), at + 4);
        let r = Relocation {
            offset: bytes::get_u32(data.as_slice(), at),
            symbol: info / 256,
            kind: info % 256,
            addend: bytes::get_u32(data.as_slice(), at + 8),
        };
        assert(r == relocation(data@, rel, i as int));
        if r.kind == R_RISCV_HI20 {
            if let Some(v) = symbol(data.as_slice(), t, rel.sh_link, r.symbol) {
                if code.start <= v && v <= code.end {
                    his.push(r);
                }
            }
        } else if r.kind == R_RISCV_LO12_I || r.kind == R_RISCV_LO12_S {
            los.push(r);
        }
    }
    let m: usize = los.len();
    for i in 0..m
        invariant
            m == los@.len(),
            data@ == pairs_relocated(old(data)@, t, rel, target, his@, los@, i as int),
            forall|j: int|
                0 <= j < los@.len() ==> (#[trigger] los@[j]).symbol < 0x100_0000 && (los@[j].kind
                    == R_RISCV_LO12_I || los@[j].kind == R_RISCV_LO12_S),
    {
        relocate_pair(data, t, rel, target, &his, los[i]);
    }
    true
}

/// Relocates the code of an image.
pub fn xipify_riscv32_elf(elf: &[u8]) -> (r: Vec<u8>)
    ensures
        r@ == xipified(elf@),
{
    if elf.len() < 50 {
        return bytes::copy(elf);
    }
    let t = SectionTable {
        offset: bytes::get_u32(elf, 32),
        entry_size: bytes::get_u16(elf, 46),
        count: bytes::get_u16(elf, 48),
    };
    if bytes::get_u16(elf, 42) < 32 || t.entry_size < 40 {
        return bytes::copy(elf);
    }
    let code = match find_code(elf) {
        Some(code) => code,
        None => {
            return bytes::copy(elf);
        },
    };
    let mut data = bytes::copy(elf);
    for index in 0..t.count
        invariant
            elf@.len() >= 50,
            bytes::u16_at(elf@, 42) >= 32,
            t.entry_size >= 40,
            t == (SectionTable {
                offset: bytes::u32_at(elf@, 32) as u32,
                entry_size: bytes::u16_at(elf@, 46) as u16,
                count: bytes::u16_at(elf@, 48) as u16,
            }),
            code_range(elf@, 0) == Some(code),
            sections_relocated(elf@, t, code, index as int) == Some(data@),
    {
        if !relocate_section(&mut data, t, code, index as u32) {
            proof {
                lemma_given_up(elf@, t, code, index + 1, t.count as int);
            }
            return bytes::copy(elf);
        }
    }
    data
}

/// What could not be read once is not read later.
proof fn lemma_given_up(data: Seq<u8>, t: SectionTable, code: CodeRange, a: int, b: int)
    requires
        0 <= a <= b,
        sections_relocated(data, t, code, a) is None,
    ensures
        sections_relocated(data, t, code, b) is None,
    decreases b - a,
{
    if a < b {
        lemma_given_up(data, t, code, a, b - 1);
    }
}

/// An image without relocations stays as it is.
pub proof fn lemma_nothing_relocated(elf: Seq<u8>)
    requires
        forall|i: int|
            0 <= i < section_table(elf).count ==> ((#[trigger] section(elf, section_table(elf), i))
                matches Some(s) ==> s.sh_type != 4),
    ensures
        xipified(elf) == elf,
{
    if code_range(elf, 0) is Some {
        lemma_no_section_relocated(
            elf,
            section_table(elf),
            code_range(elf, 0)->0,
            section_table(elf).count as int,
        );
    }
}

proof fn lemma_no_section_relocated(elf: Seq<u8>, t: SectionTable, code: CodeRange, n: int)
    requires
        forall|i: int|
            0 <= i < n ==> ((#[trigger] section(elf, t, i)) matches Some(s) ==> s.sh_type != 4),
    ensures
        sections_relocated(elf, t, code, n) matches Some(d) ==> d == elf,
    decreases n,
{
    if n > 0 {
        lemma_no_section_relocated(elf, t, code, n - 1);
        assert(section(elf, t, n - 1) matches Some(s) ==> s.sh_type != 4);
    }
}

/// Relocation changes no more than instructions: the image keeps its length.
pub proof fn lemma_xipified_length(elf: Seq<u8>)
    ensures
        xipified(elf).len() == elf.len(),
{
    let t = SectionTable {
        offset: bytes::u32_at(elf, 32) as u32,
        entry_size: bytes::u16_at(elf, 46) as u16,
        count: bytes::u16_at(elf, 48) as u16,
    };
    if code_range(elf, 0) is Some {
        lemma_sections_length(elf, t, code_range(elf, 0)->0, t.count as int);
    }
}

proof fn lemma_sections_length(data: Seq<u8>, t: SectionTable, code: CodeRange, n: int)
    ensures
        sections_relocated(data, t, code, n) matches Some(d) ==> d.len() == data.len(),
    decreases n,
{
    if n > 0 {
        lemma_sections_length(data, t, code, n - 1);
        if sections_relocated(data, t, code, n - 1) is Some {
            let d = sections_relocated(data, t, code, n - 1)->0;
            if let Some(rel) = section(d, t, n - 1) {
                if let Some(target) = section(d, t, rel.sh_info as int) {
                    let m = relocation_count(rel);
                    let los = lowers(d, rel, m);
                    lemma_pairs_length(
                        d,
                        t,
                        rel,
                        target,
                        uppers(d, t, code, rel, m),
                        los,
                        los.len() as int,
                    );
                }
            }
        }
    }
}

proof fn lemma_pairs_length(
    data: Seq<u8>,
    t: SectionTable,
    rel: SectionHeader,
    target: SectionHeader,
    list: Seq<Relocation>,
    los: Seq<Relocation>,
    n: int,
)
    ensures
        pairs_relocated(data, t, rel, target, list, los, n).len() == data.len(),
    decreases n,
{
    if n > 0 {
        lemma_pairs_length(data, t, rel, target, list, los, n - 1);
    }
}

} // verus!
