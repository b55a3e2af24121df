//! Devices: what a probe says of them, and what follows from it.

use vstd::prelude::*;
use crate::arith;
use crate::cores;
use crate::dispatch::Program;
use crate::error;
use crate::error::{Error, ErrorKind};
use crate::hw;
use crate::hw::{Arc, CoreCoord, Dram, DramTile};
use crate::kernels::kernel::RuntimeArgs;
use crate::text;

pub mod banks;
pub mod firmware;
pub mod parts;
pub mod probe;

verus! {

/// A kind of board.
#[derive(Clone, Copy, Debug, PartialEq, Eq, Structural)]
pub enum BoardKind {
    P100,
    P150,
}

impl BoardKind {
    pub open spec fn shown(self) -> Seq<char> {
        match self {
            BoardKind::P100 => "p100"@,
            BoardKind::P150 => "p150"@,
        }
    }

    pub fn name(self) -> (r: &'static str)
        ensures
            r@ == self.shown(),
    {
        match self {
            BoardKind::P100 => "p100",
            BoardKind::P150 => "p150",
        }
    }

    /// The columns that have worker cores.
    pub open spec fn columns(self) -> Seq<u8> {
        match self {
            BoardKind::P100 => seq![1u8, 2, 3, 4, 5, 6, 7, 10, 11, 12, 13, 14],
            BoardKind::P150 => seq![1u8, 2, 3, 4, 5, 6, 7, 10, 11, 12, 13, 14, 15, 16],
        }
    }

    pub fn tensix_x(self) -> (r: Vec<u8>)
        ensures
            r@ == self.columns(),
    {
        let r: Vec<u8> = match self {
            BoardKind::P100 => vec![1u8, 2, 3, 4, 5, 6, 7, 10, 11, 12, 13, 14],
            BoardKind::P150 => vec![1u8, 2, 3, 4, 5, 6, 7, 10, 11, 12, 13, 14, 15, 16],
        };
        assert(r@ =~= self.columns());
        r
    }

    /// The core that reads commands.
    pub open spec fn reads_commands(self) -> CoreCoord {
        match self {
            BoardKind::P100 => CoreCoord { x: 14, y: 2 },
            BoardKind::P150 => CoreCoord { x: 16, y: 2 },
        }
    }

    pub fn prefetch(self) -> (r: CoreCoord)
        ensures
            r == self.reads_commands(),
    {
        match self {
            BoardKind::P100 => CoreCoord { x: 14, y: 2 },
            BoardKind::P150 => CoreCoord { x: 16, y: 2 },
        }
    }

    /// The core that hands commands on.
    pub open spec fn hands_on(self) -> CoreCoord {
        match self {
            BoardKind::P100 => CoreCoord { x: 14, y: 3 },
            BoardKind::P150 => CoreCoord { x: 16, y: 3 },
        }
    }

    pub fn dispatch(self) -> (r: CoreCoord)
        ensures
            r == self.hands_on(),
    {
        match self {
            BoardKind::P100 => CoreCoord { x: 14, y: 3 },
            BoardKind::P150 => CoreCoord { x: 16, y: 3 },
        }
    }

    /// The board with the given number of cores.
    pub open spec fn of_count(n: int) -> Option<BoardKind> {
        if n == 120 {
            Some(BoardKind::P100)
        } else if n == 140 {
            Some(BoardKind::P150)
        } else {
            None
        }
    }

    pub fn from_tensix_core_count(core_count: usize) -> (r: Option<BoardKind>)
        ensures
            r == BoardKind::of_count(core_count as int),
    {
        match core_count {
            120 => Some(BoardKind::P100),
            140 => Some(BoardKind::P150),
            _ => None,
        }
    }
}

/// What a probe reads off a device.
#[derive(Clone, Copy, Debug, PartialEq, Eq, Structural)]
pub struct ProbeInfo {
    pub tensix_enabled_col_mask: u32,
    pub gddr_enabled_mask: u32,
}

/// A device and its parts.
#[derive(Clone, Debug)]
pub struct Device {
    pub id: usize,
    pub local_hardware_id: usize,
    pub path: String,
    pub board: BoardKind,
    pub arch: String,
    pub tensix_core_count: usize,
    pub all_worker_cores: Vec<CoreCoord>,
    pub prefetch_core: CoreCoord,
    pub dispatch_core: CoreCoord,
    pub harvested_dram_banks: Vec<usize>,
    pub active_dram_banks: usize,
    pub dram_tiles: Vec<DramTile>,
}

/// The number of cores that a probe reports.
pub open spec fn probed_cores(p: ProbeInfo) -> int {
    hw::set_bits(p.tensix_enabled_col_mask, 14) * 10
}

/// The number of banks that a probe reports.
pub open spec fn probed_banks(p: ProbeInfo) -> int {
    8 - hw::harvested(p.gddr_enabled_mask, 8).len()
}

/// Why a device is refused.
pub open spec fn probe_refusal(p: ProbeInfo) -> Option<error::Refusal> {
    if BoardKind::of_count(probed_cores(p)) is None {
        Some(
            (
                ErrorKind::Unsupported,
                "unsupported tensix core count: "@ + text::dec(probed_cores(p)),
            ),
        )
    } else if probed_banks(p) == 0 {
        Some(error::invalid("device probe reported zero active DRAM banks"@))
    } else {
        None
    }
}

/// The cores of a list without two of them.
pub open spec fn without(list: Seq<CoreCoord>, a: CoreCoord, b: CoreCoord) -> Seq<CoreCoord>
    decreases list.len(),
{
    if list.len() == 0 {
        Seq::empty()
    } else if list.last() == a || list.last() == b {
        without(list.drop_last(), a, b)
    } else {
        without(list.drop_last(), a, b).push(list.last())
    }
}

/// Just the other cores are left.
pub proof fn lemma_without(list: Seq<CoreCoord>, a: CoreCoord, b: CoreCoord, c: CoreCoord)
    ensures
        without(list, a, b).contains(c) <==> list.contains(c) && c != a && c != b,
    decreases list.len(),
{
    if list.len() > 0 {
        let front = list.drop_last();
        lemma_without(front, a, b, c);
        assert(list =~= front.push(list.last()));
        cores::lemma_push_contains(front, list.last(), c);
        cores::lemma_push_contains(without(front, a, b), list.last(), c);
    }
}

/// The texts of a list, separated by commas.
pub open spec fn comma_joined(parts: Seq<Seq<char>>) -> Seq<char>
    decreases parts.len(),
{
    if parts.len() == 0 {
        ""@
    } else if parts.len() == 1 {
        parts[0]
    } else {
        comma_joined(parts.drop_last()) + ", "@ + parts.last()
    }
}

fn push_part(out: &mut String, Ghost(parts): Ghost<Seq<Seq<char>>>, part: &str)
    requires
        old(out)@ == comma_joined(parts),
        parts.len() > 0,
    ensures
        final(out)@ == comma_joined(parts.push(part@)),
{
    out.append(", ");
    out.append(part);
    assert(parts.push(part@).drop_last() =~= parts);
}

impl Device {
    /// Whether the device is what a probe says.
    pub open spec fn is_probed(&self, p: ProbeInfo) -> bool {
        &&& BoardKind::of_count(probed_cores(p)) == Some(self.board)
        &&& self.arch@ == self.board.shown()
        &&& self.tensix_core_count == probed_cores(p)
        &&& self.all_worker_cores@ == hw::worker_grid(self.board.columns())
        &&& self.prefetch_core == self.board.reads_commands()
        &&& self.dispatch_core == self.board.hands_on()
        &&& self.harvested_dram_banks@ == hw::harvested(p.gddr_enabled_mask, 8)
        &&& self.active_dram_banks == probed_banks(p)
        &&& self.dram_tiles@ == hw::dram_tiles(self.harvested_dram_banks@, 8)
    }

    /// Works out a device from what a probe reads off it.
    pub fn from_probe(id: usize, local_hardware_id: usize, path: String, probe: ProbeInfo) -> (r:
        Result<Device, Error>)
        ensures
            match r {
                Ok(d) => {
                    &&& probe_refusal(probe) is None
                    &&& d.is_probed(probe)
                    &&& d.id == id
                    &&& d.local_hardware_id == local_hardware_id
                    &&& d.path@ == path@
                },
                Err(e) => probe_refusal(probe) == Some(e@),
            },
    {
        let tensix_core_count: usize = Arc::active_tensix_core_count(
            probe.tensix_enabled_col_mask,
        );
        let board = match BoardKind::from_tensix_core_count(tensix_core_count) {
            Some(b) => b,
            None => {
                return Err(
                    Error::new(
                        ErrorKind::Unsupported,
                        text::cat2(
                            "unsupported tensix core count: ",
                            text::decimal_usize(tensix_core_count).as_str(),
                        ),
                    ),
                );
            },
        };
        let active_dram_banks: usize = Dram::active_banks(probe.gddr_enabled_mask);
        if active_dram_banks == 0 {
            return Err(error::invalid_text("device probe reported zero active DRAM banks"));
        }
        let harvested_dram_banks = Dram::harvested_banks(probe.gddr_enabled_mask);
        let dram_tiles = Dram::tiles(harvested_dram_banks.as_slice());
        let columns = board.tensix_x();
        let all_worker_cores = hw::worker_cores(columns.as_slice());
        Ok(
            Device {
                id,
                local_hardware_id,
                path,
                board,
                arch: board.name().to_owned(),
                tensix_core_count,
                all_worker_cores,
                prefetch_core: board.prefetch(),
                dispatch_core: board.dispatch(),
                harvested_dram_banks,
                active_dram_banks,
                dram_tiles,
            },
        )
    }

    /// The cores that run programs.
    pub open spec fn workers(&self) -> Seq<CoreCoord> {
        without(self.all_worker_cores@, self.prefetch_core, self.dispatch_core)
    }

    pub fn cores(&self) -> (r: Vec<CoreCoord>)
        ensures
            r@ == self.workers(),
    {
        let ghost all = self.all_worker_cores@;
        let mut out: Vec<CoreCoord> = Vec::new();
        for i in 0..self.all_worker_cores.len()
            invariant
                all == self.all_worker_cores@,
                out@ == without(all.take(i as int), self.prefetch_core, self.dispatch_core),
        {
            let core: CoreCoord = self.all_worker_cores[i];
            assert(all.take(i + 1).drop_last() =~= all.take(i as int));
            if core != self.prefetch_core && core != self.dispatch_core {
                out.push(core);
            }
        }
        assert(all.take(all.len() as int) =~= all);
        out
    }

    pub fn device_kind(&self) -> (r: String)
        ensures
            r@ == "Tenstorrent "@ + self.board.shown(),
    {
        text::cat2("Tenstorrent ", self.board.name())
    }

    /// The parts of the description of the device.
    pub open spec fn debug_parts(&self) -> Seq<Seq<char>> {
        let first = seq![
            "board="@ + self.arch@,
            "cores="@ + text::dec(self.tensix_core_count as int),
        ];
        let workers = if self.all_worker_cores@.len() > 0 {
            first.push("workers="@ + text::dec(self.workers().len() as int))
        } else {
            first
        };
        let banks = if self.active_dram_banks > 0 {
            workers.push("dram_banks="@ + text::dec(self.active_dram_banks as int))
        } else {
            workers
        };
        banks.push(
            "cq="@ + self.prefetch_core.shown() + "/"@ + self.dispatch_core.shown(),
        ).push("path="@ + self.path@)
    }

    pub fn device_debug_string(&self) -> (r: String)
        ensures
            r@ == "Tenstorrent device "@ + text::dec(self.id as int) + " ("@ + comma_joined(
                self.debug_parts(),
            ) + ")"@,
    {
        let mut out = text::cat2("board=", self.arch.as_str());
        let ghost mut parts: Seq<Seq<char>> = seq!["board="@ + self.arch@];
        let cores = text::cat2("cores=", text::decimal_usize(self.tensix_core_count).as_str());
        push_part(&mut out, Ghost(parts), cores.as_str());
        proof {
            parts = parts.push(cores@);
            assert(parts =~= seq!["board="@ + self.arch@, cores@]);
        }
        if self.all_worker_cores.len() > 0 {
            let list = self.cores();
            let workers = text::cat2("workers=", text::decimal_usize(list.len()).as_str());
            push_part(&mut out, Ghost(parts), workers.as_str());
            proof {
                parts = parts.push(workers@);
            }
        }
        if self.active_dram_banks > 0 {
            let banks = text::cat2(
                "dram_banks=",
                text::decimal_usize(self.active_dram_banks).as_str(),
            );
            push_part(&mut out, Ghost(parts), banks.as_str());
            proof {
                parts = parts.push(banks@);
            }
        }
        let cq = text::cat4(
            "cq=",
            self.prefetch_core.to_string().as_str(),
            "/",
            self.dispatch_core.to_string().as_str(),
        );
        push_part(&mut out, Ghost(parts), cq.as_str());
        proof {
            parts = parts.push(cq@);
        }
        let path = text::cat2("path=", self.path.as_str());
        push_part(&mut out, Ghost(parts), path.as_str());
        text::cat5(
            "Tenstorrent device ",
            text::decimal_usize(self.id).as_str(),
            " (",
            out.as_str(),
            ")",
        )
    }

    pub fn device_to_string(&self) -> (r: String)
        ensures
            r@ == "tt:"@ + self.arch@ + ":"@ + text::dec(self.id as int),
    {
        text::cat4("tt:", self.arch.as_str(), ":", text::decimal_usize(self.id).as_str())
    }

    /// The parts of the description of the memory.
    pub open spec fn memory_parts(&self) -> Seq<Seq<char>> {
        let first = seq!["device="@ + text::dec(self.id as int)];
        let banks = if self.active_dram_banks > 0 {
            first.push("dram_banks="@ + text::dec(self.active_dram_banks as int))
        } else {
            first
        };
        let harvested = if self.harvested_dram_banks@.len() > 0 {
            banks.push("harvested=["@ + plain_list(arith::ints(self.harvested_dram_banks@)) + "]"@)
        } else {
            banks
        };
        if self.dram_tiles@.len() > 0 {
            harvested.push("tiles="@ + text::dec(self.dram_tiles@.len() as int))
        } else {
            harvested
        }
    }

    pub fn memory_debug_string(&self) -> (r: String)
        ensures
            r@ == "Tenstorrent DRAM ("@ + comma_joined(self.memory_parts()) + ")"@,
    {
        let mut out = text::cat2("device=", text::decimal_usize(self.id).as_str());
        let ghost mut parts: Seq<Seq<char>> = seq![out@];
        if self.active_dram_banks > 0 {
            let banks = text::cat2(
                "dram_banks=",
                text::decimal_usize(self.active_dram_banks).as_str(),
            );
            push_part(&mut out, Ghost(parts), banks.as_str());
            proof {
                parts = parts.push(banks@);
            }
        }
        if self.harvested_dram_banks.len() > 0 {
            let harvested = text::cat3(
                "harvested=[",
                list_plain(self.harvested_dram_banks.as_slice()).as_str(),
                "]",
            );
            push_part(&mut out, Ghost(parts), harvested.as_str());
            proof {
                parts = parts.push(harvested@);
            }
        }
        if self.dram_tiles.len() > 0 {
            let tiles = text::cat2("tiles=", text::decimal_usize(self.dram_tiles.len()).as_str());
            push_part(&mut out, Ghost(parts), tiles.as_str());
        }
        text::cat3("Tenstorrent DRAM (", out.as_str(), ")")
    }

    pub fn memory_to_string(&self) -> (r: String)
        ensures
            r@ == "tt:"@ + self.arch@ + ":memory:"@ + text::dec(self.id as int),
    {
        text::cat4("tt:", self.arch.as_str(), ":memory:", text::decimal_usize(self.id).as_str())
    }

    pub fn local_hardware_id(&self) -> (r: usize)
        ensures
            r == self.local_hardware_id,
    {
        self.local_hardware_id
    }

    pub fn arch(&self) -> (r: &str)
        ensures
            r@ == self.arch@,
    {
        self.arch.as_str()
    }
}

/// Numbers separated by commas alone.
pub open spec fn plain_list(v: Seq<int>) -> Seq<char>
    decreases v.len(),
{
    if v.len() == 0 {
        ""@
    } else if v.len() == 1 {
        text::dec(v[0])
    } else {
        plain_list(v.drop_last()) + ","@ + text::dec(v.last())
    }
}

fn list_plain(v: &[usize]) -> (r: String)
    ensures
        r@ == plain_list(arith::ints(v@)),
{
    let ghost all = arith::ints(v@);
    let mut out = "".to_owned();
    for i in 0..v.len()
        invariant
            all == arith::ints(v@),
            out@ == plain_list(all.take(i as int)),
    {
        assert(all.take(i + 1).drop_last() =~= all.take(i as int));
        let item = text::decimal_usize(v[i]);
        if i == 0 {
            out = item;
        } else {
            out.append(",");
            out.append(item.as_str());
        }
    }
    assert(all.take(v@.len() as int) =~= all);
    out
}

/// A board has as many worker cores as the probe reports.
pub proof fn lemma_worker_count(b: BoardKind)
    ensures
        b == BoardKind::P100 ==> hw::worker_grid(b.columns()).len() == 120,
        b == BoardKind::P150 ==> hw::worker_grid(b.columns()).len() == 140,
        hw::worker_grid(b.columns()).contains(b.reads_commands()),
        hw::worker_grid(b.columns()).contains(b.hands_on()),
{
    let g = hw::worker_grid(b.columns());
    let n = b.columns().len() as int;
    assert(b.columns()[n - 1] == b.reads_commands().x);
    assert(g[n * 10 - 10] == b.reads_commands());
    assert(g[n * 10 - 9] == b.hands_on());
}

/// The key under which a program is known while it stands on the cores.
pub open spec fn staged_key(static_key: u64, dispatch_mode: u8) -> u64 {
    static_key ^ ((dispatch_mode as u64) << 56)
}

pub fn staged_key_from_static(static_key: u64, dispatch_mode: u8) -> (r: u64)
    ensures
        r == staged_key(static_key, dispatch_mode),
{
    static_key ^ ((dispatch_mode as u64) << 56)
}

/// A program has different keys for different ways of dispatch, and different
/// programs have different keys for the same one.
pub proof fn lemma_staged_keys_differ(a: u64, b: u64, m: u8, n: u8)
    ensures
        m != n ==> staged_key(a, m) != staged_key(a, n),
        a != b ==> staged_key(a, m) != staged_key(b, m),
{
    assert(m != n ==> a ^ ((m as u64) << 56) != a ^ ((n as u64) << 56)) by (bit_vector);
    assert(a != b ==> a ^ ((m as u64) << 56) != b ^ ((m as u64) << 56)) by (bit_vector);
}

/// The key of a program under a way of dispatch; without one it is never known.
pub open spec fn key_of(program: Program, dispatch_mode: u8) -> Option<u64> {
    match program.static_key {
        Some(k) => Some(staged_key(k, dispatch_mode)),
        None => None,
    }
}

pub fn staged_program_key(program: &Program, dispatch_mode: u8) -> (r: Option<u64>)
    ensures
        r == key_of(*program, dispatch_mode),
{
    match program.static_key {
        Some(k) => Some(staged_key_from_static(k, dispatch_mode)),
        None => None,
    }
}

/// Whether the arguments of a program are enough, given the key of the program
/// that stands on the cores.
pub open spec fn arguments_suffice(staged: Option<u64>, program: Program, dispatch_mode: u8) -> bool {
    &&& key_of(program, dispatch_mode) is Some
    &&& program.runtime_args is Some
    &&& staged == key_of(program, dispatch_mode)
}

/// The key of the program that stands on the cores after a run.
pub open spec fn staged_next(staged: Option<u64>, key: Option<u64>, ok: bool) -> Option<u64> {
    if ok {
        key
    } else {
        staged
    }
}

/// Gives the arguments to send where they are enough: the program stands on the
/// cores. Otherwise the whole program is sent.
pub fn only_arguments<'a>(staged: Option<u64>, program: &'a Program, dispatch_mode: u8) -> (r: Option<
    &'a RuntimeArgs,
>)
    ensures
        r is Some <==> arguments_suffice(staged, *program, dispatch_mode),
        r is Some ==> program.runtime_args == Some(*r->0),
{
    match (staged, staged_program_key(program, dispatch_mode)) {
        (Some(a), Some(b)) => {
            if a == b {
                program.runtime_args.as_ref()
            } else {
                None
            }
        },
        _ => None,
    }
}

/// Tells which program stands on the cores after a run: the one that ran, or, if
/// the run failed, the one before.
pub fn staged_after(staged: Option<u64>, key: Option<u64>, ok: bool) -> (r: Option<u64>)
    ensures
        r == staged_next(staged, key, ok),
{
    if ok {
        key
    } else {
        staged
    }
}

/// After a successful run of `first`, the arguments of `second` are enough exactly if
/// it has arguments of its own and the key of `first`; after a failed run, exactly if
/// they were enough before.
pub proof fn lemma_arguments_after_run(
    staged: Option<u64>,
    first: Program,
    second: Program,
    dispatch_mode: u8,
    ok: bool,
)
    ensures
        ({
            let next = staged_next(staged, key_of(first, dispatch_mode), ok);
            arguments_suffice(next, second, dispatch_mode) <==> if ok {
                &&& second.runtime_args is Some
                &&& second.static_key is Some
                &&& first.static_key == second.static_key
            } else {
                arguments_suffice(staged, second, dispatch_mode)
            }
        }),
{
    if first.static_key is Some && second.static_key is Some {
        lemma_staged_keys_differ(
            first.static_key->0,
            second.static_key->0,
            dispatch_mode,
            dispatch_mode,
        );
    }
}

/// Why no compiler can be made for a device: its cores are unknown.
pub open spec fn compiler_refusal(id: int, cores: int) -> Option<error::Refusal> {
    if cores == 0 {
        Some(
            error::invalid(
                "device "@ + text::dec(id) + " is missing Blackhole topology metadata"@,
            ),
        )
    } else {
        None
    }
}

impl Device {
    /// Checks that a compiler can be made for the device.
    pub fn check_topology(&self) -> (r: Result<(), Error>)
        ensures
            match r {
                Ok(_) => compiler_refusal(self.id as int, self.all_worker_cores@.len() as int) is None,
                Err(e) => compiler_refusal(self.id as int, self.all_worker_cores@.len() as int)
                    == Some(e@),
            },
    {
        if self.all_worker_cores.len() == 0 {
            return Err(
                error::invalid_input(
                    text::cat3(
                        "device ",
                        text::decimal_usize(self.id).as_str(),
                        " is missing Blackhole topology metadata",
                    ),
                ),
            );
        }
        Ok(())
    }
}

/// Whether the command queue is to be used: unless the setting says `0`.
pub fn use_fast_dispatch(setting: Option<&str>) -> (r: bool)
    ensures
        r == !(setting is Some && setting->0@ == "0"@),
{
    match setting {
        Some(s) => !text::same_text(s, "0"),
        None => true,
    }
}

} // verus!
