//! Programs and the commands that launch them.

use vstd::prelude::*;
use crate::bytes;
use crate::dram::DType;
use crate::kernels::kernel::RuntimeArgs;

pub mod decode;
pub mod lowered;
pub mod mcast;
pub mod payload;
pub mod plan;
pub mod reach;
pub mod window;

verus! {

/// Alignment of everything that is placed in a core's memory.
pub const L1_ALIGN: usize = 16;

/// Values in the mailbox of a core.
pub struct DevMsgs;

impl DevMsgs {
    pub const RUN_MSG_INIT: u8 = 0x40;

    pub const RUN_MSG_GO: u8 = 0x80;

    pub const RUN_MSG_RESET_READ_PTR_FROM_HOST: u8 = 0xE0;

    pub const RUN_MSG_DONE: u8 = 0x00;

    pub const DISPATCH_MODE_HOST: u8 = 1;

    pub const PROGRAMMABLE_CORE_TYPE_COUNT: usize = 3;

    pub const MAX_PROCESSORS_PER_CORE_TYPE: usize = 5;
}

/// Precision of the matrix unit.
#[derive(Clone, Copy, Debug, Hash, PartialEq, Eq, Structural)]
pub enum MathFidelity {
    LoFi,
    HiFi2,
}

impl MathFidelity {
    /// The number by which the device knows the precision.
    pub open spec fn code(self) -> u32 {
        match self {
            MathFidelity::LoFi => 0,
            MathFidelity::HiFi2 => 2,
        }
    }

    pub fn value(self) -> (r: u32)
        ensures
            r == self.code(),
    {
        match self {
            MathFidelity::LoFi => 0,
            MathFidelity::HiFi2 => 2,
        }
    }
}

/// Which cores run a program.
#[derive(Clone, Copy, Debug, PartialEq, Eq, Structural)]
pub enum CoreSelection {
    Count(usize),
    All,
}

/// A circular buffer of whole tiles.
#[derive(Clone, Copy, Debug, PartialEq, Eq, Structural)]
pub struct CBConfig {
    pub index: usize,
    pub dtype: DType,
    pub tiles: usize,
}

impl CBConfig {
    /// A double buffer.
    pub fn new(index: usize, dtype: DType) -> (r: CBConfig)
        ensures
            r == (CBConfig { index, dtype, tiles: 2 }),
    {
        CBConfig { index, dtype, tiles: 2 }
    }
}

/// A program: kernel sources, their arguments, and how they are built and placed.
#[derive(Clone, Debug)]
pub struct Program {
    pub cores: CoreSelection,
    pub reader_kernel: String,
    pub compute_kernel: String,
    pub writer_kernel: String,
    pub cbs: Vec<CBConfig>,
    pub name: String,
    pub reader_args: Vec<u32>,
    pub writer_args: Vec<u32>,
    pub compute_args: Vec<u32>,
    pub semaphores: usize,
    pub math_fidelity: MathFidelity,
    pub approx: bool,
    pub dst_accum_mode: bool,
    pub dst_full_sync: bool,
    pub reader_recv_kernel: String,
    pub writer_recv_kernel: String,
    pub grid: Option<(Vec<u8>, Vec<u8>)>,
    /// The arguments of all cores, packed, where they may be sent alone.
    pub runtime_args: Option<RuntimeArgs>,
    /// Tells programs apart that differ in more than their arguments.
    pub static_key: Option<u64>,
}

impl Default for Program {
    fn default() -> (p: Program)
        ensures
            p.cores == CoreSelection::Count(1),
            p.reader_kernel@.len() == 0,
            p.compute_kernel@.len() == 0,
            p.writer_kernel@.len() == 0,
            p.cbs@.len() == 0,
            p.name@.len() == 0,
            p.reader_args@.len() == 0,
            p.writer_args@.len() == 0,
            p.compute_args@.len() == 0,
            p.semaphores == 0,
            p.math_fidelity == MathFidelity::HiFi2,
            !p.approx,
            !p.dst_accum_mode,
            !p.dst_full_sync,
            p.reader_recv_kernel@.len() == 0,
            p.writer_recv_kernel@.len() == 0,
            p.grid is None,
            p.runtime_args is None,
            p.static_key is None,
    {
        Program {
            cores: CoreSelection::Count(1),
            reader_kernel: String::new(),
            compute_kernel: String::new(),
            writer_kernel: String::new(),
            cbs: Vec::new(),
            name: String::new(),
            reader_args: Vec::new(),
            writer_args: Vec::new(),
            compute_args: Vec::new(),
            semaphores: 0,
            math_fidelity: MathFidelity::HiFi2,
            approx: false,
            dst_accum_mode: false,
            dst_full_sync: false,
            reader_recv_kernel: String::new(),
            writer_recv_kernel: String::new(),
            grid: None,
            runtime_args: None,
            static_key: None,
        }
    }
}

/// The arguments of the three kernels of a core, followed by its semaphores.
pub open spec fn packed_args(
    writer: Seq<u32>,
    reader: Seq<u32>,
    compute: Seq<u32>,
    semaphores: int,
    sem_off: int,
) -> Seq<u8> {
    let args = bytes::words_le(writer + reader + compute);
    if semaphores > 0 {
        bytes::resized(args, sem_off + semaphores * 16)
    } else {
        args
    }
}

/// Packs the arguments of a core.
pub fn pack_rta(
    writer_args: &[u32],
    reader_args: &[u32],
    compute_args: &[u32],
    semaphores: usize,
    sem_off: usize,
) -> (r: Vec<u8>)
    requires
        sem_off + semaphores * 16 <= usize::MAX,
    ensures
        r@ == packed_args(
            writer_args@,
            reader_args@,
            compute_args@,
            semaphores as int,
            sem_off as int,
        ),
{
    let mut data: Vec<u8> = Vec::new();
    bytes::push_words(&mut data, writer_args);
    bytes::push_words(&mut data, reader_args);
    bytes::push_words(&mut data, compute_args);
    proof {
        bytes::lemma_words_le_add(writer_args@, reader_args@);
        bytes::lemma_words_le_add(writer_args@ + reader_args@, compute_args@);
        assert(data@ =~= bytes::words_le(writer_args@ + reader_args@ + compute_args@));
    }
    if semaphores > 0 {
        bytes::resize(&mut data, sem_off + semaphores * L1_ALIGN);
    }
    data
}

} // verus!
