//! Dispatch of programs whose arguments are packed core by core.

use vstd::prelude::*;
use crate::bytes;
use crate::cores;
use crate::cq;
use crate::cq::queue;
use crate::dispatch::plan;
use crate::dispatch::plan::{DispatchCommand, ProgramKernels, Step};
use crate::dispatch::{CBConfig, CoreSelection, Program};
use crate::error;
use crate::error::Error;
use crate::hw::{CoreCoord, TensixL1};
use crate::kernels::kernel::RuntimeArgs;
use crate::kernels::lowering::{KernelCb, LoweredProgram};

verus! {

/// The circular buffers as the cores are told of them.
pub open spec fn core_buffers(cbs: Seq<KernelCb>) -> Seq<CBConfig> {
    cbs.map_values(|cb: KernelCb| CBConfig { index: cb.index, dtype: cb.dtype, tiles: cb.tiles })
}

/// Arguments that only hold the room for those of the cores.
pub open spec fn blank_words(byte_count: int) -> Seq<u32> {
    Seq::new((byte_count / 4) as nat, |i: int| 0u32)
}

impl RuntimeArgs {
    /// Whether two values hold the same arguments for the same cores.
    pub open spec fn same(&self, other: &RuntimeArgs) -> bool {
        &&& self.core_list@ == other.core_list@
        &&& self.writer_bytes == other.writer_bytes
        &&& self.reader_bytes == other.reader_bytes
        &&& self.compute_bytes == other.compute_bytes
        &&& self.semaphore_count == other.semaphore_count
        &&& self.semaphore_offset == other.semaphore_offset
        &&& self.writer_patches@ == other.writer_patches@
        &&& self.reader_patches@ == other.reader_patches@
        &&& self.compute_patches@ == other.compute_patches@
        &&& cq::blobs_view(self.blob_list@) == cq::blobs_view(other.blob_list@)
    }

    pub fn copy(&self) -> (r: RuntimeArgs)
        ensures
            r.same(self),
    {
        let core_list = cores::copy_cores(self.core_list.as_slice(), self.core_list.len());
        assert(self.core_list@.take(self.core_list@.len() as int) =~= self.core_list@);
        let writer_patches = self.writer_patches.clone();
        let reader_patches = self.reader_patches.clone();
        let compute_patches = self.compute_patches.clone();
        assert(writer_patches@ =~= self.writer_patches@);
        assert(reader_patches@ =~= self.reader_patches@);
        assert(compute_patches@ =~= self.compute_patches@);
        RuntimeArgs {
            core_list,
            writer_bytes: self.writer_bytes,
            reader_bytes: self.reader_bytes,
            compute_bytes: self.compute_bytes,
            semaphore_count: self.semaphore_count,
            semaphore_offset: self.semaphore_offset,
            writer_patches,
            reader_patches,
            compute_patches,
            blob_list: queue::copy_blobs(&self.blob_list),
        }
    }
}

/// Whether `p` is the program that runs a lowered one on all its cores.
pub open spec fn places(p: Program, lowered: LoweredProgram, static_key: Option<u64>) -> bool {
    &&& p.cores == CoreSelection::All
    &&& p.reader_kernel@ == lowered.reader_kernel@
    &&& p.compute_kernel@ == lowered.compute_kernel@
    &&& p.writer_kernel@ == lowered.writer_kernel@
    &&& p.reader_recv_kernel@ == lowered.reader_recv_kernel@
    &&& p.writer_recv_kernel@ == lowered.writer_recv_kernel@
    &&& p.cbs@ == core_buffers(lowered.compile@.cbs)
    &&& p.name@ == lowered.name@
    &&& p.writer_args@ == blank_words(lowered.runtime_args.writer_bytes as int)
    &&& p.reader_args@ == blank_words(lowered.runtime_args.reader_bytes as int)
    &&& p.compute_args@ == blank_words(lowered.runtime_args.compute_bytes as int)
    &&& p.semaphores == lowered.runtime_args.semaphore_count
    &&& p.math_fidelity == lowered.compile@.math_fidelity
    &&& p.approx == lowered.compile@.approx
    &&& p.dst_accum_mode == lowered.compile@.dst_accum_mode
    &&& p.dst_full_sync == lowered.compile@.dst_full_sync
    &&& plan::grid_view(p.grid) == plan::grid_view(lowered.grid)
    &&& p.runtime_args matches Some(args) && args.same(&lowered.runtime_args)
    &&& p.static_key == static_key
}

fn list_buffers(cbs: &Vec<KernelCb>) -> (r: Vec<CBConfig>)
    ensures
        r@ == core_buffers(cbs@),
{
    let mut out: Vec<CBConfig> = Vec::new();
    let ghost want = core_buffers(cbs@);
    for i in 0..cbs.len()
        invariant
            want == core_buffers(cbs@),
            out@ == want.take(i as int),
    {
        let cb = cbs[i];
        out.push(CBConfig { index: cb.index, dtype: cb.dtype, tiles: cb.tiles });
        assert(out@ =~= want.take(i + 1));
    }
    assert(want.take(cbs@.len() as int) =~= want);
    out
}

fn blank(byte_count: usize) -> (r: Vec<u32>)
    ensures
        r@ == blank_words(byte_count as int),
{
    let r: Vec<u32> = vec![0u32; byte_count / 4];
    assert(r@ =~= blank_words(byte_count as int));
    r
}

impl LoweredProgram {
    /// The program that runs this one on all its cores. Its own arguments are blank:
    /// each core gets those that were packed for it.
    pub fn placed(&self, static_key: Option<u64>) -> (p: Program)
        ensures
            places(p, *self, static_key),
    {
        let (writer_bytes, reader_bytes, compute_bytes) = self.runtime_args.section_sizes();
        let grid = match &self.grid {
            Some((rows, cols)) => Some(
                (bytes::copy(rows.as_slice()), bytes::copy(cols.as_slice())),
            ),
            None => None,
        };
        Program {
            cores: CoreSelection::All,
            reader_kernel: self.reader_kernel.clone(),
            compute_kernel: self.compute_kernel.clone(),
            writer_kernel: self.writer_kernel.clone(),
            cbs: list_buffers(&self.compile.cbs),
            name: self.name.clone(),
            reader_args: blank(reader_bytes),
            writer_args: blank(writer_bytes),
            compute_args: blank(compute_bytes),
            semaphores: self.runtime_args.semaphores(),
            math_fidelity: self.compile.math_fidelity,
            approx: self.compile.approx,
            dst_accum_mode: self.compile.dst_accum_mode,
            dst_full_sync: self.compile.dst_full_sync,
            reader_recv_kernel: self.reader_recv_kernel.clone(),
            writer_recv_kernel: self.writer_recv_kernel.clone(),
            grid,
            runtime_args: Some(self.runtime_args.copy()),
            static_key,
        }
    }
}

/// All steps of a program whose cores have arguments of their own: these are written
/// last before the cores start.
pub open spec fn packed_steps(
    program: &Program,
    args: &RuntimeArgs,
    kernels: &ProgramKernels,
    all: Seq<CoreCoord>,
    roles: Seq<(Seq<CoreCoord>, bool, bool)>,
) -> Seq<Step> {
    plan::plan_steps(program, kernels, all, roles).drop_last() + seq![
        Step::WritePacked {
            cores: args.core_list@,
            addr: 0x86B0,
            data: cq::blobs_view(args.blob_list@),
        },
        Step::Launch { cores: all },
    ]
}

/// Plans the dispatch of a program on the cores of its packed arguments.
pub fn build_packed_plan(program: &Program, args: &RuntimeArgs, kernels: &ProgramKernels) -> (r: Result<
    Vec<DispatchCommand>,
    Error,
>)
    requires
        4 * (program.writer_args@.len() + program.reader_args@.len() + program.compute_args@.len())
            + 15 + program.semaphores * 16 <= usize::MAX,
    ensures
        match r {
            Ok(commands) => exists|all: Seq<CoreCoord>, roles: Seq<(Seq<CoreCoord>, bool, bool)>|
                {
                    &&& #[trigger] plan::chooses(args.core_list@, program, all, roles)
                    &&& plan::roles_refusal(args.core_list@, plan::grid_view(program.grid)) is None
                    &&& all.len() > 0
                    &&& error::first_refusal(
                        0,
                        roles.len() as int,
                        plan::role_checks(program, kernels, roles),
                    ) is None
                    &&& plan::steps(commands@) == packed_steps(program, args, kernels, all, roles)
                },
            Err(e) => if plan::roles_refusal(args.core_list@, plan::grid_view(program.grid)) is Some {
                plan::roles_refusal(args.core_list@, plan::grid_view(program.grid)) == Some(e@)
            } else {
                exists|all: Seq<CoreCoord>, roles: Seq<(Seq<CoreCoord>, bool, bool)>|
                    {
                        &&& #[trigger] plan::chooses(args.core_list@, program, all, roles)
                        &&& if all.len() == 0 {
                            e@ == error::invalid("no worker cores selected for dispatch"@)
                        } else {
                            error::first_refusal(
                                0,
                                roles.len() as int,
                                plan::role_checks(program, kernels, roles),
                            ) == Some(e@)
                        }
                    }
            },
        },
{
    let mut commands = plan::build_dispatch_plan(args.cores(), program, kernels)?;
    let ghost planned = commands@;
    let ghost (all, roles) = choose|
        all: Seq<CoreCoord>,
        roles: Seq<(Seq<CoreCoord>, bool, bool)>,
    |
        {
            &&& #[trigger] plan::chooses(args.core_list@, program, all, roles)
            &&& all.len() > 0
            &&& error::first_refusal(
                0,
                roles.len() as int,
                plan::role_checks(program, kernels, roles),
            ) is None
            &&& plan::steps(planned) == plan::plan_steps(program, kernels, all, roles)
        };
    assert(planned.len() == plan::steps(planned).len());
    let launch = commands.pop();
    let ghost front = commands@;
    assert(plan::steps(front) =~= plan::plan_steps(program, kernels, all, roles).drop_last());
    let list = cores::copy_cores(args.core_list.as_slice(), args.core_list.len());
    assert(args.core_list@.take(args.core_list@.len() as int) =~= args.core_list@);
    let data = queue::copy_blobs(&args.blob_list);
    assert(data@.map_values(|b: Vec<u8>| b@) =~= cq::blobs_view(args.blob_list@));
    let packed = DispatchCommand::WritePacked {
        cores: list,
        addr: TensixL1::KERNEL_CONFIG_BASE as usize,
        data,
    };
    commands.push(packed);
    if let Some(command) = launch {
        assert(command@ == plan::steps(planned).last());
        commands.push(command);
    }
    assert(plan::steps(commands@) =~= packed_steps(program, args, kernels, all, roles));
    Ok(commands)
}

} // verus!
