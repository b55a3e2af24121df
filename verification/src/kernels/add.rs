//! Addition of two tensors on one core.

use vstd::prelude::*;
use crate::arith;
use crate::convert;
use crate::dram::{DType, DramBuffer};
use crate::error;
use crate::error::Error;
use crate::hw::CoreCoord;
use crate::kernels::common;
use crate::kernels::common::{DramKernel, KernelRequest};
use crate::kernels::kernel;
use crate::kernels::kernel::CoreArgs;
use crate::kernels::lowering;
use crate::kernels::lowering::{CompileConfig, LoweredProgram, Section};
use crate::text;

verus! {

/// What the program depends on.
#[derive(Clone, Copy, Debug, Hash, PartialEq, Eq)]
pub struct AddProgramKey {
    pub core: CoreCoord,
    pub tile_count: u32,
}

/// The arguments of the core: addresses, then all tiles.
pub open spec fn core_args(tiles: u32) -> CoreArgs {
    (seq![0u32, 0u32, tiles], seq![0u32, 0u32, 0u32, tiles], seq![tiles])
}

/// Builds the program from the sources of its kernels.
pub fn bf16_program(
    key: AddProgramKey,
    reader_source: &str,
    compute_source: &str,
    writer_source: &str,
) -> (r: Result<LoweredProgram, Error>)
    ensures
        r is Ok,
        r matches Ok(p) ==> {
            &&& p.reader_kernel@ == reader_source@
            &&& p.compute_kernel@ == compute_source@
            &&& p.writer_kernel@ == writer_source@
            &&& p.is_uniform()
            &&& p.name@ == "eltwise_add_bf16"@
            &&& p.compile@ == lowering::plain_config(
                common::two_input_cbs(DType::Float16B, DType::Float16B),
            )
            &&& lowering::assigns(
                p.runtime_args,
                seq![key.core],
                |j: int| core_args(key.tile_count),
                0,
                common::first_dynamic(1, 2),
            )
        },
{
    let listed: Vec<CoreCoord> = vec![key.core];
    assert(listed@ =~= seq![key.core]);
    proof {
        let checks = lowering::repeat_checks(listed@);
        assert(listed@.take(0) =~= Seq::empty());
        assert forall|i: int| 0 <= i < 1 implies #[trigger] checks(i) is None by {}
        error::lemma_first_refusal_none(0, 1, checks);
    }
    let writer = Section::ranged(common::zeros(1));
    let reader = Section::ranged(common::zeros(2));
    let compute = Section::counted(Vec::new());
    let args = common::deal(
        listed.as_slice(),
        key.tile_count,
        &writer,
        &reader,
        &compute,
        common::index_list(1),
        common::index_list(2),
    )?;
    proof {
        let of = common::dealt(listed@, key.tile_count, writer@, reader@, compute@);
        let want = |j: int| core_args(key.tile_count);
        assert(key.tile_count as int / 1 == key.tile_count);
        assert(key.tile_count as int % 1 == 0);
        assert(lowering::core_range(key.tile_count, 0, 1) == (0u32, key.tile_count));
        assert(of(0).0 =~= want(0).0);
        assert(of(0).1 =~= want(0).1);
        assert(of(0).2 =~= want(0).2);
        assert forall|j: int| 0 <= j < listed@.len() implies args.blob_list@[kernel::position(
            args.core_list@,
            #[trigger] listed@[j],
        )]@ == kernel::args_blob(want(j), 0) by {
            assert(of(j) == want(j));
        }
    }
    Ok(
        LoweredProgram::uniform(
            reader_source.to_owned(),
            compute_source.to_owned(),
            writer_source.to_owned(),
            "eltwise_add_bf16".to_owned(),
            CompileConfig::plain(common::list_two_input_cbs(DType::Float16B, DType::Float16B)),
            args,
        ),
    )
}

/// Why two tensors cannot be added.
pub open spec fn operands_refusal(lhs: DramBuffer, rhs: DramBuffer) -> Option<error::Refusal> {
    if lhs.dtype != DType::Float16B || rhs.dtype != DType::Float16B {
        Some(
            error::invalid(
                "eltwise_add_bf16 requires bf16 inputs, got "@ + lhs.dtype.shown() + " and "@
                    + rhs.dtype.shown(),
            ),
        )
    } else if lhs.num_tiles != rhs.num_tiles {
        Some(
            error::invalid(
                "input tile counts must match, got "@ + text::dec(lhs.num_tiles as int) + " and "@
                    + text::dec(rhs.num_tiles as int),
            ),
        )
    } else if lhs.shape@ != rhs.shape@ {
        Some(
            error::invalid(
                "input shapes must match, got "@ + text::list_text(arith::ints(lhs.shape@))
                    + " and "@ + text::list_text(arith::ints(rhs.shape@)),
            ),
        )
    } else {
        None
    }
}

fn check_operands(lhs: &DramBuffer, rhs: &DramBuffer) -> (r: Result<(), Error>)
    ensures
        match r {
            Ok(_) => operands_refusal(*lhs, *rhs) is None,
            Err(e) => operands_refusal(*lhs, *rhs) == Some(e@),
        },
{
    if lhs.dtype != DType::Float16B || rhs.dtype != DType::Float16B {
        return Err(
            error::invalid_input(
                text::cat4(
                    "eltwise_add_bf16 requires bf16 inputs, got ",
                    lhs.dtype.name(),
                    " and ",
                    rhs.dtype.name(),
                ),
            ),
        );
    }
    if lhs.num_tiles != rhs.num_tiles {
        return Err(
            error::invalid_input(
                text::cat4(
                    "input tile counts must match, got ",
                    text::decimal_usize(lhs.num_tiles).as_str(),
                    " and ",
                    text::decimal_usize(rhs.num_tiles).as_str(),
                ),
            ),
        );
    }
    if !arith::same_usizes(lhs.shape.as_slice(), rhs.shape.as_slice()) {
        return Err(
            error::invalid_input(
                text::cat4(
                    "input shapes must match, got ",
                    text::shape_text(lhs.shape.as_slice()).as_str(),
                    " and ",
                    text::shape_text(rhs.shape.as_slice()).as_str(),
                ),
            ),
        );
    }
    Ok(())
}

/// Why the addition cannot be run.
pub open spec fn request_refusal(available: Seq<CoreCoord>, lhs: DramBuffer, rhs: DramBuffer) -> Option<
    error::Refusal,
> {
    let left = convert::u32_hex_refusal(lhs.addr as int, "lhs address"@);
    let right = convert::u32_hex_refusal(rhs.addr as int, "rhs address"@);
    let count = convert::u32_refusal(lhs.num_tiles as int, "tile count"@);
    if operands_refusal(lhs, rhs) is Some {
        operands_refusal(lhs, rhs)
    } else if left is Some {
        left
    } else if right is Some {
        right
    } else if count is Some {
        count
    } else {
        kernel::select_refusal(available)
    }
}

/// Checks the tensors of the addition, which runs on the first core.
pub fn eltwise_add_bf16(available: &[CoreCoord], lhs: &DramBuffer, rhs: &DramBuffer) -> (r: Result<
    KernelRequest<AddProgramKey>,
    Error,
>)
    ensures
        match r {
            Ok(q) => {
                &&& request_refusal(available@, *lhs, *rhs) is None
                &&& q.output_tiles == lhs.num_tiles
                &&& q.output_shape@ == lhs.shape@
                &&& q.key.core == available@[0]
                &&& q.key.tile_count == lhs.num_tiles
            },
            Err(e) => request_refusal(available@, *lhs, *rhs) == Some(e@),
        },
{
    check_operands(lhs, rhs)?;
    let _lhs_addr: u32 = convert::address_u32_hex(lhs.addr, "lhs address")?;
    let _rhs_addr: u32 = convert::address_u32_hex(rhs.addr, "rhs address")?;
    let tile_count: u32 = convert::to_u32(lhs.num_tiles, "tile count")?;
    if available.len() == 0 {
        return Err(error::invalid_text("no worker cores are available"));
    }
    Ok(
        KernelRequest {
            key: AddProgramKey { core: available[0], tile_count },
            output_tiles: lhs.num_tiles,
            output_shape: arith::copy_usizes(lhs.shape.as_slice()),
        },
    )
}

pub open spec fn kernel_refusal(lhs: u64, rhs: u64, output: u64) -> Option<error::Refusal> {
    common::triple_refusal(
        lhs,
        "lhs address"@,
        rhs,
        "rhs address"@,
        output,
        "output address"@,
    )
}

/// The kernel of the addition with the addresses of one run.
pub fn add_kernel(lhs_addr: u64, rhs_addr: u64, output_addr: u64, key: AddProgramKey) -> (r: Result<
    DramKernel<AddProgramKey>,
    Error,
>)
    ensures
        match r {
            Ok(k) => {
                &&& kernel_refusal(lhs_addr, rhs_addr, output_addr) is None
                &&& k.reader_addrs@ == seq![lhs_addr as u32, rhs_addr as u32]
                &&& k.output_addr == output_addr
                &&& k.key == key
            },
            Err(e) => kernel_refusal(lhs_addr, rhs_addr, output_addr) == Some(e@),
        },
{
    common::triple_kernel(
        lhs_addr,
        "lhs address",
        rhs_addr,
        "rhs address",
        output_addr,
        "output address",
        key,
    )
}

} // verus!
