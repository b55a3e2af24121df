//! From a dot product of device buffers to a planned multiplication.

use vstd::prelude::*;
use vstd::arithmetic::div_mod::*;
use crate::arith;
use crate::convert;
use crate::cores;
use crate::dispatch::MathFidelity;
use crate::dram;
use crate::dram::{DType, DramBuffer};
use crate::dram::layout;
use crate::error;
use crate::error::Error;
use crate::hw::CoreCoord;
use crate::kernels::common::NewBuffer;
use crate::kernels::kernel::Kernel;
use crate::kernels::lowering::LoweredProgram;
use crate::kernels::matmul::plan;
use crate::kernels::matmul::plan::{Field, MatmulPlan, Plan, Task};
use crate::kernels::matmul::program;
use crate::kernels::matmul::program::{MatmulEpilogueKind, MatmulSources};
use crate::kernels::matmul::search;
use crate::kernels::matmul::search::Choice;
use crate::kernels::matmul::shape;
use crate::kernels::matmul::shape::{Dot, MatmulOperandView, MatmulViewKind};
use crate::text;

verus! {

/// What is to be done with the product.
#[derive(Clone, Copy, Debug, PartialEq, Eq, Structural)]
pub enum MatmulEpilogue {
    Store { output_dtype: DType },
    Top1,
}

impl MatmulEpilogue {
    pub open spec fn as_kind(self) -> MatmulEpilogueKind {
        match self {
            MatmulEpilogue::Store { .. } => MatmulEpilogueKind::Store,
            MatmulEpilogue::Top1 => MatmulEpilogueKind::Top1,
        }
    }

    pub fn kind(self) -> (r: MatmulEpilogueKind)
        ensures
            r == self.as_kind(),
    {
        match self {
            MatmulEpilogue::Store { .. } => MatmulEpilogueKind::Store,
            MatmulEpilogue::Top1 => MatmulEpilogueKind::Top1,
        }
    }

    /// The element type of the output buffers of the cores.
    pub open spec fn dtype(self) -> DType {
        match self {
            MatmulEpilogue::Store { output_dtype } => output_dtype,
            MatmulEpilogue::Top1 => DType::Float16B,
        }
    }
}

/// Where the results go.
#[derive(Clone, Copy, Debug, PartialEq, Eq, Structural)]
pub enum MatmulRuntimeEpilogue {
    Store { output_addr: u32 },
    Top1 { partial_values_addr: u32, partial_indices_addr: u32 },
}

impl MatmulRuntimeEpilogue {
    pub open spec fn as_kind(self) -> MatmulEpilogueKind {
        match self {
            MatmulRuntimeEpilogue::Store { .. } => MatmulEpilogueKind::Store,
            MatmulRuntimeEpilogue::Top1 { .. } => MatmulEpilogueKind::Top1,
        }
    }

    pub fn kind(self) -> (r: MatmulEpilogueKind)
        ensures
            r == self.as_kind(),
    {
        match self {
            MatmulRuntimeEpilogue::Store { .. } => MatmulEpilogueKind::Store,
            MatmulRuntimeEpilogue::Top1 { .. } => MatmulEpilogueKind::Top1,
        }
    }
}

/// All that the program of a multiplication depends on.
#[derive(Clone, Debug, Hash, PartialEq, Eq)]
pub struct MatmulProgramKey {
    pub logical_mt: usize,
    pub logical_kt: usize,
    pub logical_nt: usize,
    pub batch_count: usize,
    pub lhs_view: MatmulOperandView,
    pub rhs_view: MatmulOperandView,
    pub output_view: MatmulOperandView,
    pub cores: Vec<CoreCoord>,
    pub math_fidelity: MathFidelity,
    pub output_dtype: DType,
    pub epilogue: MatmulEpilogueKind,
}

impl MatmulProgramKey {
    /// The multiplication as it is planned. The largest value of a single row is
    /// found with the columns split, whatever the output looks like.
    pub open spec fn elements(&self) -> (int, int, int, int, bool) {
        match self.epilogue {
            MatmulEpilogueKind::Store => (
                self.logical_mt * 32,
                self.logical_kt * 32,
                self.logical_nt * 32,
                self.batch_count as int,
                self.output_view.kind == MatmulViewKind::Contiguous,
            ),
            MatmulEpilogueKind::Top1 => (
                32,
                self.logical_kt * 32,
                self.output_view.logical_cols as int,
                1,
                true,
            ),
        }
    }

    pub open spec fn task(&self) -> Task {
        let (m, k, n, batch, split) = self.elements();
        plan::matmul_task(m, k, n, batch, split)
    }

    /// Why the multiplication cannot be planned.
    pub open spec fn refusal(&self) -> Option<error::Refusal> {
        let (m, k, n, batch, split) = self.elements();
        plan::plan_refusal(m, k, n, self.task(), plan::field(self.cores@))
    }

    /// Whether the numbers of the plan are machine words.
    pub open spec fn limits(&self) -> bool {
        let (m, k, n, batch, split) = self.elements();
        let t = self.task();
        &&& m <= usize::MAX
        &&& k <= usize::MAX
        &&& n <= usize::MAX
        &&& plan::plan_limits(t.mt, t.kt, t.nt, t.batch, self.cores@.len() as int)
    }
}

/// Tests whether the numbers of the plan of a key are machine words.
pub fn within_limits(key: &MatmulProgramKey) -> (r: bool)
    ensures
        r == key.limits(),
{
    let last: usize = usize::MAX / 32;
    let (m, n, batch): (usize, usize, usize) = match key.epilogue {
        MatmulEpilogueKind::Store => {
            if key.logical_mt > last || key.logical_nt > last {
                return false;
            }
            (key.logical_mt * 32, key.logical_nt * 32, key.batch_count)
        },
        MatmulEpilogueKind::Top1 => (32, key.output_view.logical_cols as usize, 1),
    };
    if key.logical_kt > last {
        return false;
    }
    plan::within_limits(
        arith::div_ceil(m, 32),
        arith::div_ceil(key.logical_kt * 32, 32),
        arith::max_usize(arith::div_ceil(n, 32), 1),
        batch,
        key.cores.len(),
    )
}

/// Plans the multiplication of a key, or gives nothing where the numbers of the plan
/// are no machine words.
pub fn checked_plan(key: &MatmulProgramKey) -> (r: Option<Result<MatmulPlan, Error>>)
    ensures
        match r {
            Some(Ok(p)) => {
                &&& key.limits()
                &&& key.refusal() is None
                &&& plan::best_plan(key.task(), plan::field(key.cores@)) == Some(p@)
                &&& program::sound(p@)
            },
            Some(Err(e)) => key.limits() && key.refusal() == Some(e@),
            None => !key.limits(),
        },
{
    if within_limits(key) {
        Some(plan_for_key(key))
    } else {
        None
    }
}

/// Plans the multiplication of a key.
pub fn plan_for_key(key: &MatmulProgramKey) -> (r: Result<MatmulPlan, Error>)
    requires
        key.limits(),
    ensures
        match r {
            Ok(p) => {
                &&& key.refusal() is None
                &&& plan::best_plan(key.task(), plan::field(key.cores@)) == Some(p@)
                &&& program::sound(p@)
            },
            Err(e) => key.refusal() == Some(e@),
        },
{
    match key.epilogue {
        MatmulEpilogueKind::Store => plan::plan_matmul(
            key.logical_mt * 32,
            key.logical_kt * 32,
            key.logical_nt * 32,
            key.batch_count,
            key.cores.as_slice(),
            key.output_view.kind == MatmulViewKind::Contiguous,
        ),
        MatmulEpilogueKind::Top1 => plan::plan_matmul(
            32,
            key.logical_kt * 32,
            key.output_view.logical_cols as usize,
            1,
            key.cores.as_slice(),
            true,
        ),
    }
}

/// A multiplication whose buffers are known.
#[derive(Debug)]
pub struct MatmulBf16Kernel {
    pub lhs_addr: u32,
    pub rhs_addr: u32,
    pub epilogue: MatmulRuntimeEpilogue,
    pub key: MatmulProgramKey,
}

impl Kernel for MatmulBf16Kernel {
    open spec fn reader_arg(&self, core: CoreCoord, index: int) -> Option<u32> {
        if index == 0 {
            Some(self.lhs_addr)
        } else {
            None
        }
    }

    open spec fn writer_arg(&self, core: CoreCoord, index: int) -> Option<u32> {
        if index == 0 {
            Some(self.rhs_addr)
        } else {
            match self.epilogue {
                MatmulRuntimeEpilogue::Store { output_addr } => if index == 18 {
                    Some(output_addr)
                } else {
                    None
                },
                MatmulRuntimeEpilogue::Top1 { partial_values_addr, partial_indices_addr } => if index
                    == 18 {
                    Some(partial_values_addr)
                } else if index == 19 {
                    Some(partial_indices_addr)
                } else {
                    None
                },
            }
        }
    }

    open spec fn compute_arg(&self, core: CoreCoord, index: int) -> Option<u32> {
        None
    }

    fn reader_runtime_arg(&self, core: CoreCoord, index: usize) -> (r: Option<u32>) {
        if index == 0 {
            Some(self.lhs_addr)
        } else {
            None
        }
    }

    fn writer_runtime_arg(&self, core: CoreCoord, index: usize) -> (r: Option<u32>) {
        if index == 0 {
            Some(self.rhs_addr)
        } else {
            match self.epilogue {
                MatmulRuntimeEpilogue::Store { output_addr } => if index == 18 {
                    Some(output_addr)
                } else {
                    None
                },
                MatmulRuntimeEpilogue::Top1 { partial_values_addr, partial_indices_addr } => if index
                    == 18 {
                    Some(partial_values_addr)
                } else if index == 19 {
                    Some(partial_indices_addr)
                } else {
                    None
                },
            }
        }
    }

    fn compute_runtime_arg(&self, core: CoreCoord, index: usize) -> (r: Option<u32>) {
        None
    }
}

/// A dot product of device buffers.
#[derive(Debug)]
pub struct DotRequest<'a> {
    pub lhs_shape: &'a [usize],
    pub rhs_shape: &'a [usize],
    pub output_shape: &'a [usize],
    pub lhs_batching_dimensions: &'a [i64],
    pub rhs_batching_dimensions: &'a [i64],
    pub lhs_contracting_dimensions: &'a [i64],
    pub rhs_contracting_dimensions: &'a [i64],
}

impl<'a> DotRequest<'a> {
    pub open spec fn dot(&self) -> Dot {
        Dot {
            lhs: self.lhs_shape@,
            rhs: self.rhs_shape@,
            out: self.output_shape@,
            lhs_batch: self.lhs_batching_dimensions@,
            rhs_batch: self.rhs_batching_dimensions@,
            lhs_contract: self.lhs_contracting_dimensions@,
            rhs_contract: self.rhs_contracting_dimensions@,
        }
    }
}

/// Why a buffer does not hold a tensor of the given shape.
pub open spec fn tiles_refusal(num_tiles: int, shape: Seq<usize>, name: Seq<char>) -> Option<
    error::Refusal,
> {
    if dram::tile_count_refusal(shape) is Some {
        dram::tile_count_refusal(shape)
    } else if dram::tile_count(shape) != Some(num_tiles) {
        Some(
            error::invalid(
                name + " tile count mismatch: got "@ + text::dec(num_tiles) + ", expected "@
                    + text::dec(dram::tile_count(shape)->0),
            ),
        )
    } else {
        None
    }
}

fn validate_tile_count(buffer: &DramBuffer, shape: &[usize], name: &str) -> (r: Result<(), Error>)
    ensures
        match r {
            Ok(_) => tiles_refusal(buffer.num_tiles as int, shape@, name@) is None,
            Err(e) => tiles_refusal(buffer.num_tiles as int, shape@, name@) == Some(e@),
        },
{
    let expected: usize = dram::tiled_shape_tile_count(shape)?;
    if buffer.num_tiles != expected {
        return Err(
            error::invalid_input(
                text::cat5(
                    name,
                    " tile count mismatch: got ",
                    text::decimal_usize(buffer.num_tiles).as_str(),
                    ", expected ",
                    text::decimal_usize(expected).as_str(),
                ),
            ),
        );
    }
    Ok(())
}

/// Why a multiplication of buffers is refused.
pub open spec fn request_refusal(
    lhs: &DramBuffer,
    rhs: &DramBuffer,
    dot: Dot,
    epilogue: MatmulEpilogue,
) -> Option<error::Refusal> {
    if lhs.dtype != DType::Float16B || rhs.dtype != DType::Float16B {
        Some(
            error::invalid(
                "matmul_bf16 requires bf16 inputs, got "@ + lhs.dtype.shown() + " and "@
                    + rhs.dtype.shown(),
            ),
        )
    } else if epilogue.dtype() != DType::Float16B && epilogue.dtype() != DType::Float32 {
        Some(
            error::invalid(
                "matmul_bf16 output must be Float16B or Float32, got "@ + epilogue.dtype().shown(),
            ),
        )
    } else if dot.refusal() is Some {
        dot.refusal()
    } else if epilogue == MatmulEpilogue::Top1 && (dot.batch_count() != 1 || dot.m() != 1) {
        Some(
            error::invalid(
                "matmul_top1 expects a single row output, got batch_count="@ + text::dec(
                    dot.batch_count(),
                ) + " M="@ + text::dec(dot.m()),
            ),
        )
    } else if tiles_refusal(lhs.num_tiles as int, dot.lhs, "lhs"@) is Some {
        tiles_refusal(lhs.num_tiles as int, dot.lhs, "lhs"@)
    } else {
        tiles_refusal(rhs.num_tiles as int, dot.rhs, "rhs"@)
    }
}

/// Checks a multiplication of buffers and finds out what its program depends on.
pub fn matmul_key(
    lhs: &DramBuffer,
    rhs: &DramBuffer,
    request: &DotRequest<'_>,
    epilogue: MatmulEpilogue,
    math_fidelity: MathFidelity,
    available: &[CoreCoord],
) -> (r: Result<MatmulProgramKey, Error>)
    ensures
        ({
            let dot = request.dot();
            match r {
                Ok(key) => {
                    &&& request_refusal(lhs, rhs, dot, epilogue) is None
                    &&& key.logical_mt == arith::ceil_div(dot.m(), 32)
                    &&& key.logical_kt == arith::ceil_div(dot.k(), 32)
                    &&& key.logical_nt == arith::ceil_div(dot.n(), 32)
                    &&& key.batch_count == dot.batch_count()
                    &&& key.lhs_view@ == shape::view_of(dot.lhs_operand())
                    &&& key.rhs_view@ == shape::view_of(dot.rhs_operand())
                    &&& key.output_view@ == shape::view_of(dot.out_operand())
                    &&& key.cores@ == available@
                    &&& key.math_fidelity == math_fidelity
                    &&& key.output_dtype == epilogue.dtype()
                    &&& key.epilogue == epilogue.as_kind()
                },
                Err(e) => request_refusal(lhs, rhs, dot, epilogue) == Some(e@),
            }
        }),
{
    if lhs.dtype != DType::Float16B || rhs.dtype != DType::Float16B {
        return Err(
            error::invalid_input(
                text::cat4(
                    "matmul_bf16 requires bf16 inputs, got ",
                    lhs.dtype.name(),
                    " and ",
                    rhs.dtype.name(),
                ),
            ),
        );
    }
    let output_dtype: DType = match epilogue {
        MatmulEpilogue::Store { output_dtype } => {
            if output_dtype != DType::Float16B && output_dtype != DType::Float32 {
                return Err(
                    error::invalid_input(
                        text::cat2(
                            "matmul_bf16 output must be Float16B or Float32, got ",
                            output_dtype.name(),
                        ),
                    ),
                );
            }
            output_dtype
        },
        MatmulEpilogue::Top1 => DType::Float16B,
    };
    let s = shape::dot_general_shape(
        request.lhs_shape,
        request.rhs_shape,
        request.output_shape,
        request.lhs_batching_dimensions,
        request.rhs_batching_dimensions,
        request.lhs_contracting_dimensions,
        request.rhs_contracting_dimensions,
    )?;
    if epilogue.kind() == MatmulEpilogueKind::Top1 && (s.batch_count != 1 || s.m != 1) {
        return Err(
            error::invalid_input(
                text::cat4(
                    "matmul_top1 expects a single row output, got batch_count=",
                    text::decimal_usize(s.batch_count).as_str(),
                    " M=",
                    text::decimal_usize(s.m).as_str(),
                ),
            ),
        );
    }
    validate_tile_count(lhs, request.lhs_shape, "lhs")?;
    validate_tile_count(rhs, request.rhs_shape, "rhs")?;
    let list = cores::copy_cores(available, available.len());
    assert(available@.take(available@.len() as int) =~= available@);
    Ok(
        MatmulProgramKey {
            logical_mt: arith::div_ceil(s.m, 32),
            logical_kt: arith::div_ceil(s.k, 32),
            logical_nt: arith::div_ceil(s.n, 32),
            batch_count: s.batch_count,
            lhs_view: s.lhs_view,
            rhs_view: s.rhs_view,
            output_view: s.output_view,
            cores: list,
            math_fidelity,
            output_dtype,
            epilogue: epilogue.kind(),
        },
    )
}

/// Why the addresses of a stored product are refused.
pub open spec fn store_refusal(lhs: int, rhs: int, output: int) -> Option<error::Refusal> {
    if lhs > u32::MAX {
        convert::u32_hex_refusal(lhs, "lhs address"@)
    } else if rhs > u32::MAX {
        convert::u32_hex_refusal(rhs, "rhs address"@)
    } else {
        convert::u32_hex_refusal(output, "output address"@)
    }
}

/// The kernel that stores the product of two buffers.
pub fn store_kernel(lhs_addr: u64, rhs_addr: u64, output_addr: u64, key: MatmulProgramKey) -> (r:
    Result<MatmulBf16Kernel, Error>)
    ensures
        match r {
            Ok(k) => {
                &&& store_refusal(lhs_addr as int, rhs_addr as int, output_addr as int) is None
                &&& k.lhs_addr == lhs_addr
                &&& k.rhs_addr == rhs_addr
                &&& k.epilogue == (MatmulRuntimeEpilogue::Store { output_addr: output_addr as u32 })
                &&& k.key == key
            },
            Err(e) => store_refusal(lhs_addr as int, rhs_addr as int, output_addr as int) == Some(
                e@,
            ),
        },
{
    Ok(
        MatmulBf16Kernel {
            lhs_addr: convert::address_u32_hex(lhs_addr, "lhs address")?,
            rhs_addr: convert::address_u32_hex(rhs_addr, "rhs address")?,
            epilogue: MatmulRuntimeEpilogue::Store {
                output_addr: convert::address_u32_hex(output_addr, "output address")?,
            },
            key,
        },
    )
}

/// Why the addresses of partial results are refused.
pub open spec fn top1_refusal(lhs: int, rhs: int, values: int, indices: int) -> Option<
    error::Refusal,
> {
    if lhs > u32::MAX {
        convert::u32_hex_refusal(lhs, "lhs address"@)
    } else if rhs > u32::MAX {
        convert::u32_hex_refusal(rhs, "rhs address"@)
    } else if values > u32::MAX {
        convert::u32_hex_refusal(values, "partial values address"@)
    } else {
        convert::u32_hex_refusal(indices, "partial indices address"@)
    }
}

/// The kernel that writes the largest value of each core and its position.
pub fn top1_kernel(
    lhs_addr: u64,
    rhs_addr: u64,
    values_addr: u64,
    indices_addr: u64,
    key: MatmulProgramKey,
) -> (r: Result<MatmulBf16Kernel, Error>)
    ensures
        match r {
            Ok(k) => {
                &&& top1_refusal(
                    lhs_addr as int,
                    rhs_addr as int,
                    values_addr as int,
                    indices_addr as int,
                ) is None
                &&& k.lhs_addr == lhs_addr
                &&& k.rhs_addr == rhs_addr
                &&& k.epilogue == (MatmulRuntimeEpilogue::Top1 {
                    partial_values_addr: values_addr as u32,
                    partial_indices_addr: indices_addr as u32,
                })
                &&& k.key == key
            },
            Err(e) => top1_refusal(
                lhs_addr as int,
                rhs_addr as int,
                values_addr as int,
                indices_addr as int,
            ) == Some(e@),
        },
{
    Ok(
        MatmulBf16Kernel {
            lhs_addr: convert::address_u32_hex(lhs_addr, "lhs address")?,
            rhs_addr: convert::address_u32_hex(rhs_addr, "rhs address")?,
            epilogue: MatmulRuntimeEpilogue::Top1 {
                partial_values_addr: convert::address_u32_hex(
                    values_addr,
                    "partial values address",
                )?,
                partial_indices_addr: convert::address_u32_hex(
                    indices_addr,
                    "partial indices address",
                )?,
            },
            key,
        },
    )
}

/// The number of cores of a plan, each of which writes one tile of partial results.
pub fn partial_count(p: &MatmulPlan) -> (n: usize)
    requires
        program::sound(p@),
    ensures
        n == program::grid_of(p@).len() * program::grid_of(p@)[0].len(),
{
    let grid = program::plan_grid(p);
    assert(program::grid_of(p@)[0] == grid@[0]@);
    grid.len() * grid[0].len()
}

/// The tensors for the largest value of each core and its position: a tile for each
/// core of the plan, one above the other.
pub fn partial_buffers(p: &MatmulPlan, name: &str) -> (r: (NewBuffer, NewBuffer))
    requires
        program::sound(p@),
        program::grid_of(p@).len() * program::grid_of(p@)[0].len() * 32 <= usize::MAX,
    ensures
        ({
            let count = program::grid_of(p@).len() * program::grid_of(p@)[0].len();
            let (values, indices) = r;
            &&& values.num_tiles == count
            &&& values.dtype == DType::Float16B
            &&& values.shape@ == seq![(count * 32) as usize, 32usize]
            &&& values.name@ == name@ + "_partial_values"@
            &&& indices.num_tiles == count
            &&& indices.dtype == DType::Int32
            &&& indices.shape@ == values.shape@
            &&& indices.name@ == name@ + "_partial_indices"@
        }),
{
    let count: usize = partial_count(p);
    let values = NewBuffer {
        num_tiles: count,
        dtype: DType::Float16B,
        shape: vec![count * 32, 32],
        name: text::cat2(name, "_partial_values"),
    };
    let indices = NewBuffer {
        num_tiles: count,
        dtype: DType::Int32,
        shape: vec![count * 32, 32],
        name: text::cat2(name, "_partial_indices"),
    };
    assert(values.shape@ =~= seq![(count * 32) as usize, 32usize]);
    assert(indices.shape@ =~= values.shape@);
    (values, indices)
}

/// Whether the strides of the program of a key, where it has one, are machine words.
pub open spec fn program_limits(key: &MatmulProgramKey) -> bool {
    key.refusal() is None ==> forall|p: Plan|
        plan::best_plan(key.task(), plan::field(key.cores@)) == Some(p) ==> {
            &&& #[trigger] program::stride_limits(
                p,
                key.logical_mt as int,
                key.logical_nt as int,
            )
            &&& p.batch_groups * p.batches_per_group <= usize::MAX
            &&& p.mt * 32 <= usize::MAX
            &&& p.kt * 32 <= usize::MAX
            &&& p.nt * 32 <= usize::MAX
        }
}

impl MatmulProgramKey {
    /// Whether `r` is the program of the key, with the sources of its kernels, or the
    /// reason why there is none.
    pub open spec fn programs(
        &self,
        sources: &MatmulSources<'_>,
        r: Result<LoweredProgram, Error>,
    ) -> bool {
        &&& self.refusal() is Some ==> (r matches Err(e) && self.refusal() == Some(e@))
        &&& self.refusal() is None ==> {
            let p = plan::best_plan(self.task(), plan::field(self.cores@))->0;
            let job = program::Job {
                plan: p,
                logical_mt: self.logical_mt as int,
                logical_nt: self.logical_nt as int,
                batch_count: self.batch_count,
                lhs: self.lhs_view@,
                rhs: self.rhs_view@,
                out: self.output_view@,
                epilogue: self.epilogue,
            };
            let top1 = self.epilogue == MatmulEpilogueKind::Top1;
            match r {
                Ok(program) => {
                    &&& job.refusal() is None
                    &&& crate::kernels::lowering::assigns(
                        program.runtime_args,
                        job.listed(),
                        job.args(),
                        4,
                        job.dynamic(),
                    )
                    &&& program.reader_kernel@ == sources.reader_sender@
                    &&& program.reader_recv_kernel@ == sources.reader_recv@
                    &&& program.writer_kernel@ == if top1 {
                        sources.top1_writer@
                    } else {
                        sources.writer_sender@
                    }
                    &&& program.writer_recv_kernel@ == if top1 {
                        sources.top1_writer@
                    } else {
                        sources.writer_recv@
                    }
                    &&& program.compute_kernel@ == program::compute_text(sources.compute@, p)
                    &&& program.name@ == program::matmul_name(
                        p,
                        self.output_dtype,
                        self.epilogue,
                    )
                    &&& program.compile@ == (crate::kernels::lowering::Config {
                        cbs: program::matmul_cbs(
                            p,
                            self.output_dtype,
                            self.epilogue,
                        ),
                        math_fidelity: self.math_fidelity,
                        approx: false,
                        dst_accum_mode: true,
                        dst_full_sync: true,
                    })
                    &&& match program.grid {
                        Some((rows, cols)) => p.direct_grid is None && rows@ == p.rows
                            && cols@ == p.cols,
                        None => p.direct_grid is Some,
                    }
                },
                Err(e) => job.refusal() == Some(e@),
            }
        }
    }
}

impl MatmulBf16Kernel {
    /// Builds the program of the multiplication.
    pub fn build_program(&self, sources: &MatmulSources<'_>) -> (r: Result<LoweredProgram, Error>)
        requires
            self.key.limits(),
            program_limits(&self.key),
        ensures
            self.key.programs(sources, r),
    {
        let p = plan_for_key(&self.key)?;
        proof {
            assert(program::stride_limits(
                p@,
                self.key.logical_mt as int,
                self.key.logical_nt as int,
            ));
        }
        self.program_of(&p, sources)
    }

    /// Builds the program of the multiplication, or gives nothing where its numbers are
    /// no machine words.
    pub fn checked_program(&self, sources: &MatmulSources<'_>) -> (r: Option<
        Result<LoweredProgram, Error>,
    >)
        ensures
            r is Some <==> self.key.limits() && program_limits(&self.key),
            r matches Some(built) ==> self.key.programs(sources, built),
    {
        let p = match checked_plan(&self.key)? {
            Ok(p) => p,
            Err(e) => {
                assert(program_limits(&self.key));
                return Some(Err(e));
            },
        };
        assert(plan::best_plan(self.key.task(), plan::field(self.key.cores@)) == Some(p@));
        if program::within_strides(&p, self.key.logical_mt, self.key.logical_nt)
            && program::within_words(&p) {
            Some(self.program_of(&p, sources))
        } else {
            assert(!program_limits(&self.key)) by {
                if program_limits(&self.key) {
                    assert(program::stride_limits(
                        p@,
                        self.key.logical_mt as int,
                        self.key.logical_nt as int,
                    ));
                }
            }
            None
        }
    }

    fn program_of(&self, p: &MatmulPlan, sources: &MatmulSources<'_>) -> (r: Result<
        LoweredProgram,
        Error,
    >)
        requires
            self.key.refusal() is None,
            plan::best_plan(self.key.task(), plan::field(self.key.cores@)) == Some(p@),
            program::sound(p@),
            program::stride_limits(
                p@,
                self.key.logical_mt as int,
                self.key.logical_nt as int,
            ),
            p.batch_groups * p.batches_per_group <= usize::MAX,
            p.mt * 32 <= usize::MAX,
            p.kt * 32 <= usize::MAX,
            p.nt * 32 <= usize::MAX,
        ensures
            self.key.programs(sources, r),
    {
        program::bf16_program(
            p,
            self.key.logical_mt,
            self.key.logical_nt,
            self.key.batch_count,
            &self.key.lhs_view,
            &self.key.rhs_view,
            &self.key.output_view,
            self.key.math_fidelity,
            self.key.output_dtype,
            self.key.epilogue,
            sources,
        )
    }
}

/// A plan is consistent, covers all tiles of the output, and its blocks divide
/// the inner dimension.
pub proof fn lemma_best_plan_sound(t: Task, cores: Seq<CoreCoord>, p: Plan)
    requires
        plan::best_plan(t, plan::field(cores)) == Some(p),
        plan::plan_limits(
            t.mt,
            t.kt,
            t.nt,
            t.batch,
            plan::field(cores).available.len() as int,
        ),
        0 <= t.kt <= usize::MAX,
        t.nt >= 1,
    ensures
        program::sound(p),
        p.mt >= t.mt,
        p.nt >= t.nt,
        p.kt == t.kt,
        t.kt % p.in0_block_w == 0,
{
    let f = plan::field(cores);
    let divs = plan::divisor_list(t.kt);
    plan::lemma_divisors_exist(t.kt);
    let grid = search::best_choice(plan::grid_valid(t, f, divs), plan::grid_score(t, divs));
    if grid is Some {
        assert(search::is_best(plan::grid_valid(t, f, divs), plan::grid_score(t, divs), grid->0));
        lemma_grid_sound(t, f, divs, grid->0);
    }
    let n = f.available.len() as int;
    let single = search::best_choice(
        plan::direct_valid(t, n, divs, 1, 1, None),
        plan::direct_score(t, divs, None),
    );
    if single is Some {
        assert(search::is_best(
            plan::direct_valid(t, n, divs, 1, 1, None),
            plan::direct_score(t, divs, None),
            single->0,
        ));
        lemma_direct_sound(t, f.available, divs, 1, 1, None, single->0);
    }
    let base = plan::base_plan(t, f)->0;
    let groups = arith::min2(t.batch, n);
    let work = Some(plan::plan_work_of(base));
    let batched = search::best_choice(
        plan::direct_valid(t, n, divs, 2, groups, work),
        plan::direct_score(t, divs, work),
    );
    if batched is Some {
        assert(search::is_best(
            plan::direct_valid(t, n, divs, 2, groups, work),
            plan::direct_score(t, divs, work),
            batched->0,
        ));
        lemma_direct_sound(t, f.available, divs, 2, groups, work, batched->0);
    }
}

proof fn lemma_grid_sound(t: Task, f: Field, divs: Seq<usize>, c: Choice)
    requires
        plan::grid_valid(t, f, divs)(c),
        plan::are_divisors(divs, t.kt),
        plan::plan_limits(t.mt, t.kt, t.nt, t.batch, f.available.len() as int),
        t.kt >= 0,
        t.nt >= 1,
    ensures
        ({
            let p = plan::grid_plan(t, f, divs, c);
            &&& program::sound(p)
            &&& p.mt >= t.mt
            &&& p.nt >= t.nt
            &&& p.kt == t.kt
            &&& t.kt % p.in0_block_w == 0
        }),
{
    let p = plan::grid_plan(t, f, divs, c);
    let s = plan::grid_share(t, c.a, c.b, c.c);
    let r = c.b - c.a;
    arith::lemma_ceil_div(t.mt, r);
    arith::lemma_ceil_div(t.nt, c.c);
    arith::lemma_round_up(t.mt, r);
    arith::lemma_round_up(t.nt, c.c);
    assert(1 <= divs[c.d] <= t.kt);
    let g = program::grid_of(p);
    assert(g.len() == r);
    assert(g[0].len() == c.c);
    assert(r * s.per_core_m == s.per_core_m * r) by (nonlinear_arith);
    assert(c.c * s.per_core_n == s.per_core_n * c.c) by (nonlinear_arith);
    assert(r / 1 == r);
    assert(r % 1 == 0);
}

proof fn lemma_direct_sound(
    t: Task,
    cores: Seq<CoreCoord>,
    divs: Seq<usize>,
    lo: int,
    hi: int,
    baseline: Option<int>,
    c: Choice,
)
    requires
        plan::direct_valid(t, cores.len() as int, divs, lo, hi, baseline)(c),
        plan::are_divisors(divs, t.kt),
        plan::plan_limits(t.mt, t.kt, t.nt, t.batch, cores.len() as int),
        t.kt >= 0,
        t.nt >= 1,
    ensures
        ({
            let p = plan::direct_plan(t, cores, divs, c);
            &&& program::sound(p)
            &&& p.mt >= t.mt
            &&& p.nt >= t.nt
            &&& p.kt == t.kt
            &&& t.kt % p.in0_block_w == 0
        }),
{
    let p = plan::direct_plan(t, cores, divs, c);
    let s = plan::direct_share(t, baseline, c.a, c.b, c.c);
    plan::lemma_direct_bounds(t, cores.len() as int, lo, hi, baseline, c.a, c.b, c.c);
    arith::lemma_ceil_div(t.mt, c.b);
    arith::lemma_ceil_div(t.nt, c.c);
    arith::lemma_round_up(t.mt, c.b);
    arith::lemma_round_up(t.nt, c.c);
    assert(1 <= divs[c.d] <= t.kt);
    let g = program::grid_of(p);
    let rows = c.b * c.a;
    assert(rows >= 1) by (nonlinear_arith)
        requires
            rows == c.b * c.a,
            c.b >= 1,
            c.a >= 1,
    ;
    assert(g.len() == rows);
    let w = c.c;
    let n = cores.len() as int;
    assert forall|i: int| 0 <= i < rows implies (#[trigger] g[i]).len() == w by {
        assert(0 <= i * w && i * w + w <= rows * w) by (nonlinear_arith)
            requires
                0 <= i < rows,
                w >= 1,
        ;
    }
    assert(g[0].len() == w);
    layout::lemma_div_mod(c.b, c.a, 0);
    assert(rows / c.a == c.b && rows % c.a == 0);
    assert(c.b * s.per_core_m == s.per_core_m * c.b) by (nonlinear_arith);
    assert(w * s.per_core_n == s.per_core_n * w) by (nonlinear_arith);
}

/// What a setting of the precision means.
pub open spec fn fidelity_of(setting: Seq<char>) -> Option<MathFidelity> {
    if setting == ""@ || setting == "hifi2"@ || setting == "hi2"@ || setting == "2"@ {
        Some(MathFidelity::HiFi2)
    } else if setting == "lofi"@ || setting == "lo"@ || setting == "0"@ {
        Some(MathFidelity::LoFi)
    } else {
        None
    }
}

/// Reads a setting that was trimmed and put into small letters.
pub fn fidelity_setting(setting: &str) -> (r: Result<MathFidelity, Error>)
    ensures
        match r {
            Ok(f) => fidelity_of(setting@) == Some(f),
            Err(e) => fidelity_of(setting@) is None && e@ == error::invalid(
                "invalid LIBTT_MATMUL_FIDELITY="@ + text::quoted(setting@)
                    + "; expected lofi or hifi2"@,
            ),
        },
{
    if text::same_text(setting, "") || text::same_text(setting, "hifi2") || text::same_text(
        setting,
        "hi2",
    ) || text::same_text(setting, "2") {
        Ok(MathFidelity::HiFi2)
    } else if text::same_text(setting, "lofi") || text::same_text(setting, "lo")
        || text::same_text(setting, "0") {
        Ok(MathFidelity::LoFi)
    } else {
        Err(
            error::invalid_input(
                text::cat3(
                    "invalid LIBTT_MATMUL_FIDELITY=",
                    text::quote_text(setting).as_str(),
                    "; expected lofi or hifi2",
                ),
            ),
        )
    }
}

/// Reads the setting of the precision; case and surrounding white space do not matter.
pub fn parse_matmul_math_fidelity(value: &str) -> (r: Result<MathFidelity, Error>)
    ensures
        ({
            let setting = text::lowered(text::trimmed(value@));
            match r {
                Ok(f) => fidelity_of(setting) == Some(f),
                Err(e) => fidelity_of(setting) is None && e@ == error::invalid(
                    "invalid LIBTT_MATMUL_FIDELITY="@ + text::quoted(setting)
                        + "; expected lofi or hifi2"@,
                ),
            }
        }),
        text::trims(value@, text::trimmed(value@)),
{
    let trimmed = text::trim_text(value);
    let setting = text::lower_text(trimmed.as_str());
    fidelity_setting(setting.as_str())
}

} // verus!
