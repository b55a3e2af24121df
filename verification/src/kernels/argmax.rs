//! The position of the largest element of a vector.

use vstd::prelude::*;
use crate::arith;
use crate::convert;
use crate::dram::{DType, DramBuffer};
use crate::error;
use crate::error::Error;
use crate::hw::CoreCoord;
use crate::kernels::common;
use crate::kernels::kernel;
use crate::kernels::kernel::{CoreArgs, Kernel};
use crate::kernels::lowering;
use crate::kernels::lowering::{CompileConfig, KernelCb, LoweredProgram, RangeWords, Section};
use crate::text;

verus! {

/// What the program depends on.
#[derive(Clone, Debug, Hash, PartialEq, Eq)]
pub struct ArgMaxProgramKey {
    pub core: CoreCoord,
    pub input_dtype: DType,
    pub input_tiles: u32,
    pub logical_len: u32,
}

/// The addresses of one run.
#[derive(Clone, Debug)]
pub struct ArgMaxKernel {
    pub input_addr: u32,
    pub output_addr: u32,
    pub key: ArgMaxProgramKey,
}

impl Kernel for ArgMaxKernel {
    open spec fn reader_arg(&self, core: CoreCoord, index: int) -> Option<u32> {
        None
    }

    open spec fn writer_arg(&self, core: CoreCoord, index: int) -> Option<u32> {
        if index == 0 {
            Some(self.input_addr)
        } else if index == 1 {
            Some(self.output_addr)
        } else {
            None
        }
    }

    open spec fn compute_arg(&self, core: CoreCoord, index: int) -> Option<u32> {
        None
    }

    fn reader_runtime_arg(&self, core: CoreCoord, index: usize) -> (r: Option<u32>) {
        None
    }

    fn writer_runtime_arg(&self, core: CoreCoord, index: usize) -> (r: Option<u32>) {
        if index == 0 {
            Some(self.input_addr)
        } else if index == 1 {
            Some(self.output_addr)
        } else {
            None
        }
    }

    fn compute_runtime_arg(&self, core: CoreCoord, index: usize) -> (r: Option<u32>) {
        None
    }
}

/// Why a tensor is refused.
pub open spec fn form_refusal(input: DramBuffer, shape: Seq<usize>, dimensions: Seq<i64>) -> Option<
    error::Refusal,
> {
    if input.dtype != DType::Float16B && input.dtype != DType::Float32 {
        Some(
            error::invalid(
                "argmax currently supports bf16 and f32 inputs, got "@ + input.dtype.shown(),
            ),
        )
    } else if shape.len() != 1 {
        Some(
            error::invalid(
                "argmax currently supports rank-1 inputs, got "@ + text::list_text(
                    arith::ints(shape),
                ),
            ),
        )
    } else if dimensions != seq![0i64] {
        Some(
            error::invalid(
                "argmax currently supports only dimension [0], got "@ + text::list_text(
                    text::ints_i64(dimensions),
                ),
            ),
        )
    } else {
        common::layout_refusal("argmax input"@, input.shape@, input.num_tiles as int, shape)
    }
}

pub fn validate_argmax(input: &DramBuffer, input_shape: &[usize], dimensions: &[i64]) -> (r: Result<
    (),
    Error,
>)
    ensures
        match r {
            Ok(_) => form_refusal(*input, input_shape@, dimensions@) is None,
            Err(e) => form_refusal(*input, input_shape@, dimensions@) == Some(e@),
        },
{
    if input.dtype != DType::Float16B && input.dtype != DType::Float32 {
        return Err(
            error::invalid_input(
                text::cat2(
                    "argmax currently supports bf16 and f32 inputs, got ",
                    input.dtype.name(),
                ),
            ),
        );
    }
    if input_shape.len() != 1 {
        return Err(
            error::invalid_input(
                text::cat2(
                    "argmax currently supports rank-1 inputs, got ",
                    text::shape_text(input_shape).as_str(),
                ),
            ),
        );
    }
    if dimensions.len() != 1 || dimensions[0] != 0 {
        assert(dimensions@ != seq![0i64]);
        return Err(
            error::invalid_input(
                text::cat2(
                    "argmax currently supports only dimension [0], got ",
                    text::list_i64_text(dimensions).as_str(),
                ),
            ),
        );
    }
    assert(dimensions@ =~= seq![0i64]);
    common::check_layout("argmax input", input, input_shape)
}

/// The type under which the writer knows the elements.
pub open spec fn dtype_word(dtype: DType) -> Option<Seq<char>> {
    match dtype {
        DType::Float16B => Some("ARGMAX_DTYPE_BFLOAT16"@),
        DType::Float32 => Some("ARGMAX_DTYPE_FLOAT32"@),
        _ => None,
    }
}

pub open spec fn source_refusal(dtype: DType) -> Option<error::Refusal> {
    if dtype_word(dtype) is None {
        Some(
            error::invalid(
                "argmax currently does not support "@ + dtype.shown() + " inputs"@,
            ),
        )
    } else {
        None
    }
}

/// Generates the source of the writer in front of its fixed part.
pub fn argmax_writer_source(dtype: DType, body: &str) -> (r: Result<String, Error>)
    ensures
        match r {
            Ok(s) => source_refusal(dtype) is None && s@ == "#define "@ + dtype_word(dtype)->0
                + "\n"@ + body@,
            Err(e) => source_refusal(dtype) == Some(e@),
        },
{
    let word: &str = match dtype {
        DType::Float16B => "ARGMAX_DTYPE_BFLOAT16",
        DType::Float32 => "ARGMAX_DTYPE_FLOAT32",
        _ => {
            return Err(
                error::invalid_input(
                    text::cat3("argmax currently does not support ", dtype.name(), " inputs"),
                ),
            );
        },
    };
    Ok(text::cat4("#define ", word, "\n", body))
}

/// The arguments of the core: the two addresses, the elements and the tiles.
pub open spec fn core_args(key: ArgMaxProgramKey) -> CoreArgs {
    (seq![0u32, 0u32, key.logical_len, key.input_tiles], Seq::empty(), Seq::empty())
}

pub open spec fn program_cbs(dtype: DType) -> Seq<KernelCb> {
    seq![KernelCb::double(0, dtype), KernelCb::double(16, DType::Int32)]
}

/// Builds the program from the fixed part of its writer.
pub fn argmax_program(key: &ArgMaxProgramKey, writer_body: &str) -> (r: Result<
    LoweredProgram,
    Error,
>)
    ensures
        match r {
            Ok(p) => {
                &&& source_refusal(key.input_dtype) is None
                &&& p.reader_kernel@ == ""@
                &&& p.compute_kernel@ == ""@
                &&& p.writer_kernel@ == "#define "@ + dtype_word(key.input_dtype)->0 + "\n"@
                    + writer_body@
                &&& p.is_uniform()
                &&& p.name@ == "argmax_"@ + key.input_dtype.shown()
                &&& p.compile@ == lowering::plain_config(program_cbs(key.input_dtype))
                &&& lowering::assigns(
                    p.runtime_args,
                    seq![key.core],
                    |j: int| core_args(*key),
                    0,
                    common::first_dynamic(2, 0),
                )
            },
            Err(e) => source_refusal(key.input_dtype) == Some(e@),
        },
{
    let listed: Vec<CoreCoord> = vec![key.core];
    assert(listed@ =~= seq![key.core]);
    proof {
        let checks = lowering::repeat_checks(listed@);
        assert(listed@.take(0) =~= Seq::empty());
        assert forall|i: int| 0 <= i < 1 implies #[trigger] checks(i) is None by {}
        error::lemma_first_refusal_none(0, 1, checks);
    }
    let head: Vec<u32> = vec![0, 0, key.logical_len, key.input_tiles];
    let writer = Section { head, range: RangeWords::Absent, tail: Vec::new() };
    let none = Section::empty();
    let args = common::deal(
        listed.as_slice(),
        key.input_tiles,
        &writer,
        &none,
        &none,
        common::index_list(2),
        common::index_list(0),
    )?;
    proof {
        let of = common::dealt(listed@, key.input_tiles, writer@, none@, none@);
        let want = |j: int| core_args(*key);
        assert(of(0).0 =~= want(0).0);
        assert(of(0).1 =~= want(0).1);
        assert(of(0).2 =~= want(0).2);
        assert forall|j: int| 0 <= j < listed@.len() implies args.blob_list@[kernel::position(
            args.core_list@,
            #[trigger] listed@[j],
        )]@ == kernel::args_blob(want(j), 0) by {
            assert(of(j) == want(j));
        }
    }
    let writer_kernel = argmax_writer_source(key.input_dtype, writer_body)?;
    let cbs: Vec<KernelCb> = vec![
        KernelCb::new(0, key.input_dtype),
        KernelCb::new(16, DType::Int32),
    ];
    assert(cbs@ =~= program_cbs(key.input_dtype));
    Ok(
        LoweredProgram::uniform(
            "".to_owned(),
            "".to_owned(),
            writer_kernel,
            text::cat2("argmax_", key.input_dtype.name()),
            CompileConfig::plain(cbs),
            args,
        ),
    )
}

/// Why the search cannot be run.
pub open spec fn request_refusal(
    available: Seq<CoreCoord>,
    input: DramBuffer,
    shape: Seq<usize>,
    dimensions: Seq<i64>,
) -> Option<error::Refusal> {
    if form_refusal(input, shape, dimensions) is Some {
        form_refusal(input, shape, dimensions)
    } else {
        kernel::select_refusal(available)
    }
}

/// Checks the tensor of the search, which runs on the first core. The result is
/// one tile of 32-bit numbers.
pub fn argmax(
    available: &[CoreCoord],
    input: &DramBuffer,
    input_shape: &[usize],
    dimensions: &[i64],
) -> (r: Result<CoreCoord, Error>)
    ensures
        match r {
            Ok(core) => request_refusal(available@, *input, input_shape@, dimensions@) is None
                && core == available@[0],
            Err(e) => request_refusal(available@, *input, input_shape@, dimensions@) == Some(e@),
        },
{
    validate_argmax(input, input_shape, dimensions)?;
    if available.len() == 0 {
        return Err(error::invalid_text("no worker cores are available"));
    }
    Ok(available[0])
}

/// Why the numbers of one run are refused.
pub open spec fn kernel_refusal(input: DramBuffer, shape: Seq<usize>, output: u64) -> Option<
    error::Refusal,
> {
    let addrs = common::pair_refusal(input.addr, "input address"@, output, "output address"@);
    let tiles = convert::u32_refusal(input.num_tiles as int, "input tile count"@);
    if addrs is Some {
        addrs
    } else if tiles is Some {
        tiles
    } else {
        convert::u32_refusal(shape[0] as int, "argmax length"@)
    }
}

/// The kernel of the search with the addresses of one run.
pub fn argmax_kernel(core: CoreCoord, input: &DramBuffer, input_shape: &[usize], output_addr: u64) -> (r:
    Result<ArgMaxKernel, Error>)
    requires
        input_shape@.len() == 1,
    ensures
        match r {
            Ok(k) => {
                &&& kernel_refusal(*input, input_shape@, output_addr) is None
                &&& k.input_addr == input.addr
                &&& k.output_addr == output_addr
                &&& k.key.core == core
                &&& k.key.input_dtype == input.dtype
                &&& k.key.input_tiles == input.num_tiles
                &&& k.key.logical_len == input_shape@[0]
            },
            Err(e) => kernel_refusal(*input, input_shape@, output_addr) == Some(e@),
        },
{
    let input_addr: u32 = convert::address_u32_hex(input.addr, "input address")?;
    let output_addr: u32 = convert::address_u32_hex(output_addr, "output address")?;
    let input_tiles: u32 = convert::to_u32(input.num_tiles, "input tile count")?;
    let logical_len: u32 = convert::to_u32(input_shape[0], "argmax length")?;
    Ok(
        ArgMaxKernel {
            input_addr,
            output_addr,
            key: ArgMaxProgramKey { core, input_dtype: input.dtype, input_tiles, logical_len },
        },
    )
}

} // verus!
