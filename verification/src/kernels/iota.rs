//! Tensors whose elements count along one dimension.

use vstd::prelude::*;
use crate::arith;
use crate::convert;
use crate::dram;
use crate::dram::DType;
use crate::error;
use crate::error::Error;
use crate::hw::CoreCoord;
use crate::kernels::common;
use crate::kernels::common::SectionWords;
use crate::kernels::constant;
use crate::kernels::kernel;
use crate::kernels::kernel::Kernel;
use crate::kernels::lowering;
use crate::kernels::lowering::{CompileConfig, LoweredProgram, RangeWords, Section};
use crate::text;

verus! {

/// What the program depends on.
#[derive(Clone, Debug, Hash, PartialEq, Eq)]
pub struct IotaProgramKey {
    pub cores: Vec<CoreCoord>,
    pub tile_count: u32,
    pub dtype: DType,
}

/// The numbers of one run.
#[derive(Clone, Debug)]
pub struct IotaKernel {
    pub output_addr: u32,
    pub rank: u32,
    pub dim0: u32,
    pub dim1: u32,
    pub iota_dimension: u32,
    pub output_tiles_per_row: u32,
    pub key: IotaProgramKey,
}

/// The first place of a core in a list, from place `i` on.
pub open spec fn place(list: Seq<CoreCoord>, core: CoreCoord, i: int) -> Option<int>
    decreases list.len() - i,
{
    if i < 0 || i >= list.len() {
        None
    } else if list[i] == core {
        Some(i)
    } else {
        place(list, core, i + 1)
    }
}

/// The tiles of a core of the list.
pub open spec fn range_of(tiles: u32, core: CoreCoord, list: Seq<CoreCoord>) -> Option<(u32, u32)> {
    match place(list, core, 0) {
        Some(j) => Some(lowering::core_range(tiles, j, list.len() as int)),
        None => None,
    }
}

/// The tiles of a core; a core outside the list has none.
pub fn tile_range(tile_count: u32, core: CoreCoord, cores: &[CoreCoord]) -> (r: Result<
    (u32, u32),
    Error,
>)
    ensures
        match r {
            Ok(range) => range_of(tile_count, core, cores@) == Some(range),
            Err(e) => range_of(tile_count, core, cores@) is None && e@ == error::invalid(
                "core "@ + core.shown() + " is not part of this iota launch"@,
            ),
        },
{
    let n: usize = cores.len();
    let mut i: usize = 0;
    while i < n
        invariant
            n == cores@.len(),
            i <= n,
            place(cores@, core, 0) == place(cores@, core, i as int),
        decreases n - i,
    {
        if cores[i] == core {
            return kernel::split_tile_range(tile_count, i, n);
        }
        i += 1;
    }
    Err(
        error::invalid_input(
            text::cat3("core ", core.to_string().as_str(), " is not part of this iota launch"),
        ),
    )
}

/// In a list without repetitions each core finds its own tiles.
pub proof fn lemma_range_of_listed(tiles: u32, list: Seq<CoreCoord>, j: int)
    requires
        lowering::listed_refusal(list) is None,
        0 <= j < list.len(),
    ensures
        range_of(tiles, list[j], list) == Some(
            lowering::core_range(tiles, j, list.len() as int),
        ),
{
    let checks = lowering::repeat_checks(list);
    error::lemma_first_refusal_none(0, list.len() as int, checks);
    assert(checks(j) is None);
    assert forall|i: int| 0 <= i < j implies list[i] != list[j] by {
        assert(list.take(j)[i] == list[i]);
        if list[i] == list[j] {
            assert(list.take(j).contains(list[j]));
        }
    }
    lemma_place(list, j, 0);
}

proof fn lemma_place(list: Seq<CoreCoord>, j: int, i: int)
    requires
        0 <= i <= j < list.len(),
        forall|k: int| 0 <= k < j ==> list[k] != list[j],
    ensures
        place(list, list[j], i) == Some(j),
    decreases j - i,
{
    if i < j {
        lemma_place(list, j, i + 1);
    }
}

impl Kernel for IotaKernel {
    open spec fn reader_arg(&self, core: CoreCoord, index: int) -> Option<u32> {
        None
    }

    open spec fn writer_arg(&self, core: CoreCoord, index: int) -> Option<u32> {
        let range = range_of(self.key.tile_count, core, self.key.cores@);
        if index == 0 {
            Some(self.output_addr)
        } else if index == 1 {
            match range {
                Some((offset, _)) => Some(offset),
                None => None,
            }
        } else if index == 2 {
            match range {
                Some((_, count)) => Some(count),
                None => None,
            }
        } else if index == 3 {
            Some(self.rank)
        } else if index == 4 {
            Some(self.dim0)
        } else if index == 5 {
            Some(self.dim1)
        } else if index == 6 {
            Some(self.iota_dimension)
        } else if index == 7 {
            Some(self.output_tiles_per_row)
        } else {
            None
        }
    }

    open spec fn compute_arg(&self, core: CoreCoord, index: int) -> Option<u32> {
        None
    }

    fn reader_runtime_arg(&self, core: CoreCoord, index: usize) -> (r: Option<u32>) {
        None
    }

    fn writer_runtime_arg(&self, core: CoreCoord, index: usize) -> (r: Option<u32>) {
        if index == 0 {
            Some(self.output_addr)
        } else if index == 1 {
            match tile_range(self.key.tile_count, core, self.key.cores.as_slice()) {
                Ok((offset, _)) => Some(offset),
                Err(_) => None,
            }
        } else if index == 2 {
            match tile_range(self.key.tile_count, core, self.key.cores.as_slice()) {
                Ok((_, count)) => Some(count),
                Err(_) => None,
            }
        } else if index == 3 {
            Some(self.rank)
        } else if index == 4 {
            Some(self.dim0)
        } else if index == 5 {
            Some(self.dim1)
        } else if index == 6 {
            Some(self.iota_dimension)
        } else if index == 7 {
            Some(self.output_tiles_per_row)
        } else {
            None
        }
    }

    fn compute_runtime_arg(&self, core: CoreCoord, index: usize) -> (r: Option<u32>) {
        None
    }
}

/// Whether elements of a type can count.
pub open spec fn counts(dtype: DType) -> bool {
    dtype == DType::Float16B || dtype == DType::Float32 || dtype == DType::Int32 || dtype
        == DType::UInt32
}

/// Why a counting tensor is refused.
pub open spec fn form_refusal(dtype: DType, shape: Seq<usize>, dimension: int) -> Option<
    error::Refusal,
> {
    if !counts(dtype) {
        Some(
            error::invalid(
                "iota currently supports Float16B, Float32, Int32, and UInt32 outputs, got "@
                    + dtype.shown(),
            ),
        )
    } else if shape.len() == 0 || shape.len() > 2 {
        Some(
            error::invalid(
                "iota currently supports rank-1 and rank-2 outputs, got "@ + text::list_text(
                    arith::ints(shape),
                ),
            ),
        )
    } else if dimension >= shape.len() {
        Some(
            error::invalid(
                "iota dimension "@ + text::dec(dimension) + " is out of bounds for shape "@
                    + text::list_text(arith::ints(shape)),
            ),
        )
    } else {
        None
    }
}

pub fn validate_iota(dtype: DType, shape: &[usize], iota_dimension: usize) -> (r: Result<(), Error>)
    ensures
        match r {
            Ok(_) => form_refusal(dtype, shape@, iota_dimension as int) is None,
            Err(e) => form_refusal(dtype, shape@, iota_dimension as int) == Some(e@),
        },
{
    match dtype {
        DType::Float16B | DType::Float32 | DType::Int32 | DType::UInt32 => {},
        _ => {
            return Err(
                error::invalid_input(
                    text::cat2(
                        "iota currently supports Float16B, Float32, Int32, and UInt32 outputs, got ",
                        dtype.name(),
                    ),
                ),
            );
        },
    }
    if shape.len() == 0 || shape.len() > 2 {
        return Err(
            error::invalid_input(
                text::cat2(
                    "iota currently supports rank-1 and rank-2 outputs, got ",
                    text::shape_text(shape).as_str(),
                ),
            ),
        );
    }
    if iota_dimension >= shape.len() {
        return Err(
            error::invalid_input(
                text::cat4(
                    "iota dimension ",
                    text::decimal_usize(iota_dimension).as_str(),
                    " is out of bounds for shape ",
                    text::shape_text(shape).as_str(),
                ),
            ),
        );
    }
    Ok(())
}

/// The definitions in front of the writer: which type it writes.
pub open spec fn writer_definitions(dtype: DType) -> Seq<char> {
    common::definition("IOTA_DTYPE_INT32"@, text::dec(common::flag(dtype == DType::Int32)))
        + common::definition("IOTA_DTYPE_UINT32"@, text::dec(common::flag(dtype == DType::UInt32)))
        + common::definition(
        "IOTA_DTYPE_FLOAT32"@,
        text::dec(common::flag(dtype == DType::Float32)),
    ) + common::definition(
        "IOTA_DTYPE_BFLOAT16"@,
        text::dec(common::flag(dtype == DType::Float16B)),
    )
}

pub open spec fn source_refusal(dtype: DType) -> Option<error::Refusal> {
    if counts(dtype) {
        None
    } else {
        Some(
            error::invalid("iota currently does not support "@ + dtype.shown() + " outputs"@),
        )
    }
}

/// Generates the source of the writer in front of its fixed part.
pub fn iota_writer_source(dtype: DType, body: &str) -> (r: Result<String, Error>)
    ensures
        match r {
            Ok(s) => source_refusal(dtype) is None && s@ == writer_definitions(dtype) + body@,
            Err(e) => source_refusal(dtype) == Some(e@),
        },
{
    match dtype {
        DType::Float16B | DType::Float32 | DType::Int32 | DType::UInt32 => {},
        _ => {
            return Err(
                error::invalid_input(
                    text::cat3("iota currently does not support ", dtype.name(), " outputs"),
                ),
            );
        },
    }
    let first = text::decimal_u32(common::flag_word(dtype == DType::Int32));
    let mut out = common::defined("IOTA_DTYPE_INT32", first.as_str());
    common::define_word(&mut out, "IOTA_DTYPE_UINT32", common::flag_word(dtype == DType::UInt32));
    common::define_word(
        &mut out,
        "IOTA_DTYPE_FLOAT32",
        common::flag_word(dtype == DType::Float32),
    );
    common::define_word(
        &mut out,
        "IOTA_DTYPE_BFLOAT16",
        common::flag_word(dtype == DType::Float16B),
    );
    out.append(body);
    Ok(out)
}

/// Why there is no program.
pub open spec fn program_refusal(key: IotaProgramKey) -> Option<error::Refusal> {
    if lowering::listed_refusal(key.cores@) is Some {
        lowering::listed_refusal(key.cores@)
    } else {
        source_refusal(key.dtype)
    }
}

/// Builds the program from the fixed part of its writer.
pub fn iota_program(key: &IotaProgramKey, writer_body: &str) -> (r: Result<LoweredProgram, Error>)
    ensures
        match r {
            Ok(p) => {
                &&& program_refusal(*key) is None
                &&& p.reader_kernel@ == ""@
                &&& p.compute_kernel@ == ""@
                &&& p.writer_kernel@ == writer_definitions(key.dtype) + writer_body@
                &&& p.is_uniform()
                &&& p.name@ == "iota_"@ + key.dtype.shown()
                &&& p.compile@ == lowering::plain_config(constant::output_cbs(key.dtype))
                &&& lowering::assigns(
                    p.runtime_args,
                    key.cores@,
                    common::dealt(
                        key.cores@,
                        key.tile_count,
                        SectionWords {
                            head: common::zero_words(1),
                            range: RangeWords::OffsetAndCount,
                            tail: common::zero_words(5),
                        },
                        common::no_words(),
                        common::no_words(),
                    ),
                    0,
                    common::first_dynamic(8, 0),
                )
            },
            Err(e) => program_refusal(*key) == Some(e@),
        },
{
    let writer = Section {
        head: common::zeros(1),
        range: RangeWords::OffsetAndCount,
        tail: common::zeros(5),
    };
    let none = Section::empty();
    assert(none@ == common::no_words()) by {
        assert(none@.head =~= Seq::empty());
        assert(none@.tail =~= Seq::empty());
    }
    let args = common::deal(
        key.cores.as_slice(),
        key.tile_count,
        &writer,
        &none,
        &none,
        common::index_list(8),
        common::index_list(0),
    )?;
    let writer_kernel = iota_writer_source(key.dtype, writer_body)?;
    Ok(
        LoweredProgram::uniform(
            "".to_owned(),
            "".to_owned(),
            writer_kernel,
            text::cat2("iota_", key.dtype.name()),
            CompileConfig::plain(constant::list_output_cbs(key.dtype)),
            args,
        ),
    )
}

/// A checked counting tensor: its tiles, its shape in memory and its cores.
#[derive(Clone, Debug)]
pub struct IotaRequest {
    pub cores: Vec<CoreCoord>,
    pub output_tiles: usize,
    pub output_shape: Vec<usize>,
}

/// Why a counting tensor cannot be written.
pub open spec fn request_refusal(
    available: Seq<CoreCoord>,
    dtype: DType,
    shape: Seq<usize>,
    dimension: int,
) -> Option<error::Refusal> {
    if form_refusal(dtype, shape, dimension) is Some {
        form_refusal(dtype, shape, dimension)
    } else if dram::tile_count_refusal(shape) is Some {
        dram::tile_count_refusal(shape)
    } else {
        kernel::select_refusal(available)
    }
}

/// Checks a counting tensor and chooses the cores.
pub fn iota(available: &[CoreCoord], dtype: DType, shape: &[usize], iota_dimension: usize) -> (r:
    Result<IotaRequest, Error>)
    ensures
        match r {
            Ok(q) => {
                &&& request_refusal(available@, dtype, shape@, iota_dimension as int) is None
                &&& dram::tile_count(shape@) == Some(q.output_tiles as int)
                &&& q.output_shape@ == dram::tiled_shape(shape@)
                &&& q.cores@ == kernel::chosen_cores(available@, q.output_tiles as int)
            },
            Err(e) => request_refusal(available@, dtype, shape@, iota_dimension as int) == Some(
                e@,
            ),
        },
{
    validate_iota(dtype, shape, iota_dimension)?;
    let output_shape = dram::tiled_allocation_shape(shape)?;
    let output_tiles: usize = dram::tiled_shape_tile_count(shape)?;
    let cores = kernel::select_worker_cores(available, output_tiles)?;
    Ok(IotaRequest { cores, output_tiles, output_shape })
}

/// The length of the second dimension, where there is one.
pub open spec fn second_dim(shape: Seq<usize>) -> usize {
    if shape.len() > 1 {
        shape[1]
    } else {
        1
    }
}

/// The numbers that go into one run.
pub open spec fn run_values(shape: Seq<usize>, dimension: int) -> Seq<usize> {
    seq![
        shape.len() as usize,
        shape[0],
        second_dim(shape),
        dimension as usize,
        common::tile_grid(shape).1 as usize,
    ]
}

pub open spec fn run_names() -> Seq<&'static str> {
    seq!["rank", "dim0", "dim1", "iota dimension", "output tiles per row"]
}

/// Why the numbers of one run are refused.
pub open spec fn kernel_refusal(dtype: DType, shape: Seq<usize>, dimension: int, output: u64) -> Option<
    error::Refusal,
> {
    let count = convert::u32_hex_refusal(dram::tile_count(shape)->0, "tile count"@);
    let addr = convert::u32_hex_refusal(output as int, "output address"@);
    if form_refusal(dtype, shape, dimension) is Some {
        form_refusal(dtype, shape, dimension)
    } else if dram::tile_count_refusal(shape) is Some {
        dram::tile_count_refusal(shape)
    } else if count is Some {
        count
    } else if addr is Some {
        addr
    } else {
        common::hex_fields_refusal(run_values(shape, dimension), run_names())
    }
}

/// The kernel that writes a counting tensor to an address.
pub fn iota_kernel(
    cores: Vec<CoreCoord>,
    dtype: DType,
    shape: &[usize],
    iota_dimension: usize,
    output_addr: u64,
) -> (r: Result<IotaKernel, Error>)
    ensures
        match r {
            Ok(k) => {
                &&& kernel_refusal(dtype, shape@, iota_dimension as int, output_addr) is None
                &&& k.output_addr == output_addr
                &&& k.rank == shape@.len()
                &&& k.dim0 == shape@[0]
                &&& k.dim1 == second_dim(shape@)
                &&& k.iota_dimension == iota_dimension
                &&& k.output_tiles_per_row == common::tile_grid(shape@).1
                &&& k.key.cores == cores
                &&& k.key.dtype == dtype
                &&& dram::tile_count(shape@) == Some(k.key.tile_count as int)
            },
            Err(e) => kernel_refusal(dtype, shape@, iota_dimension as int, output_addr) == Some(
                e@,
            ),
        },
{
    validate_iota(dtype, shape, iota_dimension)?;
    let tiles: usize = dram::tiled_shape_tile_count(shape)?;
    let (_rows, per_row) = common::find_tile_grid(shape)?;
    let tile_count: u32 = convert::to_u32_hex(tiles, "tile count")?;
    let output_addr: u32 = convert::address_u32_hex(output_addr, "output address")?;
    let dim1: usize = if shape.len() > 1 {
        shape[1]
    } else {
        1
    };
    let values: Vec<usize> = vec![shape.len(), shape[0], dim1, iota_dimension, per_row];
    let names: Vec<&'static str> = vec![
        "rank",
        "dim0",
        "dim1",
        "iota dimension",
        "output tiles per row",
    ];
    assert(values@ =~= run_values(shape@, iota_dimension as int));
    assert(names@ =~= run_names());
    let w = common::narrow_hex_fields(&values, &names)?;
    proof {
        common::lemma_narrowed(values@, names@);
    }
    Ok(
        IotaKernel {
            output_addr,
            rank: w[0],
            dim0: w[1],
            dim1: w[2],
            iota_dimension: w[3],
            output_tiles_per_row: w[4],
            key: IotaProgramKey { cores, tile_count, dtype },
        },
    )
}

} // verus!
