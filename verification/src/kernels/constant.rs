//! Tensors that hold one value.

use vstd::prelude::*;
use crate::convert;
use crate::dram;
use crate::dram::DType;
use crate::error;
use crate::error::Error;
use crate::hw::CoreCoord;
use crate::kernels::common;
use crate::kernels::kernel;
use crate::kernels::kernel::Kernel;
use crate::kernels::lowering;
use crate::kernels::lowering::{CompileConfig, KernelCb, LoweredProgram, Section};
use crate::text;

verus! {

/// What the program depends on.
#[derive(Clone, Debug, Hash, PartialEq, Eq)]
pub struct ConstantProgramKey {
    pub cores: Vec<CoreCoord>,
    pub dtype: DType,
    pub tile_count: u32,
}

/// The address and the value of one run.
#[derive(Clone, Debug)]
pub struct ConstantKernel {
    pub output_addr: u32,
    pub packed_word: u32,
    pub key: ConstantProgramKey,
}

impl Kernel for ConstantKernel {
    open spec fn reader_arg(&self, core: CoreCoord, index: int) -> Option<u32> {
        None
    }

    open spec fn writer_arg(&self, core: CoreCoord, index: int) -> Option<u32> {
        if index == 0 {
            Some(self.output_addr)
        } else if index == 1 {
            Some(self.packed_word)
        } else {
            None
        }
    }

    open spec fn compute_arg(&self, core: CoreCoord, index: int) -> Option<u32> {
        None
    }

    fn reader_runtime_arg(&self, core: CoreCoord, index: usize) -> (r: Option<u32>) {
        None
    }

    fn writer_runtime_arg(&self, core: CoreCoord, index: usize) -> (r: Option<u32>) {
        if index == 0 {
            Some(self.output_addr)
        } else if index == 1 {
            Some(self.packed_word)
        } else {
            None
        }
    }

    fn compute_runtime_arg(&self, core: CoreCoord, index: usize) -> (r: Option<u32>) {
        None
    }
}

/// The 32-bit word in which a value stands as often as it fits.
pub open spec fn filled_word(dtype: DType, value: u32) -> int {
    if dtype.width() == 1 {
        (value as int % 0x100) * 0x101_0101
    } else if dtype.width() == 2 {
        (value as int % 0x1_0000) * 0x1_0001
    } else {
        value as int
    }
}

/// Fills a word with a value.
pub fn repeated_word(dtype: DType, packed_value: u32) -> (r: u32)
    ensures
        r == filled_word(dtype, packed_value),
{
    let width: usize = dtype.bytes_per_element();
    if width == 1 {
        let byte: u32 = packed_value & 0xff;
        assert(byte == packed_value % 0x100) by (bit_vector)
            requires
                byte == packed_value & 0xff,
        ;
        assert(byte | (byte << 8) | (byte << 16) | (byte << 24) == byte * 0x101_0101)
            by (bit_vector)
            requires
                byte < 0x100,
        ;
        byte | (byte << 8) | (byte << 16) | (byte << 24)
    } else if width == 2 {
        let half: u32 = packed_value & 0xffff;
        assert(half == packed_value % 0x1_0000) by (bit_vector)
            requires
                half == packed_value & 0xffff,
        ;
        assert(half | (half << 16) == half * 0x1_0001) by (bit_vector)
            requires
                half < 0x1_0000,
        ;
        half | (half << 16)
    } else {
        packed_value
    }
}

/// Byte `i` of a number, counted from the lowest.
pub open spec fn byte_at(word: int, i: int) -> int {
    if i == 0 {
        word % 0x100
    } else if i == 1 {
        word / 0x100 % 0x100
    } else if i == 2 {
        word / 0x1_0000 % 0x100
    } else {
        word / 0x100_0000 % 0x100
    }
}

proof fn lemma_bytes(b0: int, b1: int, b2: int, b3: int)
    requires
        0 <= b0 < 0x100,
        0 <= b1 < 0x100,
        0 <= b2 < 0x100,
        0 <= b3 < 0x100,
    ensures
        ({
            let word = b0 + 0x100 * b1 + 0x1_0000 * b2 + 0x100_0000 * b3;
            byte_at(word, 0) == b0 && byte_at(word, 1) == b1 && byte_at(word, 2) == b2
                && byte_at(word, 3) == b3
        }),
{
    let word = b0 + 0x100 * b1 + 0x1_0000 * b2 + 0x100_0000 * b3;
    assert(word / 0x100 == b1 + 0x100 * b2 + 0x1_0000 * b3);
    assert(word / 0x1_0000 == b2 + 0x100 * b3);
    assert(word / 0x100_0000 == b3);
}

/// Each byte of a filled word is the byte of the value at the same place within an
/// element.
pub proof fn lemma_word_repeats(dtype: DType, value: u32, i: int)
    requires
        0 <= i < 4,
    ensures
        byte_at(filled_word(dtype, value), i) == byte_at(value as int, i % dtype.width()),
{
    let b0 = value as int % 0x100;
    let b1 = value as int / 0x100 % 0x100;
    assert(value as int % 0x1_0000 == b0 + 0x100 * b1);
    if dtype.width() == 1 {
        lemma_bytes(b0, b0, b0, b0);
        assert(filled_word(dtype, value) == b0 + 0x100 * b0 + 0x1_0000 * b0 + 0x100_0000 * b0);
    } else if dtype.width() == 2 {
        lemma_bytes(b0, b1, b0, b1);
        assert(filled_word(dtype, value) == b0 + 0x100 * b1 + 0x1_0000 * b0 + 0x100_0000 * b1);
    }
}

/// The buffer of the program.
pub open spec fn output_cbs(dtype: DType) -> Seq<KernelCb> {
    seq![KernelCb::double(16, dtype)]
}

pub fn list_output_cbs(dtype: DType) -> (r: Vec<KernelCb>)
    ensures
        r@ == output_cbs(dtype),
{
    let r: Vec<KernelCb> = vec![KernelCb::new(16, dtype)];
    assert(r@ =~= output_cbs(dtype));
    r
}

/// Builds the program from the source of its writer.
pub fn constant_program(key: &ConstantProgramKey, writer_source: &str) -> (r: Result<
    LoweredProgram,
    Error,
>)
    ensures
        match r {
            Ok(p) => {
                &&& lowering::listed_refusal(key.cores@) is None
                &&& p.reader_kernel@ == ""@
                &&& p.compute_kernel@ == ""@
                &&& p.writer_kernel@ == writer_source@
                &&& p.is_uniform()
                &&& p.name@ == "constant_"@ + key.dtype.shown() + "_"@ + text::dec(
                    key.cores@.len() as int,
                )
                &&& p.compile@ == lowering::plain_config(output_cbs(key.dtype))
                &&& lowering::assigns(
                    p.runtime_args,
                    key.cores@,
                    common::dealt(
                        key.cores@,
                        key.tile_count,
                        common::ranged(common::zero_words(2)),
                        common::no_words(),
                        common::no_words(),
                    ),
                    0,
                    common::first_dynamic(2, 0),
                )
            },
            Err(e) => lowering::listed_refusal(key.cores@) == Some(e@),
        },
{
    let writer = Section::ranged(common::zeros(2));
    let none = Section::empty();
    assert(writer@ == common::ranged(common::zero_words(2))) by {
        assert(writer@.tail =~= Seq::empty());
    }
    assert(none@ == common::no_words()) by {
        assert(none@.head =~= Seq::empty());
        assert(none@.tail =~= Seq::empty());
    }
    let args = common::deal(
        key.cores.as_slice(),
        key.tile_count,
        &writer,
        &none,
        &none,
        common::index_list(2),
        common::index_list(0),
    )?;
    let count = text::decimal_usize(key.cores.len());
    Ok(
        LoweredProgram::uniform(
            "".to_owned(),
            "".to_owned(),
            writer_source.to_owned(),
            text::cat4("constant_", key.dtype.name(), "_", count.as_str()),
            CompileConfig::plain(list_output_cbs(key.dtype)),
            args,
        ),
    )
}

/// Why a filled tensor cannot be written to an address.
pub open spec fn splat_refusal(available: Seq<CoreCoord>, shape: Seq<usize>, output: u64) -> Option<
    error::Refusal,
> {
    let addr = convert::u32_hex_refusal(output as int, "constant output address"@);
    if dram::tile_count_refusal(shape) is Some {
        dram::tile_count_refusal(shape)
    } else if kernel::select_refusal(available) is Some {
        kernel::select_refusal(available)
    } else if addr is Some {
        addr
    } else {
        convert::u32_refusal(dram::tile_count(shape)->0, "constant tile count"@)
    }
}

/// The kernel that fills a tensor with one value.
pub fn splat_constant(
    available: &[CoreCoord],
    dtype: DType,
    packed_value: u32,
    allocation_shape: &[usize],
    output_addr: u64,
) -> (r: Result<ConstantKernel, Error>)
    ensures
        match r {
            Ok(k) => {
                &&& splat_refusal(available@, allocation_shape@, output_addr) is None
                &&& k.output_addr == output_addr
                &&& k.packed_word == filled_word(dtype, packed_value)
                &&& k.key.dtype == dtype
                &&& dram::tile_count(allocation_shape@) == Some(k.key.tile_count as int)
                &&& k.key.cores@ == kernel::chosen_cores(available@, k.key.tile_count as int)
            },
            Err(e) => splat_refusal(available@, allocation_shape@, output_addr) == Some(e@),
        },
{
    let tiles: usize = dram::tiled_shape_tile_count(allocation_shape)?;
    let cores = kernel::select_worker_cores(available, tiles)?;
    let output_addr: u32 = convert::address_u32_hex(output_addr, "constant output address")?;
    let packed_word: u32 = repeated_word(dtype, packed_value);
    let tile_count: u32 = convert::to_u32(tiles, "constant tile count")?;
    Ok(
        ConstantKernel {
            output_addr,
            packed_word,
            key: ConstantProgramKey { cores, dtype, tile_count },
        },
    )
}

} // verus!
