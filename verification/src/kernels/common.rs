//! What the kernels have in common: checks of their tensors, addresses, tile
//! grids, generated definitions and arguments.

use vstd::prelude::*;
use crate::arith;
use crate::convert;
use crate::dram;
use crate::dram::{DType, DramBuffer};
use crate::error;
use crate::error::Error;
use crate::hw::CoreCoord;
use crate::kernels::kernel::{CoreArgs, Kernel, RuntimeArgs};
use crate::kernels::lowering;
use crate::kernels::lowering::{DynamicArgs, KernelCb, RangeWords, Section};
use crate::text;

verus! {

/// Why a tensor is refused: its type is not the wanted one.
pub open spec fn type_refusal(label: Seq<char>, have: DType, want: DType) -> Option<
    error::Refusal,
> {
    if have != want {
        Some(
            error::invalid(label + " requires "@ + want.shown() + ", got "@ + have.shown()),
        )
    } else {
        None
    }
}

pub fn check_type(label: &str, have: DType, want: DType) -> (r: Result<(), Error>)
    ensures
        match r {
            Ok(_) => type_refusal(label@, have, want) is None,
            Err(e) => type_refusal(label@, have, want) == Some(e@),
        },
{
    if have != want {
        return Err(
            error::invalid_input(
                text::cat5(label, " requires ", want.name(), ", got ", have.name()),
            ),
        );
    }
    Ok(())
}

/// Why a tensor is refused: it is not laid out for the given shape.
pub open spec fn layout_refusal(
    label: Seq<char>,
    have: Seq<usize>,
    tiles: int,
    shape: Seq<usize>,
) -> Option<error::Refusal> {
    if dram::tiled_shape_refusal(shape) is Some {
        dram::tiled_shape_refusal(shape)
    } else if have != dram::tiled_shape(shape) {
        Some(
            error::invalid(
                label + " allocation shape mismatch: got "@ + text::list_text(arith::ints(have))
                    + ", expected "@ + text::list_text(arith::ints(dram::tiled_shape(shape)))
                    + " for logical shape "@ + text::list_text(arith::ints(shape)),
            ),
        )
    } else if dram::tile_count_refusal(shape) is Some {
        dram::tile_count_refusal(shape)
    } else if tiles != dram::tile_count(shape)->0 {
        Some(
            error::invalid(
                label + " tile count mismatch: got "@ + text::dec(tiles) + ", expected "@
                    + text::dec(dram::tile_count(shape)->0),
            ),
        )
    } else {
        None
    }
}

pub fn check_layout(label: &str, input: &DramBuffer, shape: &[usize]) -> (r: Result<(), Error>)
    ensures
        match r {
            Ok(_) => layout_refusal(
                label@,
                input.shape@,
                input.num_tiles as int,
                shape@,
            ) is None,
            Err(e) => layout_refusal(label@, input.shape@, input.num_tiles as int, shape@) == Some(
                e@,
            ),
        },
{
    let expected = dram::tiled_allocation_shape(shape)?;
    if !arith::same_usizes(input.shape.as_slice(), expected.as_slice()) {
        return Err(
            error::invalid_input(
                text::cat7(
                    label,
                    " allocation shape mismatch: got ",
                    text::shape_text(input.shape.as_slice()).as_str(),
                    ", expected ",
                    text::shape_text(expected.as_slice()).as_str(),
                    " for logical shape ",
                    text::shape_text(shape).as_str(),
                ),
            ),
        );
    }
    let tiles: usize = dram::tiled_shape_tile_count(shape)?;
    if input.num_tiles != tiles {
        return Err(
            error::invalid_input(
                text::cat5(
                    label,
                    " tile count mismatch: got ",
                    text::decimal_usize(input.num_tiles).as_str(),
                    ", expected ",
                    text::decimal_usize(tiles).as_str(),
                ),
            ),
        );
    }
    Ok(())
}

/// Why a tensor is refused as an input.
pub open spec fn input_refusal(
    label: Seq<char>,
    input: DramBuffer,
    dtype: DType,
    shape: Seq<usize>,
) -> Option<error::Refusal> {
    if type_refusal(label, input.dtype, dtype) is Some {
        type_refusal(label, input.dtype, dtype)
    } else {
        layout_refusal(label, input.shape@, input.num_tiles as int, shape)
    }
}

/// Checks the type and the layout of an input.
pub fn check_input(label: &str, input: &DramBuffer, dtype: DType, shape: &[usize]) -> (r: Result<
    (),
    Error,
>)
    ensures
        match r {
            Ok(_) => input_refusal(label@, *input, dtype, shape@) is None,
            Err(e) => input_refusal(label@, *input, dtype, shape@) == Some(e@),
        },
{
    check_type(label, input.dtype, dtype)?;
    check_layout(label, input, shape)
}

/// The tiles from top to bottom and from left to right of one matrix of a tensor.
pub open spec fn tile_grid(shape: Seq<usize>) -> (int, int) {
    let a = dram::tiled_shape(shape);
    (a[a.len() - 2] as int / 32, a[a.len() - 1] as int / 32)
}

/// Finds the rows and columns of tiles of a tensor.
pub fn find_tile_grid(shape: &[usize]) -> (r: Result<(usize, usize), Error>)
    ensures
        match r {
            Ok(g) => dram::tiled_shape_refusal(shape@) is None && (g.0 as int, g.1 as int)
                == tile_grid(shape@),
            Err(e) => dram::tiled_shape_refusal(shape@) == Some(e@),
        },
{
    let a = dram::tiled_allocation_shape(shape)?;
    proof {
        dram::lemma_tiled_shape(shape@);
    }
    let n: usize = a.len();
    Ok((a[n - 2] / 32, a[n - 1] / 32))
}

/// Why value `i` of a list of named values is no 32-bit word; the values are shown
/// in hexadecimal.
pub open spec fn hex_field_checks(values: Seq<usize>, names: Seq<&str>) -> spec_fn(int) -> Option<
    error::Refusal,
> {
    |i: int| convert::u32_hex_refusal(values[i] as int, names[i]@)
}

pub open spec fn hex_fields_refusal(values: Seq<usize>, names: Seq<&str>) -> Option<
    error::Refusal,
> {
    error::first_refusal(0, values.len() as int, hex_field_checks(values, names))
}

/// Narrows named values, in order.
pub fn narrow_hex_fields(values: &Vec<usize>, names: &Vec<&str>) -> (r: Result<Vec<u32>, Error>)
    requires
        values@.len() == names@.len(),
    ensures
        match r {
            Ok(words) => hex_fields_refusal(values@, names@) is None && words@
                == convert::field_words(values@),
            Err(e) => hex_fields_refusal(values@, names@) == Some(e@),
        },
{
    let n: usize = values.len();
    let ghost checks = hex_field_checks(values@, names@);
    let mut out: Vec<u32> = Vec::new();
    for i in 0..n
        invariant
            n == values@.len() == names@.len(),
            checks == hex_field_checks(values@, names@),
            out@ == convert::field_words(values@).take(i as int),
            forall|j: int| 0 <= j < i ==> #[trigger] checks(j) is None,
    {
        proof {
            error::lemma_first_refusal_skip(0, i as int, n as int, checks);
        }
        let word: u32 = convert::to_u32_hex(values[i], names[i])?;
        out.push(word);
        assert(out@ =~= convert::field_words(values@).take(i + 1));
        assert(checks(i as int) is None);
    }
    proof {
        error::lemma_first_refusal_none(0, n as int, checks);
    }
    assert(out@ =~= convert::field_words(values@));
    Ok(out)
}

/// Values that fit keep their value.
pub proof fn lemma_narrowed(values: Seq<usize>, names: Seq<&str>)
    requires
        hex_fields_refusal(values, names) is None,
    ensures
        forall|i: int|
            0 <= i < values.len() ==> #[trigger] convert::field_words(values)[i] == values[i],
{
    let checks = hex_field_checks(values, names);
    error::lemma_first_refusal_none(0, values.len() as int, checks);
    assert forall|i: int| 0 <= i < values.len() implies #[trigger] convert::field_words(values)[i]
        == values[i] by {
        assert(checks(i) is None);
    }
}

/// Why value `i` of a list of signed numbers is no 32-bit word.
pub open spec fn index_checks(values: Seq<i64>, name: Seq<char>) -> spec_fn(int) -> Option<
    error::Refusal,
> {
    |i: int|
        if 0 <= values[i] <= u32::MAX {
            None
        } else {
            Some(
                error::invalid(
                    name + " "@ + text::dec(i) + " does not fit in u32: "@ + text::dec(
                        values[i] as int,
                    ),
                ),
            )
        }
}

/// The values as 32-bit words.
pub open spec fn index_words(values: Seq<i64>) -> Seq<u32> {
    values.map_values(|v: i64| v as u32)
}

/// Narrows signed numbers to 32-bit words.
pub fn u32_indices(values: &[i64], name: &str) -> (r: Result<Vec<u32>, Error>)
    ensures
        ({
            let refusal = error::first_refusal(
                0,
                values@.len() as int,
                index_checks(values@, name@),
            );
            match r {
                Ok(words) => refusal is None && words@ == index_words(values@),
                Err(e) => refusal == Some(e@),
            }
        }),
{
    let n: usize = values.len();
    let ghost checks = index_checks(values@, name@);
    let mut out: Vec<u32> = Vec::new();
    for i in 0..n
        invariant
            n == values@.len(),
            checks == index_checks(values@, name@),
            out@ == index_words(values@).take(i as int),
            forall|j: int| 0 <= j < i ==> #[trigger] checks(j) is None,
    {
        proof {
            error::lemma_first_refusal_skip(0, i as int, n as int, checks);
        }
        let v: i64 = values[i];
        if v < 0 || v > 0xffff_ffff {
            assert(checks(i as int) is Some);
            return Err(
                error::invalid_input(
                    text::cat5(
                        name,
                        " ",
                        text::decimal_usize(i).as_str(),
                        " does not fit in u32: ",
                        text::decimal_i64(v).as_str(),
                    ),
                ),
            );
        }
        assert(checks(i as int) is None);
        out.push(v as u32);
        assert(out@ =~= index_words(values@).take(i + 1));
    }
    proof {
        error::lemma_first_refusal_none(0, n as int, checks);
    }
    assert(out@ =~= index_words(values@));
    Ok(out)
}

/// A definition at the top of a generated source.
pub open spec fn definition(name: Seq<char>, value: Seq<char>) -> Seq<char> {
    "#define "@ + name + " "@ + value + "\n"@
}

pub fn defined(name: &str, value: &str) -> (r: String)
    ensures
        r@ == definition(name@, value@),
{
    text::cat5("#define ", name, " ", value, "\n")
}

/// Appends a definition.
pub fn define(out: &mut String, name: &str, value: &str)
    ensures
        final(out)@ == old(out)@ + definition(name@, value@),
{
    let line = defined(name, value);
    out.append(line.as_str());
}

/// Appends the definition of a number.
pub fn define_word(out: &mut String, name: &str, value: u32)
    ensures
        final(out)@ == old(out)@ + definition(name@, text::dec(value as int)),
{
    let v = text::decimal_u32(value);
    define(out, name, v.as_str());
}

/// Appends the definition of a list of numbers.
pub fn define_words(out: &mut String, name: &str, values: &Vec<u32>)
    ensures
        final(out)@ == old(out)@ + definition(name@, text::cpp_array(text::ints_u32(values@))),
{
    let v = text::cpp_u32_array(values.as_slice());
    define(out, name, v.as_str());
}

/// A truth value as a number.
pub open spec fn flag(b: bool) -> int {
    if b {
        1
    } else {
        0
    }
}

pub fn flag_word(b: bool) -> (r: u32)
    ensures
        r == flag(b),
{
    if b {
        1
    } else {
        0
    }
}

/// The word of the generated code that holds an element, by its width.
pub open spec fn element_word(dtype: DType) -> Seq<char> {
    match dtype {
        DType::Float32 | DType::Int32 | DType::UInt32 => "uint32_t"@,
        DType::Float16 | DType::Float16B | DType::UInt16 => "uint16_t"@,
        DType::Int8 | DType::UInt8 => "uint8_t"@,
    }
}

pub fn element_type(dtype: DType) -> (r: &'static str)
    ensures
        r@ == element_word(dtype),
{
    match dtype {
        DType::Float32 | DType::Int32 | DType::UInt32 => "uint32_t",
        DType::Float16 | DType::Float16B | DType::UInt16 => "uint16_t",
        DType::Int8 | DType::UInt8 => "uint8_t",
    }
}

/// The fixed words of a section and the place of the tile range among them.
pub struct SectionWords {
    pub head: Seq<u32>,
    pub range: RangeWords,
    pub tail: Seq<u32>,
}

impl View for Section {
    type V = SectionWords;

    open spec fn view(&self) -> SectionWords {
        SectionWords { head: self.head@, range: self.range, tail: self.tail@ }
    }
}

/// No arguments.
pub open spec fn no_words() -> SectionWords {
    fixed(Seq::empty())
}

/// Words that are the same for all cores.
pub open spec fn fixed(head: Seq<u32>) -> SectionWords {
    SectionWords { head, range: RangeWords::Absent, tail: Seq::empty() }
}

/// Fixed words, then the tile range.
pub open spec fn ranged(head: Seq<u32>) -> SectionWords {
    SectionWords { head, range: RangeWords::OffsetAndCount, tail: Seq::empty() }
}

/// The number of tiles.
pub open spec fn counted() -> SectionWords {
    SectionWords { head: Seq::empty(), range: RangeWords::Count, tail: Seq::empty() }
}

/// So many zeros, which stand for addresses.
pub open spec fn zero_words(n: int) -> Seq<u32> {
    Seq::new(n as nat, |i: int| 0u32)
}

/// The numbers below `n`.
pub open spec fn indices(n: int) -> Seq<usize> {
    Seq::new(n as nat, |i: int| i as usize)
}

pub fn zeros(n: usize) -> (r: Vec<u32>)
    ensures
        r@ == zero_words(n as int),
{
    let mut out: Vec<u32> = Vec::new();
    for i in 0..n
        invariant
            out@ == zero_words(i as int),
    {
        out.push(0);
        assert(out@ =~= zero_words(i + 1));
    }
    out
}

pub fn index_list(n: usize) -> (r: Vec<usize>)
    ensures
        r@ == indices(n as int),
{
    let mut out: Vec<usize> = Vec::new();
    for i in 0..n
        invariant
            out@ == indices(i as int),
    {
        out.push(i);
        assert(out@ =~= indices(i + 1));
    }
    out
}

/// The words of a section for a tile range.
pub open spec fn words_at(s: SectionWords, range: (u32, u32)) -> Seq<u32> {
    lowering::section_words(s.head, s.range, s.tail, range.0, range.1)
}

/// The arguments of each core when tiles are dealt out over the cores.
pub open spec fn dealt(
    listed: Seq<CoreCoord>,
    tiles: u32,
    writer: SectionWords,
    reader: SectionWords,
    compute: SectionWords,
) -> spec_fn(int) -> CoreArgs {
    |j: int|
        {
            let range = lowering::core_range(tiles, j, listed.len() as int);
            (words_at(writer, range), words_at(reader, range), words_at(compute, range))
        }
}

/// The arguments that change from run to run: the first ones of the writer and of
/// the reader.
pub open spec fn first_dynamic(writer: int, reader: int) -> DynamicArgs {
    DynamicArgs { writer: indices(writer), reader: indices(reader), compute: Seq::empty() }
}

/// Deals tiles out over cores and packs the arguments of each.
pub fn deal(
    listed: &[CoreCoord],
    tiles: u32,
    writer: &Section,
    reader: &Section,
    compute: &Section,
    writer_dynamic: Vec<usize>,
    reader_dynamic: Vec<usize>,
) -> (r: Result<RuntimeArgs, Error>)
    requires
        lowering::countable(
            (writer.words() + reader.words() + compute.words()) as int,
            0,
            (DynamicArgs {
                writer: writer_dynamic@,
                reader: reader_dynamic@,
                compute: Seq::empty(),
            }),
        ),
        writer.fits(tiles, listed@.len() as int),
        reader.fits(tiles, listed@.len() as int),
        compute.fits(tiles, listed@.len() as int),
    ensures
        match r {
            Ok(args) => lowering::listed_refusal(listed@) is None && lowering::assigns(
                args,
                listed@,
                dealt(listed@, tiles, writer@, reader@, compute@),
                0,
                (DynamicArgs {
                    writer: writer_dynamic@,
                    reader: reader_dynamic@,
                    compute: Seq::empty(),
                }),
            ),
            Err(e) => lowering::listed_refusal(listed@) == Some(e@),
        },
{
    let args = lowering::lower_split(
        listed,
        tiles,
        0,
        writer,
        reader,
        compute,
        writer_dynamic,
        reader_dynamic,
        Vec::new(),
    )?;
    proof {
        let of = lowering::split_args(listed@, tiles, *writer, *reader, *compute);
        let want = dealt(listed@, tiles, writer@, reader@, compute@);
        assert forall|j: int| #[trigger] of(j) == want(j) by {}
        assert(of =~= want);
    }
    Ok(args)
}

/// The arguments of a kernel that takes the addresses of its inputs and the tile
/// range, and writes its output in the same range.
pub open spec fn copied(listed: Seq<CoreCoord>, tiles: u32, inputs: int) -> spec_fn(
    int,
) -> CoreArgs {
    dealt(listed, tiles, ranged(zero_words(1)), ranged(zero_words(inputs)), no_words())
}

/// Packs the arguments of such a kernel.
pub fn deal_copies(listed: &[CoreCoord], tiles: u32, inputs: usize) -> (r: Result<
    RuntimeArgs,
    Error,
>)
    requires
        8 * inputs + 64 <= usize::MAX,
    ensures
        match r {
            Ok(args) => lowering::listed_refusal(listed@) is None && lowering::assigns(
                args,
                listed@,
                copied(listed@, tiles, inputs as int),
                0,
                first_dynamic(1, inputs as int),
            ),
            Err(e) => lowering::listed_refusal(listed@) == Some(e@),
        },
{
    let writer = Section::ranged(zeros(1));
    let reader = Section::ranged(zeros(inputs));
    let compute = Section::empty();
    let writer_dynamic = index_list(1);
    let reader_dynamic = index_list(inputs);
    assert(writer@ == ranged(zero_words(1))) by {
        assert(writer@.tail =~= Seq::empty());
    }
    assert(reader@ == ranged(zero_words(inputs as int))) by {
        assert(reader@.tail =~= Seq::empty());
    }
    assert(compute@ == no_words()) by {
        assert(compute@.head =~= Seq::empty());
        assert(compute@.tail =~= Seq::empty());
    }
    deal(listed, tiles, &writer, &reader, &compute, writer_dynamic, reader_dynamic)
}

/// What a checked operation needs to run: the key of its program and the tensor
/// that it writes.
#[derive(Clone, Debug)]
pub struct KernelRequest<K> {
    pub key: K,
    pub output_tiles: usize,
    pub output_shape: Vec<usize>,
}

/// A tensor that is to be allocated.
#[derive(Clone, Debug)]
pub struct NewBuffer {
    pub num_tiles: usize,
    pub dtype: DType,
    pub shape: Vec<usize>,
    pub name: String,
}

/// The tile grids of an input and of an output, and the tiles of the output.
#[derive(Clone, Copy, Debug)]
pub struct PairTiles {
    pub input_rows: usize,
    pub input_cols: usize,
    pub output_rows: usize,
    pub output_cols: usize,
    pub tiles: usize,
}

/// Why two shapes cannot be laid out in tiles.
pub open spec fn pair_tiles_refusal(input: Seq<usize>, output: Seq<usize>) -> Option<
    error::Refusal,
> {
    if dram::tiled_shape_refusal(input) is Some {
        dram::tiled_shape_refusal(input)
    } else if dram::tiled_shape_refusal(output) is Some {
        dram::tiled_shape_refusal(output)
    } else {
        dram::tile_count_refusal(output)
    }
}

impl PairTiles {
    /// Whether these are the tiles of the given shapes.
    pub open spec fn of(&self, input: Seq<usize>, output: Seq<usize>) -> bool {
        &&& (self.input_rows as int, self.input_cols as int) == tile_grid(input)
        &&& (self.output_rows as int, self.output_cols as int) == tile_grid(output)
        &&& dram::tile_count(output) == Some(self.tiles as int)
    }

    pub fn new(input: &[usize], output: &[usize]) -> (r: Result<PairTiles, Error>)
        ensures
            match r {
                Ok(t) => pair_tiles_refusal(input@, output@) is None && t.of(input@, output@),
                Err(e) => pair_tiles_refusal(input@, output@) == Some(e@),
            },
    {
        let (input_rows, input_cols) = find_tile_grid(input)?;
        let (output_rows, output_cols) = find_tile_grid(output)?;
        let tiles: usize = dram::tiled_shape_tile_count(output)?;
        Ok(PairTiles { input_rows, input_cols, output_rows, output_cols, tiles })
    }
}

/// A kernel that takes the addresses of its inputs and of its output, with the key
/// of its program.
#[derive(Clone, Debug)]
pub struct DramKernel<K> {
    pub reader_addrs: Vec<u32>,
    pub output_addr: u32,
    pub key: K,
}

impl<K> Kernel for DramKernel<K> {
    open spec fn reader_arg(&self, core: CoreCoord, index: int) -> Option<u32> {
        if 0 <= index < self.reader_addrs@.len() {
            Some(self.reader_addrs@[index])
        } else {
            None
        }
    }

    open spec fn writer_arg(&self, core: CoreCoord, index: int) -> Option<u32> {
        if index == 0 {
            Some(self.output_addr)
        } else {
            None
        }
    }

    open spec fn compute_arg(&self, core: CoreCoord, index: int) -> Option<u32> {
        None
    }

    fn reader_runtime_arg(&self, core: CoreCoord, index: usize) -> (r: Option<u32>) {
        if index < self.reader_addrs.len() {
            Some(self.reader_addrs[index])
        } else {
            None
        }
    }

    fn writer_runtime_arg(&self, core: CoreCoord, index: usize) -> (r: Option<u32>) {
        if index == 0 {
            Some(self.output_addr)
        } else {
            None
        }
    }

    fn compute_runtime_arg(&self, core: CoreCoord, index: usize) -> (r: Option<u32>) {
        None
    }
}

/// The name of the address of input `i`.
pub open spec fn address_name(i: int) -> Seq<char> {
    "input "@ + text::dec(i) + " address"@
}

/// Why the address of input `i` is no 32-bit word.
pub open spec fn address_checks<'a>(inputs: Seq<&'a DramBuffer>) -> spec_fn(int) -> Option<
    error::Refusal,
> {
    |i: int| convert::u32_hex_refusal(inputs[i].addr as int, address_name(i))
}

/// Why the addresses of a run are refused.
pub open spec fn inputs_refusal<'a>(inputs: Seq<&'a DramBuffer>, output: u64) -> Option<
    error::Refusal,
> {
    let each = error::first_refusal(0, inputs.len() as int, address_checks(inputs));
    if each is Some {
        each
    } else {
        convert::u32_hex_refusal(output as int, "output address"@)
    }
}

/// The addresses of the inputs.
pub open spec fn input_addrs<'a>(inputs: Seq<&'a DramBuffer>) -> Seq<u32> {
    inputs.map_values(|b: &'a DramBuffer| b.addr as u32)
}

/// Makes a kernel of the addresses of its inputs and of its output.
pub fn inputs_kernel<'a, K>(inputs: &[&'a DramBuffer], output: u64, key: K) -> (r: Result<
    DramKernel<K>,
    Error,
>)
    ensures
        match r {
            Ok(k) => {
                &&& inputs_refusal(inputs@, output) is None
                &&& k.reader_addrs@ == input_addrs(inputs@)
                &&& k.output_addr == output
                &&& k.key == key
            },
            Err(e) => inputs_refusal(inputs@, output) == Some(e@),
        },
{
    let n: usize = inputs.len();
    let ghost checks = address_checks(inputs@);
    let ghost all = input_addrs(inputs@);
    let mut reader_addrs: Vec<u32> = Vec::new();
    for i in 0..n
        invariant
            n == inputs@.len(),
            checks == address_checks(inputs@),
            all == input_addrs(inputs@),
            reader_addrs@ == all.take(i as int),
            forall|j: int| 0 <= j < i ==> #[trigger] checks(j) is None,
    {
        proof {
            error::lemma_first_refusal_skip(0, i as int, n as int, checks);
        }
        let name = text::cat3("input ", text::decimal_usize(i).as_str(), " address");
        let a: u32 = convert::address_u32_hex(inputs[i].addr, name.as_str())?;
        reader_addrs.push(a);
        assert(reader_addrs@ =~= all.take(i + 1));
        assert(checks(i as int) is None);
    }
    proof {
        error::lemma_first_refusal_none(0, n as int, checks);
    }
    assert(reader_addrs@ =~= all);
    let output_addr: u32 = convert::address_u32_hex(output, "output address")?;
    Ok(DramKernel { reader_addrs, output_addr, key })
}

/// Why the address of the input or of the output of a run is refused.
pub open spec fn pair_refusal(
    input: u64,
    input_name: Seq<char>,
    output: u64,
    output_name: Seq<char>,
) -> Option<error::Refusal> {
    if convert::u32_hex_refusal(input as int, input_name) is Some {
        convert::u32_hex_refusal(input as int, input_name)
    } else {
        convert::u32_hex_refusal(output as int, output_name)
    }
}

/// Makes a kernel of the addresses of its input and of its output.
pub fn pair_kernel<K>(input: u64, input_name: &str, output: u64, output_name: &str, key: K) -> (r:
    Result<DramKernel<K>, Error>)
    ensures
        match r {
            Ok(k) => {
                &&& pair_refusal(input, input_name@, output, output_name@) is None
                &&& k.reader_addrs@ == seq![input as u32]
                &&& k.output_addr == output
                &&& k.key == key
            },
            Err(e) => pair_refusal(input, input_name@, output, output_name@) == Some(e@),
        },
{
    let input_addr: u32 = convert::address_u32_hex(input, input_name)?;
    let output_addr: u32 = convert::address_u32_hex(output, output_name)?;
    let reader_addrs: Vec<u32> = vec![input_addr];
    assert(reader_addrs@ =~= seq![input as u32]);
    Ok(DramKernel { reader_addrs, output_addr, key })
}

/// Why an address of two inputs and of the output of a run is refused.
pub open spec fn triple_refusal(
    first: u64,
    first_name: Seq<char>,
    second: u64,
    second_name: Seq<char>,
    output: u64,
    output_name: Seq<char>,
) -> Option<error::Refusal> {
    if convert::u32_hex_refusal(first as int, first_name) is Some {
        convert::u32_hex_refusal(first as int, first_name)
    } else {
        pair_refusal(second, second_name, output, output_name)
    }
}

/// Makes a kernel of the addresses of its two inputs and of its output.
pub fn triple_kernel<K>(
    first: u64,
    first_name: &str,
    second: u64,
    second_name: &str,
    output: u64,
    output_name: &str,
    key: K,
) -> (r: Result<DramKernel<K>, Error>)
    ensures
        ({
            let refusal = triple_refusal(
                first,
                first_name@,
                second,
                second_name@,
                output,
                output_name@,
            );
            match r {
                Ok(k) => {
                    &&& refusal is None
                    &&& k.reader_addrs@ == seq![first as u32, second as u32]
                    &&& k.output_addr == output
                    &&& k.key == key
                },
                Err(e) => refusal == Some(e@),
            }
        }),
{
    let a: u32 = convert::address_u32_hex(first, first_name)?;
    let b: u32 = convert::address_u32_hex(second, second_name)?;
    let output_addr: u32 = convert::address_u32_hex(output, output_name)?;
    let reader_addrs: Vec<u32> = vec![a, b];
    assert(reader_addrs@ =~= seq![first as u32, second as u32]);
    Ok(DramKernel { reader_addrs, output_addr, key })
}

/// The buffers of a kernel with two inputs of one type.
pub open spec fn two_input_cbs(input: DType, output: DType) -> Seq<KernelCb> {
    seq![KernelCb::double(0, input), KernelCb::double(1, input), KernelCb::double(16, output)]
}

pub fn list_two_input_cbs(input: DType, output: DType) -> (r: Vec<KernelCb>)
    ensures
        r@ == two_input_cbs(input, output),
{
    let r: Vec<KernelCb> = vec![
        KernelCb::new(0, input),
        KernelCb::new(1, input),
        KernelCb::new(16, output),
    ];
    assert(r@ =~= two_input_cbs(input, output));
    r
}

} // verus!
