//! Lowered programs: generated sources with the packed arguments of every core.

use vstd::prelude::*;
use crate::arith;
use crate::bytes;
use crate::cores;
use crate::dispatch::MathFidelity;
use crate::dram::DType;
use crate::error;
use crate::error::Error;
use crate::hw::CoreCoord;
use crate::kernels::kernel;
use crate::kernels::kernel::{CoreArgs, PerCoreRuntimeArgs, RuntimeArgs, RuntimeArgsBuilder};

verus! {

/// A circular buffer of a kernel. The compute kernel may see its elements under
/// another type than the one in which they are stored.
#[derive(Clone, Copy, Debug, PartialEq, Eq, Structural)]
pub struct KernelCb {
    pub index: usize,
    pub dtype: DType,
    pub compute_dtype: DType,
    pub tiles: usize,
}

impl KernelCb {
    /// A double buffer.
    pub open spec fn double(index: usize, dtype: DType) -> KernelCb {
        KernelCb { index, dtype, compute_dtype: dtype, tiles: 2 }
    }

    pub fn new(index: usize, dtype: DType) -> (r: KernelCb)
        ensures
            r == KernelCb::double(index, dtype),
    {
        KernelCb { index, dtype, compute_dtype: dtype, tiles: 2 }
    }

    /// A buffer of the given number of tiles.
    pub open spec fn sized(index: usize, dtype: DType, tiles: usize) -> KernelCb {
        KernelCb { index, dtype, compute_dtype: dtype, tiles }
    }

    pub fn with_tiles(self, tiles: usize) -> (r: KernelCb)
        ensures
            r == (KernelCb { tiles, ..self }),
    {
        KernelCb {
            index: self.index,
            dtype: self.dtype,
            compute_dtype: self.compute_dtype,
            tiles,
        }
    }

    pub fn with_compute_dtype(self, compute_dtype: DType) -> (r: KernelCb)
        ensures
            r == (KernelCb { compute_dtype, ..self }),
    {
        KernelCb { index: self.index, dtype: self.dtype, compute_dtype, tiles: self.tiles }
    }
}

/// How the kernels of a program are built.
#[derive(Debug)]
pub struct CompileConfig {
    pub cbs: Vec<KernelCb>,
    pub math_fidelity: MathFidelity,
    pub approx: bool,
    pub dst_accum_mode: bool,
    pub dst_full_sync: bool,
}

/// What a contract says of a configuration.
pub struct Config {
    pub cbs: Seq<KernelCb>,
    pub math_fidelity: MathFidelity,
    pub approx: bool,
    pub dst_accum_mode: bool,
    pub dst_full_sync: bool,
}

impl View for CompileConfig {
    type V = Config;

    open spec fn view(&self) -> Config {
        Config {
            cbs: self.cbs@,
            math_fidelity: self.math_fidelity,
            approx: self.approx,
            dst_accum_mode: self.dst_accum_mode,
            dst_full_sync: self.dst_full_sync,
        }
    }
}

/// The usual configuration with the given buffers.
pub open spec fn plain_config(cbs: Seq<KernelCb>) -> Config {
    Config {
        cbs,
        math_fidelity: MathFidelity::HiFi2,
        approx: false,
        dst_accum_mode: false,
        dst_full_sync: false,
    }
}

impl CompileConfig {
    /// The usual configuration.
    pub fn plain(cbs: Vec<KernelCb>) -> (r: CompileConfig)
        ensures
            r@ == plain_config(cbs@),
    {
        CompileConfig {
            cbs,
            math_fidelity: MathFidelity::HiFi2,
            approx: false,
            dst_accum_mode: false,
            dst_full_sync: false,
        }
    }
}

/// A program whose arguments are packed core by core.
#[derive(Debug)]
pub struct LoweredProgram {
    pub reader_kernel: String,
    pub compute_kernel: String,
    pub writer_kernel: String,
    pub reader_recv_kernel: String,
    pub writer_recv_kernel: String,
    pub name: String,
    pub compile: CompileConfig,
    pub grid: Option<(Vec<u8>, Vec<u8>)>,
    pub runtime_args: RuntimeArgs,
}

impl LoweredProgram {
    /// Whether the program has no kernels for receiving cores and no grid.
    pub open spec fn is_uniform(&self) -> bool {
        &&& self.reader_recv_kernel@.len() == 0
        &&& self.writer_recv_kernel@.len() == 0
        &&& self.grid is None
    }

    /// A program that runs the same kernels on all its cores.
    pub fn uniform(
        reader_kernel: String,
        compute_kernel: String,
        writer_kernel: String,
        name: String,
        compile: CompileConfig,
        runtime_args: RuntimeArgs,
    ) -> (r: LoweredProgram)
        ensures
            r.reader_kernel@ == reader_kernel@,
            r.compute_kernel@ == compute_kernel@,
            r.writer_kernel@ == writer_kernel@,
            r.name@ == name@,
            r.compile@ == compile@,
            r.runtime_args == runtime_args,
            r.is_uniform(),
    {
        LoweredProgram {
            reader_kernel,
            compute_kernel,
            writer_kernel,
            reader_recv_kernel: String::new(),
            writer_recv_kernel: String::new(),
            name,
            compile,
            grid: None,
            runtime_args,
        }
    }
}

/// The indices of the arguments that change from run to run.
pub struct DynamicArgs {
    pub writer: Seq<usize>,
    pub reader: Seq<usize>,
    pub compute: Seq<usize>,
}

/// Whether `args` holds, for each listed core `j`, the arguments `of(j)`, in
/// ascending order of the cores.
pub open spec fn assigns(
    args: RuntimeArgs,
    listed: Seq<CoreCoord>,
    of: spec_fn(int) -> CoreArgs,
    semaphores: int,
    dynamic: DynamicArgs,
) -> bool {
    let w = 4 * of(0).0.len() as int;
    let r = 4 * of(0).1.len() as int;
    let c = 4 * of(0).2.len() as int;
    &&& args.wf()
    &&& forall|core: CoreCoord| #[trigger]
        args.core_list@.contains(core) <==> listed.contains(core)
    &&& forall|j: int|
        0 <= j < listed.len() ==> args.blob_list@[kernel::position(
            args.core_list@,
            #[trigger] listed[j],
        )]@ == kernel::args_blob(of(j), semaphores)
    &&& args.writer_bytes == w
    &&& args.reader_bytes == r
    &&& args.compute_bytes == c
    &&& args.semaphore_count == semaphores
    &&& args.semaphore_offset == arith::round_up(w + r + c, 16)
    &&& args.writer_patches@ == kernel::patch_list(dynamic.writer, 0)
    &&& args.reader_patches@ == kernel::patch_list(dynamic.reader, w)
    &&& args.compute_patches@ == kernel::patch_list(dynamic.compute, w + r)
}

/// Why core `i` of a list cannot get arguments: it occurred before.
pub open spec fn repeat_checks(listed: Seq<CoreCoord>) -> spec_fn(int) -> Option<error::Refusal> {
    |i: int|
        if listed.take(i).contains(listed[i]) {
            Some(error::invalid("duplicate runtime args for core "@ + listed[i].shown()))
        } else {
            None
        }
}

/// Why a list of cores cannot get arguments.
pub open spec fn listed_refusal(listed: Seq<CoreCoord>) -> Option<error::Refusal> {
    if listed.len() == 0 {
        Some(error::invalid("runtime args require at least one core"@))
    } else {
        error::first_refusal(0, listed.len() as int, repeat_checks(listed))
    }
}

/// What a builder holds after the first `n` of the listed cores were added.
pub open spec fn collected(
    b: RuntimeArgsBuilder,
    listed: Seq<CoreCoord>,
    of: spec_fn(int) -> CoreArgs,
    n: int,
) -> bool {
    &&& b.wf()
    &&& b.core_list@.len() == n
    &&& forall|core: CoreCoord| #[trigger]
        b.core_list@.contains(core) <==> listed.take(n).contains(core)
    &&& forall|j: int| 0 <= j < n ==> b.args_of(#[trigger] listed[j]) == of(j)
    &&& forall|j: int| 0 <= j < n ==> #[trigger] repeat_checks(listed)(j) is None
}

/// Adding the next listed core keeps count of what was collected.
pub proof fn lemma_collected_step(
    before: RuntimeArgsBuilder,
    after: RuntimeArgsBuilder,
    listed: Seq<CoreCoord>,
    of: spec_fn(int) -> CoreArgs,
    n: int,
)
    requires
        collected(before, listed, of, n),
        0 <= n < listed.len(),
        after.wf(),
        !before.core_list@.contains(listed[n]),
        after.core_list@.len() == n + 1,
        forall|c: CoreCoord| #[trigger]
            after.core_list@.contains(c) <==> before.core_list@.contains(c) || c == listed[n],
        after.args_of(listed[n]) == of(n),
        forall|c: CoreCoord|
            before.core_list@.contains(c) ==> #[trigger] after.args_of(c) == before.args_of(c),
    ensures
        collected(after, listed, of, n + 1),
{
    let prefix = listed.take(n);
    assert(listed.take(n + 1) =~= prefix.push(listed[n]));
    assert forall|core: CoreCoord| #[trigger] after.core_list@.contains(core) <==> listed.take(
        n + 1,
    ).contains(core) by {
        cores::lemma_push_contains(prefix, listed[n], core);
        assert(before.core_list@.contains(core) <==> prefix.contains(core));
    }
    assert forall|j: int| 0 <= j < n + 1 implies after.args_of(#[trigger] listed[j]) == of(j) by {
        if j < n {
            assert(prefix[j] == listed[j]);
            assert(prefix.contains(listed[j]));
            assert(before.core_list@.contains(listed[j]));
        }
    }
    assert(repeat_checks(listed)(n) is None) by {
        assert(before.core_list@.contains(listed[n]) <==> prefix.contains(listed[n]));
    }
}

/// What is packed after all listed cores were added, where the lengths of the
/// arguments are the same for all of them.
pub proof fn lemma_collected_done(
    b: RuntimeArgsBuilder,
    listed: Seq<CoreCoord>,
    of: spec_fn(int) -> CoreArgs,
)
    requires
        collected(b, listed, of, listed.len() as int),
        listed.len() > 0,
        forall|j: int|
            0 <= j < listed.len() ==> (#[trigger] of(j)).0.len() == of(0).0.len() && of(
                j,
            ).1.len() == of(0).1.len() && of(j).2.len() == of(0).2.len(),
    ensures
        b.build_refusal() is None,
        b.sizes() == (
            4 * of(0).0.len() as int,
            4 * of(0).1.len() as int,
            4 * of(0).2.len() as int,
        ),
        listed_refusal(listed) is None,
{
    let n = listed.len() as int;
    assert(listed.take(n) =~= listed);
    assert forall|k: int| 0 <= k < n implies exists|j: int|
        0 <= j < n && b.core_list@[k] == listed[j] && #[trigger] b.core_args@[k]@ == of(j) by {
        let c = b.core_list@[k];
        assert(b.core_list@.contains(c));
        assert(listed.contains(c));
        let j = choose|j: int| 0 <= j < n && listed[j] == c;
        kernel::lemma_position(b.core_list@, k);
        assert(b.args_of(listed[j]) == of(j));
    }
    assert(b.core_args@[0]@ == b.core_args@[0]@);
    let j0 = choose|j: int|
        0 <= j < n && b.core_list@[0] == listed[j] && #[trigger] b.core_args@[0]@ == of(j);
    assert(of(j0).0.len() == of(0).0.len());
    assert forall|k: int| 0 <= k < n implies #[trigger] b.length_checks()(k) is None by {
        let j = choose|j: int|
            0 <= j < n && b.core_list@[k] == listed[j] && #[trigger] b.core_args@[k]@ == of(j);
        assert(of(j).0.len() == of(0).0.len());
    }
    error::lemma_first_refusal_none(0, n, b.length_checks());
    error::lemma_first_refusal_none(0, n, repeat_checks(listed));
}

/// What was packed is what the listed cores were given.
pub proof fn lemma_assigns(
    b: RuntimeArgsBuilder,
    args: RuntimeArgs,
    listed: Seq<CoreCoord>,
    of: spec_fn(int) -> CoreArgs,
    dynamic: DynamicArgs,
)
    requires
        collected(b, listed, of, listed.len() as int),
        listed.len() > 0,
        b.sizes() == (
            4 * of(0).0.len() as int,
            4 * of(0).1.len() as int,
            4 * of(0).2.len() as int,
        ),
        args.wf(),
        args.core_list@ == b.core_list@,
        args.writer_bytes == b.sizes().0,
        args.reader_bytes == b.sizes().1,
        args.compute_bytes == b.sizes().2,
        args.semaphore_count == b.semaphores,
        args.semaphore_offset == arith::round_up(b.sizes().0 + b.sizes().1 + b.sizes().2, 16),
        args.writer_patches@ == kernel::patch_list(dynamic.writer, 0),
        args.reader_patches@ == kernel::patch_list(dynamic.reader, b.sizes().0),
        args.compute_patches@ == kernel::patch_list(dynamic.compute, b.sizes().0 + b.sizes().1),
        forall|k: int|
            0 <= k < b.core_list@.len() ==> #[trigger] args.blob_list@[k]@ == kernel::args_blob(
                b.core_args@[k]@,
                b.semaphores as int,
            ),
    ensures
        assigns(args, listed, of, b.semaphores as int, dynamic),
{
    let n = listed.len() as int;
    assert(listed.take(n) =~= listed);
    assert forall|j: int| 0 <= j < n implies args.blob_list@[kernel::position(
        args.core_list@,
        #[trigger] listed[j],
    )]@ == kernel::args_blob(of(j), b.semaphores as int) by {
        assert(listed.contains(listed[j]));
        assert(b.core_list@.contains(listed[j]));
        let k = choose|k: int| 0 <= k < b.core_list@.len() && b.core_list@[k] == listed[j];
        kernel::lemma_position(b.core_list@, k);
        assert(b.args_of(listed[j]) == of(j));
    }
}

/// Which words of the tile range of a core stand among its arguments.
#[derive(Clone, Copy, Debug, PartialEq, Eq, Structural)]
pub enum RangeWords {
    Absent,
    OffsetAndCount,
    Count,
    /// The number of tiles times a factor.
    ScaledCount(u32),
    /// The first tile and the number of tiles, both times a factor.
    ScaledRange(u32),
}

/// The arguments of one kernel: fixed words around the tile range of the core.
#[derive(Debug)]
pub struct Section {
    pub head: Vec<u32>,
    pub range: RangeWords,
    pub tail: Vec<u32>,
}

/// The words of a section for the given tile range.
pub open spec fn section_words(
    head: Seq<u32>,
    range: RangeWords,
    tail: Seq<u32>,
    offset: u32,
    count: u32,
) -> Seq<u32> {
    match range {
        RangeWords::Absent => head + tail,
        RangeWords::OffsetAndCount => head.push(offset).push(count) + tail,
        RangeWords::Count => head.push(count) + tail,
        RangeWords::ScaledCount(factor) => head.push((count * factor) as u32) + tail,
        RangeWords::ScaledRange(factor) => head.push((offset * factor) as u32).push(
            (count * factor) as u32,
        ) + tail,
    }
}

/// Whether the words of a tile range are 32-bit words.
pub open spec fn range_fits(range: RangeWords, offset: int, count: int) -> bool {
    match range {
        RangeWords::ScaledCount(factor) => count * factor <= u32::MAX,
        RangeWords::ScaledRange(factor) => count * factor <= u32::MAX && offset * factor
            <= u32::MAX,
        _ => true,
    }
}

impl Section {
    pub open spec fn at(&self, offset: u32, count: u32) -> Seq<u32> {
        section_words(self.head@, self.range, self.tail@, offset, count)
    }

    pub open spec fn words(&self) -> nat {
        self.head@.len() + self.tail@.len() + 2
    }

    /// Whether the words of all cores are 32-bit words.
    pub open spec fn fits(&self, tiles: u32, n: int) -> bool {
        forall|j: int|
            0 <= j < n ==> range_fits(
                self.range,
                (#[trigger] core_range(tiles, j, n)).0 as int,
                core_range(tiles, j, n).1 as int,
            )
    }

    fn fill(&self, offset: u32, count: u32) -> (r: Vec<u32>)
        requires
            range_fits(self.range, offset as int, count as int),
        ensures
            r@ == self.at(offset, count),
    {
        let mut out: Vec<u32> = bytes::copy_words(self.head.as_slice());
        match self.range {
            RangeWords::Absent => {},
            RangeWords::OffsetAndCount => {
                out.push(offset);
                out.push(count);
            },
            RangeWords::Count => {
                out.push(count);
            },
            RangeWords::ScaledCount(factor) => {
                out.push(count * factor);
            },
            RangeWords::ScaledRange(factor) => {
                out.push(offset * factor);
                out.push(count * factor);
            },
        }
        bytes::extend_words(&mut out, self.tail.as_slice());
        out
    }

    /// A section without arguments.
    pub fn empty() -> (r: Section)
        ensures
            r.head@.len() == 0,
            r.tail@.len() == 0,
            r.range == RangeWords::Absent,
    {
        Section { head: Vec::new(), range: RangeWords::Absent, tail: Vec::new() }
    }

    /// Fixed words, then the tile range.
    pub fn ranged(head: Vec<u32>) -> (r: Section)
        ensures
            r.head@ == head@,
            r.tail@.len() == 0,
            r.range == RangeWords::OffsetAndCount,
    {
        Section { head, range: RangeWords::OffsetAndCount, tail: Vec::new() }
    }

    /// Fixed words, then the number of tiles.
    pub fn counted(head: Vec<u32>) -> (r: Section)
        ensures
            r.head@ == head@,
            r.tail@.len() == 0,
            r.range == RangeWords::Count,
    {
        Section { head, range: RangeWords::Count, tail: Vec::new() }
    }
}

/// The tile range of core `j` of `n`.
pub open spec fn core_range(tiles: u32, j: int, n: int) -> (u32, u32) {
    (
        kernel::split_offset(tiles as int, j, n) as u32,
        kernel::split_count(tiles as int, j, n) as u32,
    )
}

/// Whether the bytes of so many words and semaphores, and the places of the words
/// that change, are machine words.
pub open spec fn countable(words: int, semaphores: int, dynamic: DynamicArgs) -> bool {
    &&& 4 * words + 15 + 16 * semaphores <= usize::MAX
    &&& kernel::indices_fit(dynamic.writer, 4 * words)
    &&& kernel::indices_fit(dynamic.reader, 4 * words)
    &&& kernel::indices_fit(dynamic.compute, 4 * words)
}

/// The arguments of each listed core when tiles are dealt out over them.
pub open spec fn split_args(
    listed: Seq<CoreCoord>,
    tiles: u32,
    writer: Section,
    reader: Section,
    compute: Section,
) -> spec_fn(int) -> CoreArgs {
    |j: int|
        {
            let (offset, count) = core_range(tiles, j, listed.len() as int);
            (writer.at(offset, count), reader.at(offset, count), compute.at(offset, count))
        }
}

/// Deals tiles out over cores and packs the arguments of each.
pub fn lower_split(
    listed: &[CoreCoord],
    tiles: u32,
    semaphores: usize,
    writer: &Section,
    reader: &Section,
    compute: &Section,
    writer_dynamic: Vec<usize>,
    reader_dynamic: Vec<usize>,
    compute_dynamic: Vec<usize>,
) -> (r: Result<RuntimeArgs, Error>)
    requires
        countable(
            (writer.words() + reader.words() + compute.words()) as int,
            semaphores as int,
            (DynamicArgs {
                writer: writer_dynamic@,
                reader: reader_dynamic@,
                compute: compute_dynamic@,
            }),
        ),
        writer.fits(tiles, listed@.len() as int),
        reader.fits(tiles, listed@.len() as int),
        compute.fits(tiles, listed@.len() as int),
    ensures
        match r {
            Ok(args) => {
                &&& listed_refusal(listed@) is None
                &&& assigns(
                    args,
                    listed@,
                    split_args(listed@, tiles, *writer, *reader, *compute),
                    semaphores as int,
                    (DynamicArgs {
                        writer: writer_dynamic@,
                        reader: reader_dynamic@,
                        compute: compute_dynamic@,
                    }),
                )
            },
            Err(e) => listed_refusal(listed@) == Some(e@),
        },
{
    let ghost dynamic = DynamicArgs {
        writer: writer_dynamic@,
        reader: reader_dynamic@,
        compute: compute_dynamic@,
    };
    let ghost of = split_args(listed@, tiles, *writer, *reader, *compute);
    let n: usize = listed.len();
    let mut builder = RuntimeArgsBuilder::new(
        semaphores,
        writer_dynamic,
        reader_dynamic,
        compute_dynamic,
    );
    assert(listed@.take(0) =~= Seq::empty());
    for i in 0..n
        invariant
            n == listed@.len(),
            of == split_args(listed@, tiles, *writer, *reader, *compute),
            collected(builder, listed@, of, i as int),
            builder.semaphores == semaphores,
            builder.writer_dynamic_indices@ == dynamic.writer,
            builder.reader_dynamic_indices@ == dynamic.reader,
            builder.compute_dynamic_indices@ == dynamic.compute,
            writer.fits(tiles, n as int),
            reader.fits(tiles, n as int),
            compute.fits(tiles, n as int),
    {
        let (offset, count) = match kernel::split_tile_range(tiles, i, n) {
            Ok(range) => range,
            Err(e) => {
                return Err(e);
            },
        };
        let core: CoreCoord = listed[i];
        let ghost before = builder;
        assert((offset, count) == core_range(tiles, i as int, n as int));
        proof {
            error::lemma_first_refusal_skip(0, i as int, n as int, repeat_checks(listed@));
            assert(before.core_list@.contains(core) <==> listed@.take(i as int).contains(core));
        }
        builder.add_core(
            core,
            writer.fill(offset, count),
            reader.fill(offset, count),
            compute.fill(offset, count),
        )?;
        proof {
            lemma_collected_step(before, builder, listed@, of, i as int);
        }
    }
    proof {
        if n > 0 {
            lemma_collected_done(builder, listed@, of);
        }
    }
    let ghost b = builder;
    let args = builder.build()?;
    proof {
        lemma_assigns(b, args, listed@, of, dynamic);
    }
    Ok(args)
}

/// The arguments of each core, given one by one.
pub open spec fn each_args(args: Seq<PerCoreRuntimeArgs>) -> spec_fn(int) -> CoreArgs {
    |j: int| args[j]@
}

/// Whether all cores have as many words as the first.
pub open spec fn even_args(args: Seq<PerCoreRuntimeArgs>) -> bool {
    forall|j: int|
        0 <= j < args.len() ==> (#[trigger] args[j])@.0.len() == args[0]@.0.len()
            && args[j]@.1.len() == args[0]@.1.len() && args[j]@.2.len() == args[0]@.2.len()
}

/// Packs the arguments of each listed core.
pub fn lower_each(
    listed: &[CoreCoord],
    each: &Vec<PerCoreRuntimeArgs>,
    writer_dynamic: Vec<usize>,
    reader_dynamic: Vec<usize>,
) -> (r: Result<RuntimeArgs, Error>)
    requires
        each@.len() == listed@.len(),
        even_args(each@),
        each@.len() > 0 ==> countable(
            (each@[0]@.0.len() + each@[0]@.1.len() + each@[0]@.2.len()) as int,
            0,
            (DynamicArgs {
                writer: writer_dynamic@,
                reader: reader_dynamic@,
                compute: Seq::empty(),
            }),
        ),
    ensures
        match r {
            Ok(args) => {
                &&& listed_refusal(listed@) is None
                &&& assigns(
                    args,
                    listed@,
                    each_args(each@),
                    0,
                    (DynamicArgs {
                        writer: writer_dynamic@,
                        reader: reader_dynamic@,
                        compute: Seq::empty(),
                    }),
                )
            },
            Err(e) => listed_refusal(listed@) == Some(e@),
        },
{
    let ghost dynamic = DynamicArgs {
        writer: writer_dynamic@,
        reader: reader_dynamic@,
        compute: Seq::empty(),
    };
    let ghost of = each_args(each@);
    let n: usize = listed.len();
    let mut builder = RuntimeArgsBuilder::new(0, writer_dynamic, reader_dynamic, Vec::new());
    assert(listed@.take(0) =~= Seq::empty());
    for i in 0..n
        invariant
            n == listed@.len() == each@.len(),
            of == each_args(each@),
            collected(builder, listed@, of, i as int),
            builder.semaphores == 0,
            builder.writer_dynamic_indices@ == dynamic.writer,
            builder.reader_dynamic_indices@ == dynamic.reader,
            builder.compute_dynamic_indices@ == dynamic.compute,
    {
        let core: CoreCoord = listed[i];
        let a = &each[i];
        let ghost before = builder;
        proof {
            error::lemma_first_refusal_skip(0, i as int, n as int, repeat_checks(listed@));
            assert(before.core_list@.contains(core) <==> listed@.take(i as int).contains(core));
        }
        builder.add_core(
            core,
            bytes::copy_words(a.writer.as_slice()),
            bytes::copy_words(a.reader.as_slice()),
            bytes::copy_words(a.compute.as_slice()),
        )?;
        proof {
            lemma_collected_step(before, builder, listed@, of, i as int);
        }
    }
    proof {
        if n > 0 {
            assert forall|j: int| 0 <= j < n implies (#[trigger] of(j)).0.len() == of(0).0.len()
                && of(j).1.len() == of(0).1.len() && of(j).2.len() == of(0).2.len() by {
                assert(each@[j]@.0.len() == each@[0]@.0.len());
            }
            lemma_collected_done(builder, listed@, of);
        }
    }
    let ghost b = builder;
    let args = builder.build()?;
    proof {
        lemma_assigns(b, args, listed@, of, dynamic);
    }
    Ok(args)
}

/// What was packed one by one is what a description of all cores says.
pub proof fn lemma_assigns_each(
    args: RuntimeArgs,
    listed: Seq<CoreCoord>,
    each: Seq<PerCoreRuntimeArgs>,
    want: spec_fn(int) -> CoreArgs,
    semaphores: int,
    dynamic: DynamicArgs,
)
    requires
        each.len() == listed.len() > 0,
        assigns(args, listed, each_args(each), semaphores, dynamic),
        forall|j: int| 0 <= j < each.len() ==> (#[trigger] each[j])@ == want(j),
    ensures
        assigns(args, listed, want, semaphores, dynamic),
{
    let of = each_args(each);
    assert(each[0]@ == want(0));
    assert(want(0) == of(0));
    assert forall|j: int| 0 <= j < listed.len() implies args.blob_list@[kernel::position(
        args.core_list@,
        #[trigger] listed[j],
    )]@ == kernel::args_blob(want(j), semaphores) by {
        assert(each[j]@ == want(j));
        assert(of(j) == want(j));
    }
}

} // verus!
