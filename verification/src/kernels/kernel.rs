//! What all kernels share: arguments of cores, tile ranges and lowered programs.

use vstd::prelude::*;
use vstd::arithmetic::div_mod::*;
use crate::arith;
use crate::bytes;
use crate::cores;
use crate::dispatch;
use crate::error;
use crate::error::Error;
use crate::hw::CoreCoord;
use crate::text;

verus! {

/// The arguments of the writer, the reader and the compute kernel of a core.
pub type CoreArgs = (Seq<u32>, Seq<u32>, Seq<u32>);

/// The arguments of the three kernels of a core.
#[derive(Debug)]
pub struct PerCoreRuntimeArgs {
    pub writer: Vec<u32>,
    pub reader: Vec<u32>,
    pub compute: Vec<u32>,
}

impl View for PerCoreRuntimeArgs {
    type V = CoreArgs;

    open spec fn view(&self) -> CoreArgs {
        (self.writer@, self.reader@, self.compute@)
    }
}

/// Where an argument that changes from run to run stands in the packed arguments.
#[derive(Clone, Copy, Debug, PartialEq, Eq, Structural)]
pub struct RuntimeArgPatchGroup {
    pub index: usize,
    pub offset: usize,
}

/// The packed arguments of all cores of a program.
#[derive(Clone, Debug)]
pub struct RuntimeArgs {
    pub core_list: Vec<CoreCoord>,
    pub writer_bytes: usize,
    pub reader_bytes: usize,
    pub compute_bytes: usize,
    pub semaphore_count: usize,
    pub semaphore_offset: usize,
    pub writer_patches: Vec<RuntimeArgPatchGroup>,
    pub reader_patches: Vec<RuntimeArgPatchGroup>,
    pub compute_patches: Vec<RuntimeArgPatchGroup>,
    pub blob_list: Vec<Vec<u8>>,
}

/// A source of the arguments that change from run to run.
pub trait Kernel {
    /// What the reader gets at an index; nothing, unless a kernel says otherwise.
    open spec fn reader_arg(&self, core: CoreCoord, index: int) -> Option<u32> {
        None
    }

    /// What the writer gets at an index; nothing, unless a kernel says otherwise.
    open spec fn writer_arg(&self, core: CoreCoord, index: int) -> Option<u32> {
        None
    }

    /// What the compute kernel gets at an index; nothing, unless a kernel says otherwise.
    open spec fn compute_arg(&self, core: CoreCoord, index: int) -> Option<u32> {
        None
    }

    fn reader_runtime_arg(&self, core: CoreCoord, index: usize) -> (r: Option<u32>)
        ensures
            r == self.reader_arg(core, index as int),
    ;

    fn writer_runtime_arg(&self, core: CoreCoord, index: usize) -> (r: Option<u32>)
        ensures
            r == self.writer_arg(core, index as int),
    ;

    fn compute_runtime_arg(&self, core: CoreCoord, index: usize) -> (r: Option<u32>)
        ensures
            r == self.compute_arg(core, index as int),
    ;
}

/// The three groups of arguments of a core.
#[derive(Clone, Copy, Debug, PartialEq, Eq, Structural)]
pub enum ArgSection {
    Reader,
    Writer,
    Compute,
}

/// The argument that a kernel gives for a section.
pub open spec fn section_arg<K: Kernel>(
    kernel: &K,
    section: ArgSection,
    core: CoreCoord,
    index: int,
) -> Option<u32> {
    match section {
        ArgSection::Reader => kernel.reader_arg(core, index),
        ArgSection::Writer => kernel.writer_arg(core, index),
        ArgSection::Compute => kernel.compute_arg(core, index),
    }
}

/// Why the argument of one patch cannot be written into the blob of core `k`.
pub open spec fn patch_checks<K: Kernel>(
    kernel: &K,
    section: ArgSection,
    cores: Seq<CoreCoord>,
    lens: Seq<nat>,
    patch: RuntimeArgPatchGroup,
) -> spec_fn(int) -> Option<error::Refusal> {
    |k: int|
        if section_arg(kernel, section, cores[k], patch.index as int) is None {
            Some(
                error::invalid(
                    "missing dynamic runtime arg value for index "@ + text::dec(patch.index as int)
                        + " on core "@ + cores[k].shown(),
                ),
            )
        } else if patch.offset + 4 > lens[k] {
            Some(
                error::invalid(
                    "runtime arg patch offset "@ + text::dec(patch.offset as int)
                        + " exceeds blob size "@ + text::dec(lens[k] as int),
                ),
            )
        } else {
            None
        }
}

/// Why a patch cannot be applied to all cores.
pub open spec fn section_checks<K: Kernel>(
    kernel: &K,
    section: ArgSection,
    cores: Seq<CoreCoord>,
    lens: Seq<nat>,
    patches: Seq<RuntimeArgPatchGroup>,
) -> spec_fn(int) -> Option<error::Refusal> {
    |g: int|
        error::first_refusal(
            0,
            lens.len() as int,
            patch_checks(kernel, section, cores, lens, patches[g]),
        )
}

/// Why the patches of a section cannot be applied.
pub open spec fn section_refusal<K: Kernel>(
    kernel: &K,
    section: ArgSection,
    cores: Seq<CoreCoord>,
    lens: Seq<nat>,
    patches: Seq<RuntimeArgPatchGroup>,
) -> Option<error::Refusal> {
    error::first_refusal(
        0,
        patches.len() as int,
        section_checks(kernel, section, cores, lens, patches),
    )
}

/// The lengths of the blobs.
pub open spec fn blob_lens(blobs: Seq<Vec<u8>>) -> Seq<nat> {
    blobs.map_values(|b: Vec<u8>| b@.len())
}

/// The blob of a core after the first `n` patches of a section were applied.
pub open spec fn patched<K: Kernel>(
    kernel: &K,
    section: ArgSection,
    core: CoreCoord,
    blob: Seq<u8>,
    patches: Seq<RuntimeArgPatchGroup>,
    n: int,
) -> Seq<u8>
    decreases n,
{
    if n <= 0 {
        blob
    } else {
        bytes::overwritten(
            patched(kernel, section, core, blob, patches, n - 1),
            patches[n - 1].offset as int,
            bytes::le4(section_arg(kernel, section, core, patches[n - 1].index as int)->0 as int),
        )
    }
}

/// Whether byte `i` belongs to one of the patches.
pub open spec fn in_patches(patches: Seq<RuntimeArgPatchGroup>, i: int) -> bool {
    exists|g: int|
        0 <= g < patches.len() && (#[trigger] patches[g]).offset <= i < patches[g].offset + 4
}

/// Whether `after` differs from `before` in the bytes of the patches only.
pub open spec fn only_patched(
    before: Seq<u8>,
    after: Seq<u8>,
    patches: Seq<RuntimeArgPatchGroup>,
) -> bool {
    &&& after.len() == before.len()
    &&& forall|i: int|
        0 <= i < before.len() && !in_patches(patches, i) ==> #[trigger] after[i] == before[i]
}

/// Applying patches leaves all other bytes as they are.
pub proof fn lemma_patched_frame<K: Kernel>(
    kernel: &K,
    section: ArgSection,
    core: CoreCoord,
    blob: Seq<u8>,
    patches: Seq<RuntimeArgPatchGroup>,
    n: int,
)
    requires
        0 <= n <= patches.len(),
    ensures
        only_patched(blob, patched(kernel, section, core, blob, patches, n), patches),
    decreases n,
{
    if n > 0 {
        lemma_patched_frame(kernel, section, core, blob, patches, n - 1);
        let after = patched(kernel, section, core, blob, patches, n);
        assert forall|i: int| 0 <= i < blob.len() && !in_patches(patches, i) implies #[trigger] after[i]
            == blob[i] by {
            if patches[n - 1].offset <= i < patches[n - 1].offset + 4 {
                assert(in_patches(patches, i));
            }
        }
    }
}

/// Whether the patches can be located.
pub open spec fn patches_wf(patches: Seq<RuntimeArgPatchGroup>) -> bool {
    forall|g: int| 0 <= g < patches.len() ==> (#[trigger] patches[g]).offset + 4 <= usize::MAX
}

/// Whether the patches of a section were applied, one after the other to all cores, up
/// to the first that is refused.
pub open spec fn stopped<K: Kernel>(
    kernel: &K,
    section: ArgSection,
    cores: Seq<CoreCoord>,
    lens: Seq<nat>,
    patches: Seq<RuntimeArgPatchGroup>,
    before: spec_fn(int) -> Seq<u8>,
    after: Seq<Vec<u8>>,
) -> bool {
    exists|g: int, k: int|
        {
            &&& 0 <= g < patches.len()
            &&& 0 <= k < lens.len()
            &&& #[trigger] patch_checks(kernel, section, cores, lens, patches[g])(k) is Some
            &&& forall|h: int|
                0 <= h < g ==> #[trigger] section_checks(kernel, section, cores, lens, patches)(h)
                    is None
            &&& forall|j: int|
                0 <= j < k ==> #[trigger] patch_checks(kernel, section, cores, lens, patches[g])(j)
                    is None
            &&& forall|j: int|
                0 <= j < lens.len() ==> #[trigger] after[j]@ == patched(
                    kernel,
                    section,
                    cores[j],
                    before(j),
                    patches,
                    if j < k {
                        g + 1
                    } else {
                        g
                    },
                )
        }
}

fn patch_section<K: Kernel>(
    blobs: &mut Vec<Vec<u8>>,
    cores: &[CoreCoord],
    patches: &[RuntimeArgPatchGroup],
    kernel: &K,
    section: ArgSection,
) -> (r: Result<(), Error>)
    requires
        old(blobs)@.len() == cores@.len(),
        patches_wf(patches@),
    ensures
        final(blobs)@.len() == old(blobs)@.len(),
        blob_lens(final(blobs)@) == blob_lens(old(blobs)@),
        forall|k: int|
            0 <= k < old(blobs)@.len() ==> only_patched(
                old(blobs)@[k]@,
                #[trigger] final(blobs)@[k]@,
                patches@,
            ),
        match r {
            Ok(_) => {
                &&& section_refusal(
                    kernel,
                    section,
                    cores@,
                    blob_lens(old(blobs)@),
                    patches@,
                ) is None
                &&& forall|k: int|
                    0 <= k < old(blobs)@.len() ==> #[trigger] final(blobs)@[k]@ == patched(
                        kernel,
                        section,
                        cores@[k],
                        old(blobs)@[k]@,
                        patches@,
                        patches@.len() as int,
                    )
            },
            Err(e) => {
                &&& section_refusal(
                    kernel,
                    section,
                    cores@,
                    blob_lens(old(blobs)@),
                    patches@,
                ) == Some(e@)
                &&& stopped(
                    kernel,
                    section,
                    cores@,
                    blob_lens(old(blobs)@),
                    patches@,
                    |j: int| old(blobs)@[j]@,
                    final(blobs)@,
                )
            },
        },
{
    let n: usize = blobs.len();
    let ghost lens = blob_lens(old(blobs)@);
    let ghost old_blobs = old(blobs)@;
    for g in 0..patches.len()
        invariant
            n == cores@.len() == old_blobs.len() == lens.len(),
            blobs@.len() == n,
            lens == blob_lens(old_blobs),
            old_blobs == old(blobs)@,
            patches_wf(patches@),
            forall|k: int|
                0 <= k < n ==> #[trigger] blobs@[k]@ == patched(
                    kernel,
                    section,
                    cores@[k],
                    old_blobs[k]@,
                    patches@,
                    g as int,
                ),
            forall|h: int|
                0 <= h < g ==> #[trigger] section_checks(kernel, section, cores@, lens, patches@)(h)
                    is None,
    {
        let patch: RuntimeArgPatchGroup = patches[g];
        proof {
            error::lemma_first_refusal_skip(
                0,
                g as int,
                patches@.len() as int,
                section_checks(kernel, section, cores@, lens, patches@),
            );
        }
        for k in 0..n
            invariant
                n == cores@.len() == old_blobs.len() == lens.len(),
                blobs@.len() == n,
                lens == blob_lens(old_blobs),
                old_blobs == old(blobs)@,
                0 <= g < patches@.len(),
                patch == patches@[g as int],
                patches_wf(patches@),
                section_refusal(kernel, section, cores@, lens, patches@) == error::first_refusal(
                    g as int,
                    patches@.len() as int,
                    section_checks(kernel, section, cores@, lens, patches@),
                ),
                forall|j: int|
                    0 <= j < n ==> #[trigger] blobs@[j]@ == patched(
                        kernel,
                        section,
                        cores@[j],
                        old_blobs[j]@,
                        patches@,
                        if j < k {
                            g + 1
                        } else {
                            g as int
                        },
                    ),
                forall|h: int|
                    0 <= h < g ==> #[trigger] section_checks(
                        kernel,
                        section,
                        cores@,
                        lens,
                        patches@,
                    )(h) is None,
                forall|j: int|
                    0 <= j < k ==> #[trigger] patch_checks(kernel, section, cores@, lens, patch)(j)
                        is None,
        {
            let core: CoreCoord = cores[k];
            proof {
                error::lemma_first_refusal_skip(
                    0,
                    k as int,
                    n as int,
                    patch_checks(kernel, section, cores@, lens, patch),
                );
                assert forall|j: int| 0 <= j < n implies #[trigger] blobs@[j]@.len() == lens[j]
                    && only_patched(old_blobs[j]@, blobs@[j]@, patches@) by {
                    lemma_patched_frame(
                        kernel,
                        section,
                        cores@[j],
                        old_blobs[j]@,
                        patches@,
                        if j < k {
                            g + 1
                        } else {
                            g as int
                        },
                    );
                }
                assert(blob_lens(blobs@) =~= lens);
                assert(patch.offset + 4 <= usize::MAX);
            }
            let value: Option<u32> = match section {
                ArgSection::Reader => kernel.reader_runtime_arg(core, patch.index),
                ArgSection::Writer => kernel.writer_runtime_arg(core, patch.index),
                ArgSection::Compute => kernel.compute_runtime_arg(core, patch.index),
            };
            match value {
                None => {
                    assert(patch_checks(kernel, section, cores@, lens, patches@[g as int])(k as int)
                        is Some);
                    return Err(
                        error::invalid_input(
                            text::cat4(
                                "missing dynamic runtime arg value for index ",
                                text::decimal_usize(patch.index).as_str(),
                                " on core ",
                                core.to_string().as_str(),
                            ),
                        ),
                    );
                },
                Some(v) => {
                    let blob_len: usize = blobs[k].len();
                    if patch.offset + 4 > blob_len {
                        assert(patch_checks(kernel, section, cores@, lens, patches@[g as int])(
                            k as int,
                        ) is Some);
                        return Err(
                            error::invalid_input(
                                text::cat4(
                                    "runtime arg patch offset ",
                                    text::decimal_usize(patch.offset).as_str(),
                                    " exceeds blob size ",
                                    text::decimal_usize(blob_len).as_str(),
                                ),
                            ),
                        );
                    }
                    bytes::put_u32(&mut blobs[k], patch.offset, v);
                    assert(patch_checks(kernel, section, cores@, lens, patch)(k as int) is None);
                },
            }
        }
        proof {
            error::lemma_first_refusal_none(
                0,
                n as int,
                patch_checks(kernel, section, cores@, lens, patch),
            );
            assert(section_checks(kernel, section, cores@, lens, patches@)(g as int) is None);
        }
    }
    proof {
        error::lemma_first_refusal_none(
            0,
            patches@.len() as int,
            section_checks(kernel, section, cores@, lens, patches@),
        );
        assert forall|k: int| 0 <= k < n implies only_patched(
            old_blobs[k]@,
            #[trigger] blobs@[k]@,
            patches@,
        ) by {
            lemma_patched_frame(
                kernel,
                section,
                cores@[k],
                old_blobs[k]@,
                patches@,
                patches@.len() as int,
            );
        }
        assert(blob_lens(blobs@) =~= lens);
    }
    Ok(())
}

/// Why the arguments of a kernel cannot be written: the sections are tried in
/// the order reader, writer, compute.
pub open spec fn update_refusal<K: Kernel>(args: &RuntimeArgs, kernel: &K) -> Option<error::Refusal> {
    let lens = blob_lens(args.blob_list@);
    let cores = args.core_list@;
    if section_refusal(kernel, ArgSection::Reader, cores, lens, args.reader_patches@) is Some {
        section_refusal(kernel, ArgSection::Reader, cores, lens, args.reader_patches@)
    } else if section_refusal(kernel, ArgSection::Writer, cores, lens, args.writer_patches@)
        is Some {
        section_refusal(kernel, ArgSection::Writer, cores, lens, args.writer_patches@)
    } else {
        section_refusal(kernel, ArgSection::Compute, cores, lens, args.compute_patches@)
    }
}

/// The blob of core `k` with the arguments of the reader written into it.
pub open spec fn reader_blob<K: Kernel>(args: &RuntimeArgs, kernel: &K, k: int) -> Seq<u8> {
    patched(
        kernel,
        ArgSection::Reader,
        args.core_list@[k],
        args.blob_list@[k]@,
        args.reader_patches@,
        args.reader_patches@.len() as int,
    )
}

/// The blob of core `k` with the arguments of the reader and the writer written into it.
pub open spec fn writer_blob<K: Kernel>(args: &RuntimeArgs, kernel: &K, k: int) -> Seq<u8> {
    patched(
        kernel,
        ArgSection::Writer,
        args.core_list@[k],
        reader_blob(args, kernel, k),
        args.writer_patches@,
        args.writer_patches@.len() as int,
    )
}

/// The blob of core `k` with the arguments of a kernel written into it.
pub open spec fn updated_blob<K: Kernel>(args: &RuntimeArgs, kernel: &K, k: int) -> Seq<u8> {
    patched(
        kernel,
        ArgSection::Compute,
        args.core_list@[k],
        writer_blob(args, kernel, k),
        args.compute_patches@,
        args.compute_patches@.len() as int,
    )
}

/// Whether the arguments of a kernel were written up to the first that is refused.
pub open spec fn update_stopped<K: Kernel>(
    args: &RuntimeArgs,
    kernel: &K,
    after: Seq<Vec<u8>>,
) -> bool {
    let lens = blob_lens(args.blob_list@);
    let cores = args.core_list@;
    if section_refusal(kernel, ArgSection::Reader, cores, lens, args.reader_patches@) is Some {
        stopped(
            kernel,
            ArgSection::Reader,
            cores,
            lens,
            args.reader_patches@,
            |k: int| args.blob_list@[k]@,
            after,
        )
    } else if section_refusal(kernel, ArgSection::Writer, cores, lens, args.writer_patches@)
        is Some {
        stopped(
            kernel,
            ArgSection::Writer,
            cores,
            lens,
            args.writer_patches@,
            |k: int| reader_blob(args, kernel, k),
            after,
        )
    } else {
        stopped(
            kernel,
            ArgSection::Compute,
            cores,
            lens,
            args.compute_patches@,
            |k: int| writer_blob(args, kernel, k),
            after,
        )
    }
}

impl RuntimeArgs {
    pub open spec fn wf(&self) -> bool {
        &&& cores::ascending(self.core_list@)
        &&& self.blob_list@.len() == self.core_list@.len()
        &&& patches_wf(self.writer_patches@)
        &&& patches_wf(self.reader_patches@)
        &&& patches_wf(self.compute_patches@)
    }

    /// The patches of all sections.
    pub open spec fn all_patches(&self) -> Seq<RuntimeArgPatchGroup> {
        self.reader_patches@ + self.writer_patches@ + self.compute_patches@
    }

    pub fn cores(&self) -> (r: &[CoreCoord])
        ensures
            r@ == self.core_list@,
    {
        self.core_list.as_slice()
    }

    pub fn blobs(&self) -> (r: &[Vec<u8>])
        ensures
            r@ == self.blob_list@,
    {
        self.blob_list.as_slice()
    }

    /// Bytes of the writer, the reader and the compute arguments.
    pub fn section_sizes(&self) -> (r: (usize, usize, usize))
        ensures
            r == (self.writer_bytes, self.reader_bytes, self.compute_bytes),
    {
        (self.writer_bytes, self.reader_bytes, self.compute_bytes)
    }

    pub fn semaphores(&self) -> (r: usize)
        ensures
            r == self.semaphore_count,
    {
        self.semaphore_count
    }

    pub fn sem_offset(&self) -> (r: usize)
        ensures
            r == self.semaphore_offset,
    {
        self.semaphore_offset
    }

    /// Writes the arguments of a kernel that change from run to run, up to the first that is
    /// refused.
    pub fn update_from_kernel<K: Kernel>(&mut self, kernel: &K) -> (r: Result<(), Error>)
        requires
            old(self).wf(),
        ensures
            final(self).wf(),
            final(self).core_list@ == old(self).core_list@,
            final(self).blob_list@.len() == old(self).blob_list@.len(),
            final(self).reader_patches@ == old(self).reader_patches@,
            final(self).writer_patches@ == old(self).writer_patches@,
            final(self).compute_patches@ == old(self).compute_patches@,
            final(self).writer_bytes == old(self).writer_bytes,
            final(self).reader_bytes == old(self).reader_bytes,
            final(self).compute_bytes == old(self).compute_bytes,
            final(self).semaphore_count == old(self).semaphore_count,
            final(self).semaphore_offset == old(self).semaphore_offset,
            forall|k: int|
                0 <= k < old(self).blob_list@.len() ==> only_patched(
                    old(self).blob_list@[k]@,
                    #[trigger] final(self).blob_list@[k]@,
                    old(self).all_patches(),
                ),
            match r {
                Ok(_) => {
                    &&& update_refusal(old(self), kernel) is None
                    &&& forall|k: int|
                        0 <= k < old(self).blob_list@.len() ==> #[trigger] final(self).blob_list@[k]@ == updated_blob(old(self), kernel, k)
                },
                Err(e) => {
                    &&& update_refusal(old(self), kernel) == Some(e@)
                    &&& update_stopped(old(self), kernel, final(self).blob_list@)
                },
            },
    {
        let ghost start = *self;
        let ghost all = self.all_patches();
        let r = patch_section(
            &mut self.blob_list,
            self.core_list.as_slice(),
            self.reader_patches.as_slice(),
            kernel,
            ArgSection::Reader,
        );
        let ghost one = self.blob_list@;
        proof {
            assert forall|k: int| 0 <= k < start.blob_list@.len() implies only_patched(
                start.blob_list@[k]@,
                #[trigger] self.blob_list@[k]@,
                all,
            ) by {
                lemma_only_patched_widen(
                    start.blob_list@[k]@,
                    self.blob_list@[k]@,
                    start.reader_patches@,
                    all,
                    0,
                );
            }
        }
        r?;
        let r = patch_section(
            &mut self.blob_list,
            self.core_list.as_slice(),
            self.writer_patches.as_slice(),
            kernel,
            ArgSection::Writer,
        );
        let ghost two = self.blob_list@;
        proof {
            assert forall|k: int| 0 <= k < start.blob_list@.len() implies only_patched(
                start.blob_list@[k]@,
                #[trigger] self.blob_list@[k]@,
                all,
            ) by {
                assert(only_patched(start.blob_list@[k]@, one[k]@, all));
                lemma_only_patched_widen(
                    one[k]@,
                    self.blob_list@[k]@,
                    start.writer_patches@,
                    all,
                    start.reader_patches@.len() as int,
                );
            }
        }
        r?;
        let r = patch_section(
            &mut self.blob_list,
            self.core_list.as_slice(),
            self.compute_patches.as_slice(),
            kernel,
            ArgSection::Compute,
        );
        proof {
            assert forall|k: int| 0 <= k < start.blob_list@.len() implies only_patched(
                start.blob_list@[k]@,
                #[trigger] self.blob_list@[k]@,
                all,
            ) by {
                assert(only_patched(start.blob_list@[k]@, two[k]@, all));
                lemma_only_patched_widen(
                    two[k]@,
                    self.blob_list@[k]@,
                    start.compute_patches@,
                    all,
                    (start.reader_patches@.len() + start.writer_patches@.len()) as int,
                );
            }
        }
        r
    }
}

proof fn lemma_only_patched_widen(
    before: Seq<u8>,
    after: Seq<u8>,
    part: Seq<RuntimeArgPatchGroup>,
    all: Seq<RuntimeArgPatchGroup>,
    at: int,
)
    requires
        only_patched(before, after, part),
        0 <= at,
        at + part.len() <= all.len(),
        forall|g: int| 0 <= g < part.len() ==> #[trigger] part[g] == all[at + g],
    ensures
        only_patched(before, after, all),
{
    assert forall|i: int| 0 <= i < before.len() && !in_patches(all, i) implies #[trigger] after[i]
        == before[i] by {
        if in_patches(part, i) {
            let g = choose|g: int|
                0 <= g < part.len() && (#[trigger] part[g]).offset <= i < part[g].offset + 4;
            assert(all[at + g].offset <= i < all[at + g].offset + 4);
        }
    }
}

/// Collects the arguments of the cores of a program.
#[derive(Debug)]
pub struct RuntimeArgsBuilder {
    pub core_list: Vec<CoreCoord>,
    pub core_args: Vec<PerCoreRuntimeArgs>,
    pub semaphores: usize,
    pub writer_dynamic_indices: Vec<usize>,
    pub reader_dynamic_indices: Vec<usize>,
    pub compute_dynamic_indices: Vec<usize>,
}

/// The position of a core in a list.
pub open spec fn position(list: Seq<CoreCoord>, core: CoreCoord) -> int {
    choose|k: int| 0 <= k < list.len() && list[k] == core
}

/// In a list without repetitions a core has one position.
pub proof fn lemma_position(list: Seq<CoreCoord>, k: int)
    requires
        cores::ascending(list),
        0 <= k < list.len(),
    ensures
        position(list, list[k]) == k,
{
    let p = position(list, list[k]);
    assert(list[p] == list[k]);
    if p < k {
        assert(list[p].before(list[k]));
    } else if k < p {
        assert(list[k].before(list[p]));
    }
}

impl RuntimeArgsBuilder {
    pub open spec fn wf(&self) -> bool {
        &&& cores::ascending(self.core_list@)
        &&& self.core_args@.len() == self.core_list@.len()
    }

    /// The arguments of a core.
    pub open spec fn args_of(&self, core: CoreCoord) -> CoreArgs {
        self.core_args@[position(self.core_list@, core)]@
    }

    pub fn new(
        semaphores: usize,
        writer_dynamic_indices: Vec<usize>,
        reader_dynamic_indices: Vec<usize>,
        compute_dynamic_indices: Vec<usize>,
    ) -> (b: RuntimeArgsBuilder)
        ensures
            b.wf(),
            b.core_list@.len() == 0,
            b.semaphores == semaphores,
            b.writer_dynamic_indices@ == writer_dynamic_indices@,
            b.reader_dynamic_indices@ == reader_dynamic_indices@,
            b.compute_dynamic_indices@ == compute_dynamic_indices@,
    {
        RuntimeArgsBuilder {
            core_list: Vec::new(),
            core_args: Vec::new(),
            semaphores,
            writer_dynamic_indices,
            reader_dynamic_indices,
            compute_dynamic_indices,
        }
    }

    /// Whether all but the cores and their arguments is as in `other`.
    pub open spec fn same_layout(&self, other: &RuntimeArgsBuilder) -> bool {
        &&& self.semaphores == other.semaphores
        &&& self.writer_dynamic_indices@ == other.writer_dynamic_indices@
        &&& self.reader_dynamic_indices@ == other.reader_dynamic_indices@
        &&& self.compute_dynamic_indices@ == other.compute_dynamic_indices@
    }

    /// Adds a core; a core can be added once only.
    pub fn add_core(
        &mut self,
        core: CoreCoord,
        writer: Vec<u32>,
        reader: Vec<u32>,
        compute: Vec<u32>,
    ) -> (r: Result<(), Error>)
        requires
            old(self).wf(),
        ensures
            final(self).wf(),
            final(self).same_layout(old(self)),
            match r {
                Ok(_) => {
                    &&& !old(self).core_list@.contains(core)
                    &&& final(self).core_list@.len() == old(self).core_list@.len() + 1
                    &&& forall|c: CoreCoord| #[trigger]
                        final(self).core_list@.contains(c) <==> old(self).core_list@.contains(c)
                            || c == core
                    &&& final(self).args_of(core) == (writer@, reader@, compute@)
                    &&& forall|c: CoreCoord|
                        old(self).core_list@.contains(c) ==> #[trigger] final(self).args_of(c)
                            == old(self).args_of(c)
                },
                Err(e) => {
                    &&& old(self).core_list@.contains(core)
                    &&& e@ == error::invalid("duplicate runtime args for core "@ + core.shown())
                    &&& *final(self) == *old(self)
                },
            },
    {
        let ghost before = *self;
        let ghost old_list = self.core_list@;
        let mut at: usize = 0;
        while at < self.core_list.len() && self.core_list[at].is_before(core)
            invariant
                at <= self.core_list@.len(),
                *self == before,
                before.wf(),
                old_list == before.core_list@,
                forall|k: int| 0 <= k < at ==> (#[trigger] old_list[k]).before(core),
            decreases self.core_list@.len() - at,
        {
            at = at + 1;
        }
        if at < self.core_list.len() && self.core_list[at] == core {
            assert(old_list[at as int] == core);
            return Err(
                error::invalid_input(
                    text::cat2("duplicate runtime args for core ", core.to_string().as_str()),
                ),
            );
        }
        proof {
            if old_list.contains(core) {
                let k = choose|k: int| 0 <= k < old_list.len() && old_list[k] == core;
                if k > at {
                    assert(old_list[at as int].before(old_list[k]));
                }
            }
        }
        let args = PerCoreRuntimeArgs { writer, reader, compute };
        let ghost av = args@;
        self.core_list.insert(at, core);
        self.core_args.insert(at, args);
        proof {
            let now = self.core_list@;
            assert forall|a: int, b: int| 0 <= a < b < now.len() implies (#[trigger] now[a]).before(
                #[trigger] now[b],
            ) by {
                if a < at && b == at {
                    assert(old_list[a].before(core));
                } else if a == at && b > at {
                    if b - 1 > at {
                        assert(old_list[at as int].before(old_list[b - 1]));
                    }
                } else if a < at && b > at {
                    assert(old_list[a].before(old_list[b - 1]));
                } else if b < at {
                    assert(old_list[a].before(old_list[b]));
                } else {
                    assert(old_list[a - 1].before(old_list[b - 1]));
                }
            }
            lemma_position(now, at as int);
            assert(now[at as int] == core);
            assert(now.contains(core));
            assert(self.args_of(core) == av);
            assert forall|c: CoreCoord| old_list.contains(c) implies #[trigger] self.args_of(c)
                == before.args_of(c) && now.contains(c) by {
                let k = choose|k: int| 0 <= k < old_list.len() && old_list[k] == c;
                lemma_position(old_list, k);
                let k2 = if k < at {
                    k
                } else {
                    k + 1
                };
                assert(now[k2] == c);
                lemma_position(now, k2);
            }
            assert forall|c: CoreCoord| #[trigger] now.contains(c) <==> old_list.contains(c) || c
                == core by {
                if now.contains(c) {
                    let k = choose|k: int| 0 <= k < now.len() && now[k] == c;
                    if k < at {
                        assert(old_list[k] == c);
                    } else if k > at {
                        assert(old_list[k - 1] == c);
                    }
                }
                if old_list.contains(c) {
                    assert(self.args_of(c) == before.args_of(c));
                }
            }
        }
        Ok(())
    }

    /// Bytes of the writer, the reader and the compute arguments of the first core.
    pub open spec fn sizes(&self) -> (int, int, int) {
        let first = self.core_args@[0]@;
        (4 * first.0.len() as int, 4 * first.1.len() as int, 4 * first.2.len() as int)
    }

    /// Why the arguments of core `i` do not fit in with those of the first.
    pub open spec fn length_checks(&self) -> spec_fn(int) -> Option<error::Refusal> {
        |i: int|
            {
                let a = self.core_args@[i]@;
                if (4 * a.0.len() as int, 4 * a.1.len() as int, 4 * a.2.len() as int)
                    == self.sizes() {
                    None
                } else {
                    Some(
                        error::invalid(
                            "runtime arg section lengths for core "@ + self.core_list@[i].shown()
                                + " do not match the first core"@,
                        ),
                    )
                }
            }
    }

    /// Why the arguments cannot be packed.
    pub open spec fn build_refusal(&self) -> Option<error::Refusal> {
        if self.core_list@.len() == 0 {
            Some(error::invalid("runtime args require at least one core"@))
        } else {
            error::first_refusal(0, self.core_list@.len() as int, self.length_checks())
        }
    }

    /// Whether offsets in the packed arguments are machine words.
    pub open spec fn addressable(&self) -> bool {
        self.core_list@.len() > 0 ==> {
            let (w, r, c) = self.sizes();
            &&& w + r + c + 15 + self.semaphores * 16 <= usize::MAX
            &&& indices_fit(self.writer_dynamic_indices@, 0)
            &&& indices_fit(self.reader_dynamic_indices@, w)
            &&& indices_fit(self.compute_dynamic_indices@, w + r)
        }
    }

    /// Packs the arguments of all cores.
    pub fn build(self) -> (r: Result<RuntimeArgs, Error>)
        requires
            self.wf(),
            self.addressable(),
        ensures
            match r {
                Ok(args) => {
                    let (w, rd, c) = self.sizes();
                    &&& self.build_refusal() is None
                    &&& args.wf()
                    &&& args.core_list@ == self.core_list@
                    &&& args.writer_bytes == w
                    &&& args.reader_bytes == rd
                    &&& args.compute_bytes == c
                    &&& args.semaphore_count == self.semaphores
                    &&& args.semaphore_offset == arith::round_up(w + rd + c, 16)
                    &&& args.writer_patches@ == patch_list(self.writer_dynamic_indices@, 0)
                    &&& args.reader_patches@ == patch_list(self.reader_dynamic_indices@, w)
                    &&& args.compute_patches@ == patch_list(self.compute_dynamic_indices@, w + rd)
                    &&& forall|k: int|
                        0 <= k < self.core_list@.len() ==> #[trigger] args.blob_list@[k]@
                            == args_blob(
                            self.core_args@[k]@,
                            self.semaphores as int,
                        )
                },
                Err(e) => self.build_refusal() == Some(e@),
            },
    {
        let n: usize = self.core_list.len();
        if n == 0 {
            return Err(error::invalid_text("runtime args require at least one core"));
        }
        let writer_bytes: usize = 4 * self.core_args[0].writer.len();
        let reader_bytes: usize = 4 * self.core_args[0].reader.len();
        let compute_bytes: usize = 4 * self.core_args[0].compute.len();
        let total: usize = writer_bytes + reader_bytes + compute_bytes;
        proof {
            arith::lemma_round_up(total as int, 16);
        }
        let sem_offset: usize = arith::div_ceil(total, 16) * 16;
        let writer_patches = section_patches(self.writer_dynamic_indices.as_slice(), 0);
        let reader_patches = section_patches(self.reader_dynamic_indices.as_slice(), writer_bytes);
        let compute_patches = section_patches(
            self.compute_dynamic_indices.as_slice(),
            writer_bytes + reader_bytes,
        );
        let mut blobs: Vec<Vec<u8>> = Vec::new();
        for i in 0..n
            invariant
                n == self.core_list@.len() == self.core_args@.len(),
                n > 0,
                self.wf(),
                (writer_bytes as int, reader_bytes as int, compute_bytes as int) == self.sizes(),
                total == writer_bytes + reader_bytes + compute_bytes,
                total + 15 + self.semaphores * 16 <= usize::MAX,
                sem_offset == arith::round_up(total as int, 16),
                sem_offset < total + 16,
                blobs@.len() == i,
                forall|k: int|
                    0 <= k < i ==> #[trigger] blobs@[k]@ == args_blob(
                        self.core_args@[k]@,
                        self.semaphores as int,
                    ),
                forall|j: int| 0 <= j < i ==> #[trigger] self.length_checks()(j) is None,
        {
            proof {
                error::lemma_first_refusal_skip(0, i as int, n as int, self.length_checks());
            }
            let args: &PerCoreRuntimeArgs = &self.core_args[i];
            let core: CoreCoord = self.core_list[i];
            if args.writer.len() != writer_bytes / 4 || args.reader.len() != reader_bytes / 4
                || args.compute.len() != compute_bytes / 4 {
                return Err(
                    error::invalid_input(
                        text::cat3(
                            "runtime arg section lengths for core ",
                            core.to_string().as_str(),
                            " do not match the first core",
                        ),
                    ),
                );
            }
            assert(self.length_checks()(i as int) is None);
            let blob = dispatch::pack_rta(
                args.writer.as_slice(),
                args.reader.as_slice(),
                args.compute.as_slice(),
                self.semaphores,
                sem_offset,
            );
            assert(blob@ == args_blob(args@, self.semaphores as int)) by {
                assert(4 * (args.writer@.len() + args.reader@.len() + args.compute@.len())
                    == total);
            }
            blobs.push(blob);
        }
        proof {
            error::lemma_first_refusal_none(0, n as int, self.length_checks());
        }
        let RuntimeArgsBuilder { core_list, semaphores, .. } = self;
        Ok(
            RuntimeArgs {
                core_list,
                writer_bytes,
                reader_bytes,
                compute_bytes,
                semaphore_count: semaphores,
                semaphore_offset: sem_offset,
                writer_patches,
                reader_patches,
                compute_patches,
                blob_list: blobs,
            },
        )
    }
}

/// The packed arguments of one core, semaphores behind them.
pub open spec fn args_blob(args: CoreArgs, semaphores: int) -> Seq<u8> {
    dispatch::packed_args(
        args.0,
        args.1,
        args.2,
        semaphores,
        arith::round_up(4 * (args.0.len() + args.1.len() + args.2.len()) as int, 16),
    )
}

/// Whether each index has a byte offset behind `base`.
pub open spec fn indices_fit(indices: Seq<usize>, base: int) -> bool {
    forall|i: int| 0 <= i < indices.len() ==> base + 4 * (#[trigger] indices[i]) + 4 <= usize::MAX
}

/// The patches of arguments that start at byte `base`.
pub open spec fn patch_list(indices: Seq<usize>, base: int) -> Seq<RuntimeArgPatchGroup> {
    Seq::new(
        indices.len(),
        |i: int|
            RuntimeArgPatchGroup { index: indices[i], offset: (base + 4 * indices[i]) as usize },
    )
}

fn section_patches(indices: &[usize], base_offset: usize) -> (r: Vec<RuntimeArgPatchGroup>)
    requires
        indices_fit(indices@, base_offset as int),
    ensures
        r@ == patch_list(indices@, base_offset as int),
        patches_wf(r@),
{
    let mut out: Vec<RuntimeArgPatchGroup> = Vec::new();
    for i in 0..indices.len()
        invariant
            indices_fit(indices@, base_offset as int),
            out@ == patch_list(indices@, base_offset as int).take(i as int),
            patches_wf(out@),
    {
        let index: usize = indices[i];
        assert(base_offset + 4 * indices@[i as int] + 4 <= usize::MAX);
        out.push(RuntimeArgPatchGroup { index, offset: base_offset + index * 4 });
        assert(out@ =~= patch_list(indices@, base_offset as int).take(i + 1));
    }
    assert(out@ =~= patch_list(indices@, base_offset as int));
    out
}

/// Why no worker cores can be chosen.
pub open spec fn select_refusal(available: Seq<CoreCoord>) -> Option<error::Refusal> {
    if available.len() == 0 {
        Some(error::invalid("no worker cores are available"@))
    } else {
        None
    }
}

/// The cores for a number of tiles: one for each tile, as far as there are cores.
pub open spec fn chosen_cores(available: Seq<CoreCoord>, tile_count: int) -> Seq<CoreCoord> {
    available.take(arith::min2(available.len() as int, arith::max2(tile_count, 1)))
}

pub fn select_worker_cores(available: &[CoreCoord], tile_count: usize) -> (r: Result<
    Vec<CoreCoord>,
    Error,
>)
    ensures
        match r {
            Ok(list) => {
                &&& select_refusal(available@) is None
                &&& list@ == chosen_cores(available@, tile_count as int)
                &&& list@.len() > 0
            },
            Err(e) => select_refusal(available@) == Some(e@),
        },
{
    if available.len() == 0 {
        return Err(error::invalid_text("no worker cores are available"));
    }
    let n: usize = arith::min_usize(available.len(), arith::max_usize(tile_count, 1));
    Ok(cores::copy_cores(available, n))
}

/// First tile of core `i` of `n`.
pub open spec fn split_offset(tiles: int, i: int, n: int) -> int {
    i * (tiles / n) + arith::min2(i, tiles % n)
}

/// Number of tiles of core `i` of `n`.
pub open spec fn split_count(tiles: int, i: int, n: int) -> int {
    tiles / n + (if i < tiles % n {
        1int
    } else {
        0int
    })
}

/// The ranges of the cores follow each other without gaps from the first tile
/// to the last, and differ in length by at most one.
pub proof fn lemma_split_partitions(tiles: int, i: int, n: int)
    requires
        tiles >= 0,
        0 <= i < n,
    ensures
        split_offset(tiles, 0, n) == 0,
        split_offset(tiles, i + 1, n) == split_offset(tiles, i, n) + split_count(tiles, i, n),
        split_offset(tiles, n, n) == tiles,
        tiles / n <= split_count(tiles, i, n) <= tiles / n + 1,
        0 <= split_offset(tiles, i, n) <= tiles,
        split_offset(tiles, i, n) + split_count(tiles, i, n) <= tiles,
{
    lemma_fundamental_div_mod(tiles, n);
    lemma_div_pos_is_pos(tiles, n);
    let q = tiles / n;
    let m = tiles % n;
    assert(0 * q == 0);
    assert((i + 1) * q == i * q + q) by (nonlinear_arith);
    assert(n * q + m == tiles);
    assert(i * q >= 0 && (i + 1) * q <= n * q) by (nonlinear_arith)
        requires
            0 <= i < n,
            q >= 0,
    ;
}

/// Why a core has no tile range.
pub open spec fn split_refusal(core_index: int, n_cores: int) -> Option<error::Refusal> {
    if n_cores == 0 {
        Some(error::invalid("tile range requires at least one core"@))
    } else if core_index >= n_cores {
        Some(
            error::invalid(
                "core index "@ + text::dec(core_index) + " is out of range for "@ + text::dec(
                    n_cores,
                ) + " cores"@,
            ),
        )
    } else {
        None
    }
}

/// The tiles of one core: the first of them and their number.
pub fn split_tile_range(tile_count: u32, core_index: usize, n_cores: usize) -> (r: Result<
    (u32, u32),
    Error,
>)
    ensures
        match r {
            Ok((offset, count)) => {
                &&& split_refusal(core_index as int, n_cores as int) is None
                &&& offset == split_offset(tile_count as int, core_index as int, n_cores as int)
                &&& count == split_count(tile_count as int, core_index as int, n_cores as int)
            },
            Err(e) => split_refusal(core_index as int, n_cores as int) == Some(e@),
        },
{
    if n_cores == 0 {
        return Err(error::invalid_text("tile range requires at least one core"));
    }
    if core_index >= n_cores {
        return Err(
            error::invalid_input(
                text::cat5(
                    "core index ",
                    text::decimal_usize(core_index).as_str(),
                    " is out of range for ",
                    text::decimal_usize(n_cores).as_str(),
                    " cores",
                ),
            ),
        );
    }
    proof {
        lemma_split_partitions(tile_count as int, core_index as int, n_cores as int);
        lemma_div_pos_is_pos(tile_count as int, n_cores as int);
        lemma_fundamental_div_mod(tile_count as int, n_cores as int);
        let q = tile_count as int / n_cores as int;
        assert(core_index * q >= 0) by (nonlinear_arith)
            requires
                core_index >= 0,
                q >= 0,
        ;
    }
    let tiles: usize = tile_count as usize;
    let base: usize = tiles / n_cores;
    let remainder: usize = tiles % n_cores;
    let extra: usize = if core_index < remainder {
        1
    } else {
        0
    };
    let offset: usize = core_index * base + arith::min_usize(core_index, remainder);
    Ok((offset as u32, (base + extra) as u32))
}

} // verus!
