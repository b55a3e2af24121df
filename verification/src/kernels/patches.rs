//! That arguments which change from run to run reach the places they are meant for.

use vstd::prelude::*;
use crate::arith;
use crate::bytes;
use crate::dispatch;
use crate::dispatch::decode;
use crate::hw::CoreCoord;
use crate::kernels::kernel;
use crate::kernels::kernel::{ArgSection, CoreArgs, Kernel, RuntimeArgs};

verus! {

/// Whether one of the first `n` indices is `i`.
pub open spec fn named(indices: Seq<usize>, n: int, i: int) -> bool {
    exists|g: int| 0 <= g < n && #[trigger] indices[g] == i
}

/// Writing a word leaves the words beside it as they are.
proof fn lemma_word_written(s: Seq<u8>, at: int, v: u32, o: int)
    requires
        0 <= at,
        at + 4 <= s.len(),
        0 <= o,
        o + 4 <= s.len(),
        o == at || o + 4 <= at || at + 4 <= o,
    ensures
        bytes::u32_at(bytes::overwritten(s, at, bytes::le4(v as int)), o) == if o == at {
            v as int
        } else {
            bytes::u32_at(s, o)
        },
{
    bytes::lemma_u32_at_le4(v);
}

/// After the patches of a section every word of the blob is what it was, but for the words
/// that were named: these are what the kernel gives for them.
proof fn lemma_patched_words<K: Kernel>(
    kernel: &K,
    section: ArgSection,
    core: CoreCoord,
    blob: Seq<u8>,
    indices: Seq<usize>,
    base: int,
    n: int,
    i: int,
)
    requires
        base >= 0,
        0 <= n <= indices.len(),
        kernel::indices_fit(indices, base),
        forall|g: int|
            0 <= g < indices.len() ==> base + 4 * (#[trigger] indices[g]) + 4 <= blob.len(),
        0 <= base + 4 * i,
        base + 4 * i + 4 <= blob.len(),
    ensures
        ({
            let after = kernel::patched(
                kernel,
                section,
                core,
                blob,
                kernel::patch_list(indices, base),
                n,
            );
            &&& after.len() == blob.len()
            &&& bytes::u32_at(after, base + 4 * i) == if named(indices, n, i) {
                kernel::section_arg(kernel, section, core, i)->0 as int
            } else {
                bytes::u32_at(blob, base + 4 * i)
            }
        }),
    decreases n,
{
    if n > 0 {
        lemma_patched_words(kernel, section, core, blob, indices, base, n - 1, i);
        let patches = kernel::patch_list(indices, base);
        let before = kernel::patched(kernel, section, core, blob, patches, n - 1);
        let last = indices[n - 1];
        assert(patches[n - 1].offset == base + 4 * last);
        assert(patches[n - 1].index == last);
        lemma_word_written(
            before,
            base + 4 * last,
            kernel::section_arg(kernel, section, core, last as int)->0,
            base + 4 * i,
        );
        if last == i {
            assert(indices[n - 1] == i);
            assert(named(indices, n, i));
        } else if named(indices, n - 1, i) {
            let g = choose|g: int| 0 <= g < n - 1 && #[trigger] indices[g] == i;
            assert(indices[g] == i);
            assert(named(indices, n, i));
        } else {
            assert(!named(indices, n, i)) by {
                if named(indices, n, i) {
                    let g = choose|g: int| 0 <= g < n && #[trigger] indices[g] == i;
                    assert(0 <= g < n - 1 && indices[g] == i);
                }
            }
        }
    } else {
        assert(!named(indices, 0, i));
    }
}

/// Whether the named words belong to a section of `len` words.
pub open spec fn within(indices: Seq<usize>, len: int) -> bool {
    forall|g: int| 0 <= g < indices.len() ==> #[trigger] indices[g] < len
}

/// The arguments of a section.
pub open spec fn section_words(own: CoreArgs, section: ArgSection) -> Seq<u32> {
    match section {
        ArgSection::Writer => own.0,
        ArgSection::Reader => own.1,
        ArgSection::Compute => own.2,
    }
}

/// Where a section starts in the block of arguments: as the launch message says, the writer's
/// come first, then the reader's, then those of the compute kernel.
pub open spec fn section_start(own: CoreArgs, section: ArgSection) -> int {
    match section {
        ArgSection::Writer => 0,
        ArgSection::Reader => 4 * own.0.len() as int,
        ArgSection::Compute => 4 * (own.0.len() + own.1.len()) as int,
    }
}

/// The indices of the words of a section that change.
pub open spec fn section_indices(
    writer: Seq<usize>,
    reader: Seq<usize>,
    compute: Seq<usize>,
    section: ArgSection,
) -> Seq<usize> {
    match section {
        ArgSection::Writer => writer,
        ArgSection::Reader => reader,
        ArgSection::Compute => compute,
    }
}

/// After an update every kernel finds at each of its words what the update gives for it, where
/// the word is one that changes, and what it was packed with where it is not. Sections do not
/// disturb each other.
pub proof fn lemma_update_reaches<K: Kernel>(
    args: &RuntimeArgs,
    kernel: &K,
    k: int,
    own: CoreArgs,
    writer: Seq<usize>,
    reader: Seq<usize>,
    compute: Seq<usize>,
    section: ArgSection,
    j: int,
)
    requires
        args.blob_list@[k]@ == kernel::args_blob(own, args.semaphore_count as int),
        args.writer_patches@ == kernel::patch_list(writer, 0),
        args.reader_patches@ == kernel::patch_list(reader, 4 * own.0.len() as int),
        args.compute_patches@ == kernel::patch_list(
            compute,
            4 * (own.0.len() + own.1.len()) as int,
        ),
        within(writer, own.0.len() as int),
        within(reader, own.1.len() as int),
        within(compute, own.2.len() as int),
        4 * (own.0.len() + own.1.len() + own.2.len()) <= usize::MAX,
        0 <= j < section_words(own, section).len(),
    ensures
        bytes::u32_at(
            kernel::updated_blob(args, kernel, k),
            section_start(own, section) + 4 * j,
        ) == if section_indices(writer, reader, compute, section).contains(j as usize) {
            kernel::section_arg(kernel, section, args.core_list@[k], j)->0
        } else {
            section_words(own, section)[j]
        },
{
    let core = args.core_list@[k];
    let blob = args.blob_list@[k]@;
    let (w, r) = (4 * own.0.len() as int, 4 * own.1.len() as int);
    let total = own.0.len() + own.1.len() + own.2.len();
    let sem_off = arith::round_up(4 * total as int, 16);
    arith::lemma_round_up(4 * total as int, 16);
    let word = section_start(own, section) / 4 + j;
    decode::lemma_packed_word(
        own.0,
        own.1,
        own.2,
        args.semaphore_count as int,
        sem_off,
        word,
    );
    decode::lemma_packed_word(
        own.0,
        own.1,
        own.2,
        args.semaphore_count as int,
        sem_off,
        total - 1,
    );
    assert((own.0 + own.1 + own.2)[word] == section_words(own, section)[j]);
    let at = 4 * word;
    assert(blob.len() >= 4 * total);
    assert(kernel::indices_fit(reader, w));
    assert(kernel::indices_fit(writer, 0));
    assert(kernel::indices_fit(compute, w + r));
    lemma_patched_words(
        kernel,
        ArgSection::Reader,
        core,
        blob,
        reader,
        w,
        reader.len() as int,
        word - own.0.len(),
    );
    let one = kernel::reader_blob(args, kernel, k);
    assert(kernel::patch_list(reader, w).len() == reader.len());
    lemma_patched_words(
        kernel,
        ArgSection::Writer,
        core,
        one,
        writer,
        0,
        writer.len() as int,
        word,
    );
    let two = kernel::writer_blob(args, kernel, k);
    assert(kernel::patch_list(writer, 0).len() == writer.len());
    lemma_patched_words(
        kernel,
        ArgSection::Compute,
        core,
        two,
        compute,
        w + r,
        compute.len() as int,
        word - own.0.len() - own.1.len(),
    );
    assert(kernel::patch_list(compute, w + r).len() == compute.len());
    lemma_named_within(writer, own.0.len() as int, word);
    lemma_named_within(reader, own.1.len() as int, word - own.0.len());
    lemma_named_within(compute, own.2.len() as int, word - own.0.len() - own.1.len());
}

proof fn lemma_named_within(indices: Seq<usize>, len: int, i: int)
    requires
        within(indices, len),
        len <= usize::MAX,
    ensures
        named(indices, indices.len() as int, i) ==> 0 <= i < len,
        0 <= i < len ==> (named(indices, indices.len() as int, i) <==> indices.contains(
            i as usize,
        )),
{
    let n = indices.len() as int;
    if 0 <= i < len && indices.contains(i as usize) {
        let g = choose|g: int| 0 <= g < n && indices[g] == i as usize;
        assert(indices[g] == i);
        assert(named(indices, n, i));
    }
    if named(indices, n, i) {
        let g = choose|g: int| 0 <= g < n && #[trigger] indices[g] == i;
        assert(indices[g] < len);
        assert(indices[g] == i as usize);
        assert(indices.contains(i as usize));
    }
}

} // verus!
