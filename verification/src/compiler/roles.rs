//! How the compiler is told for which processor it compiles.

use vstd::prelude::*;
use crate::compiler::toolchain;
use crate::compiler::toolchain::{Job, Target};
use crate::device::firmware;
use crate::text;

verus! {

/// The number of a processor of a core.
pub open spec fn number(t: Target) -> int {
    match t {
        Target::Brisc => 0,
        Target::Ncrisc => 1,
        Target::Trisc0 => 2,
        Target::Trisc1 => 3,
        Target::Trisc2 => 4,
    }
}

proof fn lemma_digit(i: int)
    requires
        0 <= i < 10,
    ensures
        text::dec(i) == seq![(48 + i) as char],
{
}

proof fn lemma_index_texts()
    ensures
        "-DPROCESSOR_INDEX=0"@ == "-DPROCESSOR_INDEX="@ + text::dec(0),
        "-DPROCESSOR_INDEX=1"@ == "-DPROCESSOR_INDEX="@ + text::dec(1),
        "-DPROCESSOR_INDEX=2"@ == "-DPROCESSOR_INDEX="@ + text::dec(2),
        "-DPROCESSOR_INDEX=3"@ == "-DPROCESSOR_INDEX="@ + text::dec(3),
        "-DPROCESSOR_INDEX=4"@ == "-DPROCESSOR_INDEX="@ + text::dec(4),
{
    lemma_digit(0);
    lemma_digit(1);
    lemma_digit(2);
    lemma_digit(3);
    lemma_digit(4);
    reveal_strlit("-DPROCESSOR_INDEX=");
    reveal_strlit("-DPROCESSOR_INDEX=0");
    reveal_strlit("-DPROCESSOR_INDEX=1");
    reveal_strlit("-DPROCESSOR_INDEX=2");
    reveal_strlit("-DPROCESSOR_INDEX=3");
    reveal_strlit("-DPROCESSOR_INDEX=4");
    assert("-DPROCESSOR_INDEX=0"@ =~= "-DPROCESSOR_INDEX="@ + text::dec(0));
    assert("-DPROCESSOR_INDEX=1"@ =~= "-DPROCESSOR_INDEX="@ + text::dec(1));
    assert("-DPROCESSOR_INDEX=2"@ =~= "-DPROCESSOR_INDEX="@ + text::dec(2));
    assert("-DPROCESSOR_INDEX=3"@ =~= "-DPROCESSOR_INDEX="@ + text::dec(3));
    assert("-DPROCESSOR_INDEX=4"@ =~= "-DPROCESSOR_INDEX="@ + text::dec(4));
}

/// Code for a processor is told its number: the one under which the device looks for its
/// firmware.
pub proof fn lemma_told_number(t: Target)
    ensures
        t.shown() == firmware::processor(number(t)),
        t.definitions().contains("-DPROCESSOR_INDEX="@ + text::dec(number(t))),
        !t.is_trisc() ==> forall|noc: int|
            #[trigger] toolchain::data_definitions(t, noc).contains(
                "-DPROCESSOR_INDEX="@ + text::dec(number(t)),
            ),
        !t.is_trisc() ==> forall|noc: int|
            #[trigger] toolchain::data_definitions(t, noc).contains(
                "-DNOC_INDEX="@ + text::dec(noc),
            ),
        !t.is_trisc() ==> forall|noc: int|
            (#[trigger] toolchain::data_definitions(t, noc))[0] == t.definitions()[0],
        t.is_trisc() <==> number(t) >= 2,
{
    lemma_index_texts();
    let list = t.definitions();
    assert(list[1] == "-DPROCESSOR_INDEX="@ + text::dec(number(t)));
    if !t.is_trisc() {
        assert forall|noc: int|
            #[trigger] toolchain::data_definitions(t, noc).contains(
                "-DPROCESSOR_INDEX="@ + text::dec(number(t)),
            ) by {
            assert(toolchain::data_definitions(t, noc)[1] == "-DPROCESSOR_INDEX="@ + text::dec(
                number(t),
            ));
        }
        assert forall|noc: int|
            #[trigger] toolchain::data_definitions(t, noc).contains(
                "-DNOC_INDEX="@ + text::dec(noc),
            ) by {
            assert(toolchain::data_definitions(t, noc)[2] == "-DNOC_INDEX="@ + text::dec(noc));
        }
    }
}

/// The processors keep the images of their own memories apart: each has room for what it can
/// hold before that of the next one starts.
pub proof fn lemma_scratch_apart(a: Target, b: Target)
    requires
        number(a) < number(b),
    ensures
        a.scratch() + (if a.is_trisc() {
            0x1000int
        } else {
            0x2000int
        }) <= b.scratch(),
{
}

/// The stage of the computation that a processor runs.
pub open spec fn stage(t: Target) -> (Seq<char>, Seq<char>) {
    match t {
        Target::Trisc0 => ("unpack"@, "UNPACK"@),
        Target::Trisc1 => ("math"@, "MATH"@),
        _ => ("pack"@, "PACK"@),
    }
}

proof fn lemma_stage_texts()
    ensures
        "-DNAMESPACE=chlkc_unpack"@ == "-DNAMESPACE=chlkc_"@ + "unpack"@,
        "-DNAMESPACE=chlkc_math"@ == "-DNAMESPACE=chlkc_"@ + "math"@,
        "-DNAMESPACE=chlkc_pack"@ == "-DNAMESPACE=chlkc_"@ + "pack"@,
        "-DUCK_CHLKC_UNPACK"@ == "-DUCK_CHLKC_"@ + "UNPACK"@,
        "-DUCK_CHLKC_MATH"@ == "-DUCK_CHLKC_"@ + "MATH"@,
        "-DUCK_CHLKC_PACK"@ == "-DUCK_CHLKC_"@ + "PACK"@,
        "TRISC_UNPACK"@ == "TRISC_"@ + "UNPACK"@,
        "TRISC_MATH"@ == "TRISC_"@ + "MATH"@,
        "TRISC_PACK"@ == "TRISC_"@ + "PACK"@,
        "chlkc_unpack.cpp"@ == "chlkc_"@ + "unpack"@ + ".cpp"@,
        "chlkc_math.cpp"@ == "chlkc_"@ + "math"@ + ".cpp"@,
        "chlkc_pack.cpp"@ == "chlkc_"@ + "pack"@ + ".cpp"@,
{
    reveal_strlit("unpack");
    reveal_strlit("math");
    reveal_strlit("pack");
    reveal_strlit("UNPACK");
    reveal_strlit("MATH");
    reveal_strlit("PACK");
    reveal_strlit("-DNAMESPACE=chlkc_");
    reveal_strlit("-DNAMESPACE=chlkc_unpack");
    reveal_strlit("-DNAMESPACE=chlkc_math");
    reveal_strlit("-DNAMESPACE=chlkc_pack");
    reveal_strlit("-DUCK_CHLKC_");
    reveal_strlit("-DUCK_CHLKC_UNPACK");
    reveal_strlit("-DUCK_CHLKC_MATH");
    reveal_strlit("-DUCK_CHLKC_PACK");
    reveal_strlit("TRISC_");
    reveal_strlit("TRISC_UNPACK");
    reveal_strlit("TRISC_MATH");
    reveal_strlit("TRISC_PACK");
    reveal_strlit("chlkc_");
    reveal_strlit(".cpp");
    reveal_strlit("chlkc_unpack.cpp");
    reveal_strlit("chlkc_math.cpp");
    reveal_strlit("chlkc_pack.cpp");
    assert("-DNAMESPACE=chlkc_unpack"@ =~= "-DNAMESPACE=chlkc_"@ + "unpack"@);
    assert("-DNAMESPACE=chlkc_math"@ =~= "-DNAMESPACE=chlkc_"@ + "math"@);
    assert("-DNAMESPACE=chlkc_pack"@ =~= "-DNAMESPACE=chlkc_"@ + "pack"@);
    assert("-DUCK_CHLKC_UNPACK"@ =~= "-DUCK_CHLKC_"@ + "UNPACK"@);
    assert("-DUCK_CHLKC_MATH"@ =~= "-DUCK_CHLKC_"@ + "MATH"@);
    assert("-DUCK_CHLKC_PACK"@ =~= "-DUCK_CHLKC_"@ + "PACK"@);
    assert("TRISC_UNPACK"@ =~= "TRISC_"@ + "UNPACK"@);
    assert("TRISC_MATH"@ =~= "TRISC_"@ + "MATH"@);
    assert("TRISC_PACK"@ =~= "TRISC_"@ + "PACK"@);
    assert("chlkc_unpack.cpp"@ =~= "chlkc_"@ + "unpack"@ + ".cpp"@);
    assert("chlkc_math.cpp"@ =~= "chlkc_"@ + "math"@ + ".cpp"@);
    assert("chlkc_pack.cpp"@ =~= "chlkc_"@ + "pack"@ + ".cpp"@);
}

/// A processor that computes is told which stage it runs, in two ways that agree, and the file
/// of each stage says which stage it is.
pub proof fn lemma_stages_agree(t: Target, other: Target, j: Job)
    requires
        t.is_trisc(),
        other.is_trisc(),
        j.target == t,
    ensures
        t.definitions().contains("-DNAMESPACE=chlkc_"@ + stage(t).0),
        t.definitions().contains("-DUCK_CHLKC_"@ + stage(t).1),
        toolchain::kernel_files(j).contains(
            (
                "chlkc_"@ + stage(other).0 + ".cpp"@,
                toolchain::stage_text("TRISC_"@ + stage(other).1),
            ),
        ),
        toolchain::kernel_files(j).contains(("kernel_includes.hpp"@, j.source)),
{
    lemma_stage_texts();
    let list = t.definitions();
    assert(list[3] == "-DNAMESPACE=chlkc_"@ + stage(t).0);
    assert(list[2] == "-DUCK_CHLKC_"@ + stage(t).1);
    let files = toolchain::kernel_files(j);
    let n = files.len() as int;
    assert(files[n - 3] == ("chlkc_unpack.cpp"@, toolchain::stage_text("TRISC_UNPACK"@)));
    assert(files[n - 2] == ("chlkc_math.cpp"@, toolchain::stage_text("TRISC_MATH"@)));
    assert(files[n - 1] == ("chlkc_pack.cpp"@, toolchain::stage_text("TRISC_PACK"@)));
    assert(files[0] == ("kernel_includes.hpp"@, j.source));
}

/// Everything that a kernel is to be told is told to the compiler, and what the compiler writes
/// is what is linked.
pub proof fn lemma_kernel_told(root: Seq<char>, j: Job, i: int)
    requires
        0 <= i < j.defines.len(),
    ensures
        toolchain::kernel_compile_args(root, j).contains(j.defines[i]),
        ({
            let args = toolchain::kernel_compile_args(root, j);
            let n = args.len() as int;
            &&& args[n - 3] == "-o"@
            &&& args[n - 2] == toolchain::kernel_link_after(root, j)[0]
            &&& args[n - 1] == toolchain::frame_source(root, j.target)
        }),
{
    let args = toolchain::kernel_compile_args(root, j);
    let n = args.len() as int;
    assert(args[n - 4 - j.defines.len() + i] == j.defines[i]);
    assert(toolchain::kernel_link_after(root, j)[0] == "out.o"@);
}

} // verus!
