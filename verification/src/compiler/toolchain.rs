//! How kernels and firmware are compiled: the arguments of the compiler and the
//! linker, and the files they find.

use vstd::prelude::*;
use vstd::string::StrSliceExecFns;
use crate::compiler::elf;
use crate::compiler::firmware;
use crate::compiler::firmware::FirmwareSet;
use crate::compiler::headers;
use crate::compiler::headers::{File, GeneratedFile};
use crate::compiler::{CompiledFirmware, CompiledKernel};
use crate::error;
use crate::error::{Error, ErrorKind};
use crate::hw::TensixL1;
use crate::kernels::lowering::{CompileConfig, Config};
use crate::path;
use crate::source;
use crate::text;

verus! {

/// A processor of a core.
#[derive(Clone, Copy, Debug, PartialEq, Eq, Structural)]
pub enum Target {
    Brisc,
    Ncrisc,
    Trisc0,
    Trisc1,
    Trisc2,
}

impl Target {
    /// The name of the processor.
    pub open spec fn shown(self) -> Seq<char> {
        match self {
            Target::Brisc => "brisc"@,
            Target::Ncrisc => "ncrisc"@,
            Target::Trisc0 => "trisc0"@,
            Target::Trisc1 => "trisc1"@,
            Target::Trisc2 => "trisc2"@,
        }
    }

    pub fn name(self) -> (r: &'static str)
        ensures
            r@ == self.shown(),
    {
        match self {
            Target::Brisc => "brisc",
            Target::Ncrisc => "ncrisc",
            Target::Trisc0 => "trisc0",
            Target::Trisc1 => "trisc1",
            Target::Trisc2 => "trisc2",
        }
    }

    /// The source of its firmware.
    pub open spec fn firmware_file(self) -> Seq<char> {
        match self {
            Target::Brisc => "brisc.cc"@,
            Target::Ncrisc => "ncrisc.cc"@,
            Target::Trisc0 => "trisc.cc"@,
            Target::Trisc1 => "trisc.cc"@,
            Target::Trisc2 => "trisc.cc"@,
        }
    }

    pub fn firmware_source(self) -> (r: &'static str)
        ensures
            r@ == self.firmware_file(),
    {
        match self {
            Target::Brisc => "brisc.cc",
            Target::Ncrisc => "ncrisc.cc",
            Target::Trisc0 => "trisc.cc",
            Target::Trisc1 => "trisc.cc",
            Target::Trisc2 => "trisc.cc",
        }
    }

    /// The level of optimization of its firmware.
    pub open spec fn level(self) -> Seq<char> {
        match self {
            Target::Brisc => "-Os"@,
            Target::Ncrisc => "-Os"@,
            Target::Trisc0 => "-O3"@,
            Target::Trisc1 => "-O3"@,
            Target::Trisc2 => "-O3"@,
        }
    }

    pub fn opt(self) -> (r: &'static str)
        ensures
            r@ == self.level(),
    {
        match self {
            Target::Brisc => "-Os",
            Target::Ncrisc => "-Os",
            Target::Trisc0 => "-O3",
            Target::Trisc1 => "-O3",
            Target::Trisc2 => "-O3",
        }
    }

    /// What its firmware is told of it.
    pub open spec fn definitions(self) -> Seq<Seq<char>> {
        match self {
            Target::Brisc => seq!["-DCOMPILE_FOR_BRISC"@, "-DPROCESSOR_INDEX=0"@, "-DNOC_INDEX=1"@, "-DNOC_MODE=0"@],
            Target::Ncrisc => seq!["-DCOMPILE_FOR_NCRISC"@, "-DPROCESSOR_INDEX=1"@, "-DNOC_INDEX=0"@, "-DNOC_MODE=0"@],
            Target::Trisc0 => seq!["-DCOMPILE_FOR_TRISC=0"@, "-DPROCESSOR_INDEX=2"@, "-DUCK_CHLKC_UNPACK"@, "-DNAMESPACE=chlkc_unpack"@],
            Target::Trisc1 => seq!["-DCOMPILE_FOR_TRISC=1"@, "-DPROCESSOR_INDEX=3"@, "-DUCK_CHLKC_MATH"@, "-DNAMESPACE=chlkc_math"@],
            Target::Trisc2 => seq!["-DCOMPILE_FOR_TRISC=2"@, "-DPROCESSOR_INDEX=4"@, "-DUCK_CHLKC_PACK"@, "-DNAMESPACE=chlkc_pack"@],
        }
    }

    fn target_defs(self) -> (r: Vec<&'static str>)
        ensures
            source::strs_view(r@) == self.definitions(),
    {
        let r: Vec<&'static str> = match self {
            Target::Brisc => vec!["-DCOMPILE_FOR_BRISC", "-DPROCESSOR_INDEX=0", "-DNOC_INDEX=1", "-DNOC_MODE=0"],
            Target::Ncrisc => vec!["-DCOMPILE_FOR_NCRISC", "-DPROCESSOR_INDEX=1", "-DNOC_INDEX=0", "-DNOC_MODE=0"],
            Target::Trisc0 => vec!["-DCOMPILE_FOR_TRISC=0", "-DPROCESSOR_INDEX=2", "-DUCK_CHLKC_UNPACK", "-DNAMESPACE=chlkc_unpack"],
            Target::Trisc1 => vec!["-DCOMPILE_FOR_TRISC=1", "-DPROCESSOR_INDEX=3", "-DUCK_CHLKC_MATH", "-DNAMESPACE=chlkc_math"],
            Target::Trisc2 => vec!["-DCOMPILE_FOR_TRISC=2", "-DPROCESSOR_INDEX=4", "-DUCK_CHLKC_PACK", "-DNAMESPACE=chlkc_pack"],
        };
        assert(source::strs_view(r@) =~= self.definitions());
        r
    }

    /// The kind of processor that its firmware is compiled for.
    pub open spec fn machine(self) -> Seq<Seq<char>> {
        match self {
            Target::Brisc => seq!["-mcpu=tt-bh"@, "-fno-tree-loop-distribute-patterns"@],
            Target::Ncrisc => seq!["-mcpu=tt-bh"@, "-fno-tree-loop-distribute-patterns"@],
            Target::Trisc0 => seq!["-mcpu=tt-bh-tensix"@],
            Target::Trisc1 => seq!["-mcpu=tt-bh-tensix"@],
            Target::Trisc2 => seq!["-mcpu=tt-bh-tensix"@],
        }
    }

    fn mcpu(self) -> (r: Vec<&'static str>)
        ensures
            source::strs_view(r@) == self.machine(),
    {
        let r: Vec<&'static str> = match self {
            Target::Brisc => vec!["-mcpu=tt-bh", "-fno-tree-loop-distribute-patterns"],
            Target::Ncrisc => vec!["-mcpu=tt-bh", "-fno-tree-loop-distribute-patterns"],
            Target::Trisc0 => vec!["-mcpu=tt-bh-tensix"],
            Target::Trisc1 => vec!["-mcpu=tt-bh-tensix"],
            Target::Trisc2 => vec!["-mcpu=tt-bh-tensix"],
        };
        assert(source::strs_view(r@) =~= self.machine());
        r
    }

    /// The objects that are linked into its firmware.
    pub open spec fn objects(self) -> Seq<Seq<char>> {
        match self {
            Target::Brisc => seq!["noc.o"@],
            Target::Ncrisc => Seq::empty(),
            Target::Trisc0 => Seq::empty(),
            Target::Trisc1 => Seq::empty(),
            Target::Trisc2 => Seq::empty(),
        }
    }

    fn extra_objs(self) -> (r: Vec<&'static str>)
        ensures
            source::strs_view(r@) == self.objects(),
    {
        let r: Vec<&'static str> = match self {
            Target::Brisc => vec!["noc.o"],
            Target::Ncrisc => Vec::new(),
            Target::Trisc0 => Vec::new(),
            Target::Trisc1 => Vec::new(),
            Target::Trisc2 => Vec::new(),
        };
        assert(source::strs_view(r@) =~= self.objects());
        r
    }

    /// Where its data is set up: a part of the memory for arguments.
    pub open spec fn scratch(self) -> u32 {
        match self {
            Target::Brisc => TensixL1::KERNEL_CONFIG_BASE,
            Target::Ncrisc => (TensixL1::KERNEL_CONFIG_BASE + 0x2000) as u32,
            Target::Trisc0 => (TensixL1::KERNEL_CONFIG_BASE + 0x4000) as u32,
            Target::Trisc1 => (TensixL1::KERNEL_CONFIG_BASE + 0x5000) as u32,
            Target::Trisc2 => (TensixL1::KERNEL_CONFIG_BASE + 0x6000) as u32,
        }
    }

    pub fn init_scratch(self) -> (r: u32)
        ensures
            r == self.scratch(),
    {
        match self {
            Target::Brisc => TensixL1::KERNEL_CONFIG_BASE,
            Target::Ncrisc => TensixL1::KERNEL_CONFIG_BASE + 0x2000,
            Target::Trisc0 => TensixL1::KERNEL_CONFIG_BASE + 0x4000,
            Target::Trisc1 => TensixL1::KERNEL_CONFIG_BASE + 0x5000,
            Target::Trisc2 => TensixL1::KERNEL_CONFIG_BASE + 0x6000,
        }
    }

    /// Whether the processor computes on tiles.
    pub open spec fn is_trisc(self) -> bool {
        self != Target::Brisc && self != Target::Ncrisc
    }

    pub fn trisc(self) -> (r: bool)
        ensures
            r == self.is_trisc(),
    {
        !matches!(self, Target::Brisc | Target::Ncrisc)
    }
}

/// Where headers are found.
pub open spec fn include_paths() -> Seq<Seq<char>> {
    seq![
        "tt_metal/hw/inc"@,
        "tt_metal/hostdevcommon/api"@,
        "tt_metal/api"@,
        "tt_metal/include"@,
        "tt_metal/hw/inc/internal/tt-1xx"@,
        "tt_metal/hw/inc/internal/tt-1xx/blackhole"@,
        "tt_metal/hw/inc/internal/tt-1xx/blackhole/noc"@,
        "tt_metal/hw/ckernels/blackhole/metal/llk_io"@,
        "tt_metal/hw/ckernels/blackhole/metal/common"@,
        "tt_metal/hw/ckernels/blackhole/metal/llk_api"@,
        "tt_metal/hw/ckernels/blackhole/metal/llk_api/llk_sfpu"@,
        "tt_metal/third_party/tt_llk/tt_llk_blackhole/common/inc"@,
        "tt_metal/third_party/tt_llk/tt_llk_blackhole/llk_lib"@,
        "runtime/sfpi/include"@,
    ]
}

fn include_path_list() -> (r: Vec<&'static str>)
    ensures
        source::strs_view(r@) == include_paths(),
{
    let r: Vec<&'static str> = vec![
        "tt_metal/hw/inc",
        "tt_metal/hostdevcommon/api",
        "tt_metal/api",
        "tt_metal/include",
        "tt_metal/hw/inc/internal/tt-1xx",
        "tt_metal/hw/inc/internal/tt-1xx/blackhole",
        "tt_metal/hw/inc/internal/tt-1xx/blackhole/noc",
        "tt_metal/hw/ckernels/blackhole/metal/llk_io",
        "tt_metal/hw/ckernels/blackhole/metal/common",
        "tt_metal/hw/ckernels/blackhole/metal/llk_api",
        "tt_metal/hw/ckernels/blackhole/metal/llk_api/llk_sfpu",
        "tt_metal/third_party/tt_llk/tt_llk_blackhole/common/inc",
        "tt_metal/third_party/tt_llk/tt_llk_blackhole/llk_lib",
        "runtime/sfpi/include",
    ];
    assert(source::strs_view(r@) =~= include_paths());
    r
}

/// Flags of the compiler.
pub open spec fn cflags() -> Seq<Seq<char>> {
    seq![
        "-std=c++17"@,
        "-flto=auto"@,
        "-ffast-math"@,
        "-fno-exceptions"@,
        "-fno-use-cxa-atexit"@,
    ]
}

fn cflag_list() -> (r: Vec<&'static str>)
    ensures
        source::strs_view(r@) == cflags(),
{
    let r: Vec<&'static str> = vec![
        "-std=c++17",
        "-flto=auto",
        "-ffast-math",
        "-fno-exceptions",
        "-fno-use-cxa-atexit",
    ];
    assert(source::strs_view(r@) =~= cflags());
    r
}

/// Flags of the linker.
pub open spec fn lflags() -> Seq<Seq<char>> {
    seq![
        "-Wl,-z,max-page-size=16"@,
        "-Wl,-z,common-page-size=16"@,
        "-nostartfiles"@,
    ]
}

fn lflag_list() -> (r: Vec<&'static str>)
    ensures
        source::strs_view(r@) == lflags(),
{
    let r: Vec<&'static str> = vec![
        "-Wl,-z,max-page-size=16",
        "-Wl,-z,common-page-size=16",
        "-nostartfiles",
    ];
    assert(source::strs_view(r@) =~= lflags());
    r
}

/// What kernels are told of the machine.
pub open spec fn kernel_common() -> Seq<Seq<char>> {
    seq![
        "-DTENSIX_FIRMWARE"@,
        "-DLOCAL_MEM_EN=0"@,
        "-DARCH_BLACKHOLE"@,
        "-DDISPATCH_MESSAGE_ADDR=0xFFB70438"@,
        "-DKERNEL_BUILD"@,
    ]
}

fn kernel_common_list() -> (r: Vec<&'static str>)
    ensures
        source::strs_view(r@) == kernel_common(),
{
    let r: Vec<&'static str> = vec![
        "-DTENSIX_FIRMWARE",
        "-DLOCAL_MEM_EN=0",
        "-DARCH_BLACKHOLE",
        "-DDISPATCH_MESSAGE_ADDR=0xFFB70438",
        "-DKERNEL_BUILD",
    ];
    assert(source::strs_view(r@) =~= kernel_common());
    r
}

/// What firmware is told of the machine.
pub open spec fn firmware_common() -> Seq<Seq<char>> {
    seq![
        "-DTENSIX_FIRMWARE"@,
        "-DFW_BUILD"@,
        "-DARCH_BLACKHOLE"@,
        "-DLOCAL_MEM_EN=0"@,
        "-DDISPATCH_MESSAGE_ADDR=0xFFB70438"@,
    ]
}

fn firmware_common_list() -> (r: Vec<&'static str>)
    ensures
        source::strs_view(r@) == firmware_common(),
{
    let r: Vec<&'static str> = vec![
        "-DTENSIX_FIRMWARE",
        "-DFW_BUILD",
        "-DARCH_BLACKHOLE",
        "-DLOCAL_MEM_EN=0",
        "-DDISPATCH_MESSAGE_ADDR=0xFFB70438",
    ];
    assert(source::strs_view(r@) =~= firmware_common());
    r
}

/// The kind of processor that kernels on tiles are compiled for.
pub open spec fn tile_machine() -> Seq<Seq<char>> {
    seq![
        "-mcpu=tt-bh-tensix"@,
        "-mno-tt-tensix-optimize-replay"@,
    ]
}

fn tile_machine_list() -> (r: Vec<&'static str>)
    ensures
        source::strs_view(r@) == tile_machine(),
{
    let r: Vec<&'static str> = vec![
        "-mcpu=tt-bh-tensix",
        "-mno-tt-tensix-optimize-replay",
    ];
    assert(source::strs_view(r@) =~= tile_machine());
    r
}

/// The kind of processor that kernels that move data are compiled for.
pub open spec fn data_machine() -> Seq<Seq<char>> {
    seq![
        "-mcpu=tt-bh"@,
        "-mno-tt-tensix-optimize-replay"@,
        "-fno-tree-loop-distribute-patterns"@,
    ]
}

fn data_machine_list() -> (r: Vec<&'static str>)
    ensures
        source::strs_view(r@) == data_machine(),
{
    let r: Vec<&'static str> = vec![
        "-mcpu=tt-bh",
        "-mno-tt-tensix-optimize-replay",
        "-fno-tree-loop-distribute-patterns",
    ];
    assert(source::strs_view(r@) =~= data_machine());
    r
}

/// The sources of the firmware, each once, in order.
pub open spec fn firmware_files() -> Seq<Seq<char>> {
    seq![
        "brisc.cc"@,
        "ncrisc.cc"@,
        "trisc.cc"@,
    ]
}

fn firmware_file_list() -> (r: Vec<&'static str>)
    ensures
        source::strs_view(r@) == firmware_files(),
{
    let r: Vec<&'static str> = vec![
        "brisc.cc",
        "ncrisc.cc",
        "trisc.cc",
    ];
    assert(source::strs_view(r@) =~= firmware_files());
    r
}

/// What code has to know of a device: its memory, and the cores that read and hand
/// on commands.
#[derive(Clone, Copy, Debug)]
pub struct Topology {
    pub num_dram_banks: usize,
    pub num_l1_banks: usize,
    pub prefetch_core: (u8, u8),
    pub dispatch_core: (u8, u8),
}

/// What code is told of the device.
pub open spec fn device_list(t: Topology) -> Seq<Seq<char>> {
    seq![
        "-DNUM_DRAM_BANKS="@ + text::dec(t.num_dram_banks as int),
        "-DNUM_L1_BANKS="@ + text::dec(t.num_l1_banks as int),
        "-DPREFETCH_NOC_X="@ + text::dec(t.prefetch_core.0 as int),
        "-DPREFETCH_NOC_Y="@ + text::dec(t.prefetch_core.1 as int),
        "-DDISPATCH_NOC_X="@ + text::dec(t.dispatch_core.0 as int),
        "-DDISPATCH_NOC_Y="@ + text::dec(t.dispatch_core.1 as int),
        "-DPCIE_NOC_X="@ + text::dec(19),
        "-DPCIE_NOC_Y="@ + text::dec(24),
        "-DIS_NOT_POW2_NUM_L1_BANKS=1"@,
        if t.num_dram_banks == 8 {
            "-DLOG_BASE_2_OF_NUM_DRAM_BANKS=3"@
        } else {
            "-DIS_NOT_POW2_NUM_DRAM_BANKS=1"@
        },
    ]
}

/// Lists what code is told of the device.
pub fn device_defines(
    num_dram_banks: usize,
    num_l1_banks: usize,
    prefetch_core: (u8, u8),
    dispatch_core: (u8, u8),
) -> (r: Vec<String>)
    ensures
        source::lines_view(r@) == device_list(
            (Topology { num_dram_banks, num_l1_banks, prefetch_core, dispatch_core }),
        ),
{
    let mut out: Vec<String> = Vec::new();
    source::push(
        &mut out,
        text::cat2("-DNUM_DRAM_BANKS=", text::decimal_usize(num_dram_banks).as_str()),
    );
    source::push(
        &mut out,
        text::cat2("-DNUM_L1_BANKS=", text::decimal_usize(num_l1_banks).as_str()),
    );
    source::push(
        &mut out,
        text::cat2("-DPREFETCH_NOC_X=", text::decimal(prefetch_core.0 as u64).as_str()),
    );
    source::push(
        &mut out,
        text::cat2("-DPREFETCH_NOC_Y=", text::decimal(prefetch_core.1 as u64).as_str()),
    );
    source::push(
        &mut out,
        text::cat2("-DDISPATCH_NOC_X=", text::decimal(dispatch_core.0 as u64).as_str()),
    );
    source::push(
        &mut out,
        text::cat2("-DDISPATCH_NOC_Y=", text::decimal(dispatch_core.1 as u64).as_str()),
    );
    source::push(&mut out, text::cat2("-DPCIE_NOC_X=", text::decimal(19).as_str()));
    source::push(&mut out, text::cat2("-DPCIE_NOC_Y=", text::decimal(24).as_str()));
    source::push(&mut out, "-DIS_NOT_POW2_NUM_L1_BANKS=1".to_owned());
    if num_dram_banks == 8 {
        source::push(&mut out, "-DLOG_BASE_2_OF_NUM_DRAM_BANKS=3".to_owned());
    } else {
        source::push(&mut out, "-DIS_NOT_POW2_NUM_DRAM_BANKS=1".to_owned());
    }
    assert(source::lines_view(out@) =~= device_list(
        Topology { num_dram_banks, num_l1_banks, prefetch_core, dispatch_core },
    ));
    out
}

/// What code is told when it is to be profiled.
pub open spec fn profile_list(profile: bool) -> Seq<Seq<char>> {
    if profile {
        seq![
            "-DPROFILE_KERNEL=1"@,
            "-DPROFILER_FULL_HOST_BUFFER_SIZE_PER_RISC="@ + text::dec(
                TensixL1::PROFILER_HOST_BUFFER_BYTES_PER_RISC as int,
            ),
        ]
    } else {
        Seq::empty()
    }
}

fn append_profile_defines(defines: &mut Vec<String>, profile: bool)
    ensures
        source::lines_view(final(defines)@) == source::lines_view(old(defines)@) + profile_list(
            profile,
        ),
{
    let ghost start = source::lines_view(defines@);
    if profile {
        source::push(defines, "-DPROFILE_KERNEL=1".to_owned());
        source::push(
            defines,
            text::cat2(
                "-DPROFILER_FULL_HOST_BUFFER_SIZE_PER_RISC=",
                text::decimal_u32(TensixL1::PROFILER_HOST_BUFFER_BYTES_PER_RISC).as_str(),
            ),
        );
    }
    assert(source::lines_view(defines@) =~= start + profile_list(profile));
}

/// The arguments that say where headers are found.
pub open spec fn include_args(root: Seq<char>) -> Seq<Seq<char>> {
    let dir = path::joined(path::deps(root), "include"@);
    seq!["-I"@ + dir] + include_paths().map_values(|p: Seq<char>| "-I"@ + path::joined(dir, p))
}

fn push_includes(out: &mut Vec<String>, root: &str)
    ensures
        source::lines_view(final(out)@) == source::lines_view(old(out)@) + include_args(root@),
{
    let ghost start = source::lines_view(out@);
    let dir = path::join(path::deps_root(root).as_str(), "include");
    source::push(out, text::cat2("-I", dir.as_str()));
    let list = include_path_list();
    let ghost all = include_paths().map_values(|p: Seq<char>| "-I"@ + path::joined(dir@, p));
    let ghost first = seq!["-I"@ + dir@];
    assert(source::lines_view(out@) =~= start + (first + all.take(0)));
    for i in 0..list.len()
        invariant
            source::strs_view(list@) == include_paths(),
            all == include_paths().map_values(|p: Seq<char>| "-I"@ + path::joined(dir@, p)),
            source::lines_view(out@) == start + (first + all.take(i as int)),
    {
        assert(include_paths()[i as int] == source::strs_view(list@)[i as int]);
        source::push(out, text::cat2("-I", path::join(dir.as_str(), list[i]).as_str()));
        assert(source::lines_view(out@) =~= start + (first + all.take(i + 1)));
    }
    assert(all.take(list@.len() as int) =~= all);
}

/// What is compiled and how.
pub struct Job {
    pub source: Seq<char>,
    pub target: Target,
    pub defines: Seq<Seq<char>>,
    pub extra_objs: Seq<Seq<char>>,
    pub extra_dirs: Seq<Seq<char>>,
    pub level: Seq<char>,
    pub relocate: bool,
    pub config: Config,
}

/// A kernel that is to be built: the commands, and the files that they read.
#[derive(Debug)]
pub struct BuildPlan {
    pub kernel_source: String,
    pub target: Target,
    pub defines: Vec<String>,
    pub opt: String,
    pub compile_args: Vec<String>,
    /// The arguments of the linker before and behind the path of the firmware.
    pub link_before: Vec<String>,
    pub link_after: Vec<String>,
    /// The headers that were generated.
    pub headers: Vec<GeneratedFile>,
    /// All files that are written before the compiler runs.
    pub files: Vec<GeneratedFile>,
    pub temp_prefix: String,
    pub xip_relocate: bool,
}

/// The kind of processor that a kernel is compiled for.
pub open spec fn machine_args(t: Target) -> Seq<Seq<char>> {
    if t.is_trisc() {
        tile_machine()
    } else {
        data_machine()
    }
}

fn machine_list(t: Target) -> (r: Vec<&'static str>)
    ensures
        source::strs_view(r@) == machine_args(t),
{
    if t.trisc() {
        tile_machine_list()
    } else {
        data_machine_list()
    }
}

/// The source that a kernel is compiled into.
pub open spec fn frame_source(root: Seq<char>, t: Target) -> Seq<char> {
    path::joined(
        path::joined(path::deps(root), "firmware-src"@),
        if t.is_trisc() {
            "trisck.cc"@
        } else {
            t.shown() + "k.cc"@
        },
    )
}

/// The arguments of the compiler for a kernel.
pub open spec fn kernel_compile_args(root: Seq<char>, j: Job) -> Seq<Seq<char>> {
    seq![j.level] + cflags() + seq!["-MMD"@] + machine_args(j.target) + seq!["-I."@]
        + include_args(root) + j.extra_dirs.map_values(|d: Seq<char>| "-I"@ + d) + j.defines + seq![
        "-c"@,
        "-o"@,
        "out.o"@,
        frame_source(root, j.target),
    ]
}

/// The arguments of the linker for a kernel, up to the path of the firmware.
pub open spec fn kernel_link_before(root: Seq<char>, j: Job) -> Seq<Seq<char>> {
    seq![j.level] + cflags() + lflags() + machine_args(j.target) + seq![
        "-T"@ + path::joined(
            path::linker_scripts(root),
            "kernel_"@ + j.target.shown() + ".ld"@,
        ),
        "-Wl,--emit-relocs"@,
    ]
}

/// The arguments of the linker for a kernel behind the path of the firmware.
pub open spec fn kernel_link_after(root: Seq<char>, j: Job) -> Seq<Seq<char>> {
    seq!["out.o"@] + j.extra_objs + seq![
        path::joined(path::libraries(root), "substitutes.o"@),
        "-o"@,
        "out.elf"@,
    ]
}

/// A stage of the computation, as its source says it.
pub open spec fn stage_text(macro_name: Seq<char>) -> Seq<char> {
    "#define "@ + macro_name
        + "\n#include \"defines_generated.h\"\n#include <kernel_includes.hpp>\n"@
}

/// The files that are written before a kernel is compiled.
pub open spec fn kernel_files(j: Job) -> Seq<File> {
    let own = seq![("kernel_includes.hpp"@, j.source)] + headers::header_files(j.config);
    if j.target.is_trisc() {
        own + seq![
            ("defines_generated.h"@, ""@),
            ("chlkc_unpack.cpp"@, stage_text("TRISC_UNPACK"@)),
            ("chlkc_math.cpp"@, stage_text("TRISC_MATH"@)),
            ("chlkc_pack.cpp"@, stage_text("TRISC_PACK"@)),
        ]
    } else {
        own
    }
}

impl BuildPlan {
    /// Whether this is the plan for a job.
    pub open spec fn serves(&self, root: Seq<char>, j: Job) -> bool {
        &&& self.kernel_source@ == j.source
        &&& self.target == j.target
        &&& source::lines_view(self.defines@) == j.defines
        &&& self.opt@ == j.level
        &&& source::lines_view(self.compile_args@) == kernel_compile_args(root, j)
        &&& source::lines_view(self.link_before@) == kernel_link_before(root, j)
        &&& source::lines_view(self.link_after@) == kernel_link_after(root, j)
        &&& headers::files_view(self.headers@) == headers::header_files(j.config)
        &&& headers::files_view(self.files@) == kernel_files(j)
        &&& self.temp_prefix@ == "tt-"@ + j.target.shown() + "-"@
        &&& self.xip_relocate == j.relocate
    }

    /// The arguments of the linker, where the firmware stands at `fw_elf`.
    pub fn link_args(&self, fw_elf: &str) -> (r: Vec<String>)
        ensures
            source::lines_view(r@) == source::lines_view(self.link_before@) + seq![
                "-Wl,--just-symbols="@ + fw_elf@,
            ] + source::lines_view(self.link_after@),
    {
        let mut out: Vec<String> = Vec::new();
        source::push_copies(&mut out, &self.link_before);
        let ghost before = source::lines_view(self.link_before@);
        assert(source::lines_view(out@) =~= before);
        source::push(&mut out, text::cat2("-Wl,--just-symbols=", fw_elf));
        assert(source::lines_view(out@) =~= before + seq!["-Wl,--just-symbols="@ + fw_elf@]);
        source::push_copies(&mut out, &self.link_after);
        out
    }

    /// The kernel, once it was linked.
    pub fn finish(&self, elf: Vec<u8>) -> (r: Result<CompiledKernel, Error>)
        ensures
            ({
                let image = elf::packed_elf(elf@, self.xip_relocate);
                let list = elf::placed(elf::segments(image, elf::segment_count(image)));
                match r {
                    Ok(k) => {
                        &&& elf::pack_refusal(image) is None
                        &&& k.xip@ == elf::merged(list, list[0].paddr as int, list.len() as int)
                        &&& k.xip_text_bytes == elf::code_segment(list, 0).data.len()
                        &&& k@.elf == Some(elf@)
                    },
                    Err(e) => elf::pack_refusal(image) == Some(e@),
                }
            }),
    {
        let (xip, xip_text_bytes) = elf::pack_xip_elf(elf.as_slice(), self.xip_relocate)?;
        Ok(CompiledKernel { xip, xip_text_bytes, elf_bytes: Some(elf) })
    }
}

fn push_prefixed(out: &mut Vec<String>, dirs: &Vec<String>)
    ensures
        source::lines_view(final(out)@) == source::lines_view(old(out)@) + source::lines_view(
            dirs@,
        ).map_values(|d: Seq<char>| "-I"@ + d),
{
    let ghost start = source::lines_view(out@);
    let ghost all = source::lines_view(dirs@).map_values(|d: Seq<char>| "-I"@ + d);
    for i in 0..dirs.len()
        invariant
            all == source::lines_view(dirs@).map_values(|d: Seq<char>| "-I"@ + d),
            source::lines_view(out@) == start + all.take(i as int),
    {
        source::push(out, text::cat2("-I", dirs[i].as_str()));
        assert(source::lines_view(out@) =~= start + all.take(i + 1));
    }
    assert(all.take(dirs@.len() as int) =~= all);
}

fn push_one(out: &mut Vec<String>, s: &str)
    ensures
        source::lines_view(final(out)@) == source::lines_view(old(out)@) + seq![s@],
{
    let ghost start = source::lines_view(out@);
    source::push(out, s.to_owned());
    assert(source::lines_view(out@) =~= start + seq![s@]);
}

fn push_stage(files: &mut Vec<GeneratedFile>, name: &str, macro_name: &str)
    ensures
        headers::files_view(final(files)@) == headers::files_view(old(files)@).push(
            (name@, stage_text(macro_name@)),
        ),
{
    headers::push_file(
        files,
        name,
        text::cat3(
            "#define ",
            macro_name,
            "\n#include \"defines_generated.h\"\n#include <kernel_includes.hpp>\n",
        ),
    );
}

fn list_files(src: &str, config: &CompileConfig, target: Target, Ghost(j): Ghost<Job>) -> (r: Vec<
    GeneratedFile,
>)
    requires
        j.source == src@,
        j.config == config@,
        j.target == target,
    ensures
        headers::files_view(r@) == kernel_files(j),
{
    let mut files: Vec<GeneratedFile> = Vec::new();
    headers::push_file(&mut files, "kernel_includes.hpp", src.to_owned());
    let mut more = headers::ckernel_headers(config);
    let ghost own = seq![("kernel_includes.hpp"@, j.source)] + headers::header_files(j.config);
    let ghost before = files@;
    let ghost added = more@;
    files.append(&mut more);
    proof {
        assert(headers::files_view(files@) =~= headers::files_view(before) + headers::files_view(
            added,
        ));
        assert(headers::files_view(files@) =~= own);
    }
    if target.trisc() {
        headers::push_file(&mut files, "defines_generated.h", "".to_owned());
        push_stage(&mut files, "chlkc_unpack.cpp", "TRISC_UNPACK");
        push_stage(&mut files, "chlkc_math.cpp", "TRISC_MATH");
        push_stage(&mut files, "chlkc_pack.cpp", "TRISC_PACK");
        assert(headers::files_view(files@) =~= kernel_files(j));
    }
    files
}

/// What is known of a device's toolchain: where things are, what kernels are told
/// of the device, and the firmware they are linked against.
#[derive(Debug)]
pub struct Compiler {
    pub root: String,
    pub kernel_defines: Vec<String>,
    pub firmware_set: FirmwareSet,
    pub profile: bool,
}

/// A request for a kernel, with the files that were found for it.
#[derive(Debug)]
pub struct BuildRequest<'a> {
    pub kernel_source: &'a str,
    pub target: Target,
    pub defines: Vec<String>,
    pub extra_objs: Vec<String>,
    pub extra_dirs: Vec<String>,
    pub opt: &'a str,
    pub xip_relocate: bool,
    pub compile: &'a CompileConfig,
}

impl<'a> BuildRequest<'a> {
    pub open spec fn job(&self) -> Job {
        Job {
            source: self.kernel_source@,
            target: self.target,
            defines: source::lines_view(self.defines@),
            extra_objs: source::lines_view(self.extra_objs@),
            extra_dirs: source::lines_view(self.extra_dirs@),
            level: self.opt@,
            relocate: self.xip_relocate,
            config: self.compile@,
        }
    }
}

/// Why the toolchain cannot be used: a program of it is missing.
pub open spec fn toolchain_refusal(root: Seq<char>, has_cc: bool, has_objcopy: bool) -> Option<
    error::Refusal,
> {
    let dir = path::toolchain(root);
    if !has_cc {
        Some(
            (
                ErrorKind::NotFound,
                "missing compiler: "@ + path::joined(dir, "riscv-tt-elf-g++"@)
                    + "\nDownload toolchain to "@ + path::joined(
                    path::deps(root),
                    "sfpi-toolchain"@,
                ),
            ),
        )
    } else if !has_objcopy {
        Some(
            (
                ErrorKind::NotFound,
                "missing objcopy: "@ + path::joined(dir, "riscv-tt-elf-objcopy"@),
            ),
        )
    } else {
        None
    }
}

/// Checks that the programs of the toolchain were found.
pub fn check_toolchain(root: &str, has_cc: bool, has_objcopy: bool) -> (r: Result<(), Error>)
    ensures
        match r {
            Ok(_) => toolchain_refusal(root@, has_cc, has_objcopy) is None,
            Err(e) => toolchain_refusal(root@, has_cc, has_objcopy) == Some(e@),
        },
{
    let dir = path::sfpi_dir(root);
    if !has_cc {
        return Err(
            Error::new(
                ErrorKind::NotFound,
                text::cat4(
                    "missing compiler: ",
                    path::join(dir.as_str(), "riscv-tt-elf-g++").as_str(),
                    "\nDownload toolchain to ",
                    path::join(path::deps_root(root).as_str(), "sfpi-toolchain").as_str(),
                ),
            ),
        );
    }
    if !has_objcopy {
        return Err(
            Error::new(
                ErrorKind::NotFound,
                text::cat2(
                    "missing objcopy: ",
                    path::join(dir.as_str(), "riscv-tt-elf-objcopy").as_str(),
                ),
            ),
        );
    }
    Ok(())
}

/// The processor of a name that moves data.
pub open spec fn data_processor(name: Seq<char>) -> Option<Target> {
    if name == "brisc"@ {
        Some(Target::Brisc)
    } else if name == "ncrisc"@ {
        Some(Target::Ncrisc)
    } else {
        None
    }
}

pub open spec fn processor_refusal(name: Seq<char>) -> error::Refusal {
    error::invalid("processor must be 'brisc' or 'ncrisc', got: "@ + name)
}

fn find_processor(name: &str) -> (r: Result<Target, Error>)
    ensures
        match r {
            Ok(t) => data_processor(name@) == Some(t),
            Err(e) => data_processor(name@) is None && e@ == processor_refusal(name@),
        },
{
    if text::same_text(name, "brisc") {
        Ok(Target::Brisc)
    } else if text::same_text(name, "ncrisc") {
        Ok(Target::Ncrisc)
    } else {
        Err(
            error::invalid_input(
                text::cat2("processor must be 'brisc' or 'ncrisc', got: ", name),
            ),
        )
    }
}

/// What a kernel that moves data is told of its processor.
pub open spec fn data_definitions(t: Target, noc_index: int) -> Seq<Seq<char>> {
    seq![
        if t == Target::Brisc {
            "-DCOMPILE_FOR_BRISC"@
        } else {
            "-DCOMPILE_FOR_NCRISC"@
        },
        if t == Target::Brisc {
            "-DPROCESSOR_INDEX=0"@
        } else {
            "-DPROCESSOR_INDEX=1"@
        },
        "-DNOC_INDEX="@ + text::dec(noc_index),
        "-DNOC_MODE=0"@,
    ]
}

fn push_data_definitions(out: &mut Vec<String>, t: Target, noc_index: u8)
    ensures
        source::lines_view(final(out)@) == source::lines_view(old(out)@) + data_definitions(
            t,
            noc_index as int,
        ),
{
    let ghost start = source::lines_view(out@);
    if t == Target::Brisc {
        source::push(out, "-DCOMPILE_FOR_BRISC".to_owned());
        source::push(out, "-DPROCESSOR_INDEX=0".to_owned());
    } else {
        source::push(out, "-DCOMPILE_FOR_NCRISC".to_owned());
        source::push(out, "-DPROCESSOR_INDEX=1".to_owned());
    }
    source::push(out, text::cat2("-DNOC_INDEX=", text::decimal(noc_index as u64).as_str()));
    source::push(out, "-DNOC_MODE=0".to_owned());
    assert(source::lines_view(out@) =~= start + data_definitions(t, noc_index as int));
}

/// The objects that are linked into a kernel that moves data.
pub open spec fn data_objects(root: Seq<char>, t: Target) -> Seq<Seq<char>> {
    if t == Target::Brisc {
        seq![path::joined(path::libraries(root), "noc.o"@)]
    } else {
        Seq::empty()
    }
}

fn list_data_objects(root: &str, t: Target) -> (r: Vec<String>)
    ensures
        source::lines_view(r@) == data_objects(root@, t),
{
    let mut out: Vec<String> = Vec::new();
    if t == Target::Brisc {
        source::push(&mut out, path::join(path::lib_dir(root).as_str(), "noc.o"));
    }
    assert(source::lines_view(out@) =~= data_objects(root@, t));
    out
}

fn list_compile_args(root: &str, request: &BuildRequest<'_>) -> (r: Vec<String>)
    ensures
        source::lines_view(r@) == kernel_compile_args(root@, request.job()),
{
    let ghost j = request.job();
    let t: Target = request.target;
    let mut out: Vec<String> = Vec::new();
    push_one(&mut out, request.opt);
    assert(source::lines_view(out@) =~= seq![j.level]);
    source::push_all(&mut out, cflag_list());
    push_one(&mut out, "-MMD");
    source::push_all(&mut out, machine_list(t));
    push_one(&mut out, "-I.");
    push_includes(&mut out, root);
    push_prefixed(&mut out, &request.extra_dirs);
    source::push_copies(&mut out, &request.defines);
    let frame_dir = path::join(path::deps_root(root).as_str(), "firmware-src");
    let frame_name: String = if t.trisc() {
        "trisck.cc".to_owned()
    } else {
        text::cat2(t.name(), "k.cc")
    };
    let frame = path::join(frame_dir.as_str(), frame_name.as_str());
    push_tail(&mut out, "-c", "-o", "out.o", frame);
    out
}

fn push_tail(out: &mut Vec<String>, a: &str, b: &str, c: &str, d: String)
    ensures
        source::lines_view(final(out)@) == source::lines_view(old(out)@) + seq![a@, b@, c@, d@],
{
    let ghost start = source::lines_view(out@);
    source::push(out, a.to_owned());
    source::push(out, b.to_owned());
    source::push(out, c.to_owned());
    source::push(out, d);
    assert(source::lines_view(out@) =~= start + seq![a@, b@, c@, d@]);
}

fn list_link_before(root: &str, opt: &str, t: Target, Ghost(j): Ghost<Job>) -> (r: Vec<String>)
    requires
        j.level == opt@,
        j.target == t,
    ensures
        source::lines_view(r@) == kernel_link_before(root@, j),
{
    let mut out: Vec<String> = Vec::new();
    push_one(&mut out, opt);
    assert(source::lines_view(out@) =~= seq![j.level]);
    source::push_all(&mut out, cflag_list());
    source::push_all(&mut out, lflag_list());
    source::push_all(&mut out, machine_list(t));
    let ghost before = source::lines_view(out@);
    let script_name = text::cat3("kernel_", t.name(), ".ld");
    let script = path::join(path::ld_dir(root).as_str(), script_name.as_str());
    source::push(&mut out, text::cat2("-T", script.as_str()));
    source::push(&mut out, "-Wl,--emit-relocs".to_owned());
    assert(source::lines_view(out@) =~= before + seq!["-T"@ + script@, "-Wl,--emit-relocs"@]);
    out
}

fn list_link_after(root: &str, extra_objs: &Vec<String>, Ghost(j): Ghost<Job>) -> (r: Vec<String>)
    requires
        j.extra_objs == source::lines_view(extra_objs@),
    ensures
        source::lines_view(r@) == kernel_link_after(root@, j),
{
    let mut out: Vec<String> = Vec::new();
    push_one(&mut out, "out.o");
    assert(source::lines_view(out@) =~= seq!["out.o"@]);
    source::push_copies(&mut out, extra_objs);
    let ghost before = source::lines_view(out@);
    let substitutes = path::join(path::lib_dir(root).as_str(), "substitutes.o");
    let ghost last = substitutes@;
    source::push(&mut out, substitutes);
    source::push(&mut out, "-o".to_owned());
    source::push(&mut out, "out.elf".to_owned());
    assert(source::lines_view(out@) =~= before + seq![last, "-o"@, "out.elf"@]);
    out
}

impl Compiler {
    /// The toolchain of a device, with the firmware that was built for it.
    pub fn new(
        root: String,
        num_dram_banks: usize,
        num_l1_banks: usize,
        prefetch_core: (u8, u8),
        dispatch_core: (u8, u8),
        profile: bool,
        firmware: FirmwareSet,
    ) -> (r: Compiler)
        ensures
            r.root@ == root@,
            r.profile == profile,
            r.firmware_set == firmware,
            source::lines_view(r.kernel_defines@) == kernel_common() + device_list(
                (Topology { num_dram_banks, num_l1_banks, prefetch_core, dispatch_core }),
            ),
    {
        let mut kernel_defines: Vec<String> = Vec::new();
        source::push_all(&mut kernel_defines, kernel_common_list());
        assert(source::lines_view(kernel_defines@) =~= kernel_common());
        source::extend(
            &mut kernel_defines,
            device_defines(num_dram_banks, num_l1_banks, prefetch_core, dispatch_core),
        );
        Compiler { root, kernel_defines, firmware_set: firmware, profile }
    }

    /// The firmware that kernels are linked against.
    pub fn firmware(&self) -> (r: &FirmwareSet)
        ensures
            *r == self.firmware_set,
    {
        &self.firmware_set
    }

    pub open spec fn defines(&self) -> Seq<Seq<char>> {
        source::lines_view(self.kernel_defines@)
    }

    /// Why a kernel for a processor cannot be built.
    pub open spec fn build_refusal(&self, t: Target) -> Option<error::Refusal> {
        if firmware::found(self.firmware_set@, t.shown()) is Some {
            None
        } else {
            Some((ErrorKind::NotFound, "missing compiled firmware for "@ + t.shown()))
        }
    }

    /// Plans how a kernel is built.
    pub fn build(&self, request: BuildRequest<'_>) -> (r: Result<BuildPlan, Error>)
        ensures
            match r {
                Ok(plan) => self.build_refusal(request.target) is None && plan.serves(
                    self.root@,
                    request.job(),
                ),
                Err(e) => self.build_refusal(request.target) == Some(e@),
            },
    {
        let ghost j = request.job();
        let t: Target = request.target;
        if self.firmware_set.get(t.name()).is_none() {
            return Err(
                Error::new(
                    ErrorKind::NotFound,
                    text::cat2("missing compiled firmware for ", t.name()),
                ),
            );
        }
        let files = list_files(request.kernel_source, request.compile, t, Ghost(j));
        let root = self.root.as_str();
        let compile_args = list_compile_args(root, &request);
        let link_before = list_link_before(root, request.opt, t, Ghost(j));
        let link_after = list_link_after(root, &request.extra_objs, Ghost(j));
        Ok(
            BuildPlan {
                kernel_source: request.kernel_source.to_owned(),
                target: t,
                defines: request.defines,
                opt: request.opt.to_owned(),
                compile_args,
                link_before,
                link_after,
                headers: headers::ckernel_headers(request.compile),
                files,
                temp_prefix: text::cat3("tt-", t.name(), "-"),
                xip_relocate: request.xip_relocate,
            },
        )
    }

    /// The job of a kernel that moves data.
    pub open spec fn data_job(
        &self,
        src: Seq<char>,
        t: Target,
        noc_index: Option<u8>,
        config: Config,
    ) -> Job {
        let noc = match noc_index {
            Some(n) => n as int,
            None => if t == Target::Brisc {
                1
            } else {
                0
            },
        };
        Job {
            source: src,
            target: t,
            defines: self.defines() + data_definitions(t, noc) + profile_list(self.profile),
            extra_objs: data_objects(self.root@, t),
            extra_dirs: Seq::empty(),
            level: "-O2"@,
            relocate: false,
            config,
        }
    }

    /// Plans how a kernel that moves data is built.
    pub fn compile_dataflow(
        &self,
        src: &str,
        processor: &str,
        noc_index: Option<u8>,
        compile: &CompileConfig,
    ) -> (r: Result<BuildPlan, Error>)
        ensures
            match data_processor(processor@) {
                None => (r matches Err(e) && e@ == processor_refusal(processor@)),
                Some(t) => match r {
                    Ok(plan) => self.build_refusal(t) is None && plan.serves(
                        self.root@,
                        self.data_job(src@, t, noc_index, compile@),
                    ),
                    Err(e) => self.build_refusal(t) == Some(e@),
                },
            },
    {
        let t = find_processor(processor)?;
        let noc: u8 = match noc_index {
            Some(n) => n,
            None => if t == Target::Brisc {
                1
            } else {
                0
            },
        };
        let mut defines: Vec<String> = Vec::new();
        source::push_copies(&mut defines, &self.kernel_defines);
        assert(source::lines_view(defines@) =~= self.defines());
        push_data_definitions(&mut defines, t, noc);
        append_profile_defines(&mut defines, self.profile);
        let extra_objs = list_data_objects(self.root.as_str(), t);
        let extra_dirs: Vec<String> = Vec::new();
        assert(source::lines_view(extra_dirs@) =~= Seq::empty());
        self.build(
            BuildRequest {
                kernel_source: src,
                target: t,
                defines,
                extra_objs,
                extra_dirs,
                opt: "-O2",
                xip_relocate: false,
                compile,
            },
        )
    }

    /// Plans how a kernel of the command queue is built: such kernels run wherever
    /// they are placed, and are never profiled.
    pub fn compile_dataflow_for_cq(
        &self,
        src: &str,
        processor: &str,
        noc_index: u8,
        extra_dirs: Vec<String>,
        compile: &CompileConfig,
    ) -> (r: Result<BuildPlan, Error>)
        ensures
            match data_processor(processor@) {
                None => (r matches Err(e) && e@ == processor_refusal(processor@)),
                Some(t) => match r {
                    Ok(plan) => self.build_refusal(t) is None && plan.serves(
                        self.root@,
                        (Job {
                            source: src@,
                            target: t,
                            defines: self.defines() + data_definitions(t, noc_index as int),
                            extra_objs: data_objects(self.root@, t),
                            extra_dirs: source::lines_view(extra_dirs@),
                            level: "-O2"@,
                            relocate: true,
                            config: compile@,
                        }),
                    ),
                    Err(e) => self.build_refusal(t) == Some(e@),
                },
            },
    {
        let t = find_processor(processor)?;
        let mut defines: Vec<String> = Vec::new();
        source::push_copies(&mut defines, &self.kernel_defines);
        assert(source::lines_view(defines@) =~= self.defines());
        push_data_definitions(&mut defines, t, noc_index);
        let extra_objs = list_data_objects(self.root.as_str(), t);
        self.build(
            BuildRequest {
                kernel_source: src,
                target: t,
                defines,
                extra_objs,
                extra_dirs,
                opt: "-O2",
                xip_relocate: true,
                compile,
            },
        )
    }

    /// The job of one stage of a computation.
    pub open spec fn trisc_job(&self, src: Seq<char>, t: Target, config: Config) -> Job {
        Job {
            source: src,
            target: t,
            defines: self.defines() + t.definitions() + profile_list(self.profile),
            extra_objs: Seq::empty(),
            extra_dirs: Seq::empty(),
            level: "-O3"@,
            relocate: false,
            config,
        }
    }

    fn compile_trisc(&self, src: &str, t: Target, compile: &CompileConfig) -> (r: Result<
        BuildPlan,
        Error,
    >)
        ensures
            match r {
                Ok(plan) => self.build_refusal(t) is None && plan.serves(
                    self.root@,
                    self.trisc_job(src@, t, compile@),
                ),
                Err(e) => self.build_refusal(t) == Some(e@),
            },
    {
        let mut defines: Vec<String> = Vec::new();
        source::push_copies(&mut defines, &self.kernel_defines);
        assert(source::lines_view(defines@) =~= self.defines());
        source::push_all(&mut defines, t.target_defs());
        append_profile_defines(&mut defines, self.profile);
        let extra_objs: Vec<String> = Vec::new();
        let extra_dirs: Vec<String> = Vec::new();
        assert(source::lines_view(extra_dirs@) =~= Seq::empty());
        self.build(
            BuildRequest {
                kernel_source: src,
                target: t,
                defines,
                extra_objs,
                extra_dirs,
                opt: "-O3",
                xip_relocate: false,
                compile,
            },
        )
    }

    /// Why the stages of a computation cannot be built.
    pub open spec fn compute_refusal(&self) -> Option<error::Refusal> {
        if self.build_refusal(Target::Trisc0) is Some {
            self.build_refusal(Target::Trisc0)
        } else if self.build_refusal(Target::Trisc1) is Some {
            self.build_refusal(Target::Trisc1)
        } else {
            self.build_refusal(Target::Trisc2)
        }
    }

    /// Plans how the three stages of a computation are built.
    pub fn compile_compute(&self, src: &str, compile: &CompileConfig) -> (r: Result<
        (BuildPlan, BuildPlan, BuildPlan),
        Error,
    >)
        ensures
            match r {
                Ok((unpack, math, pack)) => {
                    &&& self.compute_refusal() is None
                    &&& unpack.serves(
                        self.root@,
                        self.trisc_job(src@, Target::Trisc0, compile@),
                    )
                    &&& math.serves(self.root@, self.trisc_job(src@, Target::Trisc1, compile@))
                    &&& pack.serves(self.root@, self.trisc_job(src@, Target::Trisc2, compile@))
                },
                Err(e) => self.compute_refusal() == Some(e@),
            },
    {
        let unpack = self.compile_trisc(src, Target::Trisc0, compile)?;
        let math = self.compile_trisc(src, Target::Trisc1, compile)?;
        let pack = self.compile_trisc(src, Target::Trisc2, compile)?;
        Ok((unpack, math, pack))
    }
}

/// The commands that build the firmware of a processor.
#[derive(Debug)]
pub struct FirmwarePlan {
    pub target: Target,
    pub compile_args: Vec<String>,
    pub link_args: Vec<String>,
    pub temp_prefix: String,
}

/// What the firmware of a processor is told.
pub open spec fn firmware_defines(t: Target, device: Topology, profile: bool) -> Seq<Seq<char>> {
    firmware_common() + device_list(device) + profile_list(profile) + t.definitions() + (if profile
        && t == Target::Trisc1 {
        seq!["-DPROFILE_PERF_COUNTERS=0x3f"@]
    } else {
        Seq::empty()
    })
}

/// The arguments of the compiler for the firmware of a processor.
pub open spec fn firmware_compile_args(
    root: Seq<char>,
    t: Target,
    device: Topology,
    profile: bool,
) -> Seq<Seq<char>> {
    seq![t.level()] + cflags() + t.machine() + seq!["-mno-tt-tensix-optimize-replay"@]
        + firmware_defines(t, device, profile) + include_args(root) + seq![
        "-c"@,
        "-o"@,
        "out.o"@,
        path::joined(path::joined(root, "firmware"@), t.firmware_file()),
    ]
}

/// The arguments of the linker for the firmware of a processor.
pub open spec fn firmware_link_args(root: Seq<char>, t: Target) -> Seq<Seq<char>> {
    let lib = path::libraries(root);
    seq![t.level()] + cflags() + lflags() + t.machine() + seq![
        "-mno-tt-tensix-optimize-replay"@,
        "-T"@ + path::joined(path::linker_scripts(root), "firmware_"@ + t.shown() + ".ld"@),
        path::joined(lib, "tmu-crt0.o"@),
        "out.o"@,
    ] + t.objects().map_values(|o: Seq<char>| path::joined(lib, o)) + seq![
        path::joined(lib, "substitutes.o"@),
        "-o"@,
        "out.elf"@,
    ]
}

impl FirmwarePlan {
    /// Whether this is the plan for a processor.
    pub open spec fn serves(&self, root: Seq<char>, t: Target, device: Topology, profile: bool) -> bool {
        &&& self.target == t
        &&& source::lines_view(self.compile_args@) == firmware_compile_args(
            root,
            t,
            device,
            profile,
        )
        &&& source::lines_view(self.link_args@) == firmware_link_args(root, t)
        &&& self.temp_prefix@ == "tt-fw-"@ + t.shown() + "-"@
    }

    /// The firmware, once it was linked.
    pub fn finish(&self, elf: Vec<u8>) -> (r: Result<CompiledFirmware, Error>)
        ensures
            match r {
                Ok(f) => {
                    &&& elf::segments_refusal(elf@) is None
                    &&& f@.elf == elf@
                    &&& f@.segments == elf::segments(elf@, elf::segment_count(elf@))
                    &&& f@.scratch_base == self.target.scratch()
                },
                Err(e) => elf::segments_refusal(elf@) == Some(e@),
            },
    {
        let segments = elf::iter_pt_load(elf.as_slice())?;
        Ok(
            CompiledFirmware {
                elf_bytes: elf,
                segments,
                scratch_base: self.target.init_scratch(),
            },
        )
    }
}

/// Plans how the firmware of a processor is built.
pub fn plan_firmware(
    root: &str,
    t: Target,
    num_dram_banks: usize,
    num_l1_banks: usize,
    prefetch_core: (u8, u8),
    dispatch_core: (u8, u8),
    profile: bool,
) -> (r: FirmwarePlan)
    ensures
        r.serves(
            root@,
            t,
            (Topology { num_dram_banks, num_l1_banks, prefetch_core, dispatch_core }),
            profile,
        ),
{
    let ghost device = Topology { num_dram_banks, num_l1_banks, prefetch_core, dispatch_core };
    let mut defines: Vec<String> = Vec::new();
    source::push_all(&mut defines, firmware_common_list());
    assert(source::lines_view(defines@) =~= firmware_common());
    source::extend(
        &mut defines,
        device_defines(num_dram_banks, num_l1_banks, prefetch_core, dispatch_core),
    );
    append_profile_defines(&mut defines, profile);
    source::push_all(&mut defines, t.target_defs());
    let ghost before = source::lines_view(defines@);
    if profile && t == Target::Trisc1 {
        push_one(&mut defines, "-DPROFILE_PERF_COUNTERS=0x3f");
    }
    assert(source::lines_view(defines@) =~= firmware_defines(t, device, profile));
    let mut compile_args: Vec<String> = Vec::new();
    push_one(&mut compile_args, t.opt());
    assert(source::lines_view(compile_args@) =~= seq![t.level()]);
    source::push_all(&mut compile_args, cflag_list());
    source::push_all(&mut compile_args, t.mcpu());
    push_one(&mut compile_args, "-mno-tt-tensix-optimize-replay");
    source::extend(&mut compile_args, defines);
    push_includes(&mut compile_args, root);
    let src = path::join(path::join(root, "firmware").as_str(), t.firmware_source());
    let ghost src_text = src@;
    let ghost before = source::lines_view(compile_args@);
    source::push(&mut compile_args, "-c".to_owned());
    source::push(&mut compile_args, "-o".to_owned());
    source::push(&mut compile_args, "out.o".to_owned());
    source::push(&mut compile_args, src);
    assert(source::lines_view(compile_args@) =~= before + seq!["-c"@, "-o"@, "out.o"@, src_text]);
    let lib = path::lib_dir(root);
    let mut link_args: Vec<String> = Vec::new();
    push_one(&mut link_args, t.opt());
    assert(source::lines_view(link_args@) =~= seq![t.level()]);
    source::push_all(&mut link_args, cflag_list());
    source::push_all(&mut link_args, lflag_list());
    source::push_all(&mut link_args, t.mcpu());
    let ghost before = source::lines_view(link_args@);
    let script_name = text::cat3("firmware_", t.name(), ".ld");
    let script = path::join(path::ld_dir(root).as_str(), script_name.as_str());
    source::push(&mut link_args, "-mno-tt-tensix-optimize-replay".to_owned());
    source::push(&mut link_args, text::cat2("-T", script.as_str()));
    source::push(&mut link_args, path::join(lib.as_str(), "tmu-crt0.o"));
    source::push(&mut link_args, "out.o".to_owned());
    assert(source::lines_view(link_args@) =~= before + seq![
        "-mno-tt-tensix-optimize-replay"@,
        "-T"@ + script@,
        path::joined(lib@, "tmu-crt0.o"@),
        "out.o"@,
    ]);
    let ghost before = source::lines_view(link_args@);
    let objects = t.extra_objs();
    let ghost all = t.objects().map_values(|o: Seq<char>| path::joined(lib@, o));
    assert(before =~= before + all.take(0));
    for i in 0..objects.len()
        invariant
            source::strs_view(objects@) == t.objects(),
            all == t.objects().map_values(|o: Seq<char>| path::joined(lib@, o)),
            source::lines_view(link_args@) == before + all.take(i as int),
    {
        assert(t.objects()[i as int] == source::strs_view(objects@)[i as int]);
        source::push(&mut link_args, path::join(lib.as_str(), objects[i]));
        assert(source::lines_view(link_args@) =~= before + all.take(i + 1));
    }
    assert(all.take(objects@.len() as int) =~= all);
    let ghost before = source::lines_view(link_args@);
    source::push(&mut link_args, path::join(lib.as_str(), "substitutes.o"));
    source::push(&mut link_args, "-o".to_owned());
    source::push(&mut link_args, "out.elf".to_owned());
    assert(source::lines_view(link_args@) =~= before + seq![
        path::joined(lib@, "substitutes.o"@),
        "-o"@,
        "out.elf"@,
    ]);
    FirmwarePlan {
        target: t,
        compile_args,
        link_args,
        temp_prefix: text::cat3("tt-fw-", t.name(), "-"),
    }
}

/// The processors that have firmware, in order of their names.
pub open spec fn targets() -> Seq<Target> {
    seq![Target::Brisc, Target::Ncrisc, Target::Trisc0, Target::Trisc1, Target::Trisc2]
}

/// Plans how the firmware of all processors is built.
pub fn compile_firmware(
    root: &str,
    num_dram_banks: usize,
    num_l1_banks: usize,
    prefetch_core: (u8, u8),
    dispatch_core: (u8, u8),
    profile: bool,
) -> (r: Vec<FirmwarePlan>)
    ensures
        r@.len() == targets().len(),
        forall|i: int|
            0 <= i < targets().len() ==> (#[trigger] r@[i]).serves(
                root@,
                targets()[i],
                (Topology { num_dram_banks, num_l1_banks, prefetch_core, dispatch_core }),
                profile,
            ),
{
    let list: Vec<Target> = vec![
        Target::Brisc,
        Target::Ncrisc,
        Target::Trisc0,
        Target::Trisc1,
        Target::Trisc2,
    ];
    assert(list@ =~= targets());
    let mut out: Vec<FirmwarePlan> = Vec::new();
    for i in 0..list.len()
        invariant
            list@ == targets(),
            out@.len() == i,
            forall|j: int|
                0 <= j < i ==> (#[trigger] out@[j]).serves(
                    root@,
                    targets()[j],
                    (Topology { num_dram_banks, num_l1_banks, prefetch_core, dispatch_core }),
                    profile,
                ),
    {
        out.push(
            plan_firmware(
                root,
                list[i],
                num_dram_banks,
                num_l1_banks,
                prefetch_core,
                dispatch_core,
                profile,
            ),
        );
    }
    out
}

/// The files whose contents the firmware depends on.
pub fn firmware_sources() -> (r: Vec<&'static str>)
    ensures
        source::strs_view(r@) == firmware_files(),
{
    firmware_file_list()
}

/// The arguments that make the symbols of firmware give way to those of a kernel.
pub open spec fn weaken_list(file: Seq<char>) -> Seq<Seq<char>> {
    seq![
        "--localize-symbol=_start"@,
        "--localize-symbol=main"@,
        "--localize-symbol=exit"@,
        "--weaken"@,
        file,
    ]
}

pub fn weaken_args(file: &str) -> (r: Vec<String>)
    ensures
        source::lines_view(r@) == weaken_list(file@),
{
    let mut out: Vec<String> = Vec::new();
    source::push(&mut out, "--localize-symbol=_start".to_owned());
    source::push(&mut out, "--localize-symbol=main".to_owned());
    source::push(&mut out, "--localize-symbol=exit".to_owned());
    source::push(&mut out, "--weaken".to_owned());
    source::push(&mut out, file.to_owned());
    assert(source::lines_view(out@) =~= weaken_list(file@));
    out
}

/// Whether a character needs no quotes.
pub open spec fn is_plain(c: char) -> bool {
    ('a' <= c && c <= 'z') || ('A' <= c && c <= 'Z') || ('0' <= c && c <= '9') || c == '/' || c
        == '.' || c == '_' || c == '-' || c == '=' || c == ':' || c == ',' || c == '+'
}

fn plain(c: char) -> (r: bool)
    ensures
        r == is_plain(c),
{
    ('a' <= c && c <= 'z') || ('A' <= c && c <= 'Z') || ('0' <= c && c <= '9') || c == '/' || c
        == '.' || c == '_' || c == '-' || c == '=' || c == ':' || c == ',' || c == '+'
}

/// An argument as a shell takes it.
pub open spec fn shell_quoted(s: Seq<char>) -> Seq<char> {
    if s.len() > 0 && (forall|i: int| 0 <= i < s.len() ==> is_plain(#[trigger] s[i])) {
        s
    } else {
        "'"@ + text::replaced(s, "'"@, "'\\''"@) + "'"@
    }
}

/// Quotes an argument for a shell, where it needs quotes.
pub fn shell_quote(arg: &str) -> (r: String)
    ensures
        r@ == shell_quoted(arg@),
{
    let n: usize = arg.unicode_len();
    let mut all_plain: bool = n > 0;
    for i in 0..n
        invariant
            n == arg@.len(),
            all_plain == (n > 0 && (forall|j: int| 0 <= j < i ==> is_plain(#[trigger] arg@[j]))),
    {
        if !plain(arg.get_char(i)) {
            all_plain = false;
        }
    }
    if all_plain {
        return arg.to_owned();
    }
    proof {
        reveal_strlit("'");
    }
    text::cat3("'", text::replace_text(arg, "'", "'\\''").as_str(), "'")
}

/// A command as a shell takes it.
pub open spec fn command_text(exe: Seq<char>, args: Seq<Seq<char>>, n: int) -> Seq<char>
    decreases n,
{
    if n <= 0 {
        exe
    } else {
        command_text(exe, args, n - 1) + " "@ + shell_quoted(args[n - 1])
    }
}

/// Renders a command.
pub fn render_command(exe: &str, args: &Vec<String>) -> (r: String)
    ensures
        r@ == command_text(exe@, source::lines_view(args@), args@.len() as int),
{
    let mut out = exe.to_owned();
    for i in 0..args.len()
        invariant
            out@ == command_text(exe@, source::lines_view(args@), i as int),
    {
        out.append(" ");
        out.append(shell_quote(args[i].as_str()).as_str());
    }
    out
}

/// Whether code is to be profiled: the setting says `1`.
pub fn profiler_enabled(setting: Option<&str>) -> (r: bool)
    ensures
        r == (setting is Some && setting->0@ == "1"@),
{
    match setting {
        Some(s) => text::same_text(s, "1"),
        None => false,
    }
}

} // verus!
