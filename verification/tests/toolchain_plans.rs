//! Commands for the compiler, and what becomes of their results.

use libtt::compiler::cache::encode_kernel_cache;
use libtt::compiler::firmware::FirmwareSet;
use libtt::compiler::keys::{
    firmware_cache_hash, firmware_cache_key, kernel_cache_hash, kernel_cache_key, key_name,
};
use libtt::compiler::store::{FirmwareStore, KernelStore};
use libtt::compiler::toolchain::{compile_firmware, firmware_sources, Compiler, Target};
use libtt::compiler::CompiledFirmware;
use libtt::dispatch::plan::compile_config;
use libtt::dispatch::{CBConfig, MathFidelity, Program};
use libtt::dram::DType;
use libtt::error::ErrorKind;
use libtt::hw::TensixL1;
use libtt::kernels::lowering::{CompileConfig, KernelCb};

fn elf_with_segment(paddr: u32, data: &[u8]) -> Vec<u8> {
    let mut elf = vec![0u8; 84];
    elf[..7].copy_from_slice(&[0x7f, b'E', b'L', b'F', 1, 1, 1]);
    elf[28] = 52;
    elf[42] = 32;
    elf[44] = 1;
    let fields = [1, 84, paddr, paddr, data.len() as u32, data.len() as u32, 5, 4];
    for (i, field) in fields.iter().enumerate() {
        elf[52 + 4 * i..56 + 4 * i].copy_from_slice(&u32::to_le_bytes(*field));
    }
    elf.extend_from_slice(data);
    elf
}

fn firmware() -> FirmwareSet {
    let mut set = FirmwareSet::new();
    for name in ["brisc", "trisc0", "trisc1", "trisc2"] {
        set.insert(
            name.to_owned(),
            CompiledFirmware { elf_bytes: vec![1], segments: vec![], scratch_base: 0 },
        );
    }
    set
}

fn compiler(profile: bool) -> Compiler {
    Compiler::new("/r".to_owned(), 8, 140, (16, 2), (16, 3), profile, firmware())
}

#[test]
fn firmware_is_built_for_every_processor() {
    let plans = compile_firmware("/r", 8, 140, (16, 2), (16, 3), false);
    let names: Vec<&str> = plans.iter().map(|plan| plan.target.name()).collect();
    assert_eq!(names, ["brisc", "ncrisc", "trisc0", "trisc1", "trisc2"]);
    assert_eq!(firmware_sources(), ["brisc.cc", "ncrisc.cc", "trisc.cc"]);

    let first = &plans[0];
    assert_eq!(first.compile_args[0], "-Os");
    assert_eq!(first.compile_args.last().map(String::as_str), Some("/r/firmware/brisc.cc"));
    for define in ["-DTENSIX_FIRMWARE", "-DCOMPILE_FOR_BRISC", "-DNUM_DRAM_BANKS=8"] {
        assert!(first.compile_args.iter().any(|arg| arg == define), "{define}");
    }
    assert!(first.link_args.iter().any(|arg| arg.ends_with("firmware_brisc.ld")));
    assert!(first.link_args.iter().any(|arg| arg.ends_with("/noc.o")));
    assert!(!plans[1].link_args.iter().any(|arg| arg.ends_with("/noc.o")));
    assert_eq!(plans[3].compile_args[0], "-O3");
    assert_eq!(plans[3].temp_prefix, "tt-fw-trisc1-");

    let built = plans[3].finish(elf_with_segment(0x6000, &[1, 2, 3])).expect("firmware");
    assert_eq!(built.scratch_base, TensixL1::KERNEL_CONFIG_BASE + 0x5000);
    assert_eq!(built.segments.len(), 1);
    assert_eq!(built.text_base(), Some(0x6000));
    assert!(plans[0].finish(vec![1, 2, 3]).is_err());
}

#[test]
fn kernels_of_the_queue_run_wherever_they_are_placed() {
    let config = CompileConfig::plain(vec![]);
    let dirs = vec!["/r/firmware/cq".to_owned()];
    let plan = compiler(true)
        .compile_dataflow_for_cq("src", "brisc", 0, dirs.clone(), &config)
        .expect("plan");
    assert!(plan.xip_relocate);
    assert_eq!(plan.target, Target::Brisc);
    assert_eq!(plan.opt, "-O2");
    assert!(plan.defines.contains(&"-DCOMPILE_FOR_BRISC".to_owned()));
    assert!(plan.defines.contains(&"-DNOC_INDEX=0".to_owned()));
    assert!(plan.compile_args.contains(&"-I/r/firmware/cq".to_owned()));
    assert_eq!(plan.files[0].name, "kernel_includes.hpp");
    assert_eq!(plan.files[0].content, "src");

    let kernel = plan.finish(elf_with_segment(0x5000, &[1, 2, 3, 4])).expect("kernel");
    assert_eq!(kernel.xip, vec![1, 2, 3, 4]);
    assert!(plan.finish(vec![0; 3]).is_err());

    let plain = compiler(false).compile_dataflow("src", "brisc", None, &config).expect("plan");
    assert!(!plain.xip_relocate);
    assert!(plain.defines.contains(&"-DNOC_INDEX=1".to_owned()));
    let missing = compiler(false).compile_dataflow("src", "ncrisc", None, &config);
    assert_eq!(missing.expect_err("no firmware").kind, ErrorKind::NotFound);
    let unknown = compiler(false).compile_dataflow_for_cq("src", "erisc", 0, dirs, &config);
    assert_eq!(
        unknown.expect_err("no such processor").to_string(),
        "processor must be 'brisc' or 'ncrisc', got: erisc"
    );
    let (unpack, math, pack) = compiler(false).compile_compute("src", &config).expect("plans");
    assert_eq!(
        [unpack.target, math.target, pack.target],
        [Target::Trisc0, Target::Trisc1, Target::Trisc2]
    );
}

#[test]
fn programs_say_how_they_are_compiled() {
    let program = Program {
        cbs: vec![CBConfig { index: 3, dtype: DType::Float16B, tiles: 5 }],
        math_fidelity: MathFidelity::LoFi,
        dst_accum_mode: true,
        ..Program::default()
    };
    let config = compile_config(&program);
    assert_eq!(config.cbs, vec![KernelCb::new(3, DType::Float16B).with_tiles(5)]);
    assert_eq!(config.math_fidelity, MathFidelity::LoFi);
    assert!(config.dst_accum_mode && !config.dst_full_sync && !config.approx);
}

#[test]
fn a_kernel_is_built_once_for_the_same_inputs() {
    let config = CompileConfig::plain(vec![]);
    let plan = |source: &str| {
        compiler(false).compile_dataflow(source, "brisc", None, &config).expect("plan")
    };
    let hash = |source: &str| kernel_cache_hash(&plan(source), &vec![], &[1]);
    assert_eq!(key_name(hash("a")), kernel_cache_key(&plan("a"), &vec![], &[1]));
    assert_eq!(key_name(0xabc), "0000000000000abc");

    let mut store = KernelStore::new();
    assert!(store.recall(hash("a")).is_none());
    assert!(store.keep_built(hash("a"), &plan("a"), vec![0; 3]).is_err());
    assert!(store.recall(hash("a")).is_none());
    let elf = elf_with_segment(0x5000, &[1, 2, 3, 4]);
    let built = store.keep_built(hash("a"), &plan("a"), elf.clone()).expect("kernel");
    assert_eq!(built.elf_bytes, Some(elf));
    assert!(store.recall(hash("b")).is_none());
    let other = elf_with_segment(0x5000, &[9]);
    let second = store.keep_built(hash("b"), &plan("b"), other).expect("kernel");
    assert_eq!(store.recall(hash("a")), Some(built.clone()));
    assert_eq!(store.recall(hash("b")), Some(second));

    let mut later = KernelStore::new();
    let entry = encode_kernel_cache(&built);
    assert!(later.recall_entry(hash("a"), &entry[1..]).is_err());
    assert!(later.recall(hash("a")).is_none());
    assert_eq!(later.recall_entry(hash("a"), &entry).expect("entry"), built);
    assert_eq!(later.recall(hash("a")), Some(built));
}

#[test]
fn firmware_is_found_under_the_hash_of_its_inputs() {
    let hash = firmware_cache_hash(false, 8, 140, (16, 2), (16, 3), &vec![]);
    let key = firmware_cache_key(false, 8, 140, (16, 2), (16, 3), &vec![]);
    assert_eq!(key_name(hash), key);
    let mut store = FirmwareStore::new();
    assert!(store.recall(hash).is_none());
    store.keep(hash, firmware());
    assert_eq!(store.recall(hash), Some(&firmware()));
    assert!(store.recall(hash ^ 1).is_none());
}
