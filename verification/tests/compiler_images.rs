//! Kernel images, caches and generated headers.

use libtt::compiler::cache::{decode_kernel_cache, encode_kernel_cache};
use libtt::compiler::elf::{iter_pt_load, pack_xip_elf, PTLoad};
use libtt::compiler::firmware::{decode_firmware_cache, encode_firmware_cache, FirmwareSet};
use libtt::compiler::headers::{ckernel_headers, GeneratedFile};
use libtt::compiler::keys::{firmware_cache_key, kernel_cache_key, NamedBytes};
use libtt::compiler::toolchain::{device_defines, BuildPlan, Compiler};
use libtt::compiler::xip::xipify_riscv32_elf;
use libtt::compiler::{CompiledFirmware, CompiledKernel};
use libtt::dispatch::MathFidelity;
use libtt::dram::DType;
use libtt::error::ErrorKind;
use libtt::hw::TensixL1;
use libtt::kernels::lowering::{CompileConfig, KernelCb};
use std::collections::hash_map::DefaultHasher;
use std::hash::{Hash, Hasher};
use std::path::PathBuf;

fn content<'a>(files: &'a [GeneratedFile], name: &str) -> &'a str {
    &files.iter().find(|file| file.name == name).expect("generated file").content
}

#[test]
fn device_defines_match_blackhole_shapes() {
    let p100 = device_defines(7, 120, (14, 2), (14, 3));
    assert!(p100.contains(&"-DNUM_DRAM_BANKS=7".to_owned()));
    assert!(p100.contains(&"-DNUM_L1_BANKS=120".to_owned()));
    assert!(p100.contains(&"-DIS_NOT_POW2_NUM_DRAM_BANKS=1".to_owned()));

    let p150 = device_defines(8, 140, (16, 2), (16, 3));
    assert!(p150.contains(&"-DLOG_BASE_2_OF_NUM_DRAM_BANKS=3".to_owned()));
}

#[test]
fn ckernel_headers_reflect_program_formats() {
    let config = CompileConfig {
        cbs: vec![KernelCb::new(1, DType::UInt8).with_tiles(4)],
        approx: true,
        dst_accum_mode: true,
        dst_full_sync: true,
        math_fidelity: MathFidelity::LoFi,
    };

    let headers = ckernel_headers(&config);
    assert!(content(&headers, "chlkc_unpack_data_format.h").contains("30"));
    assert!(content(&headers, "chlkc_dst_accum_mode.h").contains("true"));
    assert!(content(&headers, "chlkc_dst_sync_mode.h").contains("DstSync::SyncFull"));
    assert!(content(&headers, "chlkc_math_fidelity.h").contains("0"));
    assert!(content(&headers, "chlkc_math_approx_mode.h").contains("true"));
}

#[test]
fn kernel_disk_cache_codec_roundtrips() {
    let kernel = CompiledKernel {
        xip: vec![1, 2, 3, 4],
        xip_text_bytes: 3,
        elf_bytes: Some(vec![5, 6, 7]),
    };
    assert_eq!(
        decode_kernel_cache(&encode_kernel_cache(&kernel)).expect("decode"),
        kernel
    );
}

#[test]
fn kernel_disk_cache_keeps_a_missing_elf() {
    let kernel = CompiledKernel { xip: vec![9], xip_text_bytes: 1, elf_bytes: None };
    assert_eq!(
        decode_kernel_cache(&encode_kernel_cache(&kernel)).expect("decode"),
        kernel
    );
}

#[test]
fn kernel_disk_cache_refuses_damaged_data() {
    let kernel = CompiledKernel { xip: vec![1, 2, 3, 4], xip_text_bytes: 3, elf_bytes: None };
    let good = encode_kernel_cache(&kernel);

    let mut wrong_magic = good.clone();
    wrong_magic[0] ^= 1;
    assert_eq!(decode_kernel_cache(&wrong_magic).expect_err("magic").kind, ErrorKind::InvalidData);

    let mut short = good.clone();
    short.pop();
    assert!(decode_kernel_cache(&short).is_err());

    let mut long = good.clone();
    long.push(0);
    assert!(decode_kernel_cache(&long).is_err());
    assert!(decode_kernel_cache(&[]).is_err());
}

fn firmware_set() -> FirmwareSet {
    let mut firmware = FirmwareSet::new();
    firmware.insert(
        "brisc".to_owned(),
        CompiledFirmware {
            elf_bytes: vec![1, 2],
            scratch_base: 0x1234,
            segments: vec![PTLoad {
                paddr: 0x1000,
                data: vec![3, 4, 5],
                memsz: 8,
                flags: 1,
            }],
        },
    );
    firmware
}

#[test]
fn firmware_disk_cache_codec_roundtrips() {
    let firmware = firmware_set();
    assert_eq!(
        decode_firmware_cache(&encode_firmware_cache(&firmware)).expect("decode"),
        firmware
    );
}

#[test]
fn firmware_disk_cache_refuses_a_name_that_is_no_text() {
    let mut data = encode_firmware_cache(&firmware_set());
    let at = data.windows(5).position(|w| w == b"brisc").expect("name");
    data[at] = 0xff;
    let err = decode_firmware_cache(&data).expect_err("invalid name");
    assert_eq!(err.kind, ErrorKind::InvalidData);
    assert!(err.to_string().contains("invalid target name: invalid utf-8"));
}

#[test]
fn firmware_set_finds_what_was_stored_last() {
    let mut set = firmware_set();
    let newer = CompiledFirmware { elf_bytes: vec![7], segments: Vec::new(), scratch_base: 1 };
    set.insert("brisc".to_owned(), newer.clone());
    assert_eq!(set.get("brisc"), Some(&newer));
    assert!(set.get("ncrisc").is_none());
}

fn synthetic_elf(segments: &[(u32, u32, &[u8], u32, u32)]) -> Vec<u8> {
    let e_phoff = 52usize;
    let ph_size = 32usize;
    let data_offset = e_phoff + segments.len() * ph_size;
    let mut elf = vec![0u8; data_offset];
    elf[0..4].copy_from_slice(b"\x7fELF");
    elf[4] = 1;
    elf[5] = 1;
    elf[6] = 1;
    elf[16..18].copy_from_slice(&2u16.to_le_bytes());
    elf[18..20].copy_from_slice(&243u16.to_le_bytes());
    elf[20..24].copy_from_slice(&1u32.to_le_bytes());
    elf[28..32].copy_from_slice(&(e_phoff as u32).to_le_bytes());
    elf[40..42].copy_from_slice(&52u16.to_le_bytes());
    elf[42..44].copy_from_slice(&(ph_size as u16).to_le_bytes());
    elf[44..46].copy_from_slice(&(segments.len() as u16).to_le_bytes());

    let mut payload_offset = data_offset;
    for (index, (vaddr, paddr, data, memsz, flags)) in segments.iter().enumerate() {
        let ph = e_phoff + index * ph_size;
        elf[ph..ph + 4].copy_from_slice(&1u32.to_le_bytes());
        elf[ph + 4..ph + 8].copy_from_slice(&(payload_offset as u32).to_le_bytes());
        elf[ph + 8..ph + 12].copy_from_slice(&vaddr.to_le_bytes());
        elf[ph + 12..ph + 16].copy_from_slice(&paddr.to_le_bytes());
        elf[ph + 16..ph + 20].copy_from_slice(&(data.len() as u32).to_le_bytes());
        elf[ph + 20..ph + 24].copy_from_slice(&memsz.to_le_bytes());
        elf[ph + 24..ph + 28].copy_from_slice(&flags.to_le_bytes());
        elf.resize(payload_offset + data.len(), 0);
        elf[payload_offset..payload_offset + data.len()].copy_from_slice(data);
        payload_offset += data.len();
    }
    elf
}

#[test]
fn pack_xip_elf_merges_l1_segments() {
    let elf = synthetic_elf(&[
        (0x1000, 0x1000, &[1u8, 2, 3, 4][..], 8, 1),
        (0x1010, 0x1010, &[5u8, 6][..], 4, 0),
        (
            TensixL1::SIZE + 0x10,
            TensixL1::SIZE + 0x10,
            &[9u8][..],
            1,
            0,
        ),
    ]);

    let (xip, text_bytes) = pack_xip_elf(&elf, false).expect("pack_xip_elf");
    assert_eq!(text_bytes, 4);
    assert_eq!(&xip[..4], &[1, 2, 3, 4]);
    assert_eq!(&xip[0x10..0x12], &[5, 6]);
    assert_eq!(xip.len(), 0x14);
}

#[test]
fn pack_xip_elf_orders_segments_by_address() {
    let elf = synthetic_elf(&[
        (0x1010, 0x1010, &[5u8, 6][..], 4, 0),
        (0x1000, 0x1000, &[1u8, 2, 3, 4][..], 4, 1),
    ]);
    let (xip, text_bytes) = pack_xip_elf(&elf, false).expect("pack_xip_elf");
    assert_eq!(text_bytes, 4);
    assert_eq!(&xip[..4], &[1, 2, 3, 4]);
    assert_eq!(&xip[0x10..0x12], &[5, 6]);
}

#[test]
fn iter_pt_load_lists_segments_in_file_order() {
    let elf = synthetic_elf(&[
        (0x1000, 0x2000, &[1u8, 2][..], 8, 5),
        (0x3000, 0x4000, &[3u8][..], 1, 6),
    ]);
    assert_eq!(
        iter_pt_load(&elf).expect("segments"),
        vec![
            PTLoad { paddr: 0x2000, data: vec![1, 2], memsz: 8, flags: 5 },
            PTLoad { paddr: 0x4000, data: vec![3], memsz: 1, flags: 6 },
        ]
    );
}

#[test]
fn elf_readers_refuse_other_files() {
    assert!(iter_pt_load(b"no elf").is_err());
    assert!(pack_xip_elf(&[0u8; 52], true).is_err());
}

fn put_words(data: &mut [u8], at: usize, words: &[u32]) {
    for (i, word) in words.iter().enumerate() {
        data[at + 4 * i..at + 4 * i + 4].copy_from_slice(&word.to_le_bytes());
    }
}

/// An image with one segment of code at 0x1000, the symbol 0x1048, and a pair of
/// instructions at 0x1000 that is relocated.
fn image_with_pair(first: u32, second: u32, kind: u32) -> Vec<u8> {
    let mut data = vec![0u8; 268];
    put_words(&mut data, 28, &[52, 84]);
    for (at, half) in [(42, 32u16), (44, 1), (46, 40), (48, 3)] {
        data[at..at + 2].copy_from_slice(&half.to_le_bytes());
    }
    put_words(&mut data, 52, &[1, 204, 0x1000, 0x1000, 8, 0x100, 5, 4]);
    put_words(&mut data, 84, &[0, 1, 2, 0x1000, 204, 8, 0, 0, 4, 0]);
    put_words(&mut data, 124, &[0, 2, 0, 0, 212, 32, 0, 0, 4, 16]);
    put_words(&mut data, 164, &[0, 4, 0, 0, 244, 24, 1, 0, 4, 12]);
    put_words(&mut data, 204, &[first, second]);
    put_words(&mut data, 212 + 16, &[0, 0x1048, 0, 0]);
    put_words(&mut data, 244, &[0x1000, (1 << 8) | 26, 0]);
    put_words(&mut data, 256, &[0x1004, (1 << 8) | kind, 0]);
    data
}

fn word_at(data: &[u8], at: usize) -> u32 {
    u32::from_le_bytes([data[at], data[at + 1], data[at + 2], data[at + 3]])
}

#[test]
fn absolute_pairs_become_relative_to_the_program_counter() {
    let load = image_with_pair(0x0000_17b7, 0x0407_8793, 27);
    let moved = xipify_riscv32_elf(&load);
    assert_eq!(moved.len(), load.len());
    assert_eq!(word_at(&moved, 204), 0x0000_0797);
    assert_eq!(word_at(&moved, 208), 0x0487_8793);
    assert_eq!(&moved[..204], &load[..204]);
    assert_eq!(&moved[212..], &load[212..]);

    let store = image_with_pair(0x0000_17b7, 0x00e7_a023, 28);
    let moved = xipify_riscv32_elf(&store);
    assert_eq!(word_at(&moved, 204), 0x0000_0797);
    assert_eq!(word_at(&moved, 208), 0x04e7_a423);
}

#[test]
fn pairs_that_are_none_stay_as_they_are() {
    let other = image_with_pair(0x0000_1797, 0x0407_8793, 27);
    assert_eq!(xipify_riscv32_elf(&other), other);
    let cut = &image_with_pair(0x0000_17b7, 0x0407_8793, 27)[..260];
    assert_eq!(xipify_riscv32_elf(cut), cut);
    assert_eq!(xipify_riscv32_elf(&[1, 2, 3]), vec![1, 2, 3]);
    let mut data_only = image_with_pair(0x0000_17b7, 0x0407_8793, 27);
    put_words(&mut data_only, 52 + 24, &[6]);
    assert_eq!(xipify_riscv32_elf(&data_only), data_only);
}

#[test]
fn cache_keys_depend_on_all_inputs() {
    let compiler =
        Compiler::new("/r".to_owned(), 8, 140, (16, 2), (16, 3), false, firmware_set());
    let config = CompileConfig::plain(vec![KernelCb::new(0, DType::Float16B)]);
    let plan = |source: &str, processor: &str, noc: u8| {
        compiler.compile_dataflow(source, processor, Some(noc), &config).expect("plan")
    };
    let base = kernel_cache_key(&plan("a", "brisc", 1), &vec![], &[1, 2]);
    assert_eq!(base.len(), 16);
    assert!(base.chars().all(|c| c.is_ascii_hexdigit() && !c.is_ascii_uppercase()));
    assert_eq!(kernel_cache_key(&plan("a", "brisc", 1), &vec![], &[1, 2]), base);
    let extra = vec![NamedBytes { name: "x.h".to_owned(), data: vec![] }];
    let longer = vec![NamedBytes { name: "x.".to_owned(), data: b"h".to_vec() }];
    let others = [
        kernel_cache_key(&plan("b", "brisc", 1), &vec![], &[1, 2]),
        kernel_cache_key(&plan("a", "brisc", 0), &vec![], &[1, 2]),
        kernel_cache_key(&plan("a", "brisc", 1), &extra, &[1, 2]),
        kernel_cache_key(&plan("a", "brisc", 1), &longer, &[1, 2]),
        kernel_cache_key(&plan("a", "brisc", 1), &vec![], &[1]),
    ];
    for (i, key) in others.iter().enumerate() {
        assert_ne!(*key, base);
        assert!(!others[..i].contains(key));
    }

    let base = firmware_cache_key(false, 8, 140, (16, 2), (16, 3), &extra);
    assert_eq!(base.len(), 16);
    assert_ne!(firmware_cache_key(true, 8, 140, (16, 2), (16, 3), &extra), base);
    assert_ne!(firmware_cache_key(false, 7, 140, (16, 2), (16, 3), &extra), base);
    assert_ne!(firmware_cache_key(false, 8, 140, (16, 2), (16, 3), &longer), base);
}

#[test]
fn cut_and_extended_entries_are_refused() {
    for elf_bytes in [None, Some(vec![]), Some(vec![7, 8])] {
        let kernel = CompiledKernel { xip: vec![1, 2, 3], xip_text_bytes: 2, elf_bytes };
        let entry = encode_kernel_cache(&kernel);
        assert_eq!(decode_kernel_cache(&entry).expect("entry"), kernel);
        for n in 0..entry.len() {
            assert!(decode_kernel_cache(&entry[..n]).is_err());
        }
        let mut longer = entry.clone();
        longer.extend([0, 0, 0]);
        let err = decode_kernel_cache(&longer).expect_err("trailing");
        assert_eq!(err.kind, ErrorKind::InvalidData);
        assert_eq!(err.to_string(), "cache entry has trailing data");
    }

    let kept = encode_firmware_cache(&firmware_set());
    for n in 0..kept.len() {
        assert!(decode_firmware_cache(&kept[..n]).is_err());
    }
    let mut longer = kept.clone();
    longer.push(1);
    let err = decode_firmware_cache(&longer).expect_err("trailing");
    assert_eq!(err.to_string(), "cache entry has trailing data");
}

#[test]
fn missing_and_empty_images_have_different_entries() {
    let missing = CompiledKernel { xip: vec![1], xip_text_bytes: 1, elf_bytes: None };
    let empty = CompiledKernel { elf_bytes: Some(vec![]), ..missing.clone() };
    assert_ne!(encode_kernel_cache(&missing), encode_kernel_cache(&empty));
}

#[test]
fn images_without_relocations_stay_as_they_are() {
    let mut plain = image_with_pair(0x0000_17b7, 0x0407_8793, 27);
    put_words(&mut plain, 164 + 4, &[9]);
    assert_eq!(xipify_riscv32_elf(&plain), plain);
}

fn hashed_kernel_key(plan: &BuildPlan, extra: &[NamedBytes], fw_elf: &[u8]) -> String {
    let mut hasher = DefaultHasher::new();
    "kern-v3".hash(&mut hasher);
    plan.kernel_source.as_str().hash(&mut hasher);
    plan.target.name().hash(&mut hasher);
    plan.defines[..].hash(&mut hasher);
    plan.opt.as_str().hash(&mut hasher);
    plan.target.trisc().hash(&mut hasher);
    plan.xip_relocate.hash(&mut hasher);
    plan.headers.len().hash(&mut hasher);
    for header in &plan.headers {
        header.name.hash(&mut hasher);
        header.content.hash(&mut hasher);
    }
    extra.len().hash(&mut hasher);
    for file in extra {
        PathBuf::from(&file.name).hash(&mut hasher);
        file.data.hash(&mut hasher);
    }
    fw_elf.hash(&mut hasher);
    format!("{:016x}", hasher.finish())
}

#[test]
fn keys_are_hashes_of_the_inputs_in_order() {
    let mut firmware = firmware_set();
    for name in ["trisc0", "trisc1", "trisc2"] {
        let entry = CompiledFirmware { elf_bytes: vec![1], segments: vec![], scratch_base: 0 };
        firmware.insert(name.to_owned(), entry);
    }
    let compiler = Compiler::new("/r".to_owned(), 8, 140, (16, 2), (16, 3), false, firmware);
    let config = CompileConfig::plain(vec![KernelCb::new(0, DType::Float16B)]);
    let data = compiler.compile_dataflow("void f();\n", "brisc", None, &config).expect("plan");
    let (unpack, _, _) = compiler.compile_compute("\u{e9}\u{1f600}", &config).expect("plans");
    let paths = [
        "x.h", "sub/x.h", "a/b/c/d.hpp", "./a", "a/./b", "/a//b/", "a/.", "a/..", ".", "", "/", "//.",
        ".h/.x", "a/.b/...", "./.", "e\u{301}/\u{e9}",
    ];
    let mut all = Vec::new();
    for path in paths {
        let file = NamedBytes { name: path.to_owned(), data: path.bytes().rev().collect() };
        for plan in [&data, &unpack] {
            let extra = vec![file.clone()];
            let key = kernel_cache_key(plan, &extra, &[1, 2, 3]);
            assert_eq!(key, hashed_kernel_key(plan, &extra, &[1, 2, 3]), "path {path:?}");
        }
        all.push(file);
    }
    assert_eq!(kernel_cache_key(&data, &all, &[]), hashed_kernel_key(&data, &all, &[]));
    assert_eq!(kernel_cache_key(&data, &vec![], &[9]), hashed_kernel_key(&data, &[], &[9]));

    let sources = vec![
        NamedBytes { name: "brisc.cc".to_owned(), data: b"int a;".to_vec() },
        NamedBytes { name: "ncrisc.cc".to_owned(), data: vec![] },
    ];
    let (prefetch, dispatch) = ((16u8, 2u8), (16u8, 3u8));
    let mut hasher = DefaultHasher::new();
    "fw-v3".hash(&mut hasher);
    true.hash(&mut hasher);
    8usize.hash(&mut hasher);
    140usize.hash(&mut hasher);
    prefetch.hash(&mut hasher);
    dispatch.hash(&mut hasher);
    ["brisc.cc", "ncrisc.cc"][..].hash(&mut hasher);
    for source in &sources {
        source.name.as_str().hash(&mut hasher);
        source.data.hash(&mut hasher);
    }
    let want = format!("{:016x}", hasher.finish());
    assert_eq!(firmware_cache_key(true, 8, 140, prefetch, dispatch, &sources), want);
}

#[test]
fn firmware_is_kept_alike_in_whatever_order_it_was_stored() {
    let names = ["trisc1", "brisc", "ncrisc", "trisc0"];
    let entry = |i: usize| CompiledFirmware {
        elf_bytes: vec![i as u8],
        segments: vec![],
        scratch_base: i as u32,
    };
    let mut sets = Vec::new();
    for order in [[0, 1, 2, 3], [3, 2, 1, 0], [2, 0, 3, 1]] {
        let mut set = FirmwareSet::new();
        for i in order {
            set.insert(names[i].to_owned(), entry(i));
        }
        sets.push(set);
    }
    let bytes = encode_firmware_cache(&sets[0]);
    assert_eq!(&bytes[..12], b"LTTFIRM1\x04\0\0\0");
    for set in &sets {
        assert_eq!(*set, sets[0]);
        assert_eq!(encode_firmware_cache(set), bytes);
    }
    let at = |name: &str| bytes.windows(name.len()).position(|w| w == name.as_bytes());
    assert!(at("brisc") < at("ncrisc") && at("ncrisc") < at("trisc0") && at("trisc0") < at("trisc1"));
}
