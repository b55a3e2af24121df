//! Each kind of failure, with an input that gives it.

use libtt::bridge::{io_error, pjrt_buffer_type_to_dtype as host_type};
use libtt::compiler::cache::{decode_kernel_cache, encode_kernel_cache};
use libtt::compiler::elf::{iter_pt_load, pack_xip_elf};
use libtt::compiler::toolchain::check_toolchain;
use libtt::compiler::CompiledKernel;
use libtt::cq::ring::sysmem_offset;
use libtt::device::{Device, ProbeInfo};
use libtt::dram::allocator::next_allocation_range;
use libtt::dram::DType;
use libtt::error::{Error, ErrorKind};
use libtt::executable::pjrt_buffer_type_to_dtype;
use libtt::hw::Dram;

fn probed(tensix_enabled_col_mask: u32, gddr_enabled_mask: u32) -> Result<Device, Error> {
    let probe = ProbeInfo { tensix_enabled_col_mask, gddr_enabled_mask };
    Device::from_probe(0, 0, "/dev/tenstorrent/0".to_owned(), probe)
}

#[test]
fn short_data_ends_unexpectedly() {
    let kernel = CompiledKernel { xip: vec![1, 2, 3], xip_text_bytes: 3, elf_bytes: None };
    let data = encode_kernel_cache(&kernel);
    let err = decode_kernel_cache(&data[..data.len() - 1]).expect_err("short entry");
    assert_eq!(err.kind, ErrorKind::UnexpectedEof);
    assert_eq!(err.to_string(), "short cache read");

    let mut elf = vec![0u8; 52];
    elf[..6].copy_from_slice(&[0x7f, b'E', b'L', b'F', 1, 1]);
    elf[28] = 52;
    elf[42] = 32;
    elf[44] = 1;
    let err = iter_pt_load(&elf).expect_err("missing header");
    assert_eq!(err.kind, ErrorKind::UnexpectedEof);
    assert_eq!(err.to_string(), "short read");

    elf[44] = 0;
    let err = pack_xip_elf(&elf, false).expect_err("nothing to load");
    assert_eq!(err.kind, ErrorKind::InvalidData);
    assert_eq!(err.to_string(), "no PT_LOAD segments");
}

#[test]
fn unknown_types_and_boards_are_unsupported() {
    let err = pjrt_buffer_type_to_dtype(99).expect_err("unknown type");
    assert_eq!(err.kind, ErrorKind::Unsupported);
    assert_eq!(err.to_string(), "unsupported PJRT buffer type 99");
    assert_eq!(pjrt_buffer_type_to_dtype(0).expect_err("no type").kind, ErrorKind::InvalidInput);
    assert_eq!(host_type(99).expect_err("unknown type").code, 12);
    assert_eq!(host_type(0).expect_err("no type").code, 3);

    let err = probed(0x3, 0xff).expect_err("unknown board");
    assert_eq!(err.kind, ErrorKind::Unsupported);
    assert_eq!(err.to_string(), "unsupported tensix core count: 20");
    let err = probed(0x3fff, 0).expect_err("no memory");
    assert_eq!(err.kind, ErrorKind::InvalidInput);
    assert_eq!(err.to_string(), "device probe reported zero active DRAM banks");
}

#[test]
fn other_failures_say_what_went_wrong() {
    let err = next_allocation_range(Dram::TLB_SIZE_4G, 1, DType::Float16, 1).expect_err("full");
    assert_eq!(err.kind, ErrorKind::Other);
    assert_eq!(
        err.to_string(),
        "dram allocation exceeds per-bank address space: end=0x100000800 limit=0x100000000"
    );
    assert_eq!(
        sysmem_offset(0x1234).expect_err("no host address").to_string(),
        "bad CQ sysmem NOC address: 0x1234"
    );
    assert_eq!(
        sysmem_offset(0x1000_0000_0000_0000).expect_err("base").to_string(),
        "CQ sysmem unexpectedly allocated at base PCIe NOC offset"
    );
    assert_eq!(
        sysmem_offset(0x1000_0001_0000_0000).expect_err("too far").to_string(),
        "CQ sysmem NOC offset too large: 0x100000000"
    );
    assert_eq!(sysmem_offset(0x1000_0000_4000_0000).expect("offset"), 0x4000_0000);
    assert_eq!(check_toolchain("/r", true, false).expect_err("no objcopy").kind, ErrorKind::NotFound);
    assert!(check_toolchain("/r", true, true).is_ok());
}

#[test]
fn failures_are_reported_to_the_host_by_code() {
    let code = |kind| io_error(&Error::new(kind, "failed".to_owned())).code;
    assert_eq!(code(ErrorKind::InvalidInput), 3);
    assert_eq!(code(ErrorKind::OutOfMemory), 8);
    assert_eq!(code(ErrorKind::Other), 13);
    assert_eq!(code(ErrorKind::TimedOut), 13);
    let status = io_error(&Error::new(ErrorKind::Other, "a\0b".to_owned()));
    assert_eq!(status.message, "a?b");
}
