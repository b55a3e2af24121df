//! The addresses that kernels hand to their cores, and descriptions of devices.

use libtt::device::probe::{check_entry_count_at, configure_tlb, tag_offset, value_offset};
use libtt::device::{BoardKind, Device, ProbeInfo};
use libtt::dram::{DType, DramBuffer};
use libtt::hw::CoreCoord;
use libtt::kernels::dynamic_update_slice::{
    dynamic_update_slice_kernel, dynamic_update_slice_shape, DynamicUpdateSliceProgramKey,
};
use libtt::kernels::gather::{gather_kernel, gather_shape, GatherProgramKey};
use libtt::kernels::heads::{
    repeat_heads_kernel, repeat_heads_kernel_shape, stack_heads_kernel, stack_heads_kernel_shape,
    RepeatHeadsProgramKey, StackHeadsProgramKey,
};
use libtt::kernels::kernel::Kernel;

fn at(x: u8, y: u8) -> CoreCoord {
    CoreCoord { x, y }
}

fn buffer(addr: u64) -> DramBuffer {
    DramBuffer {
        name: "t".to_owned(),
        addr,
        num_tiles: 1,
        dtype: DType::Int32,
        shape: vec![32, 32],
    }
}

#[test]
fn gathers_take_operand_and_indices() {
    let shape = gather_shape(&[64, 64], None, &[32, 64], 0, DType::Float16B).expect("shape");
    let key = GatherProgramKey { cores: vec![at(1, 2)], dtype: DType::Float16B, shape };
    let kernel = gather_kernel(0x100, 0x200, 0x300, key.clone()).expect("kernel");
    assert_eq!(kernel.reader_runtime_arg(at(1, 2), 0), Some(0x100));
    assert_eq!(kernel.reader_runtime_arg(at(1, 2), 1), Some(0x200));
    assert_eq!(kernel.reader_runtime_arg(at(1, 2), 2), None);
    assert_eq!(kernel.writer_runtime_arg(at(1, 2), 0), Some(0x300));
    assert!(gather_kernel(0x1_0000_0000, 0, 0, key).is_err());
}

#[test]
fn updates_take_one_index_for_each_dimension() {
    let shape = dynamic_update_slice_shape(&[64, 64], &[32, 32]).expect("shape");
    let key = DynamicUpdateSliceProgramKey { cores: vec![at(1, 2)], dtype: DType::Int32, shape };
    let starts = [buffer(0x30), buffer(0x40)];
    let kernel = dynamic_update_slice_kernel(0x10, 0x20, &starts, 0x50, key).expect("kernel");
    assert_eq!(kernel.reader_addrs, vec![0x10, 0x20, 0x30, 0x40]);
    assert_eq!(kernel.output_addr, 0x50);
}

#[test]
fn heads_take_their_inputs_in_order() {
    let shape = stack_heads_kernel_shape(&[32, 32], &[32, 2, 32], 2, false).expect("shape");
    let key = StackHeadsProgramKey { cores: vec![at(1, 2)], dtype: DType::Int32, shape };
    let (a, b) = (buffer(0x60), buffer(0x70));
    let kernel = stack_heads_kernel(&[&a, &b], 0x80, key).expect("kernel");
    assert_eq!(kernel.reader_addrs, vec![0x60, 0x70]);
    assert_eq!(kernel.output_addr, 0x80);

    let shape = repeat_heads_kernel_shape(&[32, 2, 32], &[32, 4, 32]).expect("shape");
    assert_eq!(shape.repeat_factor, 2);
    let key = RepeatHeadsProgramKey { cores: vec![at(1, 2)], dtype: DType::Int32, shape };
    let kernel = repeat_heads_kernel(0x90, 0xa0, key).expect("kernel");
    assert_eq!(kernel.reader_addrs, vec![0x90]);
    assert_eq!(kernel.output_addr, 0xa0);
}

#[test]
fn devices_describe_themselves() {
    let probe = ProbeInfo { tensix_enabled_col_mask: 0x0fff, gddr_enabled_mask: 0x7f };
    let device =
        Device::from_probe(3, 5, "/dev/tenstorrent/5".to_owned(), probe).expect("device");
    assert_eq!(device.device_kind(), format!("Tenstorrent {}", BoardKind::P100.name()));
    assert_eq!(device.device_to_string(), "tt:p100:3");
    assert_eq!(device.memory_to_string(), "tt:p100:memory:3");
    assert_eq!(
        device.device_debug_string(),
        format!(
            "Tenstorrent device 3 (board=p100, cores=120, workers=118, dram_banks=7, cq={}/{}, path=/dev/tenstorrent/5)",
            device.prefetch_core.to_string(),
            device.dispatch_core.to_string()
        )
    );
    assert_eq!(
        device.memory_debug_string(),
        "Tenstorrent DRAM (device=3, dram_banks=7, harvested=[7], tiles=21)"
    );
    assert!(device.check_topology().is_ok());
    assert_eq!(BoardKind::from_tensix_core_count(140), Some(BoardKind::P150));
    assert_eq!(BoardKind::from_tensix_core_count(100), None);
}

#[test]
fn windows_are_described_by_register_words() {
    let words = configure_tlb(0, 0x60_0000, at(8, 0), at(8, 0));
    let value: u128 = 3 | (8 << 43) | (8 << 55) | (1 << 70);
    assert_eq!(
        words,
        vec![
            (0x1fc0_0000, value as u32),
            (0x1fc0_0004, (value >> 32) as u32),
            (0x1fc0_0008, (value >> 64) as u32),
            (0x1fc0_0000 + 2520, 0),
        ]
    );
    assert_eq!(configure_tlb(32, 0, at(1, 2), at(1, 2)).len(), 3);
    assert_eq!(tag_offset(0x100, 2), 0x110);
    assert_eq!(value_offset(0x100, 3, 2), 0x100 + 8 + 12 + 8);
    assert!(check_entry_count_at(0, 0x10).is_err());
    assert_eq!(
        check_entry_count_at(4097, 0x10).expect_err("too many").to_string(),
        "invalid ARC telemetry entry_count 0x1001 at 0x10"
    );
}
