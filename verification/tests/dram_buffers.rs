//! Tiled layouts, banks and the allocator.

use libtt::dram::access::{
    bank_tiles, check_range, gather, plan_host_write, plan_read, plan_write, tlb_config,
    NocOrdering,
};
use libtt::dram::allocator::{
    allocate_free_block, allocator_stats, insert_free_block, next_allocation_range, DeviceAllocatorState, FreeBlock,
};
use libtt::dram::banks::{collect_bank_data, scatter_bank_data};
use libtt::dram::devices::AllocatorStates;
use libtt::dram::layout::{tilize, untilize};
use libtt::dram::{
    tiled_allocation_shape, tiled_shape_tile_count, validate_allocation_shape, DType, DramBuffer,
};
use libtt::hw::{CoreCoord, Dram};

fn bytes_from_u16(values: &[u16]) -> Vec<u8> {
    values
        .iter()
        .flat_map(|value| value.to_le_bytes())
        .collect()
}

fn bytes_from_u32(values: &[u32]) -> Vec<u8> {
    values
        .iter()
        .flat_map(|value| value.to_le_bytes())
        .collect()
}

fn buffer(num_tiles: usize, dtype: DType, shape: Vec<usize>) -> DramBuffer {
    DramBuffer {
        name: "weights".to_owned(),
        addr: Dram::WRITE_OFFSET,
        num_tiles,
        dtype,
        shape,
    }
}

#[test]
fn tilize_roundtrips_u16_tensor() {
    let values = (0..(64 * 64) as u16).collect::<Vec<_>>();
    let bytes = bytes_from_u16(&values);
    let tiled = tilize(&bytes, DType::Float16, &[64, 64]).expect("tilize should succeed");
    let untiled = untilize(&tiled, DType::Float16, &[64, 64]).expect("untilize should succeed");
    assert_eq!(untiled, bytes);
}

#[test]
fn tilize_roundtrips_batched_u32_tensor() {
    let values = (0..(2 * 32 * 64) as u32).collect::<Vec<_>>();
    let bytes = bytes_from_u32(&values);
    let tiled = tilize(&bytes, DType::UInt32, &[2, 32, 64]).expect("tilize should succeed");
    let untiled =
        untilize(&tiled, DType::UInt32, &[2, 32, 64]).expect("untilize should succeed");
    assert_eq!(untiled, bytes);
}

#[test]
fn tilize_stores_faces_one_after_another() {
    let values = (0..(32 * 32) as u16).collect::<Vec<_>>();
    let tiled = tilize(&bytes_from_u16(&values), DType::UInt16, &[32, 32]).expect("tilize");
    let at = |i: usize| u16::from_le_bytes([tiled[2 * i], tiled[2 * i + 1]]);
    assert_eq!(at(0), 0);
    assert_eq!(at(15), 15);
    // The second row of the first face, then the second face.
    assert_eq!(at(16), 32);
    assert_eq!(at(256), 16);
    assert_eq!(at(512), 16 * 32);
}

#[test]
fn tilize_refuses_data_of_another_size() {
    assert!(tilize(&[0u8; 10], DType::UInt8, &[32, 32]).is_err());
    assert!(tilize(&[0u8; 33 * 32], DType::UInt8, &[33, 32]).is_err());
    assert!(untilize(&[0u8; 32], DType::UInt8, &[32]).is_err());
}

#[test]
fn buffer_size_matches_tile_count() {
    let buffer = buffer(3, DType::Float16, vec![32, 96]);

    assert_eq!(buffer.page_size(), 2048);
    assert_eq!(buffer.size(), 6144);
}

#[test]
fn allocation_shape_validation_rejects_logical_shape() {
    let err = validate_allocation_shape(1, &[3, 2])
        .expect_err("logical shape must not be accepted as allocation shape");
    assert!(err.to_string().contains("tiled allocation shape"));
}

#[test]
fn allocation_shape_validation_checks_tile_count() {
    let err = validate_allocation_shape(1, &[32, 64])
        .expect_err("shape tile count must match allocation tile count");
    assert!(err.to_string().contains("tile count mismatch"));
}

#[test]
fn shapes_are_rounded_to_whole_tiles() {
    assert_eq!(tiled_allocation_shape(&[]).unwrap(), vec![32, 32]);
    assert_eq!(tiled_allocation_shape(&[33]).unwrap(), vec![32, 64]);
    assert_eq!(tiled_allocation_shape(&[5, 1, 33]).unwrap(), vec![5, 32, 64]);
    assert_eq!(tiled_shape_tile_count(&[5, 1, 33]).unwrap(), 10);
    assert!(tiled_allocation_shape(&[usize::MAX]).is_err());
    assert!(tiled_shape_tile_count(&[usize::MAX, 32, 64]).is_err());
}

#[test]
fn dram_collect_bank_data_interleaves_pages() {
    let data = (0u8..10).collect::<Vec<_>>();
    assert_eq!(collect_bank_data(&data, 2, 0, 2), vec![0, 1, 4, 5, 8, 9]);
    assert_eq!(collect_bank_data(&data, 2, 1, 2), vec![2, 3, 6, 7]);
}

#[test]
fn dram_scatter_bank_data_restores_page_order() {
    let mut out = vec![0u8; 10];
    scatter_bank_data(&mut out, 2, 0, 2, &[0, 1, 4, 5, 8, 9]);
    scatter_bank_data(&mut out, 2, 1, 2, &[2, 3, 6, 7]);
    assert_eq!(out, (0u8..10).collect::<Vec<_>>());
}

#[test]
fn linux_collect_bank_data_interleaves_pages() {
    let data = (0u8..10).collect::<Vec<_>>();
    assert_eq!(collect_bank_data(&data, 2, 0, 2), vec![0, 1, 4, 5, 8, 9]);
    assert_eq!(collect_bank_data(&data, 2, 1, 2), vec![2, 3, 6, 7]);
}

#[test]
fn linux_scatter_bank_data_restores_page_order() {
    let mut out = vec![0u8; 10];
    scatter_bank_data(&mut out, 2, 0, 2, &[0, 1, 4, 5, 8, 9]);
    scatter_bank_data(&mut out, 2, 1, 2, &[2, 3, 6, 7]);
    assert_eq!(out, (0u8..10).collect::<Vec<_>>());
}

#[test]
fn collect_and_scatter_bank_data_roundtrip() {
    let input = (0u8..17).collect::<Vec<_>>();
    let page_size = 3;
    let bank_count = 3;
    let mut out = vec![0u8; input.len()];

    for bank_index in 0..bank_count {
        let bank_data = collect_bank_data(&input, page_size, bank_index, bank_count);
        scatter_bank_data(&mut out, page_size, bank_index, bank_count, &bank_data);
    }

    assert_eq!(out, input);
}

#[test]
fn allocation_range_errors_when_capacity_is_exceeded() {
    let err = next_allocation_range(Dram::TLB_SIZE_4G, 1, DType::Float16, 1)
        .expect_err("allocation should exceed the per-bank address space");
    assert!(err.to_string().contains("exceeds per-bank address space"));
}

#[test]
fn free_list_reuses_released_blocks() {
    let mut state = DeviceAllocatorState::new();

    let (addr, size, _) = state.allocate_allocation_range(1, DType::Float16, 1).unwrap();
    state.free_allocation(addr, size);

    let (reused, _, _) = state.allocate_allocation_range(1, DType::Float16, 1).unwrap();
    assert_eq!(reused, addr);
}

#[test]
fn neighbouring_free_blocks_are_joined() {
    let mut free: Vec<FreeBlock> = Vec::new();
    insert_free_block(&mut free, FreeBlock { addr: 0x100, size: 0x40 });
    insert_free_block(&mut free, FreeBlock { addr: 0x180, size: 0x40 });
    assert_eq!(free.len(), 2);
    insert_free_block(&mut free, FreeBlock { addr: 0x140, size: 0x40 });
    assert_eq!(free, vec![FreeBlock { addr: 0x100, size: 0xc0 }]);
}

fn block(addr: u64, size: u64) -> FreeBlock {
    FreeBlock { addr, size }
}

#[test]
fn free_lists_in_any_order_are_sorted_and_joined() {
    let mut free = vec![block(0x300, 0x40), block(0x100, 0x80), block(0x140, 0x10), block(0x40, 0)];
    insert_free_block(&mut free, block(0x340, 0x40));
    assert_eq!(free, vec![block(0x40, 0), block(0x100, 0x80), block(0x300, 0x80)]);

    let mut overlapping = vec![block(0x200, 0x100), block(0x100, 0x180)];
    insert_free_block(&mut overlapping, block(0x80, 0x80));
    assert_eq!(overlapping, vec![block(0x80, 0x280)]);

    let mut unordered = vec![block(0x300, 0x40), block(0x100, 0x40)];
    insert_free_block(&mut unordered, block(0x500, 0));
    assert_eq!(unordered, vec![block(0x300, 0x40), block(0x100, 0x40)]);

    let mut last = vec![block(u64::MAX - 0x80, 0x40)];
    insert_free_block(&mut last, block(u64::MAX - 0x40, 0x40));
    assert_eq!(last, vec![block(u64::MAX - 0x80, 0x80)]);
}

#[test]
fn the_first_of_the_smallest_blocks_is_taken_from() {
    let list = || vec![block(0x900, 0x80), block(0x100, 0x40), block(0x500, 0x40)];
    let mut free = list();
    assert_eq!(allocate_free_block(&mut free, 0x20), Some(0x100));
    assert_eq!(free, vec![block(0x900, 0x80), block(0x120, 0x20), block(0x500, 0x40)]);
    let mut free = list();
    assert_eq!(allocate_free_block(&mut free, 0x40), Some(0x100));
    assert_eq!(free, vec![block(0x900, 0x80), block(0x500, 0x40)]);
    let mut free = list();
    assert_eq!(allocate_free_block(&mut free, 0x41), Some(0x900));
    assert_eq!(free, vec![block(0x941, 0x3f), block(0x100, 0x40), block(0x500, 0x40)]);
    let mut free = list();
    assert_eq!(allocate_free_block(&mut free, 0x81), None);
    assert_eq!(free, list());
}

#[test]
fn allocations_do_not_overlap_and_are_accounted_for() {
    let mut state = DeviceAllocatorState::new();
    let (a, size_a, _) = state.allocate_allocation_range(3, DType::Float32, 2).unwrap();
    let (b, size_b, _) = state.allocate_allocation_range(1, DType::Float32, 2).unwrap();
    assert!(a + size_a <= b || b + size_b <= a);
    let used = allocator_stats(Some(&state), 2);
    state.free_allocation(a, size_a);
    let fewer = allocator_stats(Some(&state), 2);
    assert_eq!(used.bytes_in_use, (size_a + size_b) * 2);
    assert_eq!(fewer.bytes_in_use, size_b * 2);
    assert_eq!(fewer.bytes_limit, used.bytes_limit);
    assert_eq!(allocator_stats(None, 2).bytes_in_use, 0);
}

#[test]
fn allocated_buffers_keep_their_shape() {
    let mut state = DeviceAllocatorState::new();
    let made = state
        .allocate_buffer(2, DType::Float16B, "x".to_owned(), vec![32, 64], 8)
        .expect("buffer");
    assert_eq!(made.buffer.shape, vec![32, 64]);
    assert_eq!(made.buffer.num_tiles, 2);
    assert!(state
        .allocate_buffer(3, DType::Float16B, "x".to_owned(), vec![32, 64], 8)
        .is_err());
    let tiles = vec![0u8; DType::UInt8.tile_size() * 2];
    let kept = state
        .alloc_for_tiles(&tiles, DType::UInt8, "t".to_owned(), vec![64, 32], 8)
        .expect("tiles");
    assert_eq!(kept.buffer.num_tiles, 2);
    assert!(state
        .alloc_for_tiles(&tiles[1..], DType::UInt8, "t".to_owned(), vec![64, 32], 8)
        .is_err());
}

#[test]
fn reading_back_gives_what_was_written() {
    let buf = buffer(3, DType::UInt8, vec![32, 96]);
    let data: Vec<u8> = (0..buf.size()).map(|i| (i % 251) as u8).collect();
    let writes = plan_write(&buf, &data, 2).expect("writes");
    let lengths = plan_read(&buf, 2);
    assert_eq!(lengths, vec![2048, 1024]);
    let mut read: Vec<Vec<u8>> = lengths.iter().map(|n| vec![0u8; *n]).collect();
    for write in &writes {
        read[write.bank] = write.data.clone();
    }
    assert_eq!(gather(&buf, &read), data);
    let too_long = vec![0u8; buf.size() + 1];
    let err = plan_write(&buf, &too_long, 2).expect_err("larger than the buffer");
    assert!(err.to_string().contains("buffer write exceeds allocation"));
}

#[test]
fn host_data_is_tiled_before_it_is_written() {
    let buf = buffer(1, DType::UInt16, vec![32, 32]);
    let values = (0..(32 * 32) as u16).collect::<Vec<_>>();
    let data = bytes_from_u16(&values);
    let writes = plan_host_write(&buf, &data, 1).expect("writes");
    assert_eq!(writes[0].data, tilize(&data, DType::UInt16, &[32, 32]).unwrap());
}

#[test]
fn rows_are_read_back_as_they_were_written() {
    let buf = buffer(4, DType::UInt16, vec![64, 64]);
    let values = (0..(64 * 64) as u16).collect::<Vec<_>>();
    let data = bytes_from_u16(&values);
    let lengths = plan_read(&buf, 3);
    let mut banks: Vec<Vec<u8>> = lengths.iter().map(|len| vec![0xff; *len]).collect();
    for write in plan_host_write(&buf, &data, 3).expect("writes") {
        banks[write.bank][..write.data.len()].copy_from_slice(&write.data);
    }
    let tiles = gather(&buf, &banks);
    assert_ne!(tiles, data);
    assert_eq!(untilize(&tiles, buf.dtype, &buf.shape).expect("rows"), data);
}

#[test]
fn each_bank_is_reached_through_one_tile() {
    let tiles = Dram::tiles(&[7]);
    let chosen = bank_tiles(&tiles).expect("banks");
    assert_eq!(chosen.len(), 7);
    assert_eq!(chosen.iter().map(|t| t.bank).collect::<Vec<_>>(), (0..7).collect::<Vec<_>>());
}

#[test]
fn windows_are_checked() {
    assert!(check_range(0, 16, 16).is_ok());
    assert!(check_range(1, 16, 16).is_err());
    assert!(check_range(usize::MAX, 2, 16).is_err());
    let config = tlb_config(CoreCoord { x: 1, y: 2 }, None, 0x40, NocOrdering::Strict);
    assert_eq!((config.x_start, config.y_start, config.x_end, config.y_end), (1, 2, 1, 2));
    assert_eq!(config.mcast, 0);
    let many = tlb_config(
        CoreCoord { x: 1, y: 2 },
        Some(CoreCoord { x: 3, y: 4 }),
        0x40,
        NocOrdering::Strict,
    );
    assert_eq!((many.x_end, many.y_end, many.mcast), (3, 4, 1));
}

#[test]
fn banks_are_put_back_in_any_order() {
    let input = (0u8..17).collect::<Vec<_>>();
    for order in [[2, 0, 1], [1, 2, 0], [2, 1, 0]] {
        let mut out = vec![0xffu8; input.len()];
        for bank in order {
            let before = out.clone();
            scatter_bank_data(&mut out, 3, bank, 3, &collect_bank_data(&input, 3, bank, 3));
            assert_eq!(out.len(), before.len());
            for k in (0..out.len()).filter(|k| (k / 3) % 3 != bank) {
                assert_eq!(out[k], before[k]);
            }
        }
        assert_eq!(out, input);
    }
}

#[test]
fn ranges_are_aligned_and_stay_in_use_until_they_are_given_back() {
    let mut state = DeviceAllocatorState::new();
    let mut live: Vec<(u64, u64)> = Vec::new();
    for (tiles, dtype) in [(3, DType::Float32), (1, DType::UInt8), (5, DType::UInt16)] {
        let (addr, size, _) = state.allocate_allocation_range(tiles, dtype, 2).expect("range");
        live.push((addr, size));
    }
    let (addr, size) = live.remove(1);
    state.free_allocation(addr, size);
    let (again, size, _) = state.allocate_allocation_range(2, DType::UInt8, 2).expect("range");
    assert_eq!(again, addr);
    live.push((again, size));
    for (i, (addr, size)) in live.iter().enumerate() {
        assert_eq!((addr % 64, size % 64), (0, 0));
        assert!(*addr >= 0x40 && addr + size <= 1 << 32);
        for (other, other_size) in &live[..i] {
            assert!(addr + size <= *other || other + other_size <= *addr);
        }
    }
    let next = state.next;
    let (addr, size, _) = state.allocate_allocation_range(0, DType::Float32, 2).expect("nothing");
    assert_eq!((addr, size, state.next), (next, 0, next));
}

#[test]
fn the_largest_block_decides_the_next_allocation() {
    let mut state = DeviceAllocatorState::new();
    let untouched = allocator_stats(Some(&state), 1);
    assert_eq!(untouched, allocator_stats(None, 1));
    assert_eq!(untouched.largest_free_block_bytes, untouched.bytes_limit);
    assert_eq!(untouched.bytes_limit, (1 << 32) - 0x40);
    let tile = DType::Float32.tile_size() as u64;
    let most = (untouched.largest_free_block_bytes / tile) as usize;
    assert!(state.allocate_allocation_range(most + 1, DType::Float32, 1).is_err());
    let (addr, size, _) = state.allocate_allocation_range(most - 2, DType::Float32, 1).expect("most");
    let left = allocator_stats(Some(&state), 1).largest_free_block_bytes;
    assert_eq!(left, untouched.bytes_limit - size);
    assert!(state.allocate_allocation_range(3, DType::Float32, 1).is_err());
    assert!(state.allocate_allocation_range(2, DType::Float32, 1).is_ok());
    state.free_allocation(addr, size);
    assert_eq!(allocator_stats(Some(&state), 1).largest_free_block_bytes, size);
    assert!(state.allocate_allocation_range(most - 1, DType::Float32, 1).is_err());
    assert!(state.allocate_allocation_range(most - 2, DType::Float32, 1).is_ok());
}

#[test]
fn devices_do_not_share_their_allocations() {
    let mut all = AllocatorStates::new();
    let (a, size, next) = all.allocate_allocation_range(0, 4, DType::Float16, 2).expect("range");
    assert_eq!((a, next), (0x40, 0x40 + size));
    let used = all.allocator_stats(0, 2);
    assert_eq!(used.bytes_in_use, size * 2);
    assert_eq!(all.allocator_stats(1, 2).bytes_in_use, 0);
    let (b, _, _) = all.allocate_allocation_range(1, 4, DType::Float16, 2).expect("range");
    assert_eq!(b, a);
    assert!(all.allocate_allocation_range(1, usize::MAX, DType::Float16, 2).is_err());
    assert_eq!(all.allocator_stats(0, 2), used);
    all.free_allocation(1, b, size);
    assert_eq!(all.allocator_stats(1, 2).bytes_in_use, 0);
    assert_eq!(all.allocator_stats(0, 2), used);

    let buffer = all
        .allocate_buffer(0, 2, DType::Float16B, "x".to_owned(), vec![32, 64], 2)
        .expect("buffer");
    assert_eq!(buffer.buffer.addr, next);
    let data = vec![1u8; DType::UInt8.tile_size()];
    let tiles = all.alloc_for_tiles(7, &data, DType::UInt8, "t".to_owned(), vec![32, 32], 2);
    assert_eq!(tiles.expect("tiles").buffer.addr, 0x40);
    let rows = all.alloc_for_host_data(7, &data, DType::UInt8, "r".to_owned(), vec![32, 32], 2);
    assert_eq!(rows.expect("rows").buffer.addr, 0x40 + 1024);
}

#[test]
fn pages_and_banks_may_be_larger_than_the_data() {
    let input = (1u8..6).collect::<Vec<_>>();
    assert_eq!(collect_bank_data(&input, usize::MAX, 0, 3), input);
    assert_eq!(collect_bank_data(&input, usize::MAX, 1, 3), Vec::<u8>::new());
    assert_eq!(collect_bank_data(&input, 2, 1, usize::MAX), vec![3, 4]);
    assert_eq!(collect_bank_data(&input, 2, usize::MAX, usize::MAX), Vec::<u8>::new());
    let mut out = vec![0u8; 5];
    scatter_bank_data(&mut out, usize::MAX, 0, usize::MAX, &input);
    assert_eq!(out, input);
    scatter_bank_data(&mut out, 2, 2, usize::MAX, &[9]);
    assert_eq!(out, vec![1, 2, 3, 4, 9]);
}
