//! Topology, bank tables, probing and uploads of a device.

use libtt::device::banks::build_bank_noc_table;
use libtt::device::firmware::{
    encode_jal_zero, mmio_base, not_ready, plan_upload, reset_vectors, stage_firmware,
};
use libtt::device::probe;
use libtt::device::{
    only_arguments, staged_after, staged_key_from_static, staged_program_key, use_fast_dispatch,
    BoardKind, Device, ProbeInfo,
};
use libtt::compiler::elf::PTLoad;
use libtt::compiler::firmware::FirmwareSet;
use libtt::compiler::CompiledFirmware;
use libtt::dispatch::mcast::mcast_rects;
use libtt::dispatch::window::WindowStep;
use libtt::dispatch::Program;
use libtt::error::ErrorKind;
use libtt::hw::{align_down, align_up, noc_xy, worker_cores, Arc, CoreCoord, Dram, TensixMMIO};
use libtt::kernels::kernel::{RuntimeArgs, RuntimeArgsBuilder};
use std::mem::size_of;

fn at(x: u8, y: u8) -> CoreCoord {
    CoreCoord { x, y }
}

#[test]
fn derives_blackhole_style_topology_from_probe_info() {
    let device = Device::from_probe(
        0,
        0,
        "/dev/tenstorrent/0".to_owned(),
        ProbeInfo {
            tensix_enabled_col_mask: 0x0fff,
            gddr_enabled_mask: 0x7f,
        },
    )
    .expect("device");

    assert_eq!(device.board, BoardKind::P100);
    assert_eq!(device.arch, "p100");
    assert_eq!(device.tensix_core_count, 120);
    assert_eq!(device.all_worker_cores.len(), 120);
    assert_eq!(device.cores().len(), 118);
    assert_eq!(device.prefetch_core, at(14, 2));
    assert_eq!(device.dispatch_core, at(14, 3));
    assert_eq!(device.harvested_dram_banks, vec![7]);
    assert_eq!(device.active_dram_banks, 7);
    assert_eq!(device.dram_tiles.len(), 21);
    assert!(!device.cores().contains(&at(14, 2)));
    assert!(!device.cores().contains(&at(14, 3)));
}

#[test]
fn derives_p150_worker_layout_from_probe_info() {
    let device = Device::from_probe(
        1,
        1,
        "/dev/tenstorrent/1".to_owned(),
        ProbeInfo {
            tensix_enabled_col_mask: 0x3fff,
            gddr_enabled_mask: 0xff,
        },
    )
    .expect("device");

    assert_eq!(device.board, BoardKind::P150);
    assert_eq!(device.tensix_core_count, 140);
    assert_eq!(device.all_worker_cores.len(), 140);
    assert_eq!(device.cores().len(), 138);
    assert_eq!(device.active_dram_banks, 8);
    assert!(device.harvested_dram_banks.is_empty());
    assert_eq!(device.dram_tiles.len(), 24);
}

#[test]
fn from_probe_refuses_unknown_core_counts() {
    let err = Device::from_probe(
        0,
        0,
        "/dev/tenstorrent/0".to_owned(),
        ProbeInfo { tensix_enabled_col_mask: 0x1, gddr_enabled_mask: 0xff },
    )
    .expect_err("no such board");
    assert!(err.to_string().contains("10"));
}

#[test]
fn mcast_rects_groups_worker_cores_into_rectangles() {
    let rects = mcast_rects(&[
        at(1, 2),
        at(2, 2),
        at(1, 3),
        at(2, 3),
        at(4, 2),
    ]);

    assert_eq!(
        rects,
        vec![(at(1, 2), at(2, 3)), (at(4, 2), at(4, 2))]
    );
}

#[test]
fn mcast_rects_cover_each_core_once() {
    let cores = [at(1, 2), at(2, 2), at(3, 2), at(1, 3), at(7, 9), at(1, 4)];
    let rects = mcast_rects(&cores);
    let mut covered = Vec::new();
    for (start, end) in &rects {
        for x in start.x..=end.x {
            for y in start.y..=end.y {
                covered.push(at(x, y));
            }
        }
    }
    assert_eq!(covered.len(), cores.len());
    for c in &cores {
        assert!(covered.contains(c));
    }
    assert!(mcast_rects(&[]).is_empty());
}

#[test]
fn bank_table_matches_expected_size_for_p100_layout() {
    let worker_cores = worker_cores(&BoardKind::P100.tensix_x());
    let table = build_bank_noc_table(&[7], &worker_cores).expect("bank table");
    let num_dram_banks = Dram::BANK_COUNT - 1;
    let num_l1_banks = worker_cores.len();
    let expected = 2 * num_dram_banks * size_of::<u16>()
        + 2 * num_l1_banks * size_of::<u16>()
        + (num_dram_banks + num_l1_banks) * size_of::<i32>();
    assert_eq!(table.len(), expected);
}

#[test]
fn bank_table_places_dram_banks_apart() {
    let cores = worker_cores(&BoardKind::P150.tensix_x());
    let table = build_bank_noc_table(&[], &cores).expect("bank table");
    let mut places: Vec<u16> = (0..8)
        .map(|i| u16::from_le_bytes([table[2 * i], table[2 * i + 1]]))
        .collect();
    assert_eq!(places[0], (14 << 6) | 17);
    assert_eq!(places[4], (14 << 6) | 18);
    places.sort();
    places.dedup();
    assert_eq!(places.len(), 8);
}

#[test]
fn banks_beside_a_harvested_one_move_to_the_end() {
    let cores = worker_cores(&BoardKind::P150.tensix_x());
    let place = |harvested: usize, bank: usize| {
        let table = build_bank_noc_table(&[harvested], &cores).expect("bank table");
        u16::from_le_bytes([table[2 * bank], table[2 * bank + 1]])
    };
    assert_eq!(place(0, 0), (14 << 6) | 18);
    assert_eq!(place(0, 3), (21 << 6) | 17);
    assert_eq!(place(5, 1), (21 << 6) | 17);
    assert_eq!(place(5, 4), (14 << 6) | 18);
    assert_eq!(build_bank_noc_table(&[0, 1], &cores).unwrap_err().kind, ErrorKind::InvalidInput);
}

#[test]
fn alignment_goes_to_the_next_multiple() {
    assert_eq!(align_up(0, 16), 0);
    assert_eq!(align_up(17, 16), 32);
    assert_eq!(align_down(0x123456, 0x1000), (0x123000, 0x456));
    assert_eq!(noc_xy(3, 5), (5 << 6) | 3);
}

#[test]
fn bank_masks_name_harvested_banks() {
    assert_eq!(Dram::harvested_banks(0b1111_0110), vec![0, 3]);
    assert_eq!(Dram::active_banks(0b1111_0110), 6);
    assert_eq!(Dram::tiles(&[0]).len(), 21);
    assert_eq!(Arc::active_tensix_core_count(0x3fff), 140);
}

#[test]
fn numbers_are_parsed_like_the_standard_library_does() {
    assert_eq!(probe::local_hardware_id("7"), Some(7));
    assert_eq!(probe::local_hardware_id("+7"), Some(7));
    assert_eq!(probe::local_hardware_id("by-id"), None);
    assert_eq!(probe::local_hardware_id(""), None);
    assert_eq!(probe::parse_hex_u32(" 0x1e52\n"), Some(0x1e52));
    assert_eq!(probe::parse_hex_u32("b140"), Some(0xb140));
    assert_eq!(probe::parse_hex_u32("0x"), None);
    assert_eq!(probe::parse_hex_u32("100000000"), None);
    assert!(probe::is_blackhole(0x1e52, 0xb140));
    assert!(!probe::is_blackhole(0x1e52, 0xb141));
}

#[test]
fn command_register_gets_memory_and_bus_mastering() {
    assert_eq!(probe::enable_memory_and_bus_mastering(0), 0b110);
    assert_eq!(probe::enable_memory_and_bus_mastering(0x401), 0x407);
}

#[test]
fn telemetry_tables_are_checked() {
    assert!(probe::is_arc_csm_addr(0x1000_0000, 8));
    assert!(!probe::is_arc_csm_addr(0x0fff_ffff, 8));
    assert!(probe::check_pointers(0x1000_0000, 0x1000_1000).is_ok());
    assert!(probe::check_pointers(0, 0x1000_1000).is_err());
    assert!(probe::check_entry_count(10).is_ok());
    assert!(probe::check_entry_count(0x10_0000).is_err());
    let masks = probe::find_masks(&[34 | (5 << 16), 36 | (6 << 16), 99]);
    assert_eq!(masks.tensix, Some(5));
    assert_eq!(masks.gddr, Some(6));
    let defaults = probe::probe_info(None, None);
    assert_eq!(defaults.tensix_enabled_col_mask, 0x3fff);
    assert_eq!(defaults.gddr_enabled_mask, 0xff);
}

#[test]
fn staged_keys_differ_by_mode() {
    assert_ne!(staged_key_from_static(5, 0), staged_key_from_static(5, 1));
    assert_eq!(staged_program_key(&Program::default(), 1), None);
    let program = Program { static_key: Some(5), ..Program::default() };
    assert_eq!(staged_program_key(&program, 1), Some(staged_key_from_static(5, 1)));
    assert_eq!(staged_key_from_static(5, 1), 0x0100_0000_0000_0005);
}

fn one_core_args() -> RuntimeArgs {
    let mut builder = RuntimeArgsBuilder::new(0, Vec::new(), Vec::new(), Vec::new());
    builder.add_core(at(1, 2), vec![7], vec![9], Vec::new()).expect("add core");
    builder.build().expect("lower")
}

#[test]
fn arguments_alone_are_sent_to_the_program_that_ran_last() {
    let first = Program {
        static_key: Some(5),
        runtime_args: Some(one_core_args()),
        ..Program::default()
    };
    let second = Program { static_key: Some(6), ..first.clone() };
    let plain = Program { runtime_args: None, ..first.clone() };
    let nameless = Program { static_key: None, ..first.clone() };
    let run = |staged: Option<u64>, program: &Program, ok: bool| {
        staged_after(staged, staged_program_key(program, 1), ok)
    };

    assert!(only_arguments(None, &first, 1).is_none());
    assert_eq!(run(None, &first, false), None);
    let staged = run(None, &first, true);
    assert_eq!(staged, Some(0x0100_0000_0000_0005));
    let args = only_arguments(staged, &first, 1).expect("arguments");
    assert_eq!(args.cores(), &[at(1, 2)]);
    assert!(only_arguments(staged, &first, 0).is_none());
    assert!(only_arguments(staged, &second, 1).is_none());
    assert!(only_arguments(staged, &plain, 1).is_none());
    assert_eq!(run(staged, &second, false), staged);
    assert!(only_arguments(run(staged, &second, true), &first, 1).is_none());
    assert_eq!(run(staged, &nameless, true), None);
    assert!(only_arguments(None, &nameless, 1).is_none());
}

#[test]
fn fast_dispatch_is_the_default() {
    assert!(use_fast_dispatch(None));
    assert!(!use_fast_dispatch(Some("0")));
}

#[test]
fn jump_to_an_address_is_encoded() {
    // jal x0, 0x3840
    let bytes = encode_jal_zero(0x3840);
    let word = u32::from_le_bytes([bytes[0], bytes[1], bytes[2], bytes[3]]);
    assert_eq!(word & 0xfff, 0x6f);
    let imm = ((word >> 31) & 1) << 20
        | ((word >> 12) & 0xff) << 12
        | ((word >> 20) & 1) << 11
        | ((word >> 21) & 0x3ff) << 1;
    assert_eq!(imm, 0x3840);
}

#[test]
fn uploads_need_firmware_and_cores() {
    let set = FirmwareSet::new();
    let missing = stage_firmware(&set).expect_err("no firmware");
    assert_eq!(missing.kind, ErrorKind::NotFound);
    assert!(missing.to_string().contains("missing firmware image brisc"));
    assert_eq!(
        plan_upload(&set, &[], &[]).expect_err("no cores").to_string(),
        "no worker cores discovered"
    );
    assert_eq!(mmio_base() % 0x20_0000, 0);
    let late = not_ready(at(1, 2));
    assert_eq!(late.kind, ErrorKind::TimedOut);
    assert_eq!(late.to_string(), "firmware not ready on 1,2");
}

#[test]
fn uploads_reset_load_and_start_the_cores() {
    let mut set = FirmwareSet::new();
    for (i, name) in ["brisc", "ncrisc", "trisc0", "trisc1", "trisc2"].iter().enumerate() {
        let segment = PTLoad { paddr: 0x4000 + 0x100 * i as u32, data: vec![i as u8; 4], memsz: 8, flags: 5 };
        let firmware =
            CompiledFirmware { elf_bytes: vec![], segments: vec![segment], scratch_base: 0 };
        set.insert(name.to_string(), firmware);
    }
    let cores = [at(1, 2), at(2, 2)];
    let plan = plan_upload(&set, &cores, &[]).expect("plan");
    assert_eq!(plan.rects, vec![(at(1, 2), at(2, 2))]);
    assert_eq!(plan.probe, at(1, 2));
    assert_eq!(plan.spans.len(), 5 + 3);
    assert_eq!(plan.spans[1].data, vec![1, 1, 1, 1, 0, 0, 0, 0]);

    let base = mmio_base();
    let reset = (TensixMMIO::RISCV_DEBUG_REG_SOFT_RESET_0 - base) as usize;
    let steps = plan.reset_steps();
    assert_eq!(steps.len(), 2);
    assert!(matches!(
        &steps[0],
        WindowStep::Aim { start, end, addr }
            if *start == at(1, 2) && *end == Some(at(2, 2)) && *addr == base
    ));
    assert!(matches!(
        &steps[1],
        WindowStep::Write { offset, data }
            if *offset == reset && *data == TensixMMIO::SOFT_RESET_ALL.to_le_bytes()
    ));

    let steps = plan.load_steps();
    assert_eq!(steps.len(), 1 + 8 + 1);
    assert!(matches!(&steps[9], WindowStep::ReadBack { offset: 0 }));

    let vectors = reset_vectors(&set).expect("vectors");
    assert_eq!(vectors.len(), 4);
    assert_eq!(vectors[3].1, 0x4400);
    let steps = plan.start_steps(&vectors);
    assert_eq!(steps.len(), 5 + 2 + 1);
    assert!(matches!(
        &steps[4],
        WindowStep::Write { offset, data }
            if *offset == vectors[3].0 && *data == 0x4400u32.to_le_bytes()
    ));
    assert!(matches!(&steps[7], WindowStep::Aim { end: None, addr: 0, .. }));

    let mut bare = FirmwareSet::new();
    bare.insert(
        "ncrisc".to_owned(),
        CompiledFirmware { elf_bytes: vec![], segments: vec![], scratch_base: 0 },
    );
    assert_eq!(
        reset_vectors(&bare).expect_err("no text").to_string(),
        "ncrisc firmware missing text segment"
    );
}
