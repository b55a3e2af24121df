//! Payloads, launch messages and dispatch plans.

use libtt::compiler::CompiledKernel;
use libtt::dispatch::lowered::build_packed_plan;
use libtt::dispatch::payload::{build_cb_blob, build_payload, FAST_CQ_NUM_CIRCULAR_BUFFERS};
use libtt::dispatch::plan::{
    build_dispatch_plan, build_roles, needed_kernels, runtime_commands, DispatchCommand,
    ProgramKernels,
};
use libtt::dispatch::{
    pack_rta, CBConfig, CoreSelection, DevMsgs, MathFidelity, Program, L1_ALIGN,
};
use libtt::dispatch::window::{core_timeout, is_done, slow_steps, WindowStep};
use libtt::dram::DType;
use libtt::error::ErrorKind;
use libtt::hw::{align_up, CoreCoord, TensixL1};
use libtt::kernels::add::{bf16_program, AddProgramKey};
use libtt::kernels::kernel::RuntimeArgsBuilder;

fn dummy_kernel(fill: u8, len: usize) -> CompiledKernel {
    CompiledKernel {
        xip: vec![fill; len],
        xip_text_bytes: len,
        elf_bytes: None,
    }
}

fn at(x: u8, y: u8) -> CoreCoord {
    CoreCoord { x, y }
}

fn read_u16(bytes: &[u8], offset: usize) -> u16 {
    u16::from_le_bytes(bytes[offset..offset + 2].try_into().unwrap())
}

fn read_u32(bytes: &[u8], offset: usize) -> u32 {
    u32::from_le_bytes(bytes[offset..offset + 4].try_into().unwrap())
}

#[test]
fn build_cb_blob_packs_buffers() {
    let program = Program {
        cbs: vec![
            CBConfig {
                index: 0,
                dtype: DType::Float16,
                tiles: 2,
            },
            CBConfig {
                index: 16,
                dtype: DType::Float16B,
                tiles: 1,
            },
            CBConfig {
                index: 24,
                dtype: DType::Float16B,
                tiles: 1,
            },
        ],
        ..Program::default()
    };

    let (mask, blob) = build_cb_blob(&program).expect("cb blob");
    let cb0_size = (DType::Float16.tile_size() * 2) as u32;
    let cb16_size = DType::Float16B.tile_size() as u32;
    assert_eq!(mask, (1 << 0) | (1 << 16) | (1 << 24));
    assert_eq!(blob.len(), 25 * 16);
    assert_eq!(read_u32(&blob, 0), TensixL1::DATA_BUFFER_SPACE_BASE);
    assert_eq!(
        read_u32(&blob, 16 * 16),
        TensixL1::DATA_BUFFER_SPACE_BASE + cb0_size
    );
    assert_eq!(
        read_u32(&blob, 24 * 16),
        TensixL1::DATA_BUFFER_SPACE_BASE + cb0_size + cb16_size
    );
}

#[test]
fn build_cb_blob_refuses_an_index_beyond_the_mask() {
    let program = Program {
        cbs: vec![CBConfig { index: 32, dtype: DType::Float16, tiles: 2 }],
        ..Program::default()
    };
    assert!(build_cb_blob(&program).is_err());
}

#[test]
fn build_payload_serializes_launch_message() {
    let writer = dummy_kernel(0x11, 31);
    let reader = dummy_kernel(0x22, 19);
    let compute = (
        dummy_kernel(0x33, 17),
        dummy_kernel(0x44, 18),
        dummy_kernel(0x55, 20),
    );
    let program = Program {
        cbs: vec![CBConfig::new(0, DType::Float16B)],
        writer_args: vec![1, 2],
        reader_args: vec![3],
        compute_args: vec![4, 5, 6],
        semaphores: 2,
        math_fidelity: MathFidelity::HiFi2,
        ..Program::default()
    };
    let rta_sizes = (8, 4, 12);
    let sem_off = align_up(
        (rta_sizes.0 + rta_sizes.1 + rta_sizes.2) as u64,
        L1_ALIGN as u64,
    ) as usize;

    let (shared_addr, shared, launch) = build_payload(
        &program,
        Some(&reader),
        Some(&writer),
        Some(&compute),
        rta_sizes,
        sem_off,
        7,
    )
    .expect("payload");

    assert_eq!(launch.len(), 96);
    assert_eq!(read_u32(&launch, 0), TensixL1::KERNEL_CONFIG_BASE);
    assert_eq!(read_u16(&launch, 12), sem_off as u16);
    assert_eq!(read_u16(&launch, 18), 64);
    assert_eq!(read_u16(&launch, 20), 80);
    assert_eq!(launch[42], DevMsgs::DISPATCH_MODE_HOST);
    assert_eq!(read_u32(&launch, 44), 80);
    assert_eq!(read_u32(&launch, 48), 112);
    assert_eq!(read_u32(&launch, 52), 144);
    assert_eq!(read_u32(&launch, 56), 176);
    assert_eq!(read_u32(&launch, 60), 208);
    assert_eq!(read_u32(&launch, 64), 1);
    assert_eq!(launch[68], 1);
    assert_eq!(launch[70], FAST_CQ_NUM_CIRCULAR_BUFFERS);
    assert_eq!(read_u32(&launch, 72), 7);
    assert_eq!(read_u32(&launch, 76), 0b1_1111);
    assert_eq!(shared_addr, TensixL1::KERNEL_CONFIG_BASE + 64);
    assert_eq!(shared.len(), 176);
    assert_eq!(&shared[0..16], &build_cb_blob(&program).unwrap().1);
    assert_eq!(&shared[16..47], &writer.xip);
    assert_eq!(&shared[48..67], &reader.xip);
}

#[test]
fn pack_rta_places_arguments_and_semaphores() {
    let blob = pack_rta(&[1, 2], &[3], &[4], 2, 16);
    assert_eq!(blob.len(), 48);
    assert_eq!(read_u32(&blob, 0), 1);
    assert_eq!(read_u32(&blob, 4), 2);
    assert_eq!(read_u32(&blob, 8), 3);
    assert_eq!(read_u32(&blob, 12), 4);
    assert!(blob[16..].iter().all(|b| *b == 0));
}

fn line(n: u8) -> Vec<CoreCoord> {
    (0..n).map(|i| CoreCoord { x: 1, y: 2 + i }).collect()
}

#[test]
fn roles_follow_the_selection() {
    let program = Program { cores: CoreSelection::Count(2), ..Program::default() };
    let (cores, roles) = build_roles(&line(4), &program).expect("roles");
    assert_eq!(cores, line(2));
    assert_eq!(roles.len(), 1);
    assert_eq!(build_roles(&line(1), &program).expect("roles").0, line(1));

    let all = Program { cores: CoreSelection::All, ..Program::default() };
    assert_eq!(build_roles(&line(4), &all).expect("roles").0, line(4));
}

#[test]
fn roles_share_the_cores_of_a_grid() {
    let available: Vec<CoreCoord> = (1..4).flat_map(|x| (2..5).map(move |y| at(x, y))).collect();
    let program = Program { grid: Some((vec![2, 3, 4], vec![1, 2, 3])), ..Program::default() };
    let (all, roles) = build_roles(&available, &program).expect("roles");
    let sizes: Vec<usize> = roles.iter().map(|role| role.cores.len()).collect();
    assert_eq!(sizes, [1, 2, 2, 4]);
    let receives: Vec<(bool, bool)> =
        roles.iter().map(|role| (role.receives_reader, role.receives_writer)).collect();
    assert_eq!(receives, [(false, false), (true, false), (false, true), (true, true)]);
    let mut held: Vec<CoreCoord> = roles.iter().flat_map(|role| role.cores.clone()).collect();
    held.sort();
    assert_eq!(held, all);
}

#[test]
fn grids_need_available_cores() {
    let empty = Program { grid: Some((Vec::new(), vec![1])), ..Program::default() };
    let err = build_roles(&line(4), &empty).expect_err("empty grid");
    assert!(err.to_string().contains("at least one row and one column"));
    let outside = Program { grid: Some((vec![2, 9], vec![1])), ..Program::default() };
    assert!(build_roles(&line(4), &outside).is_err());
    let inside = Program { grid: Some((vec![2, 3], vec![1])), ..Program::default() };
    assert_eq!(build_roles(&line(4), &inside).expect("roles").0, line(2));
}

#[test]
fn dispatch_plan_ends_with_a_launch() {
    let program = Program {
        cores: CoreSelection::Count(2),
        writer_kernel: "w".to_owned(),
        writer_args: vec![1],
        ..Program::default()
    };
    let needed = needed_kernels(&program);
    assert!(needed.writer);
    assert!(!needed.reader && !needed.compute);
    let kernels = ProgramKernels {
        writer: Some(dummy_kernel(1, 16)),
        reader: None,
        compute: None,
        reader_recv: None,
        writer_recv: None,
    };
    let plan = build_dispatch_plan(&line(2), &program, &kernels).expect("plan");
    match plan.last().expect("commands") {
        DispatchCommand::Launch { cores } => assert_eq!(cores, &line(2)),
        other => panic!("unexpected command {other:?}"),
    }
    assert!(build_dispatch_plan(&[], &program, &kernels).is_err());
}

#[test]
fn commands_are_carried_out_through_a_window() {
    let cores = vec![at(1, 2), at(2, 2), at(1, 3)];
    let write = DispatchCommand::Write { cores: cores.clone(), addr: 0x40, data: vec![7, 8] };
    let steps = slow_steps(&write);
    assert_eq!(steps.len(), 4);
    assert!(matches!(
        &steps[0],
        WindowStep::Aim { start, end, addr: 0 }
            if *start == at(1, 2) && *end == Some(at(2, 2))
    ));
    assert!(matches!(&steps[1], WindowStep::Write { offset: 0x40, data } if *data == [7, 8]));
    assert!(matches!(
        &steps[2],
        WindowStep::Aim { start, end, addr: 0 }
            if *start == at(1, 3) && *end == Some(at(1, 3))
    ));

    let steps = slow_steps(&DispatchCommand::Launch { cores });
    assert_eq!(steps.len(), 4 + 3);
    assert!(matches!(&steps[3], WindowStep::Write { offset: 0x370, data } if data[..3] == [0; 3]));
    assert!(matches!(&steps[6], WindowStep::Await { core } if *core == at(1, 3)));

    let packed = DispatchCommand::WritePacked {
        cores: vec![at(1, 2), at(2, 2)],
        addr: 16,
        data: vec![vec![1], vec![2]],
    };
    let steps = slow_steps(&packed);
    assert_eq!(steps.len(), 4);
    assert!(matches!(
        &steps[2],
        WindowStep::Aim { start, end: None, addr: 0 } if *start == at(2, 2)
    ));
    assert!(matches!(&steps[3], WindowStep::Write { offset: 16, data } if *data == [2]));
    assert!(is_done(0));
    assert!(!is_done(0x80));
    assert_eq!(core_timeout(at(1, 2)).kind, ErrorKind::TimedOut);
}

#[test]
fn new_arguments_are_written_before_the_cores_start() {
    let mut builder = RuntimeArgsBuilder::new(0, Vec::new(), Vec::new(), Vec::new());
    builder.add_core(at(1, 2), vec![7], vec![9], Vec::new()).expect("add core");
    builder.add_core(at(1, 3), vec![8], vec![10], Vec::new()).expect("add core");
    let args = builder.build().expect("lower");
    let commands = runtime_commands(&args);
    assert_eq!(commands.len(), 4);
    assert!(matches!(&commands[0], DispatchCommand::Write { addr, data, .. }
        if *addr == TensixL1::GO_MSG as usize && data[..] == [0, 0, 0, 0xe0]));
    assert!(matches!(&commands[1], DispatchCommand::Write { addr, data, .. }
        if *addr == TensixL1::GO_MSG_INDEX as usize && data[..] == [0; 4]));
    assert!(matches!(&commands[2], DispatchCommand::WritePacked { cores, addr, data }
        if cores[..] == [at(1, 2), at(1, 3)]
            && *addr == TensixL1::KERNEL_CONFIG_BASE as usize
            && data[..] == *args.blobs()));
    assert!(matches!(&commands[3], DispatchCommand::Launch { cores } if cores.len() == 2));
}

#[test]
fn lowered_programs_are_placed_with_the_arguments_of_their_cores() {
    let key = AddProgramKey { core: at(2, 3), tile_count: 6 };
    let lowered = bf16_program(key, "reader", "compute", "writer").expect("program");
    let program = lowered.placed(Some(9));
    assert_eq!(program.static_key, Some(9));
    assert_eq!(program.cores, CoreSelection::All);
    assert_eq!(program.compute_kernel, "compute");
    assert_eq!(program.writer_args, [0; 3]);
    assert_eq!(program.reader_args, [0; 4]);
    assert_eq!(program.compute_args, [0; 1]);
    let cbs: Vec<usize> = program.cbs.iter().map(|cb| cb.index).collect();
    assert_eq!(cbs, [0, 1, 16]);
    let args = program.runtime_args.as_ref().expect("arguments");
    assert_eq!(args.blobs(), lowered.runtime_args.blobs());

    let kernels = ProgramKernels {
        writer: Some(dummy_kernel(1, 16)),
        reader: Some(dummy_kernel(2, 16)),
        compute: None,
        reader_recv: None,
        writer_recv: None,
    };
    let commands = build_packed_plan(&program, args, &kernels).expect("plan");
    let whole = build_dispatch_plan(&[at(2, 3)], &program, &kernels).expect("plan");
    assert_eq!(commands.len(), whole.len() + 1);
    assert!(matches!(&commands[commands.len() - 2], DispatchCommand::WritePacked { cores, addr, data }
        if cores[..] == [at(2, 3)]
            && *addr == TensixL1::KERNEL_CONFIG_BASE as usize
            && data[0][8..12] == 6u32.to_le_bytes()));
    assert!(matches!(commands.last(), Some(DispatchCommand::Launch { cores }) if cores[..] == [at(2, 3)]));
}
