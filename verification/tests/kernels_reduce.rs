//! Reductions, the packing of arguments and their updates.

use libtt::dram::{DType, DramBuffer, TILE_C};
use libtt::executable::ReduceReducer;
use libtt::hw::CoreCoord;
use libtt::kernels::bitwise_reduce;
use libtt::kernels::bitwise_reduce::{
    bitwise_reduce_kernel, bitwise_reduce_program, BitwiseReduceOp, BitwiseReducePlan,
};
use libtt::kernels::kernel::{
    select_worker_cores, split_tile_range, Kernel, RuntimeArgsBuilder,
};
use libtt::kernels::reduce::program::{reduce_kernel, reduce_program, ReduceSources};
use libtt::kernels::reduce::ranges::{reduce_core_ranges, reduce_partition_count};
use libtt::kernels::reduce::{reduce, ReducePlan};

struct TestKernel;

impl Kernel for TestKernel {
    fn reader_runtime_arg(&self, _core: CoreCoord, index: usize) -> Option<u32> {
        (index == 0).then_some(0x2222)
    }

    fn writer_runtime_arg(&self, _core: CoreCoord, index: usize) -> Option<u32> {
        (index == 1).then_some(0x1111)
    }

    fn compute_runtime_arg(&self, _core: CoreCoord, _index: usize) -> Option<u32> {
        None
    }
}

fn at(x: u8, y: u8) -> CoreCoord {
    CoreCoord { x, y }
}

fn buffer(num_tiles: usize, dtype: DType, shape: Vec<usize>) -> DramBuffer {
    DramBuffer { name: "input".to_owned(), addr: 0x1000, num_tiles, dtype, shape }
}

#[test]
fn runtime_args_update_patches_blobs_by_section_and_index() {
    let mut builder = RuntimeArgsBuilder::new(0, vec![1], vec![0], Vec::new());
    builder
        .add_core(at(1, 2), vec![7, 0], vec![0, 9], Vec::new())
        .expect("add core");

    let mut runtime_args = builder.build().expect("lower");
    runtime_args
        .update_from_kernel(&TestKernel)
        .expect("update");

    assert_eq!(&runtime_args.blobs()[0][4..8], &0x1111u32.to_le_bytes());
    assert_eq!(&runtime_args.blobs()[0][8..12], &0x2222u32.to_le_bytes());
}

#[test]
fn updates_leave_other_arguments_alone() {
    let mut builder = RuntimeArgsBuilder::new(1, vec![1], vec![0], Vec::new());
    builder.add_core(at(1, 3), vec![7, 0], vec![0, 9], vec![5]).expect("add core");
    builder.add_core(at(1, 2), vec![8, 0], vec![0, 10], vec![6]).expect("add core");
    let mut args = builder.build().expect("lower");
    assert_eq!(args.cores(), &[at(1, 2), at(1, 3)]);
    assert_eq!(args.section_sizes(), (8, 8, 4));
    assert_eq!((args.semaphores(), args.sem_offset()), (1, 32));
    args.update_from_kernel(&TestKernel).expect("update");
    assert_eq!(args.section_sizes(), (8, 8, 4));
    assert_eq!((args.semaphores(), args.sem_offset()), (1, 32));
    assert_eq!(&args.blobs()[0][0..4], &8u32.to_le_bytes());
    assert_eq!(&args.blobs()[1][0..4], &7u32.to_le_bytes());
    assert_eq!(&args.blobs()[0][12..16], &10u32.to_le_bytes());
    assert_eq!(&args.blobs()[0][16..20], &6u32.to_le_bytes());
}

#[test]
fn arguments_are_refused_where_they_do_not_fit_together() {
    let empty = RuntimeArgsBuilder::new(0, Vec::new(), Vec::new(), Vec::new());
    assert!(empty.build().is_err());
    let mut twice = RuntimeArgsBuilder::new(0, Vec::new(), Vec::new(), Vec::new());
    twice.add_core(at(1, 2), vec![1], Vec::new(), Vec::new()).expect("add core");
    let err = twice
        .add_core(at(1, 2), vec![1], Vec::new(), Vec::new())
        .expect_err("added before");
    assert_eq!(err.to_string(), "duplicate runtime args for core 1,2");
    let mut uneven = RuntimeArgsBuilder::new(0, Vec::new(), Vec::new(), Vec::new());
    uneven.add_core(at(1, 2), vec![1], Vec::new(), Vec::new()).expect("add core");
    uneven.add_core(at(1, 3), vec![1, 2], Vec::new(), Vec::new()).expect("add core");
    assert!(uneven.build().is_err());
    let mut missing = RuntimeArgsBuilder::new(0, Vec::new(), vec![1], Vec::new());
    missing.add_core(at(1, 2), Vec::new(), vec![0, 0], Vec::new()).expect("add core");
    let mut args = missing.build().expect("lower");
    assert!(args.update_from_kernel(&TestKernel).is_err());
}

#[test]
fn split_tile_range_balances_remainder_across_early_cores() {
    assert_eq!(split_tile_range(10, 0, 3).expect("range"), (0, 4));
    assert_eq!(split_tile_range(10, 1, 3).expect("range"), (4, 3));
    assert_eq!(split_tile_range(10, 2, 3).expect("range"), (7, 3));
}

#[test]
fn tile_ranges_follow_each_other() {
    let mut next = 0;
    for i in 0..7 {
        let (offset, count) = split_tile_range(24, i, 7).expect("range");
        assert_eq!(offset, next);
        next = offset + count;
    }
    assert_eq!(next, 24);
    assert!(split_tile_range(10, 0, 0).is_err());
    assert!(split_tile_range(10, 3, 3).is_err());
}

#[test]
fn no_more_cores_are_chosen_than_tiles() {
    let cores = [at(1, 2), at(1, 3), at(1, 4)];
    assert_eq!(select_worker_cores(&cores, 2).expect("cores").len(), 2);
    assert_eq!(select_worker_cores(&cores, 0).expect("cores").len(), 1);
    assert_eq!(select_worker_cores(&cores, 9).expect("cores").len(), 3);
    assert!(select_worker_cores(&[], 1).is_err());
}

#[test]
fn reduce_plan_tracks_partial_last_width_tile() {
    let plan = ReducePlan::new(
        DType::Float32,
        &[2, 30],
        &[2],
        &[1],
        ReduceReducer::Max,
        None,
    )
    .unwrap();
    assert_eq!(plan.shape.reduce_count, 30);
    assert_eq!(plan.shape.valid_last_width, 30);
}

#[test]
fn reduce_plan_keeps_aligned_last_width_tile_unmasked() {
    let plan = ReducePlan::new(
        DType::Float32,
        &[2, 64],
        &[2],
        &[1],
        ReduceReducer::Add,
        None,
    )
    .unwrap();
    assert_eq!(plan.shape.reduce_count, 64);
    assert_eq!(plan.shape.valid_last_width, TILE_C as u32);
}

#[test]
fn reductions_are_dealt_out_in_order() {
    let plan = ReducePlan::new(
        DType::Float32,
        &[100, 64],
        &[100],
        &[1],
        ReduceReducer::Add,
        None,
    )
    .expect("plan");
    let parts = reduce_partition_count(plan.shape).expect("parts") as usize;
    let ranges = reduce_core_ranges(plan.shape, parts).expect("ranges");
    let mut next = 0;
    for range in &ranges {
        assert_eq!(range.output_tile_offset, next);
        next += range.output_tiles;
    }
    assert_eq!(next, plan.shape.output_tiles);
}

#[test]
fn reduce_programs_hold_the_sources() {
    let plan = ReducePlan::new(
        DType::Float32,
        &[2, 30],
        &[2],
        &[1],
        ReduceReducer::Max,
        None,
    )
    .expect("plan");
    let input = buffer(1, DType::Float32, vec![32, 32]);
    let cores = reduce(&[at(1, 2), at(1, 3)], &input, &plan).expect("cores");
    assert_eq!(cores, vec![at(1, 2)]);
    let kernel = reduce_kernel(&plan, cores, 0x10, 0x20).expect("kernel");
    assert_eq!((kernel.reader_addrs.clone(), kernel.output_addr), (vec![0x10], 0x20));
    let sources = ReduceSources { reader: "reader", compute: "compute", writer: "writer" };
    let program = reduce_program(&kernel.key, &sources).expect("program");
    assert!(program.reader_kernel.ends_with("reader"));
    assert!(program.writer_kernel.ends_with("writer"));
    assert!(reduce(&[at(1, 2)], &buffer(1, DType::Int32, vec![32, 32]), &plan).is_err());
    assert!(ReducePlan::new(DType::Float32, &[2, 30], &[2], &[1], ReduceReducer::Mul, None)
        .is_err());
    assert!(ReducePlan::new(DType::Float32, &[2, 30], &[3], &[1], ReduceReducer::Max, None)
        .is_err());
}

#[test]
fn bitwise_reductions_keep_the_first_dimensions() {
    let plan = BitwiseReducePlan::new(
        DType::UInt8,
        &[2, 30],
        &[2],
        &[1],
        ReduceReducer::And,
        0xff,
    )
    .expect("plan");
    assert_eq!(plan.op, BitwiseReduceOp::And);
    let input = buffer(1, DType::UInt8, vec![32, 32]);
    let request = bitwise_reduce::reduce(&[at(1, 2)], &input, plan).expect("request");
    let program = bitwise_reduce_program(&request.key, "", "").expect("program");
    assert!(program.reader_kernel.contains("#define BITWISE_REDUCE_OP 0\n"));
    assert!(program.reader_kernel.contains("#define BITWISE_REDUCE_IDENTITY 255\n"));
    assert!(program.reader_kernel.contains("#define BITWISE_REDUCE_INPUT_SHAPE {2u, 30u}\n"));
    assert_eq!(bitwise_reduce_kernel(1, 2, request.key).expect("kernel").output_addr, 2);
    let err = BitwiseReducePlan::new(DType::UInt8, &[2, 30], &[2], &[1], ReduceReducer::Add, 0)
        .expect_err("no reducer of bits");
    assert!(err.to_string().contains("and/or reducers, got Add"));
    assert!(BitwiseReducePlan::new(DType::UInt8, &[2, 30], &[2], &[0], ReduceReducer::Or, 0)
        .is_err());
    assert!(BitwiseReducePlan::new(DType::Float32, &[2, 30], &[2], &[1], ReduceReducer::Or, 0)
        .is_err());
}
