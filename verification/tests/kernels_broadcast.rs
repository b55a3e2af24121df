//! Broadcasting and the layout of attention heads.

use libtt::dram::{DType, DramBuffer};
use libtt::hw::CoreCoord;
use libtt::kernels::broadcast::{
    broadcast_in_dim, broadcast_kernel, broadcast_program, broadcast_reader_source,
    BroadcastInDimPlan, BroadcastKernelShape, BroadcastProgramKey,
};
use libtt::kernels::heads::{
    repeat_heads, repeat_heads_program, stack_heads, stack_heads_program, RepeatHeadsKernelShape,
    RepeatHeadsPlan, RepeatHeadsProgramKey, StackHeadsKernelShape, StackHeadsPlan,
    StackHeadsProgramKey,
};

fn arg_u32(blob: &[u8], index: usize) -> u32 {
    let start = index * std::mem::size_of::<u32>();
    u32::from_le_bytes(
        blob[start..start + std::mem::size_of::<u32>()]
            .try_into()
            .unwrap(),
    )
}

fn three_cores() -> Vec<CoreCoord> {
    vec![
        CoreCoord { x: 1, y: 2 },
        CoreCoord { x: 1, y: 3 },
        CoreCoord { x: 1, y: 4 },
    ]
}

fn buffer(num_tiles: usize, dtype: DType, shape: Vec<usize>) -> DramBuffer {
    DramBuffer { name: "input".to_owned(), addr: 0x1000, num_tiles, dtype, shape }
}

#[test]
fn broadcast_plan_describes_rank1_column_case() {
    let plan = BroadcastInDimPlan::new(&[32], &[32, 1], &[0]).expect("valid broadcast");

    assert_eq!(plan.output_allocation_shape, vec![32, 32]);
    assert_eq!(
        plan.kernel_shape(),
        &BroadcastKernelShape {
            input_shape: vec![32],
            output_shape: vec![32, 1],
            broadcast_dimensions: vec![0],
            input_tile_rows: 1,
            input_tiles_per_row: 1,
            output_tile_rows: 1,
            output_tiles_per_row: 1,
            tile_count: 1,
            direct_copy: false,
        }
    );
}

#[test]
fn broadcast_plan_allows_degenerate_matrix_dimensions() {
    let plan = BroadcastInDimPlan::new(&[1, 4], &[8, 4], &[0, 1]).expect("valid broadcast");

    assert_eq!(plan.output_allocation_shape, vec![32, 32]);
    assert_eq!(plan.kernel_shape().input_shape, vec![1, 4]);
    assert_eq!(plan.kernel_shape().output_shape, vec![8, 4]);
}

#[test]
fn broadcast_plan_allows_rank1_transpose_plus_broadcast() {
    let plan = BroadcastInDimPlan::new(&[4], &[4, 8], &[0]).expect("valid broadcast");

    assert_eq!(plan.output_allocation_shape, vec![32, 32]);
    assert_eq!(plan.kernel_shape().broadcast_dimensions, vec![0]);
}

#[test]
fn broadcast_plan_supports_inserted_middle_dimension() {
    let plan = BroadcastInDimPlan::new(&[18, 2, 32], &[18, 2, 2, 32], &[0, 1, 3])
        .expect("valid broadcast");

    assert_eq!(plan.output_allocation_shape, vec![18, 2, 32, 32]);
    assert_eq!(plan.kernel_shape().input_shape, vec![18, 2, 32]);
    assert_eq!(plan.kernel_shape().output_shape, vec![18, 2, 2, 32]);
    assert_eq!(plan.kernel_shape().broadcast_dimensions, vec![0, 1, 3]);
    assert_eq!(plan.kernel_shape().tile_count, 36);
}

#[test]
fn repeat_heads_plan_describes_kv_head_expansion() {
    let plan = RepeatHeadsPlan::new(&[42, 8, 128], &[42, 16, 128]).expect("valid repeat heads");

    assert_eq!(plan.output_allocation_shape, vec![42, 32, 128]);
    assert_eq!(
        plan.kernel_shape(),
        &RepeatHeadsKernelShape {
            input_shape: vec![42, 8, 128],
            output_shape: vec![42, 16, 128],
            input_tile_rows: 1,
            input_tiles_per_row: 4,
            output_tile_rows: 1,
            output_tiles_per_row: 4,
            repeat_factor: 2,
            tile_count: 42 * 4,
        }
    );
}

#[test]
fn stack_heads_plan_describes_attention_score_stack() {
    let plan =
        StackHeadsPlan::new(&[42, 42], &[42, 16, 42], 16, false).expect("valid stack heads");

    assert_eq!(plan.output_allocation_shape, vec![42, 32, 64]);
    assert_eq!(
        plan.kernel_shape(),
        &StackHeadsKernelShape {
            input_shape: vec![42, 42],
            output_shape: vec![42, 16, 42],
            input_tile_rows: 2,
            input_tiles_per_row: 2,
            output_tile_rows: 1,
            output_tiles_per_row: 2,
            head_count: 16,
            tile_count: 42 * 2,
            flatten: false,
        }
    );
}

#[test]
fn stack_heads_plan_describes_flattened_value_stack() {
    let plan =
        StackHeadsPlan::new(&[42, 128], &[42, 2048], 16, true).expect("valid stack heads");

    assert_eq!(plan.output_allocation_shape, vec![64, 2048]);
    assert_eq!(plan.kernel_shape().tile_count, 2 * 64);
    assert!(plan.kernel_shape().flatten);
}

#[test]
fn broadcast_plan_supports_batched_column_broadcast() {
    let plan = BroadcastInDimPlan::new(&[18, 4, 1], &[18, 4, 32], &[0, 1, 2])
        .expect("valid broadcast");

    assert_eq!(plan.output_allocation_shape, vec![18, 32, 32]);
    assert_eq!(plan.kernel_shape().tile_count, 18);
}

#[test]
fn broadcast_plan_supports_scalar_to_rank3() {
    let plan = BroadcastInDimPlan::new(&[], &[2, 3, 4], &[]).expect("valid broadcast");

    assert_eq!(plan.output_allocation_shape, vec![2, 32, 32]);
    assert!(plan.kernel_shape().input_shape.is_empty());
    assert_eq!(plan.kernel_shape().output_shape, vec![2, 3, 4]);
    assert_eq!(plan.kernel_shape().tile_count, 2);
}

#[test]
fn broadcast_plan_rejects_incompatible_mapped_dimensions() {
    let err = BroadcastInDimPlan::new(&[4], &[8, 1], &[0])
        .expect_err("incompatible broadcast should fail");

    assert!(err.to_string().contains("incompatible"));
}

#[test]
fn broadcast_plan_rejects_repeated_and_negative_dimensions() {
    assert!(BroadcastInDimPlan::new(&[4, 4], &[4, 4], &[0, 0]).is_err());
    assert!(BroadcastInDimPlan::new(&[4], &[4, 4], &[-1]).is_err());
    assert!(BroadcastInDimPlan::new(&[4], &[4, 4], &[2]).is_err());
    assert!(BroadcastInDimPlan::new(&[4], &[4, 4], &[]).is_err());
}

#[test]
fn broadcast_reader_source_uses_dummy_arrays_for_scalars() {
    let plan = BroadcastInDimPlan::new(&[], &[], &[]).expect("valid broadcast");
    let source = broadcast_reader_source(DType::Float16B, plan.kernel_shape(), "");

    assert!(source.contains("#define BROADCAST_INPUT_RANK 0"));
    assert!(source.contains("#define BROADCAST_OUTPUT_RANK 0"));
    assert!(source.contains("#define BROADCAST_INPUT_SHAPE {1u}"));
    assert!(source.contains("#define BROADCAST_DIMENSIONS {1u}"));
}

#[test]
fn broadcast_program_splits_tiles_across_cores() {
    let plan = BroadcastInDimPlan::new(&[5, 32, 32], &[5, 32, 32], &[0, 1, 2])
        .expect("valid broadcast");
    let program = broadcast_program(
        &BroadcastProgramKey {
            cores: three_cores(),
            dtype: DType::Float16B,
            shape: plan.kernel_shape().clone(),
        },
        "",
        "",
    )
    .expect("broadcast program");

    assert_eq!(program.runtime_args.cores().len(), 3);
    assert_eq!(program.runtime_args.section_sizes(), (12, 12, 0));
    assert!(program.compute_kernel.is_empty());
    assert!(plan.kernel_shape().direct_copy);
    assert!(program
        .reader_kernel
        .contains("#define BROADCAST_OUTPUT_RANK 3"));
    assert!(program
        .reader_kernel
        .contains("#define BROADCAST_DIRECT_COPY 1"));

    let blobs = program.runtime_args.blobs();
    assert_eq!((arg_u32(&blobs[0], 1), arg_u32(&blobs[0], 2)), (0, 2));
    assert_eq!((arg_u32(&blobs[1], 1), arg_u32(&blobs[1], 2)), (2, 2));
    assert_eq!((arg_u32(&blobs[2], 1), arg_u32(&blobs[2], 2)), (4, 1));
    assert_eq!((arg_u32(&blobs[0], 4), arg_u32(&blobs[0], 5)), (0, 2));
    assert_eq!((arg_u32(&blobs[1], 4), arg_u32(&blobs[1], 5)), (2, 2));
    assert_eq!((arg_u32(&blobs[2], 4), arg_u32(&blobs[2], 5)), (4, 1));
}

#[test]
fn broadcast_requests_check_their_input() {
    let plan = BroadcastInDimPlan::new(&[4], &[4, 8], &[0]).expect("valid broadcast");
    let cores = three_cores();
    let good = buffer(1, DType::Float16B, vec![32, 32]);
    let request = broadcast_in_dim(&cores, &good, plan.clone(), DType::Float16B).expect("request");
    assert_eq!(request.output_tiles, 1);
    assert_eq!(request.key.cores, vec![CoreCoord { x: 1, y: 2 }]);
    let kernel = broadcast_kernel(0x40, 0x80, request.key).expect("kernel");
    assert_eq!((kernel.reader_addrs, kernel.output_addr), (vec![0x40], 0x80));

    let wrong_type = buffer(1, DType::Float32, vec![32, 32]);
    assert!(broadcast_in_dim(&cores, &wrong_type, plan.clone(), DType::Float16B).is_err());
    let wrong_shape = buffer(2, DType::Float16B, vec![32, 64]);
    assert!(broadcast_in_dim(&cores, &wrong_shape, plan.clone(), DType::Float16B).is_err());
    assert!(broadcast_in_dim(&[], &good, plan, DType::Float16B).is_err());
}

#[test]
fn head_programs_share_the_tiles() {
    let repeat = RepeatHeadsPlan::new(&[4, 8, 128], &[4, 16, 128]).expect("plan");
    let cores = three_cores();
    let request = repeat_heads(
        &cores,
        &buffer(16, DType::Float16B, vec![4, 32, 128]),
        repeat.clone(),
        DType::Float16B,
    )
    .expect("request");
    assert_eq!(request.output_tiles, 16);
    let program = repeat_heads_program(
        &RepeatHeadsProgramKey {
            cores: cores.clone(),
            dtype: DType::Float16B,
            shape: repeat.kernel_shape().clone(),
        },
        "",
        "",
    )
    .expect("program");
    assert_eq!(arg_u32(&program.runtime_args.blobs()[0], 2), 6);

    let stack = StackHeadsPlan::new(&[42, 42], &[42, 2, 42], 2, false).expect("plan");
    let input = buffer(4, DType::Float16B, vec![64, 64]);
    assert!(stack_heads(&cores, &[&input], stack.clone(), DType::Float16B).is_err());
    let pair = stack_heads(&cores, &[&input, &input], stack.clone(), DType::Float16B)
        .expect("request");
    assert_eq!(pair.output_shape, vec![42, 32, 64]);
    let stacked = stack_heads_program(
        &StackHeadsProgramKey {
            cores,
            dtype: DType::Float16B,
            shape: stack.kernel_shape().clone(),
        },
        "",
        "",
    )
    .expect("program");
    assert_eq!(stacked.runtime_args.section_sizes(), (12, 16, 0));
}
