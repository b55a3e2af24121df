//! Kernels that move, fill or combine whole tensors.

use libtt::dram::{DType, DramBuffer};
use libtt::executable::{BitwiseBinaryKind, CompareDirection};
use libtt::hw::CoreCoord;
use libtt::kernels::add::{add_kernel, bf16_program, eltwise_add_bf16};
use libtt::kernels::argmax::{argmax, argmax_kernel, argmax_program};
use libtt::kernels::binary_eltwise::{
    eltwise, eltwise_kernel, eltwise_program, BinaryEltwiseOp, BinaryEltwiseProgramKey,
    EltwiseInput, EltwiseSources,
};
use libtt::kernels::bitwise::{bitwise_binary, bitwise_kernel, bitwise_program};
use libtt::kernels::concatenate::{
    concatenate, concatenate_kernel, concatenate_program, concatenate_shape, ConcatenateAxis,
};
use libtt::kernels::constant::{constant_program, repeated_word, splat_constant};
use libtt::kernels::dynamic_update_slice::{
    dynamic_update_slice, dynamic_update_slice_program, dynamic_update_slice_shape,
    DynamicUpdateSliceProgramKey, UpdateInputs,
};
use libtt::kernels::gather::{
    gather, gather_program, gather_shape, GatherInputs, GatherProgramKey,
};
use libtt::kernels::iota::{
    iota, iota_kernel, iota_program, tile_range, validate_iota, IotaProgramKey,
};
use libtt::kernels::kernel::Kernel;
use libtt::kernels::pad::{pad, pad_kernel, pad_program, PadPlan};

fn arg_u32(blob: &[u8], index: usize) -> u32 {
    let start = index * std::mem::size_of::<u32>();
    u32::from_le_bytes(
        blob[start..start + std::mem::size_of::<u32>()]
            .try_into()
            .unwrap(),
    )
}

fn at(x: u8, y: u8) -> CoreCoord {
    CoreCoord { x, y }
}

fn buffer(num_tiles: usize, dtype: DType, shape: Vec<usize>) -> DramBuffer {
    DramBuffer { name: "input".to_owned(), addr: 0x1000, num_tiles, dtype, shape }
}

fn sources() -> EltwiseSources<'static> {
    EltwiseSources {
        add: "add",
        subtract: "subtract",
        multiply: "multiply",
        divide: "divide",
        power: "power",
        max: "max",
        compare: "int32=COMPARE_INT32_INPUT direction=COMPARE_DIRECTION COMPARE_DIRECTION",
    }
}

#[test]
fn binary_eltwise_program_splits_tiles_across_cores() {
    let program = eltwise_program(
        &BinaryEltwiseProgramKey {
            op: BinaryEltwiseOp::Add,
            cores: vec![at(1, 2), at(1, 3), at(1, 4)],
            tile_count: 10,
            input_dtype: DType::Float16B,
            output_dtype: DType::Float16B,
        },
        "",
        "",
        &sources(),
    )
    .expect("binary eltwise program");

    assert_eq!(program.runtime_args.cores().len(), 3);
    assert_eq!(program.runtime_args.section_sizes(), (12, 24, 4));

    let blobs = program.runtime_args.blobs();
    assert_eq!((arg_u32(&blobs[0], 1), arg_u32(&blobs[0], 2)), (0, 4));
    assert_eq!((arg_u32(&blobs[1], 1), arg_u32(&blobs[1], 2)), (4, 3));
    assert_eq!((arg_u32(&blobs[2], 1), arg_u32(&blobs[2], 2)), (7, 3));

    assert_eq!((arg_u32(&blobs[0], 5), arg_u32(&blobs[0], 6)), (0, 4));
    assert_eq!((arg_u32(&blobs[1], 5), arg_u32(&blobs[1], 6)), (4, 3));
    assert_eq!((arg_u32(&blobs[2], 5), arg_u32(&blobs[2], 6)), (7, 3));

    assert_eq!(arg_u32(&blobs[0], 9), 4);
    assert_eq!(arg_u32(&blobs[1], 9), 3);
    assert_eq!(arg_u32(&blobs[2], 9), 3);
}

#[test]
fn comparison_sources_name_direction_and_type() {
    let op = BinaryEltwiseOp::Compare(CompareDirection::Ge);
    assert_eq!(
        op.compute_source(DType::Int32, &sources()).expect("source"),
        "int32=true direction=Ge Ge"
    );
    assert_eq!(
        op.compute_source(DType::Float32, &sources()).expect("source"),
        "int32=false direction=Ge Ge"
    );
    assert!(op.compute_source(DType::UInt8, &sources()).is_err());
    assert_eq!(op.output_dtype(DType::Float32), DType::UInt8);
    assert_eq!(
        op.kernel_name(DType::Int32, DType::UInt8),
        "eltwise_compare_Ge_Int32_UInt8"
    );
}

#[test]
fn operations_refuse_types_without_a_kernel() {
    for (op, word) in [
        (BinaryEltwiseOp::Subtract, "subtract"),
        (BinaryEltwiseOp::Divide, "divide"),
        (BinaryEltwiseOp::Power, "power"),
        (BinaryEltwiseOp::Max, "max"),
    ] {
        let err = op.compute_source(DType::UInt8, &sources()).expect_err("no kernel");
        assert!(err.to_string().starts_with(word));
        assert_eq!(op.compute_source(DType::Float32, &sources()).expect("source"), word);
    }
    assert!(BinaryEltwiseOp::Subtract.compute_source(DType::Int32, &sources()).is_ok());
    assert!(BinaryEltwiseOp::Add.compute_source(DType::UInt8, &sources()).is_ok());
}

#[test]
fn eltwise_kernels_pass_constants_to_the_reader() {
    let tensor = buffer(1, DType::Float16B, vec![32, 32]);
    let request = eltwise(
        &[at(1, 2)],
        BinaryEltwiseOp::Add,
        EltwiseInput::Dram(&tensor),
        EltwiseInput::Constant(7),
        DType::Float16B,
        &[4, 4],
    )
    .expect("request");
    let kernel = eltwise_kernel(
        EltwiseInput::Dram(&tensor),
        EltwiseInput::Constant(7),
        0x2000,
        request.key,
    )
    .expect("kernel");
    let arg = |i| kernel.reader_runtime_arg(at(1, 2), i);
    assert_eq!((arg(0), arg(1), arg(4), arg(5), arg(2)), (Some(0x1000), Some(0), Some(0), Some(7), None));
    assert_eq!(kernel.writer_runtime_arg(at(1, 2), 0), Some(0x2000));
    assert!(eltwise(
        &[at(1, 2)],
        BinaryEltwiseOp::Add,
        EltwiseInput::Dram(&tensor),
        EltwiseInput::Constant(7),
        DType::Float32,
        &[4, 4],
    )
    .is_err());
}

#[test]
fn concatenate_shape_describes_last_dim_concat() {
    let shape = concatenate_shape(&[vec![18, 16], vec![18, 16]], &[18, 32], 1)
        .expect("shape should be supported");

    assert_eq!(shape.axis, ConcatenateAxis::Cols);
    assert_eq!(shape.output_rows, 18);
    assert_eq!(shape.output_cols, 32);
    assert_eq!(shape.output_tile_rows, 1);
    assert_eq!(shape.output_tiles_per_row, 1);
    assert_eq!(shape.tile_count, 1);
    assert_eq!(shape.inputs[0].concat_offset, 0);
    assert_eq!(shape.inputs[1].concat_offset, 16);
}

#[test]
fn concatenate_shape_describes_row_concat() {
    let shape = concatenate_shape(&[vec![2, 4], vec![3, 4]], &[5, 4], 0)
        .expect("shape should be supported");

    assert_eq!(shape.axis, ConcatenateAxis::Rows);
    assert_eq!(shape.output_rows, 5);
    assert_eq!(shape.output_cols, 4);
    assert_eq!(shape.output_tile_rows, 1);
    assert_eq!(shape.output_tiles_per_row, 1);
    assert_eq!(shape.tile_count, 1);
    assert_eq!(shape.inputs[0].concat_offset, 0);
    assert_eq!(shape.inputs[1].concat_offset, 2);
}

#[test]
fn concatenate_shape_describes_rank1_concat() {
    let shape =
        concatenate_shape(&[vec![0], vec![1]], &[1], 0).expect("shape should be supported");

    assert_eq!(shape.axis, ConcatenateAxis::Cols);
    assert_eq!(shape.output_rows, 1);
    assert_eq!(shape.output_cols, 1);
    assert_eq!(shape.output_tile_rows, 1);
    assert_eq!(shape.output_tiles_per_row, 1);
    assert_eq!(shape.tile_count, 1);
    assert_eq!(shape.inputs[0].rows, 1);
    assert_eq!(shape.inputs[0].cols, 0);
    assert_eq!(shape.inputs[1].concat_offset, 0);
    assert_eq!(shape.inputs[1].cols, 1);
}

#[test]
fn concatenate_shape_rejects_batch_dimension_concat() {
    let err = concatenate_shape(&[vec![2, 3, 4], vec![2, 5, 4]], &[2, 8, 4], 0)
        .expect_err("batch dimension concat should not be accepted");
    assert!(err.to_string().contains("currently supports dimensions"));
}

#[test]
fn concatenations_check_their_inputs() {
    let a = buffer(1, DType::Int32, vec![32, 32]);
    let shapes = [vec![2, 4], vec![3, 4]];
    let request = concatenate(&[&a, &a], &shapes, &[5, 4], 0, DType::Int32).expect("request");
    assert_eq!(request.output_tiles, 1);
    let kernel =
        concatenate_kernel(&[at(1, 2)], &[&a, &a], 0x40, DType::Int32, request).expect("kernel");
    assert_eq!(kernel.reader_addrs, vec![0x1000, 0x1000]);
    let program = concatenate_program(&kernel.key, "", "").expect("program");
    assert!(program.reader_kernel.contains("#define"));
    assert!(concatenate(&[&a], &shapes, &[5, 4], 0, DType::Int32).is_err());
    assert!(concatenate(&[&a, &a], &shapes, &[6, 4], 0, DType::Int32).is_err());
}

#[test]
fn program_places_start_index_addresses_before_tile_range() {
    let shape = dynamic_update_slice_shape(&[64], &[2]).expect("shape");
    let program = dynamic_update_slice_program(
        &DynamicUpdateSliceProgramKey {
            cores: vec![at(1, 2)],
            dtype: DType::Int32,
            shape,
        },
        "",
        "",
    )
    .expect("program");

    assert_eq!(program.runtime_args.section_sizes(), (12, 20, 0));
    assert!(program
        .reader_kernel
        .contains("#define DUS_OPERAND_SHAPE {64u}"));
    let blobs = program.runtime_args.blobs();
    assert_eq!(arg_u32(&blobs[0], 6), 0);
    assert_eq!(arg_u32(&blobs[0], 7), 2);
}

#[test]
fn updates_need_one_start_index_per_dimension() {
    let operand = buffer(2, DType::Int32, vec![32, 64]);
    let update = buffer(1, DType::Int32, vec![32, 32]);
    let starts = [buffer(1, DType::Int32, vec![32, 32])];
    let shapes = [Vec::new()];
    let inputs = UpdateInputs {
        operand: &operand,
        update: &update,
        start_indices: &starts,
        operand_shape: &[64],
        update_shape: &[2],
        start_indices_shapes: &shapes,
        dtype: DType::Int32,
    };
    let request = dynamic_update_slice(&[at(1, 2)], &inputs).expect("request");
    assert_eq!(request.output_tiles, 2);
    let none = UpdateInputs { start_indices: &[], start_indices_shapes: &[], ..inputs };
    assert!(dynamic_update_slice(&[at(1, 2)], &none).is_err());
}

#[test]
fn gather_answers_for_every_axis() {
    let operand = buffer(1, DType::Float32, vec![32, 32]);
    let start = buffer(1, DType::Int32, vec![32, 32]);
    let inputs = |axis: usize| GatherInputs {
        operand: &operand,
        start_indices: &start,
        operand_shape: &[4, 8],
        start_indices_shape: &[2, 1],
        axis,
        dtype: DType::Float32,
    };

    for axis in [2, usize::MAX] {
        let err = gather(&[at(1, 2)], &inputs(axis), None, &[2, 8, 1, 1, 1]).unwrap_err();
        assert_eq!(
            err.to_string(),
            format!("gather axis {axis} is out of bounds for operand shape [4, 8]"),
        );
    }

    let request = gather(&[at(1, 2)], &inputs(0), None, &[2, 8]).expect("gather request");
    assert_eq!(request.output_tiles, 1);
    assert_eq!(request.output_shape, vec![32, 32]);
    assert_eq!(request.key.cores, vec![at(1, 2)]);
}

#[test]
fn gather_program_splits_bf16_row_tiles_across_cores() {
    let shape =
        gather_shape(&[288, 128], None, &[96, 128], 0, DType::Float16B).expect("gather shape");
    let program = gather_program(
        &GatherProgramKey {
            cores: vec![at(1, 2), at(1, 3)],
            dtype: DType::Float16B,
            shape,
        },
        "",
        "",
    )
    .expect("gather program");

    let blobs = program.runtime_args.blobs();
    assert_eq!(program.runtime_args.section_sizes(), (12, 32, 0));
    assert_eq!(blobs.len(), 2);
    assert_eq!((arg_u32(&blobs[0], 1), arg_u32(&blobs[0], 2)), (0, 8));
    assert_eq!((arg_u32(&blobs[1], 1), arg_u32(&blobs[1], 2)), (8, 4));
    assert_eq!((arg_u32(&blobs[0], 5), arg_u32(&blobs[0], 6)), (0, 2));
    assert_eq!((arg_u32(&blobs[1], 5), arg_u32(&blobs[1], 6)), (2, 1));
    assert!(program.reader_kernel.contains("#define GATHER_BF16_ROWS 1"));
}

#[test]
fn gather_program_uses_axis_mode_for_non_bf16_rows() {
    let shape = gather_shape(&[4, 8], None, &[2, 8], 0, DType::Float32).expect("gather shape");
    let program = gather_program(
        &GatherProgramKey {
            cores: vec![at(1, 2)],
            dtype: DType::Float32,
            shape,
        },
        "",
        "",
    )
    .expect("gather program");

    assert_eq!(program.runtime_args.section_sizes(), (12, 16, 0));
    assert!(program.reader_kernel.contains("#define GATHER_BF16_ROWS 0"));
    assert!(program.reader_kernel.contains("#define GATHER_RANK 3"));
    assert!(program.reader_kernel.contains("#define GATHER_AXIS 1"));
}

#[test]
fn gather_program_pads_rank1_axis_shape() {
    let shape = gather_shape(&[8], None, &[2], 0, DType::Float32).expect("gather shape");
    let program = gather_program(
        &GatherProgramKey {
            cores: vec![at(1, 2)],
            dtype: DType::Float32,
            shape,
        },
        "",
        "",
    )
    .expect("gather program");

    assert!(program.reader_kernel.contains("#define GATHER_RANK 3"));
    assert!(program.reader_kernel.contains("#define GATHER_AXIS 2"));
    assert!(program
        .reader_kernel
        .contains("#define GATHER_OPERAND_SHAPE {1u, 1u, 8u}"));
}

#[test]
fn iota_program_splits_tiles_across_cores() {
    let program = iota_program(
        &IotaProgramKey {
            cores: vec![at(1, 2), at(1, 3)],
            tile_count: 5,
            dtype: DType::Float32,
        },
        "",
    )
    .expect("iota program");

    let blobs = program.runtime_args.blobs();
    assert_eq!(blobs.len(), 2);
    assert_eq!((arg_u32(&blobs[0], 1), arg_u32(&blobs[0], 2)), (0, 3));
    assert_eq!((arg_u32(&blobs[1], 1), arg_u32(&blobs[1], 2)), (3, 2));
}

#[test]
fn validate_iota_rejects_unsupported_rank_and_dtype() {
    assert!(validate_iota(DType::Float32, &[2, 3], 1).is_ok());
    assert!(validate_iota(DType::Float32, &[2, 3, 4], 1).is_err());
    assert!(validate_iota(DType::UInt16, &[2, 3], 1).is_err());
}

#[test]
fn iota_kernels_keep_the_packed_tile_ranges() {
    let cores = [at(1, 2), at(1, 3)];
    let request = iota(&cores, DType::Float32, &[2, 33], 1).expect("request");
    assert_eq!(request.output_tiles, 2);
    let kernel =
        iota_kernel(request.cores, DType::Float32, &[2, 33], 1, 0x40).expect("kernel");
    let mut program = iota_program(&kernel.key, "writer").expect("program");
    let before: Vec<(u32, u32)> =
        program.runtime_args.blobs().iter().map(|b| (arg_u32(b, 1), arg_u32(b, 2))).collect();
    program.runtime_args.update_from_kernel(&kernel).expect("update");
    let blobs = program.runtime_args.blobs();
    for (blob, range) in blobs.iter().zip(before) {
        assert_eq!((arg_u32(blob, 1), arg_u32(blob, 2)), range);
        assert_eq!(arg_u32(blob, 0), 0x40);
        assert_eq!((arg_u32(blob, 3), arg_u32(blob, 4), arg_u32(blob, 5)), (2, 2, 33));
        assert_eq!((arg_u32(blob, 6), arg_u32(blob, 7)), (1, 2));
    }
    assert!(program.writer_kernel.contains("#define IOTA_DTYPE_FLOAT32 1\n"));
    let err = tile_range(4, at(9, 9), &cores).expect_err("not listed");
    assert_eq!(err.to_string(), "core 9,9 is not part of this iota launch");
}

#[test]
fn constants_fill_whole_words() {
    assert_eq!(repeated_word(DType::UInt8, 0x1ab), 0xabab_abab);
    assert_eq!(repeated_word(DType::Float16B, 0x9_3f80), 0x3f80_3f80);
    assert_eq!(repeated_word(DType::Float32, 0x3f80_0000), 0x3f80_0000);
    let kernel = splat_constant(&[at(1, 2)], DType::UInt8, 3, &[32, 64], 0x40).expect("kernel");
    assert_eq!((kernel.packed_word, kernel.key.tile_count), (0x0303_0303, 2));
    let program = constant_program(&kernel.key, "writer").expect("program");
    assert_eq!(program.name, "constant_UInt8_1");
    assert_eq!(arg_u32(&program.runtime_args.blobs()[0], 3), 2);
    assert!(splat_constant(&[], DType::UInt8, 3, &[32, 64], 0x40).is_err());
    assert!(splat_constant(&[at(1, 2)], DType::UInt8, 3, &[32, 64], u64::MAX).is_err());
}

#[test]
fn argmax_runs_on_one_core() {
    let input = buffer(2, DType::Float32, vec![32, 64]);
    let first = argmax(&[at(1, 2), at(1, 3)], &input, &[40], &[0]).expect("core");
    assert_eq!(first, at(1, 2));
    let kernel = argmax_kernel(first, &input, &[40], 0x80).expect("kernel");
    let program = argmax_program(&kernel.key, "body").expect("program");
    assert_eq!(program.writer_kernel, "#define ARGMAX_DTYPE_FLOAT32\nbody");
    let blob = &program.runtime_args.blobs()[0];
    assert_eq!((arg_u32(blob, 2), arg_u32(blob, 3)), (40, 2));
    assert!(argmax(&[at(1, 2)], &input, &[40], &[1]).is_err());
    assert!(argmax(&[at(1, 2)], &input, &[4, 10], &[0]).is_err());
    assert!(argmax(&[at(1, 2)], &buffer(2, DType::Int32, vec![32, 64]), &[40], &[0]).is_err());
    assert!(argmax(&[], &input, &[40], &[0]).is_err());
}

#[test]
fn addition_runs_on_the_first_core() {
    let a = buffer(3, DType::Float16B, vec![32, 96]);
    let request = eltwise_add_bf16(&[at(1, 2), at(1, 3)], &a, &a).expect("request");
    assert_eq!((request.key.core, request.key.tile_count), (at(1, 2), 3));
    let program = bf16_program(request.key, "r", "c", "w").expect("program");
    let blob = &program.runtime_args.blobs()[0];
    let words: Vec<u32> = (0..8).map(|i| arg_u32(blob, i)).collect();
    assert_eq!(words, vec![0, 0, 3, 0, 0, 0, 3, 3]);
    let kernel = add_kernel(1, 2, 3, request.key).expect("kernel");
    assert_eq!(kernel.reader_addrs, vec![1, 2]);
    assert!(eltwise_add_bf16(&[], &a, &a).is_err());
    assert!(eltwise_add_bf16(&[at(1, 2)], &a, &buffer(3, DType::Float32, vec![32, 96])).is_err());
    assert!(eltwise_add_bf16(&[at(1, 2)], &a, &buffer(2, DType::Float16B, vec![32, 64])).is_err());
    assert!(eltwise_add_bf16(&[at(1, 2)], &a, &buffer(3, DType::Float16B, vec![96, 32])).is_err());
}

#[test]
fn bitwise_operations_have_their_own_numbers() {
    let a = buffer(1, DType::UInt16, vec![32, 32]);
    let request = bitwise_binary(
        &[at(1, 2)],
        &a,
        &a,
        &[4, 4],
        DType::UInt16,
        BitwiseBinaryKind::ShiftRightArithmetic,
    )
    .expect("request");
    let program = bitwise_program(&request.key, "", "").expect("program");
    assert!(program.reader_kernel.contains("#define BITWISE_OP 5\n"));
    assert!(program.reader_kernel.contains("#define BITWISE_SIGNED_ELEMENT_TYPE int16_t\n"));
    assert!(program.reader_kernel.contains("#define BITWISE_BIT_WIDTH 16\n"));
    assert_eq!(program.name, "bitwise_ShiftRightArithmetic_UInt16");
    assert_eq!(bitwise_kernel(1, 2, 3, request.key).expect("kernel").output_addr, 3);
    assert!(bitwise_binary(
        &[at(1, 2)],
        &a,
        &a,
        &[4, 4],
        DType::Float32,
        BitwiseBinaryKind::And,
    )
    .is_err());
}

#[test]
fn padding_adds_edges_and_gaps() {
    let plan = PadPlan::new(&[2, 3], &[5, 7], &[1, 0], &[1, 2], &[1, 1]).expect("plan");
    assert_eq!(plan.output_allocation_shape, vec![32, 32]);
    let input = buffer(1, DType::Int32, vec![32, 32]);
    let request =
        pad(&[at(1, 2)], &input, &input, plan.clone(), DType::Int32).expect("request");
    let program = pad_program(&request.key, "", "").expect("program");
    assert_eq!(program.runtime_args.blobs().len(), 1);
    assert_eq!(pad_kernel(1, 2, 3, request.key).expect("kernel").reader_addrs, vec![1, 2]);
    assert!(PadPlan::new(&[2, 3], &[5, 8], &[1, 0], &[1, 2], &[1, 1]).is_err());
    assert!(PadPlan::new(&[2, 3], &[5, 7], &[1], &[1, 2], &[1, 1]).is_err());
    assert!(pad(&[at(1, 2)], &input, &input, plan, DType::UInt8).is_err());
}

#[test]
fn too_few_tensors_are_refused_before_their_rank() {
    for inputs in [vec![], vec![vec![]], vec![vec![4]]] {
        let err = concatenate_shape(&inputs, &[], 0).expect_err("too few");
        assert_eq!(err.to_string(), "concatenate requires at least two input tensors");
    }
}
