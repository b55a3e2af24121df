//! General dot products.

use libtt::dram::{DType, DramBuffer};
use libtt::hw::CoreCoord;
use libtt::kernels::dot_general::dpa::{dpa_score_program, DpaScoreProgramKey};
use libtt::kernels::dot_general::dpa_value::{dpa_value_program, DpaValueProgramKey};
use libtt::kernels::dot_general::{
    build_kernel_shape, dot_cores, dot_general, dot_general_program, dot_kernel,
    DotGeneralProgramKey, DotGeneralSpec, DotKernel,
};

fn score_spec() -> DotGeneralSpec {
    DotGeneralSpec {
        lhs_shape: vec![1, 5, 2, 2, 16],
        rhs_shape: vec![1, 5, 2, 16],
        output_shape: vec![1, 2, 5, 2, 5],
        lhs_batching_dimensions: vec![0, 2],
        rhs_batching_dimensions: vec![0, 2],
        lhs_contracting_dimensions: vec![4],
        rhs_contracting_dimensions: vec![3],
        output_dtype: DType::Float32,
    }
}

fn value_spec() -> DotGeneralSpec {
    DotGeneralSpec {
        lhs_shape: vec![1, 5, 2, 16],
        rhs_shape: vec![2, 1, 2, 5, 5],
        output_shape: vec![1, 2, 16, 2, 5],
        lhs_batching_dimensions: vec![0, 2],
        rhs_batching_dimensions: vec![1, 2],
        lhs_contracting_dimensions: vec![1],
        rhs_contracting_dimensions: vec![4],
        output_dtype: DType::Float16B,
    }
}

fn buffer(num_tiles: usize, dtype: DType, shape: Vec<usize>) -> DramBuffer {
    DramBuffer { name: "input".to_owned(), addr: 0x1000, num_tiles, dtype, shape }
}

#[test]
fn dpa_score_shape_matches_stablehlo_order() {
    let shape = build_kernel_shape(&score_spec()).expect("shape");

    assert_eq!(shape.batch_count, 2);
    assert_eq!(shape.lhs_outer_count, 2);
    assert_eq!(shape.rhs_outer_count, 1);
    assert_eq!(shape.contract_volume, 16);
}

#[test]
fn dpa_value_shape_matches_stablehlo_order() {
    let shape = build_kernel_shape(&value_spec()).expect("shape");

    assert_eq!(shape.batch_count, 2);
    assert_eq!(shape.lhs_outer_count, 1);
    assert_eq!(shape.rhs_outer_count, 2);
    assert_eq!(shape.contract_volume, 5);
}

#[test]
fn contracted_sizes_have_to_agree() {
    let mut spec = score_spec();
    spec.rhs_shape[3] = 17;
    assert!(build_kernel_shape(&spec).is_err());
}

#[test]
fn dot_products_pick_a_kernel() {
    let spec = DotGeneralSpec {
        lhs_shape: vec![4, 8],
        rhs_shape: vec![8, 6],
        output_shape: vec![4, 6],
        lhs_batching_dimensions: Vec::new(),
        rhs_batching_dimensions: Vec::new(),
        lhs_contracting_dimensions: vec![1],
        rhs_contracting_dimensions: vec![0],
        output_dtype: DType::Float32,
    };
    let a = buffer(1, DType::Float32, vec![32, 32]);
    let request = dot_general(&a, &a, &spec).expect("request");
    assert_eq!((request.output_tiles, request.output_shape.clone()), (1, vec![32, 32]));
    let cores = dot_cores(&[CoreCoord { x: 1, y: 2 }], &request).expect("cores");
    let shape = match request.kernel {
        DotKernel::General(shape) => shape,
        _ => panic!("expected the general kernel"),
    };
    let key = DotGeneralProgramKey {
        cores,
        lhs_dtype: DType::Float32,
        rhs_dtype: DType::Float32,
        output_dtype: DType::Float32,
        shape,
    };
    let program = dot_general_program(&key, "", "").expect("program");
    assert_eq!(program.runtime_args.cores().len(), 1);
    let kernel = dot_kernel(1, 2, 3, key).expect("kernel");
    assert_eq!((kernel.reader_addrs, kernel.output_addr), (vec![1, 2], 3));
    assert!(dot_general(&buffer(2, DType::Float32, vec![32, 64]), &a, &spec).is_err());
}

#[test]
fn attention_products_have_their_own_kernels() {
    let lhs = buffer(10, DType::Float16B, vec![1, 5, 2, 32, 32]);
    let rhs = buffer(5, DType::Float16B, vec![1, 5, 32, 32]);
    let request = dot_general(&lhs, &rhs, &score_spec()).expect("request");
    let shape = match request.kernel {
        DotKernel::Score(shape) => shape,
        _ => panic!("expected the score kernel"),
    };
    assert_eq!((shape.query_tokens, shape.key_tokens, shape.kv_heads), (5, 5, 2));
    let key = DpaScoreProgramKey { cores: vec![CoreCoord { x: 1, y: 2 }], shape };
    let program = dpa_score_program(&key, "r", "c", "w").expect("program");
    assert_eq!((program.reader_kernel, program.compute_kernel), ("r".to_owned(), "c".to_owned()));

    let lhs = buffer(5, DType::Float16B, vec![1, 5, 32, 32]);
    let rhs = buffer(4, DType::Float16B, vec![2, 1, 2, 32, 32]);
    let request = dot_general(&lhs, &rhs, &value_spec()).expect("request");
    let shape = match request.kernel {
        DotKernel::Value(shape) => shape,
        _ => panic!("expected the value kernel"),
    };
    assert_eq!((shape.key_tokens, shape.query_tokens, shape.head_dim), (5, 5, 16));
    let key = DpaValueProgramKey { cores: vec![CoreCoord { x: 1, y: 2 }], shape };
    let program = dpa_value_program(&key, "r", "c", "w").expect("program");
    assert_eq!(program.writer_kernel, "w");
}
