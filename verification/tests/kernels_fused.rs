//! Fused element-wise programs.

use libtt::dram::{DType, DramBuffer};
use libtt::executable::{
    CompareDirection, FusedElementwiseKind, FusedElementwiseNode, PJRT_Buffer_Type,
};
use libtt::hw::CoreCoord;
use libtt::kernels::fused::emit::{compute_source, compute_steps, FusedSources};
use libtt::kernels::fused::inputs::validate_and_collect_inputs;
use libtt::kernels::fused::kinds::{
    HEADER_ADD_INT, HEADER_BINARY_SFPU, HEADER_COMP, HEADER_EXP, HEADER_SUB_INT,
};
use libtt::kernels::fused::{eltwise_kernel, eltwise_request, fused_eltwise_program};

fn node(op: FusedElementwiseKind, input_nodes: Vec<u32>) -> FusedElementwiseNode {
    FusedElementwiseNode {
        kind: op,
        input_nodes,
        input_index: 0,
        packed_value: 0,
        element_type: PJRT_Buffer_Type::PJRT_Buffer_Type_BF16,
        single_tile_broadcast: false,
    }
}

fn sources() -> FusedSources {
    FusedSources {
        writer: "writer".to_owned(),
        compute: "#include <cstdint>\nFUSED_HEADERS\nFUSED_HELPERS\nvoid MAIN {\nFUSED_STEPS\n}\n"
            .to_owned(),
        binary_input_data_format: "ALWI bool is_int_input() { return false; }\n".to_owned(),
        add_input: "ALWI void add_input_tile(uint32_t a) {}\n".to_owned(),
        subtract_input: "ALWI void subtract_input_tile(uint32_t a) {}\n".to_owned(),
        multiply_input: "ALWI void multiply_input_tile(uint32_t a) {}\n".to_owned(),
        compare: "ALWI void compare_zero_tile(uint32_t a) {}\n".to_owned(),
    }
}

#[test]
fn compute_steps_handles_constant_left_divide_as_rdiv() {
    let mut constant = node(FusedElementwiseKind::Constant, Vec::new());
    constant.packed_value = 0x3f80_3f80;

    let nodes = vec![
        node(FusedElementwiseKind::Input, Vec::new()),
        constant,
        node(FusedElementwiseKind::Divide, vec![1, 0]),
    ];
    let steps = compute_steps(&nodes).expect("constant / value should lower");

    assert!(steps.body.contains("rdiv_tile_init();"));
    assert!(steps.body.contains("rdiv_tile(0, 1065353216);"));
}

#[test]
fn compute_steps_handles_constant_right_power_as_unary_power() {
    let mut constant = node(FusedElementwiseKind::Constant, Vec::new());
    constant.packed_value = 0x4000_4000;

    let nodes = vec![
        node(FusedElementwiseKind::Input, Vec::new()),
        constant,
        node(FusedElementwiseKind::Power, vec![0, 1]),
    ];
    let steps = compute_steps(&nodes).expect("value ** constant should lower");

    assert!(steps.body.contains("power_tile_init();"));
    assert!(steps.body.contains("power_tile(0, 1073741824);"));
}

#[test]
fn compute_steps_handles_constant_right_compare_as_unary_compare() {
    let mut constant = node(FusedElementwiseKind::Constant, Vec::new());
    constant.packed_value = 0;

    let nodes = vec![
        node(FusedElementwiseKind::Input, Vec::new()),
        constant,
        node(
            FusedElementwiseKind::Compare(CompareDirection::Gt),
            vec![0, 1],
        ),
    ];
    let steps = compute_steps(&nodes).expect("value > constant should lower");

    assert!(steps.body.contains("unary_gt_tile_init();"));
    assert!(steps.body.contains("unary_gt_tile(0, 0);"));
}

#[test]
fn compute_steps_reverses_constant_left_compare() {
    let mut constant = node(FusedElementwiseKind::Constant, Vec::new());
    constant.packed_value = 0;

    let nodes = vec![
        constant,
        node(FusedElementwiseKind::Input, Vec::new()),
        node(
            FusedElementwiseKind::Compare(CompareDirection::Gt),
            vec![0, 1],
        ),
    ];
    let steps = compute_steps(&nodes).expect("constant > value should lower");

    assert!(steps.body.contains("unary_lt_tile_init();"));
    assert!(steps.body.contains("unary_lt_tile(0, 0);"));
}

#[test]
fn compute_steps_handles_constant_right_max_as_unary_max() {
    let mut constant = node(FusedElementwiseKind::Constant, Vec::new());
    constant.packed_value = 0;

    let nodes = vec![
        node(FusedElementwiseKind::Input, Vec::new()),
        constant,
        node(FusedElementwiseKind::Max, vec![0, 1]),
    ];
    let steps = compute_steps(&nodes).expect("max(value, constant) should lower");

    assert!(steps.body.contains("unary_max_tile_init();"));
    assert!(steps.body.contains("unary_max_tile(0, 0);"));
}

#[test]
fn validate_allows_constant_only_fusion() {
    let mut lhs = node(FusedElementwiseKind::Constant, Vec::new());
    lhs.packed_value = 0x3f80_3f80;
    let mut rhs = node(FusedElementwiseKind::Constant, Vec::new());
    rhs.packed_value = 0x4000_4000;

    let nodes = vec![lhs, rhs, node(FusedElementwiseKind::Add, vec![0, 1])];
    let inputs = validate_and_collect_inputs(&[], &nodes, &[32, 32])
        .expect("constant-only fused op should not require external inputs");

    assert!(inputs.is_empty());
}

#[test]
fn compute_source_only_emits_used_add_helpers() {
    let nodes = vec![
        node(FusedElementwiseKind::Input, Vec::new()),
        node(FusedElementwiseKind::Input, Vec::new()),
        node(FusedElementwiseKind::Add, vec![0, 1]),
    ];
    let source = compute_source(&sources(), &nodes).expect("add source should generate");

    assert!(source.contains(HEADER_BINARY_SFPU));
    assert!(source.contains(HEADER_ADD_INT));
    assert!(source.contains("ALWI void add_input_tile"));
    assert!(!source.contains(HEADER_EXP));
    assert!(!source.contains(HEADER_COMP));
    assert!(!source.contains("ALWI void compare_zero_tile"));
    assert!(!source.contains("FUSED_"));
}

#[test]
fn compute_source_only_emits_compare_helpers_for_compare() {
    let nodes = vec![
        node(FusedElementwiseKind::Input, Vec::new()),
        node(FusedElementwiseKind::Input, Vec::new()),
        node(
            FusedElementwiseKind::Compare(CompareDirection::Gt),
            vec![0, 1],
        ),
    ];
    let source = compute_source(&sources(), &nodes).expect("compare source should generate");

    assert!(source.contains(HEADER_COMP));
    assert!(source.contains(HEADER_SUB_INT));
    assert!(source.contains("ALWI void compare_zero_tile"));
    assert!(!source.contains(HEADER_ADD_INT));
    assert!(!source.contains("ALWI void add_input_tile"));
    assert!(!source.contains("FUSED_"));
}

#[test]
fn fusions_are_checked_before_they_are_built() {
    let tensor = DramBuffer {
        name: "x".to_owned(),
        addr: 0x1000,
        num_tiles: 1,
        dtype: DType::Float16B,
        shape: vec![32, 32],
    };
    let cores = [CoreCoord { x: 1, y: 2 }];
    let nodes = vec![
        node(FusedElementwiseKind::Input, Vec::new()),
        node(FusedElementwiseKind::Exponential, vec![0]),
    ];
    let request = eltwise_request(&cores, &[&tensor], nodes.clone(), &[4, 4]).expect("request");
    assert_eq!(request.output_tiles, 1);
    let kernel = eltwise_kernel(request, 0x80).expect("kernel");
    assert_eq!((kernel.input_addrs.clone(), kernel.output_addr), (vec![0x1000], 0x80));
    let program = fused_eltwise_program(&sources(), &kernel.key).expect("program");
    assert!(program.compute_kernel.contains(HEADER_EXP));

    assert!(eltwise_request(&cores, &[], nodes.clone(), &[4, 4]).is_err());
    assert!(eltwise_request(&[], &[&tensor], nodes, &[4, 4]).is_err());
    let root = vec![node(FusedElementwiseKind::Input, Vec::new())];
    assert!(eltwise_request(&cores, &[&tensor], root, &[4, 4]).is_err());
    let forward = vec![
        node(FusedElementwiseKind::Input, Vec::new()),
        node(FusedElementwiseKind::Negate, vec![1]),
    ];
    assert!(eltwise_request(&cores, &[&tensor], forward, &[4, 4]).is_err());
}
