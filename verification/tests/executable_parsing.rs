//! Parsed executables, host buffers, and small text and number helpers.

use libtt::arith::{checked_round_up, div_ceil, saturating_mul_u64};
use libtt::bridge::{
    buffer_request, buffer_size, cstring_lossy, dims_i64_to_usize, io_error, is_deleted,
    read_reply, read_request, TTRustBufferHandle, PJRT_ERROR_CODE_INVALID_ARGUMENT,
    PJRT_ERROR_CODE_UNIMPLEMENTED,
};
use libtt::compiler::toolchain::{
    check_toolchain, firmware_sources, profiler_enabled, render_command, shell_quote, weaken_args,
    Compiler, Target,
};
use libtt::compiler::firmware::FirmwareSet;
use libtt::compiler::CompiledFirmware;
use libtt::dispatch::MathFidelity;
use libtt::dram::{DType, DramBuffer};
use libtt::error::{Error, ErrorKind};
use libtt::executable::wire::{
    parse_analysis, parse_op, parse_proto, WireAnalysis, WireElementType, WireExecutable, WireKind,
    WireNode, WireNodeKind, WireOp, WireTensor, WireValue,
};
use libtt::executable::{
    BitwiseBinaryKind, CompareDirection, FusedElementwiseKind, Op, PJRT_Buffer_Type,
};
use libtt::float_bits::{f16_to_f32_bits, reciprocal_bits};
use libtt::kernels::lowering::{CompileConfig, KernelCb};
use libtt::path::{
    cache_file_path, join, resolve_compiler_cache_dir, resolve_repo_root, CacheSettings,
};
use libtt::text::{cpp_u32_array, decimal_i64, hexadecimal, shape_text};

fn tensor(dims: Vec<i64>) -> WireTensor {
    WireTensor { dims, element_type: Some(WireElementType::F32) }
}

fn wire(ops: Vec<WireOp>) -> WireExecutable {
    WireExecutable {
        values: vec![
            WireValue { tensor: Some(tensor(vec![2, 3])) },
            WireValue { tensor: Some(tensor(vec![2, 3])) },
            WireValue { tensor: Some(tensor(vec![2, 3])) },
        ],
        ops,
        output_ids: vec![2],
    }
}

#[test]
fn executables_keep_values_operations_and_outputs() {
    let parsed = parse_proto(wire(vec![
        WireOp { kind: Some(WireKind::Parameter { parameter_index: 4 }), output_id: 0 },
        WireOp {
            kind: Some(WireKind::Transpose { operand_id: 0, permutation: vec![1, 0] }),
            output_id: 1,
        },
    ]))
    .expect("executable");
    assert_eq!(parsed.values.len(), 3);
    assert_eq!(parsed.values[0].dims, vec![2, 3]);
    assert_eq!(parsed.values[0].element_type, PJRT_Buffer_Type::PJRT_Buffer_Type_F32);
    assert_eq!(parsed.output_ids, vec![2]);
    match &parsed.ops[0] {
        Op::Parameter { parameter_index, output_id } => {
            assert_eq!((*parameter_index, *output_id), (4, 0))
        }
        other => panic!("unexpected op {other:?}"),
    }
    match &parsed.ops[1] {
        Op::Transpose { input_id, permutation, .. } => {
            assert_eq!((*input_id, permutation.clone()), (0, vec![1, 0]))
        }
        other => panic!("unexpected op {other:?}"),
    }
}

#[test]
fn bitwise_operations_become_fusions() {
    let parsed = parse_proto(wire(vec![WireOp {
        kind: Some(WireKind::BitwiseBinary { lhs_id: 0, rhs_id: 1, kind: BitwiseBinaryKind::Xor }),
        output_id: 2,
    }]))
    .expect("executable");
    match &parsed.ops[0] {
        Op::FusedElementwise { input_ids, nodes, .. } => {
            assert_eq!(input_ids, &vec![0, 1]);
            assert_eq!(nodes.len(), 3);
            assert_eq!(nodes[2].kind, FusedElementwiseKind::Bitwise(BitwiseBinaryKind::Xor));
        }
        other => panic!("unexpected op {other:?}"),
    }
    let outside = parse_proto(wire(vec![WireOp {
        kind: Some(WireKind::BitwiseBinary { lhs_id: 9, rhs_id: 1, kind: BitwiseBinaryKind::Xor }),
        output_id: 2,
    }]));
    assert!(outside.is_err());
}

#[test]
fn fused_nodes_need_a_kind_and_a_direction() {
    let node = |kind, direction| WireNode {
        kind,
        compare_direction: direction,
        input_nodes: Vec::new(),
        input_index: 0,
        packed_value: 0,
        element_type: Some(WireElementType::Bf16),
        single_tile_broadcast: false,
    };
    let op = |n| WireOp {
        kind: Some(WireKind::FusedElementwise { input_ids: vec![0], nodes: vec![n] }),
        output_id: 1,
    };
    let compare = Some(WireNodeKind::Compare);
    let good = parse_op(op(node(compare, Some(CompareDirection::Lt))), &Vec::new()).expect("op");
    match good {
        Op::FusedElementwise { nodes, .. } => {
            assert_eq!(nodes[0].kind, FusedElementwiseKind::Compare(CompareDirection::Lt))
        }
        other => panic!("unexpected op {other:?}"),
    }
    assert!(parse_op(op(node(compare, None)), &Vec::new()).is_err());
    assert!(parse_op(op(node(None, None)), &Vec::new()).is_err());
}

#[test]
fn malformed_executables_are_refused() {
    let err = parse_proto(wire(vec![WireOp { kind: None, output_id: 0 }])).expect_err("no kind");
    assert_eq!(err.kind, ErrorKind::InvalidData);
    let mut untyped = wire(Vec::new());
    untyped.values[0].tensor = Some(WireTensor { dims: Vec::new(), element_type: None });
    assert!(parse_proto(untyped).is_err());
    let mut missing = wire(Vec::new());
    missing.values[0].tensor = None;
    assert!(parse_proto(missing).is_err());
    let reduce = WireOp {
        kind: Some(WireKind::Reduce {
            input_ids: vec![0],
            init_value_ids: vec![1],
            dimensions: vec![0],
            reducer: None,
        }),
        output_id: 2,
    };
    assert!(parse_proto(wire(vec![reduce])).is_err());
}

#[test]
fn analyses_carry_a_status() {
    let parsed = parse_analysis(WireAnalysis {
        status: Some(2),
        error_message: "no".to_owned(),
        outputs: vec![tensor(vec![5])],
        executable: None,
    })
    .expect("analysis");
    assert_eq!((parsed.status, parsed.error_message.as_str()), (2, "no"));
    assert_eq!(parsed.outputs[0].dims, vec![5]);
    assert!(parsed.executable.is_none());
}

#[test]
fn host_requests_are_checked_in_order() {
    let good = buffer_request(false, 11, Some(&[2, 3]), 2, false, 24).expect("request");
    assert_eq!((good.dtype, good.shape), (DType::Float32, vec![2, 3]));
    let code = |r: Result<libtt::bridge::BufferRequest, libtt::bridge::Status>| match r {
        Ok(_) => 0,
        Err(status) => status.code,
    };
    let bad = PJRT_ERROR_CODE_INVALID_ARGUMENT;
    assert_eq!(code(buffer_request(true, 11, None, 0, false, 0)), bad);
    assert_eq!(code(buffer_request(false, 99, None, 0, false, 0)), PJRT_ERROR_CODE_UNIMPLEMENTED);
    assert_eq!(code(buffer_request(false, 11, None, 2, false, 0)), bad);
    assert_eq!(code(buffer_request(false, 11, Some(&[-1]), 1, false, 0)), bad);
    assert_eq!(code(buffer_request(false, 11, Some(&[1]), 1, true, 4)), bad);
    assert!(dims_i64_to_usize(&[1, -1]).is_err());
    assert_eq!(cstring_lossy("a\0b"), "a?b");
    let status = io_error(&Error::new(ErrorKind::InvalidInput, "no".to_owned()));
    assert_eq!(status.message, "no");
}

#[test]
fn deleted_buffers_are_gone() {
    let dram = DramBuffer {
        name: "x".to_owned(),
        addr: 0x40,
        num_tiles: 2,
        dtype: DType::UInt8,
        shape: vec![32, 64],
    };
    let mut handle = TTRustBufferHandle::new(0, 6, vec![32, 64], dram);
    assert!(!is_deleted(Some(&handle)));
    assert_eq!(buffer_size(Some(&handle)), 2048);
    assert!(read_request(Some(&handle), false).is_ok());
    assert!(read_request(Some(&handle), true).is_err());
    handle.delete();
    assert!(is_deleted(Some(&handle)));
    assert!(is_deleted(None));
    assert_eq!(buffer_size(Some(&handle)), 0);
    assert!(read_request(Some(&handle), false).is_err());
    assert!(read_reply(false, 10, 20).is_err());
}

#[test]
fn half_precision_numbers_are_widened() {
    assert_eq!(f16_to_f32_bits(0x3c00), 1.0f32.to_bits());
    assert_eq!(f16_to_f32_bits(0xc000), (-2.0f32).to_bits());
    assert_eq!(f16_to_f32_bits(0x0001), 2.0f32.powi(-24).to_bits());
    assert_eq!(f16_to_f32_bits(0x7c00), f32::INFINITY.to_bits());
    assert_eq!(f16_to_f32_bits(0x8000), (-0.0f32).to_bits());
}

#[test]
fn reciprocals_are_rounded_to_nearest() {
    for value in [1.0f32, 2.0, 3.0, -7.0, 0.1, 1.5e10, 3.25e-20, 1.0e38, -0.3333333] {
        assert_eq!(reciprocal_bits(value.to_bits()), (1.0 / value).to_bits());
    }
    assert_eq!(reciprocal_bits(f32::INFINITY.to_bits()), 0);
    assert_eq!(reciprocal_bits(0), f32::INFINITY.to_bits());
}

#[test]
fn reciprocals_overflow_and_vanish_like_the_division() {
    for bits in [1, 0x1f_ffff, 0x20_0000, 0x20_0001, 0x40_0000, 0x7f_ffff, 0x80_0000, 0x7e80_0001] {
        let value = f32::from_bits(bits);
        assert_eq!(reciprocal_bits(bits), (1.0 / value).to_bits());
        assert_eq!(reciprocal_bits(bits | 0x8000_0000), (1.0 / -value).to_bits());
    }
    for bits in [0x7e80_0000, 0x7eff_ffff, 0x7f00_0000, 0x7f7f_ffff, 0x3f80_0001] {
        assert_eq!(reciprocal_bits(bits), (1.0 / f32::from_bits(bits)).to_bits());
    }
}

#[test]
fn numbers_are_written_like_the_formatter_does() {
    assert_eq!(decimal_i64(i64::MIN), format!("{}", i64::MIN));
    assert_eq!(hexadecimal(0xdead_beef), format!("{:x}", 0xdead_beefu64));
    assert_eq!(hexadecimal(0), "0");
    assert_eq!(shape_text(&[1, 20, 300]), format!("{:?}", [1, 20, 300]));
    assert_eq!(shape_text(&[]), "[]");
    assert_eq!(cpp_u32_array(&[1, 2]), "{1u, 2u}");
    assert_eq!(div_ceil(7, 3), 3);
    assert_eq!(checked_round_up(usize::MAX, 16), None);
    assert_eq!(saturating_mul_u64(u64::MAX, 2), u64::MAX);
}

#[test]
fn paths_are_resolved_from_settings() {
    assert_eq!(join("/a", "b"), "/a/b");
    assert_eq!(join("/a/", "b"), "/a/b");
    let root = |named: Option<&str>, has_deps, around: Option<&str>| {
        resolve_repo_root(
            named.map(str::to_owned),
            "/built".to_owned(),
            has_deps,
            around.map(str::to_owned),
        )
    };
    assert_eq!(root(Some("/named"), true, None), "/named");
    assert_eq!(root(Some(""), true, None), "/built");
    assert_eq!(root(None, false, Some("/around")), "/around");
    assert_eq!(root(None, false, None), "/built");
    let settings = |enabled: Option<&str>, dir: Option<&str>| CacheSettings {
        enabled: enabled.map(str::to_owned),
        dir: dir.map(str::to_owned),
        user_cache: None,
        home: None,
        temp: "/tmp".to_owned(),
    };
    assert_eq!(resolve_compiler_cache_dir(settings(Some("0"), Some("/c"))), None);
    assert!(resolve_compiler_cache_dir(settings(None, Some("/c"))).is_some());
    assert!(cache_file_path("/c", "kernel", "abc").contains("abc"));
}

fn compiler() -> Compiler {
    let mut firmware = FirmwareSet::new();
    for name in ["brisc", "ncrisc", "trisc0", "trisc1", "trisc2"] {
        firmware.insert(
            name.to_owned(),
            CompiledFirmware { elf_bytes: vec![1], segments: Vec::new(), scratch_base: 0 },
        );
    }
    Compiler::new("/repo".to_owned(), 7, 120, (14, 2), (14, 3), false, firmware)
}

fn config() -> CompileConfig {
    CompileConfig {
        cbs: vec![KernelCb::new(0, DType::Float16B)],
        math_fidelity: MathFidelity::HiFi2,
        approx: false,
        dst_accum_mode: false,
        dst_full_sync: false,
    }
}

#[test]
fn kernels_are_built_for_a_processor() {
    let plan = compiler()
        .compile_dataflow("void kernel_main() {}", "brisc", None, &config())
        .expect("plan");
    assert_eq!(plan.target, Target::Brisc);
    assert!(plan.files.iter().any(|f| f.content.contains("kernel_main")));
    assert!(plan.link_args("/tmp/fw.elf").iter().any(|a| a.contains("/tmp/fw.elf")));
    assert!(compiler().compile_dataflow("", "trisc9", None, &config()).is_err());
    let (unpack, math, pack) = compiler().compile_compute("void MAIN {}", &config()).expect("plans");
    assert_eq!(
        (unpack.target, math.target, pack.target),
        (Target::Trisc0, Target::Trisc1, Target::Trisc2)
    );
}

#[test]
fn commands_are_quoted_for_a_shell() {
    assert_eq!(shell_quote("-O2"), "-O2");
    assert_eq!(shell_quote("a b"), "'a b'");
    assert_eq!(shell_quote("it's"), "'it'\\''s'");
    assert_eq!(shell_quote(""), "''");
    assert_eq!(shell_quote("''\u{e9}'x"), "''\\'''\\''\u{e9}'\\''x'");
    assert_eq!(
        render_command("/bin/cc", &vec!["-c".to_owned(), "a b".to_owned()]),
        "/bin/cc -c 'a b'"
    );
    assert!(check_toolchain("/repo", true, true).is_ok());
    assert_eq!(check_toolchain("/repo", false, true).expect_err("cc").kind, ErrorKind::NotFound);
    assert!(!profiler_enabled(None));
    assert!(!firmware_sources().is_empty());
    assert!(weaken_args("x.elf").contains(&"x.elf".to_owned()));
}
