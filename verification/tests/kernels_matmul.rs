//! Matrix multiplication: plans, arguments and programs.

use libtt::dispatch::MathFidelity;
use libtt::dram::banks::collect_bank_data;
use libtt::dram::{DType, DramBuffer};
use libtt::hw::{CoreCoord, Dram};
use libtt::kernels::kernel::{Kernel, RuntimeArgsBuilder};
use libtt::kernels::matmul::plan::{divisors, plan_matmul, plan_work};
use libtt::kernels::matmul::program::{plan_grid, reader_args, BatchRange, MatmulSources};
use libtt::kernels::matmul::request::{
    checked_plan, matmul_key, parse_matmul_math_fidelity, partial_buffers, partial_count,
    plan_for_key, store_kernel, top1_kernel, DotRequest, MatmulEpilogue,
};
use libtt::kernels::matmul::shape::{dot_general_shape, operand_view, MatmulViewKind};
use libtt::kernels::matmul_ws::{
    matmul_ws_program, plan_width_sharded, shard_pages, sharded_rhs_for, width_sharding_enabled,
    MatmulWsKey, MatmulWsPlan, ShardStep,
};

fn cores(cols: &[u8], rows: &[u8]) -> Vec<CoreCoord> {
    cols.iter()
        .flat_map(|&x| rows.iter().map(move |&y| CoreCoord { x, y }))
        .collect()
}

fn p100_worker_cores() -> Vec<CoreCoord> {
    cores(
        &[1, 2, 3, 4, 5, 6, 7, 10, 11, 12, 13, 14],
        &[2, 3, 4, 5, 6, 7, 8, 9, 10, 11],
    )
    .into_iter()
    .filter(|core| *core != CoreCoord { x: 14, y: 2 })
    .filter(|core| *core != CoreCoord { x: 14, y: 3 })
    .collect()
}

#[test]
fn plan_matmul_uses_exact_tiling() {
    let plan = plan_matmul(64, 64, 64, 1, &cores(&[1, 2], &[2, 3]), true).expect("plan");
    let grid = plan_grid(&plan);
    assert_eq!(plan.mt, 2);
    assert_eq!(plan.kt, 2);
    assert_eq!(plan.nt, 2);
    assert_eq!(plan.per_core_m * grid.len(), plan.mt);
    assert_eq!(plan.per_core_n * grid[0].len(), plan.nt);
}

#[test]
fn plan_matmul_prefers_square_exact_grid() {
    let plan = plan_matmul(512, 512, 512, 1, &p100_worker_cores(), true).expect("plan");
    assert_eq!(plan.per_core_m * plan.rows.len(), plan.mt);
    assert_eq!(plan.per_core_n * plan.cols.len(), plan.nt);
    assert!(plan.mt >= 16);
    assert!(plan.nt >= 16);
}

#[test]
fn plan_matmul_prefers_throughput_for_large_shapes() {
    let plan = plan_matmul(4096, 8192, 4096, 1, &p100_worker_cores(), true).expect("plan");
    assert_eq!(plan.rows, vec![2, 3, 4, 5, 6, 7, 8, 9, 10, 11]);
    assert_eq!(plan.cols, vec![1, 2, 3, 4, 5, 6, 7, 10, 11, 12, 13]);
    assert_eq!(plan.mt, 130);
    assert_eq!(plan.nt, 132);
    assert_eq!(plan.per_core_m, 13);
    assert_eq!(plan.per_core_n, 12);
    assert_eq!(plan.in0_block_w, 8);
    assert_eq!(plan.out_subblock_h, 1);
    assert_eq!(plan.out_subblock_w, 6);
}

#[test]
fn plan_matmul_uses_ceiled_tile_shape() {
    let plan = plan_matmul(33, 65, 1, 1, &cores(&[1], &[2]), true).expect("plan");
    assert_eq!(plan.mt, 2);
    assert_eq!(plan.kt, 3);
    assert_eq!(plan.nt, 1);
}

#[test]
fn plan_matmul_uses_direct_grid_for_wide_projection() {
    let plan = plan_matmul(32, 1024, 151936, 1, &p100_worker_cores(), true).expect("plan");
    let grid = plan.direct_grid.as_ref().expect("direct plan");
    assert_eq!(grid.len(), 1);
    assert!(grid[0].len() >= 100);
    assert_eq!(plan.mt, 1);
    assert_eq!(plan.kt, 32);
    assert_eq!(plan.per_core_m, 1);
    assert!(plan.per_core_n <= 48);
}

#[test]
fn plan_matmul_direct_grid_is_not_limited_to_single_m_tile() {
    let plan = plan_matmul(64, 1024, 151936, 1, &p100_worker_cores(), true).expect("plan");
    let grid = plan.direct_grid.as_ref().expect("direct plan");
    assert_eq!(grid.iter().map(Vec::len).sum::<usize>(), 110);
    assert_eq!(plan.mt, 2);
    assert_eq!(plan.kt, 32);
    assert_eq!(plan.per_core_m * grid.len(), plan.mt);
    assert_eq!(plan.out_subblock_h * plan.out_subblock_w, 8);
}

#[test]
fn plan_matmul_splits_batches_across_direct_grid() {
    let plan = plan_matmul(32, 1024, 1024, 16, &p100_worker_cores(), true).expect("plan");
    let grid = plan.direct_grid.as_ref().expect("direct plan");
    assert!(plan.batch_groups > 1);
    assert_eq!(grid.len() % plan.batch_groups, 0);
    assert_eq!(
        plan.direct_grid_rows_per_batch(),
        Some(grid.len() / plan.batch_groups)
    );
}

#[test]
fn reader_args_exclude_east_sender_from_multicast_receivers() {
    let plan = plan_matmul(
        4096,
        8192,
        1536,
        1,
        &p100_worker_cores()
            .into_iter()
            .filter(|core| core.x >= 10)
            .collect::<Vec<_>>(),
        true,
    )
    .expect("east plan");
    let grid = plan_grid(&plan);
    let sender = grid[0][0];
    let mut builder = RuntimeArgsBuilder::new(0, Vec::new(), Vec::new(), Vec::new());
    let lhs_view = operand_view(&[4096, 8192], &[], &[0], &[1], 4096, 8192).expect("lhs view");
    let batches = BatchRange { local: 1, start: 0, total: 1 };
    let reader =
        reader_args(&plan, &grid, 0, sender, 128, batches, &lhs_view).expect("reader args");
    builder
        .add_core(sender, Vec::new(), reader, Vec::new())
        .expect("add core");
    let runtime_args = builder.build().expect("lower runtime args");
    let offset = 18 * 4;
    let value = u32::from_le_bytes(
        runtime_args.blobs()[0][offset..offset + 4]
            .try_into()
            .expect("u32 runtime arg"),
    );
    assert_eq!(value as usize, plan.cols.len() - 1);
}

#[test]
fn plans_need_cores_and_fit_into_memory() {
    assert!(plan_matmul(64, 64, 64, 1, &[], true).is_err());
    let plan = plan_matmul(4096, 8192, 4096, 1, &p100_worker_cores(), true).expect("plan");
    assert_eq!(plan.kt % plan.in0_block_w, 0);
    assert_eq!(plan.per_core_m % plan.out_subblock_h, 0);
    assert_eq!(plan.per_core_n % plan.out_subblock_w, 0);
    let pages = plan.cb0_pages() + plan.cb1_pages() + plan.out_block_num_tiles();
    assert!(pages * 2048 <= 0x149000);
    assert!(plan_work(&plan) > 0);
    assert_eq!(divisors(12), vec![1, 2, 3, 4, 6, 12]);
}

#[test]
fn operand_views_tell_layouts_apart() {
    let plain = operand_view(&[64, 32], &[], &[0], &[1], 64, 32).expect("view");
    assert_eq!(plain.kind, MatmulViewKind::Contiguous);
    assert_eq!((plain.tile_rows, plain.tiles_per_row), (2, 1));
    let turned = operand_view(&[64, 32], &[], &[1], &[0], 32, 64).expect("view");
    assert_ne!(turned.kind, MatmulViewKind::Contiguous);
}

#[test]
fn contracted_dimensions_have_to_agree() {
    let shape = dot_general_shape(&[4, 8], &[8, 6], &[4, 6], &[], &[], &[1], &[0]).expect("shape");
    assert_eq!((shape.batch_count, shape.m, shape.k, shape.n), (1, 4, 8, 6));
    assert!(dot_general_shape(&[4, 8], &[9, 6], &[4, 6], &[], &[], &[1], &[0]).is_err());
    assert!(dot_general_shape(&[4, 8], &[8, 6], &[4, 7], &[], &[], &[1], &[0]).is_err());
    assert!(dot_general_shape(&[4, 8], &[8, 6], &[4, 6], &[], &[], &[2], &[0]).is_err());
}

fn buffer(num_tiles: usize, dtype: DType, shape: Vec<usize>) -> DramBuffer {
    DramBuffer { name: "input".to_owned(), addr: 0x1000, num_tiles, dtype, shape }
}

fn request() -> DotRequest<'static> {
    DotRequest {
        lhs_shape: &[64, 64],
        rhs_shape: &[64, 64],
        output_shape: &[64, 64],
        lhs_batching_dimensions: &[],
        rhs_batching_dimensions: &[],
        lhs_contracting_dimensions: &[1],
        rhs_contracting_dimensions: &[0],
    }
}

fn sources() -> MatmulSources<'static> {
    MatmulSources {
        reader_sender: "reader",
        reader_recv: "receiver",
        writer_sender: "writer",
        writer_recv: "writer receiver",
        top1_writer: "top1",
        compute: "compute",
    }
}

#[test]
fn multiplications_become_programs() {
    let a = buffer(4, DType::Float16B, vec![64, 64]);
    let grid = cores(&[1, 2], &[2, 3]);
    let store = MatmulEpilogue::Store { output_dtype: DType::Float32 };
    let key = matmul_key(&a, &a, &request(), store, MathFidelity::HiFi2, &grid).expect("key");
    assert_eq!((key.logical_mt, key.logical_kt, key.logical_nt), (2, 2, 2));
    let kernel = store_kernel(0x10, 0x20, 0x30, key).expect("kernel");
    let program = kernel.build_program(&sources()).expect("program");
    assert!(!program.runtime_args.blobs().is_empty());
    assert_eq!(kernel.writer_runtime_arg(grid[0], 18), Some(0x30));
    assert_eq!(kernel.reader_runtime_arg(grid[0], 0), Some(0x10));

    let wrong = buffer(4, DType::Float32, vec![64, 64]);
    assert!(matmul_key(&wrong, &a, &request(), store, MathFidelity::HiFi2, &grid).is_err());
    let small = buffer(2, DType::Float16B, vec![64, 32]);
    assert!(matmul_key(&small, &a, &request(), store, MathFidelity::HiFi2, &grid).is_err());
    let top = matmul_key(&a, &a, &request(), MatmulEpilogue::Top1, MathFidelity::HiFi2, &grid);
    assert!(top.expect_err("one row").to_string().contains("single row output"));
}

#[test]
fn the_largest_value_is_searched_core_by_core() {
    let row = buffer(2, DType::Float16B, vec![32, 64]);
    let matrix = buffer(4, DType::Float16B, vec![64, 64]);
    let grid = cores(&[1, 2], &[2, 3]);
    let request = DotRequest { lhs_shape: &[1, 64], output_shape: &[1, 64], ..request() };
    let key =
        matmul_key(&row, &matrix, &request, MatmulEpilogue::Top1, MathFidelity::LoFi, &grid)
            .expect("key");
    let plan = plan_for_key(&key).expect("plan");
    let partials = partial_count(&plan);
    assert!(partials >= 1 && partials <= 4);
    let kernel = top1_kernel(1, 2, 3, 4, key).expect("kernel");
    assert_eq!(kernel.writer_runtime_arg(grid[0], 18), Some(3));
    assert_eq!(kernel.writer_runtime_arg(grid[0], 19), Some(4));
    assert!(kernel.build_program(&sources()).is_ok());
}

#[test]
fn programs_hold_the_kernels_of_their_multiplication() {
    let a = buffer(4, DType::Float16B, vec![64, 64]);
    let grid = cores(&[1, 2], &[2, 3]);
    let store = MatmulEpilogue::Store { output_dtype: DType::Float32 };
    let key = matmul_key(&a, &a, &request(), store, MathFidelity::HiFi2, &grid).expect("key");
    let plan = plan_for_key(&key).expect("plan");
    let kernel = store_kernel(0x10, 0x20, 0x30, key).expect("kernel");
    let program = kernel.checked_program(&sources()).expect("size").expect("program");
    assert_eq!(program.reader_kernel, "reader");
    assert_eq!(program.reader_recv_kernel, "receiver");
    assert_eq!(program.writer_kernel, "writer");
    assert_eq!(program.writer_recv_kernel, "writer receiver");
    assert_eq!(program.compute_kernel, "compute");
    assert_eq!(program.compile.math_fidelity, MathFidelity::HiFi2);
    assert!(!program.compile.approx);
    assert!(program.compile.dst_accum_mode && program.compile.dst_full_sync);
    match plan.direct_grid {
        Some(_) => assert_eq!(program.grid, None),
        None => assert_eq!(program.grid, Some((plan.rows.clone(), plan.cols.clone()))),
    }
    let built = kernel.build_program(&sources()).expect("program");
    assert_eq!(built.name, program.name);
    assert_eq!(built.grid, program.grid);
    assert_eq!(built.runtime_args.blobs(), program.runtime_args.blobs());
}

#[test]
fn multiplications_that_are_too_large_are_not_planned() {
    let a = buffer(4, DType::Float16B, vec![64, 64]);
    let grid = cores(&[1, 2], &[2, 3]);
    let store = MatmulEpilogue::Store { output_dtype: DType::Float32 };
    let mut key = matmul_key(&a, &a, &request(), store, MathFidelity::HiFi2, &grid).expect("key");
    assert!(matches!(checked_plan(&key), Some(Ok(_))));
    key.cores.clear();
    let err = checked_plan(&key).expect("size").expect_err("no cores");
    assert_eq!(err.to_string(), "no worker cores are available");
    key.cores = grid;
    key.logical_mt = usize::MAX / 2;
    assert!(checked_plan(&key).is_none());
    let kernel = store_kernel(0x10, 0x20, 0x30, key).expect("kernel");
    assert!(kernel.checked_program(&sources()).is_none());
}

#[test]
fn every_core_has_a_tile_for_its_largest_value() {
    let row = buffer(2, DType::Float16B, vec![32, 64]);
    let matrix = buffer(4, DType::Float16B, vec![64, 64]);
    let grid = cores(&[1, 2], &[2, 3]);
    let request = DotRequest { lhs_shape: &[1, 64], output_shape: &[1, 64], ..request() };
    let key =
        matmul_key(&row, &matrix, &request, MatmulEpilogue::Top1, MathFidelity::LoFi, &grid)
            .expect("key");
    let plan = checked_plan(&key).expect("size").expect("plan");
    let count = plan_grid(&plan).iter().map(Vec::len).sum::<usize>();
    let (values, indices) = partial_buffers(&plan, "best");
    assert_eq!((values.num_tiles, values.dtype), (count, DType::Float16B));
    assert_eq!(values.shape, vec![count * 32, 32]);
    assert_eq!(values.name, "best_partial_values");
    assert_eq!((indices.num_tiles, indices.dtype), (count, DType::Int32));
    assert_eq!(indices.shape, vec![count * 32, 32]);
    assert_eq!(indices.name, "best_partial_indices");
    let kernel = top1_kernel(1, 2, 3, 4, key).expect("kernel");
    let program = kernel.checked_program(&sources()).expect("size").expect("program");
    assert_eq!(program.writer_kernel, "top1");
    assert_eq!(program.writer_recv_kernel, "top1");
}

#[test]
fn white_space_around_a_setting_is_dropped() {
    assert_eq!(
        parse_matmul_math_fidelity("\u{2003}\u{a0}lO\u{3000}\r\t").unwrap(),
        MathFidelity::LoFi,
    );
    let err = parse_matmul_math_fidelity(" \u{c4}B c ").expect_err("unknown");
    assert!(err.to_string().contains("\"\u{c4}b c\""));
}

#[test]
fn shards_are_made_once_for_each_right_operand() {
    let rhs = buffer(8, DType::Float16B, vec![64, 128]);
    let shards = buffer(64, DType::Float16B, vec![64, 1024]);
    let plan = MatmulWsPlan {
        kt: 2,
        logical_nt: 4,
        shard_nt: 16,
        per_core_n: 4,
        in0_block_w: 2,
        out_subblock_w: 4,
        cores: Vec::new(),
    };
    match sharded_rhs_for(Some((&rhs, &shards)), &rhs, &plan) {
        ShardStep::Keep(kept) => assert_eq!(kept, &shards),
        ShardStep::Make(_) => panic!("the shards are there"),
    }
    let other = DramBuffer { name: "other".to_owned(), ..rhs.clone() };
    for kept in [None, Some((&other, &shards))] {
        match sharded_rhs_for(kept, &rhs, &plan) {
            ShardStep::Keep(_) => panic!("these are not its shards"),
            ShardStep::Make(made) => {
                assert_eq!((made.num_tiles, made.dtype), (2 * 128, DType::Float16B));
                assert_eq!(made.shape, vec![2 * 32, 128 * 32]);
                assert_eq!(made.name, format!("{}_ws", rhs.name));
            }
        }
    }
}

#[test]
fn columns_that_do_not_fit_into_the_cores_are_not_sharded() {
    let tiles = Dram::tiles(&[]);
    let workers = cores(
        &[1, 2, 3, 4, 5, 6, 7, 10, 11, 12, 13, 14, 15, 16],
        &[2, 3, 4, 5, 6, 7, 8, 9, 10, 11],
    );
    for logical_nt in [1 << 20, usize::MAX] {
        let key = MatmulWsKey {
            kt: 4,
            logical_nt,
            dtype: DType::Float16B,
            math_fidelity: MathFidelity::HiFi2,
        };
        assert!(plan_width_sharded(8, &tiles, &workers, &key).is_none());
    }
}

#[test]
fn fidelity_settings_are_read_without_case_or_space() {
    assert_eq!(parse_matmul_math_fidelity(" HiFi2 \n").unwrap(), MathFidelity::HiFi2);
    assert_eq!(parse_matmul_math_fidelity("").unwrap(), MathFidelity::HiFi2);
    assert_eq!(parse_matmul_math_fidelity("LOFI").unwrap(), MathFidelity::LoFi);
    let err = parse_matmul_math_fidelity("hifi9").expect_err("unknown");
    assert!(err.to_string().contains("\"hifi9\""));
}

#[test]
fn width_sharding_gives_every_core_its_columns() {
    let tiles = Dram::tiles(&[]);
    let workers = cores(
        &[1, 2, 3, 4, 5, 6, 7, 10, 11, 12, 13, 14, 15, 16],
        &[2, 3, 4, 5, 6, 7, 8, 9, 10, 11],
    );
    let key = MatmulWsKey {
        kt: 4,
        logical_nt: 64,
        dtype: DType::Float16B,
        math_fidelity: MathFidelity::HiFi2,
    };
    let plan = plan_width_sharded(8, &tiles, &workers, &key).expect("plan");
    assert_eq!(plan.cores.len(), 32);
    assert!(plan.padded_nt() >= 64);
    let mut columns: Vec<usize> = plan.cores.iter().map(|c| c.column).collect();
    columns.sort();
    columns.dedup();
    let n = plan.per_core_n;
    assert_eq!(columns, vec![0, n, 2 * n, 3 * n]);
    let tile_bytes = 2;
    let data: Vec<u8> = (0..4 * 64 * tile_bytes).map(|i| (i / tile_bytes) as u8).collect();
    let pages = shard_pages(&data, &plan, tile_bytes);
    assert_eq!(pages.len(), 4 * plan.padded_nt() * tile_bytes);
    assert!(matmul_ws_program(&key, &plan, "r", "c", "w").is_ok());
    assert!(plan_width_sharded(7, &tiles, &workers, &key).is_none());
    assert!(width_sharding_enabled(None));
    assert!(!width_sharding_enabled(Some("0")));
}

#[test]
fn shards_lie_contiguous_in_their_banks_with_zeros_behind() {
    let tiles = Dram::tiles(&[]);
    let workers = cores(
        &[1, 2, 3, 4, 5, 6, 7, 10, 11, 12, 13, 14, 15, 16],
        &[2, 3, 4, 5, 6, 7, 8, 9, 10, 11],
    );
    let key = MatmulWsKey {
        kt: 2,
        logical_nt: 60,
        dtype: DType::Float16B,
        math_fidelity: MathFidelity::HiFi2,
    };
    let plan = plan_width_sharded(8, &tiles, &workers, &key).expect("plan");
    let (kt, nt, shard, tile) = (plan.kt, plan.logical_nt, plan.shard_nt, 2);
    assert!(nt < 8 * shard);
    let data: Vec<u8> = (0..kt * nt * tile).map(|i| (i % 255 + 1) as u8).collect();
    let pages = shard_pages(&data, &plan, tile);
    for bank in 0..8 {
        let held = collect_bank_data(&pages, tile, bank, 8);
        assert_eq!(held.len(), kt * shard * tile);
        for k in 0..kt {
            for j in 0..shard {
                let at = (k * shard + j) * tile;
                let n = bank * shard + j;
                let want = if n < nt {
                    data[(k * nt + n) * tile..][..tile].to_vec()
                } else {
                    vec![0; tile]
                };
                assert_eq!(held[at..at + tile], want);
            }
        }
    }
}
